use vstd::prelude::*;
use vstd::string::StringSliceAdditionalSpecFns;
use crate::bytes::{
    append_bytes, find, first_occurrence, le_u32, matches_at, occurs_at, position_of,
};
use crate::little_endian::{le_bytes, lemma_le_round_trip, read_u32, write_u32};

verus! {

/// Length of the opening block of an animation file, which is carried over as it stands.
pub const PREAMBLE_LEN: usize = 32;

/// The first version of the format that carries the additional bytes.
pub const EXTENDED_VERSION: u32 = 6;

/// The version that a converted file declares.
pub const TARGET_VERSION: u32 = 5;

/// Why an animation file could not be converted.
#[derive(Clone, Copy, Debug, PartialEq, Eq, Structural)]
pub enum ActError {
    /// The file ends before the data that its counts and lengths announce.
    Truncated,
}

/// How far an item reaches in the input, and what the conversion writes for it.
pub struct Step {
    pub next: int,
    pub emitted: Seq<u8>,
}

/// Where `count` bytes from `at` on end, if the input holds them.
pub open spec fn span_end(input: Seq<u8>, at: int, count: int) -> Option<int> {
    if at + count <= input.len() {
        Some(at + count)
    } else {
        None
    }
}

/// Where a length-prefixed block that starts at `at` ends: a number, then that many bytes.
pub open spec fn string_end(input: Seq<u8>, at: int) -> Option<int> {
    if at + 4 <= input.len() {
        span_end(input, at + 4, le_u32(input, at) as int)
    } else {
        None
    }
}

/// Where a table that starts at `at` ends: a count, then one number and
/// `float_count` four-byte values for each item.
pub open spec fn table_end(input: Seq<u8>, at: int, float_count: int) -> Option<int> {
    if at + 4 <= input.len() {
        let count = le_u32(input, at) as int;
        span_end(input, at + 4, 4 * count + 4 * (count * float_count))
    } else {
        None
    }
}

/// Where `count` length-prefixed blocks that start at `at` end.
pub open spec fn blocks_end(input: Seq<u8>, at: int, count: nat) -> Option<int>
    decreases count,
{
    if count == 0 {
        Some(at)
    } else {
        match string_end(input, at) {
            Some(next) => blocks_end(input, next, (count - 1) as nat),
            None => None,
        }
    }
}

/// Where a table of blocks that starts at `at` ends: a count, one number
/// for each item, then one length-prefixed block for each item.
pub open spec fn variable_table_end(input: Seq<u8>, at: int) -> Option<int> {
    if at + 4 <= input.len() {
        let count = le_u32(input, at);
        match span_end(input, at + 4, 4 * count) {
            Some(next) => blocks_end(input, next, count as nat),
            None => None,
        }
    } else {
        None
    }
}

/// Copies `count` bytes from `at` on to the output.
pub fn copy_bytes(input: &[u8], at: usize, output: &mut Vec<u8>, count: usize) -> (r: Result<
    usize,
    ActError,
>)
    ensures
        match r {
            Ok(next) => {
                &&& span_end(input@, at as int, count as int) == Some(next as int)
                &&& final(output)@ == old(output)@ + input@.subrange(at as int, next as int)
            },
            Err(_) => {
                &&& span_end(input@, at as int, count as int) is None
                &&& final(output)@ == old(output)@
            },
        },
{
    if at > input.len() || count > input.len() - at {
        return Err(ActError::Truncated);
    }
    append_bytes(output, &input[at..at + count]);
    Ok(at + count)
}

/// Copies `count` four-byte numbers from `at` on to the output.
pub fn read_multiple_u32(input: &[u8], at: usize, output: &mut Vec<u8>, count: usize) -> (r:
    Result<usize, ActError>)
    ensures
        match r {
            Ok(next) => {
                &&& span_end(input@, at as int, 4 * count) == Some(next as int)
                &&& final(output)@ == old(output)@ + input@.subrange(at as int, next as int)
            },
            Err(_) => {
                &&& span_end(input@, at as int, 4 * count) is None
                &&& final(output)@ == old(output)@
            },
        },
{
    if at > input.len() || count > (input.len() - at) / 4 {
        return Err(ActError::Truncated);
    }
    copy_bytes(input, at, output, 4 * count)
}

/// Copies a length-prefixed block to the output.
pub fn read_string(input: &[u8], at: usize, output: &mut Vec<u8>) -> (r: Result<usize, ActError>)
    ensures
        match r {
            Ok(next) => {
                &&& string_end(input@, at as int) == Some(next as int)
                &&& at + 4 <= next <= input.len()
                &&& final(output)@ == old(output)@ + input@.subrange(at as int, next as int)
            },
            Err(_) => {
                &&& string_end(input@, at as int) is None
                &&& old(output)@.is_prefix_of(final(output)@)
            },
        },
{
    let len: u32 = match read_u32(input, at) {
        Some(len) => len,
        None => {
            return Err(ActError::Truncated);
        },
    };
    write_u32(output, len);
    proof {
        lemma_le_round_trip(input@, at as int);
    }
    match copy_bytes(input, at + 4, output, len as usize) {
        Ok(next) => {
            assert(output@ =~= old(output)@ + input@.subrange(at as int, next as int));
            Ok(next)
        },
        Err(e) => Err(e),
    }
}

/// Copies a table to the output.
#[verifier::rlimit(50)]
pub fn read_table(input: &[u8], at: usize, output: &mut Vec<u8>, float_count: usize) -> (r:
    Result<usize, ActError>)
    ensures
        match r {
            Ok(next) => {
                &&& table_end(input@, at as int, float_count as int) == Some(next as int)
                &&& at + 4 <= next <= input.len()
                &&& final(output)@ == old(output)@ + input@.subrange(at as int, next as int)
            },
            Err(_) => {
                &&& table_end(input@, at as int, float_count as int) is None
                &&& old(output)@.is_prefix_of(final(output)@)
            },
        },
{
    let count: u32 = match read_u32(input, at) {
        Some(count) => count,
        None => {
            return Err(ActError::Truncated);
        },
    };
    write_u32(output, count);
    proof {
        lemma_le_round_trip(input@, at as int);
    }
    let mut next: usize = at + 4;
    if count == 0 {
        assert(count * float_count == 0) by (nonlinear_arith)
            requires
                count == 0,
        ;
    } else {
        assert(count * float_count <= 0xffff_ffff * 0xffff_ffff_ffff_ffff) by (nonlinear_arith)
            requires
                count <= 0xffff_ffff,
                float_count <= 0xffff_ffff_ffff_ffff,
        ;
        let values: u128 = count as u128 * float_count as u128;
        let left: u128 = (input.len() - next) as u128;
        if 4 * count as u128 + 4 * values > left {
            return Err(ActError::Truncated);
        }
        next =
        match read_multiple_u32(input, next, output, count as usize) {
            Ok(next) => next,
            Err(e) => {
                return Err(e);
            },
        };
        next =
        match read_multiple_u32(input, next, output, values as usize) {
            Ok(next) => next,
            Err(e) => {
                return Err(e);
            },
        };
    }
    assert(output@ =~= old(output)@ + input@.subrange(at as int, next as int));
    Ok(next)
}

/// Copies a table of blocks to the output.
#[verifier::rlimit(50)]
pub fn read_variable_size_table(input: &[u8], at: usize, output: &mut Vec<u8>) -> (r: Result<
    usize,
    ActError,
>)
    ensures
        match r {
            Ok(next) => {
                &&& variable_table_end(input@, at as int) == Some(next as int)
                &&& at + 4 <= next <= input.len()
                &&& final(output)@ == old(output)@ + input@.subrange(at as int, next as int)
            },
            Err(_) => {
                &&& variable_table_end(input@, at as int) is None
                &&& old(output)@.is_prefix_of(final(output)@)
            },
        },
{
    let count: u32 = match read_u32(input, at) {
        Some(count) => count,
        None => {
            return Err(ActError::Truncated);
        },
    };
    write_u32(output, count);
    proof {
        lemma_le_round_trip(input@, at as int);
    }
    let mut next: usize = at + 4;
    if count > 0 {
        next =
        match read_multiple_u32(input, next, output, count as usize) {
            Ok(next) => next,
            Err(e) => {
                return Err(e);
            },
        };
        let ghost first: int = next as int;
        let mut done: u32 = 0;
        while done < count
            invariant
                done <= count,
                at + 4 <= first <= next <= input.len(),
                variable_table_end(input@, at as int) == blocks_end(input@, first, count as nat),
                blocks_end(input@, first, count as nat) == blocks_end(
                    input@,
                    next as int,
                    (count - done) as nat,
                ),
                output@ == old(output)@ + input@.subrange(at as int, next as int),
            decreases count - done,
        {
            let ghost before = output@;
            match read_string(input, next, output) {
                Ok(after) => {
                    assert(output@ =~= old(output)@ + input@.subrange(at as int, after as int));
                    next = after;
                },
                Err(e) => {
                    assert(old(output)@.is_prefix_of(before));
                    return Err(e);
                },
            }
            done = done + 1;
        }
    }
    Ok(next)
}

/// Length of the fixed part that opens a signal: four numbers and a block of 256 bytes.
pub const SIGNAL_FIXED_LEN: usize = 272;

/// Length of the fixed fields of an action that follow its third name and
/// are carried over: four numbers, one byte and one more number.
pub const ACTION_FIXED_LEN: usize = 21;

/// Where the part of a signal that is carried over ends: the fixed part,
/// three tables with two, three and four values per item, and a table of blocks.
pub open spec fn signal_body_end(input: Seq<u8>, at: int) -> Option<int> {
    match span_end(input, at, SIGNAL_FIXED_LEN as int) {
        Some(first) => match table_end(input, first, 2) {
            Some(second) => match table_end(input, second, 3) {
                Some(third) => match table_end(input, third, 4) {
                    Some(fourth) => variable_table_end(input, fourth),
                    None => None,
                },
                None => None,
            },
            None => None,
        },
        None => None,
    }
}

/// A signal is carried over but for its last byte, which is dropped.
pub open spec fn signal_step(input: Seq<u8>, at: int) -> Option<Step> {
    match signal_body_end(input, at) {
        Some(end) => if end + 1 <= input.len() {
            Some(Step { next: end + 1, emitted: input.subrange(at, end) })
        } else {
            None
        },
        None => None,
    }
}

/// What `count` signals in a row come to.
pub open spec fn signals_step(input: Seq<u8>, at: int, count: nat) -> Option<Step>
    decreases count,
{
    if count == 0 {
        Some(Step { next: at, emitted: Seq::empty() })
    } else {
        match signal_step(input, at) {
            Some(first) => prefixed(
                first.emitted,
                signals_step(input, first.next, (count - 1) as nat),
            ),
            None => None,
        }
    }
}

/// The step `rest` with `emitted` written before what it writes.
pub open spec fn prefixed(emitted: Seq<u8>, rest: Option<Step>) -> Option<Step> {
    match rest {
        Some(step) => Some(Step { next: step.next, emitted: emitted + step.emitted }),
        None => None,
    }
}

/// The conversion of one item went as the step says: on success the output
/// is longer by what the step writes, and on failure what it held is still there.
pub open spec fn stepped(
    step: Option<Step>,
    r: Result<usize, ActError>,
    before: Seq<u8>,
    after: Seq<u8>,
) -> bool {
    match r {
        Ok(next) => {
            &&& step is Some
            &&& step->0.next == next
            &&& after == before + step->0.emitted
        },
        Err(_) => step is None && before.is_prefix_of(after),
    }
}

/// Writing `first` and then `second` before a step is writing both before it.
pub proof fn lemma_prefixed_twice(first: Seq<u8>, second: Seq<u8>, rest: Option<Step>)
    ensures
        prefixed(first, prefixed(second, rest)) == prefixed(first + second, rest),
{
    if rest is Some {
        assert(first + (second + rest->0.emitted) =~= (first + second) + rest->0.emitted);
    }
}

/// Writing nothing before a step leaves it as it is.
pub proof fn lemma_prefixed_nothing(rest: Option<Step>)
    ensures
        prefixed(Seq::empty(), rest) == rest,
{
    if rest is Some {
        assert(Seq::<u8>::empty() + rest->0.emitted =~= rest->0.emitted);
    }
}

/// Converts one signal.
#[verifier::rlimit(50)]
pub fn convert_signal(input: &[u8], at: usize, output: &mut Vec<u8>) -> (r: Result<usize, ActError>)
    ensures
        stepped(signal_step(input@, at as int), r, old(output)@, final(output)@),
{
    let first = match copy_bytes(input, at, output, SIGNAL_FIXED_LEN) {
        Ok(next) => next,
        Err(e) => {
            return Err(e);
        },
    };
    let second = match read_table(input, first, output, 2) {
        Ok(next) => next,
        Err(e) => {
            return Err(e);
        },
    };
    assert(first <= second <= input.len());
    assert(output@ =~= old(output)@ + input@.subrange(at as int, second as int));
    let third = match read_table(input, second, output, 3) {
        Ok(next) => next,
        Err(e) => {
            return Err(e);
        },
    };
    assert(second <= third <= input.len());
    assert(output@ =~= old(output)@ + input@.subrange(at as int, third as int));
    let fourth = match read_table(input, third, output, 4) {
        Ok(next) => next,
        Err(e) => {
            return Err(e);
        },
    };
    assert(third <= fourth <= input.len());
    assert(output@ =~= old(output)@ + input@.subrange(at as int, fourth as int));
    let end = match read_variable_size_table(input, fourth, output) {
        Ok(next) => next,
        Err(e) => {
            return Err(e);
        },
    };
    if end >= input.len() {
        return Err(ActError::Truncated);
    }
    assert(output@ =~= old(output)@ + input@.subrange(at as int, end as int));
    Ok(end + 1)
}

/// Converts `count` signals in a row.
#[verifier::rlimit(50)]
pub fn convert_signals(input: &[u8], at: usize, output: &mut Vec<u8>, count: u32) -> (r: Result<
    usize,
    ActError,
>)
    ensures
        stepped(signals_step(input@, at as int, count as nat), r, old(output)@, final(output)@),
{
    let ghost whole = signals_step(input@, at as int, count as nat);
    let ghost mut emitted: Seq<u8> = Seq::empty();
    let mut next: usize = at;
    let mut done: u32 = 0;
    proof {
        lemma_prefixed_nothing(whole);
        assert(output@ =~= old(output)@ + emitted);
    }
    while done < count
        invariant
            done <= count,
            output@ == old(output)@ + emitted,
            whole == signals_step(input@, at as int, count as nat),
            whole == prefixed(emitted, signals_step(input@, next as int, (count - done) as nat)),
        decreases count - done,
    {
        let ghost before = output@;
        match convert_signal(input, next, output) {
            Ok(after) => {
                proof {
                    let first = signal_step(input@, next as int)->0;
                    let rest = signals_step(input@, after as int, (count - done - 1) as nat);
                    lemma_prefixed_twice(emitted, first.emitted, rest);
                    assert(output@ =~= old(output)@ + (emitted + first.emitted));
                    emitted = emitted + first.emitted;
                }
                next = after;
            },
            Err(e) => {
                assert(signals_step(input@, next as int, (count - done) as nat) is None);
                assert(old(output)@.is_prefix_of(before));
                assert(old(output)@.is_prefix_of(output@));
                return Err(e);
            },
        }
        done = done + 1;
    }
    proof {
        assert(emitted + Seq::<u8>::empty() =~= emitted);
    }
    Ok(next)
}

/// Where the fields of an action that are carried over end: two names, a
/// number, a third name and the fixed fields.
pub open spec fn action_fields_end(input: Seq<u8>, at: int) -> Option<int> {
    match string_end(input, at) {
        Some(first) => match string_end(input, first) {
            Some(second) => match span_end(input, second, 4) {
                Some(third) => match string_end(input, third) {
                    Some(fourth) => span_end(input, fourth, ACTION_FIXED_LEN as int),
                    None => None,
                },
                None => None,
            },
            None => None,
        },
        None => None,
    }
}

/// An action is carried over but for the byte after its fixed fields, which
/// is dropped; the count of its signals and the signals follow.
pub open spec fn action_step(input: Seq<u8>, at: int) -> Option<Step> {
    match action_fields_end(input, at) {
        Some(end) => if end + 5 <= input.len() {
            prefixed(
                input.subrange(at, end) + input.subrange(end + 1, end + 5),
                signals_step(input, end + 5, le_u32(input, end + 1) as nat),
            )
        } else {
            None
        },
        None => None,
    }
}

/// What `count` actions in a row come to.
pub open spec fn actions_step(input: Seq<u8>, at: int, count: nat) -> Option<Step>
    decreases count,
{
    if count == 0 {
        Some(Step { next: at, emitted: Seq::empty() })
    } else {
        match action_step(input, at) {
            Some(first) => prefixed(
                first.emitted,
                actions_step(input, first.next, (count - 1) as nat),
            ),
            None => None,
        }
    }
}

/// Copies the fields of an action that are carried over.
#[verifier::rlimit(50)]
pub fn copy_action_fields(input: &[u8], at: usize, output: &mut Vec<u8>) -> (r: Result<
    usize,
    ActError,
>)
    ensures
        match r {
            Ok(end) => {
                &&& action_fields_end(input@, at as int) == Some(end as int)
                &&& at <= end <= input.len()
                &&& final(output)@ == old(output)@ + input@.subrange(at as int, end as int)
            },
            Err(_) => {
                &&& action_fields_end(input@, at as int) is None
                &&& old(output)@.is_prefix_of(final(output)@)
            },
        },
{
    let first = match read_string(input, at, output) {
        Ok(next) => next,
        Err(e) => {
            return Err(e);
        },
    };
    let second = match read_string(input, first, output) {
        Ok(next) => next,
        Err(e) => {
            return Err(e);
        },
    };
    assert(output@ =~= old(output)@ + input@.subrange(at as int, second as int));
    let third = match copy_bytes(input, second, output, 4) {
        Ok(next) => next,
        Err(e) => {
            return Err(e);
        },
    };
    assert(output@ =~= old(output)@ + input@.subrange(at as int, third as int));
    let fourth = match read_string(input, third, output) {
        Ok(next) => next,
        Err(e) => {
            return Err(e);
        },
    };
    assert(output@ =~= old(output)@ + input@.subrange(at as int, fourth as int));
    let end = match copy_bytes(input, fourth, output, ACTION_FIXED_LEN) {
        Ok(next) => next,
        Err(e) => {
            return Err(e);
        },
    };
    assert(output@ =~= old(output)@ + input@.subrange(at as int, end as int));
    Ok(end)
}

/// Converts one action.
#[verifier::rlimit(50)]
pub fn convert_action(input: &[u8], at: usize, output: &mut Vec<u8>) -> (r: Result<usize, ActError>)
    ensures
        stepped(action_step(input@, at as int), r, old(output)@, final(output)@),
{
    let end = match copy_action_fields(input, at, output) {
        Ok(end) => end,
        Err(e) => {
            return Err(e);
        },
    };
    if end >= input.len() {
        return Err(ActError::Truncated);
    }
    let count: u32 = match read_u32(input, end + 1) {
        Some(count) => count,
        None => {
            return Err(ActError::Truncated);
        },
    };
    write_u32(output, count);
    let ghost head = input@.subrange(at as int, end as int) + input@.subrange(end + 1, end + 5);
    proof {
        lemma_le_round_trip(input@, end + 1);
        assert(output@ =~= old(output)@ + head);
    }
    let ghost before = output@;
    match convert_signals(input, end + 5, output, count) {
        Ok(next) => {
            proof {
                let rest = signals_step(input@, end + 5, count as nat)->0;
                assert(output@ =~= old(output)@ + (head + rest.emitted));
            }
            Ok(next)
        },
        Err(e) => {
            assert(old(output)@.is_prefix_of(before));
            assert(old(output)@.is_prefix_of(output@));
            Err(e)
        },
    }
}

/// Converts `count` actions in a row.
#[verifier::rlimit(50)]
pub fn convert_actions(input: &[u8], at: usize, output: &mut Vec<u8>, count: u32) -> (r: Result<
    usize,
    ActError,
>)
    ensures
        stepped(actions_step(input@, at as int, count as nat), r, old(output)@, final(output)@),
{
    let ghost whole = actions_step(input@, at as int, count as nat);
    let ghost mut emitted: Seq<u8> = Seq::empty();
    let mut next: usize = at;
    let mut done: u32 = 0;
    proof {
        lemma_prefixed_nothing(whole);
        assert(output@ =~= old(output)@ + emitted);
    }
    while done < count
        invariant
            done <= count,
            output@ == old(output)@ + emitted,
            whole == actions_step(input@, at as int, count as nat),
            whole == prefixed(emitted, actions_step(input@, next as int, (count - done) as nat)),
        decreases count - done,
    {
        let ghost before = output@;
        match convert_action(input, next, output) {
            Ok(after) => {
                proof {
                    let first = action_step(input@, next as int)->0;
                    let rest = actions_step(input@, after as int, (count - done - 1) as nat);
                    lemma_prefixed_twice(emitted, first.emitted, rest);
                    assert(output@ =~= old(output)@ + (emitted + first.emitted));
                    emitted = emitted + first.emitted;
                }
                next = after;
            },
            Err(e) => {
                assert(actions_step(input@, next as int, (count - done) as nat) is None);
                assert(old(output)@.is_prefix_of(before));
                assert(old(output)@.is_prefix_of(output@));
                return Err(e);
            },
        }
        done = done + 1;
    }
    proof {
        assert(emitted + Seq::<u8>::empty() =~= emitted);
    }
    Ok(next)
}

/// Where the version stands in an animation file.
pub const VERSION_AT: usize = 32;

/// Where the number of actions stands in an animation file.
pub const ACTION_COUNT_AT: usize = 36;

/// Where the first action starts in an animation file.
pub const ACTIONS_AT: usize = 40;

/// What the conversion makes of an animation file: nothing where the
/// version is below 6, else the same file in version 5, without the one
/// byte that version 6 adds to each action and to each signal.
pub open spec fn converted(input: Seq<u8>) -> Result<Option<Seq<u8>>, ActError> {
    if input.len() < ACTION_COUNT_AT {
        Err(ActError::Truncated)
    } else if le_u32(input, VERSION_AT as int) < EXTENDED_VERSION {
        Ok(None)
    } else if input.len() < ACTIONS_AT {
        Err(ActError::Truncated)
    } else {
        match actions_step(
            input,
            ACTIONS_AT as int,
            le_u32(input, ACTION_COUNT_AT as int) as nat,
        ) {
            Some(actions) => Ok(
                Some(
                    input.take(PREAMBLE_LEN as int) + le_bytes(TARGET_VERSION) + input.subrange(
                        ACTION_COUNT_AT as int,
                        ACTIONS_AT as int,
                    ) + actions.emitted,
                ),
            ),
            None => Err(ActError::Truncated),
        }
    }
}

/// The bytes that a conversion result holds.
pub open spec fn converted_bytes(r: Result<Option<Vec<u8>>, ActError>) -> Result<
    Option<Seq<u8>>,
    ActError,
> {
    match r {
        Ok(Some(bytes)) => Ok(Some(bytes@)),
        Ok(None) => Ok(None),
        Err(e) => Err(e),
    }
}

/// Converts an animation file of version 6 or later to version 5.
///
/// Gives `Ok(None)` for a file of an earlier version, which needs no
/// conversion, and fails where the file ends before its data does. What
/// follows the last action is not carried over.
pub fn convert_act_v6_to_v5(input: &[u8]) -> (r: Result<Option<Vec<u8>>, ActError>)
    ensures
        converted_bytes(r) == converted(input@),
{
    let version: u32 = match read_u32(input, VERSION_AT) {
        Some(version) => version,
        None => {
            return Err(ActError::Truncated);
        },
    };
    if version < EXTENDED_VERSION {
        return Ok(None);
    }
    let count: u32 = match read_u32(input, ACTION_COUNT_AT) {
        Some(count) => count,
        None => {
            return Err(ActError::Truncated);
        },
    };
    let mut output: Vec<u8> = Vec::new();
    append_bytes(&mut output, &input[0..PREAMBLE_LEN]);
    write_u32(&mut output, TARGET_VERSION);
    write_u32(&mut output, count);
    let ghost head = input@.take(PREAMBLE_LEN as int) + le_bytes(TARGET_VERSION) + input@.subrange(
        ACTION_COUNT_AT as int,
        ACTIONS_AT as int,
    );
    proof {
        lemma_le_round_trip(input@, ACTION_COUNT_AT as int);
        assert(output@ =~= head);
    }
    match convert_actions(input, ACTIONS_AT, &mut output, count) {
        Ok(_) => Ok(Some(output)),
        Err(e) => Err(e),
    }
}

/// From where on the directory of an animation file is repeated below the
/// output directory: from the first `mapdata\resource\prop`, else from the
/// first `resource` unless `resource\prop` stands there; else not at all.
pub open spec fn mirrored_from(parent: Seq<u8>) -> Option<int> {
    match first_occurrence(parent, "mapdata\\resource\\prop".spec_bytes()) {
        Some(at) => Some(at),
        None => match first_occurrence(parent, "resource".spec_bytes()) {
            Some(at) => if occurs_at(parent, "resource\\prop".spec_bytes(), at) {
                None
            } else {
                Some(at)
            },
            None => None,
        },
    }
}

/// Finds from where on the directory of an animation file is repeated below the output directory.
pub fn mirror_start(parent: &[u8]) -> (start: Option<usize>)
    ensures
        position_of(start) == mirrored_from(parent@),
{
    match find(parent, "mapdata\\resource\\prop".as_bytes()) {
        Some(at) => Some(at),
        None => match find(parent, "resource".as_bytes()) {
            Some(at) => {
                let marker = "resource\\prop".as_bytes();
                if marker.len() <= parent.len() - at && matches_at(parent, marker, at) {
                    None
                } else {
                    Some(at)
                }
            },
            None => None,
        },
    }
}

} // verus!
