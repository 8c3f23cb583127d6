use vstd::prelude::*;

verus! {

/// The characters with the Unicode property White_Space.
pub open spec fn is_white_space(c: char) -> bool {
    let n = c as u32;
    ||| 0x09 <= n <= 0x0d
    ||| n == 0x20
    ||| n == 0x85
    ||| n == 0xa0
    ||| n == 0x1680
    ||| 0x2000 <= n <= 0x200a
    ||| n == 0x2028
    ||| n == 0x2029
    ||| n == 0x202f
    ||| n == 0x205f
    ||| n == 0x3000
}

/// Number of white-space characters that `text` begins with.
pub open spec fn leading_white_space(text: Seq<char>) -> nat
    decreases text.len(),
{
    if text.len() > 0 && is_white_space(text[0]) {
        1 + leading_white_space(text.skip(1))
    } else {
        0
    }
}

/// Number of white-space characters that `text` ends with.
pub open spec fn trailing_white_space(text: Seq<char>) -> nat
    decreases text.len(),
{
    if text.len() > 0 && is_white_space(text.last()) {
        1 + trailing_white_space(text.drop_last())
    } else {
        0
    }
}

/// `text` without the white space that it begins and ends with.
pub open spec fn trimmed(text: Seq<char>) -> Seq<char> {
    let rest = text.skip(leading_white_space(text) as int);
    rest.take(rest.len() - trailing_white_space(rest))
}

/// The characters of each line of a list.
pub open spec fn line_texts(lines: Seq<String>) -> Seq<Seq<char>> {
    Seq::new(lines.len(), |i: int| lines[i]@)
}

/// Calls `str::trim`.
/// Trusted: the result is the argument without its leading and trailing
/// characters of the Unicode property White_Space.
#[verifier::external_body]
pub(crate) fn trim(text: &str) -> (r: &str)
    ensures
        r@ == trimmed(text@),
{
    text.trim()
}

/// Number of bytes of `text` before its first separator (all of them if it has none).
pub open spec fn field_len(text: Seq<u8>, separator: u8) -> nat
    decreases text.len(),
{
    if text.len() > 0 && text[0] != separator {
        1 + field_len(text.skip(1), separator)
    } else {
        0
    }
}

/// `n` is the number of bytes before the first separator.
pub proof fn lemma_field_len(text: Seq<u8>, separator: u8, n: int)
    requires
        0 <= n <= text.len(),
        forall|i: int| 0 <= i < n ==> text[i] != separator,
        n == text.len() || text[n] == separator,
    ensures
        field_len(text, separator) == n,
    decreases n,
{
    if n > 0 {
        lemma_field_len(text.skip(1), separator, n - 1);
    }
}

/// The fields of a text: what stands before, between and after its
/// separators, in order. A text without separators is one field.
pub open spec fn fields(text: Seq<u8>, separator: u8) -> Seq<Seq<u8>>
    decreases text.len(),
{
    let n = field_len(text, separator) as int;
    if n >= text.len() {
        seq![text]
    } else {
        seq![text.take(n)] + fields(text.skip(n + 1), separator)
    }
}

/// The byte sequences that a list of vectors holds.
pub open spec fn field_views(parts: Seq<Vec<u8>>) -> Seq<Seq<u8>> {
    Seq::new(parts.len(), |i: int| parts[i]@)
}

/// Splits a text into its fields.
#[verifier::rlimit(50)]
pub fn split_fields(text: &[u8], separator: u8) -> (parts: Vec<Vec<u8>>)
    ensures
        field_views(parts@) == fields(text@, separator),
{
    let mut parts: Vec<Vec<u8>> = Vec::new();
    let mut start: usize = 0;
    proof {
        assert(text@.skip(0) =~= text@);
        assert(field_views(parts@) =~= Seq::<Seq<u8>>::empty());
    }
    loop
        invariant_except_break
            start <= text.len(),
            fields(text@, separator) == field_views(parts@) + fields(
                text@.skip(start as int),
                separator,
            ),
        ensures
            field_views(parts@) == fields(text@, separator),
        decreases text.len() - start,
    {
        let mut end: usize = start;
        while end < text.len() && text[end] != separator
            invariant
                start <= end <= text.len(),
                forall|i: int| start <= i < end ==> text@[i] != separator,
            decreases text.len() - end,
        {
            end = end + 1;
        }
        let ghost rest = text@.skip(start as int);
        let part = crate::bytes::copy_range(text, start, end);
        proof {
            lemma_field_len(rest, separator, end - start);
            assert(rest.take(end - start) =~= part@);
            assert(field_views(parts@.push(part)) =~= field_views(parts@) + seq![part@]);
        }
        parts.push(part);
        if end == text.len() {
            proof {
                assert(rest =~= part@);
            }
            break ;
        }
        proof {
            assert(rest.skip(end - start + 1) =~= text@.skip(end + 1));
        }
        start = end + 1;
    }
    parts
}

/// The plus sign.
pub const PLUS: u8 = 0x2b;

/// The minus sign.
pub const MINUS: u8 = 0x2d;

/// The digit zero.
pub const ZERO: u8 = 0x30;

/// The digit nine.
pub const NINE: u8 = 0x39;

/// Every byte of `text` is a decimal digit.
pub open spec fn all_digits(text: Seq<u8>) -> bool {
    forall|i: int| 0 <= i < text.len() ==> ZERO <= #[trigger] text[i] <= NINE
}

/// The number that decimal digits write.
pub open spec fn digits_value(digits: Seq<u8>) -> int
    decreases digits.len(),
{
    if digits.len() == 0 {
        0
    } else {
        digits_value(digits.drop_last()) * 10 + (digits.last() - ZERO)
    }
}

/// The number that a prefix of digits writes is not negative.
pub proof fn lemma_digits_value_take_nonnegative(digits: Seq<u8>, n: int)
    requires
        all_digits(digits),
        0 <= n <= digits.len(),
    ensures
        0 <= digits_value(digits.take(n)),
    decreases n,
{
    if n > 0 {
        lemma_digits_value_take_nonnegative(digits, n - 1);
        assert(digits.take(n).drop_last() =~= digits.take(n - 1));
    } else {
        assert(digits.take(0) =~= Seq::<u8>::empty());
    }
}

/// A number does not get smaller when more digits follow.
pub proof fn lemma_digits_value_grows(digits: Seq<u8>, n: int)
    requires
        all_digits(digits),
        0 <= n <= digits.len(),
    ensures
        0 <= digits_value(digits.take(n)) <= digits_value(digits),
    decreases digits.len() - n,
{
    lemma_digits_value_take_nonnegative(digits, n);
    if n == digits.len() {
        assert(digits.take(n) =~= digits);
    } else {
        lemma_digits_value_grows(digits, n + 1);
        assert(digits.take(n + 1).drop_last() =~= digits.take(n));
        assert(digits.take(n + 1).last() == digits[n]);
    }
}

/// The number that `digits` write, where they are digits all and the number is at most `limit`.
pub open spec fn value_up_to(digits: Seq<u8>, limit: int) -> Option<int> {
    if all_digits(digits) && digits_value(digits) <= limit {
        Some(digits_value(digits))
    } else {
        None
    }
}

/// The number that an optional machine number holds.
pub open spec fn number_of(r: Option<u64>) -> Option<int> {
    match r {
        Some(value) => Some(value as int),
        None => None,
    }
}

/// Reads decimal digits as a number of at most `limit`.
#[verifier::rlimit(50)]
pub fn parse_digits(digits: &[u8], limit: u64) -> (r: Option<u64>)
    requires
        limit <= 0xffff_ffff_ffff,
    ensures
        number_of(r) == value_up_to(digits@, limit as int),
{
    let mut value: u64 = 0;
    let mut i: usize = 0;
    proof {
        assert(digits@.take(0) =~= Seq::<u8>::empty());
    }
    while i < digits.len()
        invariant
            i <= digits.len(),
            limit <= 0xffff_ffff_ffff,
            all_digits(digits@.take(i as int)),
            value == digits_value(digits@.take(i as int)),
            value <= limit,
        decreases digits.len() - i,
    {
        let digit = digits[i];
        if digit < ZERO || digit > NINE {
            return None;
        }
        proof {
            assert(digits@.take(i + 1).drop_last() =~= digits@.take(i as int));
            assert(digits@.take(i + 1).last() == digit);
            assert(all_digits(digits@.take(i + 1))) by {
                assert forall|j: int| 0 <= j < i + 1 implies ZERO <= #[trigger] digits@.take(
                    i + 1,
                )[j] <= NINE by {
                    if j < i {
                        assert(digits@.take(i as int)[j] == digits@[j]);
                    }
                }
            }
        }
        value = value * 10 + (digit - ZERO) as u64;
        if value > limit {
            proof {
                if all_digits(digits@) {
                    lemma_digits_value_grows(digits@, i + 1);
                }
            }
            return None;
        }
        i = i + 1;
    }
    proof {
        assert(digits@.take(digits@.len() as int) =~= digits@);
    }
    Some(value)
}

/// The number that a text writes as an unsigned byte: digits, after a plus
/// sign or without, that write a number of at most 255.
pub open spec fn parsed_u8(text: Seq<u8>) -> Option<u8> {
    let digits = if text.len() > 0 && text[0] == PLUS {
        text.skip(1)
    } else {
        text
    };
    if digits.len() == 0 {
        None
    } else {
        match value_up_to(digits, 255) {
            Some(value) => Some(value as u8),
            None => None,
        }
    }
}

/// The number that a text writes as a signed 32-bit number: digits, after
/// a sign or without, that write a number within the range.
pub open spec fn parsed_i32(text: Seq<u8>) -> Option<i32> {
    let signed = text.len() > 0 && (text[0] == PLUS || text[0] == MINUS);
    let digits = if signed {
        text.skip(1)
    } else {
        text
    };
    if digits.len() == 0 {
        None
    } else if text[0] == MINUS {
        match value_up_to(digits, 0x8000_0000) {
            Some(value) => Some((-value) as i32),
            None => None,
        }
    } else {
        match value_up_to(digits, 0x7fff_ffff) {
            Some(value) => Some(value as i32),
            None => None,
        }
    }
}

/// Reads a text as an unsigned byte.
pub fn parse_u8(text: &[u8]) -> (r: Option<u8>)
    ensures
        r == parsed_u8(text@),
{
    let start: usize = if text.len() > 0 && text[0] == PLUS {
        1
    } else {
        0
    };
    if start == text.len() {
        return None;
    }
    let digits = &text[start..text.len()];
    assert(digits@ =~= text@.skip(start as int));
    assert(text@.skip(0) =~= text@);
    match parse_digits(digits, 255) {
        Some(value) => Some(value as u8),
        None => None,
    }
}

/// Reads a text as a signed 32-bit number.
pub fn parse_i32(text: &[u8]) -> (r: Option<i32>)
    ensures
        r == parsed_i32(text@),
{
    let signed = text.len() > 0 && (text[0] == PLUS || text[0] == MINUS);
    let start: usize = if signed {
        1
    } else {
        0
    };
    if start == text.len() {
        return None;
    }
    let digits = &text[start..text.len()];
    assert(digits@ =~= text@.skip(start as int));
    assert(text@.skip(0) =~= text@);
    if text[0] == MINUS {
        match parse_digits(digits, 0x8000_0000) {
            Some(value) => Some((0 - value as i64) as i32),
            None => None,
        }
    } else {
        match parse_digits(digits, 0x7fff_ffff) {
            Some(value) => Some(value as i32),
            None => None,
        }
    }
}

/// The digits that write a byte in decimal, without leading zeros.
pub open spec fn decimal_text(n: u8) -> Seq<u8> {
    if n < 10 {
        seq![(ZERO + n) as u8]
    } else if n < 100 {
        seq![(ZERO + n / 10) as u8, (ZERO + n % 10) as u8]
    } else {
        seq![(ZERO + n / 100) as u8, (ZERO + n / 10 % 10) as u8, (ZERO + n % 10) as u8]
    }
}

/// Appends to `out` the digits that write a byte in decimal.
pub fn append_decimal(out: &mut Vec<u8>, n: u8)
    ensures
        final(out)@ == old(out)@ + decimal_text(n),
{
    if n >= 100 {
        out.push(ZERO + n / 100);
    }
    if n >= 10 {
        out.push(ZERO + n / 10 % 10);
    }
    out.push(ZERO + n % 10);
    assert(out@ =~= old(out)@ + decimal_text(n));
}

} // verus!
