use vstd::prelude::*;
use vstd::string::StringSliceAdditionalSpecFns;
use vstd::utf8::{decode_utf8, encode_utf8, valid_utf8};
use indexmap::IndexMap;
use crate::bytes::{
    append_bytes, contains, contains_bytes, ends_with, ends_with_bytes, le_u32, matches_at,
    same_bytes,
};
use crate::little_endian::{
    le_bytes, le_bytes16, le_u16, le_u64, read_i16, read_i32, read_u16, read_u32, read_u64,
    signed16, signed32, unsigned32, write_i32, write_u16,
};
use crate::text::{parse_i32, parsed_i32};

verus! {

/// Why a table could not be read.
#[derive(Clone, Copy, Debug, PartialEq, Eq, Structural)]
pub enum DntError {
    /// The file ends before the data that its counts and lengths announce.
    Truncated,
    /// The name of a column is not UTF-8.
    InvalidName,
}

#[verifier::external_type_specification]
#[verifier::external_body]
#[verifier::reject_recursive_types(K)]
#[verifier::reject_recursive_types(V)]
#[verifier::reject_recursive_types(S)]
pub struct ExIndexMap<K, V, S>(IndexMap<K, V, S>);

/// The names and types that a type dictionary holds, in the order of their first insertion.
pub uninterp spec fn dictionary_entries(dictionary: IndexMap<String, u8>) -> Seq<(Seq<char>, u8)>;

/// Position of the first entry with the given name, or the number of entries where none has it.
pub open spec fn position_of_name(entries: Seq<(Seq<char>, u8)>, name: Seq<char>) -> nat
    decreases entries.len(),
{
    if entries.len() > 0 && entries[0].0 != name {
        1 + position_of_name(entries.skip(1), name)
    } else {
        0
    }
}

/// The entries after `name` was given the type `kind`: where the name stood
/// already it keeps its place and gets the new type, else it is added last.
pub open spec fn with_entry(entries: Seq<(Seq<char>, u8)>, name: Seq<char>, kind: u8) -> Seq<
    (Seq<char>, u8),
> {
    let at = position_of_name(entries, name) as int;
    if at < entries.len() {
        entries.update(at, (name, kind))
    } else {
        entries.push((name, kind))
    }
}

/// Calls `IndexMap::new`.
/// Trusted: a new map holds nothing.
#[verifier::external_body]
pub(crate) fn dictionary_new() -> (dictionary: IndexMap<String, u8>)
    ensures
        dictionary_entries(dictionary) == Seq::<(Seq<char>, u8)>::empty(),
{
    IndexMap::new()
}

/// Calls `IndexMap::insert`.
/// Trusted: a key that the map holds keeps its place and gets the new
/// value; any other key is added last.
#[verifier::external_body]
pub(crate) fn dictionary_insert(dictionary: &mut IndexMap<String, u8>, name: String, kind: u8)
    ensures
        dictionary_entries(*final(dictionary)) == with_entry(
            dictionary_entries(*old(dictionary)),
            name@,
            kind,
        ),
{
    dictionary.insert(name, kind);
}

/// The value of a list of names and types.
pub open spec fn entry_views(entries: Seq<(String, u8)>) -> Seq<(Seq<char>, u8)> {
    Seq::new(entries.len(), |i: int| (entries[i].0@, entries[i].1))
}

/// Calls `IndexMap::iter` and copies each entry.
/// Trusted: the iterator gives the entries in the order of the map.
#[verifier::external_body]
pub(crate) fn dictionary_list(dictionary: &IndexMap<String, u8>) -> (entries: Vec<(String, u8)>)
    ensures
        entry_views(entries@) == dictionary_entries(*dictionary),
{
    dictionary.iter().map(|(name, kind)| (name.clone(), *kind)).collect()
}

/// How a table file names its row number and treats text: the two ways
/// in which tables have been written.
#[derive(Clone, Copy, Debug, PartialEq, Eq, Structural)]
pub enum Dialect {
    /// The row number is the column `_RowID`; every column whose name holds
    /// `_RowID` stands for it, and commas in text are shown as carets.
    Plain,
    /// The row number is the column `_RowID|3`; only that column stands for
    /// it, and text is shown as it is.
    Tagged,
}

/// The name under which a dialect lists the row number.
pub open spec fn id_column_name(dialect: Dialect) -> Seq<char> {
    match dialect {
        Dialect::Plain => "_RowID"@,
        Dialect::Tagged => "_RowID|3"@,
    }
}

/// A column with such a name holds no cell of its own: the row number stands for it.
pub open spec fn is_id_column(dialect: Dialect, name: Seq<char>) -> bool {
    match dialect {
        Dialect::Plain => contains_bytes(encode_utf8(name), "_RowID".spec_bytes()),
        Dialect::Tagged => encode_utf8(name) == "_RowID|3".spec_bytes(),
    }
}

/// One value of a row.
#[derive(Clone, Debug, PartialEq, Eq)]
pub enum Cell {
    /// Text, as the bytes to show.
    Text(Vec<u8>),
    /// A whole number.
    Integer(i32),
    /// The bits of a number in single precision.
    Single(u32),
    /// The bits of a number in double precision.
    Double(u64),
}

/// The mathematical value of a [`Cell`].
pub enum CellSpec {
    Text(Seq<u8>),
    Integer(i32),
    Single(u32),
    Double(u64),
}

impl View for Cell {
    type V = CellSpec;

    open spec fn view(&self) -> CellSpec {
        match self {
            Cell::Text(bytes) => CellSpec::Text(bytes@),
            Cell::Integer(value) => CellSpec::Integer(*value),
            Cell::Single(bits) => CellSpec::Single(*bits),
            Cell::Double(bits) => CellSpec::Double(*bits),
        }
    }
}

/// The values of a list of cells.
pub open spec fn cell_views(cells: Seq<Cell>) -> Seq<CellSpec> {
    Seq::new(cells.len(), |i: int| cells[i]@)
}

/// One row of a table: its number and a cell for each column that has one.
#[derive(Clone, Debug, PartialEq, Eq)]
pub struct Row {
    pub id: u32,
    pub cells: Vec<Cell>,
}

/// The mathematical value of a [`Row`].
pub struct RowSpec {
    pub id: u32,
    pub cells: Seq<CellSpec>,
}

impl View for Row {
    type V = RowSpec;

    open spec fn view(&self) -> RowSpec {
        RowSpec { id: self.id, cells: cell_views(self.cells@) }
    }
}

/// The values of a list of rows.
pub open spec fn row_views(rows: Seq<Row>) -> Seq<RowSpec> {
    Seq::new(rows.len(), |i: int| rows[i]@)
}

/// A table: the names and types of its columns, the row number first, and its rows.
#[derive(Clone, Debug, PartialEq, Eq)]
pub struct Table {
    pub columns: Vec<(String, u8)>,
    pub rows: Vec<Row>,
}

/// The mathematical value of a [`Table`].
pub struct TableSpec {
    pub columns: Seq<(Seq<char>, u8)>,
    pub rows: Seq<RowSpec>,
}

impl View for Table {
    type V = TableSpec;

    open spec fn view(&self) -> TableSpec {
        TableSpec { columns: entry_views(self.columns@), rows: row_views(self.rows@) }
    }
}

/// The type of a column of text.
pub const KIND_TEXT: u8 = 1;

/// The comma, which the plain dialect does not show in text.
pub const COMMA: u8 = 0x2c;

/// The caret, which the plain dialect shows in place of a comma.
pub const CARET: u8 = 0x5e;

/// Text as a dialect shows it.
pub open spec fn shown_text(bytes: Seq<u8>, dialect: Dialect) -> Seq<u8> {
    match dialect {
        Dialect::Plain => Seq::new(
            bytes.len(),
            |i: int|
                if bytes[i] == COMMA {
                    CARET
                } else {
                    bytes[i]
                },
        ),
        Dialect::Tagged => bytes,
    }
}

/// Copies text as a dialect shows it.
pub fn show_text(bytes: &[u8], dialect: Dialect) -> (shown: Vec<u8>)
    ensures
        shown@ == shown_text(bytes@, dialect),
{
    let mut shown: Vec<u8> = Vec::new();
    let mut i: usize = 0;
    while i < bytes.len()
        invariant
            i <= bytes.len(),
            shown@ == shown_text(bytes@.take(i as int), dialect),
        decreases bytes.len() - i,
    {
        let byte = bytes[i];
        let ghost before = shown@;
        match dialect {
            Dialect::Plain => {
                if byte == COMMA {
                    shown.push(CARET);
                } else {
                    shown.push(byte);
                }
            },
            Dialect::Tagged => {
                shown.push(byte);
            },
        }
        assert(shown@ =~= shown_text(bytes@.take(i + 1), dialect));
        i = i + 1;
    }
    assert(bytes@.take(bytes@.len() as int) =~= bytes@);
    shown
}

/// What a cell of the given type that starts at `at` holds, and where it ends.
pub open spec fn cell_at(input: Seq<u8>, at: int, kind: u8, dialect: Dialect) -> Result<
    (CellSpec, int),
    DntError,
> {
    if kind == KIND_TEXT {
        if at + 2 > input.len() {
            Err(DntError::Truncated)
        } else {
            let len = signed16(le_u16(input, at)) as int;
            if len <= 0 {
                Ok((CellSpec::Text(Seq::empty()), at + 2))
            } else if at + 2 + len > input.len() {
                Err(DntError::Truncated)
            } else {
                Ok(
                    (
                        CellSpec::Text(shown_text(input.subrange(at + 2, at + 2 + len), dialect)),
                        at + 2 + len,
                    ),
                )
            }
        }
    } else if kind == 2 || kind == 3 {
        if at + 4 > input.len() {
            Err(DntError::Truncated)
        } else {
            Ok((CellSpec::Integer(signed32(le_u32(input, at))), at + 4))
        }
    } else if kind == 4 || kind == 5 {
        if at + 4 > input.len() {
            Err(DntError::Truncated)
        } else {
            Ok((CellSpec::Single(le_u32(input, at)), at + 4))
        }
    } else if kind == 6 {
        if at + 8 > input.len() {
            Err(DntError::Truncated)
        } else {
            Ok((CellSpec::Double(le_u64(input, at)), at + 8))
        }
    } else if at > input.len() {
        Err(DntError::Truncated)
    } else {
        Ok((CellSpec::Text(Seq::empty()), at))
    }
}

/// The value of the result of reading one item.
pub open spec fn read_cell_view(r: Result<(Cell, usize), DntError>) -> Result<
    (CellSpec, int),
    DntError,
> {
    match r {
        Ok((cell, next)) => Ok((cell@, next as int)),
        Err(e) => Err(e),
    }
}

/// Reads the cell of the given type that starts at `at`.
#[verifier::rlimit(50)]
pub fn read_cell(input: &[u8], at: usize, kind: u8, dialect: Dialect) -> (r: Result<
    (Cell, usize),
    DntError,
>)
    ensures
        read_cell_view(r) == cell_at(input@, at as int, kind, dialect),
        r matches Ok((_, next)) ==> at <= next <= input.len(),
{
    if kind == KIND_TEXT {
        let len: i16 = match read_i16(input, at) {
            Some(len) => len,
            None => {
                return Err(DntError::Truncated);
            },
        };
        if len <= 0 {
            return Ok((Cell::Text(Vec::new()), at + 2));
        }
        let len: usize = len as usize;
        if len > input.len() - (at + 2) {
            return Err(DntError::Truncated);
        }
        let text = show_text(&input[at + 2..at + 2 + len], dialect);
        Ok((Cell::Text(text), at + 2 + len))
    } else if kind == 2 || kind == 3 {
        match read_i32(input, at) {
            Some(value) => Ok((Cell::Integer(value), at + 4)),
            None => Err(DntError::Truncated),
        }
    } else if kind == 4 || kind == 5 {
        match read_u32(input, at) {
            Some(bits) => Ok((Cell::Single(bits), at + 4)),
            None => Err(DntError::Truncated),
        }
    } else if kind == 6 {
        match read_u64(input, at) {
            Some(bits) => Ok((Cell::Double(bits), at + 8)),
            None => Err(DntError::Truncated),
        }
    } else {
        if at > input.len() {
            return Err(DntError::Truncated);
        }
        Ok((Cell::Text(Vec::new()), at))
    }
}

/// Calls `core::str::from_utf8` and copies the text.
/// Trusted: the call succeeds exactly on UTF-8 and gives the characters that the bytes encode.
#[verifier::external_body]
pub(crate) fn text_of(bytes: &[u8]) -> (r: Option<String>)
    ensures
        match r {
            Some(text) => valid_utf8(bytes@) && text@ == decode_utf8(bytes@),
            None => !valid_utf8(bytes@),
        },
{
    core::str::from_utf8(bytes).ok().map(String::from)
}

/// Whether the row number stands for a column of this name.
pub fn id_column(dialect: Dialect, name: &str) -> (r: bool)
    ensures
        r == is_id_column(dialect, name@),
{
    match dialect {
        Dialect::Plain => contains(name.as_bytes(), "_RowID".as_bytes()),
        Dialect::Tagged => {
            let bytes = name.as_bytes();
            let tag = "_RowID|3".as_bytes();
            let same = bytes.len() == tag.len() && matches_at(bytes, tag, 0);
            proof {
                if bytes@.len() == tag@.len() {
                    assert(bytes@.subrange(0, tag@.len() as int) =~= bytes@);
                }
            }
            same
        },
    }
}

/// The name and type of the column that is described at `at`, and where the description ends.
pub open spec fn column_at(input: Seq<u8>, at: int) -> Result<((Seq<char>, u8), int), DntError> {
    if at + 2 > input.len() {
        Err(DntError::Truncated)
    } else {
        let end = at + 2 + le_u16(input, at);
        if end > input.len() {
            Err(DntError::Truncated)
        } else if !valid_utf8(input.subrange(at + 2, end)) {
            Err(DntError::InvalidName)
        } else if end + 1 > input.len() {
            Err(DntError::Truncated)
        } else {
            Ok(((decode_utf8(input.subrange(at + 2, end)), input[end]), end + 1))
        }
    }
}

/// The type dictionary after `remaining` more columns are read from `at`
/// on into `entries`, and where their descriptions end.
pub open spec fn dictionary_at(
    input: Seq<u8>,
    at: int,
    remaining: nat,
    entries: Seq<(Seq<char>, u8)>,
) -> Result<(Seq<(Seq<char>, u8)>, int), DntError>
    decreases remaining,
{
    if remaining == 0 {
        Ok((entries, at))
    } else {
        match column_at(input, at) {
            Ok((column, next)) => dictionary_at(
                input,
                next,
                (remaining - 1) as nat,
                with_entry(entries, column.0, column.1),
            ),
            Err(e) => Err(e),
        }
    }
}

/// Reads the description of one column.
pub fn read_column(input: &[u8], at: usize) -> (r: Result<(String, u8, usize), DntError>)
    ensures
        match r {
            Ok((name, kind, next)) => column_at(input@, at as int) == Ok::<
                ((Seq<char>, u8), int),
                DntError,
            >(((name@, kind), next as int)) && at <= next <= input.len(),
            Err(e) => column_at(input@, at as int) == Err::<((Seq<char>, u8), int), DntError>(e),
        },
{
    let len: usize = match read_u16(input, at) {
        Some(len) => len as usize,
        None => {
            return Err(DntError::Truncated);
        },
    };
    if len > input.len() - (at + 2) {
        return Err(DntError::Truncated);
    }
    let end: usize = at + 2 + len;
    let name = match text_of(&input[at + 2..end]) {
        Some(name) => name,
        None => {
            return Err(DntError::InvalidName);
        },
    };
    if end >= input.len() {
        return Err(DntError::Truncated);
    }
    Ok((name, input[end], end + 1))
}

/// Reads `count` column descriptions from `at` on into a type dictionary
/// that holds the row number already.
#[verifier::rlimit(50)]
pub fn read_columns(input: &[u8], at: usize, count: u16, dialect: Dialect) -> (r: Result<
    (Vec<(String, u8)>, usize),
    DntError,
>)
    requires
        at <= input.len(),
    ensures
        match r {
            Ok((columns, next)) => dictionary_at(
                input@,
                at as int,
                count as nat,
                seq![(id_column_name(dialect), 3u8)],
            ) == Ok::<(Seq<(Seq<char>, u8)>, int), DntError>((entry_views(columns@), next as int))
                && at <= next <= input.len(),
            Err(e) => dictionary_at(
                input@,
                at as int,
                count as nat,
                seq![(id_column_name(dialect), 3u8)],
            ) == Err::<(Seq<(Seq<char>, u8)>, int), DntError>(e),
        },
{
    let mut dictionary = dictionary_new();
    let id_name = match dialect {
        Dialect::Plain => "_RowID".to_owned(),
        Dialect::Tagged => "_RowID|3".to_owned(),
    };
    dictionary_insert(&mut dictionary, id_name, 3);
    let ghost first = seq![(id_column_name(dialect), 3u8)];
    proof {
        assert(with_entry(Seq::<(Seq<char>, u8)>::empty(), id_column_name(dialect), 3u8) =~= first);
    }
    let mut next: usize = at;
    let mut done: u16 = 0;
    while done < count
        invariant
            done <= count,
            at <= next <= input.len(),
            first == seq![(id_column_name(dialect), 3u8)],
            dictionary_at(input@, at as int, count as nat, first) == dictionary_at(
                input@,
                next as int,
                (count - done) as nat,
                dictionary_entries(dictionary),
            ),
        decreases count - done,
    {
        match read_column(input, next) {
            Ok((name, kind, after)) => {
                dictionary_insert(&mut dictionary, name, kind);
                next = after;
            },
            Err(e) => {
                assert(dictionary_at(
                    input@,
                    next as int,
                    (count - done) as nat,
                    dictionary_entries(dictionary),
                ) == Err::<(Seq<(Seq<char>, u8)>, int), DntError>(e));
                return Err(e);
            },
        }
        done = done + 1;
    }
    Ok((dictionary_list(&dictionary), next))
}

/// The cells of a row that starts at `at`, from column `from` on and after
/// the cells read so far, and where the row ends.
pub open spec fn cells_at(
    input: Seq<u8>,
    at: int,
    columns: Seq<(Seq<char>, u8)>,
    from: int,
    cells: Seq<CellSpec>,
    dialect: Dialect,
) -> Result<(Seq<CellSpec>, int), DntError>
    decreases columns.len() - from,
{
    if from < 0 || from >= columns.len() {
        Ok((cells, at))
    } else if is_id_column(dialect, columns[from].0) {
        cells_at(input, at, columns, from + 1, cells, dialect)
    } else {
        match cell_at(input, at, columns[from].1, dialect) {
            Ok((cell, next)) => cells_at(input, next, columns, from + 1, cells.push(cell), dialect),
            Err(e) => Err(e),
        }
    }
}

/// The row that starts at `at`: its number, then its cells.
pub open spec fn row_at(
    input: Seq<u8>,
    at: int,
    columns: Seq<(Seq<char>, u8)>,
    dialect: Dialect,
) -> Result<(RowSpec, int), DntError> {
    if at + 4 > input.len() {
        Err(DntError::Truncated)
    } else {
        match cells_at(input, at + 4, columns, 0, Seq::empty(), dialect) {
            Ok((cells, next)) => Ok((RowSpec { id: le_u32(input, at), cells }, next)),
            Err(e) => Err(e),
        }
    }
}

/// The rows of a table after `remaining` more rows are read from `at` on.
pub open spec fn rows_at(
    input: Seq<u8>,
    at: int,
    remaining: nat,
    rows: Seq<RowSpec>,
    columns: Seq<(Seq<char>, u8)>,
    dialect: Dialect,
) -> Result<Seq<RowSpec>, DntError>
    decreases remaining,
{
    if remaining == 0 {
        Ok(rows)
    } else {
        match row_at(input, at, columns, dialect) {
            Ok((row, next)) => rows_at(
                input,
                next,
                (remaining - 1) as nat,
                rows.push(row),
                columns,
                dialect,
            ),
            Err(e) => Err(e),
        }
    }
}

/// Where the number of columns stands in a table file.
pub const COLUMN_COUNT_AT: usize = 4;

/// Where the number of rows stands in a table file.
pub const ROW_COUNT_AT: usize = 6;

/// Where the description of the first column starts in a table file.
pub const COLUMNS_AT: usize = 10;

/// The table that a file holds: after four bytes that are passed over, the
/// number of columns and of rows, the columns, then the rows.
pub open spec fn table_of(input: Seq<u8>, dialect: Dialect) -> Result<TableSpec, DntError> {
    if input.len() < COLUMNS_AT {
        Err(DntError::Truncated)
    } else {
        match dictionary_at(
            input,
            COLUMNS_AT as int,
            le_u16(input, COLUMN_COUNT_AT as int) as nat,
            seq![(id_column_name(dialect), 3u8)],
        ) {
            Ok((columns, next)) => match rows_at(
                input,
                next,
                le_u32(input, ROW_COUNT_AT as int) as nat,
                Seq::empty(),
                columns,
                dialect,
            ) {
                Ok(rows) => Ok(TableSpec { columns, rows }),
                Err(e) => Err(e),
            },
            Err(e) => Err(e),
        }
    }
}

/// Reads the row that starts at `at`.
#[verifier::rlimit(50)]
pub fn read_row(input: &[u8], at: usize, columns: &Vec<(String, u8)>, dialect: Dialect) -> (r:
    Result<(Row, usize), DntError>)
    ensures
        match r {
            Ok((row, next)) => row_at(input@, at as int, entry_views(columns@), dialect) == Ok::<
                (RowSpec, int),
                DntError,
            >((row@, next as int)) && at <= next <= input.len(),
            Err(e) => row_at(input@, at as int, entry_views(columns@), dialect) == Err::<
                (RowSpec, int),
                DntError,
            >(e),
        },
{
    let id: u32 = match read_u32(input, at) {
        Some(id) => id,
        None => {
            return Err(DntError::Truncated);
        },
    };
    let ghost listed = entry_views(columns@);
    let ghost whole = cells_at(input@, at + 4, listed, 0, Seq::empty(), dialect);
    let mut cells: Vec<Cell> = Vec::new();
    let mut next: usize = at + 4;
    let mut from: usize = 0;
    proof {
        assert(cell_views(cells@) =~= Seq::<CellSpec>::empty());
    }
    while from < columns.len()
        invariant
            from <= columns.len(),
            at + 4 <= next <= input.len(),
            listed == entry_views(columns@),
            whole == cells_at(input@, at + 4, listed, 0, Seq::empty(), dialect),
            whole == cells_at(input@, next as int, listed, from as int, cell_views(cells@), dialect),
        decreases columns.len() - from,
    {
        let column = &columns[from];
        assert(listed[from as int] == (column.0@, column.1));
        if !id_column(dialect, column.0.as_str()) {
            match read_cell(input, next, column.1, dialect) {
                Ok((cell, after)) => {
                    assert(cell_views(cells@.push(cell)) =~= cell_views(cells@).push(cell@));
                    cells.push(cell);
                    next = after;
                },
                Err(e) => {
                    return Err(e);
                },
            }
        }
        from = from + 1;
    }
    Ok((Row { id, cells }, next))
}

/// Reads a table file.
///
/// Fails with [`DntError::Truncated`] where the file ends before its data
/// does, and with [`DntError::InvalidName`] at a column name that is not UTF-8.
#[verifier::rlimit(50)]
pub fn read_dnt(input: &[u8], dialect: Dialect) -> (r: Result<Table, DntError>)
    ensures
        match r {
            Ok(table) => table_of(input@, dialect) == Ok::<TableSpec, DntError>(table@),
            Err(e) => table_of(input@, dialect) == Err::<TableSpec, DntError>(e),
        },
{
    let column_count: u16 = match read_u16(input, COLUMN_COUNT_AT) {
        Some(count) => count,
        None => {
            return Err(DntError::Truncated);
        },
    };
    let row_count: u32 = match read_u32(input, ROW_COUNT_AT) {
        Some(count) => count,
        None => {
            return Err(DntError::Truncated);
        },
    };
    let (columns, first) = match read_columns(input, COLUMNS_AT, column_count, dialect) {
        Ok(read) => read,
        Err(e) => {
            return Err(e);
        },
    };
    let ghost listed = entry_views(columns@);
    let ghost whole = rows_at(
        input@,
        first as int,
        row_count as nat,
        Seq::empty(),
        listed,
        dialect,
    );
    let mut rows: Vec<Row> = Vec::new();
    let mut next: usize = first;
    let mut done: u32 = 0;
    proof {
        assert(row_views(rows@) =~= Seq::<RowSpec>::empty());
    }
    while done < row_count
        invariant
            done <= row_count,
            next <= input.len(),
            listed == entry_views(columns@),
            table_of(input@, dialect) == match whole {
                Ok(rows) => Ok::<TableSpec, DntError>(TableSpec { columns: listed, rows }),
                Err(e) => Err(e),
            },
            whole == rows_at(
                input@,
                next as int,
                (row_count - done) as nat,
                row_views(rows@),
                listed,
                dialect,
            ),
        decreases row_count - done,
    {
        match read_row(input, next, &columns, dialect) {
            Ok((row, after)) => {
                assert(row_views(rows@.push(row)) =~= row_views(rows@).push(row@));
                rows.push(row);
                next = after;
            },
            Err(e) => {
                assert(whole == Err::<Seq<RowSpec>, DntError>(e));
                return Err(e);
            },
        }
        done = done + 1;
    }
    Ok(Table { columns, rows })
}

/// One piece of a table file that is being written.
#[derive(Clone, Debug, PartialEq, Eq)]
pub enum Piece {
    /// Bytes to write as they are.
    Bytes(Vec<u8>),
    /// The text of a number to store in four bytes, in single precision.
    Single(Vec<u8>),
    /// The text of a number to store in eight bytes, in double precision.
    Double(Vec<u8>),
}

/// The mathematical value of a [`Piece`].
pub enum PieceSpec {
    Bytes(Seq<u8>),
    Single(Seq<u8>),
    Double(Seq<u8>),
}

impl View for Piece {
    type V = PieceSpec;

    open spec fn view(&self) -> PieceSpec {
        match self {
            Piece::Bytes(bytes) => PieceSpec::Bytes(bytes@),
            Piece::Single(text) => PieceSpec::Single(text@),
            Piece::Double(text) => PieceSpec::Double(text@),
        }
    }
}

/// The values of a list of pieces.
pub open spec fn piece_views(pieces: Seq<Piece>) -> Seq<PieceSpec> {
    Seq::new(pieces.len(), |i: int| pieces[i]@)
}

/// Text as it is stored: what a dialect shows as a caret is a comma.
pub open spec fn unshown_text(bytes: Seq<u8>, dialect: Dialect) -> Seq<u8> {
    match dialect {
        Dialect::Plain => Seq::new(
            bytes.len(),
            |i: int|
                if bytes[i] == CARET {
                    COMMA
                } else {
                    bytes[i]
                },
        ),
        Dialect::Tagged => bytes,
    }
}

/// The text that is stored for a cell of text: nothing for an empty cell
/// and for `0.0`; else the cell, without a closing `.0` if it has one.
pub open spec fn stored_text(value: Seq<u8>, dialect: Dialect) -> Seq<u8> {
    if value.len() == 0 || value == "0.0".spec_bytes() {
        Seq::empty()
    } else if ends_with_bytes(value, ".0".spec_bytes()) {
        unshown_text(value.take(value.len() - 2), dialect)
    } else {
        unshown_text(value, dialect)
    }
}

/// Copies text as it is stored.
pub fn unshow_text(bytes: &[u8], dialect: Dialect) -> (stored: Vec<u8>)
    ensures
        stored@ == unshown_text(bytes@, dialect),
{
    let mut stored: Vec<u8> = Vec::new();
    let mut i: usize = 0;
    while i < bytes.len()
        invariant
            i <= bytes.len(),
            stored@ == unshown_text(bytes@.take(i as int), dialect),
        decreases bytes.len() - i,
    {
        let byte = bytes[i];
        match dialect {
            Dialect::Plain => {
                if byte == CARET {
                    stored.push(COMMA);
                } else {
                    stored.push(byte);
                }
            },
            Dialect::Tagged => {
                stored.push(byte);
            },
        }
        assert(stored@ =~= unshown_text(bytes@.take(i + 1), dialect));
        i = i + 1;
    }
    assert(bytes@.take(bytes@.len() as int) =~= bytes@);
    stored
}

/// Gives the text that is stored for a cell of text.
pub fn store_text(value: &[u8], dialect: Dialect) -> (stored: Vec<u8>)
    ensures
        stored@ == stored_text(value@, dialect),
{
    if value.len() == 0 || same_bytes(value, "0.0".as_bytes()) {
        Vec::new()
    } else if ends_with(value, ".0".as_bytes()) {
        proof {
            assert(".0".spec_bytes().len() == 2) by {
                reveal_strlit(".0");
                vstd::utf8::is_ascii_chars_encode_utf8(".0"@);
            }
        }
        let kept = &value[0..value.len() - 2];
        assert(kept@ =~= value@.take(value@.len() - 2));
        unshow_text(kept, dialect)
    } else {
        unshow_text(value, dialect)
    }
}

/// The bytes of a cell of text: the length of the stored text in two
/// bytes, cut to 16 bits, then the stored text.
pub open spec fn text_cell(value: Seq<u8>, dialect: Dialect) -> Seq<u8> {
    let stored = stored_text(value, dialect);
    le_bytes16((stored.len() % 0x1_0000) as u16) + stored
}

/// The bytes of a cell of whole numbers: the number that the text writes, or zero.
pub open spec fn integer_cell(value: Seq<u8>) -> Seq<u8> {
    le_bytes(
        unsigned32(
            match parsed_i32(value) {
                Some(number) => number,
                None => 0i32,
            },
        ),
    )
}

/// Encodes a cell of text.
pub fn encode_text_cell(value: &[u8], dialect: Dialect) -> (bytes: Vec<u8>)
    ensures
        bytes@ == text_cell(value@, dialect),
{
    let stored = store_text(value, dialect);
    let mut bytes: Vec<u8> = Vec::new();
    write_u16(&mut bytes, (stored.len() % 0x1_0000) as u16);
    append_bytes(&mut bytes, stored.as_slice());
    assert(bytes@ =~= text_cell(value@, dialect));
    bytes
}

/// Encodes a cell of whole numbers.
pub fn encode_integer_cell(value: &[u8]) -> (bytes: Vec<u8>)
    ensures
        bytes@ == integer_cell(value@),
{
    let number: i32 = match parse_i32(value) {
        Some(number) => number,
        None => 0,
    };
    let mut bytes: Vec<u8> = Vec::new();
    write_i32(&mut bytes, number);
    assert(bytes@ =~= integer_cell(value@));
    bytes
}

} // verus!
