use vstd::prelude::*;
use vstd::string::StringSliceAdditionalSpecFns;
use vstd::utf8::{decode_utf8, encode_utf8, valid_utf8};
use crate::bytes::{append_bytes, contains, contains_bytes, copy_range, same_bytes};
use crate::dnt::{
    dictionary_entries, dictionary_insert, dictionary_list, dictionary_new, encode_text_cell,
    entry_views, piece_views, read_dnt, table_of, text_cell, text_of, with_entry,
    Dialect, DntError, Piece, PieceSpec, Table, TableSpec,
};
use crate::little_endian::{le_bytes, le_bytes16, unsigned32, write_i32, write_u16, write_u32};
use crate::text::{
    append_decimal, decimal_text, field_views, fields, parse_i32, parse_u8, parsed_i32,
    parsed_u8, split_fields,
};

verus! {

/// The tab, which separates the fields of a record.
pub const TAB: u8 = 0x09;

/// The bar, which separates the name of a column from its type.
pub const BAR: u8 = 0x7c;

/// Reads a table file for writing it out as lines of text, in the tagged dialect.
pub fn convert_to_tsv(input: &[u8]) -> (r: Result<Table, DntError>)
    ensures
        match r {
            Ok(table) => table_of(input@, Dialect::Tagged) == Ok::<TableSpec, DntError>(table@),
            Err(e) => table_of(input@, Dialect::Tagged) == Err::<TableSpec, DntError>(e),
        },
{
    read_dnt(input, Dialect::Tagged)
}

/// Why a table in tab-separated records could not be encoded.
#[derive(Clone, Copy, Debug, PartialEq, Eq, Structural)]
pub enum TsvError {
    /// The records could not be read: broken quoting, text that is not
    /// UTF-8, or records of different lengths.
    Unreadable,
    /// There are fewer columns than the count of columns needs.
    ColumnCount,
    /// A header holds no bar and so no type.
    MissingType,
    /// The type of a header is no number from 0 to 255.
    InvalidType,
    /// The name of a column is not UTF-8.
    InvalidName,
    /// No header is the name of a column, a bar and its type in decimal.
    MissingColumn,
    /// A record is shorter than the position of a column.
    MissingField,
    /// A row number or a cell of whole numbers is no number.
    InvalidNumber,
}

/// What the reader of the `csv` crate, set to tabs, makes of a text: the
/// records, the header record first, or `None` where it reports an error.
pub uninterp spec fn tab_separated_records(input: Seq<u8>) -> Option<Seq<Seq<Seq<char>>>>;

/// The texts of the fields of a list of records.
pub open spec fn record_texts(records: Option<Vec<Vec<String>>>) -> Option<Seq<Seq<Seq<char>>>> {
    match records {
        Some(records) => Some(
            Seq::new(
                records@.len(),
                |i: int| Seq::new(records@[i]@.len(), |j: int| records@[i]@[j]@),
            ),
        ),
        None => None,
    }
}

/// Builds a reader with `csv::ReaderBuilder`, set to tabs by `delimiter`,
/// over `input` by `from_reader`, and collects what `Reader::headers` and
/// `Reader::records` give.
/// Trusted: what the reader gives depends on the input alone; an error of
/// the reader is reported as `None`, and the header record comes first.
#[verifier::external_body]
pub(crate) fn read_records(input: &[u8]) -> (r: Option<Vec<Vec<String>>>)
    ensures
        record_texts(r) == tab_separated_records(input@),
        r matches Some(records) ==> records@.len() >= 1,
{
    let mut reader = csv::ReaderBuilder::new().delimiter(b'\t').from_reader(input);
    let header: Vec<String> = reader.headers().ok()?.iter().map(String::from).collect();
    let rows: Option<Vec<Vec<String>>> = reader.records().map(
        |record| record.ok().map(|fields| fields.iter().map(String::from).collect()),
    ).collect();
    Some(std::iter::once(header).chain(rows?).collect())
}

/// The bytes of each field of a record.
pub open spec fn field_bytes(record: Seq<String>) -> Seq<Seq<u8>> {
    Seq::new(record.len(), |i: int| encode_utf8(record[i]@))
}

/// A header with `64` in it names a column that is left out.
pub open spec fn is_left_out(header: Seq<u8>) -> bool {
    contains_bytes(header, "64".spec_bytes())
}

/// A header that names the row number or a column that is left out gets no column of its own.
pub open spec fn is_passed_over(header: Seq<u8>) -> bool {
    contains_bytes(header, "_RowID".spec_bytes()) || is_left_out(header)
}

/// Number of headers that name a column that is left out.
pub open spec fn left_out_count(headers: Seq<Seq<u8>>) -> nat
    decreases headers.len(),
{
    if headers.len() == 0 {
        0
    } else if is_left_out(headers.last()) {
        left_out_count(headers.drop_last()) + 1
    } else {
        left_out_count(headers.drop_last())
    }
}

/// The number of columns that the table file declares: one less than the
/// number of headers, less the columns that are left out.
pub open spec fn declared_columns(headers: Seq<Seq<u8>>) -> Result<int, TsvError> {
    if headers.len() - 1 - left_out_count(headers) < 0 {
        Err(TsvError::ColumnCount)
    } else {
        Ok(headers.len() - 1 - left_out_count(headers))
    }
}

/// The column that a header declares: the name before its first bar and
/// the type that stands between its first and its second bar.
pub open spec fn declared_column(header: Seq<u8>) -> Result<(Seq<char>, u8), TsvError> {
    let parts = fields(header, BAR);
    if parts.len() < 2 {
        Err(TsvError::MissingType)
    } else {
        match parsed_u8(parts[1]) {
            None => Err(TsvError::InvalidType),
            Some(kind) => if valid_utf8(parts[0]) {
                Ok((decode_utf8(parts[0]), kind))
            } else {
                Err(TsvError::InvalidName)
            },
        }
    }
}

/// What the table file holds for a column: the length of its name in two
/// bytes, cut to 16 bits, the name and the type.
pub open spec fn column_record(header: Seq<u8>, kind: u8) -> Seq<u8> {
    let name = fields(header, BAR)[0];
    le_bytes16((name.len() % 0x1_0000) as u16) + name + seq![kind]
}

/// The columns of a table and what the table file holds for them.
pub struct PlanSpec {
    pub columns: Seq<(Seq<char>, u8)>,
    pub records: Seq<u8>,
}

/// The plan after the headers from `from` on are added to it.
pub open spec fn plan_at(headers: Seq<Seq<u8>>, from: int, plan: PlanSpec) -> Result<
    PlanSpec,
    TsvError,
>
    decreases headers.len() - from,
{
    if from < 0 || from >= headers.len() {
        Ok(plan)
    } else if is_passed_over(headers[from]) {
        plan_at(headers, from + 1, plan)
    } else {
        match declared_column(headers[from]) {
            Ok((name, kind)) => plan_at(
                headers,
                from + 1,
                PlanSpec {
                    columns: with_entry(plan.columns, name, kind),
                    records: plan.records + column_record(headers[from], kind),
                },
            ),
            Err(e) => Err(e),
        }
    }
}

/// The header that names a column: its name, a bar and its type in decimal.
pub open spec fn column_label(name: Seq<char>, kind: u8) -> Seq<u8> {
    encode_utf8(name) + seq![BAR] + decimal_text(kind)
}

/// The position of the first header from `from` on that is `label`.
pub open spec fn label_position(headers: Seq<Seq<u8>>, label: Seq<u8>, from: int) -> Option<int>
    decreases headers.len() - from,
{
    if from < 0 || from >= headers.len() {
        None
    } else if headers[from] == label {
        Some(from)
    } else {
        label_position(headers, label, from + 1)
    }
}

/// The piece that stands for a field of a record.
pub open spec fn record_cell(kind: u8, value: Seq<u8>) -> Result<PieceSpec, TsvError> {
    if kind == 1 {
        Ok(PieceSpec::Bytes(text_cell(value, Dialect::Tagged)))
    } else if kind == 2 || kind == 3 {
        match parsed_i32(value) {
            Some(number) => Ok(PieceSpec::Bytes(le_bytes(unsigned32(number)))),
            None => Err(TsvError::InvalidNumber),
        }
    } else if 4 <= kind <= 6 {
        Ok(PieceSpec::Single(value))
    } else {
        Ok(PieceSpec::Bytes(seq![0u8]))
    }
}

/// The pieces of a record after the columns from `from` on are added.
pub open spec fn cells_at(
    record: Seq<Seq<u8>>,
    headers: Seq<Seq<u8>>,
    columns: Seq<(Seq<char>, u8)>,
    from: int,
    pieces: Seq<PieceSpec>,
) -> Result<Seq<PieceSpec>, TsvError>
    decreases columns.len() - from,
{
    if from < 0 || from >= columns.len() {
        Ok(pieces)
    } else {
        match label_position(headers, column_label(columns[from].0, columns[from].1), 0) {
            None => Err(TsvError::MissingColumn),
            Some(at) => if at >= record.len() {
                Err(TsvError::MissingField)
            } else {
                match record_cell(columns[from].1, record[at]) {
                    Ok(piece) => cells_at(record, headers, columns, from + 1, pieces.push(piece)),
                    Err(e) => Err(e),
                }
            },
        }
    }
}

/// The pieces that stand for a record: its row number, which its first
/// field writes, then one piece for each column.
pub open spec fn record_pieces(
    record: Seq<Seq<u8>>,
    headers: Seq<Seq<u8>>,
    columns: Seq<(Seq<char>, u8)>,
) -> Result<Seq<PieceSpec>, TsvError> {
    if record.len() == 0 {
        Err(TsvError::MissingField)
    } else {
        match parsed_i32(record[0]) {
            Some(id) => cells_at(
                record,
                headers,
                columns,
                0,
                seq![PieceSpec::Bytes(le_bytes(unsigned32(id)))],
            ),
            None => Err(TsvError::InvalidNumber),
        }
    }
}

/// The value of the result of encoding pieces.
pub open spec fn pieces_view(r: Result<Vec<Piece>, TsvError>) -> Result<Seq<PieceSpec>, TsvError> {
    match r {
        Ok(pieces) => Ok(piece_views(pieces@)),
        Err(e) => Err(e),
    }
}

/// Whether a header names a column that is left out.
pub fn left_out(header: &[u8]) -> (r: bool)
    ensures
        r == is_left_out(header@),
{
    contains(header, "64".as_bytes())
}

/// Whether a header gets no column of its own.
pub fn passed_over(header: &[u8]) -> (r: bool)
    ensures
        r == is_passed_over(header@),
{
    contains(header, "_RowID".as_bytes()) || left_out(header)
}

/// Counts the columns that the table file declares.
pub fn count_columns(headers: &Vec<String>) -> (r: Result<usize, TsvError>)
    ensures
        match r {
            Ok(count) => declared_columns(field_bytes(headers@)) == Ok::<int, TsvError>(
                count as int,
            ),
            Err(e) => declared_columns(field_bytes(headers@)) == Err::<int, TsvError>(e),
        },
{
    let ghost all = field_bytes(headers@);
    let mut left: usize = 0;
    let mut i: usize = 0;
    proof {
        assert(all.take(0) =~= Seq::<Seq<u8>>::empty());
    }
    while i < headers.len()
        invariant
            i <= headers.len(),
            all == field_bytes(headers@),
            left == left_out_count(all.take(i as int)),
            left <= i,
        decreases headers.len() - i,
    {
        proof {
            assert(all.take(i + 1).drop_last() =~= all.take(i as int));
            assert(all.take(i + 1).last() == encode_utf8(headers@[i as int]@));
        }
        if left_out(headers[i].as_str().as_bytes()) {
            left = left + 1;
        }
        i = i + 1;
    }
    proof {
        assert(all.take(headers@.len() as int) =~= all);
    }
    if headers.len() == 0 || left > headers.len() - 1 {
        Err(TsvError::ColumnCount)
    } else {
        Ok(headers.len() - 1 - left)
    }
}

/// Reads the column that a header declares and appends to `records` what
/// the table file holds for it.
pub fn read_declared_column(header: &[u8], records: &mut Vec<u8>) -> (r: Result<
    (String, u8),
    TsvError,
>)
    ensures
        match r {
            Ok((name, kind)) => {
                &&& declared_column(header@) == Ok::<(Seq<char>, u8), TsvError>((name@, kind))
                &&& final(records)@ == old(records)@ + column_record(header@, kind)
            },
            Err(e) => {
                &&& declared_column(header@) == Err::<(Seq<char>, u8), TsvError>(e)
                &&& final(records)@ == old(records)@
            },
        },
{
    let parts = split_fields(header, BAR);
    if parts.len() < 2 {
        assert(field_views(parts@).len() == parts@.len());
        return Err(TsvError::MissingType);
    }
    assert(field_views(parts@)[0] == parts@[0]@);
    assert(field_views(parts@)[1] == parts@[1]@);
    let kind: u8 = match parse_u8(parts[1].as_slice()) {
        Some(kind) => kind,
        None => {
            return Err(TsvError::InvalidType);
        },
    };
    let name = parts[0].as_slice();
    let text = match text_of(name) {
        Some(text) => text,
        None => {
            return Err(TsvError::InvalidName);
        },
    };
    write_u16(records, (name.len() % 0x1_0000) as u16);
    append_bytes(records, name);
    records.push(kind);
    assert(records@ =~= old(records)@ + column_record(header@, kind));
    Ok((text, kind))
}

/// The columns that a plan reached, with what the table file holds for them.
pub struct Plan {
    pub columns: Vec<(String, u8)>,
    pub records: Vec<u8>,
}

impl View for Plan {
    type V = PlanSpec;

    open spec fn view(&self) -> PlanSpec {
        PlanSpec { columns: entry_views(self.columns@), records: self.records@ }
    }
}

/// Reads the headers of a table: the columns in the order of their first
/// naming, each with the type that was declared for it last, and what the
/// table file holds for the headers that declare a column.
#[verifier::rlimit(50)]
pub fn read_plan(headers: &Vec<String>) -> (r: Result<Plan, TsvError>)
    ensures
        match r {
            Ok(plan) => plan_at(
                field_bytes(headers@),
                0,
                PlanSpec { columns: Seq::empty(), records: Seq::empty() },
            ) == Ok::<PlanSpec, TsvError>(plan@),
            Err(e) => plan_at(
                field_bytes(headers@),
                0,
                PlanSpec { columns: Seq::empty(), records: Seq::empty() },
            ) == Err::<PlanSpec, TsvError>(e),
        },
{
    let ghost all = field_bytes(headers@);
    let ghost whole = plan_at(all, 0, PlanSpec { columns: Seq::empty(), records: Seq::empty() });
    let mut dictionary = dictionary_new();
    let mut records: Vec<u8> = Vec::new();
    let mut from: usize = 0;
    while from < headers.len()
        invariant
            from <= headers.len(),
            all == field_bytes(headers@),
            whole == plan_at(all, 0, PlanSpec { columns: Seq::empty(), records: Seq::empty() }),
            whole == plan_at(
                all,
                from as int,
                PlanSpec { columns: dictionary_entries(dictionary), records: records@ },
            ),
        decreases headers.len() - from,
    {
        let header = headers[from].as_str().as_bytes();
        assert(all[from as int] == header@);
        if !passed_over(header) {
            match read_declared_column(header, &mut records) {
                Ok((name, kind)) => {
                    dictionary_insert(&mut dictionary, name, kind);
                },
                Err(e) => {
                    return Err(e);
                },
            }
        }
        from = from + 1;
    }
    Ok(Plan { columns: dictionary_list(&dictionary), records })
}

/// Finds the first header that names a column.
pub fn find_label(headers: &Vec<String>, name: &str, kind: u8) -> (r: Option<usize>)
    ensures
        match r {
            Some(at) => label_position(field_bytes(headers@), column_label(name@, kind), 0)
                == Some(at as int) && at < headers@.len(),
            None => label_position(field_bytes(headers@), column_label(name@, kind), 0) is None,
        },
{
    let mut label: Vec<u8> = Vec::new();
    append_bytes(&mut label, name.as_bytes());
    label.push(BAR);
    append_decimal(&mut label, kind);
    assert(label@ =~= column_label(name@, kind));
    let ghost all = field_bytes(headers@);
    let mut from: usize = 0;
    while from < headers.len()
        invariant
            from <= headers.len(),
            all == field_bytes(headers@),
            label@ == column_label(name@, kind),
            label_position(all, label@, 0) == label_position(all, label@, from as int),
        decreases headers.len() - from,
    {
        assert(all[from as int] == encode_utf8(headers@[from as int]@));
        if same_bytes(headers[from].as_str().as_bytes(), label.as_slice()) {
            return Some(from);
        }
        from = from + 1;
    }
    None
}

/// Encodes one field of a record.
pub fn encode_record_cell(kind: u8, value: &[u8]) -> (r: Result<Piece, TsvError>)
    ensures
        match r {
            Ok(piece) => record_cell(kind, value@) == Ok::<PieceSpec, TsvError>(piece@),
            Err(e) => record_cell(kind, value@) == Err::<PieceSpec, TsvError>(e),
        },
{
    if kind == 1 {
        Ok(Piece::Bytes(encode_text_cell(value, Dialect::Tagged)))
    } else if kind == 2 || kind == 3 {
        match parse_i32(value) {
            Some(number) => {
                let mut bytes: Vec<u8> = Vec::new();
                write_i32(&mut bytes, number);
                assert(bytes@ =~= le_bytes(unsigned32(number)));
                Ok(Piece::Bytes(bytes))
            },
            None => Err(TsvError::InvalidNumber),
        }
    } else if 4 <= kind && kind <= 6 {
        let text = copy_range(value, 0, value.len());
        assert(text@ =~= value@);
        Ok(Piece::Single(text))
    } else {
        let mut bytes: Vec<u8> = Vec::new();
        bytes.push(0);
        assert(bytes@ =~= seq![0u8]);
        Ok(Piece::Bytes(bytes))
    }
}

/// Encodes one record as the pieces of a row of the table file.
#[verifier::rlimit(50)]
pub fn encode_record(record: &Vec<String>, headers: &Vec<String>, columns: &Vec<(String, u8)>) -> (r:
    Result<Vec<Piece>, TsvError>)
    ensures
        pieces_view(r) == record_pieces(
            field_bytes(record@),
            field_bytes(headers@),
            entry_views(columns@),
        ),
{
    if record.len() == 0 {
        return Err(TsvError::MissingField);
    }
    let ghost fields = field_bytes(record@);
    let ghost labels = field_bytes(headers@);
    let ghost listed = entry_views(columns@);
    assert(fields[0] == encode_utf8(record@[0]@));
    let id: i32 = match parse_i32(record[0].as_str().as_bytes()) {
        Some(id) => id,
        None => {
            return Err(TsvError::InvalidNumber);
        },
    };
    let mut first: Vec<u8> = Vec::new();
    write_i32(&mut first, id);
    let mut pieces: Vec<Piece> = Vec::new();
    pieces.push(Piece::Bytes(first));
    let ghost whole = record_pieces(fields, labels, listed);
    proof {
        assert(first@ =~= le_bytes(unsigned32(id)));
        assert(piece_views(pieces@) =~= seq![PieceSpec::Bytes(le_bytes(unsigned32(id)))]);
    }
    let mut from: usize = 0;
    while from < columns.len()
        invariant
            from <= columns.len(),
            fields == field_bytes(record@),
            labels == field_bytes(headers@),
            listed == entry_views(columns@),
            whole == record_pieces(fields, labels, listed),
            whole == cells_at(fields, labels, listed, from as int, piece_views(pieces@)),
        decreases columns.len() - from,
    {
        let column = &columns[from];
        assert(listed[from as int] == (column.0@, column.1));
        let at = match find_label(headers, column.0.as_str(), column.1) {
            Some(at) => at,
            None => {
                return Err(TsvError::MissingColumn);
            },
        };
        if at >= record.len() {
            return Err(TsvError::MissingField);
        }
        assert(fields[at as int] == encode_utf8(record@[at as int]@));
        match encode_record_cell(column.1, record[at].as_str().as_bytes()) {
            Ok(piece) => {
                assert(piece_views(pieces@.push(piece)) =~= piece_views(pieces@).push(piece@));
                pieces.push(piece);
            },
            Err(e) => {
                return Err(e);
            },
        }
        from = from + 1;
    }
    Ok(pieces)
}

/// A table file in parts: what opens it, the pieces of each row, and what closes it.
#[derive(Clone, Debug, PartialEq, Eq)]
pub struct EncodedTable {
    pub opening: Vec<u8>,
    pub rows: Vec<Vec<Piece>>,
    pub closing: Vec<u8>,
}

/// The mathematical value of an [`EncodedTable`].
pub struct EncodedSpec {
    pub opening: Seq<u8>,
    pub rows: Seq<Seq<PieceSpec>>,
    pub closing: Seq<u8>,
}

/// The values of the pieces of each row.
pub open spec fn row_views(rows: Seq<Vec<Piece>>) -> Seq<Seq<PieceSpec>> {
    Seq::new(rows.len(), |i: int| piece_views(rows[i]@))
}

impl View for EncodedTable {
    type V = EncodedSpec;

    open spec fn view(&self) -> EncodedSpec {
        EncodedSpec { opening: self.opening@, rows: row_views(self.rows@), closing: self.closing@ }
    }
}

/// The bytes of the fields of each record.
pub open spec fn record_bytes(records: Seq<Vec<String>>) -> Seq<Seq<Seq<u8>>> {
    Seq::new(records.len(), |i: int| field_bytes(records[i]@))
}

/// The bytes of the fields of each record of a reading result.
pub open spec fn text_bytes(records: Seq<Seq<Seq<char>>>) -> Seq<Seq<Seq<u8>>> {
    Seq::new(
        records.len(),
        |i: int| Seq::new(records[i].len(), |j: int| encode_utf8(records[i][j])),
    )
}

/// The rows after the records from `from` on are added.
pub open spec fn rows_at(
    records: Seq<Seq<Seq<u8>>>,
    from: int,
    headers: Seq<Seq<u8>>,
    columns: Seq<(Seq<char>, u8)>,
    rows: Seq<Seq<PieceSpec>>,
) -> Result<Seq<Seq<PieceSpec>>, TsvError>
    decreases records.len() - from,
{
    if from < 0 || from >= records.len() {
        Ok(rows)
    } else {
        match record_pieces(records[from], headers, columns) {
            Ok(pieces) => rows_at(records, from + 1, headers, columns, rows.push(pieces)),
            Err(e) => Err(e),
        }
    }
}

/// What opens a table file: four zero bytes, the number of columns in two
/// bytes and the number of rows in four, both cut to their width, and the columns.
pub open spec fn opening_of(columns: int, rows: int, records: Seq<u8>) -> Seq<u8> {
    seq![0u8, 0u8, 0u8, 0u8] + le_bytes16((columns % 0x1_0000) as u16) + le_bytes(
        (rows % 0x1_0000_0000) as u32,
    ) + records
}

/// What closes a table file.
pub open spec fn closing_mark() -> Seq<u8> {
    seq![5u8] + "THEND".spec_bytes()
}

/// Writes what opens a table file.
pub fn write_opening(columns: usize, rows: usize, records: &[u8]) -> (opening: Vec<u8>)
    ensures
        opening@ == opening_of(columns as int, rows as int, records@),
{
    let mut opening: Vec<u8> = Vec::new();
    opening.push(0);
    opening.push(0);
    opening.push(0);
    opening.push(0);
    write_u16(&mut opening, (columns % 0x1_0000) as u16);
    write_u32(&mut opening, (rows as u64 % 0x1_0000_0000) as u32);
    append_bytes(&mut opening, records);
    assert(opening@ =~= opening_of(columns as int, rows as int, records@));
    opening
}

/// Writes what closes a table file.
pub fn write_closing() -> (closing: Vec<u8>)
    ensures
        closing@ == closing_mark(),
{
    let mut closing: Vec<u8> = Vec::new();
    closing.push(5);
    append_bytes(&mut closing, "THEND".as_bytes());
    assert(closing@ =~= closing_mark());
    closing
}

/// The record of headers: the first record, if there is one.
pub open spec fn headers_of(records: Seq<Seq<Seq<u8>>>) -> Seq<Seq<u8>> {
    if records.len() > 0 {
        records[0]
    } else {
        Seq::empty()
    }
}

/// The table file that stands for records, the header record first: the
/// opening with the declared columns, the rows, and the closing mark.
pub open spec fn encoded_records(records: Seq<Seq<Seq<u8>>>) -> Result<EncodedSpec, TsvError> {
    let headers = headers_of(records);
    match declared_columns(headers) {
        Err(e) => Err(e),
        Ok(count) => match plan_at(
            headers,
            0,
            PlanSpec { columns: Seq::empty(), records: Seq::empty() },
        ) {
            Err(e) => Err(e),
            Ok(plan) => match rows_at(records, 1, headers, plan.columns, Seq::empty()) {
                Err(e) => Err(e),
                Ok(rows) => Ok(
                    EncodedSpec {
                        opening: opening_of(count, records.len() - 1, plan.records),
                        rows,
                        closing: closing_mark(),
                    },
                ),
            },
        },
    }
}

/// The table file that stands for a text in tab-separated records.
pub open spec fn encoded_table(input: Seq<u8>) -> Result<EncodedSpec, TsvError> {
    match tab_separated_records(input) {
        Some(records) => encoded_records(text_bytes(records)),
        None => Err(TsvError::Unreadable),
    }
}

/// The value of the result of encoding a table.
pub open spec fn encoded_view(r: Result<EncodedTable, TsvError>) -> Result<EncodedSpec, TsvError> {
    match r {
        Ok(table) => Ok(table@),
        Err(e) => Err(e),
    }
}

/// The value of the result of encoding rows.
pub open spec fn rows_view(r: Result<Vec<Vec<Piece>>, TsvError>) -> Result<
    Seq<Seq<PieceSpec>>,
    TsvError,
> {
    match r {
        Ok(rows) => Ok(row_views(rows@)),
        Err(e) => Err(e),
    }
}

/// Encodes every record after the header record as a row.
#[verifier::rlimit(50)]
pub fn encode_rows(records: &Vec<Vec<String>>, columns: &Vec<(String, u8)>) -> (r: Result<
    Vec<Vec<Piece>>,
    TsvError,
>)
    requires
        records@.len() >= 1,
    ensures
        rows_view(r) == rows_at(
            record_bytes(records@),
            1,
            field_bytes(records@[0]@),
            entry_views(columns@),
            Seq::empty(),
        ),
{
    let headers = &records[0];
    let ghost all = record_bytes(records@);
    let ghost labels = field_bytes(headers@);
    let ghost listed = entry_views(columns@);
    let ghost whole = rows_at(all, 1, labels, listed, Seq::empty());
    let mut rows: Vec<Vec<Piece>> = Vec::new();
    let mut from: usize = 1;
    proof {
        assert(row_views(rows@) =~= Seq::<Seq<PieceSpec>>::empty());
    }
    while from < records.len()
        invariant
            1 <= from <= records.len(),
            headers == records@[0],
            all == record_bytes(records@),
            labels == field_bytes(headers@),
            listed == entry_views(columns@),
            whole == rows_at(all, 1, labels, listed, Seq::empty()),
            whole == rows_at(all, from as int, labels, listed, row_views(rows@)),
        decreases records.len() - from,
    {
        let ghost before = row_views(rows@);
        assert(all[from as int] == field_bytes(records@[from as int]@));
        match encode_record(&records[from], headers, columns) {
            Ok(pieces) => {
                assert(rows_at(all, from as int, labels, listed, before) == rows_at(
                    all,
                    from + 1,
                    labels,
                    listed,
                    before.push(piece_views(pieces@)),
                ));
                assert(row_views(rows@.push(pieces)) =~= before.push(piece_views(pieces@)));
                rows.push(pieces);
            },
            Err(e) => {
                assert(rows_at(all, from as int, labels, listed, before) == Err::<
                    Seq<Seq<PieceSpec>>,
                    TsvError,
                >(e));
                return Err(e);
            },
        }
        from = from + 1;
    }
    Ok(rows)
}

/// Encodes records, the header record first, as a table file in parts.
#[verifier::rlimit(50)]
pub fn encode_records(records: &Vec<Vec<String>>) -> (r: Result<EncodedTable, TsvError>)
    ensures
        encoded_view(r) == encoded_records(record_bytes(records@)),
{
    let ghost all = record_bytes(records@);
    if records.len() == 0 {
        return Err(TsvError::ColumnCount);
    }
    let headers = &records[0];
    assert(headers_of(all) == field_bytes(headers@));
    let count = match count_columns(headers) {
        Ok(count) => count,
        Err(e) => {
            return Err(e);
        },
    };
    let plan = match read_plan(headers) {
        Ok(plan) => plan,
        Err(e) => {
            return Err(e);
        },
    };
    let opening = write_opening(count, records.len() - 1, plan.records.as_slice());
    let rows = match encode_rows(records, &plan.columns) {
        Ok(rows) => rows,
        Err(e) => {
            return Err(e);
        },
    };
    Ok(EncodedTable { opening, rows, closing: write_closing() })
}

/// Encodes a table that is written in tab-separated records as a table file in parts.
///
/// The rows may be written in any order after the opening; each number
/// piece is to be written as the number that its text writes.
pub fn convert_to_dnt(input: &[u8]) -> (r: Result<EncodedTable, TsvError>)
    ensures
        encoded_view(r) == encoded_table(input@),
{
    match read_records(input) {
        Some(records) => {
            proof {
                let texts = record_texts(Some(records))->0;
                assert(text_bytes(texts) =~= record_bytes(records@)) by {
                    assert forall|i: int| 0 <= i < records@.len() implies text_bytes(texts)[i]
                        =~= record_bytes(records@)[i] by {}
                }
            }
            encode_records(&records)
        },
        None => Err(TsvError::Unreadable),
    }
}

} // verus!
