use vstd::prelude::*;
use vstd::string::StringSliceAdditionalSpecFns;
use vstd::utf8::encode_utf8;
use crate::bytes::{append_bytes, contains, contains_bytes, copy_range};
use crate::dnt::{
    encode_integer_cell, encode_text_cell, integer_cell, piece_views, read_dnt, table_of,
    text_cell, Dialect, DntError, Piece, PieceSpec, Table, TableSpec,
};
use crate::little_endian::{le_bytes, le_bytes16, write_u16, write_u32};
use crate::text::{
    field_views, fields, line_texts, parse_u8, parsed_u8, split_fields, trim, trimmed,
};

verus! {

/// The tab, which separates the fields of a line.
pub const TAB: u8 = 0x09;

/// The bar, which separates the name of a column from its type.
pub const BAR: u8 = 0x7c;

/// Reads a table file for writing it out as lines of text: the columns
/// with their types, the row number first, and for each row its number
/// and its cells.
pub fn convert_to_tsv(input: &[u8]) -> (r: Result<Table, DntError>)
    ensures
        match r {
            Ok(table) => table_of(input@, Dialect::Plain) == Ok::<TableSpec, DntError>(table@),
            Err(e) => table_of(input@, Dialect::Plain) == Err::<TableSpec, DntError>(e),
        },
{
    read_dnt(input, Dialect::Plain)
}

/// The type that a field of the first line declares, where the field is a
/// name, a bar and a type: the number that the type writes, or zero.
pub open spec fn declared_kind(field: Seq<u8>) -> Option<u8> {
    let parts = fields(field, BAR);
    if parts.len() == 2 {
        Some(
            match parsed_u8(parts[1]) {
                Some(kind) => kind,
                None => 0u8,
            },
        )
    } else {
        None
    }
}

/// What the table file holds for a field of the first line: nothing where
/// the field declares no type or names the row number; else the length of
/// the name in two bytes, cut to 16 bits, the name and the type.
pub open spec fn column_record(field: Seq<u8>) -> Seq<u8> {
    let parts = fields(field, BAR);
    match declared_kind(field) {
        Some(kind) => if contains_bytes(parts[0], "RowID".spec_bytes()) {
            Seq::empty()
        } else {
            le_bytes16((parts[0].len() % 0x1_0000) as u16) + parts[0] + seq![kind]
        },
        None => Seq::empty(),
    }
}

/// The types that the fields of the first line declare, in order.
pub open spec fn declared_kinds(header: Seq<Seq<u8>>) -> Seq<u8>
    decreases header.len(),
{
    if header.len() == 0 {
        Seq::empty()
    } else {
        match declared_kind(header.last()) {
            Some(kind) => declared_kinds(header.drop_last()).push(kind),
            None => declared_kinds(header.drop_last()),
        }
    }
}

/// What the table file holds for the fields of the first line, in order.
pub open spec fn column_records(header: Seq<Seq<u8>>) -> Seq<u8>
    decreases header.len(),
{
    if header.len() == 0 {
        Seq::empty()
    } else {
        column_records(header.drop_last()) + column_record(header.last())
    }
}

/// The type of the field at `index` of a row: the declared type at that
/// position, or zero where none is declared there.
pub open spec fn kind_at(kinds: Seq<u8>, index: int) -> u8 {
    if 0 <= index < kinds.len() {
        kinds[index]
    } else {
        0
    }
}

/// The piece that stands for one field of a row.
pub open spec fn cell_piece(kind: u8, value: Seq<u8>) -> PieceSpec {
    if kind == 1 {
        PieceSpec::Bytes(text_cell(value, Dialect::Plain))
    } else if kind == 2 || kind == 3 {
        PieceSpec::Bytes(integer_cell(value))
    } else if kind == 4 || kind == 5 {
        PieceSpec::Single(value)
    } else if kind == 6 {
        PieceSpec::Double(value)
    } else {
        PieceSpec::Bytes(seq![0u8])
    }
}

/// The pieces that stand for the fields of a row, in order.
pub open spec fn row_pieces(row: Seq<Seq<u8>>, kinds: Seq<u8>) -> Seq<PieceSpec> {
    Seq::new(row.len(), |i: int| cell_piece(kind_at(kinds, i), row[i]))
}

/// A line stands for a row unless it is empty or white space only.
pub open spec fn is_row_line(line: Seq<char>) -> bool {
    trimmed(line).len() > 0
}

/// Number of lines that stand for a row.
pub open spec fn row_count(lines: Seq<Seq<char>>) -> nat
    decreases lines.len(),
{
    if lines.len() == 0 {
        0
    } else if is_row_line(lines.last()) {
        row_count(lines.drop_last()) + 1
    } else {
        row_count(lines.drop_last())
    }
}

/// The fields of a line: the trimmed line, split at tabs.
pub open spec fn line_fields(line: Seq<char>) -> Seq<Seq<u8>> {
    fields(encode_utf8(trimmed(line)), TAB)
}

/// The pieces that stand for the rows, in order.
pub open spec fn rows_pieces(lines: Seq<Seq<char>>, kinds: Seq<u8>) -> Seq<PieceSpec>
    decreases lines.len(),
{
    if lines.len() == 0 {
        Seq::empty()
    } else if is_row_line(lines.last()) {
        rows_pieces(lines.drop_last(), kinds) + row_pieces(line_fields(lines.last()), kinds)
    } else {
        rows_pieces(lines.drop_last(), kinds)
    }
}

/// The piece that opens a table file: four zero bytes, the number of
/// fields of the first line less one in two bytes, the number of rows in
/// four, both cut to their width, and the columns.
pub open spec fn opening_piece(first_line: Seq<char>, lines: Seq<Seq<char>>) -> PieceSpec {
    let header = line_fields(first_line);
    PieceSpec::Bytes(
        seq![0u8, 0u8, 0u8, 0u8] + le_bytes16(((header.len() - 1) % 0x1_0000) as u16) + le_bytes(
            (row_count(lines) % 0x1_0000_0000) as u32,
        ) + column_records(header),
    )
}

/// The piece that closes a table file.
pub open spec fn closing_piece() -> PieceSpec {
    PieceSpec::Bytes(seq![5u8] + "THEND".spec_bytes())
}

/// The pieces of the table file that stands for a table in lines of text.
pub open spec fn table_pieces(first_line: Seq<char>, lines: Seq<Seq<char>>) -> Seq<PieceSpec> {
    seq![opening_piece(first_line, lines)] + rows_pieces(
        lines,
        declared_kinds(line_fields(first_line)),
    ) + seq![closing_piece()]
}

/// Encodes one field of a row.
pub fn encode_cell(kind: u8, value: &[u8]) -> (piece: Piece)
    ensures
        piece@ == cell_piece(kind, value@),
{
    if kind == 1 {
        Piece::Bytes(encode_text_cell(value, Dialect::Plain))
    } else if kind == 2 || kind == 3 {
        Piece::Bytes(encode_integer_cell(value))
    } else if kind == 4 || kind == 5 {
        let text = copy_range(value, 0, value.len());
        assert(text@ =~= value@);
        Piece::Single(text)
    } else if kind == 6 {
        let text = copy_range(value, 0, value.len());
        assert(text@ =~= value@);
        Piece::Double(text)
    } else {
        let mut bytes: Vec<u8> = Vec::new();
        bytes.push(0);
        assert(bytes@ =~= seq![0u8]);
        Piece::Bytes(bytes)
    }
}

/// Reads the fields of the first line: the types that they declare, and
/// what the table file holds for them.
#[verifier::rlimit(50)]
pub fn read_header(header: &Vec<Vec<u8>>) -> (r: (Vec<u8>, Vec<u8>))
    ensures
        r.0@ == declared_kinds(field_views(header@)),
        r.1@ == column_records(field_views(header@)),
{
    let ghost all = field_views(header@);
    let mut kinds: Vec<u8> = Vec::new();
    let mut records: Vec<u8> = Vec::new();
    let mut i: usize = 0;
    proof {
        assert(all.take(0) =~= Seq::<Seq<u8>>::empty());
    }
    while i < header.len()
        invariant
            i <= header.len(),
            all == field_views(header@),
            kinds@ == declared_kinds(all.take(i as int)),
            records@ == column_records(all.take(i as int)),
        decreases header.len() - i,
    {
        proof {
            assert(all.take(i + 1).drop_last() =~= all.take(i as int));
            assert(all.take(i + 1).last() == header@[i as int]@);
        }
        let parts = split_fields(header[i].as_slice(), BAR);
        if parts.len() == 2 {
            assert(field_views(parts@)[0] == parts@[0]@);
            assert(field_views(parts@)[1] == parts@[1]@);
            let kind: u8 = match parse_u8(parts[1].as_slice()) {
                Some(kind) => kind,
                None => 0,
            };
            kinds.push(kind);
            let name = parts[0].as_slice();
            if !contains(name, "RowID".as_bytes()) {
                let ghost before = records@;
                write_u16(&mut records, (name.len() % 0x1_0000) as u16);
                append_bytes(&mut records, name);
                records.push(kind);
                assert(records@ =~= before + (le_bytes16((name@.len() % 0x1_0000) as u16) + name@
                    + seq![kind]));
            } else {
                assert(records@ + Seq::<u8>::empty() =~= records@);
            }
        } else {
            assert(field_views(parts@).len() == parts@.len());
            assert(records@ + Seq::<u8>::empty() =~= records@);
        }
        i = i + 1;
    }
    proof {
        assert(all.take(header@.len() as int) =~= all);
    }
    (kinds, records)
}

/// Counts the lines that stand for a row.
pub fn count_rows(lines: &Vec<String>) -> (count: usize)
    ensures
        count == row_count(line_texts(lines@)),
{
    let ghost all = line_texts(lines@);
    let mut count: usize = 0;
    let mut i: usize = 0;
    proof {
        assert(all.take(0) =~= Seq::<Seq<char>>::empty());
    }
    while i < lines.len()
        invariant
            i <= lines.len(),
            all == line_texts(lines@),
            count == row_count(all.take(i as int)),
            count <= i,
        decreases lines.len() - i,
    {
        proof {
            assert(all.take(i + 1).drop_last() =~= all.take(i as int));
            assert(all.take(i + 1).last() == lines@[i as int]@);
        }
        if !trim(lines[i].as_str()).is_empty() {
            count = count + 1;
        }
        i = i + 1;
    }
    proof {
        assert(all.take(lines@.len() as int) =~= all);
    }
    count
}

/// Appends to `pieces` the pieces that stand for the fields of a row.
#[verifier::rlimit(50)]
pub fn encode_row(row: &Vec<Vec<u8>>, kinds: &Vec<u8>, pieces: &mut Vec<Piece>)
    ensures
        piece_views(final(pieces)@) == piece_views(old(pieces)@) + row_pieces(
            field_views(row@),
            kinds@,
        ),
{
    let ghost before = piece_views(pieces@);
    let ghost whole = row_pieces(field_views(row@), kinds@);
    let mut i: usize = 0;
    proof {
        assert(before + whole.take(0) =~= before);
    }
    while i < row.len()
        invariant
            i <= row.len(),
            before == piece_views(old(pieces)@),
            whole == row_pieces(field_views(row@), kinds@),
            piece_views(pieces@) == before + whole.take(i as int),
        decreases row.len() - i,
    {
        let kind: u8 = if i < kinds.len() {
            kinds[i]
        } else {
            0
        };
        let piece = encode_cell(kind, row[i].as_slice());
        proof {
            assert(field_views(row@)[i as int] == row@[i as int]@);
            assert(whole[i as int] == piece@);
            assert(piece_views(pieces@.push(piece)) =~= piece_views(pieces@).push(piece@));
            assert(before + whole.take(i + 1) =~= (before + whole.take(i as int)).push(piece@));
        }
        pieces.push(piece);
        i = i + 1;
    }
    proof {
        assert(whole.take(row@.len() as int) =~= whole);
    }
}

/// Encodes a table that is written in lines of text as the pieces of a table file.
///
/// The first line names the columns, each as a name, a bar and a type;
/// every other line that holds more than white space is a row. Lines are
/// trimmed and split at tabs. The pieces are to be written in order, each
/// number piece as the number that its text writes, or zero.
#[verifier::rlimit(50)]
pub fn convert_to_dnt(first_line: &str, lines: &Vec<String>) -> (pieces: Vec<Piece>)
    ensures
        piece_views(pieces@) == table_pieces(first_line@, line_texts(lines@)),
{
    let header = split_fields(trim(first_line).as_bytes(), TAB);
    assert(field_views(header@).len() >= 1);
    let (kinds, records) = read_header(&header);
    let rows = count_rows(lines);
    let mut opening: Vec<u8> = Vec::new();
    opening.push(0);
    opening.push(0);
    opening.push(0);
    opening.push(0);
    write_u16(&mut opening, ((header.len() - 1) % 0x1_0000) as u16);
    write_u32(&mut opening, (rows as u64 % 0x1_0000_0000) as u32);
    append_bytes(&mut opening, records.as_slice());
    let ghost all = line_texts(lines@);
    let ghost first = opening_piece(first_line@, all);
    let mut pieces: Vec<Piece> = Vec::new();
    proof {
        assert(field_views(header@).len() == header@.len());
        assert(PieceSpec::Bytes(opening@) == first) by {
            assert(opening@ =~= seq![0u8, 0u8, 0u8, 0u8] + le_bytes16(
                ((header@.len() - 1) % 0x1_0000) as u16,
            ) + le_bytes((rows as int % 0x1_0000_0000) as u32) + records@);
        }
    }
    pieces.push(Piece::Bytes(opening));
    let mut i: usize = 0;
    proof {
        assert(all.take(0) =~= Seq::<Seq<char>>::empty());
        assert(piece_views(pieces@) =~= seq![first] + rows_pieces(all.take(0), kinds@));
    }
    while i < lines.len()
        invariant
            i <= lines.len(),
            all == line_texts(lines@),
            piece_views(pieces@) == seq![first] + rows_pieces(all.take(i as int), kinds@),
        decreases lines.len() - i,
    {
        proof {
            assert(all.take(i + 1).drop_last() =~= all.take(i as int));
            assert(all.take(i + 1).last() == lines@[i as int]@);
        }
        let line = trim(lines[i].as_str());
        if !line.is_empty() {
            let row = split_fields(line.as_bytes(), TAB);
            let ghost before = piece_views(pieces@);
            encode_row(&row, &kinds, &mut pieces);
            proof {
                assert(piece_views(pieces@) =~= seq![first] + (rows_pieces(
                    all.take(i as int),
                    kinds@,
                ) + row_pieces(field_views(row@), kinds@)));
            }
        }
        i = i + 1;
    }
    let mut closing: Vec<u8> = Vec::new();
    closing.push(5);
    append_bytes(&mut closing, "THEND".as_bytes());
    proof {
        assert(all.take(lines@.len() as int) =~= all);
        assert(closing@ =~= seq![5u8] + "THEND".spec_bytes());
        assert(piece_views(pieces@.push(Piece::Bytes(closing))) =~= piece_views(pieces@).push(
            closing_piece(),
        ));
    }
    pieces.push(Piece::Bytes(closing));
    pieces
}

} // verus!
