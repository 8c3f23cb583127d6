use pak_extractor::dnt::{
    encode_integer_cell, encode_text_cell, id_column, read_cell, read_column, read_dnt, show_text,
    store_text, Cell, Dialect, DntError, Piece, Row,
};
use pak_extractor::dnt_converter::{convert_to_dnt, convert_to_tsv, encode_cell, read_header};
use pak_extractor::little_endian::{read_i16, read_i32, read_u16, read_u64};

fn column(name: &[u8], kind: u8) -> Vec<u8> {
    let mut bytes = (name.len() as u16).to_le_bytes().to_vec();
    bytes.extend_from_slice(name);
    bytes.push(kind);
    bytes
}

fn text(value: &[u8]) -> Vec<u8> {
    let mut bytes = (value.len() as i16).to_le_bytes().to_vec();
    bytes.extend_from_slice(value);
    bytes
}

fn table_file(columns: &[Vec<u8>], rows: &[Vec<u8>]) -> Vec<u8> {
    let mut file = vec![0xf0, 0xf1, 0xf2, 0xf3];
    file.extend_from_slice(&(columns.len() as u16).to_le_bytes());
    file.extend_from_slice(&(rows.len() as u32).to_le_bytes());
    for column in columns {
        file.extend_from_slice(column);
    }
    for row in rows {
        file.extend_from_slice(row);
    }
    file
}

fn sample() -> Vec<u8> {
    let mut first = 7u32.to_le_bytes().to_vec();
    first.extend_from_slice(&text(b"a,b"));
    first.extend_from_slice(&(-5i32).to_le_bytes());
    first.extend_from_slice(&1.5f32.to_le_bytes());
    first.extend_from_slice(&(-2.25f64).to_le_bytes());
    let mut second = 8u32.to_le_bytes().to_vec();
    second.extend_from_slice(&(-1i16).to_le_bytes());
    second.extend_from_slice(&i32::MAX.to_le_bytes());
    second.extend_from_slice(&0f32.to_le_bytes());
    second.extend_from_slice(&f64::MAX.to_le_bytes());
    table_file(
        &[column(b"_Name", 1), column(b"_Count", 3), column(b"_Rate", 4), column(b"_Wide", 6), column(b"_Odd", 9)],
        &[first, second],
    )
}

#[test]
fn numbers_of_each_width_are_read_little_endian() {
    let input = [0u8, 0xfe, 0xff, 0xff, 0xff, 0xff, 0xff, 0xff, 0x7f, 1];
    assert_eq!(read_u16(&input, 1), Some(0xfffe));
    assert_eq!(read_i16(&input, 1), Some(-2));
    assert_eq!(read_i16(&input, 7), Some(0x7fff));
    assert_eq!(read_i32(&input, 1), Some(-2));
    assert_eq!(read_i32(&input, 5), Some(0x7fff_ffff));
    assert_eq!(read_u64(&input, 1), Some(0x7fff_ffff_ffff_fffe));
    assert_eq!(read_u64(&input, 2), Some(0x017f_ffff_ffff_ffff));
    assert_eq!(read_u64(&input, 3), None);
    assert_eq!(read_u16(&input, 9), None);
    assert_eq!(read_i16(&input, 10), None);
    assert_eq!(read_i32(&input, 7), None);
    assert_eq!(read_i32(&input, 11), None);
}

#[test]
fn a_table_is_read_with_its_columns_and_rows() {
    let table = convert_to_tsv(&sample()).unwrap();
    let names: Vec<(&str, u8)> =
        table.columns.iter().map(|(name, kind)| (name.as_str(), *kind)).collect();
    assert_eq!(
        names,
        vec![("_RowID", 3), ("_Name", 1), ("_Count", 3), ("_Rate", 4), ("_Wide", 6), ("_Odd", 9)]
    );
    assert_eq!(
        table.rows,
        vec![
            Row {
                id: 7,
                cells: vec![
                    Cell::Text(b"a^b".to_vec()),
                    Cell::Integer(-5),
                    Cell::Single(1.5f32.to_bits()),
                    Cell::Double((-2.25f64).to_bits()),
                    Cell::Text(Vec::new()),
                ],
            },
            Row {
                id: 8,
                cells: vec![
                    Cell::Text(Vec::new()),
                    Cell::Integer(i32::MAX),
                    Cell::Single(0),
                    Cell::Double(f64::MAX.to_bits()),
                    Cell::Text(Vec::new()),
                ],
            },
        ]
    );
}

#[test]
fn the_tagged_dialect_lists_the_row_number_under_its_tag_and_keeps_commas() {
    let table = read_dnt(&sample(), Dialect::Tagged).unwrap();
    assert_eq!(table.columns[0], (String::from("_RowID|3"), 3));
    assert_eq!(table.rows[0].cells[0], Cell::Text(b"a,b".to_vec()));
}

#[test]
fn a_column_named_twice_is_listed_once_with_its_last_type() {
    let mut row = 1u32.to_le_bytes().to_vec();
    row.extend_from_slice(&9i32.to_le_bytes());
    row.extend_from_slice(&text(b"x"));
    let file = table_file(&[column(b"a", 1), column(b"b", 1), column(b"a", 2)], &[row]);
    let table = convert_to_tsv(&file).unwrap();
    assert_eq!(
        table.columns,
        vec![(String::from("_RowID"), 3), (String::from("a"), 2), (String::from("b"), 1)]
    );
    assert_eq!(table.rows[0].cells, vec![Cell::Integer(9), Cell::Text(b"x".to_vec())]);
}

#[test]
fn columns_that_stand_for_the_row_number_have_no_cells() {
    let mut row = 1u32.to_le_bytes().to_vec();
    row.extend_from_slice(&9i32.to_le_bytes());
    let file = table_file(&[column(b"Old_RowID", 2), column(b"n", 2), column(b"_RowID", 7)], &[row.clone()]);
    let plain = convert_to_tsv(&file).unwrap();
    assert_eq!(
        plain.columns,
        vec![(String::from("_RowID"), 7), (String::from("Old_RowID"), 2), (String::from("n"), 2)]
    );
    assert_eq!(plain.rows, vec![Row { id: 1, cells: vec![Cell::Integer(9)] }]);
    assert!(id_column(Dialect::Plain, "Old_RowID"));
    assert!(!id_column(Dialect::Plain, "_Rowid"));
    assert!(id_column(Dialect::Tagged, "_RowID|3"));
    assert!(!id_column(Dialect::Tagged, "_RowID"));
    assert!(!id_column(Dialect::Tagged, "x_RowID|3"));
    // In the tagged dialect all three columns have cells: the row is too short.
    assert_eq!(read_dnt(&file, Dialect::Tagged), Err(DntError::Truncated));
}

#[test]
fn a_table_that_ends_early_is_refused_wherever_it_ends() {
    let file = sample();
    for len in 0..file.len() {
        assert_eq!(convert_to_tsv(&file[..len]), Err(DntError::Truncated), "at {}", len);
    }
    let mut longer = file.clone();
    longer.extend_from_slice(b"THEND");
    assert_eq!(convert_to_tsv(&longer), convert_to_tsv(&file));
}

#[test]
fn a_column_name_that_is_not_utf8_is_refused() {
    let file = table_file(&[column(b"ok", 1), column(&[b'a', 0xff, b'b'], 1)], &[]);
    assert_eq!(convert_to_tsv(&file), Err(DntError::InvalidName));
    // The name is looked at before the type that follows it.
    assert_eq!(convert_to_tsv(&file[..file.len() - 1]), Err(DntError::InvalidName));
    assert_eq!(read_column(&column("caf\u{e9}".as_bytes(), 4), 0), Ok((String::from("caf\u{e9}"), 4, 8)));
}

#[test]
fn cells_are_read_by_their_type() {
    let input = [3u8, 0, b'x', b',', b'y', 0xff, 0xff, 0xff, 0xff];
    assert_eq!(read_cell(&input, 0, 1, Dialect::Plain), Ok((Cell::Text(b"x^y".to_vec()), 5)));
    assert_eq!(read_cell(&input, 0, 1, Dialect::Tagged), Ok((Cell::Text(b"x,y".to_vec()), 5)));
    assert_eq!(read_cell(&input, 5, 1, Dialect::Plain), Ok((Cell::Text(Vec::new()), 7)));
    assert_eq!(read_cell(&input, 5, 2, Dialect::Plain), Ok((Cell::Integer(-1), 9)));
    assert_eq!(read_cell(&input, 5, 5, Dialect::Plain), Ok((Cell::Single(u32::MAX), 9)));
    assert_eq!(read_cell(&input, 1, 6, Dialect::Plain), Ok((Cell::Double(0xffff_ffff_792c_7800), 9)));
    assert_eq!(read_cell(&input, 2, 6, Dialect::Plain), Err(DntError::Truncated));
    assert_eq!(read_cell(&input, 9, 0, Dialect::Plain), Ok((Cell::Text(Vec::new()), 9)));
    assert_eq!(read_cell(&input, 9, 7, Dialect::Plain), Ok((Cell::Text(Vec::new()), 9)));
    assert_eq!(read_cell(&input, 10, 7, Dialect::Plain), Err(DntError::Truncated));
    assert_eq!(read_cell(&[0xff, 0x7f, 1], 0, 1, Dialect::Plain), Err(DntError::Truncated));
}

#[test]
fn text_is_shown_with_carets_and_stored_with_commas() {
    assert_eq!(show_text(b"a,b,,c^", Dialect::Plain), b"a^b^^c^".to_vec());
    assert_eq!(show_text(b"a,b", Dialect::Tagged), b"a,b".to_vec());
    assert_eq!(store_text(b"a^b^^c,", Dialect::Plain), b"a,b,,c,".to_vec());
    assert_eq!(store_text(b"a^b", Dialect::Tagged), b"a^b".to_vec());
}

#[test]
fn a_closing_point_zero_is_not_stored() {
    assert_eq!(store_text(b"", Dialect::Plain), Vec::<u8>::new());
    assert_eq!(store_text(b"0.0", Dialect::Plain), Vec::<u8>::new());
    assert_eq!(store_text(b"12.0", Dialect::Plain), b"12".to_vec());
    assert_eq!(store_text(b".0", Dialect::Plain), Vec::<u8>::new());
    assert_eq!(store_text(b"00.0", Dialect::Plain), b"00".to_vec());
    assert_eq!(store_text(b"1.05", Dialect::Plain), b"1.05".to_vec());
    assert_eq!(store_text(b"a^.0", Dialect::Plain), b"a,".to_vec());
    assert_eq!(encode_text_cell(b"ab^.0", Dialect::Plain), vec![3, 0, b'a', b'b', b',']);
    assert_eq!(encode_text_cell(b"0.0", Dialect::Tagged), vec![0, 0]);
}

#[test]
fn the_length_of_a_long_text_is_cut_to_16_bits() {
    let long = vec![b'x'; 65536 + 3];
    let bytes = encode_text_cell(&long, Dialect::Plain);
    assert_eq!(bytes.len(), 2 + 65536 + 3);
    assert_eq!(&bytes[..2], &[3, 0]);
}

#[test]
fn a_whole_number_is_stored_in_four_bytes_and_zero_for_what_is_none() {
    assert_eq!(encode_integer_cell(b"1"), vec![1, 0, 0, 0]);
    assert_eq!(encode_integer_cell(b"-2"), vec![0xfe, 0xff, 0xff, 0xff]);
    assert_eq!(encode_integer_cell(b"305419896"), vec![0x78, 0x56, 0x34, 0x12]);
    assert_eq!(encode_integer_cell(b"-2147483648"), vec![0, 0, 0, 0x80]);
    assert_eq!(encode_integer_cell(b"2147483648"), vec![0, 0, 0, 0]);
    assert_eq!(encode_integer_cell(b"1.5"), vec![0, 0, 0, 0]);
    assert_eq!(encode_integer_cell(b""), vec![0, 0, 0, 0]);
}

#[test]
fn a_field_is_encoded_by_its_type() {
    assert_eq!(encode_cell(1, b"hi"), Piece::Bytes(vec![2, 0, b'h', b'i']));
    assert_eq!(encode_cell(2, b"258"), Piece::Bytes(vec![2, 1, 0, 0]));
    assert_eq!(encode_cell(3, b"x"), Piece::Bytes(vec![0, 0, 0, 0]));
    assert_eq!(encode_cell(4, b"1.5"), Piece::Single(b"1.5".to_vec()));
    assert_eq!(encode_cell(5, b""), Piece::Single(Vec::new()));
    assert_eq!(encode_cell(6, b"2e9"), Piece::Double(b"2e9".to_vec()));
    assert_eq!(encode_cell(0, b"anything"), Piece::Bytes(vec![0]));
    assert_eq!(encode_cell(7, b"anything"), Piece::Bytes(vec![0]));
}

#[test]
fn the_first_line_declares_the_types_and_the_columns() {
    let fields = vec![
        b"_RowID|3".to_vec(),
        b"_Name|1".to_vec(),
        b"broken".to_vec(),
        b"_Rate|x".to_vec(),
        b"a|b|c".to_vec(),
        b"_Big|300".to_vec(),
        b"|6".to_vec(),
    ];
    let (kinds, records) = read_header(&fields);
    assert_eq!(kinds, vec![3, 1, 0, 0, 6]);
    let mut expected = Vec::new();
    expected.extend_from_slice(&[5, 0]);
    expected.extend_from_slice(b"_Name");
    expected.push(1);
    expected.extend_from_slice(&[5, 0]);
    expected.extend_from_slice(b"_Rate");
    expected.push(0);
    expected.extend_from_slice(&[4, 0]);
    expected.extend_from_slice(b"_Big");
    expected.push(0);
    expected.extend_from_slice(&[0, 0, 6]);
    assert_eq!(records, expected);
}

#[test]
fn a_table_in_lines_becomes_the_pieces_of_a_table_file() {
    let lines = vec![
        String::from("7\ta^b.0\t-5\t1.5\t2.5\tdropped"),
        String::from("   "),
        String::new(),
        String::from("  8\t\tx\t\r"),
    ];
    let pieces = convert_to_dnt("_RowID|3\t_Name|1\t_Count|2\t_Rate|5\t_Wide|6\r\n", &lines);
    let mut opening = vec![0, 0, 0, 0, 4, 0, 2, 0, 0, 0];
    for (name, kind) in [("_Name", 1u8), ("_Count", 2), ("_Rate", 5), ("_Wide", 6)] {
        opening.extend_from_slice(&(name.len() as u16).to_le_bytes());
        opening.extend_from_slice(name.as_bytes());
        opening.push(kind);
    }
    assert_eq!(
        pieces,
        vec![
            Piece::Bytes(opening),
            Piece::Bytes(vec![7, 0, 0, 0]),
            Piece::Bytes(vec![3, 0, b'a', b',', b'b']),
            Piece::Bytes(vec![0xfb, 0xff, 0xff, 0xff]),
            Piece::Single(b"1.5".to_vec()),
            Piece::Double(b"2.5".to_vec()),
            Piece::Bytes(vec![0]),
            Piece::Bytes(vec![8, 0, 0, 0]),
            Piece::Bytes(vec![0, 0]),
            Piece::Bytes(vec![0, 0, 0, 0]),
            Piece::Bytes(vec![5, b'T', b'H', b'E', b'N', b'D']),
        ]
    );
}

#[test]
fn a_table_without_rows_is_its_opening_and_its_closing() {
    let pieces = convert_to_dnt("", &Vec::new());
    assert_eq!(
        pieces,
        vec![
            Piece::Bytes(vec![0, 0, 0, 0, 0, 0, 0, 0, 0, 0]),
            Piece::Bytes(vec![5, b'T', b'H', b'E', b'N', b'D']),
        ]
    );
}

#[test]
fn what_was_written_from_lines_is_read_back() {
    let lines = vec![String::from("1\tone^1\t-10"), String::from("2\t\t20")];
    let pieces = convert_to_dnt("_RowID|3\t_Name|1\t_Count|3", &lines);
    let mut file = Vec::new();
    for piece in pieces {
        match piece {
            Piece::Bytes(bytes) => file.extend_from_slice(&bytes),
            Piece::Single(_) | Piece::Double(_) => unreachable!(),
        }
    }
    let table = convert_to_tsv(&file).unwrap();
    assert_eq!(
        table.rows,
        vec![
            Row { id: 1, cells: vec![Cell::Text(b"one^1".to_vec()), Cell::Integer(-10)] },
            Row { id: 2, cells: vec![Cell::Text(Vec::new()), Cell::Integer(20)] },
        ]
    );
}
