use libtos::ies::IesHeader;
use libtos::{decrypt, order_columns, IesCell, IesColumn, IesTable, IpfError};
use libtos::{InvalidReason, IoKind};

fn obfuscate(text: &str, width: usize) -> Vec<u8> {
    let mut out: Vec<u8> = text.bytes().map(|b| b ^ 1).collect();
    while out.len() < width {
        out.push(0);
    }
    out
}

fn column(name: &str, is_string: bool, order: u16) -> Vec<u8> {
    let mut out = obfuscate(name, 64);
    out.extend(obfuscate(name, 64));
    out.push(if is_string { 1 } else { 0 });
    out.extend([0u8; 5]);
    out.extend(order.to_le_bytes());
    out
}

fn row(class: &str, nums: &[f32], strs: &[&str]) -> Vec<u8> {
    let mut out = vec![0u8; 4];
    out.extend((class.len() as u16).to_le_bytes());
    out.extend(obfuscate(class, 0));
    for n in nums {
        out.extend(n.to_le_bytes());
    }
    for s in strs {
        out.extend((s.len() as u16).to_le_bytes());
        out.extend(obfuscate(s, 0));
    }
    out.extend(vec![0xEEu8; strs.len()]);
    out
}

/// A table with columns (A numeric order 2), (B numeric order 0), (C string order 1).
fn sample_table() -> Vec<u8> {
    let mut cols = Vec::new();
    cols.extend(column("A", false, 2));
    cols.extend(column("B", false, 0));
    cols.extend(column("C", true, 1));
    let mut rows = Vec::new();
    rows.extend(row("First", &[1.5, 2.0], &["hi"]));
    rows.extend(row("Second", &[-0.25, 100.0], &["a,\"b\""]));
    let mut out = Vec::new();
    let mut name = b"Sample".to_vec();
    name.resize(128, 0);
    out.extend(name);
    out.extend([0u8; 4]);
    let file_size = (154 + cols.len() + rows.len()) as u32;
    out.extend((cols.len() as u32).to_le_bytes());
    out.extend((rows.len() as u32).to_le_bytes());
    out.extend(file_size.to_le_bytes());
    out.extend([0u8; 2]);
    out.extend(2u16.to_le_bytes());
    out.extend(3u16.to_le_bytes());
    out.extend(2u16.to_le_bytes());
    out.extend(1u16.to_le_bytes());
    out.extend(cols);
    out.extend(rows);
    out
}

fn number_texts(t: &IesTable) -> Vec<Vec<String>> {
    t.rows
        .iter()
        .map(|r| {
            r.cells
                .iter()
                .map(|c| match c {
                    IesCell::Num(bits) => f32::from_bits(*bits).to_string(),
                    IesCell::Str(_) => String::new(),
                })
                .collect()
        })
        .collect()
}

fn col(name: &str, is_string: bool, order: u16) -> IesColumn {
    IesColumn { name1: name.to_string(), name2: name.to_string(), is_string, order }
}

#[test]
fn decrypt_stops_at_raw_zero_before_xor() {
    assert_eq!(decrypt(vec![0x02, 0x00, 0x03]).unwrap(), "\u{3}");
}

#[test]
fn decrypt_xors_every_byte() {
    assert_eq!(decrypt(vec![b'i' ^ 1, b'p' ^ 1, b'f' ^ 1]).unwrap(), "ipf");
    assert_eq!(decrypt(vec![]).unwrap(), "");
    assert_eq!(decrypt(vec![0x00, 0x41]).unwrap(), "");
}

#[test]
fn decrypt_rejects_invalid_utf8() {
    assert_eq!(decrypt(vec![0xFE]), Err(IpfError::Encoding));
}

#[test]
fn numeric_group_precedes_string_group() {
    let cols = vec![col("x", false, 2), col("y", false, 0), col("z", true, 1)];
    let r = order_columns(cols);
    let got: Vec<(bool, u16)> = r.iter().map(|c| (c.is_string, c.order)).collect();
    assert_eq!(got, vec![(false, 0), (false, 2), (true, 1)]);
}

#[test]
fn ordering_is_stable_for_equal_orders() {
    let cols = vec![
        col("s1", true, 5),
        col("n1", false, 1),
        col("n2", false, 1),
        col("s2", true, 0),
        col("n3", false, 0),
    ];
    let names: Vec<String> = order_columns(cols).into_iter().map(|c| c.name1).collect();
    assert_eq!(names, vec!["n3", "n1", "n2", "s2", "s1"]);
}

#[test]
fn ordering_of_no_columns_is_empty() {
    assert!(order_columns(vec![]).is_empty());
}

#[test]
fn float_cells_keep_their_bits() {
    for v in [0.0f32, -0.0, f32::MAX, f32::MIN_POSITIVE, 3.0e38, f32::NAN] {
        let bytes = v.to_le_bytes();
        match IesCell::parse_int(&bytes, 0).unwrap() {
            IesCell::Num(bits) => {
                assert_eq!(bits, v.to_bits());
                assert_eq!(f32::from_bits(bits).to_bits(), v.to_bits());
            }
            IesCell::Str(_) => panic!("numeric cell expected"),
        }
    }
    let nan_pattern = 0x7FC0_0001u32.to_le_bytes();
    match IesCell::parse_int(&nan_pattern, 0).unwrap() {
        IesCell::Num(bits) => assert_eq!(bits, 0x7FC0_0001),
        IesCell::Str(_) => panic!("numeric cell expected"),
    }
}

#[test]
fn float_cell_needs_four_bytes() {
    assert!(matches!(
        IesCell::parse_int(&[1, 2, 3], 0),
        Err(IpfError::Io(IoKind::UnexpectedEof))
    ));
}

#[test]
fn string_cell_is_length_prefixed() {
    let mut data = vec![2u8, 0];
    data.extend(obfuscate("ok", 0));
    match IesCell::parse_string(&data, 0).unwrap() {
        (IesCell::Str(s), end) => {
            assert_eq!(s, "ok");
            assert_eq!(end, 4);
        }
        _ => panic!("string cell expected"),
    }
    assert!(matches!(
        IesCell::parse_string(&data[..3], 0),
        Err(IpfError::Io(IoKind::UnexpectedEof))
    ));
}

#[test]
fn header_derives_offsets() {
    let blob = sample_table();
    let h = IesHeader::parse(&blob).unwrap();
    assert_eq!(h.name, "Sample");
    assert_eq!(h.column_offset, 154);
    assert_eq!(h.row_offset, 154 + 3 * 136);
    assert_eq!(h.file_size as usize, blob.len());
    assert_eq!((h.row_count, h.column_count), (2, 3));
    assert_eq!((h.int_column_count, h.str_column_count), (2, 1));
}

#[test]
fn header_rejects_offsets_before_start() {
    let mut blob = sample_table();
    blob[132..136].copy_from_slice(&100_000u32.to_le_bytes());
    assert!(matches!(
        IesHeader::parse(&blob),
        Err(IpfError::InvalidArchive(InvalidReason::TableOffsets))
    ));
    assert!(matches!(
        IesTable::parse(&blob),
        Err(IpfError::InvalidArchive(InvalidReason::TableOffsets))
    ));
}

#[test]
fn header_needs_full_length() {
    let blob = sample_table();
    assert!(matches!(
        IesTable::parse(&blob[..153]),
        Err(IpfError::Io(IoKind::UnexpectedEof))
    ));
}

#[test]
fn header_name_must_be_utf8() {
    let mut blob = sample_table();
    blob[0] = 0xFF;
    assert!(matches!(IesTable::parse(&blob), Err(IpfError::Encoding)));
}

#[test]
fn table_decodes_columns_and_rows() {
    let t = IesTable::parse(&sample_table()).unwrap();
    let names: Vec<&str> = t.columns.iter().map(|c| c.name1.as_str()).collect();
    assert_eq!(names, vec!["B", "A", "C"]);
    assert_eq!(t.rows.len(), 2);
    assert_eq!(t.rows[0].class_name, "First");
    assert_eq!(t.rows[1].class_name, "Second");
    match &t.rows[0].cells[..] {
        [IesCell::Num(a), IesCell::Num(b), IesCell::Str(s)] => {
            assert_eq!(*a, 1.5f32.to_bits());
            assert_eq!(*b, 2.0f32.to_bits());
            assert_eq!(s, "hi");
        }
        _ => panic!("unexpected cells"),
    }
}

#[test]
fn table_renders_canonical_text() {
    let t = IesTable::parse(&sample_table()).unwrap();
    let text = t.render(&number_texts(&t)).unwrap();
    assert_eq!(
        String::from_utf8(text).unwrap(),
        "B,A,C\n1.5,2,\"hi\"\n-0.25,100,\"a,\"b\"\"\n"
    );
}

#[test]
fn render_refuses_missing_number_texts() {
    let t = IesTable::parse(&sample_table()).unwrap();
    assert!(t.render(&vec![]).is_none());
    assert!(t.render(&vec![vec![], vec![]]).is_none());
}

#[test]
fn truncated_rows_fail() {
    let blob = sample_table();
    assert!(matches!(
        IesTable::parse(&blob[..blob.len() - 2]),
        Err(IpfError::Io(IoKind::UnexpectedEof))
    ));
}

#[test]
fn trailer_of_last_row_may_be_missing() {
    let blob = sample_table();
    let t = IesTable::parse(&blob[..blob.len() - 1]).unwrap();
    assert_eq!(t.rows.len(), 2);
}

#[test]
fn reader_decodes_table() {
    let r = libtos::IesReader::new(sample_table());
    assert_eq!(r.table().unwrap().columns.len(), 3);
    let e = libtos::IesReader::new(vec![1, 2, 3]);
    assert!(e.table().is_err());
}

