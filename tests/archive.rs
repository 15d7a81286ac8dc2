use std::io::Write;

use libtos::entry::decode_plain;
use libtos::{
    CipherMode, EntryContent, IesCell, InvalidReason, IoKind, IpfArchive, IpfArchiveHeader,
    IpfCrypto, IpfEntryHeader, IpfError,
};

const KEYS: [u8; 5] = [7, 13, 200, 0, 91];

fn keys() -> Vec<u8> {
    KEYS.to_vec()
}

fn deflate(data: &[u8]) -> Vec<u8> {
    let mut enc = flate2::write::DeflateEncoder::new(Vec::new(), flate2::Compression::default());
    enc.write_all(data).unwrap();
    enc.finish().unwrap()
}

fn obfuscated(data: &[u8]) -> Vec<u8> {
    let mut c = IpfCrypto::new(keys());
    c.encrypt();
    c.apply(0, data)
}

/// Lays out the stored bytes of each entry, then the entry headers, then the footer.
fn build(entries: &[(&str, &str, Vec<u8>)]) -> Vec<u8> {
    let mut out = Vec::new();
    let mut records = Vec::new();
    for (name, archive, stored) in entries {
        let header = IpfEntryHeader {
            file_name: name.to_string(),
            archive_name: archive.to_string(),
            crc32: 0x1234_5678,
            compressed_size: stored.len() as u32,
            uncompressed_size: 0,
            data_offset: out.len() as u32,
        };
        out.extend(stored);
        records.extend(header.into_bytes());
    }
    let local = out.len() as u32;
    out.extend(records);
    let footer = IpfArchiveHeader {
        entry_count: entries.len() as u16,
        local_file_offset: local,
        header_offset: local,
        signature: [0x50, 0x4B, 0x05, 0x06],
        base_revision: 1,
        revision: 2,
    };
    out.extend(footer.into_bytes());
    out
}

fn bytes_of(c: EntryContent) -> Vec<u8> {
    match c {
        EntryContent::Bytes(b) => b,
        EntryContent::Table(_) => panic!("bytes expected"),
    }
}

fn table_blob() -> Vec<u8> {
    let mut col = Vec::new();
    let mut name = vec![b'V' ^ 1];
    name.resize(64, 0);
    col.extend(&name);
    col.extend(&name);
    col.push(0);
    col.extend([0u8; 5]);
    col.extend(0u16.to_le_bytes());
    let mut row = vec![0u8; 4];
    row.extend(1u16.to_le_bytes());
    row.push(b'R' ^ 1);
    row.extend(4.5f32.to_le_bytes());
    let mut out = vec![0u8; 128];
    out.extend([0u8; 4]);
    out.extend((col.len() as u32).to_le_bytes());
    out.extend((row.len() as u32).to_le_bytes());
    out.extend(((154 + col.len() + row.len()) as u32).to_le_bytes());
    out.extend([0u8; 2]);
    for n in [1u16, 1, 1, 0] {
        out.extend(n.to_le_bytes());
    }
    out.extend(col);
    out.extend(row);
    out
}

#[test]
fn short_source_is_invalid() {
    for n in 0..24 {
        assert!(matches!(
            IpfArchive::new(vec![0u8; n], keys()),
            Err(IpfError::InvalidArchive(InvalidReason::MissingFooter))
        ));
    }
}

#[test]
fn wrong_signature_is_invalid() {
    let mut data = build(&[("a.txt", "x.ipf", deflate(b"abc"))]);
    let n = data.len();
    data[n - 12] = 0x51;
    assert!(matches!(
        IpfArchive::new(data, keys()),
        Err(IpfError::InvalidArchive(InvalidReason::BadSignature))
    ));
}

#[test]
fn signature_checked_before_entries() {
    let mut footer = vec![0xFFu8, 0xFF, 0, 0, 0, 0, 0, 0, 0, 0, 0, 0];
    footer.extend([0u8, 0, 0, 0]);
    footer.extend([0u8; 8]);
    assert!(matches!(
        IpfArchive::new(footer, keys()),
        Err(IpfError::InvalidArchive(InvalidReason::BadSignature))
    ));
}

#[test]
fn empty_archive() {
    let a = IpfArchive::new(build(&[]), keys()).unwrap();
    assert_eq!(a.len(), 0);
    assert!(a.is_empty());
    assert!(matches!(a.by_index(0), Err(IpfError::FileNotFound)));
}

#[test]
fn length_matches_footer_and_every_index_resolves() {
    let data = build(&[
        ("a/one.txt", "x.ipf", deflate(b"one")),
        ("b/two.jpg", "x.ipf", b"JPEGDATA".to_vec()),
        ("three", "x.ipf", deflate(b"three")),
    ]);
    let a = IpfArchive::new(data, keys()).unwrap();
    assert_eq!(a.len(), 3);
    assert_eq!(a.header().entry_count, 3);
    assert!(!a.is_empty());
    for i in 0..a.len() {
        assert!(a.by_index(i).is_ok());
    }
    assert!(matches!(a.by_index(3), Err(IpfError::FileNotFound)));
}

#[test]
fn truncated_directory_fails() {
    let mut data = build(&[("a.txt", "x.ipf", deflate(b"abc"))]);
    let n = data.len();
    // Let the directory start so late that its one header runs into the end of the data.
    let late = (n - 10) as u32;
    data[n - 22..n - 18].copy_from_slice(&late.to_le_bytes());
    assert!(matches!(
        IpfArchive::new(data, keys()),
        Err(IpfError::Io(IoKind::UnexpectedEof))
    ));
}

#[test]
fn invalid_entry_name_fails() {
    let mut data = build(&[("a.txt", "x.ipf", deflate(b"abc"))]);
    let n = data.len();
    // The last byte before the footer belongs to the file name.
    data[n - 25] = 0xFF;
    assert!(matches!(IpfArchive::new(data, keys()), Err(IpfError::Encoding)));
}

#[test]
fn by_name_first_occurrence_wins() {
    let data = build(&[
        ("dir/file.txt", "first.ipf", obfuscated(&deflate(b"1"))),
        ("other/file.txt", "x.ipf", obfuscated(&deflate(b"2"))),
        ("dir/file.txt", "second.ipf", obfuscated(&deflate(b"3"))),
    ]);
    let a = IpfArchive::new(data, keys()).unwrap();
    let e = a.by_name("dir/file.txt").unwrap();
    assert_eq!(e.archive_name(), "first.ipf");
    assert_eq!(bytes_of(e.read_all().unwrap()), b"1");
    assert!(matches!(a.by_name("file.txt"), Err(IpfError::FileNotFound)));
    assert!(matches!(a.by_name("dir/file"), Err(IpfError::FileNotFound)));
}

#[test]
fn compressed_entry_is_deciphered_and_inflated() {
    let plain = b"hello hello hello hello world".to_vec();
    let data = build(&[("scripts/init.lua", "x.ipf", obfuscated(&deflate(&plain)))]);
    let a = IpfArchive::new(data, keys()).unwrap();
    let e = a.by_index(0).unwrap();
    assert_eq!(bytes_of(e.read_all().unwrap()), plain);
}

#[test]
fn entry_without_extension_is_compressed() {
    let data = build(&[("README", "x.ipf", obfuscated(&deflate(b"text")))]);
    let a = IpfArchive::new(data, keys()).unwrap();
    assert_eq!(bytes_of(a.by_index(0).unwrap().read_all().unwrap()), b"text");
}

#[test]
fn stored_extensions_pass_through() {
    let raw = vec![0xFFu8, 0xD8, 0x00, 0x10, 0x7F];
    for name in ["img/a.jpg", "img/b.JPG", "snd/c.fsb", "snd/d.Mp3"] {
        let data = build(&[(name, "x.ipf", raw.clone())]);
        let a = IpfArchive::new(data, keys()).unwrap();
        let e = a.by_index(0).unwrap();
        assert_eq!(bytes_of(e.read_all().unwrap()), raw);
    }
}

#[test]
fn entry_range_is_cut_at_end_of_data() {
    let mut h = IpfEntryHeader {
        file_name: "x.jpg".to_string(),
        archive_name: "a".to_string(),
        crc32: 0,
        compressed_size: 1000,
        uncompressed_size: 0,
        data_offset: 2,
    };
    let mut data = vec![9u8, 8, 7, 6];
    let local = data.len() as u32;
    h.data_offset = 2;
    data.extend(h.into_bytes());
    let footer = IpfArchiveHeader {
        entry_count: 1,
        local_file_offset: local,
        header_offset: 0,
        signature: [0x50, 0x4B, 0x05, 0x06],
        base_revision: 0,
        revision: 0,
    };
    data.extend(footer.into_bytes());
    let n = data.len();
    let a = IpfArchive::new(data.clone(), keys()).unwrap();
    let got = bytes_of(a.by_index(0).unwrap().read_all().unwrap());
    assert_eq!(got, data[2..n].to_vec());
}

#[test]
fn corrupt_deflate_stream_fails() {
    let data = build(&[("a.txt", "x.ipf", vec![0xFF; 8])]);
    let a = IpfArchive::new(data, keys()).unwrap();
    assert!(matches!(
        a.by_index(0).unwrap().read_all(),
        Err(IpfError::Io(IoKind::InvalidData))
    ));
}

#[test]
fn table_entry_yields_table() {
    let data = build(&[("data/item.IES", "x.ipf", obfuscated(&deflate(&table_blob())))]);
    let a = IpfArchive::new(data, keys()).unwrap();
    let e = a.by_index(0).unwrap();
    match e.read_all().unwrap() {
        EntryContent::Table(t) => {
            let numbers: Vec<Vec<String>> = t
                .rows
                .iter()
                .map(|r| {
                    r.cells
                        .iter()
                        .map(|c| match c {
                            IesCell::Num(b) => f32::from_bits(*b).to_string(),
                            IesCell::Str(_) => String::new(),
                        })
                        .collect()
                })
                .collect();
            let text = t.render(&numbers).unwrap();
            assert_eq!(String::from_utf8(text).unwrap(), "V\n4.5\n");
        }
        EntryContent::Bytes(_) => panic!("table expected"),
    }
}

#[test]
fn decode_plain_keeps_non_table_bytes() {
    assert_eq!(bytes_of(decode_plain(vec![1, 2, 3], false).unwrap()), vec![1, 2, 3]);
    assert!(matches!(decode_plain(vec![1, 2, 3], true), Err(IpfError::Io(IoKind::UnexpectedEof))));
    assert!(matches!(decode_plain(table_blob(), true), Ok(EntryContent::Table(_))));
}

#[test]
fn forced_modes_change_the_cipher() {
    let raw = vec![1u8, 2, 3, 4, 5, 6];
    let data = build(&[("pic.jpg", "x.ipf", raw.clone())]);
    let a = IpfArchive::new(data, keys()).unwrap();
    let mut e = a.by_index(0).unwrap();
    e.encrypt();
    let forward = bytes_of(e.read_all().unwrap());
    assert_eq!(forward, obfuscated(&raw));
    assert_ne!(forward, raw);
    e.stored();
    assert_eq!(bytes_of(e.read_all().unwrap()), raw);
    e.decrypt();
    let mut c = IpfCrypto::new(keys());
    assert_eq!(c.mode(), CipherMode::Inverse);
    c.decrypt();
    assert_eq!(bytes_of(e.read_all().unwrap()), c.apply(0, &raw));
}

#[test]
fn entry_paths() {
    let data = build(&[
        ("event_banner/event1234.png", "example.ipf", deflate(b"")),
        ("/abs/path.txt", "example.ipf", deflate(b"")),
        ("plain.txt", "dir/", deflate(b"")),
        ("x.txt", "", deflate(b"")),
    ]);
    let a = IpfArchive::new(data, keys()).unwrap();
    let e = a.by_index(0).unwrap();
    assert_eq!(e.archive_name(), "example.ipf");
    assert_eq!(e.path(), "event_banner/event1234.png");
    assert_eq!(e.file_name(), "event1234.png");
    assert_eq!(e.full_path(), "example.ipf/event_banner/event1234.png");
    assert_eq!(a.by_index(1).unwrap().full_path(), "/abs/path.txt");
    assert_eq!(a.by_index(2).unwrap().full_path(), "dir/plain.txt");
    assert_eq!(a.by_index(3).unwrap().full_path(), "x.txt");
}

#[test]
fn header_extension_rules() {
    let h = |n: &str| IpfEntryHeader {
        file_name: n.to_string(),
        archive_name: String::new(),
        crc32: 0,
        compressed_size: 0,
        uncompressed_size: 0,
        data_offset: 0,
    };
    assert_eq!(h("a/b.tar.gz").extension().as_deref(), Some("gz"));
    assert_eq!(h("a/.hidden").extension(), None);
    assert_eq!(h("a.d/file").extension(), None);
    assert_eq!(h("noext").extension(), None);
    assert_eq!(h("dir/pic.jpg/").extension().as_deref(), Some("jpg"));
    assert_eq!(h("..").extension(), None);
    assert!(!h("x.JpG").worth_compress());
    assert!(h("x.jpeg").worth_compress());
    assert!(h("x").worth_compress());
    assert!(h("t.Ies").is_table());
    assert!(!h("t.iesx").is_table());
}

#[test]
fn header_records_round_trip() {
    let h = IpfEntryHeader {
        file_name: "dir/ü.txt".to_string(),
        archive_name: "arc.ipf".to_string(),
        crc32: 0xDEAD_BEEF,
        compressed_size: 17,
        uncompressed_size: 99,
        data_offset: 0x0102_0304,
    };
    let bytes = h.into_bytes();
    assert_eq!(bytes.len(), 20 + 7 + 10);
    assert_eq!(&bytes[0..2], &[10, 0]);
    let (back, end) = IpfEntryHeader::parse(&bytes, 0).unwrap();
    assert_eq!(end, bytes.len());
    assert_eq!(back.file_name, "dir/ü.txt");
    assert_eq!(back.archive_name, "arc.ipf");
    assert_eq!(back.crc32, 0xDEAD_BEEF);
    assert_eq!(back.compressed_size, 17);
    assert_eq!(back.uncompressed_size, 99);
    assert_eq!(back.data_offset, 0x0102_0304);
    let f = IpfArchiveHeader {
        entry_count: 513,
        local_file_offset: 7,
        header_offset: 8,
        signature: [0x50, 0x4B, 0x05, 0x06],
        base_revision: 9,
        revision: 10,
    };
    let fb = f.into_bytes();
    assert_eq!(fb.len(), 24);
    let g = IpfArchiveHeader::parse(&fb).unwrap();
    assert_eq!(g.entry_count, 513);
    assert_eq!(g.local_file_offset, 7);
    assert_eq!(g.header_offset, 8);
    assert_eq!(g.signature, [0x50, 0x4B, 0x05, 0x06]);
    assert_eq!((g.base_revision, g.revision), (9, 10));
}

#[test]
fn cipher_modes_undo_each_other() {
    let data: Vec<u8> = (0..=255u8).collect();
    let mut c = IpfCrypto::new(keys());
    c.encrypt();
    let enc = c.apply(3, &data);
    assert_ne!(enc, data);
    assert_eq!(enc[0], data[0].wrapping_add(KEYS[3]));
    c.decrypt();
    assert_eq!(c.apply(3, &enc), data);
    c.stored();
    assert_eq!(c.apply(3, &data), data);
    let empty = IpfCrypto::new(vec![]);
    assert_eq!(empty.apply(0, &data), data);
}

#[test]
fn error_messages() {
    assert_eq!(IpfError::FileNotFound.message(), "Specified file not found in archive");
    assert_eq!(IpfError::Encoding.message(), "Invalid UTF-8");
}
