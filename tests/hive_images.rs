use reg_parser::bigdata::BigDataBlock;
use reg_parser::hbin::HbinCellIterator;
use reg_parser::header::BaseBlock;
use reg_parser::hive::Hive;
use reg_parser::key::KeyNode;
use reg_parser::subkey_list::SubkeyList;
use reg_parser::transaction_log::{apply_transaction_logs, merge_transaction_logs, DirtyPage, TransactionLog};
use reg_parser::utils::{absolute_to_cell_offset, calculate_checksum, cell_offset_to_absolute, read_ascii_string, read_utf16_string};
use reg_parser::value::{ValueData, ValueKey};
use reg_parser::{CellType, RegistryError, ValueType};

fn put_u16(b: &mut [u8], at: usize, v: u16) {
    b[at..at + 2].copy_from_slice(&v.to_le_bytes());
}

fn put_u32(b: &mut [u8], at: usize, v: u32) {
    b[at..at + 4].copy_from_slice(&v.to_le_bytes());
}

fn xor_checksum(b: &[u8]) -> u32 {
    let mut c = 0u32;
    for i in (0..0x1FC).step_by(4) {
        c ^= u32::from_le_bytes([b[i], b[i + 1], b[i + 2], b[i + 3]]);
    }
    c
}

fn seal_base_block(img: &mut [u8]) {
    let c = xor_checksum(img);
    put_u32(img, 0x1FC, c);
}

/// A hive image under construction: base block, one hbin, cells appended in order.
struct ImageBuilder {
    img: Vec<u8>,
}

impl ImageBuilder {
    fn new() -> Self {
        let mut img = vec![0u8; 0x1000 + 0x20];
        img[0..4].copy_from_slice(b"regf");
        put_u32(&mut img, 0x14, 1);
        put_u32(&mut img, 0x18, 3);
        img[0x1000..0x1004].copy_from_slice(b"hbin");
        ImageBuilder { img }
    }

    /// Appends an allocated cell holding `payload`; returns its cell offset.
    fn cell(&mut self, payload: &[u8]) -> u32 {
        let at = self.img.len();
        let size = (payload.len() + 4) as i32;
        self.img.extend_from_slice(&(-size).to_le_bytes());
        self.img.extend_from_slice(payload);
        (at - 0x1000) as u32
    }

    fn finish(mut self, root: u32) -> Vec<u8> {
        let bins = self.img.len() - 0x1000;
        let padded = (bins + 0xFFF) / 0x1000 * 0x1000;
        self.img.resize(0x1000 + padded, 0);
        put_u32(&mut self.img, 0x1008, padded as u32);
        put_u32(&mut self.img, 0x24, root);
        put_u32(&mut self.img, 0x28, padded as u32);
        seal_base_block(&mut self.img);
        self.img
    }
}

fn key_node(name: &str, subkeys: u32, subkey_list: u32, values: u32, value_list: u32) -> Vec<u8> {
    let mut p = vec![0u8; 0x4C];
    p[0..2].copy_from_slice(b"nk");
    put_u16(&mut p, 0x02, 0x0020);
    put_u32(&mut p, 0x14, subkeys);
    put_u32(&mut p, 0x1C, subkey_list);
    put_u32(&mut p, 0x24, values);
    put_u32(&mut p, 0x28, value_list);
    put_u16(&mut p, 0x48, name.len() as u16);
    p.extend_from_slice(name.as_bytes());
    p
}

fn value_key(name: &str, length_raw: u32, data_offset: u32, data_type: u32) -> Vec<u8> {
    let mut p = vec![0u8; 0x14];
    p[0..2].copy_from_slice(b"vk");
    put_u16(&mut p, 0x02, name.len() as u16);
    put_u32(&mut p, 0x04, length_raw);
    put_u32(&mut p, 0x08, data_offset);
    put_u32(&mut p, 0x0C, data_type);
    put_u16(&mut p, 0x10, 1);
    p.extend_from_slice(name.as_bytes());
    if p.len() < 24 {
        p.resize(24, 0);
    }
    p
}

fn offsets_list(sig: &[u8; 2], offsets: &[u32]) -> Vec<u8> {
    let mut p = vec![0u8; 4];
    p[0..2].copy_from_slice(sig);
    put_u16(&mut p, 2, offsets.len() as u16);
    for o in offsets {
        p.extend_from_slice(&o.to_le_bytes());
    }
    p
}

fn utf16(s: &str) -> Vec<u8> {
    s.encode_utf16().flat_map(|u| u.to_le_bytes()).collect()
}

/// A hive whose root has two subkeys (through an index root) and three values.
fn sample_hive() -> Vec<u8> {
    let mut b = ImageBuilder::new();
    let child_a = b.cell(&key_node("Alpha", 0, 0xFFFF_FFFF, 0, 0xFFFF_FFFF));
    let child_b = b.cell(&key_node("Beta", 0, 0xFFFF_FFFF, 0, 0xFFFF_FFFF));
    let mut lf = vec![0u8; 4];
    lf[0..2].copy_from_slice(b"lf");
    put_u16(&mut lf, 2, 1);
    lf.extend_from_slice(&child_b.to_le_bytes());
    lf.extend_from_slice(b"Beta");
    let leaf_b = b.cell(&lf);
    let leaf_a = b.cell(&offsets_list(b"li", &[child_a]));
    let root_list = b.cell(&offsets_list(b"ri", &[leaf_a, leaf_b]));
    let text = b.cell(&utf16("hello\0"));
    let v_inline = b.cell(&value_key("", 0x8000_0004, 0x0403_0201, 4));
    let v_text = b.cell(&value_key("Greeting", 12, text, 1));
    let v_multi_data = b.cell(&utf16("one\0two\0\0"));
    let v_multi = b.cell(&value_key("Names", 20, v_multi_data, 7));
    let value_list = b.cell(&[v_inline.to_le_bytes(), v_text.to_le_bytes(), v_multi.to_le_bytes()].concat());
    let root = b.cell(&key_node("ROOT", 2, root_list, 3, value_list));
    b.finish(root)
}

fn dump(hive: &Hive) -> Vec<(String, Vec<(String, Vec<u8>)>)> {
    let mut out = Vec::new();
    let mut stack = vec![(String::new(), hive.root_key().unwrap())];
    while let Some((path, key)) = stack.pop() {
        let here = format!("{}/{}", path, key.name().unwrap());
        let mut values = Vec::new();
        for v in key.values().unwrap() {
            values.push((v.name().to_string(), v.raw_data().unwrap()));
        }
        out.push((here.clone(), values));
        for sub in key.subkeys().unwrap() {
            stack.push((here.clone(), sub));
        }
    }
    out
}

#[test]
fn cell_type_signature_round_trip_for_every_kind() {
    for t in [
        CellType::KeyNode,
        CellType::ValueKey,
        CellType::Security,
        CellType::IndexLeaf,
        CellType::FastLeaf,
        CellType::HashLeaf,
        CellType::IndexRoot,
        CellType::DataBlock,
    ] {
        assert_eq!(CellType::from_signature(t.signature()).unwrap(), t);
    }
    assert!(matches!(
        CellType::from_signature(b"zz"),
        Err(RegistryError::UnknownCellType { cell_type: [b'z', b'z'], offset: 0 })
    ));
}

#[test]
fn value_type_codes_round_trip() {
    for c in 0..=11u32 {
        assert_eq!(ValueType::from_u32(c).unwrap().code(), c);
    }
    assert_eq!(ValueType::from_u32(12).unwrap(), ValueType::Unknown(12));
    assert_eq!(ValueType::from_u32(999).unwrap().code(), 999);
    assert_eq!(ValueType::Unknown(999).name(), "REG_UNKNOWN_0x000003e7");
}

#[test]
fn offsets_round_trip_and_limits() {
    for x in [0u32, 1, 0x20, 0x1234_5678, u32::MAX - 0x1000] {
        let abs = cell_offset_to_absolute(x).unwrap();
        assert_eq!(absolute_to_cell_offset(abs).unwrap(), x);
    }
    assert!(matches!(
        cell_offset_to_absolute(u32::MAX),
        Err(RegistryError::InvalidOffset { offset: u32::MAX, hive_size: 0 })
    ));
    assert!(matches!(absolute_to_cell_offset(0x0FFF), Err(RegistryError::InvalidFormat(_))));
}

#[test]
fn reparsing_a_cell_gives_the_same_attributes() {
    let nk = key_node("Software", 7, 0x120, 3, 0x340);
    let a = KeyNode::parse(&nk, 0x20).unwrap();
    let b = KeyNode::parse(&nk, 0x20).unwrap();
    assert_eq!((a.subkey_count, a.subkey_list_offset, a.value_count, a.value_list_offset), (7, 0x120, 3, 0x340));
    assert_eq!((a.subkey_count, a.subkey_list_offset, a.value_count, a.value_list_offset, a.name.clone()),
        (b.subkey_count, b.subkey_list_offset, b.value_count, b.value_list_offset, b.name.clone()));
    assert_eq!(a.name, "Software");

    let vk = value_key("Path", 0x10, 0x560, 2);
    let c = ValueKey::parse(&vk, 0x40).unwrap();
    let d = ValueKey::parse(&vk, 0x40).unwrap();
    assert_eq!((c.data_length, c.data_offset, c.data_type, c.name.clone()), (0x10, 0x560, ValueType::ExpandString, "Path".to_string()));
    assert_eq!((c.data_length, c.data_offset, c.data_type, c.name.clone()), (d.data_length, d.data_offset, d.data_type, d.name.clone()));
}

#[test]
fn checksum_cancels_and_survives_save() {
    let img = sample_hive();
    let c = calculate_checksum(&img);
    assert_eq!(c ^ c, 0);
    assert_eq!(c, xor_checksum(&img));

    let hive = Hive::from_vec(img).unwrap();
    let saved = hive.to_saved_bytes();
    let reloaded = Hive::from_vec(saved.clone()).unwrap();
    let stored = u32::from_le_bytes([saved[0x1FC], saved[0x1FD], saved[0x1FE], saved[0x1FF]]);
    assert_eq!(stored, calculate_checksum(&saved));
    assert_eq!(dump(&hive), dump(&reloaded));
}

#[test]
fn empty_log_keeps_the_keys_of_a_clean_hive() {
    let img = sample_hive();
    let hive = Hive::from_vec(img.clone()).unwrap();
    assert!(hive.base_block().is_consistent());
    let log = TransactionLog { sequence: 3, dirty_pages: Vec::new() };
    let after = hive.apply_transaction_log(&log).unwrap();
    assert_eq!(after.to_bytes(), img);
    assert_eq!(dump(&hive), dump(&after));
}

#[test]
fn big_data_header_boundaries() {
    assert!(matches!(
        BigDataBlock::parse(&[b'd', b'b', 5, 0, 0x20, 0, 0], 9),
        Err(RegistryError::TruncatedData { offset: 9, expected: 8, actual: 7 })
    ));
    let db = BigDataBlock::parse(&[b'd', b'b', 0x05, 0x00, 0x20, 0x00, 0x00, 0x00], 0).unwrap();
    assert_eq!(db.segment_count, 5);
    assert_eq!(db.segment_list_offset, 0x20);
}

#[test]
fn zero_size_word_ends_cell_walk() {
    let mut area = vec![0u8; 32];
    put_u32(&mut area, 0, (-16i32) as u32);
    let mut cells = HbinCellIterator::new(&area, 0x40);
    let first = cells.next().unwrap().unwrap();
    assert_eq!((first.offset, first.size, first.is_allocated, first.data.len()), (0x40, 16, true, 12));
    assert!(cells.next().is_none());
}

#[test]
fn tiny_cell_sizes_are_rejected() {
    for size in [1i32, 2, 3, -1, -2, -3] {
        let mut area = vec![0u8; 16];
        put_u32(&mut area, 0, size as u32);
        let mut cells = HbinCellIterator::new(&area, 0);
        match cells.next() {
            Some(Err(RegistryError::InvalidCellSize { size: s, offset: 0 })) => assert_eq!(s, size),
            _ => panic!("expected an invalid cell size for {}", size),
        }
    }
}

#[test]
fn dirty_page_limits() {
    let cases = [
        DirtyPage { offset: u32::MAX - 100, size: 200, data: vec![0; 200] },
        DirtyPage { offset: 512 * 1024 * 1024, size: 100, data: vec![0; 100] },
        DirtyPage { offset: 0x100, size: 8, data: vec![0; 7] },
    ];
    for page in cases {
        let mut img = vec![0u8; 0x2000];
        let log = TransactionLog { sequence: 1, dirty_pages: vec![page] };
        assert!(matches!(log.apply_to_hive(&mut img), Err(RegistryError::InvalidFormat(_))));
    }
}

#[test]
fn minimal_base_block_parses() {
    let mut img = vec![0u8; 4096];
    img[0..4].copy_from_slice(b"regf");
    img[0x14..0x18].copy_from_slice(&[1, 0, 0, 0]);
    img[0x18..0x1C].copy_from_slice(&[3, 0, 0, 0]);
    img[0x24..0x28].copy_from_slice(&[0x20, 0, 0, 0]);
    seal_base_block(&mut img);
    let b = BaseBlock::parse(&img).unwrap();
    assert!(b.is_consistent());
    assert_eq!(b.root_cell_offset, 0x20);
    assert_eq!((b.major_version, b.minor_version), (1, 3));

    img[0x30] = 0;
    let mut bad = img.clone();
    bad[0x100] = 1;
    assert!(matches!(BaseBlock::parse(&bad), Err(RegistryError::ChecksumMismatch { .. })));
    let mut old = img.clone();
    put_u32(&mut old, 0x18, 2);
    seal_base_block(&mut old);
    assert!(matches!(BaseBlock::parse(&old), Err(RegistryError::UnsupportedVersion { major: 1, minor: 2 })));
}

#[test]
fn filetime_converts_to_unix_time() {
    let mut img = vec![0u8; 4096];
    img[0..4].copy_from_slice(b"regf");
    put_u32(&mut img, 0x14, 1);
    put_u32(&mut img, 0x18, 5);
    let ticks: u64 = 116_444_736_000_000_000 + 15 * 10_000_000 + 7;
    img[0x0C..0x14].copy_from_slice(&ticks.to_le_bytes());
    seal_base_block(&mut img);
    let b = BaseBlock::parse(&img).unwrap();
    assert_eq!(b.last_written_unix(), (15, 700));
}

#[test]
fn inline_dword_value() {
    let hive = Hive::from_vec(sample_hive()).unwrap();
    let root = hive.root_key().unwrap();
    let values = root.values().unwrap();
    let v = &values[0];
    assert_eq!(v.name(), "(default)");
    assert_eq!(v.raw_data().unwrap(), vec![0x01, 0x02, 0x03, 0x04]);
    assert!(matches!(v.data().unwrap(), ValueData::Dword(0x0403_0201)));
}

#[test]
fn navigation_flattens_index_roots_and_finds_values() {
    let hive = Hive::from_vec(sample_hive()).unwrap();
    let root = hive.root_key().unwrap();
    assert_eq!(root.name().unwrap(), "ROOT");
    let names: Vec<String> = root.subkeys().unwrap().iter().map(|k| k.name().unwrap()).collect();
    assert_eq!(names, vec!["Alpha".to_string(), "Beta".to_string()]);
    let greeting = root.value("GREETING").unwrap();
    assert_eq!(greeting.data_type(), ValueType::String);
    assert!(matches!(greeting.data().unwrap(), ValueData::String(s) if s == "hello"));
    let names = root.value("names").unwrap();
    match names.data().unwrap() {
        ValueData::MultiString(parts) => assert_eq!(parts, vec!["one".to_string(), "two".to_string()]),
        _ => panic!("expected a multi-string"),
    }
    match root.value("Missing") {
        Err(RegistryError::NotFound(m)) => assert_eq!(m, "Value 'Missing'"),
        _ => panic!("expected not found"),
    }
}

#[test]
fn big_data_value_is_gathered_and_cut() {
    let mut b = ImageBuilder::new();
    let seg1: Vec<u8> = (0..16344u32).map(|i| (i % 251) as u8).collect();
    let seg2: Vec<u8> = (0..552u32).map(|i| (i % 13) as u8 + 100).collect();
    let s1 = b.cell(&seg1);
    let s2 = b.cell(&seg2);
    let list = b.cell(&[(s1 | 0x8000_0000).to_le_bytes(), (s2 | 0x8000_0000).to_le_bytes()].concat());
    let mut db = vec![0u8; 8];
    db[0..2].copy_from_slice(b"db");
    put_u16(&mut db, 2, 2);
    put_u32(&mut db, 4, list);
    let header = b.cell(&db);
    let vk = b.cell(&value_key("Blob", 0x4200, header, 3));
    let values = b.cell(&vk.to_le_bytes());
    let root = b.cell(&key_node("R", 0, 0xFFFF_FFFF, 1, values));
    let hive = Hive::from_vec(b.finish(root)).unwrap();
    let key = hive.root_key().unwrap();
    let v = &key.values().unwrap()[0];
    let expected: Vec<u8> = seg1.iter().chain(seg2.iter()).copied().take(0x4200).collect();
    match v.data().unwrap() {
        ValueData::Binary(bytes) => {
            assert_eq!(bytes.len(), 16896);
            assert_eq!(bytes, expected);
        }
        _ => panic!("expected binary data"),
    }
}

#[test]
fn log_replay_is_idempotent() {
    let img = vec![0x11u8; 0x3000];
    let log = TransactionLog {
        sequence: 4,
        dirty_pages: vec![
            DirtyPage { offset: 0x1000, size: 4, data: vec![1, 2, 3, 4] },
            DirtyPage { offset: 0x2FFC, size: 8, data: vec![9; 8] },
        ],
    };
    let mut once = img.clone();
    assert_eq!(apply_transaction_logs(&mut once, std::slice::from_ref(&log)).unwrap(), 2);
    assert_eq!(once.len(), 0x3004);
    assert_eq!(&once[0x1000..0x1004], &[1, 2, 3, 4]);
    assert_eq!(&once[0x2FFC..0x3004], &[9; 8]);
    let mut twice = once.clone();
    apply_transaction_logs(&mut twice, std::slice::from_ref(&log)).unwrap();
    assert_eq!(twice, once);
}

fn log_bytes(sequence: u32, offset: u32, payload: &[u8]) -> Vec<u8> {
    let mut l = vec![0u8; 0x2000];
    l[0..4].copy_from_slice(b"HvLE");
    put_u32(&mut l, 4, sequence);
    l[0x1000..0x1004].copy_from_slice(b"DIRT");
    put_u32(&mut l, 0x1008, 1);
    put_u32(&mut l, 0x1010, offset);
    put_u32(&mut l, 0x1014, payload.len() as u32);
    l[0x1018..0x1018 + payload.len()].copy_from_slice(payload);
    l
}

#[test]
fn merge_applies_logs_by_sequence() {
    let older = log_bytes(10, 0x2000, &[0xA1, 0xA2, 0xA3, 0xA4]);
    let newer = log_bytes(11, 0x2000, &[0xB1, 0xB2, 0xB3, 0xB4]);
    let parsed = TransactionLog::parse(&newer).unwrap();
    assert_eq!(parsed.sequence, 11);
    assert_eq!(parsed.dirty_pages.len(), 1);

    let mut a = vec![0u8; 0x3000];
    assert_eq!(merge_transaction_logs(&mut a, Some(&newer), Some(&older)).unwrap(), 2);
    let mut b = vec![0u8; 0x3000];
    assert_eq!(merge_transaction_logs(&mut b, Some(&older), Some(&newer)).unwrap(), 2);
    assert_eq!(&a[0x2000..0x2004], &[0xB1, 0xB2, 0xB3, 0xB4]);
    assert_eq!(a, b);

    let mut c = vec![7u8; 0x3000];
    assert_eq!(merge_transaction_logs(&mut c, Some(&[0u8; 10]), None).unwrap(), 0);
    assert_eq!(c, vec![7u8; 0x3000]);
}

#[test]
fn text_decoders() {
    assert_eq!(read_ascii_string(&[b'A', 0xFF, 0, 0]), "A\u{FFFD}");
    assert_eq!(read_utf16_string(&utf16("Grüße\0\0"), 0).unwrap(), "Grüße");
    assert!(matches!(read_utf16_string(&[0x41, 0x00, 0x42], 7), Err(RegistryError::InvalidUtf16 { offset: 7 })));
    assert!(matches!(read_utf16_string(&[0x00, 0xD8], 3), Err(RegistryError::InvalidUtf16 { offset: 3 })));

    let mut nk = vec![0u8; 0x4C];
    nk[0..2].copy_from_slice(b"nk");
    let name = utf16("Ключ");
    put_u16(&mut nk, 0x48, name.len() as u16);
    nk.extend_from_slice(&name);
    assert_eq!(KeyNode::parse(&nk, 0).unwrap().name, "Ключ");
}

#[test]
fn value_data_rendering() {
    assert_eq!(ValueData::Dword(0x12345678).to_string(), "305419896 (0x12345678)");
    assert_eq!(ValueData::Qword(1).to_string(), "1 (0x0000000000000001)");
    assert_eq!(ValueData::Binary(vec![0x01, 0x02, 0x03]).to_string(), "[01, 02, 03]");
    assert_eq!(ValueData::MultiString(vec!["a".to_string(), "b".to_string()]).to_string(), "a, b");
    assert!(matches!(ValueData::parse(&[1, 2, 3, 4], ValueType::DwordBigEndian, 0).unwrap(), ValueData::DwordBigEndian(0x01020304)));
    assert!(matches!(
        ValueData::parse(&[1, 2, 3], ValueType::Qword, 5),
        Err(RegistryError::TruncatedData { offset: 5, expected: 8, actual: 3 })
    ));
}

#[test]
fn bins_are_walked_in_file_order() {
    let img = sample_hive();
    let hive = Hive::from_vec(img.clone()).unwrap();
    let mut bins = hive.hbins();
    let first = bins.next().unwrap().unwrap();
    assert_eq!(first.offset, 0);
    assert_eq!(first.size as usize, img.len() - 0x1000);
    assert_eq!(first.data_size(), first.size - 0x20);
    assert!(bins.next().is_none());

    let mut bad = img.clone();
    put_u32(&mut bad, 0x1004, 0x40);
    seal_base_block(&mut bad);
    let hive = Hive::from_vec(bad).unwrap();
    assert!(matches!(hive.hbins().next(), Some(Err(RegistryError::InvalidFormat(_)))));
}

#[test]
fn raw_reads_are_bounds_checked() {
    let img = sample_hive();
    let hive = Hive::from_vec(img.clone()).unwrap();
    assert_eq!(hive.read_raw_bytes(0, 4).unwrap(), b"regf");
    assert!(matches!(
        hive.read_raw_bytes(img.len() - 2, 4),
        Err(RegistryError::TruncatedData { expected: 4, actual: 2, .. })
    ));
    let root = hive.root_key().unwrap();
    let with_size = hive.read_cell_with_size(root.offset).unwrap();
    let size = i32::from_le_bytes([with_size[0], with_size[1], with_size[2], with_size[3]]);
    assert_eq!(size.unsigned_abs() as usize, with_size.len());
    assert_eq!(&with_size[4..6], b"nk");
    assert!(matches!(
        hive.get_key(u32::MAX),
        Err(RegistryError::InvalidOffset { offset: u32::MAX, hive_size: 0 })
    ));
    assert!(matches!(hive.get_key(0x10_0000), Err(RegistryError::InvalidOffset { offset: 0x10_0000, .. })));
    assert_eq!(root.debug_key_node().subkey_count, 2);
    assert!(root.debug_key_node().has_subkeys());
    assert_eq!(root.subkey_count().unwrap(), 2);
    assert_eq!(root.value_count().unwrap(), 3);
    assert_eq!(root.debug_hive().to_bytes(), img);
}

#[test]
fn subkey_list_encodings() {
    let mut lh = vec![0u8; 4];
    lh[0..2].copy_from_slice(b"lh");
    put_u16(&mut lh, 2, 2);
    for (o, h) in [(0x100u32, 0xAAu32), (0x200, 0xBB)] {
        lh.extend_from_slice(&o.to_le_bytes());
        lh.extend_from_slice(&h.to_le_bytes());
    }
    let list = SubkeyList::parse(&lh, 0).unwrap();
    assert_eq!(list.len(), 2);
    assert!(!list.is_index_root());
    assert!(list.key_offsets().is_empty());
    assert_eq!(list.key_offsets_iter(), vec![0x100, 0x200]);
    match &list {
        SubkeyList::LeafWithHints(e) => assert_eq!((e[0].name_hint, e[1].name_hint), (0xAA, 0xBB)),
        _ => panic!("expected a leaf with hints"),
    }
    let ri = SubkeyList::parse(&offsets_list(b"ri", &[0x40, 0x80]), 0).unwrap();
    assert!(ri.is_index_root());
    assert_eq!(ri.key_offsets(), &[0x40, 0x80]);
    assert!(matches!(
        SubkeyList::parse(&lh[..12], 7),
        Err(RegistryError::TruncatedData { offset: 7, expected: 20, actual: 12 })
    ));
    assert!(matches!(SubkeyList::parse(b"xx\0\0", 0), Err(RegistryError::InvalidSubkeyList { list_type: [b'x', b'x'] })));
}

#[test]
fn hive_opens_with_logs_by_sequence() {
    let img = sample_hive();
    let older = log_bytes(10, 0x2000, &[0xA1, 0xA2, 0xA3, 0xA4]);
    let newer = log_bytes(11, 0x2000, &[0xB1, 0xB2, 0xB3, 0xB4]);
    let hive = Hive::from_vec_with_logs(img.clone(), Some(&newer), Some(&older)).unwrap();
    let bytes = hive.to_bytes();
    assert_eq!(&bytes[0x2000..0x2004], &[0xB1, 0xB2, 0xB3, 0xB4]);
    let stored = u32::from_le_bytes([bytes[0x1FC], bytes[0x1FD], bytes[0x1FE], bytes[0x1FF]]);
    assert_eq!(stored, xor_checksum(&bytes));

    let untouched = Hive::from_vec_with_logs(img.clone(), None, Some(&[1u8, 2, 3])).unwrap();
    assert_eq!(untouched.to_bytes(), img);

    let log = TransactionLog::parse(&older).unwrap();
    let applied = Hive::from_vec(img).unwrap().apply_transaction_log(&log).unwrap();
    assert_eq!(&applied.to_bytes()[0x2000..0x2004], &[0xA1, 0xA2, 0xA3, 0xA4]);
}

#[test]
fn link_and_other_types_decode() {
    assert!(matches!(ValueData::parse(&utf16("\\Target\0"), ValueType::Link, 0).unwrap(), ValueData::Link(s) if s == "\\Target"));
    assert!(matches!(ValueData::parse(&[5, 6], ValueType::ResourceList, 0).unwrap(), ValueData::Unknown(b) if b == vec![5, 6]));
    assert!(matches!(ValueData::parse(&[], ValueType::Dword, 0).unwrap(), ValueData::RegNone));
    assert!(matches!(ValueData::parse(&[1, 0, 0, 0, 0, 0, 0, 0], ValueType::Qword, 0).unwrap(), ValueData::Qword(1)));
    assert!(matches!(
        ValueData::parse(&[1, 2], ValueType::Dword, 9),
        Err(RegistryError::TruncatedData { offset: 9, expected: 4, actual: 2 })
    ));
}
