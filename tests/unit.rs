use reg_parser::bigdata::BigDataBlock;
use reg_parser::error::RegistryError;
use reg_parser::hbin::{HbinHeader, HBIN_HEADER_SIZE};
use reg_parser::header::{BaseBlock, BASE_BLOCK_SIZE};
use reg_parser::key::KeyNode;
use reg_parser::subkey_list::SubkeyListType;
use reg_parser::transaction_log::{DirtyPage, TransactionLog, MAX_HIVE_SIZE, MAX_PAGE_EXTENSION, PAGE_SIZE};
use reg_parser::utils::{
    absolute_to_cell_offset, cell_offset_to_absolute, read_ascii_string, read_fixed_ascii, read_u32_le,
    HBIN_START_OFFSET,
};
use reg_parser::value::ValueKey;
use reg_parser::{CellType, KeyNodeFlags, ValueType, VERSION};

#[test]
fn test_bigdata_minimum_size() {
    let data = vec![0u8; 7];
    let result = BigDataBlock::parse(&data, 0);
    assert!(result.is_err());
}

#[test]
fn test_bigdata_invalid_signature() {
    let mut data = vec![0u8; 8];
    data[0..2].copy_from_slice(b"XX");
    let result = BigDataBlock::parse(&data, 0);
    assert!(result.is_err());
}

#[test]
fn test_bigdata_valid() {
    let mut data = vec![0u8; 8];
    data[0..2].copy_from_slice(b"db");
    data[2] = 5;
    data[3] = 0;
    data[4..8].copy_from_slice(&[0x20, 0x00, 0x00, 0x00]);

    let db = BigDataBlock::parse(&data, 0).unwrap();
    assert_eq!(db.segment_count, 5);
    assert_eq!(db.segment_list_offset, 0x20);
}

#[test]
fn cell_test_cell_type_from_signature() {
    assert_eq!(CellType::from_signature(b"nk").unwrap(), CellType::KeyNode);
    assert_eq!(CellType::from_signature(b"vk").unwrap(), CellType::ValueKey);
    assert_eq!(CellType::from_signature(b"lf").unwrap(), CellType::FastLeaf);
}

#[test]
fn test_cell_type_signature() {
    assert_eq!(CellType::KeyNode.signature(), b"nk");
    assert_eq!(CellType::ValueKey.signature(), b"vk");
}

#[test]
fn cell_test_key_node_flags() {
    let flags = KeyNodeFlags::new(KeyNodeFlags::COMP_NAME | KeyNodeFlags::ROOT_KEY);
    assert!(flags.is_compressed());
    assert!(flags.is_root());
    assert!(!flags.is_volatile());
}

#[test]
fn test_value_type() {
    assert_eq!(ValueType::from_u32(1).unwrap(), ValueType::String);
    assert_eq!(ValueType::from_u32(4).unwrap(), ValueType::Dword);
    assert_eq!(ValueType::String.name(), "REG_SZ");
}

#[test]
fn test_hbin_header_size() {
    assert_eq!(HBIN_HEADER_SIZE, 32);
}

#[test]
fn hbin_test_invalid_signature() {
    let mut data = vec![0u8; HBIN_HEADER_SIZE];
    data[0..4].copy_from_slice(b"XXXX");

    let result = HbinHeader::parse(&data, 0);
    assert!(result.is_err());
}

#[test]
fn test_base_block_size() {
    assert_eq!(BASE_BLOCK_SIZE, 4096);
}

#[test]
fn header_test_invalid_signature() {
    let mut data = vec![0u8; BASE_BLOCK_SIZE];
    data[0..4].copy_from_slice(b"XXXX");

    let result = BaseBlock::parse(&data);
    assert!(result.is_err());
    assert!(matches!(result.unwrap_err(), RegistryError::InvalidSignature { .. }));
}

#[test]
fn test_too_small() {
    let data = vec![0u8; 100];
    let result = BaseBlock::parse(&data);
    assert!(result.is_err());
    assert!(matches!(result.unwrap_err(), RegistryError::HiveTooSmall { .. }));
}

#[test]
fn test_key_node_minimum_size() {
    let data = vec![0u8; 75];
    let result = KeyNode::parse(&data, 0);
    assert!(result.is_err());
}

#[test]
fn test_key_node_invalid_signature() {
    let mut data = vec![0u8; 80];
    data[0..2].copy_from_slice(b"XX");
    let result = KeyNode::parse(&data, 0);
    assert!(result.is_err());
}

#[test]
fn test_version() {
    assert!(!VERSION.is_empty());
}

#[test]
fn test_subkey_list_type() {
    assert_eq!(SubkeyListType::from_signature(b"li").unwrap(), SubkeyListType::IndexLeaf);
    assert_eq!(SubkeyListType::from_signature(b"lf").unwrap(), SubkeyListType::FastLeaf);
    assert_eq!(SubkeyListType::from_signature(b"lh").unwrap(), SubkeyListType::HashLeaf);
    assert_eq!(SubkeyListType::from_signature(b"ri").unwrap(), SubkeyListType::IndexRoot);
}

#[test]
fn subkey_list_test_invalid_signature() {
    let result = SubkeyListType::from_signature(b"XX");
    assert!(result.is_err());
}

#[test]
fn test_dirty_page_creation() {
    let page = DirtyPage { offset: 0x1000, size: 0x100, data: vec![0xAA; 0x100] };

    assert_eq!(page.offset, 0x1000);
    assert_eq!(page.size, 0x100);
    assert_eq!(page.data.len(), 0x100);
}

#[test]
fn test_apply_dirty_page() {
    let mut hive_data = vec![0u8; 0x2000];

    let log = TransactionLog {
        sequence: 1,
        dirty_pages: vec![DirtyPage { offset: 0x1000, size: 4, data: vec![0xDE, 0xAD, 0xBE, 0xEF] }],
    };

    let applied = log.apply_to_hive(&mut hive_data).unwrap();
    assert_eq!(applied, 1);
    assert_eq!(&hive_data[0x1000..0x1004], &[0xDE, 0xAD, 0xBE, 0xEF]);
}

#[test]
fn transaction_log_test_invalid_signature() {
    let mut data = vec![0u8; PAGE_SIZE];
    data[0..4].copy_from_slice(b"XXXX");

    let result = TransactionLog::parse(&data);
    assert!(result.is_err());
}

#[test]
fn test_overflow_protection() {
    let mut hive_data = vec![0u8; 0x2000];

    let log = TransactionLog {
        sequence: 1,
        dirty_pages: vec![DirtyPage { offset: u32::MAX - 100, size: 200, data: vec![0xAA; 200] }],
    };

    let result = log.apply_to_hive(&mut hive_data);
    assert!(result.is_err());
    assert!(matches!(result.unwrap_err(), RegistryError::InvalidFormat { .. }));
}

#[test]
fn test_max_size_protection() {
    let mut hive_data = vec![0u8; 0x2000];

    let log = TransactionLog {
        sequence: 1,
        dirty_pages: vec![DirtyPage { offset: MAX_HIVE_SIZE as u32, size: 100, data: vec![0xAA; 100] }],
    };

    let result = log.apply_to_hive(&mut hive_data);
    assert!(result.is_err());
}

#[test]
fn test_extension_limit() {
    let mut hive_data = vec![0u8; 0x2000];

    let log = TransactionLog {
        sequence: 1,
        dirty_pages: vec![DirtyPage {
            offset: 0x2000,
            size: (MAX_PAGE_EXTENSION + 1) as u32,
            data: vec![0xAA; MAX_PAGE_EXTENSION + 1],
        }],
    };

    let result = log.apply_to_hive(&mut hive_data);
    assert!(result.is_err());
}

#[test]
fn test_size_mismatch() {
    let mut hive_data = vec![0u8; 0x2000];

    let log = TransactionLog {
        sequence: 1,
        dirty_pages: vec![DirtyPage { offset: 0x1000, size: 100, data: vec![0xAA; 50] }],
    };

    let result = log.apply_to_hive(&mut hive_data);
    assert!(result.is_err());
}

#[test]
fn test_read_ascii_string() {
    let data = b"Hello";
    assert_eq!(read_ascii_string(data), "Hello");

    let data_with_null = b"Hello\0\0";
    assert_eq!(read_ascii_string(data_with_null), "Hello");
}

#[test]
fn test_read_ascii_string_with_embedded_null() {
    let data = b"Hello\0World\0\0";
    assert_eq!(read_ascii_string(data), "Hello\0World");
}

#[test]
fn test_read_fixed_ascii() {
    let data = b"Test    ";
    assert_eq!(read_fixed_ascii(data, 8), "Test");
}

#[test]
fn utils_test_offset_conversion() {
    assert_eq!(cell_offset_to_absolute(0).unwrap(), 0x1000);
    assert_eq!(cell_offset_to_absolute(0x20).unwrap(), 0x1020);
    assert_eq!(cell_offset_to_absolute(0x1000).unwrap(), 0x2000);

    assert_eq!(absolute_to_cell_offset(0x1000).unwrap(), 0);
    assert_eq!(absolute_to_cell_offset(0x1020).unwrap(), 0x20);
    assert_eq!(absolute_to_cell_offset(0x2000).unwrap(), 0x1000);
}

#[test]
fn test_offset_overflow() {
    let result = cell_offset_to_absolute(u32::MAX);
    assert!(result.is_err());

    let result = cell_offset_to_absolute(u32::MAX - HBIN_START_OFFSET + 1);
    assert!(result.is_err());
}

#[test]
fn test_offset_underflow() {
    let result = absolute_to_cell_offset(0);
    assert!(result.is_err());

    let result = absolute_to_cell_offset(0xFFF);
    assert!(result.is_err());
}

#[test]
fn test_read_u32_le() {
    let data = [0x01, 0x02, 0x03, 0x04];
    assert_eq!(read_u32_le(&data, 0).unwrap(), 0x04030201);
}

#[test]
fn test_value_key_minimum_size() {
    let data = vec![0u8; 19];
    let result = ValueKey::parse(&data, 0);
    assert!(result.is_err());
}

#[test]
fn test_value_key_invalid_signature() {
    let mut data = vec![0u8; 24];
    data[0..2].copy_from_slice(b"XX");
    let result = ValueKey::parse(&data, 0);
    assert!(result.is_err());
}

#[test]
fn test_inline_data() {
    let mut data = vec![0u8; 24];
    data[0..2].copy_from_slice(b"vk");
    data[4] = 4;
    data[8..12].copy_from_slice(&[0x01, 0x02, 0x03, 0x04]);

    let vk = ValueKey::parse(&data, 0).unwrap();
    assert!(vk.is_inline_data());
    assert_eq!(vk.inline_data(), vec![0x01, 0x02, 0x03, 0x04]);
}
