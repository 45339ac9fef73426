use byteorder::{LittleEndian, WriteBytesExt};
use rusty_axml::chunks::chunk_header::ChunkHeader;
use rusty_axml::chunks::chunk_types::ChunkType;
use rusty_axml::chunks::common::ResTableRef;
use rusty_axml::chunks::data_value_type::DataValueType;
use rusty_axml::chunks::res_table_entry::ResTable_entry;
use rusty_axml::chunks::string_pool::StringPool;
use rusty_axml::cursor::ByteCursor;
use rusty_axml::errors::{Abort, AxmlError, Fault};
use std::io::Write;

#[test]
fn test_valid_case() {
    let valid_data = vec![1, 0, 8, 0, 16, 0, 0, 0];
    let mut cursor = ByteCursor::new(valid_data);

    let expected_type = ChunkType::ResStringPoolType;
    let result = ChunkHeader::from_buff(&mut cursor, expected_type);

    assert!(result.is_ok());
    let chunk_header = result.unwrap();
    assert_eq!(chunk_header.chunk_type, expected_type);
    assert_eq!(chunk_header.header_size, 8);
    assert_eq!(chunk_header.chunk_size, 16);
}

// The parser gives up on the headers below; the checked parser reports why.

#[test]
fn test_unexpected_chunk_type() {
    // Prepare a buffer with a chunk type that doesn't match the expected one
    let invalid_data = vec![2, 0, 8, 0, 16, 0, 0, 0];
    let mut cursor = ByteCursor::new(invalid_data);

    let expected_type = ChunkType::ResStringPoolType;
    let result = ChunkHeader::from_buff_checked(&mut cursor, expected_type);
    assert_eq!(result.unwrap_err(), Fault::Abort(Abort::UnexpectedChunkType));
}

#[test]
fn test_invalid_header_size() {
    // Prepare a buffer with a small header size (less than 8)
    let invalid_data = vec![1, 0, 4, 0, 16, 0, 0, 0];
    let mut cursor = ByteCursor::new(invalid_data);

    let expected_type = ChunkType::ResStringPoolType;
    let result = ChunkHeader::from_buff_checked(&mut cursor, expected_type);
    assert_eq!(result.unwrap_err(), Fault::Abort(Abort::HeaderSizeTooSmall));
}

#[test]
fn test_invalid_chunk_size() {
    // Prepare a buffer with an invalid chunk size (less than 8)
    let invalid_data = vec![1, 0, 8, 0, 4, 0, 0, 0];
    let mut cursor = ByteCursor::new(invalid_data);

    let expected_type = ChunkType::ResStringPoolType;
    let result = ChunkHeader::from_buff_checked(&mut cursor, expected_type);
    assert_eq!(result.unwrap_err(), Fault::Abort(Abort::ChunkSizeTooSmall));
}

#[test]
fn test_invalid_chunk_size_smaller_than_header() {
    // Prepare a buffer where chunk size is smaller than header size
    let invalid_data = vec![1, 0, 16, 0, 8, 0, 0, 0];
    let mut cursor = ByteCursor::new(invalid_data);

    let expected_type = ChunkType::ResStringPoolType;
    let result = ChunkHeader::from_buff_checked(&mut cursor, expected_type);
    assert_eq!(result.unwrap_err(), Fault::Abort(Abort::ChunkSizeBelowHeaderSize));
}

#[test]
fn test_parse_res_table_ref_basic() -> Result<(), AxmlError> {
    let mut data = Vec::new();
    let expected_ident: u32 = 0x7F010001; // Example identifier
    data.write_u32::<LittleEndian>(expected_ident).unwrap();

    let mut cursor = ByteCursor::new(data);
    let res_ref = ResTableRef::parse(&mut cursor)?;

    assert_eq!(res_ref.ident, expected_ident);
    Ok(())
}

#[test]
fn test_parse_res_table_ref_insufficient_data() {
    let mut data = Vec::new();
    data.write_u16::<LittleEndian>(0x7F01).unwrap(); // Only 2 bytes, need 4

    let mut cursor = ByteCursor::new(data);
    let result = ResTableRef::parse(&mut cursor);

    assert!(matches!(result, Err(AxmlError::IoError)));
}

#[test]
fn test_parse_simple_res_table_entry_string() -> Result<(), AxmlError> {
    let mut data = Vec::new();
    let entry_size: u16 = 8; // Size of ResTable_entry's own fields (size, flags, key)
    let value_size: u16 = 8; // Size of a Res_value

    // ResTable_entry fields
    data.write_u16::<LittleEndian>(entry_size).unwrap();
    data.write_u16::<LittleEndian>(0).unwrap(); // flags = 0 (not complex, not public)
    let key_index: u32 = 10;
    data.write_u32::<LittleEndian>(key_index).unwrap();

    // Res_value fields (following the ResTable_entry)
    data.write_u16::<LittleEndian>(value_size).unwrap();
    data.write_u8(0).unwrap();
    data.write_u8(DataValueType::TypeString.to_val()).unwrap();
    let string_pool_index: u32 = 5;
    data.write_u32::<LittleEndian>(string_pool_index).unwrap();

    let mut cursor = ByteCursor::new(data);
    let entry = ResTable_entry::parse(&mut cursor)?;

    assert_eq!(entry.size, entry_size);
    assert_eq!(entry.flags, 0);
    assert_eq!(entry.key.index, key_index);
    assert!(entry.complex_map.is_none());
    assert!(entry.value.is_some());

    let res_value = entry.value.unwrap();
    assert_eq!(res_value.size, value_size);
    assert_eq!(res_value.res0, 0);
    assert_eq!(res_value.data_type, DataValueType::TypeString);
    assert_eq!(res_value.data, string_pool_index);

    // For a simple entry, parsing reads ResTable_entry (8 bytes) + Res_value (8 bytes).
    assert_eq!(cursor.position(), (entry_size + value_size) as u64);
    Ok(())
}

#[test]
fn test_parse_complex_res_table_entry_map() -> Result<(), AxmlError> {
    let mut data = Vec::new();
    let entry_header_size: u16 = 8;

    let map_count: u32 = 1;

    // ResTable_entry fields
    data.write_u16::<LittleEndian>(entry_header_size).unwrap();
    data.write_u16::<LittleEndian>(ResTable_entry::FLAG_COMPLEX).unwrap();
    let key_index: u32 = 20;
    data.write_u32::<LittleEndian>(key_index).unwrap();

    // ResTable_map_entry_content fields
    let parent_ident: u32 = 0; // No parent
    data.write_u32::<LittleEndian>(parent_ident).unwrap();
    data.write_u32::<LittleEndian>(map_count).unwrap();

    // ResTable_map item 1
    let map_name_ident: u32 = 0x01010000;
    data.write_u32::<LittleEndian>(map_name_ident).unwrap();
    data.write_u16::<LittleEndian>(8).unwrap();
    data.write_u8(0).unwrap();
    data.write_u8(DataValueType::TypeIntDec.to_val()).unwrap();
    data.write_u32::<LittleEndian>(12345).unwrap();

    let mut cursor = ByteCursor::new(data);
    let entry = ResTable_entry::parse(&mut cursor)?;

    assert_eq!(entry.size, entry_header_size);
    assert_eq!(entry.flags, ResTable_entry::FLAG_COMPLEX);
    assert_eq!(entry.key.index, key_index);
    assert!(entry.value.is_none());
    assert!(entry.complex_map.is_some());

    let map_content = entry.complex_map.unwrap();
    assert_eq!(map_content.parent.ident, parent_ident);
    assert_eq!(map_content.count, map_count);
    assert_eq!(map_content.maps.len(), map_count as usize);

    let map_item = &map_content.maps[0];
    assert_eq!(map_item.name.ident, map_name_ident);
    assert_eq!(map_item.value.data_type, DataValueType::TypeIntDec);
    assert_eq!(map_item.value.data, 12345);

    let map_entry_content_fields_size = 4 + 4; // parent_ident + count
    let single_map_size = 4 + 8; // ResTable_ref (name) + Res_value (value)
    let expected_final_pos = entry_header_size as u64 + map_entry_content_fields_size + (map_count as u64 * single_map_size as u64);
    assert_eq!(cursor.position(), expected_final_pos);

    Ok(())
}

#[test]
fn test_parse_simple_entry_insufficient_data_for_value() {
    let mut data = Vec::new();
    data.write_u16::<LittleEndian>(8).unwrap(); // size
    data.write_u16::<LittleEndian>(0).unwrap(); // flags = 0 (simple)
    data.write_u32::<LittleEndian>(10).unwrap(); // key

    // Partial Res_value
    data.write_u16::<LittleEndian>(8).unwrap(); // Res_value.size = 8
    data.write_u8(0).unwrap(); // Res_value.res0

    let mut cursor = ByteCursor::new(data);
    let result = ResTable_entry::parse(&mut cursor);
    assert!(matches!(result, Err(AxmlError::IoError)));
}

#[test]
fn test_parse_complex_entry_insufficient_data_for_map() {
    let mut data = Vec::new();
    data.write_u16::<LittleEndian>(8).unwrap(); // size
    data.write_u16::<LittleEndian>(ResTable_entry::FLAG_COMPLEX).unwrap(); // flags
    data.write_u32::<LittleEndian>(20).unwrap(); // key

    data.write_u32::<LittleEndian>(0).unwrap(); // parent.ident
    data.write_u32::<LittleEndian>(1).unwrap(); // count = 1 map

    // Partial ResTable_map item
    data.write_u16::<LittleEndian>(0x0101).unwrap();

    let mut cursor = ByteCursor::new(data);
    let result = ResTable_entry::parse(&mut cursor);
    assert!(matches!(result, Err(AxmlError::IoError)));
}

// Helper function to create a simple buffer for testing
fn create_test_buffer() -> ByteCursor {
    let mut buf = Vec::new();

    // Chunk header
    buf.write_u16::<LittleEndian>(0x0001).unwrap(); // ChunkType::ResStringPoolType
    buf.write_u16::<LittleEndian>(8).unwrap(); // Chunk header size
    buf.write_u32::<LittleEndian>(128).unwrap(); // Chunk data size

    // String pool header
    buf.write_u32::<LittleEndian>(2).unwrap(); // string_count
    buf.write_u32::<LittleEndian>(0).unwrap(); // style_count
    buf.write_u32::<LittleEndian>(1).unwrap(); // flags (is_sorted, not is_utf8)
    buf.write_u32::<LittleEndian>(36).unwrap(); // strings_start
    buf.write_u32::<LittleEndian>(20).unwrap(); // styles_start
    buf.write_u32::<LittleEndian>(0).unwrap(); // first string offset
    buf.write_u32::<LittleEndian>(14).unwrap(); // second string offset

    buf.write_u16::<LittleEndian>(5).unwrap(); // Length of first string (UTF-16)
    buf.write_u16::<LittleEndian>(0x0048).unwrap(); // 'H'
    buf.write_u16::<LittleEndian>(0x0065).unwrap(); // 'e'
    buf.write_u16::<LittleEndian>(0x006C).unwrap(); // 'l'
    buf.write_u16::<LittleEndian>(0x006C).unwrap(); // 'l'
    buf.write_u16::<LittleEndian>(0x006F).unwrap(); // 'o'
    buf.write_u16::<LittleEndian>(0x0000).unwrap(); // Null terminator

    buf.write_u16::<LittleEndian>(5).unwrap(); // Length of second string (UTF-16)
    buf.write_u16::<LittleEndian>(0x0057).unwrap(); // 'W'
    buf.write_u16::<LittleEndian>(0x006F).unwrap(); // 'o'
    buf.write_u16::<LittleEndian>(0x0072).unwrap(); // 'r'
    buf.write_u16::<LittleEndian>(0x006C).unwrap(); // 'l'
    buf.write_u16::<LittleEndian>(0x0064).unwrap(); // 'd'
    buf.write_u16::<LittleEndian>(0x0000).unwrap(); // Null terminator

    ByteCursor::new(buf)
}

#[test]
fn test_string_pool_parse_utf16() {
    let mut buffer = create_test_buffer();

    // The `from_buff` function assumes we have read the chunk type already
    buffer.read_u16_le().unwrap();

    let mut global_strings = Vec::new();

    let string_pool = StringPool::from_buff(&mut buffer, &mut global_strings).unwrap();

    assert_eq!(string_pool.strings.len(), 2);
    assert_eq!(string_pool.strings[0], "Hello");
    assert_eq!(string_pool.strings[1], "World");
}

#[test]
fn test_string_pool_flags() {
    let mut buffer = create_test_buffer();

    // The `from_buff` function assumes we have read the chunk type already
    buffer.read_u16_le().unwrap();

    let mut global_strings = Vec::new();

    let string_pool = StringPool::from_buff(&mut buffer, &mut global_strings).unwrap();

    assert!(string_pool.is_sorted);
    assert!(!string_pool.is_utf8);
}

#[test]
fn test_empty_pool() {
    let mut buf = Vec::new();

    buf.write_u16::<LittleEndian>(0x0001).unwrap(); // ChunkType::ResStringPoolType
    buf.write_u16::<LittleEndian>(8).unwrap(); // Chunk header size
    buf.write_u32::<LittleEndian>(128).unwrap(); // Chunk data size

    buf.write_u32::<LittleEndian>(0).unwrap(); // string_count = 0
    buf.write_u32::<LittleEndian>(0).unwrap(); // style_count = 0
    buf.write_u32::<LittleEndian>(0).unwrap(); // flags
    buf.write_u32::<LittleEndian>(32).unwrap(); // strings_start
    buf.write_u32::<LittleEndian>(20).unwrap(); // styles_start

    let mut buffer = ByteCursor::new(buf);

    // The `from_buff` function assumes we have read the chunk type already
    buffer.read_u16_le().unwrap();

    let mut global_strings = Vec::new();

    let string_pool = StringPool::from_buff(&mut buffer, &mut global_strings).unwrap();

    assert_eq!(string_pool.strings.len(), 0);
}

#[test]
fn test_utf8_string_parsing() {
    let mut buf = Vec::new();

    buf.write_u16::<LittleEndian>(0x0001).unwrap(); // ChunkType::ResStringPoolType
    buf.write_u16::<LittleEndian>(8).unwrap(); // Chunk header size
    buf.write_u32::<LittleEndian>(128).unwrap(); // Chunk data size

    buf.write_u32::<LittleEndian>(1).unwrap(); // string_count = 1
    buf.write_u32::<LittleEndian>(0).unwrap(); // style_count = 0
    buf.write_u32::<LittleEndian>(256).unwrap(); // flags (not sorted, utf8)
    buf.write_u32::<LittleEndian>(32).unwrap(); // strings_start
    buf.write_u32::<LittleEndian>(20).unwrap(); // styles_start
    buf.write_u32::<LittleEndian>(0).unwrap(); // Offset of the string

    buf.write_u8(0x05).unwrap(); // UTF-8 string length
    buf.write_u8(0x05).unwrap(); // UTF-8 string decoded length
    buf.write_all(b"Hello").unwrap(); // UTF-8 string data
    buf.write_u8(0x00).unwrap(); // Null terminator

    let mut buffer = ByteCursor::new(buf);

    // The `from_buff` function assumes we have read the chunk type already
    buffer.read_u16_le().unwrap();

    let mut global_strings = Vec::new();

    let string_pool = StringPool::from_buff(&mut buffer, &mut global_strings).unwrap();

    assert_eq!(string_pool.strings.len(), 1);
    assert_eq!(string_pool.strings[0], "Hello");
}

#[test]
fn test_long_utf8_string_parsing() {
    let mut buf = Vec::new();
    let long_string = "A".repeat(150);
    let string_char_count = 150u16;
    let string_byte_len = 150u16;

    let chunk_type_res_string_pool: u16 = 0x0001;

    let string_count_val: u32 = 1;
    let style_count_val: u32 = 0;
    let flags_val: u32 = 256; // UTF-8

    let res_string_pool_specific_fields_size: u32 = 5 * 4; // 20 bytes
    let string_offsets_array_size: u32 = string_count_val * 4;

    // String entry: char count (2 bytes) + byte length (2 bytes) + string (150 bytes) + null terminator (1 byte)
    let single_string_entry_size: u32 = 2 + 2 + string_byte_len as u32 + 1;

    let styles_start_val: u32 = 0;

    let chunk_data_size_val: u32 = res_string_pool_specific_fields_size + string_offsets_array_size + single_string_entry_size;

    // ResChunk_header (8 bytes total)
    buf.write_u16::<LittleEndian>(chunk_type_res_string_pool).unwrap();
    buf.write_u16::<LittleEndian>(8).unwrap();
    buf.write_u32::<LittleEndian>(chunk_data_size_val).unwrap();

    // ResStringPool_header specific fields (20 bytes total)
    buf.write_u32::<LittleEndian>(string_count_val).unwrap();
    buf.write_u32::<LittleEndian>(style_count_val).unwrap();
    buf.write_u32::<LittleEndian>(flags_val).unwrap();
    let strings_start_field_val: u32 = 8 + res_string_pool_specific_fields_size + string_offsets_array_size;
    buf.write_u32::<LittleEndian>(strings_start_field_val).unwrap();
    buf.write_u32::<LittleEndian>(styles_start_val).unwrap();

    // String offsets array
    buf.write_u32::<LittleEndian>(0).unwrap();

    // Character count (150)
    buf.write_u8(0x80 | ((string_char_count >> 8) & 0x7F) as u8).unwrap();
    buf.write_u8((string_char_count & 0xFF) as u8).unwrap();

    // Byte length (150)
    buf.write_u8(0x80 | ((string_byte_len >> 8) & 0x7F) as u8).unwrap();
    buf.write_u8((string_byte_len & 0xFF) as u8).unwrap();

    buf.write_all(long_string.as_bytes()).unwrap();
    buf.write_u8(0x00).unwrap(); // Null terminator

    let mut buffer = ByteCursor::new(buf);

    // The `from_buff` function assumes we have read the chunk type already
    buffer.read_u16_le().unwrap();

    let mut global_strings = Vec::new();
    let string_pool = StringPool::from_buff(&mut buffer, &mut global_strings).unwrap();

    assert_eq!(string_pool.strings.len(), 1);
    assert_eq!(string_pool.strings[0], long_string);
    assert_eq!(string_pool.strings[0].len(), 150);
    assert_eq!(string_pool.string_count, 1);
    assert!(string_pool.is_utf8);
}

#[test]
fn data_value_type_in_lower_hex() {
    assert_eq!(DataValueType::TypeNull.to_lower_hex(), "0");
    assert_eq!(DataValueType::TypeDynamicAttribute.to_lower_hex(), "8");
    assert_eq!(DataValueType::TypeIntDec.to_lower_hex(), "10");
    assert_eq!(DataValueType::TypeIntColorRgb4.to_lower_hex(), "1f");
    assert_eq!(DataValueType::TypeIntColorArgb8.to_lower_hex(), format!("{:x}", 0x1cu8));
}
