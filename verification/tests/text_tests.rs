use rusty_axml::cursor::ByteCursor;
use rusty_axml::errors::AxmlError;
use rusty_axml::numfmt::{decimal_string, hex_string};
use rusty_axml::string_map::StringMap;

#[test]
fn decimal_and_hex_text() {
    assert_eq!(decimal_string(0), "0");
    assert_eq!(decimal_string(7), "7");
    assert_eq!(decimal_string(1234567890), "1234567890");
    assert_eq!(decimal_string(u32::MAX), "4294967295");
    assert_eq!(hex_string(0), "0");
    assert_eq!(hex_string(0xbeef), "beef");
    assert_eq!(hex_string(u32::MAX), "ffffffff");
    for n in [1u32, 9, 10, 99, 100, 65535, 1 << 31] {
        assert_eq!(decimal_string(n), n.to_string());
        assert_eq!(hex_string(n), format!("{:x}", n));
    }
}

#[test]
fn little_endian_reads() {
    let mut cursor = ByteCursor::new(vec![0x78, 0x56, 0x34, 0x12, 0xcd, 0xab, 0x01]);
    assert_eq!(cursor.read_u32_le(), Ok(0x1234_5678));
    assert_eq!(cursor.read_u16_le(), Ok(0xabcd));
    assert_eq!(cursor.position(), 6);
    assert_eq!(cursor.read_u16_le(), Err(AxmlError::IoError));
    assert_eq!(cursor.position(), 6);
    assert_eq!(cursor.read_u8(), Ok(1));
    assert_eq!(cursor.read_u8(), Err(AxmlError::IoError));
}

#[test]
fn reading_up_to_the_end() {
    let mut cursor = ByteCursor::new(vec![1, 2, 3, 4, 5]);
    cursor.set_position(3);
    assert_eq!(cursor.read_up_to(10), vec![4, 5]);
    assert_eq!(cursor.position(), 5);
    cursor.set_position(9);
    assert!(cursor.read_up_to(2).is_empty());
    assert_eq!(cursor.position(), 9);
}

#[test]
fn string_map_insert_then_get() {
    let mut m = StringMap::new();
    m.insert("a".to_string(), "1".to_string());
    m.insert("b".to_string(), "2".to_string());
    m.insert("a".to_string(), "3".to_string());
    assert_eq!(m.len(), 2);
    assert_eq!(m.get(&"a".to_string()).map(|s| s.as_str()), Some("3"));
    assert_eq!(m.get(&"b".to_string()).map(|s| s.as_str()), Some("2"));
    assert!(m.get(&"c".to_string()).is_none());
    // the order in which the keys came is kept
    assert_eq!(m.entries()[0].0, "a");
    assert_eq!(m.entries()[1].0, "b");
}
