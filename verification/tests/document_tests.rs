use byteorder::{LittleEndian, WriteBytesExt};
use std::io::Write;
use rusty_axml::apk::manifest_from_apk_bytes;
use rusty_axml::chunks::chunk_types::ChunkType;
use rusty_axml::chunks::data_value_type::DataValueType;
use rusty_axml::chunks::res_table::ResTable;
use rusty_axml::chunks::string_pool::StringPool;
use rusty_axml::cursor::ByteCursor;
use rusty_axml::errors::{Abort, AxmlError, Fault};
use rusty_axml::parser::{parse_xml_checked, Axml};
use rusty_axml::{
    find_node_by_name, find_nodes_by_type, get_activities_names, get_declared_permissions,
    get_exposed_components, get_providers_names, get_receivers_names, get_requested_permissions,
    get_services_names, is_component_exposed, parse_from_cursor,
};

const NONE: u32 = 0xffff_ffff;

// Indices of the strings of the test pool
const S_ANDROID: u32 = 0;
const S_URI: u32 = 1;
const S_MANIFEST: u32 = 2;
const S_APPLICATION: u32 = 3;
const S_ACTIVITY: u32 = 4;
const S_NAME: u32 = 5;
const S_EXPORTED: u32 = 6;
const S_ENABLED: u32 = 7;
const S_INTENT_FILTER: u32 = 8;
const S_SERVICE: u32 = 9;
const S_MAIN: u32 = 10;
const S_PACKAGE: u32 = 11;
const S_EXAMPLE: u32 = 12;
const S_SVC: u32 = 13;
const S_USES_PERMISSION: u32 = 14;
const S_INTERNET: u32 = 15;
const S_RECEIVER: u32 = 16;
const S_RCV: u32 = 17;
const S_PROVIDER: u32 = 18;
const S_PERMISSION: u32 = 19;
const S_MY_PERM: u32 = 20;
const S_VERSION: u32 = 21;

fn pool_strings() -> Vec<&'static str> {
    vec![
        "android",
        "http://schemas.android.com/apk/res/android",
        "manifest",
        "application",
        "activity",
        "name",
        "exported",
        "enabled",
        "intent-filter",
        "service",
        "com.example.Main",
        "package",
        "com.example",
        "com.example.Svc",
        "uses-permission",
        "android.permission.INTERNET",
        "receiver",
        "com.example.Rcv",
        "provider",
        "permission",
        "com.example.MY_PERMISSION",
        "versionCode",
    ]
}

fn string_pool_utf16(strings: &[&str]) -> Vec<u8> {
    let mut data = Vec::new();
    let mut offsets = Vec::new();
    for s in strings {
        offsets.push(data.len() as u32);
        let units: Vec<u16> = s.encode_utf16().collect();
        data.write_u16::<LittleEndian>(units.len() as u16).unwrap();
        for u in units {
            data.write_u16::<LittleEndian>(u).unwrap();
        }
        data.write_u16::<LittleEndian>(0).unwrap();
    }
    while data.len() % 4 != 0 {
        data.push(0);
    }
    let strings_start = 28 + 4 * strings.len() as u32;
    let mut buf = Vec::new();
    buf.write_u16::<LittleEndian>(0x0001).unwrap();
    buf.write_u16::<LittleEndian>(28).unwrap();
    buf.write_u32::<LittleEndian>(strings_start + data.len() as u32).unwrap();
    buf.write_u32::<LittleEndian>(strings.len() as u32).unwrap();
    buf.write_u32::<LittleEndian>(0).unwrap();
    buf.write_u32::<LittleEndian>(0).unwrap();
    buf.write_u32::<LittleEndian>(strings_start).unwrap();
    buf.write_u32::<LittleEndian>(0).unwrap();
    for o in offsets {
        buf.write_u32::<LittleEndian>(o).unwrap();
    }
    buf.extend_from_slice(&data);
    buf
}

fn namespace_chunk(chunk_type: u16, prefix: u32, uri: u32) -> Vec<u8> {
    let mut buf = Vec::new();
    buf.write_u16::<LittleEndian>(chunk_type).unwrap();
    buf.write_u16::<LittleEndian>(16).unwrap();
    buf.write_u32::<LittleEndian>(24).unwrap();
    buf.write_u32::<LittleEndian>(1).unwrap();
    buf.write_u32::<LittleEndian>(NONE).unwrap();
    buf.write_u32::<LittleEndian>(prefix).unwrap();
    buf.write_u32::<LittleEndian>(uri).unwrap();
    buf
}

/// An attribute: namespace, name, raw value, data type byte, data
type Attr = (u32, u32, u32, u8, u32);

fn start_element(name: u32, attrs: &[Attr]) -> Vec<u8> {
    let mut buf = Vec::new();
    buf.write_u16::<LittleEndian>(0x0102).unwrap();
    buf.write_u16::<LittleEndian>(16).unwrap();
    buf.write_u32::<LittleEndian>(36 + 20 * attrs.len() as u32).unwrap();
    buf.write_u32::<LittleEndian>(1).unwrap();
    buf.write_u32::<LittleEndian>(NONE).unwrap();
    buf.write_u32::<LittleEndian>(NONE).unwrap();
    buf.write_u32::<LittleEndian>(name).unwrap();
    buf.write_u16::<LittleEndian>(20).unwrap();
    buf.write_u16::<LittleEndian>(20).unwrap();
    buf.write_u16::<LittleEndian>(attrs.len() as u16).unwrap();
    buf.write_u16::<LittleEndian>(0).unwrap();
    buf.write_u16::<LittleEndian>(0).unwrap();
    buf.write_u16::<LittleEndian>(0).unwrap();
    for (ns, attr_name, raw, data_type, data) in attrs {
        buf.write_u32::<LittleEndian>(*ns).unwrap();
        buf.write_u32::<LittleEndian>(*attr_name).unwrap();
        buf.write_u32::<LittleEndian>(*raw).unwrap();
        buf.write_u16::<LittleEndian>(8).unwrap();
        buf.write_u8(0).unwrap();
        buf.write_u8(*data_type).unwrap();
        buf.write_u32::<LittleEndian>(*data).unwrap();
    }
    buf
}

fn end_element(name: u32) -> Vec<u8> {
    let mut buf = Vec::new();
    buf.write_u16::<LittleEndian>(0x0103).unwrap();
    buf.write_u16::<LittleEndian>(16).unwrap();
    buf.write_u32::<LittleEndian>(24).unwrap();
    buf.write_u32::<LittleEndian>(1).unwrap();
    buf.write_u32::<LittleEndian>(NONE).unwrap();
    buf.write_u32::<LittleEndian>(NONE).unwrap();
    buf.write_u32::<LittleEndian>(name).unwrap();
    buf
}

fn xml_document(chunks: &[Vec<u8>]) -> Vec<u8> {
    let body: Vec<u8> = chunks.concat();
    let mut buf = Vec::new();
    buf.write_u16::<LittleEndian>(0x0003).unwrap();
    buf.write_u16::<LittleEndian>(8).unwrap();
    buf.write_u32::<LittleEndian>(8 + body.len() as u32).unwrap();
    buf.extend_from_slice(&body);
    buf
}

fn string_attr(ns: u32, name: u32, value: u32) -> Attr {
    (ns, name, value, 0x03, value)
}

fn bool_attr(name: u32, value: bool) -> Attr {
    (S_URI, name, NONE, 0x12, if value { 0xffff_ffff } else { 0 })
}

/// A manifest with an activity that has an intent filter, a disabled
/// service, an exported receiver, a provider without export, a declared and
/// a requested permission.
fn sample_manifest() -> Vec<u8> {
    xml_document(&[
        string_pool_utf16(&pool_strings()),
        namespace_chunk(0x0100, S_ANDROID, S_URI),
        start_element(S_MANIFEST, &[string_attr(NONE, S_PACKAGE, S_EXAMPLE), (S_URI, S_VERSION, NONE, 0x10, 42)]),
        start_element(S_PERMISSION, &[string_attr(S_URI, S_NAME, S_MY_PERM)]),
        end_element(S_PERMISSION),
        start_element(S_USES_PERMISSION, &[string_attr(S_URI, S_NAME, S_INTERNET)]),
        end_element(S_USES_PERMISSION),
        start_element(S_APPLICATION, &[]),
        start_element(S_ACTIVITY, &[string_attr(S_URI, S_NAME, S_MAIN)]),
        start_element(S_INTENT_FILTER, &[]),
        end_element(S_INTENT_FILTER),
        end_element(S_ACTIVITY),
        start_element(S_SERVICE, &[string_attr(S_URI, S_NAME, S_SVC), bool_attr(S_ENABLED, false), bool_attr(S_EXPORTED, true)]),
        end_element(S_SERVICE),
        start_element(S_RECEIVER, &[string_attr(S_URI, S_NAME, S_RCV), bool_attr(S_EXPORTED, true)]),
        end_element(S_RECEIVER),
        start_element(S_PROVIDER, &[]),
        end_element(S_PROVIDER),
        end_element(S_APPLICATION),
        end_element(S_MANIFEST),
        namespace_chunk(0x0101, S_ANDROID, S_URI),
    ])
}

fn parse_sample() -> Axml {
    parse_from_cursor(ByteCursor::new(sample_manifest())).unwrap()
}

#[test]
fn parses_the_sample_manifest() {
    let axml = parse_sample();
    assert_eq!(axml.len(), 9);
    let root = axml.node(axml.root());
    assert_eq!(root.element_type(), "manifest");
    assert_eq!(root.get_attr("package"), Some("com.example"));
    assert_eq!(root.get_attr("android:versionCode"), Some("42"));
    assert_eq!(root.children().len(), 3);
}

#[test]
fn names_of_components_and_permissions() {
    let axml = parse_sample();
    assert_eq!(get_activities_names(&axml), vec!["com.example.Main".to_string()]);
    assert_eq!(get_services_names(&axml), vec!["com.example.Svc".to_string()]);
    assert_eq!(get_receivers_names(&axml), vec!["com.example.Rcv".to_string()]);
    assert!(get_providers_names(&axml).is_empty());
    assert_eq!(get_declared_permissions(&axml), vec!["com.example.MY_PERMISSION".to_string()]);
    assert_eq!(get_requested_permissions(&axml), vec!["android.permission.INTERNET".to_string()]);
}

#[test]
fn boolean_attributes_are_shown_as_text() {
    let axml = parse_sample();
    let service = find_node_by_name(&axml, "com.example.Svc").unwrap();
    assert_eq!(axml.node(service).get_attr("android:enabled"), Some("false"));
    assert_eq!(axml.node(service).get_attr("android:exported"), Some("true"));
    assert_eq!(axml.node(service).get_name(), Some("com.example.Svc"));
}

#[test]
fn exposure_of_components() {
    let axml = parse_sample();
    let activity = find_node_by_name(&axml, "com.example.Main").unwrap();
    let service = find_node_by_name(&axml, "com.example.Svc").unwrap();
    let receiver = find_node_by_name(&axml, "com.example.Rcv").unwrap();
    let provider = find_nodes_by_type(&axml, "provider")[0];
    // exported by default through its intent filter
    assert!(is_component_exposed(&axml, activity));
    // disabled
    assert!(!is_component_exposed(&axml, service));
    // explicitly exported
    assert!(is_component_exposed(&axml, receiver));
    // neither exported nor with an intent filter
    assert!(!is_component_exposed(&axml, provider));
}

#[test]
fn exposed_components_by_kind() {
    let axml = parse_sample();
    let exposed = get_exposed_components(&axml).unwrap();
    assert_eq!(exposed.get("activity").unwrap().len(), 1);
    assert_eq!(exposed.get("service").unwrap().len(), 0);
    assert_eq!(exposed.get("receiver").unwrap().len(), 1);
    assert_eq!(exposed.get("provider").unwrap().len(), 0);
    assert!(exposed.get("permission").is_none());
}

#[test]
fn disabled_application_exposes_nothing() {
    let doc = xml_document(&[
        string_pool_utf16(&pool_strings()),
        namespace_chunk(0x0100, S_ANDROID, S_URI),
        start_element(S_MANIFEST, &[]),
        start_element(S_APPLICATION, &[bool_attr(S_ENABLED, false)]),
        start_element(S_RECEIVER, &[bool_attr(S_EXPORTED, true)]),
        end_element(S_RECEIVER),
        end_element(S_APPLICATION),
        end_element(S_MANIFEST),
    ]);
    let axml = parse_from_cursor(ByteCursor::new(doc)).unwrap();
    assert!(get_exposed_components(&axml).is_none());
}

#[test]
fn document_without_application_has_no_exposed_components() {
    let doc = xml_document(&[
        string_pool_utf16(&pool_strings()),
        start_element(S_MANIFEST, &[]),
        end_element(S_MANIFEST),
    ]);
    let axml = parse_from_cursor(ByteCursor::new(doc)).unwrap();
    assert_eq!(axml.len(), 1);
    assert!(get_exposed_components(&axml).is_none());
}

#[test]
fn iteration_visits_each_element_once() {
    let axml = parse_sample();
    let mut it = axml.iter();
    let mut seen = Vec::new();
    while let Some(n) = it.next() {
        seen.push(n);
    }
    // the root first, then the last child's subtree first
    assert_eq!(seen[0], axml.root());
    assert_eq!(axml.node(seen[1]).element_type(), "application");
    let mut sorted = seen.clone();
    sorted.sort();
    assert_eq!(sorted, (0..axml.len()).collect::<Vec<usize>>());
}

#[test]
fn find_nodes_by_type_in_iteration_order() {
    let axml = parse_sample();
    assert_eq!(find_nodes_by_type(&axml, "activity").len(), 1);
    assert_eq!(find_nodes_by_type(&axml, "intent-filter").len(), 1);
    assert_eq!(find_nodes_by_type(&axml, "manifest"), vec![0]);
    assert!(find_nodes_by_type(&axml, "nothing").is_empty());
    assert!(find_node_by_name(&axml, "com.example.Missing").is_none());
}

#[test]
fn typed_attribute_values() {
    let doc = xml_document(&[
        string_pool_utf16(&pool_strings()),
        start_element(S_MANIFEST, &[]),
        start_element(S_ACTIVITY, &[
            (NONE, S_NAME, NONE, 0x01, 0x7f01_0002),
            (NONE, S_PACKAGE, NONE, 0x11, 0xbeef),
            (NONE, S_VERSION, NONE, 0x10, 4_294_967_295),
            (NONE, S_ENABLED, NONE, 0x1c, 0xff00_00ff),
        ]),
        end_element(S_ACTIVITY),
        end_element(S_MANIFEST),
    ]);
    let axml = parse_from_cursor(ByteCursor::new(doc)).unwrap();
    let activity = axml.node(find_nodes_by_type(&axml, "activity")[0]);
    assert_eq!(activity.get_attr("name"), Some("type1/2130771970"));
    assert_eq!(activity.get_attr("package"), Some("0xbeef"));
    assert_eq!(activity.get_attr("versionCode"), Some("4294967295"));
    assert_eq!(activity.get_attr("enabled"), Some(""));
}

#[test]
fn later_attribute_with_same_key_replaces_value() {
    let doc = xml_document(&[
        string_pool_utf16(&pool_strings()),
        start_element(S_MANIFEST, &[]),
        start_element(S_ACTIVITY, &[string_attr(NONE, S_NAME, S_MAIN), string_attr(NONE, S_NAME, S_SVC)]),
        end_element(S_ACTIVITY),
        end_element(S_MANIFEST),
    ]);
    let axml = parse_from_cursor(ByteCursor::new(doc)).unwrap();
    let activity = axml.node(find_nodes_by_type(&axml, "activity")[0]);
    assert_eq!(activity.attributes().len(), 1);
    assert_eq!(activity.get_attr("name"), Some("com.example.Svc"));
}

#[test]
fn renders_xml_text() {
    let doc = xml_document(&[
        string_pool_utf16(&pool_strings()),
        start_element(S_MANIFEST, &[string_attr(NONE, S_PACKAGE, S_EXAMPLE)]),
        start_element(S_APPLICATION, &[]),
        start_element(S_ACTIVITY, &[string_attr(NONE, S_NAME, S_MAIN)]),
        end_element(S_ACTIVITY),
        end_element(S_APPLICATION),
        end_element(S_MANIFEST),
    ]);
    let axml = parse_from_cursor(ByteCursor::new(doc)).unwrap();
    let text = axml.to_string().unwrap();
    assert_eq!(
        text,
        "<?xml version=\"1.0\" encoding=\"utf-8\"?>\n<manifest package=\"com.example\">\n    <application>\n        <activity name=\"com.example.Main\"/>\n    </application>\n</manifest>"
    );
}

#[test]
fn missing_string_gives_string_pool_error() {
    let doc = xml_document(&[
        string_pool_utf16(&pool_strings()),
        start_element(S_MANIFEST, &[]),
        start_element(999, &[]),
    ]);
    assert!(matches!(parse_from_cursor(ByteCursor::new(doc)), Err(AxmlError::StringPoolError)));
}

#[test]
fn undeclared_namespace_gives_namespace_error() {
    let doc = xml_document(&[
        string_pool_utf16(&pool_strings()),
        start_element(S_MANIFEST, &[string_attr(S_URI, S_NAME, S_MAIN)]),
    ]);
    assert!(matches!(parse_from_cursor(ByteCursor::new(doc)), Err(AxmlError::NamespaceError)));
}

#[test]
fn truncated_element_gives_io_error() {
    let mut chunk = start_element(S_MANIFEST, &[string_attr(NONE, S_NAME, S_MAIN)]);
    chunk.truncate(chunk.len() - 6);
    let doc = xml_document(&[string_pool_utf16(&pool_strings()), chunk]);
    assert!(matches!(parse_from_cursor(ByteCursor::new(doc)), Err(AxmlError::IoError)));
}

#[test]
fn unpaired_surrogate_gives_utf16_error() {
    let mut buf = Vec::new();
    buf.write_u16::<LittleEndian>(0x0001).unwrap();
    buf.write_u16::<LittleEndian>(28).unwrap();
    buf.write_u32::<LittleEndian>(40).unwrap();
    buf.write_u32::<LittleEndian>(1).unwrap();
    buf.write_u32::<LittleEndian>(0).unwrap();
    buf.write_u32::<LittleEndian>(0).unwrap();
    buf.write_u32::<LittleEndian>(32).unwrap();
    buf.write_u32::<LittleEndian>(0).unwrap();
    buf.write_u32::<LittleEndian>(0).unwrap();
    buf.write_u16::<LittleEndian>(1).unwrap();
    buf.write_u16::<LittleEndian>(0xd800).unwrap();
    buf.write_u16::<LittleEndian>(0).unwrap();
    let mut cursor = ByteCursor::new(buf);
    cursor.read_u16_le().unwrap();
    let mut strings = Vec::new();
    assert!(matches!(StringPool::from_buff(&mut cursor, &mut strings), Err(AxmlError::Utf16DecodeError)));
}

#[test]
fn surrogate_pair_decodes() {
    let doc = string_pool_utf16(&["a\u{1F600}b"]);
    let mut cursor = ByteCursor::new(doc);
    cursor.read_u16_le().unwrap();
    let mut strings = vec!["earlier".to_string()];
    let pool = StringPool::from_buff(&mut cursor, &mut strings).unwrap();
    assert_eq!(strings, vec!["earlier".to_string(), "a\u{1F600}b".to_string()]);
    // the pool holds its own strings only
    assert_eq!(pool.strings, vec!["a\u{1F600}b".to_string()]);
    assert_eq!(pool.strings.len(), pool.string_count as usize);
}

/// A UTF-16 string pool with one string, its length written as given
fn utf16_pool_with_length(length_words: &[u16], units: &[u16]) -> Vec<u8> {
    let mut data = Vec::new();
    for w in length_words {
        data.write_u16::<LittleEndian>(*w).unwrap();
    }
    for u in units {
        data.write_u16::<LittleEndian>(*u).unwrap();
    }
    data.write_u16::<LittleEndian>(0).unwrap();
    let mut buf = Vec::new();
    buf.write_u16::<LittleEndian>(0x0001).unwrap();
    buf.write_u16::<LittleEndian>(28).unwrap();
    buf.write_u32::<LittleEndian>(32 + data.len() as u32).unwrap();
    buf.write_u32::<LittleEndian>(1).unwrap();
    buf.write_u32::<LittleEndian>(0).unwrap();
    buf.write_u32::<LittleEndian>(0).unwrap();
    buf.write_u32::<LittleEndian>(32).unwrap();
    buf.write_u32::<LittleEndian>(0).unwrap();
    buf.write_u32::<LittleEndian>(0).unwrap();
    buf.extend_from_slice(&data);
    buf
}

#[test]
fn utf16_length_in_two_words() {
    // high bit set: the length is ((0x8000 & 0x7fff) << 16) | 1 = 1 unit
    let mut cursor = ByteCursor::new(utf16_pool_with_length(&[0x8000, 1], &[0x41]));
    cursor.read_u16_le().unwrap();
    let mut strings = Vec::new();
    let pool = StringPool::from_buff(&mut cursor, &mut strings).unwrap();
    assert_eq!(pool.strings, vec!["A".to_string()]);
    // one word: 2 units
    let mut cursor = ByteCursor::new(utf16_pool_with_length(&[2], &[0x4f, 0x4b]));
    cursor.read_u16_le().unwrap();
    let mut strings = Vec::new();
    let pool = StringPool::from_buff(&mut cursor, &mut strings).unwrap();
    assert_eq!(pool.strings, vec!["OK".to_string()]);
}

#[test]
fn style_spans_count_from_the_styles_start() {
    let mut buf = Vec::new();
    buf.write_u16::<LittleEndian>(0x0001).unwrap();
    buf.write_u16::<LittleEndian>(28).unwrap();
    buf.write_u32::<LittleEndian>(64).unwrap();
    buf.write_u32::<LittleEndian>(0).unwrap(); // string_count
    buf.write_u32::<LittleEndian>(1).unwrap(); // style_count
    buf.write_u32::<LittleEndian>(0).unwrap(); // flags
    buf.write_u32::<LittleEndian>(32).unwrap(); // strings_start
    buf.write_u32::<LittleEndian>(44).unwrap(); // styles_start
    buf.write_u32::<LittleEndian>(0).unwrap(); // style offset
    // at 32: a decoy span, at 44: the span
    for v in [9u32, 9, 9, 7, 1, 3] {
        buf.write_u32::<LittleEndian>(v).unwrap();
    }
    let mut cursor = ByteCursor::new(buf);
    cursor.read_u16_le().unwrap();
    let mut strings = Vec::new();
    let pool = StringPool::from_buff(&mut cursor, &mut strings).unwrap();
    assert_eq!(pool.styles.len(), 1);
    assert_eq!(pool.styles[0].name.index, 7);
    assert_eq!(pool.styles[0].first_char, 1);
    assert_eq!(pool.styles[0].last_char, 3);
}

#[test]
fn invalid_utf8_gives_utf8_error() {
    let mut buf = Vec::new();
    buf.write_u16::<LittleEndian>(0x0001).unwrap();
    buf.write_u16::<LittleEndian>(28).unwrap();
    buf.write_u32::<LittleEndian>(40).unwrap();
    buf.write_u32::<LittleEndian>(1).unwrap();
    buf.write_u32::<LittleEndian>(0).unwrap();
    buf.write_u32::<LittleEndian>(256).unwrap();
    buf.write_u32::<LittleEndian>(32).unwrap();
    buf.write_u32::<LittleEndian>(0).unwrap();
    buf.write_u32::<LittleEndian>(0).unwrap();
    buf.write_u8(2).unwrap();
    buf.write_u8(2).unwrap();
    buf.write_u8(0xc3).unwrap();
    buf.write_u8(0x28).unwrap();
    buf.write_u8(0).unwrap();
    let mut cursor = ByteCursor::new(buf);
    cursor.read_u16_le().unwrap();
    let mut strings = Vec::new();
    assert!(matches!(StringPool::from_buff(&mut cursor, &mut strings), Err(AxmlError::Utf8StringDecodeError)));
}

#[test]
fn utf8_multibyte_string_decodes() {
    let mut buf = Vec::new();
    buf.write_u16::<LittleEndian>(0x0001).unwrap();
    buf.write_u16::<LittleEndian>(28).unwrap();
    buf.write_u32::<LittleEndian>(40).unwrap();
    buf.write_u32::<LittleEndian>(1).unwrap();
    buf.write_u32::<LittleEndian>(0).unwrap();
    buf.write_u32::<LittleEndian>(256).unwrap();
    buf.write_u32::<LittleEndian>(32).unwrap();
    buf.write_u32::<LittleEndian>(0).unwrap();
    buf.write_u32::<LittleEndian>(0).unwrap();
    buf.write_u8(2).unwrap();
    buf.write_u8(3).unwrap();
    buf.extend_from_slice("é!".as_bytes());
    buf.write_u8(0).unwrap();
    let mut cursor = ByteCursor::new(buf);
    cursor.read_u16_le().unwrap();
    let mut strings = Vec::new();
    let pool = StringPool::from_buff(&mut cursor, &mut strings).unwrap();
    assert_eq!(pool.strings, vec!["é!".to_string()]);
    assert!(pool.is_utf8);
    assert!(!pool.is_sorted);
}

#[test]
fn element_after_manifest_end_gives_up() {
    let doc = xml_document(&[
        string_pool_utf16(&pool_strings()),
        start_element(S_MANIFEST, &[]),
        end_element(S_MANIFEST),
        end_element(S_MANIFEST),
        start_element(S_ACTIVITY, &[]),
    ]);
    let result = parse_xml_checked(ByteCursor::new(doc));
    assert_eq!(result.unwrap_err(), Fault::Abort(Abort::EmptyElementStack));
}

#[test]
fn non_zero_reserved_byte_gives_up() {
    let mut chunk = start_element(S_MANIFEST, &[string_attr(NONE, S_NAME, S_MAIN)]);
    let reserved = 36 + 12 + 2;
    chunk[reserved] = 1;
    let doc = xml_document(&[string_pool_utf16(&pool_strings()), chunk]);
    let result = parse_xml_checked(ByteCursor::new(doc));
    assert_eq!(result.unwrap_err(), Fault::Abort(Abort::NonZeroRes0));
}

#[test]
fn unknown_value_type_gives_up() {
    let doc = xml_document(&[
        string_pool_utf16(&pool_strings()),
        start_element(S_MANIFEST, &[(NONE, S_NAME, NONE, 0x09, 0)]),
    ]);
    let result = parse_xml_checked(ByteCursor::new(doc));
    assert_eq!(result.unwrap_err(), Fault::Abort(Abort::UnknownDataValueType(0x09)));
}

#[test]
fn chunk_after_document_end_is_ignored() {
    let mut doc = xml_document(&[
        string_pool_utf16(&pool_strings()),
        start_element(S_MANIFEST, &[]),
        end_element(S_MANIFEST),
    ]);
    // an unknown chunk type ends the document
    doc.write_u16::<LittleEndian>(0x7777).unwrap();
    doc.extend_from_slice(&[1, 2, 3, 4]);
    let axml = parse_from_cursor(ByteCursor::new(doc)).unwrap();
    assert_eq!(axml.len(), 1);
}

#[test]
fn resource_table_with_other_chunk_gives_up() {
    let mut buf = Vec::new();
    buf.write_u16::<LittleEndian>(0x0002).unwrap();
    buf.write_u16::<LittleEndian>(12).unwrap();
    buf.write_u32::<LittleEndian>(20).unwrap();
    buf.write_u32::<LittleEndian>(1).unwrap();
    buf.write_u16::<LittleEndian>(0x0102).unwrap();
    buf.write_u16::<LittleEndian>(8).unwrap();
    let mut cursor = ByteCursor::new(buf);
    let result = ResTable::parse_checked(&mut cursor);
    assert_eq!(result.unwrap_err(), Fault::Abort(Abort::UnexpectedBlockType(0x0102)));
}

/// A resource table with one package named `name`, whose fields are 1 to 5
fn resource_table(name: &str) -> Vec<u8> {
    let mut buf = Vec::new();
    buf.write_u16::<LittleEndian>(0x0002).unwrap();
    buf.write_u16::<LittleEndian>(12).unwrap();
    buf.write_u32::<LittleEndian>(12 + 288).unwrap();
    buf.write_u32::<LittleEndian>(1).unwrap();
    // the package
    buf.write_u16::<LittleEndian>(0x0200).unwrap();
    buf.write_u16::<LittleEndian>(288).unwrap();
    buf.write_u32::<LittleEndian>(288).unwrap();
    buf.write_u32::<LittleEndian>(0x7f).unwrap();
    let units: Vec<u16> = name.encode_utf16().collect();
    for k in 0..128 {
        buf.write_u16::<LittleEndian>(if k < units.len() { units[k] } else { 0 }).unwrap();
    }
    for v in [1u32, 2, 3, 4, 5] {
        buf.write_u32::<LittleEndian>(v).unwrap();
    }
    buf
}

#[test]
fn resource_table_with_a_package() {
    let mut cursor = ByteCursor::new(resource_table("com.x"));
    let table = ResTable::parse(&mut cursor).unwrap();
    assert_eq!(table.package_count, 1);
    assert_eq!(table.header.chunk_type, ChunkType::ResTableType);
    assert_eq!(table.packages.len(), 1);
    let package = &table.packages[0];
    assert_eq!(package.header.chunk_type, ChunkType::ResTablePackageType);
    assert_eq!(package.id, 0x7f);
    let name: Vec<u16> = package.name.iter().copied().take_while(|u| *u != 0).collect();
    assert_eq!(String::from_utf16(&name).unwrap(), "com.x");
    // the fields come after all 128 units of the name, at offset 268 of the package
    assert_eq!(package.type_strings, 1);
    assert_eq!(package.last_public_type, 2);
    assert_eq!(package.key_strings, 3);
    assert_eq!(package.last_public_key, 4);
    assert_eq!(package.type_id_offset, 5);
    // header (8) + count (4) + package header (8) + id (4) + name (256) + 5 fields
    assert_eq!(cursor.position(), 8 + 4 + 8 + 4 + 256 + 20);
}

#[test]
fn position_before_two_bytes_gives_up() {
    let mut cursor = ByteCursor::new(vec![1, 0, 8, 0, 16, 0, 0, 0]);
    let mut strings = Vec::new();
    let result = StringPool::from_buff_checked(&mut cursor, &mut strings);
    assert_eq!(result.unwrap_err(), Fault::Abort(Abort::PositionUnderflow));
}

#[test]
fn data_value_type_roundtrip() {
    for v in 0u8..=255 {
        if let Some(t) = DataValueType::try_from_val(v) {
            assert_eq!(t.to_val(), v);
            assert_eq!(DataValueType::from_val(v), t);
        }
    }
    assert!(DataValueType::try_from_val(0x09).is_none());
    assert_eq!(DataValueType::from_val(0x12), DataValueType::TypeIntBoolean);
}

#[test]
fn chunk_type_roundtrip() {
    for raw in 0u16..0x0300 {
        if let Some(t) = ChunkType::from_raw(raw) {
            assert_eq!(t.to_raw(), raw);
        }
    }
    assert_eq!(ChunkType::from_raw(0x0180), Some(ChunkType::ResXmlResourceMapType));
    assert!(ChunkType::from_raw(0x0105).is_none());
}

#[test]
fn resource_table_before_the_document_is_skipped() {
    let mut doc = resource_table("com.x");
    doc.extend_from_slice(&sample_manifest());
    let axml = parse_from_cursor(ByteCursor::new(doc)).unwrap();
    assert_eq!(axml.len(), 9);
    assert_eq!(get_activities_names(&axml), vec!["com.example.Main".to_string()]);
}

/// A zip archive holding these entries, stored without compression
fn zip_archive(entries: &[(&str, &[u8])]) -> Vec<u8> {
    let mut writer = zip::ZipWriter::new(std::io::Cursor::new(Vec::new()));
    let options = zip::write::SimpleFileOptions::default().compression_method(zip::CompressionMethod::Stored);
    for (name, data) in entries {
        writer.start_file(*name, options).unwrap();
        writer.write_all(data).unwrap();
    }
    writer.finish().unwrap().into_inner()
}

#[test]
fn manifest_is_extracted_from_an_apk() {
    let manifest = sample_manifest();
    let apk = zip_archive(&[("classes.dex", b"dex\n035"), ("AndroidManifest.xml", &manifest)]);
    let cursor = manifest_from_apk_bytes(&apk).unwrap().unwrap();
    assert_eq!(cursor.position(), 0);
    assert_eq!(cursor.get_ref(), &manifest);
    let axml = parse_from_cursor(cursor).unwrap();
    assert_eq!(get_requested_permissions(&axml), vec!["android.permission.INTERNET".to_string()]);
}

#[test]
fn apk_without_manifest_gives_none() {
    let apk = zip_archive(&[("classes.dex", b"dex\n035")]);
    assert!(manifest_from_apk_bytes(&apk).unwrap().is_none());
}

#[test]
fn bytes_that_are_no_archive_give_zip_error() {
    assert!(matches!(manifest_from_apk_bytes(&[1, 2, 3, 4]), Err(AxmlError::ZipFileError)));
    assert!(matches!(manifest_from_apk_bytes(&sample_manifest()), Err(AxmlError::ZipFileError)));
}
