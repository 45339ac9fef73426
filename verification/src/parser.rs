//! Main parser routine
//!
//! This module contains the logic to parse the binary XML into a tree structure (`Axml`),
//! representing the actual XML.
//!
//! The elements of a document are kept in one list, the root first; an
//! element refers to its children by their position in that list
//! (`XmlNode`). A child always comes after its parent in the list.

use vstd::prelude::*;
use crate::chunks::chunk_header::{ChunkHeader, spec_chunk_header};
use crate::chunks::chunk_types::{ChunkType, spec_block_type, spec_chunk_type};
use crate::chunks::res_table::{ResTable, spec_res_table};
use crate::chunks::resource_map::{ResourceMap, spec_resource_map, lemma_resource_map_read_whole};
use crate::chunks::string_pool::{StringPool, spec_string_pool, lemma_pool_own_strings};
use crate::chunks::data_value_type::DataValueType;
use crate::chunks::res_value::{ResValue, spec_res_value};
use crate::cursor::{ByteCursor, le_u16, le_u32, spec_u16, spec_u32, spec_repeat, lemma_repeat_fault_persists,
    agrees, agrees_view, gives_up, error_of};
use crate::errors::{Abort, AxmlError, Fault};
use crate::numfmt::{decimal_text, hex_text, decimal_string, hex_string};
use crate::string_map::{StringMap, keys_distinct, map_get, map_insert, map_from_pairs,
    lemma_map_from_pairs_distinct};

verus! {

/// An element of a document, named by its position in the document's list of elements
pub type XmlNode = usize;

/// An element, as plain values
pub struct ElementView {
    /// Type of element (e.g., `activity`, `service`)
    pub element_type: Seq<char>,
    /// Attributes of the element as key/value pairs, each key once
    pub attributes: Seq<(Seq<char>, Seq<char>)>,
    /// Positions of the children of the element
    pub children: Seq<XmlNode>,
}

/// Representation of an XML element with optional children
#[derive(Debug)]
pub struct XmlElement {
    /// Type of element (e.g., `activity`, `service`)
    element_type: String,
    /// Attributes of the element (e.g., `exported`, `permission`)
    attributes: StringMap,
    /// Children of the XML element
    children: Vec<XmlNode>,
}

impl View for XmlElement {
    type V = ElementView;

    closed spec fn view(&self) -> ElementView {
        ElementView {
            element_type: self.element_type@,
            attributes: self.attributes@,
            children: self.children@,
        }
    }
}

impl XmlElement {
    /// Get the element's type
    pub fn element_type(&self) -> (r: &str)
        ensures
            r@ == self@.element_type,
    {
        self.element_type.as_str()
    }

    /// Get the element's children
    pub fn children(&self) -> (r: &[XmlNode])
        ensures
            r@ == self@.children,
    {
        self.children.as_slice()
    }

    /// Get the element's attributes
    pub fn attributes(&self) -> (r: &StringMap)
        ensures
            r@ == self@.attributes,
    {
        &self.attributes
    }

    /// Get an attribute from an `XmlElement` if it exists
    pub fn get_attr(&self, attr_name: &str) -> (r: Option<&str>)
        ensures
            match r {
                Some(v) => map_get(self@.attributes, attr_name@) == Some(v@),
                None => map_get(self@.attributes, attr_name@) is None,
            },
    {
        let key = attr_name.to_string();
        match self.attributes.get(&key) {
            Some(v) => Some(v.as_str()),
            None => None,
        }
    }

    /// Get the element's name off of its attributes if it exists
    pub fn get_name(&self) -> (r: Option<&str>)
        ensures
            match r {
                Some(v) => map_get(self@.attributes, android_name()) == Some(v@),
                None => map_get(self@.attributes, android_name()) is None,
            },
    {
        proof {
            reveal_strlit("android:name");
            assert("android:name"@ =~= android_name());
        }
        self.get_attr("android:name")
    }
}

/// The attribute that names a component: `android:name`
pub open spec fn android_name() -> Seq<char> {
    seq!['a', 'n', 'd', 'r', 'o', 'i', 'd', ':', 'n', 'a', 'm', 'e']
}

/// The string at index `idx` of the pool
pub open spec fn spec_pool_string(strings: Seq<Seq<char>>, idx: u32) -> Result<Seq<char>, Fault> {
    if (idx as int) < strings.len() {
        Ok(strings[idx as int])
    } else {
        Err(Fault::Error(AxmlError::StringPoolError))
    }
}

/// The string at index `idx` of the pool
fn pool_string<'a>(strings: &'a [String], idx: u32) -> (r: Result<&'a String, Fault>)
    ensures
        match spec_pool_string(strings.deep_view(), idx) {
            Ok(v) => r is Ok && r->Ok_0@ == v,
            Err(f) => r == Err::<&String, Fault>(f),
        },
{
    let i = idx as usize;
    if i < strings.len() {
        Ok(&strings[i])
    } else {
        Err(Fault::Error(AxmlError::StringPoolError))
    }
}

/// The text of an attribute value that no string gives, by its data type:
/// a reference is `type1/` and its decimal number, a decimal integer its
/// decimal digits, a hexadecimal integer `0x` and its lowercase hexadecimal
/// digits, a boolean `false` for 0 and `true` otherwise; the other types
/// give no text.
pub open spec fn spec_value_text(v: ResValue) -> Seq<char> {
    match v.data_type {
        DataValueType::TypeReference => seq!['t', 'y', 'p', 'e', '1', '/'] + decimal_text(v.data as nat),
        DataValueType::TypeIntDec => decimal_text(v.data as nat),
        DataValueType::TypeIntHex => seq!['0', 'x'] + hex_text(v.data as nat),
        DataValueType::TypeIntBoolean => if v.data == 0 {
            seq!['f', 'a', 'l', 's', 'e']
        } else {
            seq!['t', 'r', 'u', 'e']
        },
        _ => Seq::empty(),
    }
}

/// The text of an attribute value that no string gives
fn value_text(v: &ResValue) -> (r: String)
    ensures
        r@ == spec_value_text(*v),
{
    match v.data_type {
        DataValueType::TypeReference => {
            let mut t = String::from_str("type1/");
            t.append(decimal_string(v.data).as_str());
            proof {
                reveal_strlit("type1/");
                assert(t@ =~= spec_value_text(*v));
            }
            t
        },
        DataValueType::TypeIntDec => decimal_string(v.data),
        DataValueType::TypeIntHex => {
            let mut t = String::from_str("0x");
            t.append(hex_string(v.data).as_str());
            proof {
                reveal_strlit("0x");
                assert(t@ =~= spec_value_text(*v));
            }
            t
        },
        DataValueType::TypeIntBoolean => {
            if v.data == 0 {
                proof {
                    reveal_strlit("false");
                }
                String::from_str("false")
            } else {
                proof {
                    reveal_strlit("true");
                }
                String::from_str("true")
            }
        },
        _ => String::new(),
    }
}

/// Reading an attribute at position `p`: the indices of its namespace, name
/// and raw value (`u32` each, `0xffffffff` for none) and its typed value.
/// The key is the namespace's prefix, a colon and the name; the value is
/// the raw value's string, or else the typed value's text.
pub open spec fn spec_attribute(s: Seq<u8>, p: nat, strings: Seq<Seq<char>>, namespaces: Seq<(Seq<char>, Seq<char>)>)
    -> Result<((Seq<char>, Seq<char>), nat), Fault>
{
    match spec_u32(s, p) {
        Err(f) => Err(f),
        Ok((attr_namespace, p1)) => match spec_u32(s, p1) {
            Err(f) => Err(f),
            Ok((attr_name, p2)) => match spec_u32(s, p2) {
                Err(f) => Err(f),
                Ok((attr_raw_val, p3)) => match spec_res_value(s, p3) {
                    Err(f) => Err(f),
                    Ok((value, p4)) => {
                        let prefix: Result<Seq<char>, Fault> = if attr_namespace != 0xffffffff {
                            match spec_pool_string(strings, attr_namespace) {
                                Err(f) => Err(f),
                                Ok(namespace) => match map_get(namespaces, namespace) {
                                    None => Err(Fault::Error(AxmlError::NamespaceError)),
                                    Some(ns_prefix) => Ok(ns_prefix.push(':')),
                                },
                            }
                        } else {
                            Ok(Seq::empty())
                        };
                        match prefix {
                            Err(f) => Err(f),
                            Ok(prefix) => match spec_pool_string(strings, attr_name) {
                                Err(f) => Err(f),
                                Ok(name) => {
                                    let val: Result<Seq<char>, Fault> = if attr_raw_val != 0xffffffff {
                                        spec_pool_string(strings, attr_raw_val)
                                    } else {
                                        Ok(spec_value_text(value))
                                    };
                                    match val {
                                        Err(f) => Err(f),
                                        Ok(val) => Ok(((prefix + name, val), p4)),
                                    }
                                },
                            },
                        }
                    },
                },
            },
        },
    }
}

/// Reading one attribute
pub open spec fn attribute_item(s: Seq<u8>, strings: Seq<Seq<char>>, namespaces: Seq<(Seq<char>, Seq<char>)>)
    -> spec_fn(nat, nat) -> Result<((Seq<char>, Seq<char>), nat), Fault>
{
    |k: nat, q: nat| spec_attribute(s, q, strings, namespaces)
}

/// Read one attribute
fn read_attribute(axml_buff: &mut ByteCursor, strings: &[String], namespace_prefixes: &StringMap)
    -> (r: Result<(String, String), Fault>)
    ensures
        final(axml_buff).bytes() == old(axml_buff).bytes(),
        match spec_attribute(old(axml_buff).bytes(), old(axml_buff).at(), strings.deep_view(), namespace_prefixes@) {
            Ok((kv, p)) => r is Ok && r->Ok_0.0@ == kv.0 && r->Ok_0.1@ == kv.1 && final(axml_buff).at() == p,
            Err(f) => r == Err::<(String, String), Fault>(f),
        },
{
    let attr_namespace = match axml_buff.read_u32_le() {
        Ok(v) => v,
        Err(e) => return Err(Fault::Error(e)),
    };
    let attr_name = match axml_buff.read_u32_le() {
        Ok(v) => v,
        Err(e) => return Err(Fault::Error(e)),
    };
    let attr_raw_val = match axml_buff.read_u32_le() {
        Ok(v) => v,
        Err(e) => return Err(Fault::Error(e)),
    };
    let data_value_type = ResValue::from_buff_checked(axml_buff)?;

    let mut decoded_attr_key = String::new();
    if attr_namespace != 0xffffffff {
        let namespace = pool_string(strings, attr_namespace)?;
        let ns_prefix = match namespace_prefixes.get(namespace) {
            Some(v) => v,
            None => return Err(Fault::Error(AxmlError::NamespaceError)),
        };
        decoded_attr_key.append(ns_prefix.as_str());
        decoded_attr_key.append(":");
        proof {
            reveal_strlit(":");
        }
    }
    let name = pool_string(strings, attr_name)?;
    decoded_attr_key.append(name.as_str());

    let decoded_attr_val = if attr_raw_val != 0xffffffff {
        pool_string(strings, attr_raw_val)?.clone()
    } else {
        value_text(&data_value_type)
    };
    proof {
        let ghost prefix = if attr_namespace != 0xffffffff {
            map_get(namespace_prefixes@, strings.deep_view()[attr_namespace as int]).unwrap().push(':')
        } else {
            Seq::<char>::empty()
        };
        assert(decoded_attr_key@ =~= prefix + name@);
    }
    Ok((decoded_attr_key, decoded_attr_val))
}

/// Reading the start of an element whose type was read just before position
/// `p`: the header, line number, comment, namespace, name (`u32` each),
/// attribute size (`u32`), attribute count, id, class and style indices
/// (`u16` each) and that many attributes. The element has no children; its
/// attributes are those read, a later one with the key of an earlier one
/// replacing its value.
pub open spec fn spec_start_element(s: Seq<u8>, p: nat, strings: Seq<Seq<char>>, namespaces: Seq<(Seq<char>, Seq<char>)>)
    -> Result<(ElementView, nat), Fault>
{
    if p < 2 {
        Err(Fault::Abort(Abort::PositionUnderflow))
    } else {
        match spec_chunk_header(s, (p - 2) as nat, ChunkType::ResXmlStartElementType) {
            Err(f) => Err(f),
            Ok((_, p1)) => match spec_u32(s, p1) {
                Err(f) => Err(f),
                Ok((_line_number, p2)) => match spec_u32(s, p2) {
                    Err(f) => Err(f),
                    Ok((_comment, p3)) => match spec_u32(s, p3) {
                        Err(f) => Err(f),
                        Ok((_namespace, p4)) => match spec_u32(s, p4) {
                            Err(f) => Err(f),
                            Ok((name, p5)) => match spec_u32(s, p5) {
                                Err(f) => Err(f),
                                Ok((_attribute_size, p6)) => match spec_u16(s, p6) {
                                    Err(f) => Err(f),
                                    Ok((attribute_count, p7)) => match spec_u16(s, p7) {
                                        Err(f) => Err(f),
                                        Ok((_id_index, p8)) => match spec_u16(s, p8) {
                                            Err(f) => Err(f),
                                            Ok((_class_index, p9)) => match spec_u16(s, p9) {
                                                Err(f) => Err(f),
                                                Ok((_style_index, p10)) => match spec_pool_string(strings, name) {
                                                    Err(f) => Err(f),
                                                    Ok(element_type) => match spec_repeat(
                                                        attribute_item(s, strings, namespaces),
                                                        p10,
                                                        attribute_count as nat,
                                                    ) {
                                                        Err(f) => Err(f),
                                                        Ok((pairs, p11)) => Ok((ElementView {
                                                            element_type,
                                                            attributes: map_from_pairs(pairs),
                                                            children: Seq::empty(),
                                                        }, p11)),
                                                    },
                                                },
                                            },
                                        },
                                    },
                                },
                            },
                        },
                    },
                },
            },
        }
    }
}

/// Move back over the chunk type that was read just before the cursor
fn back_to_chunk_start(axml_buff: &mut ByteCursor) -> (r: Result<(), Fault>)
    ensures
        final(axml_buff).bytes() == old(axml_buff).bytes(),
        old(axml_buff).at() < 2 ==> r == Err::<(), Fault>(Fault::Abort(Abort::PositionUnderflow)),
        old(axml_buff).at() >= 2 ==> r is Ok && final(axml_buff).at() == old(axml_buff).at() - 2,
{
    let offset = axml_buff.position();
    if offset < 2 {
        return Err(Fault::Abort(Abort::PositionUnderflow));
    }
    axml_buff.set_position(offset - 2);
    Ok(())
}

/// Read `count` attributes into a map
#[verifier::loop_isolation(false)]
fn read_attributes(axml_buff: &mut ByteCursor, count: u16, strings: &[String], namespace_prefixes: &StringMap)
    -> (r: Result<StringMap, Fault>)
    ensures
        final(axml_buff).bytes() == old(axml_buff).bytes(),
        match spec_repeat(attribute_item(old(axml_buff).bytes(), strings.deep_view(), namespace_prefixes@),
            old(axml_buff).at(), count as nat) {
            Ok((pairs, p)) => r is Ok && r->Ok_0@ == map_from_pairs(pairs) && final(axml_buff).at() == p,
            Err(f) => r is Err && r->Err_0 == f,
        },
{
    let ghost s = axml_buff.bytes();
    let ghost p0 = axml_buff.at();
    let ghost item = attribute_item(s, strings.deep_view(), namespace_prefixes@);
    let ghost mut pairs: Seq<(Seq<char>, Seq<char>)> = Seq::empty();
    let mut decoded_attrs = StringMap::new();
    let mut i: u16 = 0;
    while i < count
        invariant
            axml_buff.bytes() == s,
            i <= count,
            item == attribute_item(s, strings.deep_view(), namespace_prefixes@),
            spec_repeat(item, p0, i as nat) == Ok::<(Seq<(Seq<char>, Seq<char>)>, nat), Fault>((pairs, axml_buff.at())),
            decoded_attrs@ == map_from_pairs(pairs),
        decreases count - i,
    {
        match read_attribute(axml_buff, strings, namespace_prefixes) {
            Ok((key, val)) => {
                proof {
                    pairs = pairs.push((key@, val@));
                    assert(pairs.drop_last() == spec_repeat(item, p0, i as nat)->Ok_0.0);
                }
                decoded_attrs.insert(key, val);
            },
            Err(f) => {
                proof {
                    lemma_repeat_fault_persists(item, p0, (i + 1) as nat, count as nat);
                }
                return Err(f);
            },
        }
        i = i + 1;
    }
    Ok(decoded_attrs)
}

/// Parse the start of an element, or give up
pub fn parse_start_element_checked(axml_buff: &mut ByteCursor, strings: &[String], namespace_prefixes: &StringMap)
    -> (r: Result<XmlElement, Fault>)
    ensures
        final(axml_buff).bytes() == old(axml_buff).bytes(),
        agrees_view(r, final(axml_buff).at(),
            spec_start_element(old(axml_buff).bytes(), old(axml_buff).at(), strings.deep_view(), namespace_prefixes@)),
{
    // Go back 2 bytes, to account from the block type
    back_to_chunk_start(axml_buff)?;

    // Parse chunk header
    let _header = ChunkHeader::from_buff_checked(axml_buff, ChunkType::ResXmlStartElementType)?;

    let _line_number = match axml_buff.read_u32_le() {
        Ok(v) => v,
        Err(e) => return Err(Fault::Error(e)),
    };
    let _comment = match axml_buff.read_u32_le() {
        Ok(v) => v,
        Err(e) => return Err(Fault::Error(e)),
    };
    let _namespace = match axml_buff.read_u32_le() {
        Ok(v) => v,
        Err(e) => return Err(Fault::Error(e)),
    };
    let name = match axml_buff.read_u32_le() {
        Ok(v) => v,
        Err(e) => return Err(Fault::Error(e)),
    };
    let _attribute_size = match axml_buff.read_u32_le() {
        Ok(v) => v,
        Err(e) => return Err(Fault::Error(e)),
    };
    let attribute_count = match axml_buff.read_u16_le() {
        Ok(v) => v,
        Err(e) => return Err(Fault::Error(e)),
    };
    let _id_index = match axml_buff.read_u16_le() {
        Ok(v) => v,
        Err(e) => return Err(Fault::Error(e)),
    };
    let _class_index = match axml_buff.read_u16_le() {
        Ok(v) => v,
        Err(e) => return Err(Fault::Error(e)),
    };
    let _style_index = match axml_buff.read_u16_le() {
        Ok(v) => v,
        Err(e) => return Err(Fault::Error(e)),
    };

    let element_type = pool_string(strings, name)?.clone();
    let attributes = read_attributes(axml_buff, attribute_count, strings, namespace_prefixes)?;

    let element = XmlElement { element_type, attributes, children: Vec::new() };
    proof {
        assert(element@.children =~= Seq::<XmlNode>::empty());
    }
    Ok(element)
}

/// Parse the start of an element
pub fn parse_start_element(axml_buff: &mut ByteCursor, strings: &[String], namespace_prefixes: &StringMap)
    -> (r: Result<XmlElement, AxmlError>)
    requires
        !gives_up(spec_start_element(old(axml_buff).bytes(), old(axml_buff).at(), strings.deep_view(), namespace_prefixes@)),
    ensures
        final(axml_buff).bytes() == old(axml_buff).bytes(),
        match spec_start_element(old(axml_buff).bytes(), old(axml_buff).at(), strings.deep_view(), namespace_prefixes@) {
            Ok((v, p)) => r is Ok && r->Ok_0@ == v && final(axml_buff).at() == p,
            Err(f) => r is Err && r->Err_0 == error_of(f),
        },
{
    match parse_start_element_checked(axml_buff, strings, namespace_prefixes) {
        Ok(v) => Ok(v),
        Err(Fault::Error(e)) => Err(e),
        Err(Fault::Abort(_)) => Err(AxmlError::IoError),
    }
}

/// Reading the end of an element whose type was read just before position
/// `p`: the header, line number, comment, namespace and name (`u32` each);
/// the result is the name.
pub open spec fn spec_end_element(s: Seq<u8>, p: nat, strings: Seq<Seq<char>>) -> Result<(Seq<char>, nat), Fault> {
    if p < 2 {
        Err(Fault::Abort(Abort::PositionUnderflow))
    } else {
        match spec_chunk_header(s, (p - 2) as nat, ChunkType::ResXmlEndElementType) {
            Err(f) => Err(f),
            Ok((_, p1)) => match spec_u32(s, p1) {
                Err(f) => Err(f),
                Ok((_line_number, p2)) => match spec_u32(s, p2) {
                    Err(f) => Err(f),
                    Ok((_comment, p3)) => match spec_u32(s, p3) {
                        Err(f) => Err(f),
                        Ok((_namespace, p4)) => match spec_u32(s, p4) {
                            Err(f) => Err(f),
                            Ok((name, p5)) => match spec_pool_string(strings, name) {
                                Err(f) => Err(f),
                                Ok(name) => Ok((name, p5)),
                            },
                        },
                    },
                },
            },
        }
    }
}

/// Parse the end of an element, or give up
pub fn parse_end_element_checked(axml_buff: &mut ByteCursor, strings: &[String]) -> (r: Result<String, Fault>)
    ensures
        final(axml_buff).bytes() == old(axml_buff).bytes(),
        agrees_view(r, final(axml_buff).at(), spec_end_element(old(axml_buff).bytes(), old(axml_buff).at(), strings.deep_view())),
{
    // Go back 2 bytes, to account from the block type
    back_to_chunk_start(axml_buff)?;

    // Parse chunk header
    let _header = ChunkHeader::from_buff_checked(axml_buff, ChunkType::ResXmlEndElementType)?;

    let _line_number = match axml_buff.read_u32_le() {
        Ok(v) => v,
        Err(e) => return Err(Fault::Error(e)),
    };
    let _comment = match axml_buff.read_u32_le() {
        Ok(v) => v,
        Err(e) => return Err(Fault::Error(e)),
    };
    let _namespace = match axml_buff.read_u32_le() {
        Ok(v) => v,
        Err(e) => return Err(Fault::Error(e)),
    };
    let name = match axml_buff.read_u32_le() {
        Ok(v) => v,
        Err(e) => return Err(Fault::Error(e)),
    };

    let name = pool_string(strings, name)?;
    Ok(name.clone())
}

/// Parse the end of an element
pub fn parse_end_element(axml_buff: &mut ByteCursor, strings: &[String]) -> (r: Result<String, AxmlError>)
    requires
        !gives_up(spec_end_element(old(axml_buff).bytes(), old(axml_buff).at(), strings.deep_view())),
    ensures
        final(axml_buff).bytes() == old(axml_buff).bytes(),
        match spec_end_element(old(axml_buff).bytes(), old(axml_buff).at(), strings.deep_view()) {
            Ok((v, p)) => r is Ok && r->Ok_0@ == v && final(axml_buff).at() == p,
            Err(f) => r is Err && r->Err_0 == error_of(f),
        },
{
    match parse_end_element_checked(axml_buff, strings) {
        Ok(v) => Ok(v),
        Err(Fault::Error(e)) => Err(e),
        Err(Fault::Abort(_)) => Err(AxmlError::IoError),
    }
}

/// Reading the start of a namespace whose type was read just before
/// position `p`: the header, line number, comment, prefix and URI (`u32`
/// each). The namespace map then gives the prefix for the URI.
pub open spec fn spec_start_namespace(s: Seq<u8>, p: nat, strings: Seq<Seq<char>>, namespaces: Seq<(Seq<char>, Seq<char>)>)
    -> Result<(Seq<(Seq<char>, Seq<char>)>, nat), Fault>
{
    if p < 2 {
        Err(Fault::Abort(Abort::PositionUnderflow))
    } else {
        match spec_chunk_header(s, (p - 2) as nat, ChunkType::ResXmlStartNamespaceType) {
            Err(f) => Err(f),
            Ok((_, p1)) => match spec_u32(s, p1) {
                Err(f) => Err(f),
                Ok((_line_number, p2)) => match spec_u32(s, p2) {
                    Err(f) => Err(f),
                    Ok((_comment, p3)) => match spec_u32(s, p3) {
                        Err(f) => Err(f),
                        Ok((prefix, p4)) => match spec_u32(s, p4) {
                            Err(f) => Err(f),
                            Ok((uri, p5)) => match spec_pool_string(strings, prefix) {
                                Err(f) => Err(f),
                                Ok(prefix_str) => match spec_pool_string(strings, uri) {
                                    Err(f) => Err(f),
                                    Ok(uri_str) => Ok((map_insert(namespaces, uri_str, prefix_str), p5)),
                                },
                            },
                        },
                    },
                },
            },
        }
    }
}

/// Parse the start of a namepace, or give up
pub fn parse_start_namespace_checked(axml_buff: &mut ByteCursor, strings: &[String], namespaces: &mut StringMap)
    -> (r: Result<(), Fault>)
    ensures
        final(axml_buff).bytes() == old(axml_buff).bytes(),
        match spec_start_namespace(old(axml_buff).bytes(), old(axml_buff).at(), strings.deep_view(), old(namespaces)@) {
            Ok((m, p)) => r is Ok && final(namespaces)@ == m && final(axml_buff).at() == p,
            Err(f) => r == Err::<(), Fault>(f) && final(namespaces)@ == old(namespaces)@,
        },
{
    // Go back 2 bytes, to account from the block type
    back_to_chunk_start(axml_buff)?;

    // Parse chunk header
    let _header = ChunkHeader::from_buff_checked(axml_buff, ChunkType::ResXmlStartNamespaceType)?;

    let _line_number = match axml_buff.read_u32_le() {
        Ok(v) => v,
        Err(e) => return Err(Fault::Error(e)),
    };
    let _comment = match axml_buff.read_u32_le() {
        Ok(v) => v,
        Err(e) => return Err(Fault::Error(e)),
    };
    let prefix = match axml_buff.read_u32_le() {
        Ok(v) => v,
        Err(e) => return Err(Fault::Error(e)),
    };
    let uri = match axml_buff.read_u32_le() {
        Ok(v) => v,
        Err(e) => return Err(Fault::Error(e)),
    };

    let prefix_str = pool_string(strings, prefix)?;
    let uri_str = pool_string(strings, uri)?;
    namespaces.insert(uri_str.clone(), prefix_str.clone());

    Ok(())
}

/// Parse the start of a namepace
pub fn parse_start_namespace(axml_buff: &mut ByteCursor, strings: &[String], namespaces: &mut StringMap)
    -> (r: Result<(), AxmlError>)
    requires
        !gives_up(spec_start_namespace(old(axml_buff).bytes(), old(axml_buff).at(), strings.deep_view(), old(namespaces)@)),
    ensures
        final(axml_buff).bytes() == old(axml_buff).bytes(),
        match spec_start_namespace(old(axml_buff).bytes(), old(axml_buff).at(), strings.deep_view(), old(namespaces)@) {
            Ok((m, p)) => r is Ok && final(namespaces)@ == m && final(axml_buff).at() == p,
            Err(f) => r == Err::<(), AxmlError>(error_of(f)) && final(namespaces)@ == old(namespaces)@,
        },
{
    match parse_start_namespace_checked(axml_buff, strings, namespaces) {
        Ok(v) => Ok(v),
        Err(Fault::Error(e)) => Err(e),
        Err(Fault::Abort(_)) => Err(AxmlError::IoError),
    }
}

/// Reading the end of a namespace whose type was read just before position
/// `p`: the header, line number, comment, prefix and URI (`u32` each),
/// none of which is kept.
pub open spec fn spec_end_namespace(s: Seq<u8>, p: nat) -> Result<((), nat), Fault> {
    if p < 2 {
        Err(Fault::Abort(Abort::PositionUnderflow))
    } else {
        match spec_chunk_header(s, (p - 2) as nat, ChunkType::ResXmlEndNamespaceType) {
            Err(f) => Err(f),
            Ok((_, p1)) => match spec_u32(s, p1) {
                Err(f) => Err(f),
                Ok((_line_number, p2)) => match spec_u32(s, p2) {
                    Err(f) => Err(f),
                    Ok((_comment, p3)) => match spec_u32(s, p3) {
                        Err(f) => Err(f),
                        Ok((_prefix, p4)) => match spec_u32(s, p4) {
                            Err(f) => Err(f),
                            Ok((_uri, p5)) => Ok(((), p5)),
                        },
                    },
                },
            },
        }
    }
}

/// Parse the end of a namepace, or give up
pub fn parse_end_namespace_checked(axml_buff: &mut ByteCursor, _strings: &[String]) -> (r: Result<(), Fault>)
    ensures
        final(axml_buff).bytes() == old(axml_buff).bytes(),
        agrees(r, final(axml_buff).at(), spec_end_namespace(old(axml_buff).bytes(), old(axml_buff).at())),
{
    // Go back 2 bytes, to account from the block type
    back_to_chunk_start(axml_buff)?;

    // Parse chunk header
    let _header = ChunkHeader::from_buff_checked(axml_buff, ChunkType::ResXmlEndNamespaceType)?;

    let _line_number = match axml_buff.read_u32_le() {
        Ok(v) => v,
        Err(e) => return Err(Fault::Error(e)),
    };
    let _comment = match axml_buff.read_u32_le() {
        Ok(v) => v,
        Err(e) => return Err(Fault::Error(e)),
    };
    let _prefix = match axml_buff.read_u32_le() {
        Ok(v) => v,
        Err(e) => return Err(Fault::Error(e)),
    };
    let _uri = match axml_buff.read_u32_le() {
        Ok(v) => v,
        Err(e) => return Err(Fault::Error(e)),
    };

    Ok(())
}

/// Parse the end of a namepace
pub fn parse_end_namespace(axml_buff: &mut ByteCursor, _strings: &[String]) -> (r: Result<(), AxmlError>)
    requires
        !gives_up(spec_end_namespace(old(axml_buff).bytes(), old(axml_buff).at())),
    ensures
        final(axml_buff).bytes() == old(axml_buff).bytes(),
        match spec_end_namespace(old(axml_buff).bytes(), old(axml_buff).at()) {
            Ok((_, p)) => r is Ok && final(axml_buff).at() == p,
            Err(f) => r == Err::<(), AxmlError>(error_of(f)),
        },
{
    match parse_end_namespace_checked(axml_buff, _strings) {
        Ok(v) => Ok(v),
        Err(Fault::Error(e)) => Err(e),
        Err(Fault::Abort(_)) => Err(AxmlError::IoError),
    }
}

/// The type of the root element: `manifest`
pub open spec fn manifest_name() -> Seq<char> {
    seq!['m', 'a', 'n', 'i', 'f', 'e', 's', 't']
}

/// Whether a list of elements forms a document: there is a root of type
/// `manifest` at position 0, every child of an element comes after it in
/// the list, every element but the root is the child of an element, and no
/// element is a child twice.
pub open spec fn tree_wf(nodes: Seq<ElementView>) -> bool {
    &&& nodes.len() >= 1
    &&& nodes[0].element_type == manifest_name()
    &&& forall|i: int, k: int|
        #![trigger nodes[i].children[k]]
        0 <= i < nodes.len() && 0 <= k < nodes[i].children.len() ==> i < nodes[i].children[k] < nodes.len()
    &&& forall|j: int| 0 < j < nodes.len() ==> #[trigger] has_parent(nodes, j)
    &&& forall|i1: int, k1: int, i2: int, k2: int|
        #![trigger nodes[i1].children[k1], nodes[i2].children[k2]]
        0 <= i1 < nodes.len() && 0 <= k1 < nodes[i1].children.len()
        && 0 <= i2 < nodes.len() && 0 <= k2 < nodes[i2].children.len()
        && nodes[i1].children[k1] == nodes[i2].children[k2] ==> i1 == i2 && k1 == k2
}

/// Some element has element `j` among its children
pub open spec fn has_parent(nodes: Seq<ElementView>, j: int) -> bool {
    exists|i: int, k: int| 0 <= i < nodes.len() && 0 <= k < nodes[i].children.len() && nodes[i].children[k] == j
}

/// Representation of the whole XML document
#[derive(Debug)]
pub struct Axml {
    /// The elements of the document, the root first
    nodes: Vec<XmlElement>,
}

impl View for Axml {
    type V = Seq<ElementView>;

    closed spec fn view(&self) -> Seq<ElementView> {
        Seq::new(self.nodes@.len(), |i: int| self.nodes@[i]@)
    }
}

impl Axml {
    #[verifier::type_invariant]
    closed spec fn inv(self) -> bool {
        tree_wf(self@)
    }

    /// The number of elements of the document
    pub fn len(&self) -> (n: usize)
        ensures
            n == self@.len(),
            tree_wf(self@),
    {
        proof {
            use_type_invariant(self);
        }
        self.nodes.len()
    }

    /// Get the root of the AXML document
    pub fn root(&self) -> (r: XmlNode)
        ensures
            r == 0,
            tree_wf(self@),
    {
        proof {
            use_type_invariant(self);
        }
        0
    }

    /// Get an element of the document
    pub fn node(&self, n: XmlNode) -> (r: &XmlElement)
        requires
            n < self@.len(),
        ensures
            r@ == self@[n as int],
            tree_wf(self@),
    {
        proof {
            use_type_invariant(self);
        }
        &self.nodes[n]
    }
}

/// The state of the parser between chunks
pub struct XmlState {
    /// Where the next chunk starts
    pub pos: nat,
    /// The strings of the string pools so far
    pub strings: Seq<Seq<char>>,
    /// The prefixes of the namespaces so far, by URI
    pub namespaces: Seq<(Seq<char>, Seq<char>)>,
    /// The elements so far
    pub nodes: Seq<ElementView>,
    /// The elements that have started and not yet ended, the innermost last
    pub stack: Seq<XmlNode>,
}

/// The state of the parser at the start of a document at `pos`: no strings
/// nor namespaces, and a root element `manifest` on the stack.
pub open spec fn initial_state(pos: nat) -> XmlState {
    XmlState {
        pos,
        strings: Seq::empty(),
        namespaces: Seq::empty(),
        nodes: seq![ElementView { element_type: manifest_name(), attributes: Seq::empty(), children: Seq::empty() }],
        stack: seq![0usize],
    }
}

/// The state after an element starts. A `manifest` element gives its
/// attributes to the innermost element; any other element becomes the last
/// child of the innermost element and the innermost element itself. Parsing
/// gives up when no element is open.
pub open spec fn spec_open_element(st: XmlState, e: ElementView, pos: nat) -> Result<XmlState, Fault> {
    if st.stack.len() == 0 {
        Err(Fault::Abort(Abort::EmptyElementStack))
    } else {
        let top = st.stack.last() as int;
        if e.element_type == manifest_name() {
            Ok(XmlState {
                pos,
                nodes: st.nodes.update(top, ElementView { attributes: e.attributes, ..st.nodes[top] }),
                ..st
            })
        } else {
            let n = st.nodes.len();
            Ok(XmlState {
                pos,
                nodes: st.nodes.update(top, ElementView { children: st.nodes[top].children.push(n as XmlNode), ..st.nodes[top] }).push(e),
                stack: st.stack.push(n as XmlNode),
                ..st
            })
        }
    }
}

/// One step of the parser: reading the chunk at `st.pos`. `None` when no
/// chunk type can be read there, which ends the document.
#[verifier::opaque]
pub open spec fn spec_xml_step(s: Seq<u8>, st: XmlState) -> Result<Option<XmlState>, Fault> {
    match spec_block_type(s, st.pos) {
        Err(_) => Ok(None),
        Ok((t, p1)) => match t {
            ChunkType::ResNullType => Ok(Some(XmlState { pos: p1, ..st })),
            ChunkType::ResStringPoolType => match spec_string_pool(s, p1) {
                Err(f) => Err(f),
                Ok((pool, p2)) => Ok(Some(XmlState { pos: p2, strings: st.strings + pool.strings, ..st })),
            },
            ChunkType::ResTableType => match spec_res_table(s, st.pos) {
                Err(f) => Err(f),
                Ok((_, p2)) => Ok(Some(XmlState { pos: p2, ..st })),
            },
            ChunkType::ResXmlType => match spec_chunk_header(s, st.pos, ChunkType::ResXmlType) {
                Err(f) => Err(f),
                Ok((_, p2)) => Ok(Some(XmlState { pos: p2, ..st })),
            },
            ChunkType::ResXmlStartNamespaceType => match spec_start_namespace(s, p1, st.strings, st.namespaces) {
                Err(f) => Err(f),
                Ok((namespaces, p2)) => Ok(Some(XmlState { pos: p2, namespaces, ..st })),
            },
            ChunkType::ResXmlEndNamespaceType => match spec_end_namespace(s, p1) {
                Err(f) => Err(f),
                Ok((_, p2)) => Ok(Some(XmlState { pos: p2, ..st })),
            },
            ChunkType::ResXmlStartElementType => match spec_start_element(s, p1, st.strings, st.namespaces) {
                Err(f) => Err(f),
                Ok((e, p2)) => match spec_open_element(st, e, p2) {
                    Err(f) => Err(f),
                    Ok(next) => Ok(Some(next)),
                },
            },
            ChunkType::ResXmlEndElementType => match spec_end_element(s, p1, st.strings) {
                Err(f) => Err(f),
                Ok((_, p2)) => Ok(Some(XmlState {
                    pos: p2,
                    stack: if st.stack.len() > 0 { st.stack.drop_last() } else { st.stack },
                    ..st
                })),
            },
            ChunkType::ResXmlResourceMapType => match spec_resource_map(s, p1) {
                Err(f) => Err(f),
                Ok((_, p2)) => Ok(Some(XmlState { pos: p2, ..st })),
            },
            _ => Ok(Some(XmlState { pos: p1, ..st })),
        },
    }
}

/// How far the parser at position `pos` is from the end of the bytes
pub open spec fn distance_to_end(s: Seq<u8>, pos: nat) -> nat {
    if pos <= s.len() {
        (s.len() - pos) as nat
    } else {
        0
    }
}

/// Parsing a document from state `st`: the elements, once no chunk type can
/// be read. Parsing gives up where a chunk leads back to or before its own
/// start, on which it would not end.
pub open spec fn spec_xml_run(s: Seq<u8>, st: XmlState) -> Result<Seq<ElementView>, Fault>
    decreases distance_to_end(s, st.pos),
{
    match spec_xml_step(s, st) {
        Err(f) => Err(f),
        Ok(None) => Ok(st.nodes),
        Ok(Some(next)) => if st.pos < next.pos && st.pos < s.len() {
            spec_xml_run(s, next)
        } else {
            Err(Fault::Abort(Abort::NoProgress))
        },
    }
}

/// Parsing a whole document whose bytes are `s`, from position `pos`
pub open spec fn spec_parse_xml(s: Seq<u8>, pos: nat) -> Result<Seq<ElementView>, Fault> {
    spec_xml_run(s, initial_state(pos))
} 

/// A resource map chunk is skipped whole: where the parser meets a resource
/// map (chunk type `0x0180`) with an 8-byte header, a chunk size `cs` that
/// holds whole identifiers, and all of its bytes present, the step ends
/// exactly `cs` bytes further and changes nothing else, so parsing goes on
/// after the map as if it were not there.
pub proof fn lemma_resource_map_skipped(s: Seq<u8>, st: XmlState)
    requires
        st.pos + 8 <= s.len(),
        le_u16(s[st.pos as int], s[st.pos as int + 1]) == 0x0180,
        le_u16(s[st.pos as int + 2], s[st.pos as int + 3]) == 8,
        ({
            let cs = le_u32(s[st.pos as int + 4], s[st.pos as int + 5], s[st.pos as int + 6], s[st.pos as int + 7]);
            &&& cs >= 8
            &&& (cs - 8) % 4 == 0
            &&& st.pos + cs <= s.len()
        }),
    ensures
        ({
            let cs = le_u32(s[st.pos as int + 4], s[st.pos as int + 5], s[st.pos as int + 6], s[st.pos as int + 7]);
            let next = XmlState { pos: (st.pos + cs) as nat, ..st };
            &&& spec_xml_step(s, st) == Ok::<Option<XmlState>, Fault>(Some(next))
            &&& spec_xml_run(s, st) == spec_xml_run(s, next)
        }),
{
    reveal(spec_xml_step);
    let cs = le_u32(s[st.pos as int + 4], s[st.pos as int + 5], s[st.pos as int + 6], s[st.pos as int + 7]);
    lemma_resource_map_read_whole(s, st.pos as int);
    assert(spec_chunk_type(0x0180) == Some(ChunkType::ResXmlResourceMapType));
    assert(spec_block_type(s, st.pos) == Ok::<(ChunkType, nat), Fault>((ChunkType::ResXmlResourceMapType, st.pos + 2)));
    let next = XmlState { pos: (st.pos + cs) as nat, ..st };
    assert(spec_xml_step(s, st) == Ok::<Option<XmlState>, Fault>(Some(next)));
}

/// Opening an element keeps a document well formed
pub proof fn lemma_open_element_wf(st: XmlState, e: ElementView, pos: nat)
    requires
        tree_wf(st.nodes),
        forall|k: int| 0 <= k < st.stack.len() ==> st.stack[k] < st.nodes.len(),
        e.children.len() == 0,
        st.nodes.len() <= usize::MAX,
    ensures
        spec_open_element(st, e, pos) matches Ok(next) ==> {
            &&& tree_wf(next.nodes)
            &&& forall|k: int| 0 <= k < next.stack.len() ==> next.stack[k] < next.nodes.len()
        },
{
    if st.stack.len() > 0 {
        let top = st.stack.last() as int;
        let next = spec_open_element(st, e, pos)->Ok_0;
        let old_nodes = st.nodes;
        let nodes = next.nodes;
        assert(nodes[0].element_type == old_nodes[0].element_type);
        if e.element_type == manifest_name() {
            assert forall|i: int| 0 <= i < nodes.len() implies #[trigger] nodes[i].children == old_nodes[i].children by {}
            assert forall|j: int| 0 < j < nodes.len() implies #[trigger] has_parent(nodes, j) by {
                assert(has_parent(old_nodes, j));
                let (i, k) = choose|i: int, k: int| 0 <= i < old_nodes.len() && 0 <= k < old_nodes[i].children.len() && old_nodes[i].children[k] == j;
                assert(nodes[i].children[k] == j);
            }
        } else {
            let n = old_nodes.len();
            assert forall|i: int| 0 <= i < n && i != top implies #[trigger] nodes[i].children == old_nodes[i].children by {}
            assert(nodes[top].children == old_nodes[top].children.push(n as XmlNode));
            assert(nodes[n as int].children.len() == 0);
            assert forall|i: int, k: int|
                0 <= i < nodes.len() && 0 <= k < nodes[i].children.len() implies i < #[trigger] nodes[i].children[k] < nodes.len() by {
                if i < n && !(i == top && k == old_nodes[top].children.len()) {
                    assert(nodes[i].children[k] == old_nodes[i].children[k]);
                }
            }
            assert forall|j: int| 0 < j < nodes.len() implies #[trigger] has_parent(nodes, j) by {
                if j == n {
                    assert(nodes[top].children[old_nodes[top].children.len() as int] == j);
                } else {
                    assert(has_parent(old_nodes, j));
                    let (i, k) = choose|i: int, k: int| 0 <= i < old_nodes.len() && 0 <= k < old_nodes[i].children.len() && old_nodes[i].children[k] == j;
                    assert(nodes[i].children[k] == j);
                }
            }
            assert forall|i1: int, k1: int, i2: int, k2: int|
                0 <= i1 < nodes.len() && 0 <= k1 < nodes[i1].children.len()
                && 0 <= i2 < nodes.len() && 0 <= k2 < nodes[i2].children.len()
                && #[trigger] nodes[i1].children[k1] == #[trigger] nodes[i2].children[k2] implies i1 == i2 && k1 == k2 by {
                let new1 = i1 == top && k1 == old_nodes[top].children.len();
                let new2 = i2 == top && k2 == old_nodes[top].children.len();
                if !new1 {
                    assert(nodes[i1].children[k1] == old_nodes[i1].children[k1]);
                }
                if !new2 {
                    assert(nodes[i2].children[k2] == old_nodes[i2].children[k2]);
                }
            }
        }
    }
}

/// The views of a list of elements
pub open spec fn nodes_view(nodes: Seq<XmlElement>) -> Seq<ElementView> {
    Seq::new(nodes.len(), |i: int| nodes[i]@)
}

/// The parser's state in the making
struct Builder {
    strings: Vec<String>,
    namespaces: StringMap,
    nodes: Vec<XmlElement>,
    stack: Vec<XmlNode>,
}

impl Builder {
    /// The state of the parser, with the next chunk at `pos`
    closed spec fn state(&self, pos: nat) -> XmlState {
        XmlState {
            pos,
            strings: self.strings.deep_view(),
            namespaces: self.namespaces@,
            nodes: nodes_view(self.nodes@),
            stack: self.stack@,
        }
    }

    /// The elements form a document, and the stack holds elements of it
    closed spec fn wf(&self) -> bool {
        &&& tree_wf(nodes_view(self.nodes@))
        &&& forall|k: int| 0 <= k < self.stack@.len() ==> self.stack@[k] < self.nodes@.len()
    }

    /// Start an element
    fn open_element(&mut self, e: XmlElement, pos: Ghost<nat>) -> (r: Result<(), Fault>)
        requires
            old(self).wf(),
            e@.children.len() == 0,
        ensures
            match spec_open_element(old(self).state(pos@), e@, pos@) {
                Ok(next) => r is Ok && final(self).state(pos@) == next && final(self).wf(),
                Err(f) => r == Err::<(), Fault>(f),
            },
    {
        let _node_count = self.nodes.len();
        proof {
            lemma_open_element_wf(self.state(pos@), e@, pos@);
        }
        let ghost old_nodes = self.nodes@;
        let ghost ev = e@;
        let len = self.stack.len();
        if len == 0 {
            return Err(Fault::Abort(Abort::EmptyElementStack));
        }
        let top = self.stack[len - 1];
        let manifest = String::from_str("manifest");
        proof {
            reveal_strlit("manifest");
            assert(manifest@ =~= manifest_name());
        }
        if e.element_type == manifest {
            let mut nodes: Vec<XmlElement> = Vec::new();
            std::mem::swap(&mut nodes, &mut self.nodes);
            nodes[top].attributes = e.attributes;
            std::mem::swap(&mut nodes, &mut self.nodes);
            proof {
                let expected = spec_open_element(old(self).state(pos@), ev, pos@)->Ok_0;
                assert(nodes_view(self.nodes@) =~= expected.nodes);
            }
        } else {
            let n = self.nodes.len();
            let mut nodes: Vec<XmlElement> = Vec::new();
            std::mem::swap(&mut nodes, &mut self.nodes);
            nodes[top].children.push(n);
            nodes.push(e);
            std::mem::swap(&mut nodes, &mut self.nodes);
            self.stack.push(n);
            proof {
                let expected = spec_open_element(old(self).state(pos@), ev, pos@)->Ok_0;
                assert(nodes_view(self.nodes@) =~= expected.nodes);
            }
        }
        Ok(())
    }
}

impl Builder {
    /// Parse the chunk at the cursor
    fn step(&mut self, axml_cursor: &mut ByteCursor) -> (r: Result<bool, Fault>)
        requires
            old(self).wf(),
        ensures
            final(axml_cursor).bytes() == old(axml_cursor).bytes(),
            match spec_xml_step(old(axml_cursor).bytes(), old(self).state(old(axml_cursor).at())) {
                Err(f) => r == Err::<bool, Fault>(f),
                Ok(None) => r == Ok::<bool, Fault>(false) && final(self).state(old(axml_cursor).at()) == old(self).state(old(axml_cursor).at()) && final(self).wf(),
                Ok(Some(next)) => r == Ok::<bool, Fault>(true) && final(self).state(final(axml_cursor).at()) == next
                    && final(self).wf() && old(axml_cursor).at() < old(axml_cursor).bytes().len(),
            },
    {
        reveal(spec_xml_step);
        let ghost s = axml_cursor.bytes();
        let ghost p0 = axml_cursor.at();
        let block_type = match ChunkType::parse_block_type(axml_cursor) {
            Ok(t) => t,
            Err(_) => return Ok(false),
        };
        match block_type {
            ChunkType::ResNullType => {},
            ChunkType::ResStringPoolType => {
                let ghost p1 = axml_cursor.at();
                StringPool::from_buff_checked(axml_cursor, &mut self.strings)?;
                proof {
                    lemma_pool_own_strings(s, p1);
                }
            },
            ChunkType::ResTableType => {
                let position = axml_cursor.position();
                axml_cursor.set_position(position - 2);
                ResTable::parse_checked(axml_cursor)?;
            },
            ChunkType::ResXmlType => {
                let position = axml_cursor.position();
                axml_cursor.set_position(position - 2);
                ChunkHeader::from_buff_checked(axml_cursor, ChunkType::ResXmlType)?;
            },
            ChunkType::ResXmlStartNamespaceType => {
                parse_start_namespace_checked(axml_cursor, self.strings.as_slice(), &mut self.namespaces)?;
            },
            ChunkType::ResXmlEndNamespaceType => {
                parse_end_namespace_checked(axml_cursor, self.strings.as_slice())?;
            },
            ChunkType::ResXmlStartElementType => {
                let element = parse_start_element_checked(axml_cursor, self.strings.as_slice(), &self.namespaces)?;
                self.open_element(element, Ghost(axml_cursor.at()))?;
            },
            ChunkType::ResXmlEndElementType => {
                parse_end_element_checked(axml_cursor, self.strings.as_slice())?;
                self.stack.pop();
            },
            ChunkType::ResXmlResourceMapType => {
                ResourceMap::from_buff_checked(axml_cursor)?;
            },
            _ => {},
        }
        Ok(true)
    }
}

/// Parse a whole XML document from the cursor's position, or give up
pub fn parse_xml_checked(axml_cursor: ByteCursor) -> (r: Result<Axml, Fault>)
    ensures
        match spec_parse_xml(axml_cursor.bytes(), axml_cursor.at()) {
            Ok(nodes) => r is Ok && r->Ok_0@ == nodes,
            Err(f) => r == Err::<Axml, Fault>(f),
        },
{
    let ghost s = axml_cursor.bytes();
    let ghost p0 = axml_cursor.at();
    let mut cursor = axml_cursor;
    let root = XmlElement {
        element_type: String::from_str("manifest"),
        attributes: StringMap::new(),
        children: Vec::new(),
    };
    proof {
        reveal_strlit("manifest");
        assert(root@.element_type =~= manifest_name());
        assert(root@.children =~= Seq::<XmlNode>::empty());
        assert(root@ == initial_state(p0).nodes[0]);
    }
    let mut builder = Builder {
        strings: Vec::new(),
        namespaces: StringMap::new(),
        nodes: vec![root],
        stack: vec![0],
    };
    proof {
        reveal_strlit("manifest");
        let st = builder.state(p0);
        assert(st.strings =~= Seq::<Seq<char>>::empty());
        assert(st.nodes =~= initial_state(p0).nodes);
        assert(st.stack =~= initial_state(p0).stack);
        assert(st == initial_state(p0));
        assert(builder.wf());
    }

    loop
        invariant
            cursor.bytes() == s,
            s == axml_cursor.bytes(),
            p0 == axml_cursor.at(),
            builder.wf(),
            spec_parse_xml(s, p0) == spec_xml_run(s, builder.state(cursor.at())),
        decreases distance_to_end(s, cursor.at()),
    {
        let position = cursor.position();
        let ghost st = builder.state(cursor.at());
        match builder.step(&mut cursor) {
            Err(f) => return Err(f),
            Ok(false) => {
                proof {
                    assert(spec_xml_run(s, st) == Ok::<Seq<ElementView>, Fault>(st.nodes));
                }
                let doc = Axml { nodes: builder.nodes };
                proof {
                    assert(doc@ =~= st.nodes);
                }
                return Ok(doc);
            },
            Ok(true) => {
                if cursor.position() <= position {
                    return Err(Fault::Abort(Abort::NoProgress));
                }
            },
        }
    }
}

/// Parse a whole XML document from the cursor's position
pub fn parse_xml(axml_cursor: ByteCursor) -> (r: Result<Axml, AxmlError>)
    requires
        !gives_up(spec_parse_xml(axml_cursor.bytes(), axml_cursor.at())),
    ensures
        match spec_parse_xml(axml_cursor.bytes(), axml_cursor.at()) {
            Ok(nodes) => r is Ok && r->Ok_0@ == nodes,
            Err(f) => r == Err::<Axml, AxmlError>(error_of(f)),
        },
{
    match parse_xml_checked(axml_cursor) {
        Ok(doc) => Ok(doc),
        Err(Fault::Error(e)) => Err(e),
        Err(Fault::Abort(_)) => Err(AxmlError::IoError),
    }
}

/// The elements of the subtree of element `i` in the order in which the
/// iterator visits them: `i` first, then the subtrees of its children, the
/// last child first.
pub open spec fn dfs_from(nodes: Seq<ElementView>, i: int) -> Seq<XmlNode>
    decreases nodes.len() - i, 1int, 0int,
{
    if 0 <= i < nodes.len() {
        seq![i as XmlNode] + dfs_list(nodes, nodes[i].children, i)
    } else {
        Seq::empty()
    }
}

/// The subtrees of the children `cs` of element `parent`, the last child first
pub open spec fn dfs_list(nodes: Seq<ElementView>, cs: Seq<XmlNode>, parent: int) -> Seq<XmlNode>
    decreases nodes.len() - parent, 0int, cs.len(),
{
    if cs.len() == 0 {
        Seq::empty()
    } else {
        let c = cs.last() as int;
        (if parent < c < nodes.len() {
            dfs_from(nodes, c)
        } else {
            Seq::empty()
        }) + dfs_list(nodes, cs.drop_last(), parent)
    }
}

/// The elements that a stack of subtrees holds, the top of the stack first
pub open spec fn dfs_stack(nodes: Seq<ElementView>, stack: Seq<XmlNode>) -> Seq<XmlNode>
    decreases stack.len(),
{
    if stack.len() == 0 {
        Seq::empty()
    } else {
        dfs_from(nodes, stack.last() as int) + dfs_stack(nodes, stack.drop_last())
    }
}

/// The order in which iterating over a document visits its elements
pub open spec fn dfs_order(nodes: Seq<ElementView>) -> Seq<XmlNode> {
    dfs_from(nodes, 0)
}

/// Pushing the children of an element onto the stack puts their subtrees on top
proof fn lemma_push_children(nodes: Seq<ElementView>, rest: Seq<XmlNode>, cs: Seq<XmlNode>, parent: int)
    requires
        forall|k: int| 0 <= k < cs.len() ==> parent < #[trigger] cs[k] < nodes.len(),
    ensures
        dfs_stack(nodes, rest + cs) == dfs_list(nodes, cs, parent) + dfs_stack(nodes, rest),
    decreases cs.len(),
{
    if cs.len() == 0 {
        assert(rest + cs =~= rest);
    } else {
        let c = cs.last();
        assert((rest + cs).drop_last() =~= rest + cs.drop_last());
        assert((rest + cs).last() == c);
        lemma_push_children(nodes, rest, cs.drop_last(), parent);
        assert(dfs_list(nodes, cs, parent) == dfs_from(nodes, c as int) + dfs_list(nodes, cs.drop_last(), parent));
        assert(dfs_stack(nodes, rest + cs) =~= dfs_list(nodes, cs, parent) + dfs_stack(nodes, rest));
    }
}

/// Iterator over an AXML doc
///
/// Iterates through all of the parsed AXML doc elements using depth-first search
pub struct AxmlIterator<'a> {
    /// The document
    axml: &'a Axml,
    /// Stack of nodes for depth-first traversal
    stack: Vec<XmlNode>,
}

impl<'a> AxmlIterator<'a> {
    #[verifier::type_invariant]
    closed spec fn inv(self) -> bool {
        &&& tree_wf(self.axml@)
        &&& forall|k: int| 0 <= k < self.stack@.len() ==> #[trigger] self.stack@[k] < self.axml@.len()
    }

    /// The document iterated over
    pub closed spec fn doc(&self) -> Seq<ElementView> {
        self.axml@
    }

    /// The elements that the iterator has yet to give, in order
    pub closed spec fn remaining(&self) -> Seq<XmlNode> {
        dfs_stack(self.axml@, self.stack@)
    }

    /// The next element of the document
    pub fn next(&mut self) -> (r: Option<XmlNode>)
        ensures
            final(self).doc() == old(self).doc(),
            old(self).remaining().len() == 0 ==> r is None && final(self).remaining() == old(self).remaining(),
            old(self).remaining().len() > 0 ==> r == Some(old(self).remaining()[0])
                && final(self).remaining() == old(self).remaining().drop_first(),
            r matches Some(n) ==> n < old(self).doc().len(),
    {
        proof {
            use_type_invariant(&*self);
        }
        let ghost nodes = self.axml@;
        let ghost before = self.stack@;
        let mut stack: Vec<XmlNode> = Vec::new();
        std::mem::swap(&mut stack, &mut self.stack);
        match stack.pop() {
            Some(node) => {
                let ghost rest = stack@;
                let children = self.axml.node(node).children();
                proof {
                    assert(before.drop_last() == rest);
                    assert(forall|k: int| 0 <= k < children@.len() ==> node < #[trigger] children@[k] < nodes.len());
                }
                let mut k: usize = 0;
                while k < children.len()
                    invariant
                        k <= children@.len(),
                        stack@ == rest + children@.take(k as int),
                        forall|j: int| 0 <= j < rest.len() ==> #[trigger] rest[j] < nodes.len(),
                        forall|j: int| 0 <= j < children@.len() ==> node < #[trigger] children@[j] < nodes.len(),
                    decreases children.len() - k,
                {
                    stack.push(children[k]);
                    proof {
                        assert(children@.take(k + 1) =~= children@.take(k as int).push(children@[k as int]));
                    }
                    k = k + 1;
                }
                proof {
                    assert(children@.take(children@.len() as int) =~= children@);
                    lemma_push_children(nodes, rest, children@, node as int);
                    assert(dfs_from(nodes, node as int) == seq![node] + dfs_list(nodes, nodes[node as int].children, node as int));
                    assert(dfs_stack(nodes, before) =~= seq![node] + dfs_stack(nodes, stack@));
                    assert forall|j: int| 0 <= j < stack@.len() implies #[trigger] stack@[j] < nodes.len() by {
                        if j >= rest.len() {
                            assert(stack@[j] == children@[j - rest.len()]);
                        }
                    }
                }
                std::mem::swap(&mut stack, &mut self.stack);
                proof {
                    assert(self.remaining() =~= dfs_stack(nodes, before).drop_first());
                }
                Some(node)
            },
            None => {
                std::mem::swap(&mut stack, &mut self.stack);
                None
            },
        }
    }
}

impl Axml {
    /// Returns a non-consuming iterator over the AXML doc elements
    pub fn iter(&self) -> (it: AxmlIterator)
        ensures
            it.doc() == self@,
            it.remaining() == dfs_order(self@),
    {
        proof {
            use_type_invariant(self);
        }
        let it = AxmlIterator { axml: self, stack: vec![0] };
        proof {
            let st = it.stack@;
            assert(st.len() == 1 && st[0] == 0);
            assert(st.drop_last() =~= Seq::<XmlNode>::empty());
            assert(dfs_stack(self@, st.drop_last()) == Seq::<XmlNode>::empty());
            assert(dfs_stack(self@, st) == dfs_from(self@, 0) + Seq::<XmlNode>::empty());
            assert(it.remaining() =~= dfs_order(self@));
        }
        it
    }
}

} // verus!
