//! String pool
//!
//! The string pool is the set of strings used in the AXML files. All
//! of these strings can be then referenced by the chunks. This reduces
//! the size of the binary XML as there is no duplication of strings
//! anymore.

use vstd::prelude::*;
use vstd::utf8::{valid_utf8, decode_utf8};
use crate::chunks::chunk_header::{ChunkHeader, spec_chunk_header};
use crate::chunks::chunk_types::ChunkType;
use crate::cursor::{ByteCursor, spec_u8, spec_u16, spec_u32, spec_take, spec_repeat,
    lemma_repeat_fault_persists, lemma_repeat_len, agrees, agrees_view, gives_up, error_of};
use crate::errors::{Abort, AxmlError, Fault};
use crate::unicode::{utf16_decode, decode_utf16_units, string_from_utf8};

verus! {

/// Reference to a string in a string pool.
#[allow(non_camel_case_types)]
#[derive(Debug, Clone, Copy, PartialEq, Eq, Hash, Structural)]
pub struct ResStringPool_ref {
    /// Index into the string pool table (uint32_t-offset from the indices
    /// immediately after ResStringPool_header) at which to find the location
    /// of the string data in the pool.
    pub index: u32,
}

/// String pool span
///
/// This structure defines a span of style information associated
/// with a string in the pool.
#[derive(Debug, Clone, Copy, PartialEq, Eq, Structural)]
pub struct StringPoolSpan {
    /// Name of the span
    ///
    /// This is the name of the XML tag that defined it.
    /// There is a special value END (0xFFFFFFFF) that indicates the
    /// end of an array of spans.
    pub name: ResStringPool_ref,

    /// The first of the characters in the string that this span applies to
    pub first_char: u32,

    /// The last of the characters in the string that this span applies to
    pub last_char: u32,
}

/// String pool structure
///
/// The data of the string pool is an array of `u32` that provides the
/// indices in the pool. The pool itself is located at `strings_start`
/// offset. Each item of the pool is composed of:
///      - the string length (16 bits, more details below)
///      - the string (in UTF-16 format)
///      - a terminator (`0x0000`)
///
/// The length is 16 bits long, but the system only uses 15 bits,
/// which means that the maximum length of a string is 32,676
/// characters. If a string has more than 32767 characters, the high
/// bit of the length is set and the 15 remaining bits represent the
/// high word of the total length. In this case, the length will be
/// immediately followed by another 16 bits which represent the low
/// end of the string length. This means the format allows for string
/// lengths up to 2,147,483,648 characters.
///
/// If `style_count` is not zero, then immediately following the array
/// of indices into the string table is another array of indices into
/// a style table starting at `styles_start`. Each entry in the style
/// table is an array of `string_pool_span` structures.
#[derive(Debug)]
pub struct StringPool {
    /// Chunk header
    pub header: ChunkHeader,

    /// Number of strings in this pool (that is, number of `u32`
    /// indices that follow in the data)
    pub string_count: u32,

    /// Number of style span arrays in the pool (that is, number
    /// of `u32` indices follow the string indices)
    pub style_count: u32,

    /// Flags. There are two possible flags:
    ///     - `is_sorted`: if set, the string pool is sorted by
    ///       UTF-16 string values
    ///     - `is_utf8`: if set, the string pool is encoded in
    ///       UTF-8 and not UTF-16
    pub is_sorted: bool,
    pub is_utf8: bool,

    /// Offset from the header to the string data
    pub strings_start: u32,

    /// Offset from the header to the style data
    pub styles_start: u32,

    /// List of strings offsets
    pub strings_offsets: Vec<u32>,

    /// List of styles offsets
    pub styles_offsets: Vec<u32>,

    /// The strings from the pool
    pub strings: Vec<String>,

    /// The styles from the pool
    pub styles: Vec<StringPoolSpan>,
}

/// A string pool, as plain values
pub struct StringPoolView {
    pub header: ChunkHeader,
    pub string_count: u32,
    pub style_count: u32,
    pub is_sorted: bool,
    pub is_utf8: bool,
    pub strings_start: u32,
    pub styles_start: u32,
    pub strings_offsets: Seq<u32>,
    pub styles_offsets: Seq<u32>,
    pub strings: Seq<Seq<char>>,
    pub styles: Seq<StringPoolSpan>,
}

impl View for StringPool {
    type V = StringPoolView;

    open spec fn view(&self) -> StringPoolView {
        StringPoolView {
            header: self.header,
            string_count: self.string_count,
            style_count: self.style_count,
            is_sorted: self.is_sorted,
            is_utf8: self.is_utf8,
            strings_start: self.strings_start,
            styles_start: self.styles_start,
            strings_offsets: self.strings_offsets@,
            styles_offsets: self.styles_offsets@,
            strings: self.strings.deep_view(),
            styles: self.styles@,
        }
    }
}

/// Whether the flags mark the pool as sorted: bit 0
pub open spec fn flag_sorted(flags: u32) -> bool {
    flags % 2 == 1
}

/// Whether the flags mark the pool as UTF-8: bit 8
pub open spec fn flag_utf8(flags: u32) -> bool {
    (flags / 256) % 2 == 1
}

/// Reading one `u32`
pub open spec fn u32_item(s: Seq<u8>) -> spec_fn(nat, nat) -> Result<(u32, nat), Fault> {
    |k: nat, q: nat| spec_u32(s, q)
}

/// Reading one `u16`
pub open spec fn u16_item(s: Seq<u8>) -> spec_fn(nat, nat) -> Result<(u16, nat), Fault> {
    |k: nat, q: nat| spec_u16(s, q)
}

/// The fixed part of a string pool: its header, counts, flags, starts and
/// the offsets of its strings and styles; `base` is where the chunk starts.
pub struct PoolHead {
    pub header: ChunkHeader,
    pub string_count: u32,
    pub style_count: u32,
    pub flags: u32,
    pub strings_start: u32,
    pub styles_start: u32,
    pub strings_offsets: Seq<u32>,
    pub styles_offsets: Seq<u32>,
    pub base: u32,
}

/// Reading the fixed part of a string pool whose type was read just before
/// position `p`. The chunk starts two bytes before `p`; its offset is kept
/// in 32 bits.
pub open spec fn spec_pool_head(s: Seq<u8>, p: nat) -> Result<(PoolHead, nat), Fault> {
    if p < 2 {
        Err(Fault::Abort(Abort::PositionUnderflow))
    } else {
        let initial = (p - 2) as nat;
        match spec_chunk_header(s, initial, ChunkType::ResStringPoolType) {
            Err(f) => Err(f),
            Ok((header, p1)) => match spec_u32(s, p1) {
                Err(f) => Err(f),
                Ok((string_count, p2)) => match spec_u32(s, p2) {
                    Err(f) => Err(f),
                    Ok((style_count, p3)) => match spec_u32(s, p3) {
                        Err(f) => Err(f),
                        Ok((flags, p4)) => match spec_u32(s, p4) {
                            Err(f) => Err(f),
                            Ok((strings_start, p5)) => match spec_u32(s, p5) {
                                Err(f) => Err(f),
                                Ok((styles_start, p6)) => match spec_repeat(u32_item(s), p6, string_count as nat) {
                                    Err(f) => Err(f),
                                    Ok((strings_offsets, p7)) => match spec_repeat(u32_item(s), p7, style_count as nat) {
                                        Err(f) => Err(f),
                                        Ok((styles_offsets, p8)) => Ok((PoolHead {
                                            header,
                                            string_count,
                                            style_count,
                                            flags,
                                            strings_start,
                                            styles_start,
                                            strings_offsets,
                                            styles_offsets,
                                            base: (initial % 0x1_0000_0000) as u32,
                                        }, p8)),
                                    },
                                },
                            },
                        },
                    },
                },
            },
        }
    }
}

/// Where an entry at `offset` from `start` (the strings start or the styles
/// start) lies; the sum with the chunk's own offset must fit in 32 bits
pub open spec fn entry_address(h: PoolHead, start: u32, offset: u32) -> Result<nat, Fault> {
    let a = h.base + start + offset;
    if a > u32::MAX {
        Err(Fault::Abort(Abort::OffsetOverflow))
    } else {
        Ok(a as nat)
    }
}

/// Reading a length of one or two bytes: with the high bit of the first
/// byte set, its other 7 bits are the high byte and the next byte the low byte.
pub open spec fn spec_utf8_length(s: Seq<u8>, p: nat) -> Result<(nat, nat), Fault> {
    match spec_u8(s, p) {
        Err(f) => Err(f),
        Ok((b1, p1)) => if b1 >= 0x80 {
            match spec_u8(s, p1) {
                Err(f) => Err(f),
                Ok((b2, p2)) => Ok((((b1 - 0x80) * 256 + b2) as nat, p2)),
            }
        } else {
            Ok((b1 as nat, p1))
        },
    }
}

/// Reading a UTF-8 entry at position `p`: its length in characters, its
/// length in bytes, at most that many bytes (fewer at the end of the data),
/// and a terminating byte.
pub open spec fn spec_utf8_entry(s: Seq<u8>, p: nat) -> Result<(Seq<char>, nat), Fault> {
    match spec_utf8_length(s, p) {
        Err(f) => Err(f),
        Ok((_char_count, p1)) => match spec_utf8_length(s, p1) {
            Err(f) => Err(f),
            Ok((byte_len, p2)) => {
                let bytes = spec_take(s, p2, byte_len);
                if !valid_utf8(bytes) {
                    Err(Fault::Error(AxmlError::Utf8StringDecodeError))
                } else {
                    match spec_u8(s, p2 + bytes.len()) {
                        Err(f) => Err(f),
                        Ok((_, p3)) => Ok((decode_utf8(bytes), p3)),
                    }
                }
            },
        },
    }
}

/// Reading a length of one or two `u16` words: with the high bit of the
/// first word set, its other 15 bits are the high word and the next word
/// the low word.
pub open spec fn spec_utf16_length(s: Seq<u8>, p: nat) -> Result<(nat, nat), Fault> {
    match spec_u16(s, p) {
        Err(f) => Err(f),
        Ok((w1, p1)) => if w1 >= 0x8000 {
            match spec_u16(s, p1) {
                Err(f) => Err(f),
                Ok((w2, p2)) => Ok((((w1 - 0x8000) * 0x10000 + w2) as nat, p2)),
            }
        } else {
            Ok((w1 as nat, p1))
        },
    }
}

/// Reading a UTF-16 entry at position `p`: its length in code units, that
/// many units and a terminating unit.
pub open spec fn spec_utf16_entry(s: Seq<u8>, p: nat) -> Result<(Seq<char>, nat), Fault> {
    match spec_utf16_length(s, p) {
        Err(f) => Err(f),
        Ok((count, p1)) => if count > 0 {
            match spec_repeat(u16_item(s), p1, count) {
                Err(f) => Err(f),
                Ok((units, p2)) => match utf16_decode(units) {
                    None => Err(Fault::Error(AxmlError::Utf16DecodeError)),
                    Some(text) => match spec_u16(s, p2) {
                        Err(f) => Err(f),
                        Ok((_, p3)) => Ok((text, p3)),
                    },
                },
            }
        } else {
            match spec_u16(s, p1) {
                Err(f) => Err(f),
                Ok((_, p3)) => Ok((Seq::empty(), p3)),
            }
        },
    }
}

/// Reading string number `k` of the pool
pub open spec fn string_item(s: Seq<u8>, h: PoolHead) -> spec_fn(nat, nat) -> Result<(Seq<char>, nat), Fault> {
    |k: nat, q: nat| match entry_address(h, h.strings_start, h.strings_offsets[k as int]) {
        Err(f) => Err(f),
        Ok(a) => if flag_utf8(h.flags) {
            spec_utf8_entry(s, a)
        } else {
            spec_utf16_entry(s, a)
        },
    }
}

/// Reading a style span: name, first and last character (three `u32`)
pub open spec fn spec_span(s: Seq<u8>, p: nat) -> Result<(StringPoolSpan, nat), Fault> {
    match spec_u32(s, p) {
        Err(f) => Err(f),
        Ok((index, p1)) => match spec_u32(s, p1) {
            Err(f) => Err(f),
            Ok((first_char, p2)) => match spec_u32(s, p2) {
                Err(f) => Err(f),
                Ok((last_char, p3)) => Ok((StringPoolSpan { name: ResStringPool_ref { index }, first_char, last_char }, p3)),
            },
        },
    }
}

/// Reading style number `k` of the pool: its offset counts from the styles start.
pub open spec fn style_item(s: Seq<u8>, h: PoolHead) -> spec_fn(nat, nat) -> Result<(StringPoolSpan, nat), Fault> {
    |k: nat, q: nat| match entry_address(h, h.styles_start, h.styles_offsets[k as int]) {
        Err(f) => Err(f),
        Ok(a) => spec_span(s, a),
    }
}

/// The items that a repetition yields before its first fault; all of them when there is none.
pub open spec fn spec_repeat_prefix<T>(item: spec_fn(nat, nat) -> Result<(T, nat), Fault>, p: nat, n: nat) -> Seq<T>
    decreases n,
{
    if n == 0 {
        Seq::empty()
    } else {
        match spec_repeat(item, p, (n - 1) as nat) {
            Err(_) => spec_repeat_prefix(item, p, (n - 1) as nat),
            Ok((items, q)) => match item((n - 1) as nat, q) {
                Err(_) => items,
                Ok((v, _)) => items.push(v),
            },
        }
    }
}

/// Once a repetition has failed, no further item is yielded
pub proof fn lemma_repeat_prefix_after_fault<T>(item: spec_fn(nat, nat) -> Result<(T, nat), Fault>, p: nat, i: nat, n: nat)
    requires
        i <= n,
        spec_repeat(item, p, i) is Err,
    ensures
        spec_repeat_prefix(item, p, n) == spec_repeat_prefix(item, p, i),
    decreases n,
{
    if n > i {
        lemma_repeat_prefix_after_fault(item, p, i, (n - 1) as nat);
        lemma_repeat_fault_persists(item, p, i, (n - 1) as nat);
    }
}

/// Without a fault, the yielded items are those of the repetition
pub proof fn lemma_repeat_prefix_ok<T>(item: spec_fn(nat, nat) -> Result<(T, nat), Fault>, p: nat, n: nat)
    requires
        spec_repeat(item, p, n) is Ok,
    ensures
        spec_repeat(item, p, n) matches Ok((items, _)) && spec_repeat_prefix(item, p, n) == items,
{
    if n > 0 {
        match spec_repeat(item, p, (n - 1) as nat) {
            Err(_) => {},
            Ok(_) => {},
        }
    }
}

/// The strings that parsing a string pool at `p` decodes before it stops,
/// whether it succeeds or not
pub open spec fn spec_pool_new_strings(s: Seq<u8>, p: nat) -> Seq<Seq<char>> {
    match spec_pool_head(s, p) {
        Err(_) => Seq::empty(),
        Ok((h, q)) => spec_repeat_prefix(string_item(s, h), q, h.string_count as nat),
    }
}

/// Parsing a string pool whose type was read just before position `p`:
/// the pool holds the strings of this chunk only.
pub open spec fn spec_string_pool(s: Seq<u8>, p: nat) -> Result<(StringPoolView, nat), Fault> {
    match spec_pool_head(s, p) {
        Err(f) => Err(f),
        Ok((h, q)) => match spec_repeat(string_item(s, h), q, h.string_count as nat) {
            Err(f) => Err(f),
            Ok((strings, q2)) => match spec_repeat(style_item(s, h), q2, h.style_count as nat) {
                Err(f) => Err(f),
                Ok((styles, q3)) => Ok((StringPoolView {
                    header: h.header,
                    string_count: h.string_count,
                    style_count: h.style_count,
                    is_sorted: flag_sorted(h.flags),
                    is_utf8: flag_utf8(h.flags),
                    strings_start: h.strings_start,
                    styles_start: h.styles_start,
                    strings_offsets: h.strings_offsets,
                    styles_offsets: h.styles_offsets,
                    strings,
                    styles,
                }, q3)),
            },
        },
    }
}

/// A string pool that parses holds exactly the strings it appends to the
/// strings of earlier pools
pub proof fn lemma_pool_own_strings(s: Seq<u8>, p: nat)
    requires
        spec_string_pool(s, p) is Ok,
    ensures
        spec_string_pool(s, p)->Ok_0.0.strings == spec_pool_new_strings(s, p),
{
    let (h, q) = spec_pool_head(s, p)->Ok_0;
    lemma_repeat_prefix_ok(string_item(s, h), q, h.string_count as nat);
}

/// Read `n` little-endian `u32` values
#[verifier::loop_isolation(false)]
pub(crate) fn read_u32s(axml_buff: &mut ByteCursor, n: u32) -> (r: Result<Vec<u32>, Fault>)
    ensures
        final(axml_buff).bytes() == old(axml_buff).bytes(),
        agrees_view(r, final(axml_buff).at(), spec_repeat(u32_item(old(axml_buff).bytes()), old(axml_buff).at(), n as nat)),
{
    let ghost s = axml_buff.bytes();
    let ghost p0 = axml_buff.at();
    let mut out: Vec<u32> = Vec::new();
    let mut i: u32 = 0;
    while i < n
        invariant
            axml_buff.bytes() == s,
            i <= n,
            spec_repeat(u32_item(s), p0, i as nat) == Ok::<(Seq<u32>, nat), Fault>((out@, axml_buff.at())),
        decreases n - i,
    {
        match axml_buff.read_u32_le() {
            Ok(v) => out.push(v),
            Err(e) => {
                proof {
                    lemma_repeat_fault_persists(u32_item(s), p0, (i + 1) as nat, n as nat);
                }
                return Err(Fault::Error(e));
            },
        }
        i = i + 1;
    }
    Ok(out)
}

/// Read `n` little-endian `u16` values
#[verifier::loop_isolation(false)]
fn read_u16s(axml_buff: &mut ByteCursor, n: u32) -> (r: Result<Vec<u16>, Fault>)
    ensures
        final(axml_buff).bytes() == old(axml_buff).bytes(),
        agrees_view(r, final(axml_buff).at(), spec_repeat(u16_item(old(axml_buff).bytes()), old(axml_buff).at(), n as nat)),
{
    let ghost s = axml_buff.bytes();
    let ghost p0 = axml_buff.at();
    let mut out: Vec<u16> = Vec::new();
    let mut i: u32 = 0;
    while i < n
        invariant
            axml_buff.bytes() == s,
            i <= n,
            spec_repeat(u16_item(s), p0, i as nat) == Ok::<(Seq<u16>, nat), Fault>((out@, axml_buff.at())),
        decreases n - i,
    {
        match axml_buff.read_u16_le() {
            Ok(v) => out.push(v),
            Err(e) => {
                proof {
                    lemma_repeat_fault_persists(u16_item(s), p0, (i + 1) as nat, n as nat);
                }
                return Err(Fault::Error(e));
            },
        }
        i = i + 1;
    }
    Ok(out)
}

/// Read a length of one or two bytes
fn read_utf8_length(axml_buff: &mut ByteCursor) -> (r: Result<u16, Fault>)
    ensures
        final(axml_buff).bytes() == old(axml_buff).bytes(),
        match spec_utf8_length(old(axml_buff).bytes(), old(axml_buff).at()) {
            Ok((v, p)) => r == Ok::<u16, Fault>(v as u16) && v < 0x8000 && final(axml_buff).at() == p,
            Err(f) => r == Err::<u16, Fault>(f),
        },
{
    let b1 = match axml_buff.read_u8() {
        Ok(v) => v,
        Err(e) => return Err(Fault::Error(e)),
    };
    if b1 >= 0x80 {
        let b2 = match axml_buff.read_u8() {
            Ok(v) => v,
            Err(e) => return Err(Fault::Error(e)),
        };
        Ok(((b1 - 0x80) as u16) * 256 + b2 as u16)
    } else {
        Ok(b1 as u16)
    }
}

/// Read a UTF-8 entry
fn read_utf8_entry(axml_buff: &mut ByteCursor) -> (r: Result<String, Fault>)
    ensures
        final(axml_buff).bytes() == old(axml_buff).bytes(),
        agrees_view(r, final(axml_buff).at(), spec_utf8_entry(old(axml_buff).bytes(), old(axml_buff).at())),
{
    // Character count (unused), then byte length
    let _char_count = read_utf8_length(axml_buff)?;
    let byte_len = read_utf8_length(axml_buff)?;

    // Use byte_len to read the string data
    let str_buff = axml_buff.read_up_to(byte_len as u64);
    let decoded = match string_from_utf8(str_buff) {
        Some(text) => text,
        None => return Err(Fault::Error(AxmlError::Utf8StringDecodeError)),
    };
    // Consume the null terminator
    match axml_buff.read_u8() {
        Ok(_) => Ok(decoded),
        Err(e) => Err(Fault::Error(e)),
    }
}

/// Read a length of one or two `u16` words
fn read_utf16_length(axml_buff: &mut ByteCursor) -> (r: Result<u32, Fault>)
    ensures
        final(axml_buff).bytes() == old(axml_buff).bytes(),
        match spec_utf16_length(old(axml_buff).bytes(), old(axml_buff).at()) {
            Ok((v, p)) => r == Ok::<u32, Fault>(v as u32) && v < 0x8000_0000 && final(axml_buff).at() == p,
            Err(f) => r == Err::<u32, Fault>(f),
        },
{
    let w1 = match axml_buff.read_u16_le() {
        Ok(v) => v,
        Err(e) => return Err(Fault::Error(e)),
    };
    if w1 >= 0x8000 {
        let w2 = match axml_buff.read_u16_le() {
            Ok(v) => v,
            Err(e) => return Err(Fault::Error(e)),
        };
        Ok(((w1 - 0x8000) as u32) * 0x10000 + w2 as u32)
    } else {
        Ok(w1 as u32)
    }
}

/// Read a UTF-16 entry
fn read_utf16_entry(axml_buff: &mut ByteCursor) -> (r: Result<String, Fault>)
    ensures
        final(axml_buff).bytes() == old(axml_buff).bytes(),
        agrees_view(r, final(axml_buff).at(), spec_utf16_entry(old(axml_buff).bytes(), old(axml_buff).at())),
{
    let char_count = read_utf16_length(axml_buff)?;
    let decoded = if char_count > 0 {
        let units = read_u16s(axml_buff, char_count)?;
        match decode_utf16_units(units) {
            Some(text) => text,
            None => return Err(Fault::Error(AxmlError::Utf16DecodeError)),
        }
    } else {
        String::new()
    };
    // Consume the null terminator
    match axml_buff.read_u16_le() {
        Ok(_) => Ok(decoded),
        Err(e) => Err(Fault::Error(e)),
    }
}

/// The fixed part of a string pool, as read
struct PoolFixed {
    header: ChunkHeader,
    string_count: u32,
    style_count: u32,
    flags: u32,
    strings_start: u32,
    styles_start: u32,
    strings_offsets: Vec<u32>,
    styles_offsets: Vec<u32>,
    base: u32,
}

impl View for PoolFixed {
    type V = PoolHead;

    closed spec fn view(&self) -> PoolHead {
        PoolHead {
            header: self.header,
            string_count: self.string_count,
            style_count: self.style_count,
            flags: self.flags,
            strings_start: self.strings_start,
            styles_start: self.styles_start,
            strings_offsets: self.strings_offsets@,
            styles_offsets: self.styles_offsets@,
            base: self.base,
        }
    }
}

/// Read the fixed part of a string pool whose type was read just before the cursor
fn read_pool_head(axml_buff: &mut ByteCursor) -> (r: Result<PoolFixed, Fault>)
    ensures
        final(axml_buff).bytes() == old(axml_buff).bytes(),
        agrees_view(r, final(axml_buff).at(), spec_pool_head(old(axml_buff).bytes(), old(axml_buff).at())),
        r matches Ok(h) ==> h.strings_offsets@.len() == h.string_count && h.styles_offsets@.len() == h.style_count,
{
    // Go back 2 bytes, to account from the block type
    let position = axml_buff.position();
    if position < 2 {
        return Err(Fault::Abort(Abort::PositionUnderflow));
    }
    let initial_offset = position - 2;
    axml_buff.set_position(initial_offset);
    let base = (initial_offset % 0x1_0000_0000) as u32;

    // Parse chunk header
    let header = ChunkHeader::from_buff_checked(axml_buff, ChunkType::ResStringPoolType)?;

    // Get remaining members
    let string_count = match axml_buff.read_u32_le() {
        Ok(v) => v,
        Err(e) => return Err(Fault::Error(e)),
    };
    let style_count = match axml_buff.read_u32_le() {
        Ok(v) => v,
        Err(e) => return Err(Fault::Error(e)),
    };
    let flags = match axml_buff.read_u32_le() {
        Ok(v) => v,
        Err(e) => return Err(Fault::Error(e)),
    };
    let strings_start = match axml_buff.read_u32_le() {
        Ok(v) => v,
        Err(e) => return Err(Fault::Error(e)),
    };
    let styles_start = match axml_buff.read_u32_le() {
        Ok(v) => v,
        Err(e) => return Err(Fault::Error(e)),
    };

    // Get strings and styles offsets
    let ghost p6 = axml_buff.at();
    let strings_offsets = read_u32s(axml_buff, string_count)?;
    let ghost p7 = axml_buff.at();
    proof {
        lemma_repeat_len(u32_item(axml_buff.bytes()), p6, string_count as nat);
    }
    let styles_offsets = read_u32s(axml_buff, style_count)?;
    proof {
        lemma_repeat_len(u32_item(axml_buff.bytes()), p7, style_count as nat);
    }
    Ok(PoolFixed {
        header,
        string_count,
        style_count,
        flags,
        strings_start,
        styles_start,
        strings_offsets,
        styles_offsets,
        base,
    })
}

/// Decode the strings of a pool, appending them to `global_strings`; the
/// result is the pool's own strings
#[verifier::loop_isolation(false)]
fn read_pool_strings(axml_buff: &mut ByteCursor, head: &PoolFixed, global_strings: &mut Vec<String>) -> (r: Result<Vec<String>, Fault>)
    requires
        head.strings_offsets@.len() == head.string_count,
    ensures
        final(axml_buff).bytes() == old(axml_buff).bytes(),
        match spec_repeat(string_item(old(axml_buff).bytes(), head@), old(axml_buff).at(), head.string_count as nat) {
            Ok((strs, q)) => r is Ok && r->Ok_0.deep_view() == strs && final(axml_buff).at() == q,
            Err(f) => r is Err && r->Err_0 == f,
        },
        final(global_strings).deep_view() == old(global_strings).deep_view()
            + spec_repeat_prefix(string_item(old(axml_buff).bytes(), head@), old(axml_buff).at(), head.string_count as nat),
{
    let ghost s = axml_buff.bytes();
    let ghost q = axml_buff.at();
    let ghost g0 = global_strings.deep_view();
    let ghost item = string_item(s, head@);
    let ghost n = head.string_count as nat;
    let mut own: Vec<String> = Vec::new();
    proof {
        assert(own.deep_view() =~= Seq::<Seq<char>>::empty());
        assert(g0 + own.deep_view() =~= g0);
    }
    let is_utf8 = (head.flags / 256) % 2 == 1;
    let mut k: usize = 0;
    while k < head.strings_offsets.len()
        invariant
            axml_buff.bytes() == s,
            k <= n,
            item == string_item(s, head@),
            spec_repeat(item, q, k as nat) == Ok::<(Seq<Seq<char>>, nat), Fault>((own.deep_view(), axml_buff.at())),
            global_strings.deep_view() == g0 + own.deep_view(),
        decreases head.strings_offsets.len() - k,
    {
        let offset = head.strings_offsets[k];
        let address = head.base as u64 + head.strings_start as u64 + offset as u64;
        if address > 0xffff_ffff {
            proof {
                lemma_repeat_prefix_after_fault(item, q, (k + 1) as nat, n);
                lemma_repeat_fault_persists(item, q, (k + 1) as nat, n);
            }
            return Err(Fault::Abort(Abort::OffsetOverflow));
        }
        axml_buff.set_position(address);
        let decoded = if is_utf8 {
            read_utf8_entry(axml_buff)
        } else {
            read_utf16_entry(axml_buff)
        };
        match decoded {
            Ok(text) => {
                let ghost before = own.deep_view();
                let ghost gbefore = global_strings.deep_view();
                let copy = text.clone();
                own.push(text);
                global_strings.push(copy);
                proof {
                    assert(own.deep_view() =~= before.push(text@));
                    assert(global_strings.deep_view() =~= gbefore.push(text@));
                    assert(global_strings.deep_view() =~= g0 + own.deep_view());
                }
            },
            Err(f) => {
                proof {
                    lemma_repeat_prefix_after_fault(item, q, (k + 1) as nat, n);
                    lemma_repeat_fault_persists(item, q, (k + 1) as nat, n);
                }
                return Err(f);
            },
        }
        k = k + 1;
    }
    proof {
        lemma_repeat_prefix_ok(item, q, n);
    }
    Ok(own)
}

/// Read the style spans of a pool
#[verifier::loop_isolation(false)]
fn read_pool_styles(axml_buff: &mut ByteCursor, head: &PoolFixed) -> (r: Result<Vec<StringPoolSpan>, Fault>)
    requires
        head.styles_offsets@.len() == head.style_count,
    ensures
        final(axml_buff).bytes() == old(axml_buff).bytes(),
        agrees_view(r, final(axml_buff).at(),
            spec_repeat(style_item(old(axml_buff).bytes(), head@), old(axml_buff).at(), head.style_count as nat)),
{
    let ghost s = axml_buff.bytes();
    let ghost q = axml_buff.at();
    let ghost item = style_item(s, head@);
    let ghost n = head.style_count as nat;
    let mut styles: Vec<StringPoolSpan> = Vec::new();
    let mut k: usize = 0;
    while k < head.styles_offsets.len()
        invariant
            axml_buff.bytes() == s,
            k <= n,
            item == style_item(s, head@),
            spec_repeat(item, q, k as nat) == Ok::<(Seq<StringPoolSpan>, nat), Fault>((styles@, axml_buff.at())),
        decreases head.styles_offsets.len() - k,
    {
        let offset = head.styles_offsets[k];
        let address = head.base as u64 + head.styles_start as u64 + offset as u64;
        if address > 0xffff_ffff {
            proof {
                lemma_repeat_fault_persists(item, q, (k + 1) as nat, n);
            }
            return Err(Fault::Abort(Abort::OffsetOverflow));
        }
        axml_buff.set_position(address);
        match read_span(axml_buff) {
            Ok(span) => styles.push(span),
            Err(f) => {
                proof {
                    lemma_repeat_fault_persists(item, q, (k + 1) as nat, n);
                }
                return Err(f);
            },
        }
        k = k + 1;
    }
    Ok(styles)
}

/// Read a style span
fn read_span(axml_buff: &mut ByteCursor) -> (r: Result<StringPoolSpan, Fault>)
    ensures
        final(axml_buff).bytes() == old(axml_buff).bytes(),
        agrees(r, final(axml_buff).at(), spec_span(old(axml_buff).bytes(), old(axml_buff).at())),
{
    let index = match axml_buff.read_u32_le() {
        Ok(v) => v,
        Err(e) => return Err(Fault::Error(e)),
    };
    let first_char = match axml_buff.read_u32_le() {
        Ok(v) => v,
        Err(e) => return Err(Fault::Error(e)),
    };
    let last_char = match axml_buff.read_u32_le() {
        Ok(v) => v,
        Err(e) => return Err(Fault::Error(e)),
    };
    Ok(StringPoolSpan { name: ResStringPool_ref { index }, first_char, last_char })
}

impl StringPool {
    /// Parse the string pool from the raw data, or give up
    ///
    /// The chunk type has been read just before the cursor. The decoded
    /// strings are appended to `global_strings`, also those decoded before a
    /// failure; the pool holds its own strings.
    pub fn from_buff_checked(axml_buff: &mut ByteCursor, global_strings: &mut Vec<String>) -> (r: Result<Self, Fault>)
        ensures
            final(axml_buff).bytes() == old(axml_buff).bytes(),
            agrees_view(r, final(axml_buff).at(),
                spec_string_pool(old(axml_buff).bytes(), old(axml_buff).at())),
            final(global_strings).deep_view()
                == old(global_strings).deep_view() + spec_pool_new_strings(old(axml_buff).bytes(), old(axml_buff).at()),
    {
        let ghost s = axml_buff.bytes();
        let ghost p = axml_buff.at();
        let ghost g0 = global_strings.deep_view();
        let head = match read_pool_head(axml_buff) {
            Ok(h) => h,
            Err(f) => {
                assert(g0 + Seq::<Seq<char>>::empty() =~= g0);
                return Err(f);
            },
        };
        let own = read_pool_strings(axml_buff, &head, global_strings)?;
        proof {
            lemma_repeat_prefix_ok(string_item(s, head@), spec_pool_head(s, p)->Ok_0.1, head.string_count as nat);
        }
        let styles = read_pool_styles(axml_buff, &head)?;
        let is_sorted = head.flags % 2 == 1;
        let is_utf8 = (head.flags / 256) % 2 == 1;
        Ok(StringPool {
            header: head.header,
            string_count: head.string_count,
            style_count: head.style_count,
            is_sorted,
            is_utf8,
            strings_start: head.strings_start,
            styles_start: head.styles_start,
            strings_offsets: head.strings_offsets,
            styles_offsets: head.styles_offsets,
            strings: own,
            styles,
        })
    }

    /// Parse the string pool from the raw data
    ///
    /// The chunk type has been read just before the cursor. The decoded
    /// strings are appended to `global_strings`, also those decoded before a
    /// failure; the pool holds its own strings.
    pub fn from_buff(axml_buff: &mut ByteCursor, global_strings: &mut Vec<String>) -> (r: Result<Self, AxmlError>)
        requires
            !gives_up(spec_string_pool(old(axml_buff).bytes(), old(axml_buff).at())),
        ensures
            final(axml_buff).bytes() == old(axml_buff).bytes(),
            match spec_string_pool(old(axml_buff).bytes(), old(axml_buff).at()) {
                Ok((v, p)) => r is Ok && r->Ok_0@ == v && final(axml_buff).at() == p,
                Err(f) => r is Err && r->Err_0 == error_of(f),
            },
            final(global_strings).deep_view()
                == old(global_strings).deep_view() + spec_pool_new_strings(old(axml_buff).bytes(), old(axml_buff).at()),
    {
        match Self::from_buff_checked(axml_buff, global_strings) {
            Ok(pool) => Ok(pool),
            Err(Fault::Error(e)) => Err(e),
            Err(Fault::Abort(_)) => Err(AxmlError::IoError),
        }
    }
}

} // verus!
