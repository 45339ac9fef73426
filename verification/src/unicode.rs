//! Decoding of text
//!
//! The strings of a pool are stored in UTF-8 or UTF-16. Both decodings are
//! the standard library's.

use vstd::prelude::*;
use vstd::utf8::{valid_utf8, decode_utf8};

verus! {

/// Whether a UTF-16 code unit is a surrogate (`0xD800`-`0xDFFF`)
pub open spec fn is_surrogate(u: u16) -> bool {
    0xD800 <= u <= 0xDFFF
}

/// Whether a UTF-16 code unit is a high (leading) surrogate (`0xD800`-`0xDBFF`)
pub open spec fn is_high_surrogate(u: u16) -> bool {
    0xD800 <= u <= 0xDBFF
}

/// Whether a UTF-16 code unit is a low (trailing) surrogate (`0xDC00`-`0xDFFF`)
pub open spec fn is_low_surrogate(u: u16) -> bool {
    0xDC00 <= u <= 0xDFFF
}

/// The characters that a sequence of UTF-16 code units decodes to, or
/// `None` when it holds an unpaired surrogate. A unit that is no surrogate
/// is a character by itself; a high surrogate followed by a low surrogate is
/// the character `0x10000 + (high - 0xD800) * 0x400 + (low - 0xDC00)`.
pub open spec fn utf16_decode(units: Seq<u16>) -> Option<Seq<char>>
    decreases units.len(),
{
    if units.len() == 0 {
        Some(Seq::empty())
    } else if !is_surrogate(units[0]) {
        match utf16_decode(units.drop_first()) {
            Some(rest) => Some(seq![units[0] as char] + rest),
            None => None,
        }
    } else if is_high_surrogate(units[0]) && units.len() >= 2 && is_low_surrogate(units[1]) {
        let c = (0x10000 + (units[0] - 0xD800) * 0x400 + (units[1] - 0xDC00)) as char;
        match utf16_decode(units.subrange(2, units.len() as int)) {
            Some(rest) => Some(seq![c] + rest),
            None => None,
        }
    } else {
        None
    }
}

/// Calls `std::char::decode_utf16` on `units` and collects the characters
/// into a `String`, giving `None` when a unit fails to decode. The standard
/// library decodes UTF-16 as `utf16_decode` states it and reports an
/// unpaired surrogate as an error.
#[verifier::external_body]
pub(crate) fn decode_utf16_units(units: Vec<u16>) -> (r: Option<String>)
    ensures
        match r {
            Some(text) => utf16_decode(units@) == Some(text@),
            None => utf16_decode(units@) is None,
        },
{
    std::char::decode_utf16(units.into_iter()).collect::<Result<String, _>>().ok()
}

/// Calls `String::from_utf8` on `bytes`: per its documentation the call
/// fails exactly on bytes that are not valid UTF-8, and otherwise gives the
/// string those bytes encode.
#[verifier::external_body]
pub(crate) fn string_from_utf8(bytes: Vec<u8>) -> (r: Option<String>)
    ensures
        r is Some <==> valid_utf8(bytes@),
        r matches Some(text) ==> text@ == decode_utf8(bytes@),
{
    String::from_utf8(bytes).ok()
}

} // verus!
