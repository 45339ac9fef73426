//! Typed values
//!
//! A value in a resource or an attribute: its size, a reserved byte, the
//! type of its data, and the data itself.

use vstd::prelude::*;
use crate::chunks::data_value_type::{DataValueType, spec_data_value_type};
use crate::cursor::{ByteCursor, spec_u8, spec_u16, spec_u32, agrees, gives_up, settle};
use crate::errors::{Abort, AxmlError, Fault};

verus! {

/// Representation of a value in a resource, supplying type information.
#[derive(Debug, Clone, Copy, PartialEq, Eq, Structural)]
pub struct ResValue {
    /// Number of bytes in this structure
    pub size: u16,

    /// Always set to 0
    pub res0: u8,

    /// The type of data
    pub data_type: DataValueType,

    /// The actual data
    pub data: u32,
}

/// Reading a value at position `p`: size (`u16`), reserved byte, data type
/// byte and data (`u32`). Parsing gives up on a reserved byte other than 0
/// and on a data type byte that identifies no type.
pub open spec fn spec_res_value(s: Seq<u8>, p: nat) -> Result<(ResValue, nat), Fault> {
    match spec_u16(s, p) {
        Err(f) => Err(f),
        Ok((size, p1)) => match spec_u8(s, p1) {
            Err(f) => Err(f),
            Ok((res0, p2)) => if res0 != 0 {
                Err(Fault::Abort(Abort::NonZeroRes0))
            } else {
                match spec_u8(s, p2) {
                    Err(f) => Err(f),
                    Ok((raw_type, p3)) => match spec_data_value_type(raw_type) {
                        None => Err(Fault::Abort(Abort::UnknownDataValueType(raw_type))),
                        Some(data_type) => match spec_u32(s, p3) {
                            Err(f) => Err(f),
                            Ok((data, p4)) => Ok((ResValue { size, res0, data_type, data }, p4)),
                        },
                    },
                }
            },
        },
    }
}

impl ResValue {
    /// Parse from a cursor of bytes, or give up
    pub fn from_buff_checked(axml_buff: &mut ByteCursor) -> (r: Result<Self, Fault>)
        ensures
            final(axml_buff).bytes() == old(axml_buff).bytes(),
            agrees(r, final(axml_buff).at(), spec_res_value(old(axml_buff).bytes(), old(axml_buff).at())),
    {
        let size = match axml_buff.read_u16_le() {
            Ok(v) => v,
            Err(e) => return Err(Fault::Error(e)),
        };
        let res0 = match axml_buff.read_u8() {
            Ok(v) => v,
            Err(e) => return Err(Fault::Error(e)),
        };

        if res0 != 0 {
            return Err(Fault::Abort(Abort::NonZeroRes0));
        }

        let raw_type = match axml_buff.read_u8() {
            Ok(v) => v,
            Err(e) => return Err(Fault::Error(e)),
        };
        let data_type = match DataValueType::try_from_val(raw_type) {
            Some(t) => t,
            None => return Err(Fault::Abort(Abort::UnknownDataValueType(raw_type))),
        };
        let data = match axml_buff.read_u32_le() {
            Ok(v) => v,
            Err(e) => return Err(Fault::Error(e)),
        };

        Ok(ResValue { size, res0, data_type, data })
    }

    /// Parse from a cursor of bytes
    pub fn from_buff(axml_buff: &mut ByteCursor) -> (r: Result<Self, AxmlError>)
        requires
            !gives_up(spec_res_value(old(axml_buff).bytes(), old(axml_buff).at())),
        ensures
            final(axml_buff).bytes() == old(axml_buff).bytes(),
            match spec_res_value(old(axml_buff).bytes(), old(axml_buff).at()) {
                Ok((v, p)) => r == Ok::<ResValue, AxmlError>(v) && final(axml_buff).at() == p,
                Err(f) => r == Err::<ResValue, AxmlError>(crate::cursor::error_of(f)),
            },
    {
        settle(Self::from_buff_checked(axml_buff))
    }
}

} // verus!
