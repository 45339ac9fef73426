//! Contains common structures used across various chunk types.

use vstd::prelude::*;
use crate::cursor::{ByteCursor, spec_u32};
use crate::errors::{AxmlError, Fault};

verus! {

/// Reference to a resource table entry.
#[derive(Debug, Clone, Copy, PartialEq, Eq, Hash, Structural)]
pub struct ResTableRef {
    /// The resource identifier.
    pub ident: u32,
}

/// Reading a reference to a resource table entry: a `u32` identifier.
pub open spec fn spec_res_table_ref(s: Seq<u8>, p: nat) -> Result<(ResTableRef, nat), Fault> {
    match spec_u32(s, p) {
        Err(f) => Err(f),
        Ok((ident, q)) => Ok((ResTableRef { ident }, q)),
    }
}

impl ResTableRef {
    /// Parses a ResTable_ref from the current position of the AXML buffer.
    pub fn parse(axml_buff: &mut ByteCursor) -> (r: Result<Self, AxmlError>)
        ensures
            final(axml_buff).bytes() == old(axml_buff).bytes(),
            match spec_res_table_ref(old(axml_buff).bytes(), old(axml_buff).at()) {
                Ok((v, p)) => r == Ok::<ResTableRef, AxmlError>(v) && final(axml_buff).at() == p,
                Err(_) => r == Err::<ResTableRef, AxmlError>(AxmlError::IoError),
            },
    {
        let ident = axml_buff.read_u32_le()?;
        Ok(Self { ident })
    }
}

} // verus!
