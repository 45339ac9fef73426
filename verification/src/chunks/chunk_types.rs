//! Chunk types
//!
//! Every chunk of an AXML document starts with a 16-bit type identifier.
//! The values are those of the Android resource format.

use vstd::prelude::*;
use crate::cursor::{ByteCursor, spec_u16};
use crate::errors::{AxmlError, Fault, eof};

verus! {

/// Type identifier of a chunk
#[derive(Debug, Clone, Copy, PartialEq, Eq, Structural)]
pub enum ChunkType {
    ResNullType,
    ResStringPoolType,
    ResTableType,
    ResXmlType,
    ResXmlStartNamespaceType,
    ResXmlEndNamespaceType,
    ResXmlStartElementType,
    ResXmlEndElementType,
    ResXmlCdataType,
    ResXmlResourceMapType,
    ResTablePackageType,
    ResTableTypeType,
    ResTableTypeSpecType,
    ResTableLibraryType,
    ResTableOverlayableType,
    ResTableOverlayablePolicyType,
    ResTableStagedAliasType,
}

/// The chunk type that a raw 16-bit value identifies, if any
pub open spec fn spec_chunk_type(raw: u16) -> Option<ChunkType> {
    if raw == 0x0000 {
        Some(ChunkType::ResNullType)
    } else if raw == 0x0001 {
        Some(ChunkType::ResStringPoolType)
    } else if raw == 0x0002 {
        Some(ChunkType::ResTableType)
    } else if raw == 0x0003 {
        Some(ChunkType::ResXmlType)
    } else if raw == 0x0100 {
        Some(ChunkType::ResXmlStartNamespaceType)
    } else if raw == 0x0101 {
        Some(ChunkType::ResXmlEndNamespaceType)
    } else if raw == 0x0102 {
        Some(ChunkType::ResXmlStartElementType)
    } else if raw == 0x0103 {
        Some(ChunkType::ResXmlEndElementType)
    } else if raw == 0x0104 {
        Some(ChunkType::ResXmlCdataType)
    } else if raw == 0x0180 {
        Some(ChunkType::ResXmlResourceMapType)
    } else if raw == 0x0200 {
        Some(ChunkType::ResTablePackageType)
    } else if raw == 0x0201 {
        Some(ChunkType::ResTableTypeType)
    } else if raw == 0x0202 {
        Some(ChunkType::ResTableTypeSpecType)
    } else if raw == 0x0203 {
        Some(ChunkType::ResTableLibraryType)
    } else if raw == 0x0204 {
        Some(ChunkType::ResTableOverlayableType)
    } else if raw == 0x0205 {
        Some(ChunkType::ResTableOverlayablePolicyType)
    } else if raw == 0x0206 {
        Some(ChunkType::ResTableStagedAliasType)
    } else {
        None
    }
}

/// The raw 16-bit value of a chunk type
pub open spec fn spec_chunk_type_raw(t: ChunkType) -> u16 {
    match t {
        ChunkType::ResNullType => 0x0000,
        ChunkType::ResStringPoolType => 0x0001,
        ChunkType::ResTableType => 0x0002,
        ChunkType::ResXmlType => 0x0003,
        ChunkType::ResXmlStartNamespaceType => 0x0100,
        ChunkType::ResXmlEndNamespaceType => 0x0101,
        ChunkType::ResXmlStartElementType => 0x0102,
        ChunkType::ResXmlEndElementType => 0x0103,
        ChunkType::ResXmlCdataType => 0x0104,
        ChunkType::ResXmlResourceMapType => 0x0180,
        ChunkType::ResTablePackageType => 0x0200,
        ChunkType::ResTableTypeType => 0x0201,
        ChunkType::ResTableTypeSpecType => 0x0202,
        ChunkType::ResTableLibraryType => 0x0203,
        ChunkType::ResTableOverlayableType => 0x0204,
        ChunkType::ResTableOverlayablePolicyType => 0x0205,
        ChunkType::ResTableStagedAliasType => 0x0206,
    }
}

/// Reading a chunk type at position `p`: the read fails at the end of the
/// bytes and on a value that identifies no chunk type.
pub open spec fn spec_block_type(s: Seq<u8>, p: nat) -> Result<(ChunkType, nat), Fault> {
    match spec_u16(s, p) {
        Err(f) => Err(f),
        Ok((raw, p1)) => match spec_chunk_type(raw) {
            Some(t) => Ok((t, p1)),
            None => Err(eof()),
        },
    }
}

impl ChunkType {
    /// The chunk type that a raw 16-bit value identifies, if any
    pub fn from_raw(raw: u16) -> (r: Option<ChunkType>)
        ensures
            r == spec_chunk_type(raw),
    {
        match raw {
            0x0000 => Some(ChunkType::ResNullType),
            0x0001 => Some(ChunkType::ResStringPoolType),
            0x0002 => Some(ChunkType::ResTableType),
            0x0003 => Some(ChunkType::ResXmlType),
            0x0100 => Some(ChunkType::ResXmlStartNamespaceType),
            0x0101 => Some(ChunkType::ResXmlEndNamespaceType),
            0x0102 => Some(ChunkType::ResXmlStartElementType),
            0x0103 => Some(ChunkType::ResXmlEndElementType),
            0x0104 => Some(ChunkType::ResXmlCdataType),
            0x0180 => Some(ChunkType::ResXmlResourceMapType),
            0x0200 => Some(ChunkType::ResTablePackageType),
            0x0201 => Some(ChunkType::ResTableTypeType),
            0x0202 => Some(ChunkType::ResTableTypeSpecType),
            0x0203 => Some(ChunkType::ResTableLibraryType),
            0x0204 => Some(ChunkType::ResTableOverlayableType),
            0x0205 => Some(ChunkType::ResTableOverlayablePolicyType),
            0x0206 => Some(ChunkType::ResTableStagedAliasType),
            _ => None,
        }
    }

    /// The raw 16-bit value of the chunk type
    pub fn to_raw(&self) -> (raw: u16)
        ensures
            raw == spec_chunk_type_raw(*self),
    {
        match self {
            ChunkType::ResNullType => 0x0000,
            ChunkType::ResStringPoolType => 0x0001,
            ChunkType::ResTableType => 0x0002,
            ChunkType::ResXmlType => 0x0003,
            ChunkType::ResXmlStartNamespaceType => 0x0100,
            ChunkType::ResXmlEndNamespaceType => 0x0101,
            ChunkType::ResXmlStartElementType => 0x0102,
            ChunkType::ResXmlEndElementType => 0x0103,
            ChunkType::ResXmlCdataType => 0x0104,
            ChunkType::ResXmlResourceMapType => 0x0180,
            ChunkType::ResTablePackageType => 0x0200,
            ChunkType::ResTableTypeType => 0x0201,
            ChunkType::ResTableTypeSpecType => 0x0202,
            ChunkType::ResTableLibraryType => 0x0203,
            ChunkType::ResTableOverlayableType => 0x0204,
            ChunkType::ResTableOverlayablePolicyType => 0x0205,
            ChunkType::ResTableStagedAliasType => 0x0206,
        }
    }

    /// Read the type of the next chunk
    pub fn parse_block_type(axml_buff: &mut ByteCursor) -> (r: Result<ChunkType, AxmlError>)
        ensures
            final(axml_buff).bytes() == old(axml_buff).bytes(),
            match spec_block_type(old(axml_buff).bytes(), old(axml_buff).at()) {
                Ok((t, p)) => r == Ok::<ChunkType, AxmlError>(t) && final(axml_buff).at() == p,
                Err(_) => r == Err::<ChunkType, AxmlError>(AxmlError::IoError),
            },
    {
        let raw = axml_buff.read_u16_le()?;
        match ChunkType::from_raw(raw) {
            Some(t) => Ok(t),
            None => Err(AxmlError::IoError),
        }
    }
}

/// Reading a raw value as a chunk type and writing it back gives the same value,
/// and every chunk type is read back from its raw value.
pub proof fn lemma_chunk_type_raw_roundtrip(raw: u16, t: ChunkType)
    ensures
        spec_chunk_type(raw) == Some(t) ==> spec_chunk_type_raw(t) == raw,
        spec_chunk_type(spec_chunk_type_raw(t)) == Some(t),
{
}

} // verus!
