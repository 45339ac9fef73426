//! Representation of a chunk header
//!
//! An AXML document is composed of several chunks, and each chunk has a header.
//! The header is rather small and only contain the type of the chunk (identified
//! by the `ChunkType` enum), the header size, and the chunk size.

use vstd::prelude::*;
use crate::chunks::chunk_types::{ChunkType, spec_block_type};
use crate::cursor::{ByteCursor, spec_u16, spec_u32, agrees, gives_up, error_of, settle};
use crate::errors::{Abort, AxmlError, Fault};

verus! {

/// Header that appears at the beginning of every chunk
#[derive(Debug, Clone, Copy, PartialEq, Eq, Structural)]
pub struct ChunkHeader {
    /// Type identifier for this chunk.
    /// The meaning of this value depends on the containing chunk.
    pub chunk_type: ChunkType,

    /// Size of the chunk header in bytes.
    pub header_size: u16,

    /// Total size of this chunk in bytes.
    pub chunk_size: u32,
}

/// Minimum size of a header, and of a chunk: a chunk with no data
pub const MINIMUM_CHUNK_SIZE: u16 = 8;

/// What a parsed header always satisfies
pub open spec fn header_sizes_valid(h: ChunkHeader) -> bool {
    &&& h.header_size >= 8
    &&& h.chunk_size >= 8
    &&& h.chunk_size >= h.header_size
}

/// Reading a chunk header of type `expected` at position `p`.
///
/// The header is the chunk type, the header size (`u16`) and the chunk size
/// (`u32`). Parsing gives up on an unreadable or unexpected type, unreadable
/// sizes, and sizes below the minimum or a chunk smaller than its header.
pub open spec fn spec_chunk_header(s: Seq<u8>, p: nat, expected: ChunkType) -> Result<(ChunkHeader, nat), Fault> {
    match spec_block_type(s, p) {
        Err(_) => Err(Fault::Abort(Abort::BlockTypeUnreadable)),
        Ok((t, p1)) => if t != expected {
            Err(Fault::Abort(Abort::UnexpectedChunkType))
        } else {
            match spec_u16(s, p1) {
                Err(_) => Err(Fault::Abort(Abort::HeaderFieldUnreadable)),
                Ok((header_size, p2)) => match spec_u32(s, p2) {
                    Err(_) => Err(Fault::Abort(Abort::HeaderFieldUnreadable)),
                    Ok((chunk_size, p3)) => if header_size < 8 {
                        Err(Fault::Abort(Abort::HeaderSizeTooSmall))
                    } else if chunk_size < 8 {
                        Err(Fault::Abort(Abort::ChunkSizeTooSmall))
                    } else if chunk_size < header_size {
                        Err(Fault::Abort(Abort::ChunkSizeBelowHeaderSize))
                    } else {
                        Ok((ChunkHeader { chunk_type: t, header_size, chunk_size }, p3))
                    },
                },
            }
        },
    }
}

impl ChunkHeader {
    /// Parse bytes from given buffer into a `ChunkHeader`, or give up.
    pub fn from_buff_checked(axml_buff: &mut ByteCursor, expected_type: ChunkType) -> (r: Result<Self, Fault>)
        ensures
            final(axml_buff).bytes() == old(axml_buff).bytes(),
            agrees(r, final(axml_buff).at(), spec_chunk_header(old(axml_buff).bytes(), old(axml_buff).at(), expected_type)),
            r matches Ok(h) ==> header_sizes_valid(h),
    {
        // Get chunk type
        let chunk_type = match ChunkType::parse_block_type(axml_buff) {
            Ok(t) => t,
            Err(_) => return Err(Fault::Abort(Abort::BlockTypeUnreadable)),
        };

        // Check if this is indeed of the expected type
        if chunk_type != expected_type {
            return Err(Fault::Abort(Abort::UnexpectedChunkType));
        }

        // Get chunk header size and total size
        let header_size = match axml_buff.read_u16_le() {
            Ok(v) => v,
            Err(_) => return Err(Fault::Abort(Abort::HeaderFieldUnreadable)),
        };
        let chunk_size = match axml_buff.read_u32_le() {
            Ok(v) => v,
            Err(_) => return Err(Fault::Abort(Abort::HeaderFieldUnreadable)),
        };

        // Exhaustive checks on the announced sizes
        if header_size < MINIMUM_CHUNK_SIZE {
            return Err(Fault::Abort(Abort::HeaderSizeTooSmall));
        }
        if chunk_size < MINIMUM_CHUNK_SIZE as u32 {
            return Err(Fault::Abort(Abort::ChunkSizeTooSmall));
        }
        if chunk_size < header_size as u32 {
            return Err(Fault::Abort(Abort::ChunkSizeBelowHeaderSize));
        }

        Ok(ChunkHeader { chunk_type, header_size, chunk_size })
    }

    /// Parse bytes from given buffer into a `ChunkHeader`
    ///
    /// The bytes at the position must hold a well-formed header of the
    /// expected type; on such bytes the parse always succeeds.
    pub fn from_buff(axml_buff: &mut ByteCursor, expected_type: ChunkType) -> (r: Result<Self, AxmlError>)
        requires
            !gives_up(spec_chunk_header(old(axml_buff).bytes(), old(axml_buff).at(), expected_type)),
        ensures
            final(axml_buff).bytes() == old(axml_buff).bytes(),
            spec_chunk_header(old(axml_buff).bytes(), old(axml_buff).at(), expected_type) matches Ok((h, p))
                && r == Ok::<ChunkHeader, AxmlError>(h) && final(axml_buff).at() == p,
            r matches Ok(h) ==> header_sizes_valid(h) && h.chunk_type == expected_type,
    {
        settle(Self::from_buff_checked(axml_buff, expected_type))
    }
}

} // verus!
