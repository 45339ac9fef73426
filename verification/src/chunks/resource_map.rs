//! Resource map
//!
//! The resource map of an XML document lists, for the first strings of the
//! pool, the resource identifiers of the attributes they name.

use vstd::prelude::*;
use crate::chunks::chunk_header::{ChunkHeader, spec_chunk_header};
use crate::chunks::chunk_types::{ChunkType, spec_chunk_type};
use crate::chunks::string_pool::{u32_item, read_u32s};
use crate::cursor::{ByteCursor, spec_repeat, agrees_view, le_u16, le_u32, spec_u32, lemma_repeat_len};
use crate::errors::{Abort, Fault};

verus! {

/// The resource map of an XML document
#[derive(Debug)]
pub struct ResourceMap {
    /// Chunk header
    pub header: ChunkHeader,
    /// Resource identifiers
    pub resources_id: Vec<u32>,
}

/// A resource map, as plain values
pub struct ResourceMapView {
    pub header: ChunkHeader,
    pub resources_id: Seq<u32>,
}

impl View for ResourceMap {
    type V = ResourceMapView;

    open spec fn view(&self) -> ResourceMapView {
        ResourceMapView { header: self.header, resources_id: self.resources_id@ }
    }
}

/// Parsing a resource map whose type was read just before position `p`:
/// its header and as many `u32` identifiers as fit in the chunk after
/// the header.
pub open spec fn spec_resource_map(s: Seq<u8>, p: nat) -> Result<(ResourceMapView, nat), Fault> {
    if p < 2 {
        Err(Fault::Abort(Abort::PositionUnderflow))
    } else {
        match spec_chunk_header(s, (p - 2) as nat, ChunkType::ResXmlResourceMapType) {
            Err(f) => Err(f),
            Ok((header, p1)) => {
                let count = (header.chunk_size - header.header_size) / 4;
                match spec_repeat(u32_item(s), p1, count as nat) {
                    Err(f) => Err(f),
                    Ok((ids, p2)) => Ok((ResourceMapView { header, resources_id: ids }, p2)),
                }
            },
        }
    }
}

impl ResourceMap {
    /// Parse from a cursor of bytes, or give up
    pub fn from_buff_checked(axml_buff: &mut ByteCursor) -> (r: Result<Self, Fault>)
        ensures
            final(axml_buff).bytes() == old(axml_buff).bytes(),
            agrees_view(r, final(axml_buff).at(), spec_resource_map(old(axml_buff).bytes(), old(axml_buff).at())),
    {
        // Go back 2 bytes, to account from the block type
        let offset = axml_buff.position();
        if offset < 2 {
            return Err(Fault::Abort(Abort::PositionUnderflow));
        }
        axml_buff.set_position(offset - 2);

        let header = ChunkHeader::from_buff_checked(axml_buff, ChunkType::ResXmlResourceMapType)?;
        let count = (header.chunk_size - header.header_size as u32) / 4;
        let resources_id = read_u32s(axml_buff, count)?;
        Ok(ResourceMap { header, resources_id })
    }
}

/// Reading `n` little-endian `u32` values at `p`, where the bytes hold them,
/// gives the values at `p`, `p + 4`, ... and ends `4 * n` bytes further.
pub proof fn lemma_read_u32s(s: Seq<u8>, p: nat, n: nat)
    requires
        p + 4 * n <= s.len(),
    ensures
        spec_repeat(u32_item(s), p, n) matches Ok((ids, q)) && q == p + 4 * n && ids.len() == n
            && forall|k: int| 0 <= k < n ==> #[trigger] ids[k] == le_u32(s[p + 4 * k], s[p + 4 * k + 1], s[p + 4 * k + 2], s[p + 4 * k + 3]),
    decreases n,
{
    if n > 0 {
        lemma_read_u32s(s, p, (n - 1) as nat);
        let (ids, q) = spec_repeat(u32_item(s), p, (n - 1) as nat)->Ok_0;
        assert(u32_item(s)((n - 1) as nat, q) == spec_u32(s, q));
        let (ids2, q2) = spec_repeat(u32_item(s), p, n)->Ok_0;
        assert(ids2 == ids.push(ids2.last()));
        assert forall|k: int| 0 <= k < n implies #[trigger] ids2[k] == le_u32(s[p + 4 * k], s[p + 4 * k + 1], s[p + 4 * k + 2], s[p + 4 * k + 3]) by {
            if k < n - 1 {
                assert(ids2[k] == ids[k]);
            }
        }
    }
}

/// A resource map is read whole: for a map chunk that starts at `start`
/// (its type was read just before `start + 2`), with header size `hs` and
/// chunk size `cs` in its header, parsing reads the `(cs - hs) / 4`
/// identifiers that follow the 8-byte header and ends after them; when the
/// header is 8 bytes and the chunk holds whole identifiers, it ends exactly
/// at the end of the chunk. The map parses whenever its header is valid and
/// the bytes hold the identifiers.
pub proof fn lemma_resource_map_read_whole(s: Seq<u8>, start: int)
    requires
        0 <= start,
        start + 8 <= s.len(),
        le_u16(s[start], s[start + 1]) == 0x0180,
    ensures
        ({
            let hs = le_u16(s[start + 2], s[start + 3]);
            let cs = le_u32(s[start + 4], s[start + 5], s[start + 6], s[start + 7]);
            let count = (cs - hs) / 4;
            &&& spec_resource_map(s, (start + 2) as nat) matches Ok((m, q)) ==> {
                &&& m.header.header_size == hs
                &&& m.header.chunk_size == cs
                &&& m.resources_id.len() == count
                &&& forall|k: int| 0 <= k < count ==> #[trigger] m.resources_id[k]
                    == le_u32(s[start + 8 + 4 * k], s[start + 8 + 4 * k + 1], s[start + 8 + 4 * k + 2], s[start + 8 + 4 * k + 3])
                &&& q == start + 8 + 4 * count
                &&& (hs == 8 && (cs - 8) % 4 == 0 ==> q == start + cs)
            }
            &&& (8 <= hs <= cs && start + 8 + 4 * count <= s.len() ==> spec_resource_map(s, (start + 2) as nat) is Ok)
        }),
{
    let hs = le_u16(s[start + 2], s[start + 3]);
    let cs = le_u32(s[start + 4], s[start + 5], s[start + 6], s[start + 7]);
    let count = (cs - hs) / 4;
    assert(spec_chunk_type(0x0180) == Some(ChunkType::ResXmlResourceMapType));
    match spec_chunk_header(s, start as nat, ChunkType::ResXmlResourceMapType) {
        Ok((header, p1)) => {
            assert(p1 == start + 8);
            assert(header.header_size == hs && header.chunk_size == cs);
            if start + 8 + 4 * count <= s.len() {
                lemma_read_u32s(s, (start + 8) as nat, count as nat);
            } else {
                lemma_repeat_len(u32_item(s), (start + 8) as nat, count as nat);
                lemma_repeat_end(s, (start + 8) as nat, count as nat);
            }
        },
        Err(_) => {},
    }
}

/// Reading `n` values ends `4 * n` bytes further, whenever it succeeds
proof fn lemma_repeat_end(s: Seq<u8>, p: nat, n: nat)
    ensures
        spec_repeat(u32_item(s), p, n) matches Ok((_, q)) ==> q == p + 4 * n && (n > 0 ==> q <= s.len()),
    decreases n,
{
    if n > 0 {
        lemma_repeat_end(s, p, (n - 1) as nat);
        match spec_repeat(u32_item(s), p, (n - 1) as nat) {
            Ok((_, q)) => {
                assert(u32_item(s)((n - 1) as nat, q) == spec_u32(s, q));
            },
            Err(_) => {},
        }
    }
}

} // verus!
