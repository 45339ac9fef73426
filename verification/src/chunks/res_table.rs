//! Resource table
//!
//! The resource table data contains a series of additional chunks:
//!     * A `ResTable` containing the chunk header and the number of packages values.
//!     * One or more `ResTablePackage` chunks.
//!
//! Specific entries within a resource table can be uniquely identified
//! with a single integer as defined by the ResTable_ref structure.

use vstd::prelude::*;
use crate::chunks::chunk_header::{ChunkHeader, spec_chunk_header};
use crate::chunks::chunk_types::{ChunkType, spec_block_type, spec_chunk_type_raw};
use crate::chunks::string_pool::{StringPool, spec_string_pool, u16_item};
use crate::cursor::{ByteCursor, spec_u32, spec_repeat, lemma_repeat_fault_persists,
    agrees_view, gives_up, error_of};
use crate::errors::{Abort, AxmlError, Fault};

verus! {

/// Header for a resource table
#[derive(Debug)]
pub struct ResTable {
    /// Chunk header
    pub header: ChunkHeader,

    /// The number of ResTable_package structures
    pub package_count: u32,

    /// The packages of the table, in order
    pub packages: Vec<ResTablePackage>,
}

/// A resource table, as plain values
pub struct ResTableView {
    pub header: ChunkHeader,
    pub package_count: u32,
    pub packages: Seq<ResTablePackageView>,
}

impl View for ResTable {
    type V = ResTableView;

    open spec fn view(&self) -> ResTableView {
        ResTableView {
            header: self.header,
            package_count: self.package_count,
            packages: Seq::new(self.packages@.len(), |i: int| self.packages@[i]@),
        }
    }
}

/// A package of a resource table, as plain values
pub struct ResTablePackageView {
    pub header: ChunkHeader,
    pub id: u32,
    pub name: Seq<u16>,
    pub type_strings: u32,
    pub last_public_type: u32,
    pub key_strings: u32,
    pub last_public_key: u32,
    pub type_id_offset: u32,
}

/// A collection of resource data types within a package.  Followed by
/// one or more ResTable_type and ResTable_typeSpec structures containing the
/// entry values for each resource type.
#[derive(Debug, Clone, Copy)]
pub struct ResTablePackage {
    /// Package header
    pub header: ChunkHeader,

    /// If this is a base package, its ID.  Package IDs
    /// at 1 (corresponding to the value of the package bits in a
    /// resource identifier).  0 means this is not a base package.
    pub id: u32,

    /// Actual name of this package, \0-terminated.
    pub name: [u16; 128],

    /// Offset to a ResStringPool_header defining the resource
    /// type symbol table.  If zero, this package is inheriting from
    /// another base package (overriding specific values in it).
    pub type_strings: u32,

    /// Last index into typeStrings that is for public use by others.
    pub last_public_type: u32,

    /// Offset to a ResStringPool_header defining the resource key
    /// symbol table.  If zero, this package is inheriting from another
    /// base package (overriding specific values in it).
    pub key_strings: u32,

    /// Last index into keyStrings that is for public use by others.
    pub last_public_key: u32,

    /// Type ID offset
    pub type_id_offset: u32,
}

impl View for ResTablePackage {
    type V = ResTablePackageView;

    open spec fn view(&self) -> ResTablePackageView {
        ResTablePackageView {
            header: self.header,
            id: self.id,
            name: self.name@,
            type_strings: self.type_strings,
            last_public_type: self.last_public_type,
            key_strings: self.key_strings,
            last_public_key: self.last_public_key,
            type_id_offset: self.type_id_offset,
        }
    }
}

/// Reading a package whose type was read just before position `p`: its
/// header, id, name (128 `u16` units, zero-terminated and zero-padded), and
/// the offsets and indices of its symbol tables.
pub open spec fn spec_package(s: Seq<u8>, p: nat) -> Result<(ResTablePackageView, nat), Fault> {
    if p < 2 {
        Err(Fault::Abort(Abort::PositionUnderflow))
    } else {
        match spec_chunk_header(s, (p - 2) as nat, ChunkType::ResTablePackageType) {
            Err(f) => Err(f),
            Ok((header, p1)) => match spec_u32(s, p1) {
                Err(f) => Err(f),
                Ok((id, p2)) => match spec_repeat(u16_item(s), p2, 128) {
                    Err(f) => Err(f),
                    Ok((units, p3)) => match spec_u32(s, p3) {
                        Err(f) => Err(f),
                        Ok((type_strings, p4)) => match spec_u32(s, p4) {
                            Err(f) => Err(f),
                            Ok((last_public_type, p5)) => match spec_u32(s, p5) {
                                Err(f) => Err(f),
                                Ok((key_strings, p6)) => match spec_u32(s, p6) {
                                    Err(f) => Err(f),
                                    Ok((last_public_key, p7)) => match spec_u32(s, p7) {
                                        Err(f) => Err(f),
                                        Ok((type_id_offset, p8)) => Ok((ResTablePackageView {
                                            header,
                                            id,
                                            name: units,
                                            type_strings,
                                            last_public_type,
                                            key_strings,
                                            last_public_key,
                                            type_id_offset,
                                        }, p8)),
                                    },
                                },
                            },
                        },
                    },
                },
            },
        }
    }
}

/// Read the 128 units of the name of a package
fn read_package_name(axml_buff: &mut ByteCursor) -> (r: Result<[u16; 128], Fault>)
    ensures
        final(axml_buff).bytes() == old(axml_buff).bytes(),
        agrees_view(r, final(axml_buff).at(), spec_repeat(u16_item(old(axml_buff).bytes()), old(axml_buff).at(), 128)),
{
    let ghost s = axml_buff.bytes();
    let ghost p0 = axml_buff.at();
    let mut name: [u16; 128] = [0; 128];
    proof {
        assert(name@.take(0) =~= Seq::<u16>::empty());
    }
    let mut i: usize = 0;
    while i < 128
        invariant
            axml_buff.bytes() == s,
            s == old(axml_buff).bytes(),
            p0 == old(axml_buff).at(),
            i <= 128,
            name@.len() == 128,
            spec_repeat(u16_item(s), p0, i as nat) == Ok::<(Seq<u16>, nat), Fault>((name@.take(i as int), axml_buff.at())),
        decreases 128 - i,
    {
        let unit = match axml_buff.read_u16_le() {
            Ok(v) => v,
            Err(e) => {
                proof {
                    lemma_repeat_fault_persists(u16_item(s), p0, (i + 1) as nat, 128);
                }
                return Err(Fault::Error(e));
            },
        };
        let ghost before = name@.take(i as int);
        name[i] = unit;
        proof {
            assert(name@.take(i + 1) =~= before.push(unit));
        }
        i = i + 1;
    }
    proof {
        assert(name@.take(128) =~= name@);
    }
    Ok(name)
}

impl ResTablePackage {
    /// Parse from a cursor of bytes, or give up
    pub fn parse_checked(axml_buff: &mut ByteCursor) -> (r: Result<Self, Fault>)
        ensures
            final(axml_buff).bytes() == old(axml_buff).bytes(),
            agrees_view(r, final(axml_buff).at(), spec_package(old(axml_buff).bytes(), old(axml_buff).at())),
    {
        // Go back 2 bytes, to account from the block type
        let initial_offset = axml_buff.position();
        if initial_offset < 2 {
            return Err(Fault::Abort(Abort::PositionUnderflow));
        }
        axml_buff.set_position(initial_offset - 2);

        // Parse chunk header
        let header = ChunkHeader::from_buff_checked(axml_buff, ChunkType::ResTablePackageType)?;

        // Get other members
        let id = match axml_buff.read_u32_le() {
            Ok(v) => v,
            Err(e) => return Err(Fault::Error(e)),
        };
        let name = read_package_name(axml_buff)?;
        let type_strings = match axml_buff.read_u32_le() {
            Ok(v) => v,
            Err(e) => return Err(Fault::Error(e)),
        };
        let last_public_type = match axml_buff.read_u32_le() {
            Ok(v) => v,
            Err(e) => return Err(Fault::Error(e)),
        };
        let key_strings = match axml_buff.read_u32_le() {
            Ok(v) => v,
            Err(e) => return Err(Fault::Error(e)),
        };
        let last_public_key = match axml_buff.read_u32_le() {
            Ok(v) => v,
            Err(e) => return Err(Fault::Error(e)),
        };
        let type_id_offset = match axml_buff.read_u32_le() {
            Ok(v) => v,
            Err(e) => return Err(Fault::Error(e)),
        };

        // Build and return the object
        Ok(ResTablePackage {
            header,
            id,
            name,
            type_strings,
            last_public_type,
            key_strings,
            last_public_key,
            type_id_offset,
        })
    }

    /// Parse from a cursor of bytes
    pub fn parse(axml_buff: &mut ByteCursor) -> (r: Result<Self, AxmlError>)
        requires
            !gives_up(spec_package(old(axml_buff).bytes(), old(axml_buff).at())),
        ensures
            final(axml_buff).bytes() == old(axml_buff).bytes(),
            match spec_package(old(axml_buff).bytes(), old(axml_buff).at()) {
                Ok((v, p)) => r is Ok && r->Ok_0@ == v && final(axml_buff).at() == p,
                Err(f) => r is Err && r->Err_0 == error_of(f),
            },
    {
        match Self::parse_checked(axml_buff) {
            Ok(v) => Ok(v),
            Err(Fault::Error(e)) => Err(e),
            Err(Fault::Abort(_)) => Err(AxmlError::IoError),
        }
    }
}

/// Reading one chunk of a resource table at position `p`, where `strings`
/// are the strings of the table's earlier string pools: a string pool, whose
/// strings are appended, or a package, which is the item's result; parsing
/// gives up on any other chunk.
pub open spec fn spec_table_item(s: Seq<u8>, p: nat, strings: Seq<Seq<char>>)
    -> Result<(nat, Seq<Seq<char>>, Option<ResTablePackageView>), Fault>
{
    match spec_block_type(s, p) {
        Err(f) => Err(f),
        Ok((t, p1)) => if t == ChunkType::ResStringPoolType {
            match spec_string_pool(s, p1) {
                Err(f) => Err(f),
                Ok((pool, p2)) => Ok((p2, strings + pool.strings, None)),
            }
        } else if t == ChunkType::ResTablePackageType {
            match spec_package(s, p1) {
                Err(f) => Err(f),
                Ok((package, p2)) => Ok((p2, strings, Some(package))),
            }
        } else {
            Err(Fault::Abort(Abort::UnexpectedBlockType(spec_chunk_type_raw(t))))
        },
    }
}

/// Reading `n` chunks of a resource table from position `p`: where they
/// end, the strings of their string pools and their packages, in order
pub open spec fn spec_table_items(s: Seq<u8>, p: nat, n: nat)
    -> Result<(nat, Seq<Seq<char>>, Seq<ResTablePackageView>), Fault>
    decreases n,
{
    if n == 0 {
        Ok((p, Seq::empty(), Seq::empty()))
    } else {
        match spec_table_items(s, p, (n - 1) as nat) {
            Err(f) => Err(f),
            Ok((q, strings, packages)) => match spec_table_item(s, q, strings) {
                Err(f) => Err(f),
                Ok((q2, strings2, package)) => Ok((q2, strings2, match package {
                    Some(pk) => packages.push(pk),
                    None => packages,
                })),
            },
        }
    }
}

proof fn lemma_table_items_fault_persists(s: Seq<u8>, p: nat, i: nat, n: nat)
    requires
        i <= n,
        spec_table_items(s, p, i) is Err,
    ensures
        spec_table_items(s, p, n) == spec_table_items(s, p, i),
    decreases n,
{
    if n > i {
        lemma_table_items_fault_persists(s, p, i, (n - 1) as nat);
    }
}

/// Parsing a resource table whose chunk starts at position `p`: its
/// header, the number of packages (`u32`) and that many chunks, each a
/// string pool or a package; the table holds the packages.
pub open spec fn spec_res_table(s: Seq<u8>, p: nat) -> Result<(ResTableView, nat), Fault> {
    match spec_chunk_header(s, p, ChunkType::ResTableType) {
        Err(f) => Err(f),
        Ok((header, p1)) => match spec_u32(s, p1) {
            Err(f) => Err(f),
            Ok((package_count, p2)) => match spec_table_items(s, p2, package_count as nat) {
                Err(f) => Err(f),
                Ok((p3, _, packages)) => Ok((ResTableView { header, package_count, packages }, p3)),
            },
        },
    }
}

impl ResTable {
    /// Parse from a cursor of bytes at the start of the table's chunk, or give up
    pub fn parse_checked(axml_buff: &mut ByteCursor) -> (r: Result<Self, Fault>)
        ensures
            final(axml_buff).bytes() == old(axml_buff).bytes(),
            agrees_view(r, final(axml_buff).at(), spec_res_table(old(axml_buff).bytes(), old(axml_buff).at())),
    {
        let ghost s = axml_buff.bytes();
        let ghost p0 = axml_buff.at();

        // Parse chunk header
        let header = ChunkHeader::from_buff_checked(axml_buff, ChunkType::ResTableType)?;
        let ghost p1 = axml_buff.at();

        // Get package count
        let package_count = match axml_buff.read_u32_le() {
            Ok(v) => v,
            Err(e) => return Err(Fault::Error(e)),
        };
        let ghost p2 = axml_buff.at();
        assert(spec_chunk_header(s, p0, ChunkType::ResTableType) == Ok::<(ChunkHeader, nat), Fault>((header, p1)));
        assert(spec_u32(s, p1) == Ok::<(u32, nat), Fault>((package_count, p2)));

        let mut strings: Vec<String> = Vec::new();
        let mut packages: Vec<ResTablePackage> = Vec::new();
        proof {
            assert(strings.deep_view() =~= Seq::<Seq<char>>::empty());
            assert(Seq::new(packages@.len(), |j: int| packages@[j]@) =~= Seq::<ResTablePackageView>::empty());
        }
        let mut i: u32 = 0;
        while i < package_count
            invariant
                axml_buff.bytes() == s,
                s == old(axml_buff).bytes(),
                i <= package_count,
                spec_table_items(s, p2, i as nat) == Ok::<(nat, Seq<Seq<char>>, Seq<ResTablePackageView>), Fault>(
                    (axml_buff.at(), strings.deep_view(), Seq::new(packages@.len(), |j: int| packages@[j]@))),
                spec_res_table(s, old(axml_buff).at()) == match spec_table_items(s, p2, package_count as nat) {
                    Err(f) => Err(f),
                    Ok((p3, _, pks)) => Ok::<(ResTableView, nat), Fault>((ResTableView { header, package_count, packages: pks }, p3)),
                },
            decreases package_count - i,
        {
            let ghost before = Seq::new(packages@.len(), |j: int| packages@[j]@);
            match Self::parse_item(axml_buff, &mut strings) {
                Err(f) => {
                    proof {
                        lemma_table_items_fault_persists(s, p2, (i + 1) as nat, package_count as nat);
                    }
                    return Err(f);
                },
                Ok(None) => {},
                Ok(Some(package)) => {
                    packages.push(package);
                    proof {
                        assert(Seq::new(packages@.len(), |j: int| packages@[j]@) =~= before.push(package@));
                    }
                },
            }
            i = i + 1;
        }

        Ok(Self { header, package_count, packages })
    }

    /// Parse one chunk of the table: a string pool or a package
    fn parse_item(axml_buff: &mut ByteCursor, strings: &mut Vec<String>) -> (r: Result<Option<ResTablePackage>, Fault>)
        ensures
            final(axml_buff).bytes() == old(axml_buff).bytes(),
            match spec_table_item(old(axml_buff).bytes(), old(axml_buff).at(), old(strings).deep_view()) {
                Ok((p, st, package)) => r is Ok && final(axml_buff).at() == p && final(strings).deep_view() == st
                    && match package {
                        Some(pk) => r->Ok_0 matches Some(v) && v@ == pk,
                        None => r->Ok_0 is None,
                    },
                Err(f) => r == Err::<Option<ResTablePackage>, Fault>(f),
            },
    {
        let block_type = match ChunkType::parse_block_type(axml_buff) {
            Ok(t) => t,
            Err(e) => return Err(Fault::Error(e)),
        };
        match block_type {
            ChunkType::ResStringPoolType => {
                let ghost p1 = axml_buff.at();
                StringPool::from_buff_checked(axml_buff, strings)?;
                proof {
                    crate::chunks::string_pool::lemma_pool_own_strings(axml_buff.bytes(), p1);
                }
                Ok(None)
            },
            ChunkType::ResTablePackageType => {
                let package = ResTablePackage::parse_checked(axml_buff)?;
                Ok(Some(package))
            },
            _ => Err(Fault::Abort(Abort::UnexpectedBlockType(block_type.to_raw()))),
        }
    }

    /// Parse from a cursor of bytes at the start of the table's chunk
    pub fn parse(axml_buff: &mut ByteCursor) -> (r: Result<Self, AxmlError>)
        requires
            !gives_up(spec_res_table(old(axml_buff).bytes(), old(axml_buff).at())),
        ensures
            final(axml_buff).bytes() == old(axml_buff).bytes(),
            match spec_res_table(old(axml_buff).bytes(), old(axml_buff).at()) {
                Ok((v, p)) => r is Ok && r->Ok_0@ == v && final(axml_buff).at() == p,
                Err(f) => r is Err && r->Err_0 == error_of(f),
            },
    {
        match Self::parse_checked(axml_buff) {
            Ok(v) => Ok(v),
            Err(Fault::Error(e)) => Err(e),
            Err(Fault::Abort(_)) => Err(AxmlError::IoError),
        }
    }
}

} // verus!
