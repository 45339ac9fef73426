//! Defines structures related to resource table entries.

use vstd::prelude::*;
use crate::chunks::common::{ResTableRef, spec_res_table_ref};
use crate::chunks::res_value::{ResValue, spec_res_value};
use crate::chunks::string_pool::ResStringPool_ref;
use crate::cursor::{ByteCursor, spec_u16, spec_u32, spec_repeat, lemma_repeat_fault_persists,
    agrees, agrees_view, gives_up, settle, error_of};
use crate::errors::{AxmlError, Fault};

verus! {

/// A single name/value mapping in a ResTable_map_entry.
#[allow(non_camel_case_types)]
#[derive(Debug, Clone, Copy, PartialEq, Eq, Structural)]
pub struct ResTable_map {
    pub name: ResTableRef,
    pub value: ResValue,
}

/// Reading a name/value mapping: a reference followed by a value.
pub open spec fn spec_res_table_map(s: Seq<u8>, p: nat) -> Result<(ResTable_map, nat), Fault> {
    match spec_res_table_ref(s, p) {
        Err(f) => Err(f),
        Ok((name, p1)) => match spec_res_value(s, p1) {
            Err(f) => Err(f),
            Ok((value, p2)) => Ok((ResTable_map { name, value }, p2)),
        },
    }
}

impl ResTable_map {
    /// Parses a ResTable_map, or gives up
    pub fn parse_checked(axml_buff: &mut ByteCursor) -> (r: Result<Self, Fault>)
        ensures
            final(axml_buff).bytes() == old(axml_buff).bytes(),
            agrees(r, final(axml_buff).at(), spec_res_table_map(old(axml_buff).bytes(), old(axml_buff).at())),
    {
        let name = match ResTableRef::parse(axml_buff) {
            Ok(v) => v,
            Err(e) => return Err(Fault::Error(e)),
        };
        let value = ResValue::from_buff_checked(axml_buff)?;
        Ok(Self { name, value })
    }

    /// Parses a ResTable_map from the current position of the AXML buffer.
    pub fn parse(axml_buff: &mut ByteCursor) -> (r: Result<Self, AxmlError>)
        requires
            !gives_up(spec_res_table_map(old(axml_buff).bytes(), old(axml_buff).at())),
        ensures
            final(axml_buff).bytes() == old(axml_buff).bytes(),
            match spec_res_table_map(old(axml_buff).bytes(), old(axml_buff).at()) {
                Ok((v, p)) => r == Ok::<ResTable_map, AxmlError>(v) && final(axml_buff).at() == p,
                Err(f) => r == Err::<ResTable_map, AxmlError>(error_of(f)),
            },
    {
        settle(Self::parse_checked(axml_buff))
    }
}

/// The content of a map entry, as plain values
pub struct MapEntryContentView {
    pub parent: ResTableRef,
    pub count: u32,
    pub maps: Seq<ResTable_map>,
}

/// Helper structure to represent the content of a complex ResTable_entry (a map).
/// This is not a direct structure from the spec but helps manage the data.
/// Corresponds to ResTable_map_entry in the C++ sources, minus the initial ResTable_entry fields.
#[allow(non_camel_case_types)]
#[derive(Debug)]
pub struct ResTable_map_entry_content {
    /// The parent resource identifier of this map.
    pub parent: ResTableRef,
    /// The number of ResTable_map structures that follow.
    pub count: u32,
    /// The array of ResTable_map structures.
    pub maps: Vec<ResTable_map>,
}

impl View for ResTable_map_entry_content {
    type V = MapEntryContentView;

    open spec fn view(&self) -> MapEntryContentView {
        MapEntryContentView { parent: self.parent, count: self.count, maps: self.maps@ }
    }
}

/// Reading one mapping of a map entry
pub open spec fn map_item(s: Seq<u8>) -> spec_fn(nat, nat) -> Result<(ResTable_map, nat), Fault> {
    |k: nat, q: nat| spec_res_table_map(s, q)
}

/// Reading the mappings of a map entry, the one after the other.
pub open spec fn spec_maps(s: Seq<u8>, p: nat, n: nat) -> Result<(Seq<ResTable_map>, nat), Fault> {
    spec_repeat(map_item(s), p, n)
}

/// Reading the content of a map entry: the parent reference, the number
/// of mappings (`u32`) and that many mappings.
pub open spec fn spec_map_entry_content(s: Seq<u8>, p: nat) -> Result<(MapEntryContentView, nat), Fault> {
    match spec_res_table_ref(s, p) {
        Err(f) => Err(f),
        Ok((parent, p1)) => match spec_u32(s, p1) {
            Err(f) => Err(f),
            Ok((count, p2)) => match spec_maps(s, p2, count as nat) {
                Err(f) => Err(f),
                Ok((maps, p3)) => Ok((MapEntryContentView { parent, count, maps }, p3)),
            },
        },
    }
}

impl ResTable_map_entry_content {
    /// Parses the content of a map entry, or gives up
    #[verifier::loop_isolation(false)]
    pub fn parse_checked(axml_buff: &mut ByteCursor) -> (r: Result<Self, Fault>)
        ensures
            final(axml_buff).bytes() == old(axml_buff).bytes(),
            agrees_view(r, final(axml_buff).at(), spec_map_entry_content(old(axml_buff).bytes(), old(axml_buff).at())),
    {
        let ghost s = axml_buff.bytes();
        let parent = match ResTableRef::parse(axml_buff) {
            Ok(v) => v,
            Err(e) => return Err(Fault::Error(e)),
        };
        let count = match axml_buff.read_u32_le() {
            Ok(v) => v,
            Err(e) => return Err(Fault::Error(e)),
        };
        let ghost p2 = axml_buff.at();
        let ghost item = map_item(s);
        let mut maps: Vec<ResTable_map> = Vec::new();
        let mut i: u32 = 0;
        while i < count
            invariant
                axml_buff.bytes() == s,
                i <= count,
                spec_repeat(item, p2, i as nat) == Ok::<(Seq<ResTable_map>, nat), Fault>((maps@, axml_buff.at())),
            decreases count - i,
        {
            let m = ResTable_map::parse_checked(axml_buff);
            match m {
                Ok(m) => {
                    maps.push(m);
                },
                Err(f) => {
                    proof {
                        lemma_repeat_fault_persists(item, p2, (i + 1) as nat, count as nat);
                    }
                    return Err(f);
                },
            }
            i = i + 1;
        }
        Ok(Self { parent, count, maps })
    }

    /// Parses the content of a ResTable_map_entry from the current position of the AXML buffer.
    /// Assumes the initial ResTable_entry fields (size, flags, key) have already been read.
    pub fn parse(axml_buff: &mut ByteCursor) -> (r: Result<Self, AxmlError>)
        requires
            !gives_up(spec_map_entry_content(old(axml_buff).bytes(), old(axml_buff).at())),
        ensures
            final(axml_buff).bytes() == old(axml_buff).bytes(),
            match spec_map_entry_content(old(axml_buff).bytes(), old(axml_buff).at()) {
                Ok((v, p)) => r is Ok && r->Ok_0@ == v && final(axml_buff).at() == p,
                Err(f) => r is Err && r->Err_0 == error_of(f),
            },
    {
        match Self::parse_checked(axml_buff) {
            Ok(v) => Ok(v),
            Err(f) => Err(error_of_fault(f)),
        }
    }
}

/// The error of a fault that is not a reason to give up
fn error_of_fault(f: Fault) -> (e: AxmlError)
    ensures
        e == error_of(f),
{
    match f {
        Fault::Error(e) => e,
        Fault::Abort(_) => AxmlError::IoError,
    }
}

/// A resource entry, as plain values
pub struct ResTableEntryView {
    pub size: u16,
    pub flags: u16,
    pub key: ResStringPool_ref,
    pub value: Option<ResValue>,
    pub complex_map: Option<MapEntryContentView>,
}

/// Represents a resource entry in the resource table.
/// An entry can be simple (pointing to a Res_value) or complex (a map of name/value pairs).
#[allow(non_camel_case_types)]
#[derive(Debug)]
pub struct ResTable_entry {
    /// Total size of this entry (header plus value or map).
    pub size: u16,
    /// Flags associated with this entry.
    pub flags: u16,
    /// Reference to the key string for this entry in the key string pool.
    pub key: ResStringPool_ref,
    /// The value of this entry, if it's a simple type.
    pub value: Option<ResValue>,
    /// The map of name/value pairs, if this is a complex (map) type.
    pub complex_map: Option<ResTable_map_entry_content>,
}

impl View for ResTable_entry {
    type V = ResTableEntryView;

    open spec fn view(&self) -> ResTableEntryView {
        ResTableEntryView {
            size: self.size,
            flags: self.flags,
            key: self.key,
            value: self.value,
            complex_map: match self.complex_map {
                Some(c) => Some(c@),
                None => None,
            },
        }
    }
}

/// Whether the flags mark an entry as complex (a map): bit 0
pub open spec fn is_complex_flags(flags: u16) -> bool {
    flags % 2 == 1
}

/// Reading a resource entry: size (`u16`), flags (`u16`), key (`u32`), then a
/// map content when the flags mark the entry complex, else a single value.
pub open spec fn spec_res_table_entry(s: Seq<u8>, p: nat) -> Result<(ResTableEntryView, nat), Fault> {
    match spec_u16(s, p) {
        Err(f) => Err(f),
        Ok((size, p1)) => match spec_u16(s, p1) {
            Err(f) => Err(f),
            Ok((flags, p2)) => match spec_u32(s, p2) {
                Err(f) => Err(f),
                Ok((key_index, p3)) => {
                    let key = ResStringPool_ref { index: key_index };
                    if is_complex_flags(flags) {
                        match spec_map_entry_content(s, p3) {
                            Err(f) => Err(f),
                            Ok((c, p4)) => Ok((ResTableEntryView { size, flags, key, value: None, complex_map: Some(c) }, p4)),
                        }
                    } else {
                        match spec_res_value(s, p3) {
                            Err(f) => Err(f),
                            Ok((v, p4)) => Ok((ResTableEntryView { size, flags, key, value: Some(v), complex_map: None }, p4)),
                        }
                    }
                },
            },
        },
    }
}

impl ResTable_entry {
    pub const FLAG_COMPLEX: u16 = 0x0001;
    pub const FLAG_PUBLIC: u16 = 0x0002;

    /// Parses a resource entry, or gives up
    pub fn parse_checked(axml_buff: &mut ByteCursor) -> (r: Result<Self, Fault>)
        ensures
            final(axml_buff).bytes() == old(axml_buff).bytes(),
            agrees_view(r, final(axml_buff).at(), spec_res_table_entry(old(axml_buff).bytes(), old(axml_buff).at())),
    {
        let size = match axml_buff.read_u16_le() {
            Ok(v) => v,
            Err(e) => return Err(Fault::Error(e)),
        };
        let flags = match axml_buff.read_u16_le() {
            Ok(v) => v,
            Err(e) => return Err(Fault::Error(e)),
        };
        let key_index = match axml_buff.read_u32_le() {
            Ok(v) => v,
            Err(e) => return Err(Fault::Error(e)),
        };
        let key = ResStringPool_ref { index: key_index };

        let mut value = None;
        let mut complex_map = None;

        if flags % 2 == 1 {
            // This is a ResTable_map_entry: its own fields follow the key.
            complex_map = Some(ResTable_map_entry_content::parse_checked(axml_buff)?);
        } else {
            // This is a simple ResTable_entry, followed by a Res_value.
            value = Some(ResValue::from_buff_checked(axml_buff)?);
        }
        Ok(Self { size, flags, key, value, complex_map })
    }

    /// Parses a ResTable_entry from the current position of the AXML buffer.
    pub fn parse(axml_buff: &mut ByteCursor) -> (r: Result<Self, AxmlError>)
        requires
            !gives_up(spec_res_table_entry(old(axml_buff).bytes(), old(axml_buff).at())),
        ensures
            final(axml_buff).bytes() == old(axml_buff).bytes(),
            match spec_res_table_entry(old(axml_buff).bytes(), old(axml_buff).at()) {
                Ok((v, p)) => r is Ok && r->Ok_0@ == v && final(axml_buff).at() == p,
                Err(f) => r is Err && r->Err_0 == error_of(f),
            },
    {
        match Self::parse_checked(axml_buff) {
            Ok(v) => Ok(v),
            Err(f) => Err(error_of_fault(f)),
        }
    }
}

} // verus!
