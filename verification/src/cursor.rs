//! A cursor of bytes
//!
//! The parser reads the binary document through a `ByteCursor`: the bytes
//! of the document and a position in them. Reading advances the position;
//! the position may be moved anywhere, also past the end, in which case
//! every read fails with `AxmlError::IoError`.
//!
//! Each read is also stated as a spec function on the bytes and a position,
//! which the chunk parsers compose into their own specifications.

use vstd::prelude::*;
use byteorder::ByteOrder;
use crate::errors::{AxmlError, Fault, eof};

verus! {

/// The `u16` that two bytes encode in little-endian order.
pub open spec fn le_u16(b0: u8, b1: u8) -> u16 {
    (b0 as int + 256 * (b1 as int)) as u16
}

/// The `u32` that four bytes encode in little-endian order.
pub open spec fn le_u32(b0: u8, b1: u8, b2: u8, b3: u8) -> u32 {
    (b0 as int + 256 * (b1 as int) + 65536 * (b2 as int) + 16777216 * (b3 as int)) as u32
}

/// Whether `n` bytes can be read at position `p` of `s`.
pub open spec fn has_bytes(s: Seq<u8>, p: nat, n: nat) -> bool {
    p + n <= s.len()
}

/// Reading a byte at position `p`.
pub open spec fn spec_u8(s: Seq<u8>, p: nat) -> Result<(u8, nat), Fault> {
    if has_bytes(s, p, 1) {
        Ok((s[p as int], p + 1))
    } else {
        Err(eof())
    }
}

/// Reading a little-endian `u16` at position `p`.
pub open spec fn spec_u16(s: Seq<u8>, p: nat) -> Result<(u16, nat), Fault> {
    if has_bytes(s, p, 2) {
        Ok((le_u16(s[p as int], s[p as int + 1]), p + 2))
    } else {
        Err(eof())
    }
}

/// Reading a little-endian `u32` at position `p`.
pub open spec fn spec_u32(s: Seq<u8>, p: nat) -> Result<(u32, nat), Fault> {
    if has_bytes(s, p, 4) {
        Ok((le_u32(s[p as int], s[p as int + 1], s[p as int + 2], s[p as int + 3]), p + 4))
    } else {
        Err(eof())
    }
}

/// The bytes that reading at most `n` bytes at position `p` gives: those up
/// to the end of `s` when fewer than `n` remain, none when `p` is past the end.
pub open spec fn spec_take(s: Seq<u8>, p: nat, n: nat) -> Seq<u8> {
    if p >= s.len() {
        Seq::empty()
    } else if p + n <= s.len() {
        s.subrange(p as int, p + n as int)
    } else {
        s.subrange(p as int, s.len() as int)
    }
}

/// Calls `byteorder::LittleEndian::read_u16` on the bytes from `at` on.
/// The crate reads the first two bytes of the slice as a little-endian
/// number, and panics on a slice shorter than two bytes.
#[verifier::external_body]
fn byteorder_read_u16(buf: &[u8], at: usize) -> (r: u16)
    requires
        at + 2 <= buf@.len(),
    ensures
        r == le_u16(buf@[at as int], buf@[at as int + 1]),
{
    byteorder::LittleEndian::read_u16(&buf[at..])
}

/// Calls `byteorder::LittleEndian::read_u32` on the bytes from `at` on.
/// The crate reads the first four bytes of the slice as a little-endian
/// number, and panics on a slice shorter than four bytes.
#[verifier::external_body]
fn byteorder_read_u32(buf: &[u8], at: usize) -> (r: u32)
    requires
        at + 4 <= buf@.len(),
    ensures
        r == le_u32(buf@[at as int], buf@[at as int + 1], buf@[at as int + 2], buf@[at as int + 3]),
{
    byteorder::LittleEndian::read_u32(&buf[at..])
}

/// Whether a parser's result `r`, with the cursor left at `p`, is what the
/// specification `spec` gives: the value and the position after it, or the
/// same fault.
pub open spec fn agrees<T>(r: Result<T, Fault>, p: nat, spec: Result<(T, nat), Fault>) -> bool {
    match spec {
        Ok((v, q)) => r == Ok::<T, Fault>(v) && p == q,
        Err(f) => r == Err::<T, Fault>(f),
    }
}

/// As `agrees`, for a parser whose value is related to the specification by its view.
pub open spec fn agrees_view<T: View>(r: Result<T, Fault>, p: nat, spec: Result<(T::V, nat), Fault>) -> bool {
    match spec {
        Ok((v, q)) => r is Ok && r->Ok_0@ == v && p == q,
        Err(f) => r is Err && r->Err_0 == f,
    }
}

/// Whether the specification gives up on the input.
pub open spec fn gives_up<T>(spec: Result<T, Fault>) -> bool {
    spec matches Err(Fault::Abort(_))
}

/// The error of a fault that is not a reason to give up.
pub open spec fn error_of(f: Fault) -> AxmlError {
    match f {
        Fault::Error(e) => e,
        Fault::Abort(_) => AxmlError::IoError,
    }
}

/// A fault as an error, where it is not a reason to give up.
pub fn settle<T>(r: Result<T, Fault>) -> (out: Result<T, AxmlError>)
    requires
        !gives_up(r),
    ensures
        match r {
            Ok(v) => out == Ok::<T, AxmlError>(v),
            Err(f) => out == Err::<T, AxmlError>(error_of(f)),
        },
{
    match r {
        Ok(v) => Ok(v),
        Err(Fault::Error(e)) => Err(e),
        Err(Fault::Abort(_)) => Err(AxmlError::IoError),
    }
}

/// Parsing `n` items one after the other from position `p`, where
/// `item(k, q)` parses item number `k` at position `q`: the items and the
/// position after the last one, or the fault of the first item that fails.
pub open spec fn spec_repeat<T>(item: spec_fn(nat, nat) -> Result<(T, nat), Fault>, p: nat, n: nat) -> Result<(Seq<T>, nat), Fault>
    decreases n,
{
    if n == 0 {
        Ok((Seq::empty(), p))
    } else {
        match spec_repeat(item, p, (n - 1) as nat) {
            Err(f) => Err(f),
            Ok((items, q)) => match item((n - 1) as nat, q) {
                Err(f) => Err(f),
                Ok((v, q2)) => Ok((items.push(v), q2)),
            },
        }
    }
}

/// Once an item fails, so does every longer repetition, with the same fault.
pub proof fn lemma_repeat_fault_persists<T>(item: spec_fn(nat, nat) -> Result<(T, nat), Fault>, p: nat, i: nat, n: nat)
    requires
        i <= n,
        spec_repeat(item, p, i) is Err,
    ensures
        spec_repeat(item, p, n) == spec_repeat(item, p, i),
    decreases n,
{
    if n > i {
        lemma_repeat_fault_persists(item, p, i, (n - 1) as nat);
    }
}

/// A successful repetition of `n` items yields `n` items.
pub proof fn lemma_repeat_len<T>(item: spec_fn(nat, nat) -> Result<(T, nat), Fault>, p: nat, n: nat)
    ensures
        spec_repeat(item, p, n) matches Ok((items, _)) ==> items.len() == n,
    decreases n,
{
    if n > 0 {
        lemma_repeat_len(item, p, (n - 1) as nat);
    }
}

/// Bytes with a read position
pub struct ByteCursor {
    data: Vec<u8>,
    pos: u64,
}

impl ByteCursor {
    /// The bytes under the cursor
    pub closed spec fn bytes(&self) -> Seq<u8> {
        self.data@
    }

    /// The read position
    pub closed spec fn at(&self) -> nat {
        self.pos as nat
    }

    /// A cursor at the start of `data`
    pub fn new(data: Vec<u8>) -> (c: Self)
        ensures
            c.bytes() == data@,
            c.at() == 0,
    {
        ByteCursor { data, pos: 0 }
    }

    /// The read position
    pub fn position(&self) -> (p: u64)
        ensures
            p == self.at(),
    {
        self.pos
    }

    /// Move the read position, possibly past the end
    pub fn set_position(&mut self, pos: u64)
        ensures
            final(self).bytes() == old(self).bytes(),
            final(self).at() == pos,
    {
        self.pos = pos;
    }

    /// The number of bytes under the cursor
    pub fn len(&self) -> (n: usize)
        ensures
            n == self.bytes().len(),
    {
        self.data.len()
    }

    /// The bytes under the cursor
    pub fn get_ref(&self) -> (r: &Vec<u8>)
        ensures
            r@ == self.bytes(),
    {
        &self.data
    }

    /// Give the bytes back
    pub fn into_inner(self) -> (r: Vec<u8>)
        ensures
            r@ == self.bytes(),
    {
        self.data
    }

    /// Whether `n` bytes are left to read
    fn remaining_at_least(&self, n: u64) -> (b: bool)
        ensures
            b == has_bytes(self.bytes(), self.at(), n as nat),
            b ==> self.pos + n <= self.data@.len() <= usize::MAX,
    {
        let len = self.data.len() as u64;
        self.pos <= len && len - self.pos >= n
    }

    /// Read one byte
    pub fn read_u8(&mut self) -> (r: Result<u8, AxmlError>)
        ensures
            final(self).bytes() == old(self).bytes(),
            match spec_u8(old(self).bytes(), old(self).at()) {
                Ok((v, p)) => r == Ok::<u8, AxmlError>(v) && final(self).at() == p,
                Err(_) => r == Err::<u8, AxmlError>(AxmlError::IoError) && final(self).at() == old(self).at(),
            },
    {
        if self.remaining_at_least(1) {
            let v = self.data[self.pos as usize];
            self.pos = self.pos + 1;
            Ok(v)
        } else {
            Err(AxmlError::IoError)
        }
    }

    /// Read a little-endian `u16`
    pub fn read_u16_le(&mut self) -> (r: Result<u16, AxmlError>)
        ensures
            final(self).bytes() == old(self).bytes(),
            match spec_u16(old(self).bytes(), old(self).at()) {
                Ok((v, p)) => r == Ok::<u16, AxmlError>(v) && final(self).at() == p,
                Err(_) => r == Err::<u16, AxmlError>(AxmlError::IoError) && final(self).at() == old(self).at(),
            },
    {
        if self.remaining_at_least(2) {
            let v = byteorder_read_u16(self.data.as_slice(), self.pos as usize);
            self.pos = self.pos + 2;
            Ok(v)
        } else {
            Err(AxmlError::IoError)
        }
    }

    /// Read a little-endian `u32`
    pub fn read_u32_le(&mut self) -> (r: Result<u32, AxmlError>)
        ensures
            final(self).bytes() == old(self).bytes(),
            match spec_u32(old(self).bytes(), old(self).at()) {
                Ok((v, p)) => r == Ok::<u32, AxmlError>(v) && final(self).at() == p,
                Err(_) => r == Err::<u32, AxmlError>(AxmlError::IoError) && final(self).at() == old(self).at(),
            },
    {
        if self.remaining_at_least(4) {
            let v = byteorder_read_u32(self.data.as_slice(), self.pos as usize);
            self.pos = self.pos + 4;
            Ok(v)
        } else {
            Err(AxmlError::IoError)
        }
    }

    /// Read at most `n` bytes: fewer when the end comes first
    pub fn read_up_to(&mut self, n: u64) -> (r: Vec<u8>)
        ensures
            final(self).bytes() == old(self).bytes(),
            r@ == spec_take(old(self).bytes(), old(self).at(), n as nat),
            final(self).at() == old(self).at() + r@.len(),
    {
        let len = self.data.len() as u64;
        let mut out: Vec<u8> = Vec::new();
        if self.pos >= len {
            return out;
        }
        let end: u64 = if len - self.pos >= n { self.pos + n } else { len };
        let start: u64 = self.pos;
        let mut i: u64 = start;
        while i < end
            invariant
                start <= i <= end <= len,
                len == self.data@.len(),
                self.data@.len() <= usize::MAX,
                start == self.pos,
                out@ == self.data@.subrange(start as int, i as int),
            decreases end - i,
        {
            proof {
                assert(self.data@.subrange(start as int, i + 1) =~= self.data@.subrange(start as int, i as int).push(self.data@[i as int]));
            }
            out.push(self.data[i as usize]);
            i = i + 1;
        }
        self.pos = end;
        out
    }
}

} // verus!
