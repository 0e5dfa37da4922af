//! The arena: the buffer's bytes, with bump allocation in a 16-bit address space.
use vstd::prelude::*;
use crate::encoding::{be_encode, be_value, decode_be, encode_be, lemma_be_encode_len};
use crate::error::NP_Error;

verus! {

/// The largest size a buffer may reach.
pub const MAX_SIZE: usize = 65535;

/// Bytes at the front of every buffer: the root pointer and a reserved field.
pub const HEADER_SIZE: usize = 4;

/// `s` with `d` written over it from `at` on.
pub open spec fn splice(s: Seq<u8>, at: int, d: Seq<u8>) -> Seq<u8> {
    s.subrange(0, at) + d + s.subrange(at + d.len(), s.len() as int)
}

/// The 16-bit big-endian number stored at `at`.
pub open spec fn u16_at(s: Seq<u8>, at: int) -> nat {
    be_value(s.subrange(at, at + 2))
}

/// Owns a buffer's bytes; cells are appended and never freed one by one.
pub struct NP_Memory {
    bytes: Vec<u8>,
}

impl View for NP_Memory {
    type V = Seq<u8>;

    closed spec fn view(&self) -> Seq<u8> {
        self.bytes@
    }
}

impl NP_Memory {
    /// A buffer holding only a zeroed header.
    pub fn new_empty() -> (r: NP_Memory)
        ensures
            r@ == Seq::new(HEADER_SIZE as nat, |i: int| 0u8),
    {
        let r = NP_Memory { bytes: vec![0u8, 0u8, 0u8, 0u8] };
        assert(r@ =~= Seq::new(HEADER_SIZE as nat, |i: int| 0u8));
        r
    }

    /// Takes existing bytes as they are.
    pub fn from_bytes(bytes: Vec<u8>) -> (r: NP_Memory)
        ensures
            r@ == bytes@,
    {
        NP_Memory { bytes }
    }

    /// Hands the bytes out.
    pub fn into_bytes(self) -> (r: Vec<u8>)
        ensures
            r@ == self@,
    {
        self.bytes
    }

    /// A copy of the bytes.
    pub fn read_bytes(&self) -> (r: Vec<u8>)
        ensures
            r@ == self@,
    {
        self.bytes.clone()
    }

    /// The current length.
    pub fn len(&self) -> (r: usize)
        ensures
            r == self@.len(),
    {
        self.bytes.len()
    }

    /// Appends `data`, returning the offset where it starts.
    pub fn malloc_borrow(&mut self, data: &Vec<u8>) -> (r: Result<u16, NP_Error>)
        ensures
            old(self)@.len() + data@.len() <= MAX_SIZE ==> r == Ok::<u16, NP_Error>(
                old(self)@.len() as u16,
            ) && final(self)@ == old(self)@ + data@,
            old(self)@.len() + data@.len() > MAX_SIZE ==> r == Err::<u16, NP_Error>(
                NP_Error::OutOfSpace,
            ) && final(self)@ == old(self)@,
    {
        let start: usize = self.bytes.len();
        if data.len() > MAX_SIZE || start > MAX_SIZE - data.len() {
            return Err(NP_Error::OutOfSpace);
        }
        let mut i: usize = 0;
        while i < data.len()
            invariant
                start == old(self)@.len(),
                start + data@.len() <= MAX_SIZE,
                i <= data@.len(),
                self.bytes@ == old(self)@ + data@.subrange(0, i as int),
            decreases data@.len() - i,
        {
            self.bytes.push(data[i]);
            i = i + 1;
            assert(self.bytes@ =~= old(self)@ + data@.subrange(0, i as int));
        }
        assert(data@.subrange(0, data@.len() as int) =~= data@);
        Ok(start as u16)
    }

    /// Appends `n` zero bytes, returning the offset where they start.
    pub fn malloc(&mut self, n: usize) -> (r: Result<u16, NP_Error>)
        ensures
            old(self)@.len() + n <= MAX_SIZE ==> r == Ok::<u16, NP_Error>(
                old(self)@.len() as u16,
            ) && final(self)@ == old(self)@ + Seq::new(n as nat, |i: int| 0u8),
            old(self)@.len() + n > MAX_SIZE ==> r == Err::<u16, NP_Error>(NP_Error::OutOfSpace)
                && final(self)@ == old(self)@,
    {
        let start: usize = self.bytes.len();
        if n > MAX_SIZE || start > MAX_SIZE - n {
            return Err(NP_Error::OutOfSpace);
        }
        let mut i: usize = 0;
        while i < n
            invariant
                start == old(self)@.len(),
                start + n <= MAX_SIZE,
                i <= n,
                self.bytes@ == old(self)@ + Seq::new(i as nat, |j: int| 0u8),
            decreases n - i,
        {
            self.bytes.push(0u8);
            i = i + 1;
            assert(self.bytes@ =~= old(self)@ + Seq::new(i as nat, |j: int| 0u8));
        }
        Ok(start as u16)
    }

    /// The byte at `addr`, or `Corrupt` when it lies outside the buffer.
    pub fn read_u8(&self, addr: usize) -> (r: Result<u8, NP_Error>)
        ensures
            addr < self@.len() ==> r == Ok::<u8, NP_Error>(self@[addr as int]),
            addr >= self@.len() ==> r == Err::<u8, NP_Error>(NP_Error::Corrupt),
    {
        if addr < self.bytes.len() {
            Ok(self.bytes[addr])
        } else {
            Err(NP_Error::Corrupt)
        }
    }

    /// The big-endian address at `addr`, or `Corrupt` when it lies outside the buffer.
    pub fn read_u16(&self, addr: usize) -> (r: Result<u16, NP_Error>)
        ensures
            addr + 2 <= self@.len() ==> r == Ok::<u16, NP_Error>(u16_at(self@, addr as int) as u16)
                && u16_at(self@, addr as int) < 65536,
            addr + 2 > self@.len() ==> r == Err::<u16, NP_Error>(NP_Error::Corrupt),
    {
        if addr < self.bytes.len() && self.bytes.len() - addr >= 2 {
            let v = decode_be(&self.bytes, addr, 2);
            proof {
                crate::encoding::lemma_be_value_bound(self@.subrange(addr as int, addr + 2));
                reveal_with_fuel(crate::encoding::pow256, 3);
            }
            Ok(v as u16)
        } else {
            Err(NP_Error::Corrupt)
        }
    }

    /// `n` bytes from `addr`, or `Corrupt` when they pass the end.
    pub fn read_slice(&self, addr: usize, n: usize) -> (r: Result<Vec<u8>, NP_Error>)
        ensures
            addr + n <= self@.len() ==> (r matches Ok(v) && v@ == self@.subrange(
                addr as int,
                addr + n,
            )),
            addr + n > self@.len() ==> r == Err::<Vec<u8>, NP_Error>(NP_Error::Corrupt),
    {
        if addr > self.bytes.len() || self.bytes.len() - addr < n {
            return Err(NP_Error::Corrupt);
        }
        let len: usize = self.bytes.len();
        let mut v: Vec<u8> = Vec::new();
        let mut i: usize = 0;
        while i < n
            invariant
                len == self@.len(),
                addr + n <= self@.len(),
                i <= n,
                v@ == self@.subrange(addr as int, addr + i),
            decreases n - i,
        {
            v.push(self.bytes[addr + i]);
            i = i + 1;
            assert(v@ =~= self@.subrange(addr as int, addr + i));
        }
        Ok(v)
    }

    /// Writes `data` over the bytes from `at` on.
    pub fn write_bytes(&mut self, at: usize, data: &Vec<u8>)
        requires
            at + data@.len() <= old(self)@.len(),
        ensures
            final(self)@ == splice(old(self)@, at as int, data@),
    {
        let len: usize = self.bytes.len();
        let mut i: usize = 0;
        while i < data.len()
            invariant
                len == old(self)@.len(),
                at + data@.len() <= old(self)@.len(),
                i <= data@.len(),
                self@.len() == old(self)@.len(),
                forall|j: int| 0 <= j < at || at + i <= j < self@.len() ==> self@[j] == old(self)@[j],
                forall|j: int| at <= j < at + i ==> self@[j] == data@[j - at],
            decreases data@.len() - i,
        {
            self.bytes.set(at + i, data[i]);
            i = i + 1;
        }
        assert(self@ =~= splice(old(self)@, at as int, data@));
    }

    /// Stores a 16-bit big-endian address at `at`.
    pub fn write_address(&mut self, at: usize, value: u16)
        requires
            at + 2 <= old(self)@.len(),
        ensures
            final(self)@ == splice(old(self)@, at as int, be_encode(value as nat, 2)),
    {
        let b = encode_be(value as u64, 2);
        proof {
            lemma_be_encode_len(value as nat, 2);
        }
        self.write_bytes(at, &b);
    }
}

} // verus!
