//! Per-type codecs: how each scalar is laid out in its value allocation.
use vstd::prelude::*;
use vstd::utf8::{decode_utf8, encode_utf8, valid_utf8};
use crate::encoding::{be_encode, be_value, decode_be, encode_be, lemma_be_encode_len, lemma_be_round_trip, lemma_be_value_bound, pow256};
use crate::error::NP_Error;
use crate::memory::NP_Memory;
use crate::schema::NP_Parsed_Schema;

verus! {

/// The number held by the `w` bytes at `addr`, if they lie inside `bytes`.
pub open spec fn fixed_at(bytes: Seq<u8>, addr: int, w: nat) -> Option<nat> {
    if 0 <= addr && addr + w <= bytes.len() {
        Some(be_value(bytes.subrange(addr, addr + w)))
    } else {
        None
    }
}

/// Marks the types that can stand as a scalar in a buffer.
pub trait NP_Scalar {

}

/// A type whose values a buffer can hold: its tag, its encoding and decoding.
pub trait NP_Value: View + Sized {
    /// The tag of the schema type that holds this type.
    spec fn spec_type_key() -> u8;

    /// The bytes of the value allocation for `v`.
    spec fn encoded(v: Self::V) -> Seq<u8>;

    /// The value whose allocation starts at `addr`, if the bytes there form one.
    spec fn decoded(bytes: Seq<u8>, addr: int) -> Option<Self::V>;

    /// Whether every value has an allocation of the same size.
    spec fn fixed_size() -> bool;

    /// The error a read at `addr` gives when the bytes there form no value:
    /// `Utf8` for stored text that is not UTF-8, else `Corrupt`.
    spec fn read_error(bytes: Seq<u8>, addr: int) -> NP_Error;

    /// The value that a schema node supplies when none is stored.
    spec fn schema_default(n: NP_Parsed_Schema) -> Option<Self::V>;

    /// What was encoded decodes back.
    proof fn lemma_decode_encoded(v: Self::V, bytes: Seq<u8>, addr: int)
        requires
            Self::encoded(v).len() <= 65535,
            0 <= addr,
            addr + Self::encoded(v).len() <= bytes.len(),
            bytes.subrange(addr, addr + Self::encoded(v).len()) == Self::encoded(v),
        ensures
            Self::decoded(bytes, addr) == Some(v),
    ;

    /// A decoded value's allocation lies inside the bytes it was read from.
    proof fn lemma_decoded_fits(bytes: Seq<u8>, addr: int)
        requires
            Self::decoded(bytes, addr) is Some,
        ensures
            0 <= addr,
            addr + Self::encoded(Self::decoded(bytes, addr)->Some_0).len() <= bytes.len(),
    ;

    /// Fixed-size types give every value the same size.
    proof fn lemma_fixed(v: Self::V, w: Self::V)
        requires
            Self::fixed_size(),
        ensures
            Self::encoded(v).len() == Self::encoded(w).len(),
    ;

    fn type_idx() -> (r: u8)
        ensures
            r == Self::spec_type_key(),
    ;

    fn is_fixed() -> (r: bool)
        ensures
            r == Self::fixed_size(),
    ;

    /// The allocation bytes for this value.
    fn to_value_bytes(&self) -> (r: Vec<u8>)
        ensures
            r@ == Self::encoded(self@),
    ;

    /// Reads the value whose allocation starts at `addr`.
    fn into_value(memory: &NP_Memory, addr: usize) -> (r: Result<Self, NP_Error>)
        ensures
            match r {
                Ok(v) => Self::decoded(memory@, addr as int) == Some(v@),
                Err(e) => Self::decoded(memory@, addr as int) is None && e == Self::read_error(
                    memory@,
                    addr as int,
                ),
            },
            addr >= memory@.len() ==> r == Err::<Self, NP_Error>(NP_Error::Corrupt),
    ;

    /// The schema's default for this type.
    fn default_value(schema: &NP_Parsed_Schema) -> (r: Option<Self>)
        ensures
            match r {
                Some(v) => Self::schema_default(*schema) == Some(v@),
                None => Self::schema_default(*schema) is None,
            },
    ;
}

/// Reads `w` bytes at `addr` as a big-endian number.
fn read_fixed(memory: &NP_Memory, addr: usize, w: usize) -> (r: Result<u64, NP_Error>)
    requires
        w <= 8,
    ensures
        match r {
            Ok(v) => fixed_at(memory@, addr as int, w as nat) == Some(v as nat),
            Err(e) => fixed_at(memory@, addr as int, w as nat) is None && e == NP_Error::Corrupt,
        },
{
    let b = memory.read_slice(addr, w);
    match b {
        Ok(s) => {
            let v = decode_be(&s, 0, w);
            assert(s@.subrange(0, w as int) =~= s@);
            Ok(v)
        },
        Err(e) => Err(e),
    }
}

proof fn lemma_fixed_round_trip(v: nat, w: nat, bytes: Seq<u8>, addr: int)
    requires
        v < pow256(w),
        0 <= addr,
        addr + w <= bytes.len(),
        bytes.subrange(addr, addr + w) == be_encode(v, w),
    ensures
        fixed_at(bytes, addr, w) == Some(v),
{
    lemma_be_round_trip(v, w);
}

proof fn lemma_pow_values()
    ensures
        pow256(1) == 0x100,
        pow256(2) == 0x1_0000,
        pow256(4) == 0x1_0000_0000,
        pow256(8) == 0x1_0000_0000_0000_0000,
{
    reveal_with_fuel(pow256, 9);
}

impl NP_Scalar for bool {

}

impl NP_Value for bool {
    open spec fn spec_type_key() -> u8 {
        15
    }

    open spec fn encoded(v: bool) -> Seq<u8> {
        seq![if v { 1u8 } else { 0u8 }]
    }

    open spec fn decoded(bytes: Seq<u8>, addr: int) -> Option<bool> {
        if 0 <= addr < bytes.len() {
            Some(bytes[addr] == 1)
        } else {
            None
        }
    }

    open spec fn read_error(bytes: Seq<u8>, addr: int) -> NP_Error {
        NP_Error::Corrupt
    }

    open spec fn fixed_size() -> bool {
        true
    }

    open spec fn schema_default(n: NP_Parsed_Schema) -> Option<bool> {
        match n {
            NP_Parsed_Schema::Boolean { default } => default,
            _ => None,
        }
    }

    proof fn lemma_decode_encoded(v: bool, bytes: Seq<u8>, addr: int) {
        assert(bytes[addr] == bytes.subrange(addr, addr + 1)[0]);
    }

    proof fn lemma_decoded_fits(bytes: Seq<u8>, addr: int) {
    }

    proof fn lemma_fixed(v: bool, w: bool) {
    }

    fn type_idx() -> (r: u8) {
        15
    }

    fn is_fixed() -> (r: bool) {
        true
    }

    fn to_value_bytes(&self) -> (r: Vec<u8>) {
        let b: u8 = if *self {
            1
        } else {
            0
        };
        let r = vec![b];
        assert(r@ =~= Self::encoded(self@));
        r
    }

    fn into_value(memory: &NP_Memory, addr: usize) -> (r: Result<bool, NP_Error>) {
        match memory.read_u8(addr) {
            Ok(x) => Ok(x == 1),
            Err(e) => Err(e),
        }
    }

    fn default_value(schema: &NP_Parsed_Schema) -> (r: Option<bool>) {
        match schema {
            NP_Parsed_Schema::Boolean { default } => *default,
            _ => None,
        }
    }
}

proof fn lemma_fixed_len_u8(v: u8)
    ensures
        <u8 as NP_Value>::encoded(v).len() == 1,
{
    lemma_be_encode_len(v as nat, 1);
}

impl NP_Scalar for u8 {

}

impl NP_Value for u8 {
    open spec fn spec_type_key() -> u8 {
        8
    }

    open spec fn encoded(v: u8) -> Seq<u8> {
        be_encode(v as nat, 1)
    }

    open spec fn decoded(bytes: Seq<u8>, addr: int) -> Option<u8> {
        match fixed_at(bytes, addr, 1) {
            Some(n) => Some(n as u8),
            None => None,
        }
    }

    open spec fn read_error(bytes: Seq<u8>, addr: int) -> NP_Error {
        NP_Error::Corrupt
    }

    open spec fn fixed_size() -> bool {
        true
    }

    open spec fn schema_default(n: NP_Parsed_Schema) -> Option<u8> {
        None
    }

    proof fn lemma_decode_encoded(v: u8, bytes: Seq<u8>, addr: int) {
        lemma_pow_values();
        lemma_be_encode_len(v as nat, 1);
        lemma_fixed_round_trip(v as nat, 1, bytes, addr);
    }

    proof fn lemma_decoded_fits(bytes: Seq<u8>, addr: int) {
        let v = Self::decoded(bytes, addr)->Some_0;
        lemma_fixed_len_u8(v);
    }

    proof fn lemma_fixed(v: u8, w: u8) {
        lemma_be_encode_len(v as nat, 1);
        lemma_be_encode_len(w as nat, 1);
    }

    fn type_idx() -> (r: u8) {
        8
    }

    fn is_fixed() -> (r: bool) {
        true
    }

    fn to_value_bytes(&self) -> (r: Vec<u8>) {
        encode_be(*self as u64, 1)
    }

    fn into_value(memory: &NP_Memory, addr: usize) -> (r: Result<u8, NP_Error>) {
        match read_fixed(memory, addr, 1) {
            Ok(n) => {
                proof {
                    lemma_pow_values();
                    lemma_be_value_bound(memory@.subrange(addr as int, addr + 1));
                }
                Ok(n as u8)
            },
            Err(e) => Err(e),
        }
    }

    fn default_value(schema: &NP_Parsed_Schema) -> (r: Option<u8>) {
        None
    }
}

proof fn lemma_fixed_len_u16(v: u16)
    ensures
        <u16 as NP_Value>::encoded(v).len() == 2,
{
    lemma_be_encode_len(v as nat, 2);
}

impl NP_Scalar for u16 {

}

impl NP_Value for u16 {
    open spec fn spec_type_key() -> u8 {
        9
    }

    open spec fn encoded(v: u16) -> Seq<u8> {
        be_encode(v as nat, 2)
    }

    open spec fn decoded(bytes: Seq<u8>, addr: int) -> Option<u16> {
        match fixed_at(bytes, addr, 2) {
            Some(n) => Some(n as u16),
            None => None,
        }
    }

    open spec fn read_error(bytes: Seq<u8>, addr: int) -> NP_Error {
        NP_Error::Corrupt
    }

    open spec fn fixed_size() -> bool {
        true
    }

    open spec fn schema_default(n: NP_Parsed_Schema) -> Option<u16> {
        None
    }

    proof fn lemma_decode_encoded(v: u16, bytes: Seq<u8>, addr: int) {
        lemma_pow_values();
        lemma_be_encode_len(v as nat, 2);
        lemma_fixed_round_trip(v as nat, 2, bytes, addr);
    }

    proof fn lemma_decoded_fits(bytes: Seq<u8>, addr: int) {
        let v = Self::decoded(bytes, addr)->Some_0;
        lemma_fixed_len_u16(v);
    }

    proof fn lemma_fixed(v: u16, w: u16) {
        lemma_be_encode_len(v as nat, 2);
        lemma_be_encode_len(w as nat, 2);
    }

    fn type_idx() -> (r: u8) {
        9
    }

    fn is_fixed() -> (r: bool) {
        true
    }

    fn to_value_bytes(&self) -> (r: Vec<u8>) {
        encode_be(*self as u64, 2)
    }

    fn into_value(memory: &NP_Memory, addr: usize) -> (r: Result<u16, NP_Error>) {
        match read_fixed(memory, addr, 2) {
            Ok(n) => {
                proof {
                    lemma_pow_values();
                    lemma_be_value_bound(memory@.subrange(addr as int, addr + 2));
                }
                Ok(n as u16)
            },
            Err(e) => Err(e),
        }
    }

    fn default_value(schema: &NP_Parsed_Schema) -> (r: Option<u16>) {
        None
    }
}

proof fn lemma_fixed_len_u32(v: u32)
    ensures
        <u32 as NP_Value>::encoded(v).len() == 4,
{
    lemma_be_encode_len(v as nat, 4);
}

impl NP_Scalar for u32 {

}

impl NP_Value for u32 {
    open spec fn spec_type_key() -> u8 {
        10
    }

    open spec fn encoded(v: u32) -> Seq<u8> {
        be_encode(v as nat, 4)
    }

    open spec fn decoded(bytes: Seq<u8>, addr: int) -> Option<u32> {
        match fixed_at(bytes, addr, 4) {
            Some(n) => Some(n as u32),
            None => None,
        }
    }

    open spec fn read_error(bytes: Seq<u8>, addr: int) -> NP_Error {
        NP_Error::Corrupt
    }

    open spec fn fixed_size() -> bool {
        true
    }

    open spec fn schema_default(n: NP_Parsed_Schema) -> Option<u32> {
        None
    }

    proof fn lemma_decode_encoded(v: u32, bytes: Seq<u8>, addr: int) {
        lemma_pow_values();
        lemma_be_encode_len(v as nat, 4);
        lemma_fixed_round_trip(v as nat, 4, bytes, addr);
    }

    proof fn lemma_decoded_fits(bytes: Seq<u8>, addr: int) {
        let v = Self::decoded(bytes, addr)->Some_0;
        lemma_fixed_len_u32(v);
    }

    proof fn lemma_fixed(v: u32, w: u32) {
        lemma_be_encode_len(v as nat, 4);
        lemma_be_encode_len(w as nat, 4);
    }

    fn type_idx() -> (r: u8) {
        10
    }

    fn is_fixed() -> (r: bool) {
        true
    }

    fn to_value_bytes(&self) -> (r: Vec<u8>) {
        encode_be(*self as u64, 4)
    }

    fn into_value(memory: &NP_Memory, addr: usize) -> (r: Result<u32, NP_Error>) {
        match read_fixed(memory, addr, 4) {
            Ok(n) => {
                proof {
                    lemma_pow_values();
                    lemma_be_value_bound(memory@.subrange(addr as int, addr + 4));
                }
                Ok(n as u32)
            },
            Err(e) => Err(e),
        }
    }

    fn default_value(schema: &NP_Parsed_Schema) -> (r: Option<u32>) {
        None
    }
}

proof fn lemma_fixed_len_u64(v: u64)
    ensures
        <u64 as NP_Value>::encoded(v).len() == 8,
{
    lemma_be_encode_len(v as nat, 8);
}

impl NP_Scalar for u64 {

}

impl NP_Value for u64 {
    open spec fn spec_type_key() -> u8 {
        11
    }

    open spec fn encoded(v: u64) -> Seq<u8> {
        be_encode(v as nat, 8)
    }

    open spec fn decoded(bytes: Seq<u8>, addr: int) -> Option<u64> {
        match fixed_at(bytes, addr, 8) {
            Some(n) => Some(n as u64),
            None => None,
        }
    }

    open spec fn read_error(bytes: Seq<u8>, addr: int) -> NP_Error {
        NP_Error::Corrupt
    }

    open spec fn fixed_size() -> bool {
        true
    }

    open spec fn schema_default(n: NP_Parsed_Schema) -> Option<u64> {
        None
    }

    proof fn lemma_decode_encoded(v: u64, bytes: Seq<u8>, addr: int) {
        lemma_pow_values();
        lemma_be_encode_len(v as nat, 8);
        lemma_fixed_round_trip(v as nat, 8, bytes, addr);
    }

    proof fn lemma_decoded_fits(bytes: Seq<u8>, addr: int) {
        let v = Self::decoded(bytes, addr)->Some_0;
        lemma_fixed_len_u64(v);
    }

    proof fn lemma_fixed(v: u64, w: u64) {
        lemma_be_encode_len(v as nat, 8);
        lemma_be_encode_len(w as nat, 8);
    }

    fn type_idx() -> (r: u8) {
        11
    }

    fn is_fixed() -> (r: bool) {
        true
    }

    fn to_value_bytes(&self) -> (r: Vec<u8>) {
        encode_be(*self as u64, 8)
    }

    fn into_value(memory: &NP_Memory, addr: usize) -> (r: Result<u64, NP_Error>) {
        match read_fixed(memory, addr, 8) {
            Ok(n) => {
                proof {
                    lemma_pow_values();
                    lemma_be_value_bound(memory@.subrange(addr as int, addr + 8));
                }
                Ok(n as u64)
            },
            Err(e) => Err(e),
        }
    }

    fn default_value(schema: &NP_Parsed_Schema) -> (r: Option<u64>) {
        None
    }
}

proof fn lemma_fixed_len_i8(v: i8)
    ensures
        <i8 as NP_Value>::encoded(v).len() == 1,
{
    lemma_be_encode_len((v as int + 0x80) as nat, 1);
}

impl NP_Scalar for i8 {

}

impl NP_Value for i8 {
    open spec fn spec_type_key() -> u8 {
        4
    }

    open spec fn encoded(v: i8) -> Seq<u8> {
        be_encode((v as int + 0x80) as nat, 1)
    }

    open spec fn decoded(bytes: Seq<u8>, addr: int) -> Option<i8> {
        match fixed_at(bytes, addr, 1) {
            Some(n) => Some((n - 0x80) as i8),
            None => None,
        }
    }

    open spec fn read_error(bytes: Seq<u8>, addr: int) -> NP_Error {
        NP_Error::Corrupt
    }

    open spec fn fixed_size() -> bool {
        true
    }

    open spec fn schema_default(n: NP_Parsed_Schema) -> Option<i8> {
        None
    }

    proof fn lemma_decode_encoded(v: i8, bytes: Seq<u8>, addr: int) {
        lemma_pow_values();
        lemma_be_encode_len((v as int + 0x80) as nat, 1);
        lemma_fixed_round_trip((v as int + 0x80) as nat, 1, bytes, addr);
    }

    proof fn lemma_decoded_fits(bytes: Seq<u8>, addr: int) {
        let v = Self::decoded(bytes, addr)->Some_0;
        lemma_fixed_len_i8(v);
    }

    proof fn lemma_fixed(v: i8, w: i8) {
        lemma_be_encode_len((v as int + 0x80) as nat, 1);
        lemma_be_encode_len((w as int + 0x80) as nat, 1);
    }

    fn type_idx() -> (r: u8) {
        4
    }

    fn is_fixed() -> (r: bool) {
        true
    }

    fn to_value_bytes(&self) -> (r: Vec<u8>) {
        encode_be(((*self as i128) + 0x80) as u64, 1)
    }

    fn into_value(memory: &NP_Memory, addr: usize) -> (r: Result<i8, NP_Error>) {
        match read_fixed(memory, addr, 1) {
            Ok(n) => {
                proof {
                    lemma_pow_values();
                    lemma_be_value_bound(memory@.subrange(addr as int, addr + 1));
                }
                Ok(((n as i128) - 0x80) as i8)
            },
            Err(e) => Err(e),
        }
    }

    fn default_value(schema: &NP_Parsed_Schema) -> (r: Option<i8>) {
        None
    }
}

proof fn lemma_fixed_len_i16(v: i16)
    ensures
        <i16 as NP_Value>::encoded(v).len() == 2,
{
    lemma_be_encode_len((v as int + 0x8000) as nat, 2);
}

impl NP_Scalar for i16 {

}

impl NP_Value for i16 {
    open spec fn spec_type_key() -> u8 {
        5
    }

    open spec fn encoded(v: i16) -> Seq<u8> {
        be_encode((v as int + 0x8000) as nat, 2)
    }

    open spec fn decoded(bytes: Seq<u8>, addr: int) -> Option<i16> {
        match fixed_at(bytes, addr, 2) {
            Some(n) => Some((n - 0x8000) as i16),
            None => None,
        }
    }

    open spec fn read_error(bytes: Seq<u8>, addr: int) -> NP_Error {
        NP_Error::Corrupt
    }

    open spec fn fixed_size() -> bool {
        true
    }

    open spec fn schema_default(n: NP_Parsed_Schema) -> Option<i16> {
        None
    }

    proof fn lemma_decode_encoded(v: i16, bytes: Seq<u8>, addr: int) {
        lemma_pow_values();
        lemma_be_encode_len((v as int + 0x8000) as nat, 2);
        lemma_fixed_round_trip((v as int + 0x8000) as nat, 2, bytes, addr);
    }

    proof fn lemma_decoded_fits(bytes: Seq<u8>, addr: int) {
        let v = Self::decoded(bytes, addr)->Some_0;
        lemma_fixed_len_i16(v);
    }

    proof fn lemma_fixed(v: i16, w: i16) {
        lemma_be_encode_len((v as int + 0x8000) as nat, 2);
        lemma_be_encode_len((w as int + 0x8000) as nat, 2);
    }

    fn type_idx() -> (r: u8) {
        5
    }

    fn is_fixed() -> (r: bool) {
        true
    }

    fn to_value_bytes(&self) -> (r: Vec<u8>) {
        encode_be(((*self as i128) + 0x8000) as u64, 2)
    }

    fn into_value(memory: &NP_Memory, addr: usize) -> (r: Result<i16, NP_Error>) {
        match read_fixed(memory, addr, 2) {
            Ok(n) => {
                proof {
                    lemma_pow_values();
                    lemma_be_value_bound(memory@.subrange(addr as int, addr + 2));
                }
                Ok(((n as i128) - 0x8000) as i16)
            },
            Err(e) => Err(e),
        }
    }

    fn default_value(schema: &NP_Parsed_Schema) -> (r: Option<i16>) {
        None
    }
}

proof fn lemma_fixed_len_i32(v: i32)
    ensures
        <i32 as NP_Value>::encoded(v).len() == 4,
{
    lemma_be_encode_len((v as int + 0x8000_0000) as nat, 4);
}

impl NP_Scalar for i32 {

}

impl NP_Value for i32 {
    open spec fn spec_type_key() -> u8 {
        6
    }

    open spec fn encoded(v: i32) -> Seq<u8> {
        be_encode((v as int + 0x8000_0000) as nat, 4)
    }

    open spec fn decoded(bytes: Seq<u8>, addr: int) -> Option<i32> {
        match fixed_at(bytes, addr, 4) {
            Some(n) => Some((n - 0x8000_0000) as i32),
            None => None,
        }
    }

    open spec fn read_error(bytes: Seq<u8>, addr: int) -> NP_Error {
        NP_Error::Corrupt
    }

    open spec fn fixed_size() -> bool {
        true
    }

    open spec fn schema_default(n: NP_Parsed_Schema) -> Option<i32> {
        None
    }

    proof fn lemma_decode_encoded(v: i32, bytes: Seq<u8>, addr: int) {
        lemma_pow_values();
        lemma_be_encode_len((v as int + 0x8000_0000) as nat, 4);
        lemma_fixed_round_trip((v as int + 0x8000_0000) as nat, 4, bytes, addr);
    }

    proof fn lemma_decoded_fits(bytes: Seq<u8>, addr: int) {
        let v = Self::decoded(bytes, addr)->Some_0;
        lemma_fixed_len_i32(v);
    }

    proof fn lemma_fixed(v: i32, w: i32) {
        lemma_be_encode_len((v as int + 0x8000_0000) as nat, 4);
        lemma_be_encode_len((w as int + 0x8000_0000) as nat, 4);
    }

    fn type_idx() -> (r: u8) {
        6
    }

    fn is_fixed() -> (r: bool) {
        true
    }

    fn to_value_bytes(&self) -> (r: Vec<u8>) {
        encode_be(((*self as i128) + 0x8000_0000) as u64, 4)
    }

    fn into_value(memory: &NP_Memory, addr: usize) -> (r: Result<i32, NP_Error>) {
        match read_fixed(memory, addr, 4) {
            Ok(n) => {
                proof {
                    lemma_pow_values();
                    lemma_be_value_bound(memory@.subrange(addr as int, addr + 4));
                }
                Ok(((n as i128) - 0x8000_0000) as i32)
            },
            Err(e) => Err(e),
        }
    }

    fn default_value(schema: &NP_Parsed_Schema) -> (r: Option<i32>) {
        None
    }
}

proof fn lemma_fixed_len_i64(v: i64)
    ensures
        <i64 as NP_Value>::encoded(v).len() == 8,
{
    lemma_be_encode_len((v as int + 0x8000_0000_0000_0000) as nat, 8);
}

impl NP_Scalar for i64 {

}

impl NP_Value for i64 {
    open spec fn spec_type_key() -> u8 {
        7
    }

    open spec fn encoded(v: i64) -> Seq<u8> {
        be_encode((v as int + 0x8000_0000_0000_0000) as nat, 8)
    }

    open spec fn decoded(bytes: Seq<u8>, addr: int) -> Option<i64> {
        match fixed_at(bytes, addr, 8) {
            Some(n) => Some((n - 0x8000_0000_0000_0000) as i64),
            None => None,
        }
    }

    open spec fn read_error(bytes: Seq<u8>, addr: int) -> NP_Error {
        NP_Error::Corrupt
    }

    open spec fn fixed_size() -> bool {
        true
    }

    open spec fn schema_default(n: NP_Parsed_Schema) -> Option<i64> {
        None
    }

    proof fn lemma_decode_encoded(v: i64, bytes: Seq<u8>, addr: int) {
        lemma_pow_values();
        lemma_be_encode_len((v as int + 0x8000_0000_0000_0000) as nat, 8);
        lemma_fixed_round_trip((v as int + 0x8000_0000_0000_0000) as nat, 8, bytes, addr);
    }

    proof fn lemma_decoded_fits(bytes: Seq<u8>, addr: int) {
        let v = Self::decoded(bytes, addr)->Some_0;
        lemma_fixed_len_i64(v);
    }

    proof fn lemma_fixed(v: i64, w: i64) {
        lemma_be_encode_len((v as int + 0x8000_0000_0000_0000) as nat, 8);
        lemma_be_encode_len((w as int + 0x8000_0000_0000_0000) as nat, 8);
    }

    fn type_idx() -> (r: u8) {
        7
    }

    fn is_fixed() -> (r: bool) {
        true
    }

    fn to_value_bytes(&self) -> (r: Vec<u8>) {
        encode_be(((*self as i128) + 0x8000_0000_0000_0000) as u64, 8)
    }

    fn into_value(memory: &NP_Memory, addr: usize) -> (r: Result<i64, NP_Error>) {
        match read_fixed(memory, addr, 8) {
            Ok(n) => {
                proof {
                    lemma_pow_values();
                    lemma_be_value_bound(memory@.subrange(addr as int, addr + 8));
                }
                Ok(((n as i128) - 0x8000_0000_0000_0000) as i64)
            },
            Err(e) => Err(e),
        }
    }

    fn default_value(schema: &NP_Parsed_Schema) -> (r: Option<i64>) {
        None
    }
}

/// The payload of a length-prefixed allocation at `addr`, if it lies inside `bytes`.
pub open spec fn prefixed_at(bytes: Seq<u8>, addr: int) -> Option<Seq<u8>> {
    match fixed_at(bytes, addr, 4) {
        Some(n) => if addr + 4 + n <= bytes.len() {
            Some(bytes.subrange(addr + 4, addr + 4 + n))
        } else {
            None
        },
        None => None,
    }
}

/// The allocation bytes of a variable-size payload: its length in four bytes, then itself.
pub open spec fn prefixed(payload: Seq<u8>) -> Seq<u8> {
    be_encode(payload.len(), 4) + payload
}

proof fn lemma_prefixed_round_trip(payload: Seq<u8>, bytes: Seq<u8>, addr: int)
    requires
        prefixed(payload).len() <= 65535,
        0 <= addr,
        addr + prefixed(payload).len() <= bytes.len(),
        bytes.subrange(addr, addr + prefixed(payload).len()) == prefixed(payload),
    ensures
        prefixed_at(bytes, addr) == Some(payload),
{
    lemma_pow_values();
    lemma_be_encode_len(payload.len(), 4);
    let e = prefixed(payload);
    assert(bytes.subrange(addr, addr + 4) == e.subrange(0, 4));
    assert(e.subrange(0, 4) =~= be_encode(payload.len(), 4));
    lemma_be_round_trip(payload.len(), 4);
    assert(bytes.subrange(addr + 4, addr + 4 + payload.len()) =~= e.subrange(4, e.len() as int));
    assert(e.subrange(4, e.len() as int) =~= payload);
}

/// Reads a length-prefixed payload at `addr`.
fn read_prefixed(memory: &NP_Memory, addr: usize) -> (r: Result<Vec<u8>, NP_Error>)
    ensures
        match r {
            Ok(v) => prefixed_at(memory@, addr as int) == Some(v@),
            Err(e) => prefixed_at(memory@, addr as int) is None && e == NP_Error::Corrupt,
        },
{
    let n = read_fixed(memory, addr, 4)?;
    let len = memory.len();
    if n > len as u64 {
        return Err(NP_Error::Corrupt);
    }
    memory.read_slice(addr + 4, n as usize)
}

/// Copies `tail` onto the end of `head`.
fn append_bytes(head: &mut Vec<u8>, tail: &[u8])
    ensures
        final(head)@ == old(head)@ + tail@,
{
    let mut i: usize = 0;
    while i < tail.len()
        invariant
            i <= tail@.len(),
            head@ == old(head)@ + tail@.subrange(0, i as int),
        decreases tail@.len() - i,
    {
        head.push(tail[i]);
        i = i + 1;
        assert(head@ =~= old(head)@ + tail@.subrange(0, i as int));
    }
    assert(tail@.subrange(0, tail@.len() as int) =~= tail@);
}

/// Relies on std::str::from_utf8: it accepts exactly the valid UTF-8 sequences,
/// and the text it returns is the one those bytes encode.
#[verifier::external_body]
fn text_from_utf8(b: &[u8]) -> (r: Option<String>)
    ensures
        r is Some <==> valid_utf8(b@),
        r matches Some(s) ==> s@ == decode_utf8(b@),
{
    match std::str::from_utf8(b) {
        Ok(s) => Some(s.to_string()),
        Err(_) => None,
    }
}

impl NP_Scalar for Vec<u8> {

}

impl NP_Value for Vec<u8> {
    open spec fn spec_type_key() -> u8 {
        3
    }

    open spec fn encoded(v: Seq<u8>) -> Seq<u8> {
        prefixed(v)
    }

    open spec fn decoded(bytes: Seq<u8>, addr: int) -> Option<Seq<u8>> {
        prefixed_at(bytes, addr)
    }

    open spec fn read_error(bytes: Seq<u8>, addr: int) -> NP_Error {
        NP_Error::Corrupt
    }

    open spec fn fixed_size() -> bool {
        false
    }

    open spec fn schema_default(n: NP_Parsed_Schema) -> Option<Seq<u8>> {
        None
    }

    proof fn lemma_decode_encoded(v: Seq<u8>, bytes: Seq<u8>, addr: int) {
        lemma_prefixed_round_trip(v, bytes, addr);
    }

    proof fn lemma_decoded_fits(bytes: Seq<u8>, addr: int) {
        let p = prefixed_at(bytes, addr)->Some_0;
        lemma_be_encode_len(p.len(), 4);
    }

    proof fn lemma_fixed(v: Seq<u8>, w: Seq<u8>) {
    }

    fn type_idx() -> (r: u8) {
        3
    }

    fn is_fixed() -> (r: bool) {
        false
    }

    fn to_value_bytes(&self) -> (r: Vec<u8>) {
        let mut r = encode_be(self.len() as u64, 4);
        append_bytes(&mut r, self.as_slice());
        r
    }

    fn into_value(memory: &NP_Memory, addr: usize) -> (r: Result<Vec<u8>, NP_Error>) {
        read_prefixed(memory, addr)
    }

    fn default_value(schema: &NP_Parsed_Schema) -> (r: Option<Vec<u8>>) {
        None
    }
}

impl NP_Scalar for String {

}

impl NP_Value for String {
    open spec fn spec_type_key() -> u8 {
        2
    }

    open spec fn encoded(v: Seq<char>) -> Seq<u8> {
        prefixed(encode_utf8(v))
    }

    open spec fn decoded(bytes: Seq<u8>, addr: int) -> Option<Seq<char>> {
        match prefixed_at(bytes, addr) {
            Some(p) => if valid_utf8(p) {
                Some(decode_utf8(p))
            } else {
                None
            },
            None => None,
        }
    }

    open spec fn read_error(bytes: Seq<u8>, addr: int) -> NP_Error {
        if prefixed_at(bytes, addr) is Some {
            NP_Error::Utf8
        } else {
            NP_Error::Corrupt
        }
    }

    open spec fn fixed_size() -> bool {
        false
    }

    open spec fn schema_default(n: NP_Parsed_Schema) -> Option<Seq<char>> {
        None
    }

    proof fn lemma_decode_encoded(v: Seq<char>, bytes: Seq<u8>, addr: int) {
        lemma_prefixed_round_trip(encode_utf8(v), bytes, addr);
        vstd::utf8::encode_utf8_valid_utf8(v);
        vstd::utf8::encode_utf8_decode_utf8(v);
    }

    proof fn lemma_decoded_fits(bytes: Seq<u8>, addr: int) {
        let p = prefixed_at(bytes, addr)->Some_0;
        vstd::utf8::decode_utf8_encode_utf8(p);
        lemma_be_encode_len(p.len(), 4);
    }

    proof fn lemma_fixed(v: Seq<char>, w: Seq<char>) {
    }

    fn type_idx() -> (r: u8) {
        2
    }

    fn is_fixed() -> (r: bool) {
        false
    }

    fn to_value_bytes(&self) -> (r: Vec<u8>) {
        let b = self.as_str().as_bytes();
        let mut r = encode_be(b.len() as u64, 4);
        append_bytes(&mut r, b);
        r
    }

    fn into_value(memory: &NP_Memory, addr: usize) -> (r: Result<String, NP_Error>) {
        let p = read_prefixed(memory, addr)?;
        match text_from_utf8(p.as_slice()) {
            Some(s) => Ok(s),
            None => Err(NP_Error::Utf8),
        }
    }

    fn default_value(schema: &NP_Parsed_Schema) -> (r: Option<String>) {
        None
    }
}

/// A date: milliseconds since the Unix epoch, stored as eight big-endian bytes.
#[derive(Debug, Clone, Copy, PartialEq, Eq, Structural)]
pub struct NP_Date {
    pub value: u64,
}

impl View for NP_Date {
    type V = u64;

    open spec fn view(&self) -> u64 {
        self.value
    }
}

impl NP_Scalar for NP_Date {

}

impl NP_Value for NP_Date {
    open spec fn spec_type_key() -> u8 {
        19
    }

    open spec fn encoded(v: u64) -> Seq<u8> {
        be_encode(v as nat, 8)
    }

    open spec fn decoded(bytes: Seq<u8>, addr: int) -> Option<u64> {
        match fixed_at(bytes, addr, 8) {
            Some(n) => Some(n as u64),
            None => None,
        }
    }

    open spec fn read_error(bytes: Seq<u8>, addr: int) -> NP_Error {
        NP_Error::Corrupt
    }

    open spec fn fixed_size() -> bool {
        true
    }

    open spec fn schema_default(n: NP_Parsed_Schema) -> Option<u64> {
        None
    }

    proof fn lemma_decode_encoded(v: u64, bytes: Seq<u8>, addr: int) {
        lemma_pow_values();
        lemma_be_encode_len(v as nat, 8);
        lemma_fixed_round_trip(v as nat, 8, bytes, addr);
    }

    proof fn lemma_decoded_fits(bytes: Seq<u8>, addr: int) {
        let v = Self::decoded(bytes, addr)->Some_0;
        lemma_be_encode_len(v as nat, 8);
    }

    proof fn lemma_fixed(v: u64, w: u64) {
        lemma_be_encode_len(v as nat, 8);
        lemma_be_encode_len(w as nat, 8);
    }

    fn type_idx() -> (r: u8) {
        19
    }

    fn is_fixed() -> (r: bool) {
        true
    }

    fn to_value_bytes(&self) -> (r: Vec<u8>) {
        encode_be(self.value, 8)
    }

    fn into_value(memory: &NP_Memory, addr: usize) -> (r: Result<NP_Date, NP_Error>) {
        match read_fixed(memory, addr, 8) {
            Ok(n) => Ok(NP_Date { value: n }),
            Err(e) => Err(e),
        }
    }

    fn default_value(schema: &NP_Parsed_Schema) -> (r: Option<NP_Date>) {
        None
    }
}

/// Whether the allocation at `a` can take the encoding `e` in place: it lies
/// past the header and inside the bytes, and either every value of `T` has
/// the same size or the value stored there encodes to as many bytes as `e`.
pub open spec fn reusable<T: NP_Value>(b: Seq<u8>, a: nat, e: Seq<u8>) -> bool {
    a >= 4 && a + e.len() <= b.len() && e.len() <= 65535 && (T::fixed_size() || (T::decoded(
        b,
        a as int,
    ) matches Some(w) && T::encoded(w).len() == e.len()))
}

/// Whether the allocation at `a` can take `bytes`, an encoding of a `T`, in place.
pub fn can_reuse<T: NP_Value>(memory: &NP_Memory, a: usize, bytes: &Vec<u8>) -> (r: bool)
    ensures
        r == reusable::<T>(memory@, a as nat, bytes@),
{
    let len = memory.len();
    if a < 4 || a > len || bytes.len() > len - a || bytes.len() > 65535 {
        return false;
    }
    if T::is_fixed() {
        return true;
    }
    match T::into_value(memory, a) {
        Ok(w) => {
            let wb = w.to_value_bytes();
            wb.len() == bytes.len()
        },
        Err(_) => false,
    }
}

} // verus!
