//! The table engine: a chain of 10-byte vtables, each four value pointers and
//! the address of the next vtable. Column `k` lives in slot `k % 4` of the
//! vtable `k / 4` links from the first; later vtables are made on demand.
use vstd::prelude::*;
use crate::encoding::be_encode;
use crate::error::NP_Error;
use crate::memory::{splice, u16_at, NP_Memory, HEADER_SIZE, MAX_SIZE};
use crate::value::NP_Value;

verus! {

/// The bytes of one vtable.
pub const VTABLE_SIZE: usize = 10;

/// The vtable `n` links after the one at `v`: `Some(None)` when the chain ends
/// first, `None` when a vtable on the way lies outside the bytes.
pub open spec fn vtable_at(b: Seq<u8>, v: nat, n: nat) -> Option<Option<nat>>
    decreases n,
{
    if v == 0 {
        Some(None)
    } else if v + 10 > b.len() {
        None
    } else if n == 0 {
        Some(Some(v))
    } else {
        vtable_at(b, u16_at(b, (v + 8) as int), (n - 1) as nat)
    }
}

/// What reading column `k` of the table at `t` as `T` gives: `None` when the
/// bytes break the format, `Some(None)` when the column has no value.
pub open spec fn column_value<T: NP_Value>(b: Seq<u8>, t: nat, k: u8) -> Option<Option<T::V>> {
    match vtable_at(b, t, (k / 4) as nat) {
        None => None,
        Some(None) => Some(None),
        Some(Some(v)) => {
            let a = u16_at(b, v + 2 * (k % 4) as int);
            if a == 0 {
                Some(None)
            } else {
                match T::decoded(b, a as int) {
                    Some(x) => Some(Some(x)),
                    None => None,
                }
            }
        },
    }
}

/// Makes a table with its first vtable, returning the vtable's address.
pub fn table_new(memory: &mut NP_Memory) -> (r: Result<u16, NP_Error>)
    ensures
        old(memory)@.len() + 10 <= MAX_SIZE ==> r == Ok::<u16, NP_Error>(old(memory)@.len() as u16)
            && final(memory)@ == old(memory)@ + Seq::new(10, |i: int| 0u8),
        old(memory)@.len() + 10 > MAX_SIZE ==> r == Err::<u16, NP_Error>(NP_Error::OutOfSpace)
            && final(memory)@ == old(memory)@,
{
    memory.malloc(VTABLE_SIZE)
}

/// Walks `n` links from the vtable at `v`.
fn walk_vtables(memory: &NP_Memory, v: u16, n: u8) -> (r: Result<Option<u16>, NP_Error>)
    ensures
        match vtable_at(memory@, v as nat, n as nat) {
            None => r == Err::<Option<u16>, NP_Error>(NP_Error::Corrupt),
            Some(None) => r == Ok::<Option<u16>, NP_Error>(None),
            Some(Some(x)) => r == Ok::<Option<u16>, NP_Error>(Some(x as u16)) && x < 0x1_0000 && x
                + 10 <= memory@.len(),
        },
{
    let mut cur: u16 = v;
    let mut left: u8 = n;
    loop
        invariant
            vtable_at(memory@, v as nat, n as nat) == vtable_at(memory@, cur as nat, left as nat),
        decreases left,
    {
        if cur == 0 {
            return Ok(None);
        }
        if cur as usize > memory.len() || memory.len() - (cur as usize) < VTABLE_SIZE {
            return Err(NP_Error::Corrupt);
        }
        if left == 0 {
            return Ok(Some(cur));
        }
        cur = memory.read_u16(cur as usize + 8)?;
        left = left - 1;
    }
}

/// Reads column `k` of the table whose first vtable is at `t`.
pub fn table_get<T: NP_Value>(memory: &NP_Memory, t: u16, k: u8) -> (r: Result<Option<T>, NP_Error>)
    ensures
        match r {
            Ok(o) => column_value::<T>(memory@, t as nat, k) == Some(crate::cursor::opt_view(o)),
            Err(_) => column_value::<T>(memory@, t as nat, k) is None,
        },
{
    let v = match walk_vtables(memory, t, k / 4)? {
        Some(v) => v,
        None => {
            return Ok(None);
        },
    };
    let a = memory.read_u16(v as usize + 2 * (k % 4) as usize)?;
    if a == 0 {
        return Ok(None);
    }
    let x = T::into_value(memory, a as usize)?;
    Ok(Some(x))
}

/// The bytes after making sure `n` vtables follow the one at `v`, appending
/// empty ones where the chain ends, with the address of the last.
pub open spec fn grow_chain(b: Seq<u8>, v: nat, n: nat) -> Result<(Seq<u8>, nat), NP_Error>
    decreases n,
{
    if v == 0 || v + 10 > b.len() {
        Err(NP_Error::Corrupt)
    } else if n == 0 {
        Ok((b, v))
    } else if u16_at(b, (v + 8) as int) != 0 {
        grow_chain(b, u16_at(b, (v + 8) as int), (n - 1) as nat)
    } else if b.len() + 10 > MAX_SIZE {
        Err(NP_Error::OutOfSpace)
    } else {
        let nv = b.len();
        grow_chain(
            splice(b + Seq::new(10, |i: int| 0u8), (v + 8) as int, be_encode(nv, 2)),
            nv,
            (n - 1) as nat,
        )
    }
}

proof fn lemma_grow_chain_end(b: Seq<u8>, v: nat, n: nat)
    ensures
        grow_chain(b, v, n) matches Ok((b1, w)) ==> w != 0 && w + 10 <= b1.len(),
    decreases n,
{
    if v != 0 && v + 10 <= b.len() && n > 0 {
        if u16_at(b, (v + 8) as int) != 0 {
            lemma_grow_chain_end(b, u16_at(b, (v + 8) as int), (n - 1) as nat);
        } else {
            let nv = b.len();
            lemma_grow_chain_end(
                splice(b + Seq::new(10, |i: int| 0u8), (v + 8) as int, be_encode(nv, 2)),
                nv,
                (n - 1) as nat,
            );
        }
    }
}

/// The bytes after writing `x` in column `k` of the table at `t`: over the
/// old value when its size is fixed and its allocation is sound, else in a
/// new allocation.
pub open spec fn column_set_spec<T: NP_Value>(b: Seq<u8>, t: nat, k: u8, x: T::V) -> Result<
    Seq<u8>,
    NP_Error,
> {
    match grow_chain(b, t, (k / 4) as nat) {
        Err(e) => Err(e),
        Ok((b1, v)) => {
            let slot = v + 2 * (k % 4) as int;
            let a = u16_at(b1, slot);
            let e = T::encoded(x);
            if T::fixed_size() && a >= HEADER_SIZE && a + e.len() <= b1.len() && e.len()
                <= MAX_SIZE {
                Ok(splice(b1, a as int, e))
            } else if b1.len() + e.len() <= MAX_SIZE {
                Ok(splice(b1 + e, slot, be_encode(b1.len(), 2)))
            } else {
                Err(NP_Error::OutOfSpace)
            }
        },
    }
}

/// Writes `value` in column `k` of the table whose first vtable is at `t`;
/// on failure the bytes are left as they were.
pub fn table_set<T: NP_Value>(memory: &mut NP_Memory, t: u16, k: u8, value: &T) -> (r: Result<
    (),
    NP_Error,
>)
    ensures
        match column_set_spec::<T>(old(memory)@, t as nat, k, value@) {
            Ok(n) => r is Ok && final(memory)@ == n,
            Err(e) => r == Err::<(), NP_Error>(e) && final(memory)@ == old(memory)@,
        },
{
    let mut work = NP_Memory::from_bytes(memory.read_bytes());
    match write_column::<T>(&mut work, t, k, value) {
        Ok(()) => {
            *memory = work;
            Ok(())
        },
        Err(e) => Err(e),
    }
}

/// Writes `value` in column `k`, making vtables on the way; on failure the
/// vtables made stay.
fn write_column<T: NP_Value>(memory: &mut NP_Memory, t: u16, k: u8, value: &T) -> (r: Result<
    (),
    NP_Error,
>)
    ensures
        match column_set_spec::<T>(old(memory)@, t as nat, k, value@) {
            Ok(n) => r is Ok && final(memory)@ == n,
            Err(e) => r == Err::<(), NP_Error>(e),
        },
{
    let mut cur: u16 = t;
    let mut left: u8 = k / 4;
    proof {
        lemma_grow_chain_end(old(memory)@, t as nat, (k / 4) as nat);
        assert((k % 4) / 4 == 0 && (k % 4) % 4 == k % 4);
    }
    loop
        invariant
            grow_chain(old(memory)@, t as nat, (k / 4) as nat) == grow_chain(
                memory@,
                cur as nat,
                left as nat,
            ),
            column_set_spec::<T>(old(memory)@, t as nat, k, value@) == match grow_chain(
                memory@,
                cur as nat,
                left as nat,
            ) {
                Err(e) => Err(e),
                Ok((b1, v)) => column_set_spec::<T>(b1, v, k % 4, value@),
            },
        ensures
            left == 0,
            cur != 0,
            cur + 10 <= memory@.len(),
        decreases left,
    {
        if cur == 0 || cur as usize > memory.len() || memory.len() - (cur as usize) < VTABLE_SIZE {
            return Err(NP_Error::Corrupt);
        }
        if left == 0 {
            break;
        }
        let next = memory.read_u16(cur as usize + 8)?;
        if next != 0 {
            cur = next;
        } else {
            let len = memory.len();
            if len > MAX_SIZE - VTABLE_SIZE {
                return Err(NP_Error::OutOfSpace);
            }
            let nv = memory.malloc(VTABLE_SIZE)?;
            memory.write_address(cur as usize + 8, nv);
            cur = nv;
        }
        left = left - 1;
    }
    let slot = cur as usize + 2 * (k % 4) as usize;
    let a = memory.read_u16(slot)?;
    let bytes = value.to_value_bytes();
    let len = memory.len();
    if T::is_fixed() && a as usize >= HEADER_SIZE && (a as usize) <= len && bytes.len() <= len
        - a as usize && bytes.len() <= MAX_SIZE {
        memory.write_bytes(a as usize, &bytes);
        return Ok(());
    }
    let na = memory.malloc_borrow(&bytes)?;
    memory.write_address(slot, na);
    Ok(())
}

} // verus!
