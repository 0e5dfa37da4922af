//! The map engine: a 4-byte header (head, tail) and a chain of 8-byte cells
//! (entry address, next cell, key hash) in insertion order. Each entry holds
//! the key, as `length[2] || bytes`, followed by the value.
use vstd::prelude::*;
use crate::encoding::{be_encode, be_value};
use crate::error::NP_Error;
use crate::hash::{fnv1a, hash};
use crate::memory::{splice, u16_at, NP_Memory, MAX_SIZE};
use crate::value::{can_reuse, reusable, NP_Value};

verus! {

/// More cells than any chain in a 16-bit arena can hold.
pub const MAX_ENTRIES: usize = 8192;

/// The key stored in the entry at `a`, if it lies inside the bytes.
pub open spec fn stored_key(b: Seq<u8>, a: nat) -> Option<Seq<u8>> {
    if a + 2 <= b.len() && a + 2 + u16_at(b, a as int) <= b.len() {
        Some(b.subrange((a + 2) as int, (a + 2 + u16_at(b, a as int)) as int))
    } else {
        None
    }
}

/// The hash stored in the cell at `c`.
pub open spec fn cell_hash(b: Seq<u8>, c: nat) -> nat {
    be_value(b.subrange((c + 4) as int, (c + 8) as int))
}

/// Walks from cell `c` to the cell of `key`: `Some(None)` when the chain ends
/// first, `None` when a cell or an entry on the way lies outside the bytes or
/// the walk passes `fuel` cells.
pub open spec fn find_key(b: Seq<u8>, c: nat, fuel: nat, key: Seq<u8>) -> Option<Option<nat>>
    decreases fuel,
{
    if c == 0 {
        Some(None)
    } else if fuel == 0 || c + 8 > b.len() {
        None
    } else if cell_hash(b, c) == fnv1a(key) as nat && u16_at(b, c as int) != 0 {
        match stored_key(b, u16_at(b, c as int)) {
            None => None,
            Some(k) => if k == key {
                Some(Some(c))
            } else {
                find_key(b, u16_at(b, (c + 2) as int), (fuel - 1) as nat, key)
            },
        }
    } else {
        find_key(b, u16_at(b, (c + 2) as int), (fuel - 1) as nat, key)
    }
}

proof fn lemma_find_key_found(b: Seq<u8>, c: nat, fuel: nat, key: Seq<u8>)
    ensures
        find_key(b, c, fuel, key) matches Some(Some(x)) ==> x != 0 && x + 8 <= b.len()
            && stored_key(b, u16_at(b, x as int)) == Some(key),
    decreases fuel,
{
    if c != 0 && fuel > 0 && c + 8 <= b.len() {
        lemma_find_key_found(b, u16_at(b, (c + 2) as int), (fuel - 1) as nat, key);
    }
}

/// The cell of `key` in the map whose header is at `h`.
pub open spec fn map_cell(b: Seq<u8>, h: nat, key: Seq<u8>) -> Option<Option<nat>> {
    if h + 4 > b.len() {
        None
    } else {
        find_key(b, u16_at(b, h as int), MAX_ENTRIES as nat, key)
    }
}

/// What reading `key` as `T` gives: `None` when the bytes break the format,
/// `Some(None)` when the map has no such key.
pub open spec fn map_value<T: NP_Value>(b: Seq<u8>, h: nat, key: Seq<u8>) -> Option<Option<T::V>> {
    match map_cell(b, h, key) {
        None => None,
        Some(None) => Some(None),
        Some(Some(c)) => match T::decoded(b, (u16_at(b, c as int) + 2 + key.len()) as int) {
            Some(v) => Some(Some(v)),
            None => None,
        },
    }
}

/// Makes an empty map header, returning its address.
pub fn map_new(memory: &mut NP_Memory) -> (r: Result<u16, NP_Error>)
    ensures
        old(memory)@.len() + 4 <= MAX_SIZE ==> r == Ok::<u16, NP_Error>(old(memory)@.len() as u16)
            && final(memory)@ == old(memory)@ + Seq::new(4, |i: int| 0u8),
        old(memory)@.len() + 4 > MAX_SIZE ==> r == Err::<u16, NP_Error>(NP_Error::OutOfSpace)
            && final(memory)@ == old(memory)@,
{
    memory.malloc(4)
}

/// The key of the entry at `a`.
fn read_key(memory: &NP_Memory, a: usize) -> (r: Result<Vec<u8>, NP_Error>)
    ensures
        match stored_key(memory@, a as nat) {
            Some(k) => r matches Ok(v) && v@ == k,
            None => r == Err::<Vec<u8>, NP_Error>(NP_Error::Corrupt),
        },
{
    let _len = memory.len();
    let n = memory.read_u16(a)?;
    memory.read_slice(a + 2, n as usize)
}

fn bytes_eq(a: &Vec<u8>, b: &[u8]) -> (r: bool)
    ensures
        r == (a@ == b@),
{
    if a.len() != b.len() {
        return false;
    }
    let mut i: usize = 0;
    while i < a.len()
        invariant
            a@.len() == b@.len(),
            i <= a@.len(),
            forall|j: int| 0 <= j < i ==> a@[j] == b@[j],
        decreases a@.len() - i,
    {
        if a[i] != b[i] {
            return false;
        }
        i = i + 1;
    }
    assert(a@ =~= b@);
    true
}

/// The hash in the cell at `c`.
fn read_hash(memory: &NP_Memory, c: usize) -> (r: Result<u32, NP_Error>)
    ensures
        c + 8 <= memory@.len() ==> r == Ok::<u32, NP_Error>(cell_hash(memory@, c as nat) as u32)
            && cell_hash(memory@, c as nat) < 0x1_0000_0000,
        c + 8 > memory@.len() ==> r == Err::<u32, NP_Error>(NP_Error::Corrupt),
{
    if c > memory.len() || memory.len() - c < 8 {
        return Err(NP_Error::Corrupt);
    }
    let s = memory.read_slice(c + 4, 4)?;
    let v = crate::encoding::decode_be(&s, 0, 4);
    proof {
        assert(s@.subrange(0, 4) =~= s@);
        crate::encoding::lemma_be_value_bound(s@);
        reveal_with_fuel(crate::encoding::pow256, 5);
    }
    Ok(v as u32)
}

/// Finds the cell of `key`, 0 when the map has none.
fn walk_key(memory: &NP_Memory, h: usize, key: &[u8]) -> (r: Result<u16, NP_Error>)
    ensures
        match map_cell(memory@, h as nat, key@) {
            None => r == Err::<u16, NP_Error>(NP_Error::Corrupt),
            Some(None) => r == Ok::<u16, NP_Error>(0),
            Some(Some(c)) => r == Ok::<u16, NP_Error>(c as u16) && c != 0 && c < 0x1_0000 && c + 8
                <= memory@.len() && stored_key(memory@, u16_at(memory@, c as int)) == Some(key@),
        },
{
    proof {
        if h + 4 <= memory@.len() {
            lemma_find_key_found(memory@, u16_at(memory@, h as int), MAX_ENTRIES as nat, key@);
        }
    }
    if h > memory.len() || memory.len() - h < 4 {
        return Err(NP_Error::Corrupt);
    }
    let kh = hash(key);
    let head = memory.read_u16(h)?;
    let mut c: u16 = head;
    let mut fuel: usize = MAX_ENTRIES;
    loop
        invariant
            h + 4 <= memory@.len(),
            kh == fnv1a(key@),
            fuel <= MAX_ENTRIES,
            map_cell(memory@, h as nat, key@) == find_key(memory@, c as nat, fuel as nat, key@),
        decreases fuel,
    {
        if c == 0 {
            return Ok(0);
        }
        if fuel == 0 {
            return Err(NP_Error::Corrupt);
        }
        let ch = read_hash(memory, c as usize)?;
        let a = memory.read_u16(c as usize)?;
        let next = memory.read_u16(c as usize + 2)?;
        if ch == kh && a != 0 {
            let k = read_key(memory, a as usize)?;
            if bytes_eq(&k, key) {
                return Ok(c);
            }
        }
        c = next;
        fuel = fuel - 1;
    }
}

/// Reads `key` of the map whose header is at `h`.
pub fn map_get<T: NP_Value>(memory: &NP_Memory, h: usize, key: &[u8]) -> (r: Result<
    Option<T>,
    NP_Error,
>)
    ensures
        match r {
            Ok(o) => map_value::<T>(memory@, h as nat, key@) == Some(crate::cursor::opt_view(o)),
            Err(_) => map_value::<T>(memory@, h as nat, key@) is None,
        },
{
    let c = walk_key(memory, h, key)?;
    if c == 0 {
        return Ok(None);
    }
    let _len = memory.len();
    let a = memory.read_u16(c as usize)?;
    let v = T::into_value(memory, a as usize + 2 + key.len())?;
    Ok(Some(v))
}

/// The entry bytes for `key` and the value encoding `e`.
pub open spec fn entry(key: Seq<u8>, e: Seq<u8>) -> Seq<u8> {
    be_encode(key.len(), 2) + key + e
}

/// The bytes after writing `v` under `key`: over the old value when its
/// allocation can take the new encoding, else a new entry pointed to by the
/// key's cell, or by a new cell linked after the last when the key is new.
pub open spec fn map_set_spec<T: NP_Value>(b: Seq<u8>, h: nat, key: Seq<u8>, v: T::V) -> Result<
    Seq<u8>,
    NP_Error,
> {
    let en = entry(key, T::encoded(v));
    let t: int = u16_at(b, (h + 2) as int) as int;
    match map_cell(b, h, key) {
        None => Err(NP_Error::Corrupt),
        Some(Some(c)) => if reusable::<T>(
            b,
            u16_at(b, c as int) + 2 + key.len(),
            T::encoded(v),
        ) {
            Ok(splice(b, (u16_at(b, c as int) + 2 + key.len()) as int, T::encoded(v)))
        } else if key.len() < 0x1_0000 && b.len() + en.len() <= MAX_SIZE {
            Ok(splice(b + en, c as int, be_encode(b.len(), 2)))
        } else {
            Err(NP_Error::OutOfSpace)
        },
        Some(None) => if t != 0 && t + 8 > b.len() {
            Err(NP_Error::Corrupt)
        } else if key.len() < 0x1_0000 && b.len() + en.len() + 8 <= MAX_SIZE {
            let ea: nat = b.len();
            let ca: nat = b.len() + en.len();
            let b1 = b + en + (be_encode(ea, 2) + seq![0u8, 0u8] + be_encode(fnv1a(key) as nat, 4));
            let b2 = if t == 0 {
                splice(b1, h as int, be_encode(ca, 2))
            } else {
                splice(b1, (t + 2) as int, be_encode(ca, 2))
            };
            Ok(splice(b2, (h + 2) as int, be_encode(ca, 2)))
        } else {
            Err(NP_Error::OutOfSpace)
        },
    }
}

/// The entry bytes for `key` and `value`.
fn make_entry<T: NP_Value>(key: &[u8], value: &T) -> (r: Vec<u8>)
    ensures
        r@ == entry(key@, T::encoded(value@)),
{
    let mut en = crate::encoding::encode_be(key.len() as u64, 2);
    let mut i: usize = 0;
    while i < key.len()
        invariant
            i <= key@.len(),
            en@ == be_encode(key@.len(), 2) + key@.subrange(0, i as int),
        decreases key@.len() - i,
    {
        en.push(key[i]);
        i = i + 1;
        assert(en@ =~= be_encode(key@.len(), 2) + key@.subrange(0, i as int));
    }
    assert(key@.subrange(0, key@.len() as int) =~= key@);
    let vb = value.to_value_bytes();
    let mut j: usize = 0;
    while j < vb.len()
        invariant
            j <= vb@.len(),
            en@ == be_encode(key@.len(), 2) + key@ + vb@.subrange(0, j as int),
        decreases vb@.len() - j,
    {
        en.push(vb[j]);
        j = j + 1;
        assert(en@ =~= be_encode(key@.len(), 2) + key@ + vb@.subrange(0, j as int));
    }
    assert(vb@.subrange(0, vb@.len() as int) =~= vb@);
    en
}

/// The cell bytes: entry address, no successor, key hash.
fn make_cell(ea: u16, kh: u32) -> (r: Vec<u8>)
    ensures
        r@ == be_encode(ea as nat, 2) + seq![0u8, 0u8] + be_encode(kh as nat, 4),
        r@.len() == 8,
{
    let mut cell = crate::encoding::encode_be(ea as u64, 2);
    cell.push(0u8);
    cell.push(0u8);
    let hb = crate::encoding::encode_be(kh as u64, 4);
    proof {
        crate::encoding::lemma_be_encode_len(ea as nat, 2);
        crate::encoding::lemma_be_encode_len(kh as nat, 4);
    }
    let mut k: usize = 0;
    while k < 4
        invariant
            k <= 4,
            hb@.len() == 4,
            cell@ == be_encode(ea as nat, 2) + seq![0u8, 0u8] + hb@.subrange(0, k as int),
        decreases 4 - k,
    {
        cell.push(hb[k]);
        k = k + 1;
        assert(cell@ =~= be_encode(ea as nat, 2) + seq![0u8, 0u8] + hb@.subrange(0, k as int));
    }
    assert(hb@.subrange(0, 4) =~= hb@);
    cell
}

/// Writes `value` under `key` in the map whose header is at `h`; on failure
/// the bytes are left as they were.
pub fn map_set<T: NP_Value>(memory: &mut NP_Memory, h: usize, key: &[u8], value: &T) -> (r: Result<
    (),
    NP_Error,
>)
    ensures
        match map_set_spec::<T>(old(memory)@, h as nat, key@, value@) {
            Ok(n) => r is Ok && final(memory)@ == n,
            Err(e) => r == Err::<(), NP_Error>(e) && final(memory)@ == old(memory)@,
        },
{
    let _len0 = memory.len();
    let c = walk_key(memory, h, key)?;
    let tail = memory.read_u16(h + 2)?;
    let en = make_entry(key, value);
    let len = memory.len();
    if c != 0 {
        let a = memory.read_u16(c as usize)?;
        let va = a as usize + 2 + key.len();
        let vb = value.to_value_bytes();
        if can_reuse::<T>(memory, va, &vb) {
            memory.write_bytes(va, &vb);
            return Ok(());
        }
        if key.len() >= 0x1_0000 || en.len() > MAX_SIZE || len > MAX_SIZE - en.len() {
            return Err(NP_Error::OutOfSpace);
        }
        let ea = memory.malloc_borrow(&en)?;
        memory.write_address(c as usize, ea);
        return Ok(());
    }
    if tail != 0 && (tail as usize > len || len - (tail as usize) < 8) {
        return Err(NP_Error::Corrupt);
    }
    if key.len() >= 0x1_0000 || en.len() > MAX_SIZE || len > MAX_SIZE - en.len() || len
        + en.len() > MAX_SIZE - 8 {
        return Err(NP_Error::OutOfSpace);
    }
    let kh = hash(key);
    let ea = memory.malloc_borrow(&en)?;
    let cell = make_cell(ea, kh);
    let ca = memory.malloc_borrow(&cell)?;
    proof {
        crate::encoding::lemma_be_encode_len(ca as nat, 2);
    }
    if tail == 0 {
        memory.write_address(h, ca);
    } else {
        memory.write_address(tail as usize + 2, ca);
    }
    memory.write_address(h + 2, ca);
    Ok(())
}

/// The keys along the chain from cell `c`, following at most `fuel` links:
/// `None` when a cell or a key lies outside the bytes or the chain is longer.
pub open spec fn chain_keys(b: Seq<u8>, c: nat, fuel: nat) -> Option<Seq<Seq<u8>>>
    decreases fuel,
{
    if c == 0 {
        Some(Seq::empty())
    } else if fuel == 0 || c + 8 > b.len() {
        None
    } else {
        match stored_key(b, u16_at(b, c as int)) {
            None => None,
            Some(k) => match chain_keys(b, u16_at(b, (c + 2) as int), (fuel - 1) as nat) {
                Some(rest) => Some(seq![k] + rest),
                None => None,
            },
        }
    }
}

/// The keys of the map whose header is at `h`, in insertion order.
pub open spec fn map_keys_spec(b: Seq<u8>, h: nat) -> Option<Seq<Seq<u8>>> {
    if h + 4 <= b.len() {
        chain_keys(b, u16_at(b, h as int), MAX_ENTRIES as nat)
    } else {
        None
    }
}

/// The keys of the map whose header is at `h`, in insertion order.
pub fn map_keys(memory: &NP_Memory, h: usize) -> (r: Result<Vec<Vec<u8>>, NP_Error>)
    ensures
        match map_keys_spec(memory@, h as nat) {
            Some(ks) => r matches Ok(v) && v@.len() == ks.len() && forall|i: int|
                0 <= i < ks.len() ==> (#[trigger] v@[i])@ == ks[i],
            None => r == Err::<Vec<Vec<u8>>, NP_Error>(NP_Error::Corrupt),
        },
{
    if h > memory.len() || memory.len() - h < 4 {
        return Err(NP_Error::Corrupt);
    }
    let head = memory.read_u16(h)?;
    let ghost mut seen: Seq<Seq<u8>> = Seq::empty();
    let mut out: Vec<Vec<u8>> = Vec::new();
    let mut c: u16 = head;
    let mut fuel: usize = MAX_ENTRIES;
    while c != 0
        invariant
            h + 4 <= memory@.len(),
            fuel <= MAX_ENTRIES,
            out@.len() == seen.len(),
            forall|i: int| 0 <= i < seen.len() ==> (#[trigger] out@[i])@ == seen[i],
            map_keys_spec(memory@, h as nat) == match chain_keys(memory@, c as nat, fuel as nat) {
                Some(rest) => Some(seen + rest),
                None => None::<Seq<Seq<u8>>>,
            },
        decreases fuel,
    {
        if fuel == 0 || c as usize > memory.len() || memory.len() - (c as usize) < 8 {
            return Err(NP_Error::Corrupt);
        }
        let a = memory.read_u16(c as usize)?;
        let next = memory.read_u16(c as usize + 2)?;
        let k = read_key(memory, a as usize)?;
        proof {
            let b = memory@;
            if chain_keys(b, next as nat, (fuel - 1) as nat) is Some {
                let rest = chain_keys(b, next as nat, (fuel - 1) as nat)->Some_0;
                assert(seen + (seq![k@] + rest) =~= seen.push(k@) + rest);
            }
            seen = seen.push(k@);
        }
        out.push(k);
        c = next;
        fuel = fuel - 1;
    }
    assert(seen + Seq::<Seq<u8>>::empty() =~= seen);
    Ok(out)
}

/// As `find_key`, also giving the cell before the key's cell (0 for none).
pub open spec fn find_key_slot(b: Seq<u8>, prev: nat, c: nat, fuel: nat, key: Seq<u8>) -> Option<
    Option<(nat, nat)>,
>
    decreases fuel,
{
    if c == 0 {
        Some(None)
    } else if fuel == 0 || c + 8 > b.len() {
        None
    } else if cell_hash(b, c) == fnv1a(key) as nat && u16_at(b, c as int) != 0 {
        match stored_key(b, u16_at(b, c as int)) {
            None => None,
            Some(k) => if k == key {
                Some(Some((prev, c)))
            } else {
                find_key_slot(b, c, u16_at(b, (c + 2) as int), (fuel - 1) as nat, key)
            },
        }
    } else {
        find_key_slot(b, c, u16_at(b, (c + 2) as int), (fuel - 1) as nat, key)
    }
}

/// The bytes after unlinking the cell of `key`; its entry stays until
/// compaction. Nothing changes when the map has no such key.
pub open spec fn map_del_spec(b: Seq<u8>, h: nat, key: Seq<u8>) -> Option<Seq<u8>> {
    if h + 4 > b.len() {
        None
    } else {
        match find_key_slot(b, 0, u16_at(b, h as int), MAX_ENTRIES as nat, key) {
            None => None,
            Some(None) => Some(b),
            Some(Some((p, c))) => {
                let next = u16_at(b, (c + 2) as int);
                let b1 = if p == 0 {
                    splice(b, h as int, be_encode(next, 2))
                } else {
                    splice(b, (p + 2) as int, be_encode(next, 2))
                };
                Some(
                    if next == 0 {
                        splice(b1, (h + 2) as int, be_encode(p, 2))
                    } else {
                        b1
                    },
                )
            },
        }
    }
}

/// Removes `key` from the map whose header is at `h`.
pub fn map_del(memory: &mut NP_Memory, h: usize, key: &[u8]) -> (r: Result<(), NP_Error>)
    ensures
        match map_del_spec(old(memory)@, h as nat, key@) {
            Some(n) => r is Ok && final(memory)@ == n,
            None => r == Err::<(), NP_Error>(NP_Error::Corrupt) && final(memory)@ == old(memory)@,
        },
{
    if h > memory.len() || memory.len() - h < 4 {
        return Err(NP_Error::Corrupt);
    }
    let kh = hash(key);
    let head = memory.read_u16(h)?;
    let ghost b = memory@;
    let mut prev: u16 = 0;
    let mut c: u16 = head;
    let mut fuel: usize = MAX_ENTRIES;
    let mut found: u16 = 0;
    loop
        invariant_except_break
            found == 0,
        invariant
            b == memory@,
            h + 4 <= b.len(),
            kh == fnv1a(key@),
            fuel <= MAX_ENTRIES,
            prev != 0 ==> prev + 8 <= b.len(),
            find_key_slot(b, 0, u16_at(b, h as int), MAX_ENTRIES as nat, key@) == find_key_slot(
                b,
                prev as nat,
                c as nat,
                fuel as nat,
                key@,
            ),
        ensures
            b == memory@,
            find_key_slot(b, 0, u16_at(b, h as int), MAX_ENTRIES as nat, key@) == (if found == 0 {
                Some(None::<(nat, nat)>)
            } else {
                Some(Some((prev as nat, found as nat)))
            }),
            found != 0 ==> found + 8 <= b.len(),
            prev != 0 ==> prev + 8 <= b.len(),
        decreases fuel,
    {
        if c == 0 {
            break;
        }
        if fuel == 0 || c as usize > memory.len() || memory.len() - (c as usize) < 8 {
            return Err(NP_Error::Corrupt);
        }
        let ch = read_hash(memory, c as usize)?;
        let a = memory.read_u16(c as usize)?;
        let next = memory.read_u16(c as usize + 2)?;
        if ch == kh && a != 0 {
            let k = read_key(memory, a as usize)?;
            if bytes_eq(&k, key) {
                found = c;
                break;
            }
        }
        prev = c;
        c = next;
        fuel = fuel - 1;
    }
    if found == 0 {
        return Ok(());
    }
    let next = memory.read_u16(found as usize + 2)?;
    if prev == 0 {
        memory.write_address(h, next);
    } else {
        memory.write_address(prev as usize + 2, next);
    }
    if next == 0 {
        memory.write_address(h + 2, prev);
    }
    Ok(())
}

/// The cells of the chain that starts at `c`, following at most `fuel`
/// links; `None` when a cell lies outside the bytes or the chain is longer.
pub open spec fn map_chain(b: Seq<u8>, c: nat, fuel: nat) -> Option<Seq<nat>>
    decreases fuel,
{
    if c == 0 {
        Some(Seq::empty())
    } else if fuel == 0 || c + 8 > b.len() {
        None
    } else {
        match map_chain(b, u16_at(b, (c + 2) as int), (fuel - 1) as nat) {
            Some(rest) => Some(seq![c] + rest),
            None => None,
        }
    }
}

/// The cells of the map whose header is at `h`, in insertion order.
pub open spec fn map_cells(b: Seq<u8>, h: nat) -> Option<Seq<nat>> {
    if h + 4 <= b.len() {
        map_chain(b, u16_at(b, h as int), MAX_ENTRIES as nat)
    } else {
        None
    }
}

proof fn lemma_map_chain_len(b: Seq<u8>, c: nat, fuel: nat)
    ensures
        map_chain(b, c, fuel) matches Some(cs) ==> cs.len() <= fuel,
    decreases fuel,
{
    if c != 0 && fuel > 0 && c + 8 <= b.len() {
        lemma_map_chain_len(b, u16_at(b, (c + 2) as int), (fuel - 1) as nat);
    }
}

/// The number of entries in the map whose header is at `h`.
pub fn map_len(memory: &NP_Memory, h: usize) -> (r: Result<usize, NP_Error>)
    ensures
        match map_cells(memory@, h as nat) {
            Some(cs) => r == Ok::<usize, NP_Error>(cs.len() as usize),
            None => r == Err::<usize, NP_Error>(NP_Error::Corrupt),
        },
{
    if h > memory.len() || memory.len() - h < 4 {
        return Err(NP_Error::Corrupt);
    }
    let head = memory.read_u16(h)?;
    let ghost b = memory@;
    let ghost mut seen: Seq<nat> = Seq::empty();
    let mut c: u16 = head;
    let mut fuel: usize = MAX_ENTRIES;
    let mut count: usize = 0;
    while c != 0
        invariant
            b == memory@,
            h + 4 <= b.len(),
            count + fuel == MAX_ENTRIES,
            seen.len() == count,
            map_cells(b, h as nat) == match map_chain(b, c as nat, fuel as nat) {
                Some(rest) => Some(seen + rest),
                None => None::<Seq<nat>>,
            },
        decreases fuel,
    {
        if fuel == 0 || c as usize > memory.len() || memory.len() - (c as usize) < 8 {
            return Err(NP_Error::Corrupt);
        }
        let next = memory.read_u16(c as usize + 2)?;
        proof {
            if map_chain(b, next as nat, (fuel - 1) as nat) is Some {
                let rest = map_chain(b, next as nat, (fuel - 1) as nat)->Some_0;
                assert(seen + (seq![c as nat] + rest) =~= seen.push(c as nat) + rest);
            }
            seen = seen.push(c as nat);
        }
        c = next;
        fuel = fuel - 1;
        count = count + 1;
    }
    assert(seen + Seq::<nat>::empty() =~= seen);
    Ok(count)
}

/// Copies the entries of the cells `cs` of the map in `from`, in order, into
/// the map whose header is at `th` in `to`; cells without an entry are skipped.
pub open spec fn copy_entries<T: NP_Value>(from: Seq<u8>, cs: Seq<nat>, to: Seq<u8>, th: nat) -> Result<
    Seq<u8>,
    NP_Error,
>
    decreases cs.len(),
{
    if cs.len() == 0 {
        Ok(to)
    } else if u16_at(from, cs[0] as int) == 0 {
        copy_entries::<T>(from, cs.drop_first(), to, th)
    } else {
        let a = u16_at(from, cs[0] as int);
        match stored_key(from, a) {
            None => Err(NP_Error::Corrupt),
            Some(k) => match T::decoded(from, (a + 2 + k.len()) as int) {
                None => Err(NP_Error::Corrupt),
                Some(v) => match map_set_spec::<T>(to, th, k, v) {
                    Ok(t2) => copy_entries::<T>(from, cs.drop_first(), t2, th),
                    Err(e) => Err(e),
                },
            },
        }
    }
}

/// The buffer holding only the map at `h` of `from`: a header whose root
/// points at a new map header, and each entry copied in insertion order.
pub open spec fn map_compacted<T: NP_Value>(from: Seq<u8>, h: nat) -> Result<Seq<u8>, NP_Error> {
    match map_cells(from, h) {
        None => Err(NP_Error::Corrupt),
        Some(cs) => copy_entries::<T>(
            from,
            cs,
            be_encode(4, 2) + seq![0u8, 0u8] + seq![0u8, 0u8, 0u8, 0u8],
            4,
        ),
    }
}

/// Writes into a fresh buffer only what the map at `h` of `from` reaches.
pub fn map_compact<T: NP_Value>(from: &NP_Memory, h: usize) -> (r: Result<NP_Memory, NP_Error>)
    ensures
        match map_compacted::<T>(from@, h as nat) {
            Ok(n) => r matches Ok(m) && m@ == n,
            Err(e) => r matches Err(e2) && e2 == e,
        },
{
    let n = map_len(from, h)?;
    let ghost all = map_cells(from@, h as nat)->Some_0;
    proof {
        lemma_map_chain_len(from@, u16_at(from@, h as int), MAX_ENTRIES as nat);
        assert(all.subrange(0, all.len() as int) =~= all);
    }
    let mut to = NP_Memory::new_empty();
    let th = match map_new(&mut to) {
        Ok(a) => a,
        Err(e) => {
            return Err(e);
        },
    };
    to.write_address(0, th);
    proof {
        reveal_with_fuel(be_encode, 3);
        assert(to@ =~= be_encode(4, 2) + seq![0u8, 0u8] + seq![0u8, 0u8, 0u8, 0u8]);
    }
    let head = from.read_u16(h)?;
    let mut c: u16 = head;
    let mut k: usize = 0;
    while k < n
        invariant
            n == all.len(),
            k <= n,
            th == 4,
            map_cells(from@, h as nat) == Some(all),
            h + 4 <= from@.len(),
            k <= MAX_ENTRIES,
            map_chain(from@, c as nat, (MAX_ENTRIES - k) as nat) == Some(
                all.subrange(k as int, n as int),
            ),
            map_compacted::<T>(from@, h as nat) == copy_entries::<T>(
                from@,
                all.subrange(k as int, n as int),
                to@,
                4,
            ),
        decreases n - k,
    {
        let ghost rest = all.subrange(k as int, n as int);
        proof {
            assert(rest.len() > 0);
            assert(c != 0);
            assert(rest[0] == c as nat);
            assert(rest.drop_first() =~= all.subrange(k + 1, n as int));
        }
        let a = from.read_u16(c as usize)?;
        let next = from.read_u16(c as usize + 2)?;
        if a != 0 {
            let key = match read_key(from, a as usize) {
                Ok(key) => key,
                Err(e) => {
                    return Err(e);
                },
            };
            let _flen = from.len();
            let v = match T::into_value(from, a as usize + 2 + key.len()) {
                Ok(v) => v,
                Err(_) => {
                    return Err(NP_Error::Corrupt);
                },
            };
            match map_set::<T>(&mut to, 4, key.as_slice(), &v) {
                Ok(()) => {},
                Err(e) => {
                    return Err(e);
                },
            }
        }
        c = next;
        k = k + 1;
    }
    proof {
        assert(all.subrange(n as int, n as int) =~= Seq::<nat>::empty());
    }
    Ok(to)
}

} // verus!
