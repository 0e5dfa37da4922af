//! The list engine: a 4-byte header (head, tail) and a chain of 5-byte item
//! cells (value address, next cell, index) with strictly increasing indices.
use vstd::prelude::*;
use crate::encoding::be_encode;
use crate::error::NP_Error;
use crate::memory::{splice, u16_at, NP_Memory, MAX_SIZE};
use crate::value::{can_reuse, reusable, NP_Value};

verus! {

/// The longest chain a list may have: one cell per 8-bit index.
pub const MAX_ITEMS: usize = 256;

/// The cells of the chain that starts at `c`, following at most `fuel`
/// links; `None` when a cell lies outside the bytes or the chain is longer.
pub open spec fn chain(b: Seq<u8>, c: nat, fuel: nat) -> Option<Seq<nat>>
    decreases fuel,
{
    if c == 0 {
        Some(Seq::empty())
    } else if fuel == 0 || c + 5 > b.len() {
        None
    } else {
        match chain(b, u16_at(b, (c + 2) as int), (fuel - 1) as nat) {
            Some(rest) => Some(seq![c] + rest),
            None => None,
        }
    }
}

/// The cells of the list whose header is at `h`.
pub open spec fn list_cells(b: Seq<u8>, h: nat) -> Option<Seq<nat>> {
    if h + 4 <= b.len() {
        chain(b, u16_at(b, h as int), MAX_ITEMS as nat)
    } else {
        None
    }
}

/// The index stored in the cell at `c`.
pub open spec fn cell_index(b: Seq<u8>, c: nat) -> u8 {
    b[(c + 4) as int]
}

/// The value address stored in the cell at `c`.
pub open spec fn cell_value(b: Seq<u8>, c: nat) -> nat {
    u16_at(b, c as int)
}

proof fn lemma_chain_step(b: Seq<u8>, c: nat, fuel: nat)
    requires
        c != 0,
        fuel > 0,
        c + 5 <= b.len(),
    ensures
        chain(b, c, fuel) == match chain(b, u16_at(b, (c + 2) as int), (fuel - 1) as nat) {
            Some(rest) => Some(seq![c] + rest),
            None => None::<Seq<nat>>,
        },
{
}

proof fn lemma_chain_len(b: Seq<u8>, c: nat, fuel: nat)
    ensures
        chain(b, c, fuel) matches Some(cs) ==> cs.len() <= fuel,
    decreases fuel,
{
    if c != 0 && fuel > 0 && c + 5 <= b.len() {
        lemma_chain_len(b, u16_at(b, (c + 2) as int), (fuel - 1) as nat);
    }
}

/// Reads the cell at `c`: its value address, next cell and index.
fn read_cell(memory: &NP_Memory, c: usize) -> (r: Result<(u16, u16, u8), NP_Error>)
    ensures
        c + 5 <= memory@.len() ==> r == Ok::<(u16, u16, u8), NP_Error>(
            (
                u16_at(memory@, c as int) as u16,
                u16_at(memory@, c + 2) as u16,
                memory@[c + 4],
            ),
        ) && u16_at(memory@, c as int) < 0x1_0000 && u16_at(memory@, c + 2) < 0x1_0000,
        c + 5 > memory@.len() ==> r == Err::<(u16, u16, u8), NP_Error>(NP_Error::Corrupt),
{
    if c > memory.len() || memory.len() - c < 5 {
        return Err(NP_Error::Corrupt);
    }
    let v = memory.read_u16(c)?;
    let n = memory.read_u16(c + 2)?;
    let i = memory.read_u8(c + 4)?;
    Ok((v, n, i))
}

/// The number of items in the list whose header is at `h`.
pub fn list_len(memory: &NP_Memory, h: usize) -> (r: Result<usize, NP_Error>)
    ensures
        match list_cells(memory@, h as nat) {
            Some(cs) => r == Ok::<usize, NP_Error>(cs.len() as usize),
            None => r == Err::<usize, NP_Error>(NP_Error::Corrupt),
        },
{
    if h > memory.len() || memory.len() - h < 4 {
        return Err(NP_Error::Corrupt);
    }
    let head = memory.read_u16(h)?;
    let ghost b = memory@;
    let mut c: u16 = head;
    let mut fuel: usize = MAX_ITEMS;
    let mut count: usize = 0;
    while c != 0
        invariant
            b == memory@,
            h + 4 <= b.len(),
            count + fuel == MAX_ITEMS,
            list_cells(b, h as nat) == match chain(b, c as nat, fuel as nat) {
                Some(rest) => Some(list_cells(b, h as nat)->Some_0.subrange(0, count as int) + rest),
                None => None::<Seq<nat>>,
            },
            list_cells(b, h as nat) is Some ==> list_cells(b, h as nat)->Some_0.len() >= count,
        decreases fuel,
    {
        if fuel == 0 {
            return Err(NP_Error::Corrupt);
        }
        let cell = read_cell(memory, c as usize);
        match cell {
            Ok((_, next, _)) => {
                proof {
                    lemma_chain_step(b, c as nat, fuel as nat);
                    if list_cells(b, h as nat) is Some {
                        let all = list_cells(b, h as nat)->Some_0;
                        let rest = chain(b, next as nat, (fuel - 1) as nat)->Some_0;
                        assert(all.subrange(0, count as int) + (seq![c as nat] + rest) =~= all.subrange(
                            0,
                            count + 1,
                        ) + rest);
                    }
                }
                c = next;
                fuel = fuel - 1;
                count = count + 1;
            },
            Err(e) => {
                return Err(e);
            },
        }
    }
    proof {
        if list_cells(b, h as nat) is Some {
            let all = list_cells(b, h as nat)->Some_0;
            assert(all.subrange(0, count as int) + Seq::<nat>::empty() =~= all.subrange(0, count as int));
        }
    }
    Ok(count)
}

/// Walks from cell `c` to the first cell whose index is at least `i`:
/// `Some(None)` when the chain ends first, `None` when a cell on the way lies
/// outside the bytes or the walk passes `fuel` cells.
pub open spec fn find_cell(b: Seq<u8>, c: nat, fuel: nat, i: u8) -> Option<Option<nat>>
    decreases fuel,
{
    if c == 0 {
        Some(None)
    } else if fuel == 0 || c + 5 > b.len() {
        None
    } else if cell_index(b, c) >= i {
        Some(Some(c))
    } else {
        find_cell(b, u16_at(b, (c + 2) as int), (fuel - 1) as nat, i)
    }
}

/// What reading item `i` as `T` gives: `None` when the bytes break the
/// format, `Some(None)` when the list has no value at `i`.
pub open spec fn list_value<T: NP_Value>(b: Seq<u8>, h: nat, i: u8) -> Option<Option<T::V>> {
    if h + 4 > b.len() {
        None
    } else {
        match find_cell(b, u16_at(b, h as int), MAX_ITEMS as nat, i) {
            None => None,
            Some(None) => Some(None),
            Some(Some(c)) => if cell_index(b, c) == i && cell_value(b, c) != 0 {
                match T::decoded(b, cell_value(b, c) as int) {
                    Some(v) => Some(Some(v)),
                    None => None,
                }
            } else {
                Some(None)
            },
        }
    }
}

/// Reads item `i` of the list whose header is at `h`.
pub fn list_get<T: NP_Value>(memory: &NP_Memory, h: usize, i: u8) -> (r: Result<Option<T>, NP_Error>)
    ensures
        match r {
            Ok(o) => list_value::<T>(memory@, h as nat, i) == Some(crate::cursor::opt_view(o)),
            Err(_) => list_value::<T>(memory@, h as nat, i) is None,
        },
{
    if h > memory.len() || memory.len() - h < 4 {
        return Err(NP_Error::Corrupt);
    }
    let head = memory.read_u16(h)?;
    let ghost b = memory@;
    let mut c: u16 = head;
    let mut fuel: usize = MAX_ITEMS;
    loop
        invariant
            b == memory@,
            h + 4 <= b.len(),
            fuel <= MAX_ITEMS,
            find_cell(b, u16_at(b, h as int), MAX_ITEMS as nat, i) == find_cell(
                b,
                c as nat,
                fuel as nat,
                i,
            ),
        decreases fuel,
    {
        if c == 0 {
            return Ok(None);
        }
        if fuel == 0 {
            return Err(NP_Error::Corrupt);
        }
        let (value, next, index) = read_cell(memory, c as usize)?;
        if index >= i {
            if index == i && value != 0 {
                let v = T::into_value(memory, value as usize)?;
                return Ok(Some(v));
            }
            return Ok(None);
        }
        c = next;
        fuel = fuel - 1;
    }
}

/// The bytes after appending `v` to the list whose header is at `h`, with the
/// index one past the last item's (0 for an empty list).
pub open spec fn push_spec<T: NP_Value>(b: Seq<u8>, h: nat, v: T::V) -> Result<(Seq<u8>, u8), NP_Error> {
    let e = T::encoded(v);
    let t: int = u16_at(b, (h + 2) as int) as int;
    if h + 4 > b.len() {
        Err(NP_Error::Corrupt)
    } else if t != 0 && t + 5 > b.len() {
        Err(NP_Error::Corrupt)
    } else if t != 0 && b[t + 4] == 255 {
        Err(NP_Error::ListFull)
    } else if b.len() + e.len() + 5 > MAX_SIZE {
        Err(NP_Error::OutOfSpace)
    } else {
        let idx: u8 = if t == 0 {
            0
        } else {
            (b[t + 4] + 1) as u8
        };
        let va: nat = b.len();
        let ca: nat = b.len() + e.len();
        let b1 = b + e + (be_encode(va, 2) + seq![0u8, 0u8] + seq![idx]);
        let b2 = if t == 0 {
            splice(b1, h as int, be_encode(ca, 2))
        } else {
            splice(b1, t + 2, be_encode(ca, 2))
        };
        Ok((splice(b2, (h + 2) as int, be_encode(ca, 2)), idx))
    }
}

/// Appends `value` to the list whose header is at `h`, returning its index;
/// on failure the bytes are left as they were.
pub fn list_push<T: NP_Value>(memory: &mut NP_Memory, h: usize, value: &T) -> (r: Result<u8, NP_Error>)
    ensures
        match push_spec::<T>(old(memory)@, h as nat, value@) {
            Ok((n, idx)) => r == Ok::<u8, NP_Error>(idx) && final(memory)@ == n,
            Err(e) => r == Err::<u8, NP_Error>(e) && final(memory)@ == old(memory)@,
        },
{
    if h > memory.len() || memory.len() - h < 4 {
        return Err(NP_Error::Corrupt);
    }
    let tail = memory.read_u16(h + 2)?;
    let mut idx: u8 = 0;
    if tail != 0 {
        let (_, _, last) = read_cell(memory, tail as usize)?;
        if last == 255 {
            return Err(NP_Error::ListFull);
        }
        idx = last + 1;
    }
    let bytes = value.to_value_bytes();
    let len = memory.len();
    if bytes.len() > MAX_SIZE || len > MAX_SIZE - bytes.len() || len + bytes.len() > MAX_SIZE - 5 {
        return Err(NP_Error::OutOfSpace);
    }
    let va = memory.malloc_borrow(&bytes)?;
    let mut cell = crate::encoding::encode_be(va as u64, 2);
    cell.push(0u8);
    cell.push(0u8);
    cell.push(idx);
    proof {
        crate::encoding::lemma_be_encode_len(va as nat, 2);
        assert(cell@.len() == 5);
    }
    let ca = memory.malloc_borrow(&cell)?;
    proof {
        crate::encoding::lemma_be_encode_len(ca as nat, 2);
        assert(cell@ =~= be_encode(va as nat, 2) + seq![0u8, 0u8] + seq![idx]);
    }
    if tail == 0 {
        memory.write_address(h, ca);
    } else {
        memory.write_address(tail as usize + 2, ca);
    }
    memory.write_address(h + 2, ca);
    Ok(idx)
}

/// Makes an empty list header, returning its address.
pub fn list_new(memory: &mut NP_Memory) -> (r: Result<u16, NP_Error>)
    ensures
        old(memory)@.len() + 4 <= MAX_SIZE ==> r == Ok::<u16, NP_Error>(old(memory)@.len() as u16)
            && final(memory)@ == old(memory)@ + seq![0u8, 0u8, 0u8, 0u8],
        old(memory)@.len() + 4 > MAX_SIZE ==> r == Err::<u16, NP_Error>(NP_Error::OutOfSpace)
            && final(memory)@ == old(memory)@,
{
    let r = memory.malloc(4);
    assert(Seq::new(4, |i: int| 0u8) =~= seq![0u8, 0u8, 0u8, 0u8]);
    r
}

/// Walks from cell `c` (whose predecessor is `prev`, 0 for none) to the first
/// cell whose index is at least `i`, giving that cell's predecessor and the
/// cell itself (0 when the chain ends first); `None` as in `find_cell`.
pub open spec fn find_slot(b: Seq<u8>, prev: nat, c: nat, fuel: nat, i: u8) -> Option<(nat, nat)>
    decreases fuel,
{
    if c == 0 {
        Some((prev, 0))
    } else if fuel == 0 || c + 5 > b.len() {
        None
    } else if cell_index(b, c) >= i {
        Some((prev, c))
    } else {
        find_slot(b, c, u16_at(b, (c + 2) as int), (fuel - 1) as nat, i)
    }
}

/// The slot for index `i` in the list whose header is at `h`.
pub open spec fn list_slot(b: Seq<u8>, h: nat, i: u8) -> Option<(nat, nat)> {
    if h + 4 > b.len() {
        None
    } else {
        find_slot(b, 0, u16_at(b, h as int), MAX_ITEMS as nat, i)
    }
}

/// Finds the slot for index `i`: the cell before it and the cell at or after it.
fn walk_to(memory: &NP_Memory, h: usize, i: u8) -> (r: Result<(u16, u16), NP_Error>)
    ensures
        match list_slot(memory@, h as nat, i) {
            Some((p, c)) => r == Ok::<(u16, u16), NP_Error>((p as u16, c as u16)) && p < 0x1_0000
                && c < 0x1_0000 && (p != 0 ==> p + 5 <= memory@.len()) && (c != 0 ==> c + 5
                <= memory@.len()),
            None => r == Err::<(u16, u16), NP_Error>(NP_Error::Corrupt),
        },
{
    if h > memory.len() || memory.len() - h < 4 {
        return Err(NP_Error::Corrupt);
    }
    let head = memory.read_u16(h)?;
    let ghost b = memory@;
    let mut prev: u16 = 0;
    let mut c: u16 = head;
    let mut fuel: usize = MAX_ITEMS;
    loop
        invariant
            b == memory@,
            h + 4 <= b.len(),
            fuel <= MAX_ITEMS,
            prev != 0 ==> prev + 5 <= b.len(),
            list_slot(b, h as nat, i) == find_slot(b, prev as nat, c as nat, fuel as nat, i),
        decreases fuel,
    {
        if c == 0 {
            return Ok((prev, 0));
        }
        if fuel == 0 {
            return Err(NP_Error::Corrupt);
        }
        let (_, next, index) = read_cell(memory, c as usize)?;
        if index >= i {
            return Ok((prev, c));
        }
        prev = c;
        c = next;
        fuel = fuel - 1;
    }
}

/// The bytes after writing `v` at index `i`: over the item's old value when
/// its allocation can take the new encoding, in a new allocation when
/// the item exists otherwise, and in a new cell linked in index order when
/// the list has no item `i`.
pub open spec fn set_spec<T: NP_Value>(b: Seq<u8>, h: nat, i: u8, v: T::V) -> Result<Seq<u8>, NP_Error> {
    let e = T::encoded(v);
    match list_slot(b, h, i) {
        None => Err(NP_Error::Corrupt),
        Some((p, c)) => if c != 0 && cell_index(b, c) == i {
            let a = cell_value(b, c);
            if reusable::<T>(b, a, e) {
                Ok(splice(b, a as int, e))
            } else if b.len() + e.len() <= MAX_SIZE {
                Ok(splice(b + e, c as int, be_encode(b.len(), 2)))
            } else {
                Err(NP_Error::OutOfSpace)
            }
        } else if b.len() + e.len() + 5 <= MAX_SIZE {
            let va: nat = b.len();
            let na: nat = b.len() + e.len();
            let b1 = b + e + (be_encode(va, 2) + be_encode(c, 2) + seq![i]);
            let b2 = if p == 0 {
                splice(b1, h as int, be_encode(na, 2))
            } else {
                splice(b1, (p + 2) as int, be_encode(na, 2))
            };
            Ok(
                if c == 0 {
                    splice(b2, (h + 2) as int, be_encode(na, 2))
                } else {
                    b2
                },
            )
        } else {
            Err(NP_Error::OutOfSpace)
        },
    }
}

/// Writes `value` at index `i` of the list whose header is at `h`; on failure
/// the bytes are left as they were.
pub fn list_set<T: NP_Value>(memory: &mut NP_Memory, h: usize, i: u8, value: &T) -> (r: Result<
    (),
    NP_Error,
>)
    ensures
        match set_spec::<T>(old(memory)@, h as nat, i, value@) {
            Ok(n) => r is Ok && final(memory)@ == n,
            Err(e) => r == Err::<(), NP_Error>(e) && final(memory)@ == old(memory)@,
        },
{
    let (p, c) = walk_to(memory, h, i)?;
    let bytes = value.to_value_bytes();
    let len = memory.len();
    if c != 0 {
        let (a, _, index) = read_cell(memory, c as usize)?;
        if index == i {
            if can_reuse::<T>(memory, a as usize, &bytes) {
                memory.write_bytes(a as usize, &bytes);
                return Ok(());
            }
            let va = memory.malloc_borrow(&bytes)?;
            memory.write_address(c as usize, va);
            return Ok(());
        }
    }
    if bytes.len() > MAX_SIZE || len > MAX_SIZE - bytes.len() || len + bytes.len() > MAX_SIZE - 5 {
        return Err(NP_Error::OutOfSpace);
    }
    let va = memory.malloc_borrow(&bytes)?;
    let mut cell = crate::encoding::encode_be(va as u64, 2);
    let link = crate::encoding::encode_be(c as u64, 2);
    proof {
        crate::encoding::lemma_be_encode_len(c as nat, 2);
        crate::encoding::lemma_be_encode_len(va as nat, 2);
        assert(cell@ =~= be_encode(va as nat, 2) + link@.subrange(0, 0));
    }
    let mut k: usize = 0;
    while k < 2
        invariant
            k <= 2,
            link@.len() == 2,
            cell@ == be_encode(va as nat, 2) + link@.subrange(0, k as int),
        decreases 2 - k,
    {
        proof {
            crate::encoding::lemma_be_encode_len(c as nat, 2);
        }
        cell.push(link[k]);
        k = k + 1;
        assert(cell@ =~= be_encode(va as nat, 2) + link@.subrange(0, k as int));
    }
    cell.push(i);
    proof {
        crate::encoding::lemma_be_encode_len(va as nat, 2);
        assert(link@.subrange(0, 2) =~= link@);
        assert(cell@ =~= be_encode(va as nat, 2) + be_encode(c as nat, 2) + seq![i]);
        assert(cell@.len() == 5);
    }
    let na = memory.malloc_borrow(&cell)?;
    if p == 0 {
        memory.write_address(h, na);
    } else {
        memory.write_address(p as usize + 2, na);
    }
    if c == 0 {
        memory.write_address(h + 2, na);
    }
    Ok(())
}

/// The bytes after removing item `i` from the chain; its cell stays until
/// compaction. Nothing changes when the list has no item `i`.
pub open spec fn del_spec(b: Seq<u8>, h: nat, i: u8) -> Option<Seq<u8>> {
    match list_slot(b, h, i) {
        None => None,
        Some((p, c)) => if c != 0 && cell_index(b, c) == i {
            let next = u16_at(b, (c + 2) as int);
            let b1 = if p == 0 {
                splice(b, h as int, be_encode(next, 2))
            } else {
                splice(b, (p + 2) as int, be_encode(next, 2))
            };
            Some(
                if next == 0 {
                    splice(b1, (h + 2) as int, be_encode(p, 2))
                } else {
                    b1
                },
            )
        } else {
            Some(b)
        },
    }
}

/// Removes item `i` from the list whose header is at `h`.
pub fn list_del(memory: &mut NP_Memory, h: usize, i: u8) -> (r: Result<(), NP_Error>)
    ensures
        match del_spec(old(memory)@, h as nat, i) {
            Some(n) => r is Ok && final(memory)@ == n,
            None => r == Err::<(), NP_Error>(NP_Error::Corrupt) && final(memory)@ == old(memory)@,
        },
{
    if h > memory.len() || memory.len() - h < 4 {
        return Err(NP_Error::Corrupt);
    }
    let (p, c) = walk_to(memory, h, i)?;
    if c == 0 {
        return Ok(());
    }
    let (_, next, index) = read_cell(memory, c as usize)?;
    if index != i {
        return Ok(());
    }
    if p == 0 {
        memory.write_address(h, next);
    } else {
        memory.write_address(p as usize + 2, next);
    }
    if next == 0 {
        memory.write_address(h + 2, p);
    }
    Ok(())
}

/// The indices of the list's items, in chain order.
pub open spec fn indices_of(b: Seq<u8>, cs: Seq<nat>) -> Seq<u8> {
    cs.map_values(|c: nat| cell_index(b, c))
}

/// The indices of the items of the list whose header is at `h`, in chain order.
pub fn list_indices(memory: &NP_Memory, h: usize) -> (r: Result<Vec<u8>, NP_Error>)
    ensures
        match list_cells(memory@, h as nat) {
            Some(cs) => r matches Ok(v) && v@ == indices_of(memory@, cs),
            None => r == Err::<Vec<u8>, NP_Error>(NP_Error::Corrupt),
        },
{
    if h > memory.len() || memory.len() - h < 4 {
        return Err(NP_Error::Corrupt);
    }
    let head = memory.read_u16(h)?;
    let ghost b = memory@;
    let ghost mut seen: Seq<nat> = Seq::empty();
    let mut out: Vec<u8> = Vec::new();
    let mut c: u16 = head;
    let mut fuel: usize = MAX_ITEMS;
    while c != 0
        invariant
            b == memory@,
            h + 4 <= b.len(),
            fuel <= MAX_ITEMS,
            out@ == indices_of(b, seen),
            list_cells(b, h as nat) == match chain(b, c as nat, fuel as nat) {
                Some(rest) => Some(seen + rest),
                None => None::<Seq<nat>>,
            },
        decreases fuel,
    {
        if fuel == 0 {
            return Err(NP_Error::Corrupt);
        }
        let (_, next, index) = read_cell(memory, c as usize)?;
        proof {
            lemma_chain_step(b, c as nat, fuel as nat);
            if chain(b, next as nat, (fuel - 1) as nat) is Some {
                let rest = chain(b, next as nat, (fuel - 1) as nat)->Some_0;
                assert(seen + (seq![c as nat] + rest) =~= seen.push(c as nat) + rest);
            }
            seen = seen.push(c as nat);
        }
        out.push(index);
        assert(out@ =~= indices_of(b, seen));
        c = next;
        fuel = fuel - 1;
    }
    assert(seen + Seq::<nat>::empty() =~= seen);
    Ok(out)
}

/// What a collection offers whatever its layout: the number of its items.
pub trait NP_Collection {
    /// The number of items in the bytes `b`, `None` when they break the format.
    spec fn spec_length(&self, b: Seq<u8>) -> Option<nat>;

    fn length(&self, memory: &NP_Memory) -> (r: Result<usize, NP_Error>)
        ensures
            match self.spec_length(memory@) {
                Some(n) => r == Ok::<usize, NP_Error>(n as usize),
                None => r == Err::<usize, NP_Error>(NP_Error::Corrupt),
            },
    ;
}

/// A list in an arena, named by the address of its header.
#[derive(Debug, Clone, Copy, PartialEq, Eq, Structural)]
pub struct NP_List {
    pub header: usize,
}

impl NP_Collection for NP_List {
    open spec fn spec_length(&self, b: Seq<u8>) -> Option<nat> {
        match list_cells(b, self.header as nat) {
            Some(cs) => Some(cs.len()),
            None => None,
        }
    }

    fn length(&self, memory: &NP_Memory) -> (r: Result<usize, NP_Error>) {
        list_len(memory, self.header)
    }
}

impl NP_List {
    /// Makes an empty list in `memory`.
    pub fn new(memory: &mut NP_Memory) -> (r: Result<NP_List, NP_Error>)
        ensures
            old(memory)@.len() + 4 <= MAX_SIZE ==> r == Ok::<NP_List, NP_Error>(
                NP_List { header: old(memory)@.len() as usize },
            ) && final(memory)@ == old(memory)@ + seq![0u8, 0u8, 0u8, 0u8],
            old(memory)@.len() + 4 > MAX_SIZE ==> r == Err::<NP_List, NP_Error>(
                NP_Error::OutOfSpace,
            ) && final(memory)@ == old(memory)@,
    {
        let h = list_new(memory)?;
        Ok(NP_List { header: h as usize })
    }

    /// Item `i`, read as `T`.
    pub fn get<T: NP_Value>(&self, memory: &NP_Memory, i: u8) -> (r: Result<Option<T>, NP_Error>)
        ensures
            match r {
                Ok(o) => list_value::<T>(memory@, self.header as nat, i) == Some(
                    crate::cursor::opt_view(o),
                ),
                Err(_) => list_value::<T>(memory@, self.header as nat, i) is None,
            },
    {
        list_get::<T>(memory, self.header, i)
    }

    /// Writes `value` at index `i`.
    pub fn set<T: NP_Value>(&self, memory: &mut NP_Memory, i: u8, value: &T) -> (r: Result<(), NP_Error>)
        ensures
            match set_spec::<T>(old(memory)@, self.header as nat, i, value@) {
                Ok(n) => r is Ok && final(memory)@ == n,
                Err(e) => r == Err::<(), NP_Error>(e) && final(memory)@ == old(memory)@,
            },
    {
        list_set::<T>(memory, self.header, i, value)
    }

    /// Appends `value` after the last item, returning its index.
    pub fn push<T: NP_Value>(&self, memory: &mut NP_Memory, value: &T) -> (r: Result<u8, NP_Error>)
        ensures
            match push_spec::<T>(old(memory)@, self.header as nat, value@) {
                Ok((n, idx)) => r == Ok::<u8, NP_Error>(idx) && final(memory)@ == n,
                Err(e) => r == Err::<u8, NP_Error>(e) && final(memory)@ == old(memory)@,
            },
    {
        list_push::<T>(memory, self.header, value)
    }

    /// Removes item `i`.
    pub fn del(&self, memory: &mut NP_Memory, i: u8) -> (r: Result<(), NP_Error>)
        ensures
            match del_spec(old(memory)@, self.header as nat, i) {
                Some(n) => r is Ok && final(memory)@ == n,
                None => r == Err::<(), NP_Error>(NP_Error::Corrupt) && final(memory)@ == old(memory)@,
            },
    {
        list_del(memory, self.header, i)
    }

    /// A fresh buffer holding only this list's items, its header at 4 and
    /// the root pointing at it.
    pub fn compact<T: NP_Value>(&self, memory: &NP_Memory) -> (r: Result<NP_Memory, NP_Error>)
        ensures
            match list_compacted::<T>(memory@, self.header as nat) {
                Ok(n) => r matches Ok(m) && m@ == n,
                Err(e) => r matches Err(e2) && e2 == e,
            },
    {
        list_compact::<T>(memory, self.header)
    }

    /// The indices of the items, in order.
    pub fn indices(&self, memory: &NP_Memory) -> (r: Result<Vec<u8>, NP_Error>)
        ensures
            match list_cells(memory@, self.header as nat) {
                Some(cs) => r matches Ok(v) && v@ == indices_of(memory@, cs),
                None => r == Err::<Vec<u8>, NP_Error>(NP_Error::Corrupt),
            },
    {
        list_indices(memory, self.header)
    }
}

/// Copies the items `cs` of the list in `from`, in order, into the list whose
/// header is at `th` in `to`; cells without a value are skipped.
pub open spec fn copy_items<T: NP_Value>(from: Seq<u8>, cs: Seq<nat>, to: Seq<u8>, th: nat) -> Result<
    Seq<u8>,
    NP_Error,
>
    decreases cs.len(),
{
    if cs.len() == 0 {
        Ok(to)
    } else if cell_value(from, cs[0]) == 0 {
        copy_items::<T>(from, cs.drop_first(), to, th)
    } else {
        match T::decoded(from, cell_value(from, cs[0]) as int) {
            None => Err(NP_Error::Corrupt),
            Some(v) => match set_spec::<T>(to, th, cell_index(from, cs[0]), v) {
                Ok(t2) => copy_items::<T>(from, cs.drop_first(), t2, th),
                Err(e) => Err(e),
            },
        }
    }
}

/// The buffer holding only the list at `h` of `from`: a zeroed header, the
/// root pointing at a new list header, and each item copied in order.
pub open spec fn list_compacted<T: NP_Value>(from: Seq<u8>, h: nat) -> Result<Seq<u8>, NP_Error> {
    match list_cells(from, h) {
        None => Err(NP_Error::Corrupt),
        Some(cs) => copy_items::<T>(
            from,
            cs,
            be_encode(4, 2) + seq![0u8, 0u8] + seq![0u8, 0u8, 0u8, 0u8],
            4,
        ),
    }
}

/// Writes into a fresh buffer only what the list at `h` of `from` reaches.
pub fn list_compact<T: NP_Value>(from: &NP_Memory, h: usize) -> (r: Result<NP_Memory, NP_Error>)
    ensures
        match list_compacted::<T>(from@, h as nat) {
            Ok(n) => r matches Ok(m) && m@ == n,
            Err(e) => r matches Err(e2) && e2 == e,
        },
{
    let n = list_len(from, h)?;
    let ghost all = list_cells(from@, h as nat)->Some_0;
    proof {
        lemma_chain_len(from@, u16_at(from@, h as int), MAX_ITEMS as nat);
        assert(all.subrange(0, all.len() as int) =~= all);
    }
    let mut to = NP_Memory::new_empty();
    let th = match list_new(&mut to) {
        Ok(a) => a,
        Err(e) => {
            return Err(e);
        },
    };
    to.write_address(0, th);
    proof {
        reveal_with_fuel(be_encode, 3);
        assert(to@ =~= be_encode(4, 2) + seq![0u8, 0u8] + seq![0u8, 0u8, 0u8, 0u8]);
    }
    let head = from.read_u16(h)?;
    let mut c: u16 = head;
    let mut k: usize = 0;
    while k < n
        invariant
            n == all.len(),
            k <= n,
            th == 4,
            list_cells(from@, h as nat) == Some(all),
            h + 4 <= from@.len(),
            chain(from@, c as nat, (MAX_ITEMS - k) as nat) == Some(all.subrange(k as int, n as int)),
            k <= MAX_ITEMS,
            list_compacted::<T>(from@, h as nat) == copy_items::<T>(
                from@,
                all.subrange(k as int, n as int),
                to@,
                4,
            ),
        decreases n - k,
    {
        let ghost rest = all.subrange(k as int, n as int);
        proof {
            assert(rest.len() > 0);
            assert(c != 0);
            lemma_chain_step(from@, c as nat, (MAX_ITEMS - k) as nat);
        }
        let (value, next, index) = read_cell(from, c as usize)?;
        proof {
            assert(rest[0] == c as nat);
            assert(rest.drop_first() =~= all.subrange(k + 1, n as int));
        }
        if value != 0 {
            let v = match T::into_value(from, value as usize) {
                Ok(v) => v,
                Err(_) => {
                    return Err(NP_Error::Corrupt);
                },
            };
            let r = list_set::<T>(&mut to, 4, index, &v);
            match r {
                Ok(()) => {},
                Err(e) => {
                    return Err(e);
                },
            }
        }
        c = next;
        k = k + 1;
    }
    proof {
        assert(all.subrange(n as int, n as int) =~= Seq::<nat>::empty());
    }
    Ok(to)
}

} // verus!
