//! Pointer cells: the fixed layouts through which values are reached, and the cursor.
use vstd::prelude::*;
use crate::encoding::{be_encode, be_value, lemma_be_encode_len, lemma_be_round_trip};
use crate::error::NP_Error;
use crate::memory::{u16_at, NP_Memory};

verus! {

proof fn lemma_pair(b: Seq<u8>)
    requires
        b.len() == 2,
    ensures
        be_value(b) == b[0] as nat * 256 + b[1] as nat,
{
    reveal_with_fuel(be_value, 3);
    assert(b.drop_last().drop_last() =~= Seq::<u8>::empty());
}

fn pair_get(b: [u8; 2]) -> (r: u16)
    ensures
        r as nat == be_value(b@),
{
    proof {
        lemma_pair(b@);
    }
    (b[0] as u16) * 256 + (b[1] as u16)
}

fn pair_set(v: u16) -> (r: [u8; 2])
    ensures
        r@ == be_encode(v as nat, 2),
{
    let r = [(v / 256) as u8, (v % 256) as u8];
    proof {
        reveal_with_fuel(be_encode, 3);
        assert(r@ =~= be_encode(v as nat, 2));
    }
    r
}

/// A pointer from a table, a tuple or the root: the address of the value.
#[derive(Debug, Clone, Copy)]
pub struct NP_Pointer_Scalar {
    pub addr_value: [u8; 2],
}

/// A list member: the value's address, the next member's address, and its index.
#[derive(Debug, Clone, Copy)]
pub struct NP_Pointer_List_Item {
    pub addr_value: [u8; 2],
    pub next_value: [u8; 2],
    pub index: u8,
}

/// A map member: the value's address, the next member's address, and the key's hash.
#[derive(Debug, Clone, Copy)]
pub struct NP_Pointer_Map_Item {
    pub addr_value: [u8; 2],
    pub next_value: [u8; 2],
    pub key_hash: [u8; 4],
}

/// What every pointer cell offers: the address of its value and its own size.
pub trait NP_Pointer_Bytes: Sized {
    /// The address of the value, 0 when there is none.
    spec fn spec_addr(&self) -> nat;

    /// The cell's size in bytes.
    spec fn spec_size() -> nat;

    fn get_addr_value(&self) -> (r: u16)
        ensures
            r as nat == self.spec_addr(),
    ;

    fn set_addr_value(&mut self, addr: u16)
        ensures
            final(self).spec_addr() == addr as nat,
    ;

    /// Clears the cell.
    fn reset(&mut self)
        ensures
            final(self).spec_addr() == 0,
    ;

    fn get_size(&self) -> (r: usize)
        ensures
            r == Self::spec_size(),
    ;
}

impl NP_Pointer_Bytes for NP_Pointer_Scalar {
    open spec fn spec_addr(&self) -> nat {
        be_value(self.addr_value@)
    }

    open spec fn spec_size() -> nat {
        2
    }

    fn get_addr_value(&self) -> (r: u16) {
        pair_get(self.addr_value)
    }

    fn set_addr_value(&mut self, addr: u16) {
        self.addr_value = pair_set(addr);
        proof {
            lemma_pair_round_trip(addr);
        }
    }

    fn reset(&mut self) {
        self.addr_value = [0u8, 0u8];
        proof {
            lemma_pair(self.addr_value@);
        }
    }

    fn get_size(&self) -> (r: usize) {
        2
    }
}

impl NP_Pointer_Bytes for NP_Pointer_List_Item {
    open spec fn spec_addr(&self) -> nat {
        be_value(self.addr_value@)
    }

    open spec fn spec_size() -> nat {
        5
    }

    fn get_addr_value(&self) -> (r: u16) {
        pair_get(self.addr_value)
    }

    fn set_addr_value(&mut self, addr: u16) {
        self.addr_value = pair_set(addr);
        proof {
            lemma_pair_round_trip(addr);
        }
    }

    fn reset(&mut self) {
        self.addr_value = [0u8, 0u8];
        self.next_value = [0u8, 0u8];
        self.index = 0;
        proof {
            lemma_pair(self.addr_value@);
        }
    }

    fn get_size(&self) -> (r: usize) {
        5
    }
}

impl NP_Pointer_Bytes for NP_Pointer_Map_Item {
    open spec fn spec_addr(&self) -> nat {
        be_value(self.addr_value@)
    }

    open spec fn spec_size() -> nat {
        8
    }

    fn get_addr_value(&self) -> (r: u16) {
        pair_get(self.addr_value)
    }

    fn set_addr_value(&mut self, addr: u16) {
        self.addr_value = pair_set(addr);
        proof {
            lemma_pair_round_trip(addr);
        }
    }

    fn reset(&mut self) {
        self.addr_value = [0u8, 0u8];
        self.next_value = [0u8, 0u8];
        self.key_hash = [0u8, 0u8, 0u8, 0u8];
        proof {
            lemma_pair(self.addr_value@);
        }
    }

    fn get_size(&self) -> (r: usize) {
        8
    }
}

proof fn lemma_pair_round_trip(v: u16)
    ensures
        be_value(be_encode(v as nat, 2)) == v as nat,
{
    reveal_with_fuel(crate::encoding::pow256, 3);
    lemma_be_round_trip(v as nat, 2);
}

impl NP_Pointer_List_Item {
    pub fn get_next_addr(&self) -> (r: u16)
        ensures
            r as nat == be_value(self.next_value@),
    {
        pair_get(self.next_value)
    }

    pub fn set_next_addr(&mut self, addr: u16)
        ensures
            be_value(final(self).next_value@) == addr as nat,
            final(self).addr_value == old(self).addr_value,
            final(self).index == old(self).index,
    {
        self.next_value = pair_set(addr);
        proof {
            lemma_pair_round_trip(addr);
        }
    }

    pub fn get_index(&self) -> (r: u8)
        ensures
            r == self.index,
    {
        self.index
    }

    pub fn set_index(&mut self, index: u8)
        ensures
            final(self).index == index,
            final(self).addr_value == old(self).addr_value,
            final(self).next_value == old(self).next_value,
    {
        self.index = index;
    }
}

impl NP_Pointer_Map_Item {
    pub fn get_next_addr(&self) -> (r: u16)
        ensures
            r as nat == be_value(self.next_value@),
    {
        pair_get(self.next_value)
    }

    pub fn set_next_addr(&mut self, addr: u16)
        ensures
            be_value(final(self).next_value@) == addr as nat,
            final(self).addr_value == old(self).addr_value,
            final(self).key_hash == old(self).key_hash,
    {
        self.next_value = pair_set(addr);
        proof {
            lemma_pair_round_trip(addr);
        }
    }

    pub fn get_key_hash(&self) -> (r: u32)
        ensures
            r as nat == be_value(self.key_hash@),
    {
        let b = self.key_hash;
        proof {
            reveal_with_fuel(be_value, 5);
            assert(b@.drop_last().drop_last().drop_last().drop_last() =~= Seq::<u8>::empty());
            assert(b@.drop_last().drop_last().drop_last() =~= seq![b[0]]);
            assert(b@.drop_last().drop_last() =~= seq![b[0], b[1]]);
            assert(b@.drop_last() =~= seq![b[0], b[1], b[2]]);
        }
        (b[0] as u32) * 0x100_0000 + (b[1] as u32) * 0x1_0000 + (b[2] as u32) * 0x100 + (
        b[3] as u32)
    }

    pub fn set_key_hash(&mut self, hash: u32)
        ensures
            final(self).key_hash@ == be_encode(hash as nat, 4),
            final(self).addr_value == old(self).addr_value,
            final(self).next_value == old(self).next_value,
    {
        let v = crate::encoding::encode_be(hash as u64, 4);
        proof {
            lemma_be_encode_len(hash as nat, 4);
        }
        let a = [v[0], v[1], v[2], v[3]];
        assert(a@ =~= v@);
        self.key_hash = a;
    }
}

/// A list's header: the addresses of its first and last members.
#[derive(Debug, Clone, Copy)]
pub struct NP_List_Bytes {
    pub head: [u8; 2],
    pub tail: [u8; 2],
}

impl NP_List_Bytes {
    /// The address of the first member.
    pub open spec fn spec_head(&self) -> nat {
        be_value(self.head@)
    }

    /// The address of the last member.
    pub open spec fn spec_tail(&self) -> nat {
        be_value(self.tail@)
    }

    /// A header of an empty list.
    pub fn new() -> (r: NP_List_Bytes)
        ensures
            r.spec_head() == 0,
            r.spec_tail() == 0,
    {
        let r = NP_List_Bytes { head: [0u8, 0u8], tail: [0u8, 0u8] };
        proof {
            lemma_pair(r.head@);
            lemma_pair(r.tail@);
        }
        r
    }

    pub fn set_head(&mut self, head: u16)
        ensures
            final(self).spec_head() == head as nat,
            final(self).spec_tail() == old(self).spec_tail(),
    {
        self.head = pair_set(head);
        proof {
            lemma_pair_round_trip(head);
        }
    }

    pub fn get_head(&self) -> (r: u16)
        ensures
            r as nat == self.spec_head(),
    {
        pair_get(self.head)
    }

    pub fn set_tail(&mut self, tail: u16)
        ensures
            final(self).spec_tail() == tail as nat,
            final(self).spec_head() == old(self).spec_head(),
    {
        self.tail = pair_set(tail);
        proof {
            lemma_pair_round_trip(tail);
        }
    }

    pub fn get_tail(&self) -> (r: u16)
        ensures
            r as nat == self.spec_tail(),
    {
        pair_get(self.tail)
    }
}

/// Four column pointers and the address of the next vtable (ten bytes).
#[derive(Debug, Clone, Copy)]
pub struct NP_Vtable {
    pub values: [NP_Pointer_Scalar; 4],
    pub next: [u8; 2],
}

impl NP_Vtable {
    /// The address of the following vtable, 0 at the end of the chain.
    pub open spec fn spec_next(&self) -> nat {
        be_value(self.next@)
    }

    /// A vtable with no columns set and no successor.
    pub fn new() -> (r: NP_Vtable)
        ensures
            r.spec_next() == 0,
            forall|i: int| 0 <= i < 4 ==> (#[trigger] r.values@[i]).spec_addr() == 0,
    {
        let p = NP_Pointer_Scalar { addr_value: [0u8, 0u8] };
        let r = NP_Vtable { values: [p, p, p, p], next: [0u8, 0u8] };
        proof {
            lemma_pair(r.next@);
            lemma_pair(p.addr_value@);
        }
        r
    }

    pub fn get_next(&self) -> (r: u16)
        ensures
            r as nat == self.spec_next(),
    {
        pair_get(self.next)
    }

    pub fn set_next(&mut self, value: u16)
        ensures
            final(self).spec_next() == value as nat,
            final(self).values == old(self).values,
    {
        self.next = pair_set(value);
        proof {
            lemma_pair_round_trip(value);
        }
    }
}

/// The kind of value that holds a pointer cell; it fixes the cell's shape.
/// `Dict` is a map.
#[derive(Debug, Clone, Copy, PartialEq, Eq, Structural)]
pub enum NP_Parent {
    Root,
    Table,
    Tuple,
    List,
    Dict,
}

/// The size of a cell: 2 bytes under the root, a table or a tuple, 5 in a
/// list, 8 in a map. A cell at the root (`parent_addr == 0`) is always 2.
pub open spec fn cell_size(parent_addr: nat, parent: NP_Parent) -> nat {
    if parent_addr == 0 {
        2
    } else {
        match parent {
            NP_Parent::List => 5,
            NP_Parent::Dict => 8,
            _ => 2,
        }
    }
}

/// A pointer cell of one of the three shapes.
#[derive(Debug, Clone, Copy)]
pub enum NP_Cell {
    Scalar(NP_Pointer_Scalar),
    ListItem(NP_Pointer_List_Item),
    MapItem(NP_Pointer_Map_Item),
}

impl NP_Cell {
    /// The cell's bytes, as laid out in a buffer.
    pub open spec fn spec_bytes(&self) -> Seq<u8> {
        match self {
            NP_Cell::Scalar(p) => p.addr_value@,
            NP_Cell::ListItem(p) => p.addr_value@ + p.next_value@ + seq![p.index],
            NP_Cell::MapItem(p) => p.addr_value@ + p.next_value@ + p.key_hash@,
        }
    }

    /// The address of the value the cell points to.
    pub open spec fn spec_addr(&self) -> nat {
        match self {
            NP_Cell::Scalar(p) => p.spec_addr(),
            NP_Cell::ListItem(p) => p.spec_addr(),
            NP_Cell::MapItem(p) => p.spec_addr(),
        }
    }

    pub fn get_addr_value(&self) -> (r: u16)
        ensures
            r as nat == self.spec_addr(),
    {
        match self {
            NP_Cell::Scalar(p) => p.get_addr_value(),
            NP_Cell::ListItem(p) => p.get_addr_value(),
            NP_Cell::MapItem(p) => p.get_addr_value(),
        }
    }

    pub fn get_size(&self) -> (r: usize)
        ensures
            r == self.spec_bytes().len(),
    {
        match self {
            NP_Cell::Scalar(p) => 2,
            NP_Cell::ListItem(p) => 5,
            NP_Cell::MapItem(p) => 8,
        }
    }
}

/// Reads the cell at `buff_addr`, its shape chosen by the kind of its parent.
pub fn parse_cursor_value(buff_addr: usize, parent_addr: usize, parent: NP_Parent, memory: &NP_Memory) -> (r:
    Result<NP_Cell, NP_Error>)
    ensures
        buff_addr + cell_size(parent_addr as nat, parent) <= memory@.len() ==> (r matches Ok(c)
            && c.spec_bytes() == memory@.subrange(
            buff_addr as int,
            buff_addr + cell_size(parent_addr as nat, parent),
        ) && c.spec_addr() == u16_at(memory@, buff_addr as int)),
        buff_addr + cell_size(parent_addr as nat, parent) > memory@.len() ==> r == Err::<
            NP_Cell,
            NP_Error,
        >(NP_Error::Corrupt),
{
    let size: usize = if parent_addr == 0 {
        2
    } else {
        match parent {
            NP_Parent::List => 5,
            NP_Parent::Dict => 8,
            _ => 2,
        }
    };
    let b = memory.read_slice(buff_addr, size)?;
    proof {
        assert(b@.subrange(0, 2) =~= memory@.subrange(buff_addr as int, buff_addr + 2));
    }
    let addr_value = [b[0], b[1]];
    proof {
        assert(addr_value@ =~= b@.subrange(0, 2));
    }
    if size == 2 {
        let c = NP_Cell::Scalar(NP_Pointer_Scalar { addr_value });
        assert(c.spec_bytes() =~= b@);
        Ok(c)
    } else if size == 5 {
        let c = NP_Cell::ListItem(
            NP_Pointer_List_Item { addr_value, next_value: [b[2], b[3]], index: b[4] },
        );
        assert(c.spec_bytes() =~= b@);
        Ok(c)
    } else {
        let c = NP_Cell::MapItem(
            NP_Pointer_Map_Item { addr_value, next_value: [b[2], b[3]], key_hash: [b[4], b[5], b[6], b[7]] },
        );
        assert(c.spec_bytes() =~= b@);
        Ok(c)
    }
}

} // verus!
