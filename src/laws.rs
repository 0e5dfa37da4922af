//! Properties that hold across operations, stated over the buffer model.
use vstd::prelude::*;
use crate::cursor::{compacted, deleted, in_place, root_addr, root_value, set_root_spec};
use crate::encoding::{be_encode, be_value, lemma_be_encode_len, lemma_be_order, lemma_be_round_trip, lex_lt, pow256};
use crate::list::{cell_index, del_spec, find_cell, find_slot, list_slot, list_value, set_spec};
use crate::map::{cell_hash, entry, find_key, map_cell, map_set_spec, map_value, stored_key};
use crate::memory::{splice, u16_at, HEADER_SIZE};
use crate::table::{column_set_spec, column_value, vtable_at};
use crate::hash::fnv1a;
use crate::schema::NP_Parsed_Schema;
use crate::value::{NP_Date, NP_Value};

verus! {

proof fn lemma_u16_code(v: nat)
    requires
        v < 0x1_0000,
    ensures
        be_value(be_encode(v, 2)) == v,
        be_encode(v, 2).len() == 2,
{
    reveal_with_fuel(pow256, 3);
    lemma_be_round_trip(v, 2);
    lemma_be_encode_len(v, 2);
}

/// Reading the root right after writing `v` there gives `v`.
pub proof fn law_round_trip<T: NP_Value>(schema: NP_Parsed_Schema, b: Seq<u8>, v: T::V)
    requires
        b.len() >= HEADER_SIZE,
        set_root_spec::<T>(b, v) is Some,
    ensures
        root_value::<T>(schema, set_root_spec::<T>(b, v)->Some_0) == Some(Some(v)),
{
    let e = T::encoded(v);
    let n = set_root_spec::<T>(b, v)->Some_0;
    if in_place::<T>(b, v) {
        let a = root_addr(b) as int;
        assert(n.subrange(0, 2) =~= b.subrange(0, 2));
        assert(n.subrange(a, a + e.len()) =~= e);
        T::lemma_decode_encoded(v, n, a);
    } else {
        let a = b.len();
        lemma_u16_code(a);
        let b2 = b + e;
        assert(n.subrange(0, 2) =~= be_encode(a, 2));
        assert(n.subrange(a as int, (a + e.len()) as int) =~= e);
        T::lemma_decode_encoded(v, n, a as int);
    }
}

/// Writing the same value twice leaves the bytes as the first write left
/// them, for every value type: the second write reuses the allocation.
pub proof fn law_set_idempotent<T: NP_Value>(schema: NP_Parsed_Schema, b: Seq<u8>, v: T::V)
    requires
        b.len() >= HEADER_SIZE,
        set_root_spec::<T>(b, v) is Some,
    ensures
        set_root_spec::<T>(set_root_spec::<T>(b, v)->Some_0, v) == set_root_spec::<T>(b, v),
        root_value::<T>(schema, set_root_spec::<T>(set_root_spec::<T>(b, v)->Some_0, v)->Some_0)
            == root_value::<T>(schema, set_root_spec::<T>(b, v)->Some_0),
{
    let b1 = set_root_spec::<T>(b, v)->Some_0;
    let e = T::encoded(v);
    law_round_trip::<T>(schema, b, v);
    let a = root_addr(b1);
    if in_place::<T>(b, v) {
        assert(b1.subrange(0, 2) =~= b.subrange(0, 2));
        assert(b1.subrange(a as int, (a + e.len()) as int) =~= e);
    } else {
        lemma_u16_code(b.len());
        assert(b1.subrange(0, 2) =~= be_encode(b.len(), 2));
        assert(b1.subrange(a as int, (a + e.len()) as int) =~= e);
    }
    assert(T::decoded(b1, a as int) == Some(v));
    assert(in_place::<T>(b1, v));
    assert(splice(b1, a as int, e) =~= b1);
}

/// After the root is cleared, reading it gives the schema's default, if any.
pub proof fn law_delete_clears<T: NP_Value>(schema: NP_Parsed_Schema, b: Seq<u8>)
    requires
        b.len() >= HEADER_SIZE,
    ensures
        root_value::<T>(schema, deleted(b)) == Some(T::schema_default(schema)),
{
    let n = deleted(b);
    assert(n.subrange(0, 2) =~= seq![0u8, 0u8]);
    reveal_with_fuel(be_value, 3);
}

/// Compaction keeps what the root reads as and never grows the buffer.
pub proof fn law_compaction_preserves<T: NP_Value>(schema: NP_Parsed_Schema, b: Seq<u8>)
    requires
        compacted::<T>(b) is Some,
    ensures
        root_value::<T>(schema, compacted::<T>(b)->Some_0) == root_value::<T>(schema, b),
        compacted::<T>(b)->Some_0.len() <= b.len(),
{
    let c = compacted::<T>(b)->Some_0;
    if root_addr(b) == 0 {
        assert(c.subrange(0, 2) =~= seq![0u8, 0u8]);
        reveal_with_fuel(be_value, 3);
    } else {
        let v = T::decoded(b, root_addr(b) as int)->Some_0;
        T::lemma_decoded_fits(b, root_addr(b) as int);
        let e = T::encoded(v);
        lemma_u16_code(HEADER_SIZE as nat);
        assert(c.subrange(0, 2) =~= be_encode(HEADER_SIZE as nat, 2));
        assert(c.subrange(HEADER_SIZE as int, HEADER_SIZE + e.len()) =~= e);
        T::lemma_decode_encoded(v, c, HEADER_SIZE as int);
    }
}

/// Compacting a compacted buffer changes nothing.
pub proof fn law_compaction_stable<T: NP_Value>(schema: NP_Parsed_Schema, b: Seq<u8>)
    requires
        compacted::<T>(b) is Some,
    ensures
        compacted::<T>(compacted::<T>(b)->Some_0) == compacted::<T>(b),
{
    let c = compacted::<T>(b)->Some_0;
    law_compaction_preserves::<T>(schema, b);
    if root_addr(b) == 0 {
        assert(c.subrange(0, 2) =~= seq![0u8, 0u8]);
        reveal_with_fuel(be_value, 3);
    } else {
        lemma_u16_code(HEADER_SIZE as nat);
        assert(c.subrange(0, 2) =~= be_encode(HEADER_SIZE as nat, 2));
        assert(c.subrange(0, 4) =~= be_encode(HEADER_SIZE as nat, 2) + seq![0u8, 0u8]);
    }
}

/// For unsigned integers, byte order of the encodings is numeric order.
pub proof fn law_sortable_u8(a: u8, b: u8)
    ensures
        lex_lt(<u8 as NP_Value>::encoded(a), <u8 as NP_Value>::encoded(b)) <==> a < b,
{
    reveal_with_fuel(pow256, 2);
    lemma_be_order(a as nat, b as nat, 1);
}

pub proof fn law_sortable_u16(a: u16, b: u16)
    ensures
        lex_lt(<u16 as NP_Value>::encoded(a), <u16 as NP_Value>::encoded(b)) <==> a < b,
{
    reveal_with_fuel(pow256, 3);
    lemma_be_order(a as nat, b as nat, 2);
}

pub proof fn law_sortable_u32(a: u32, b: u32)
    ensures
        lex_lt(<u32 as NP_Value>::encoded(a), <u32 as NP_Value>::encoded(b)) <==> a < b,
{
    reveal_with_fuel(pow256, 5);
    lemma_be_order(a as nat, b as nat, 4);
}

pub proof fn law_sortable_u64(a: u64, b: u64)
    ensures
        lex_lt(<u64 as NP_Value>::encoded(a), <u64 as NP_Value>::encoded(b)) <==> a < b,
{
    reveal_with_fuel(pow256, 9);
    lemma_be_order(a as nat, b as nat, 8);
}

/// For signed integers, with the top bit flipped, byte order is numeric order.
pub proof fn law_sortable_i8(a: i8, b: i8)
    ensures
        lex_lt(<i8 as NP_Value>::encoded(a), <i8 as NP_Value>::encoded(b)) <==> a < b,
{
    reveal_with_fuel(pow256, 2);
    lemma_be_order((a as int + 0x80) as nat, (b as int + 0x80) as nat, 1);
}

pub proof fn law_sortable_i16(a: i16, b: i16)
    ensures
        lex_lt(<i16 as NP_Value>::encoded(a), <i16 as NP_Value>::encoded(b)) <==> a < b,
{
    reveal_with_fuel(pow256, 3);
    lemma_be_order((a as int + 0x8000) as nat, (b as int + 0x8000) as nat, 2);
}

pub proof fn law_sortable_i32(a: i32, b: i32)
    ensures
        lex_lt(<i32 as NP_Value>::encoded(a), <i32 as NP_Value>::encoded(b)) <==> a < b,
{
    reveal_with_fuel(pow256, 5);
    lemma_be_order((a as int + 0x8000_0000) as nat, (b as int + 0x8000_0000) as nat, 4);
}

pub proof fn law_sortable_i64(a: i64, b: i64)
    ensures
        lex_lt(<i64 as NP_Value>::encoded(a), <i64 as NP_Value>::encoded(b)) <==> a < b,
{
    reveal_with_fuel(pow256, 9);
    lemma_be_order(
        (a as int + 0x8000_0000_0000_0000) as nat,
        (b as int + 0x8000_0000_0000_0000) as nat,
        8,
    );
}

/// For dates, byte order is time order.
pub proof fn law_sortable_date(a: u64, b: u64)
    ensures
        lex_lt(<NP_Date as NP_Value>::encoded(a), <NP_Date as NP_Value>::encoded(b)) <==> a < b,
{
    reveal_with_fuel(pow256, 9);
    lemma_be_order(a as nat, b as nat, 8);
}

/// For bool, false sorts before true.
pub proof fn law_sortable_bool(a: bool, b: bool)
    ensures
        lex_lt(<bool as NP_Value>::encoded(a), <bool as NP_Value>::encoded(b)) <==> (!a && b),
{
    reveal_with_fuel(lex_lt, 2);
    assert(<bool as NP_Value>::encoded(a).drop_last() =~= Seq::<u8>::empty());
    assert(<bool as NP_Value>::encoded(b).drop_last() =~= Seq::<u8>::empty());
}

/// Writing `v` at index `i` of an empty list and reading index `i` gives `v`.
pub proof fn law_list_round_trip<T: NP_Value>(b: Seq<u8>, h: nat, i: u8, v: T::V)
    requires
        (h + 4) as int <= b.len(),
        b.subrange(h as int, (h + 4) as int) == seq![0u8, 0u8, 0u8, 0u8],
        set_spec::<T>(b, h, i, v) is Ok,
    ensures
        list_value::<T>(set_spec::<T>(b, h, i, v)->Ok_0, h, i) == Some(Some(v)),
{
    let e = T::encoded(v);
    let n = set_spec::<T>(b, h, i, v)->Ok_0;
    assert(b.subrange(h as int, (h + 2) as int) =~= seq![0u8, 0u8]);
    reveal_with_fuel(be_value, 3);
    assert(u16_at(b, h as int) == 0);
    assert(list_slot(b, h, i) == Some((0nat, 0nat)));
    let va: nat = b.len();
    let na: nat = b.len() + e.len();
    lemma_u16_code(va);
    lemma_u16_code(na);
    lemma_u16_code(0);
    assert(n.subrange(h as int, (h + 2) as int) =~= be_encode(na, 2));
    assert(n.subrange(na as int, (na + 2) as int) =~= be_encode(va, 2));
    assert(n.subrange((na + 2) as int, (na + 4) as int) =~= be_encode(0, 2));
    assert(n[(na + 4) as int] == i);
    assert(u16_at(n, h as int) == na);
    assert(cell_index(n, na) == i);
    assert(find_cell(n, na, 256, i) == Some(Some(na)));
    assert(n.subrange(va as int, (va + e.len()) as int) =~= e);
    T::lemma_decode_encoded(v, n, va as int);
}

/// Removing the only item of a list and reading its index gives nothing.
#[verifier::rlimit(80)]
pub proof fn law_list_delete_clears<T: NP_Value>(b: Seq<u8>, h: nat, i: u8, v: T::V)
    requires
        (h + 4) as int <= b.len(),
        b.subrange(h as int, (h + 4) as int) == seq![0u8, 0u8, 0u8, 0u8],
        set_spec::<T>(b, h, i, v) is Ok,
    ensures
        del_spec(set_spec::<T>(b, h, i, v)->Ok_0, h, i) is Some,
        list_value::<T>(del_spec(set_spec::<T>(b, h, i, v)->Ok_0, h, i)->Some_0, h, i) == Some(
            None::<T::V>,
        ),
{
    let e = T::encoded(v);
    let n = set_spec::<T>(b, h, i, v)->Ok_0;
    law_list_round_trip::<T>(b, h, i, v);
    let va: nat = b.len();
    let na: nat = b.len() + e.len();
    reveal_with_fuel(be_value, 3);
    lemma_u16_code(va);
    lemma_u16_code(na);
    lemma_u16_code(0);
    assert(b.subrange(h as int, (h + 2) as int) =~= seq![0u8, 0u8]);
    assert(list_slot(b, h, i) == Some((0nat, 0nat)));
    assert(n.subrange(h as int, (h + 2) as int) =~= be_encode(na, 2));
    assert(n.subrange((na + 2) as int, (na + 4) as int) =~= be_encode(0, 2));
    assert(u16_at(n, ((na + 2) as int) as int) == 0);
    assert(n[(na + 4) as int] == i);
    assert(find_slot(n, 0, na, 256, i) == Some((0nat, na)));
    let d = del_spec(n, h, i)->Some_0;
    assert(d.subrange(h as int, (h + 2) as int) =~= be_encode(0, 2));
    assert(u16_at(d, h as int) == 0);
}

proof fn lemma_u32_code(v: nat)
    requires
        v < 0x1_0000_0000,
    ensures
        be_value(be_encode(v, 4)) == v,
        be_encode(v, 4).len() == 4,
{
    reveal_with_fuel(pow256, 5);
    lemma_be_round_trip(v, 4);
    lemma_be_encode_len(v, 4);
}

proof fn lemma_zero_u16(b: Seq<u8>, at: int)
    requires
        0 <= at,
        at + 2 <= b.len(),
        b.subrange(at, at + 2) == seq![0u8, 0u8],
    ensures
        u16_at(b, at) == 0,
{
    reveal_with_fuel(be_value, 3);
    assert(b.subrange(at, at + 2).drop_last().drop_last() =~= Seq::<u8>::empty());
}

/// Writing `v` under `key` in an empty map and reading `key` gives `v`.
pub proof fn law_map_round_trip<T: NP_Value>(b: Seq<u8>, h: nat, key: Seq<u8>, v: T::V)
    requires
        (h + 4) as int <= b.len(),
        b.subrange(h as int, (h + 4) as int) == seq![0u8, 0u8, 0u8, 0u8],
        map_set_spec::<T>(b, h, key, v) is Ok,
    ensures
        map_value::<T>(map_set_spec::<T>(b, h, key, v)->Ok_0, h, key) == Some(Some(v)),
{
    let e = T::encoded(v);
    let en = entry(key, e);
    let n = map_set_spec::<T>(b, h, key, v)->Ok_0;
    assert(b.subrange(h as int, (h + 2) as int) =~= seq![0u8, 0u8]);
    assert(b.subrange((h + 2) as int, (h + 4) as int) =~= seq![0u8, 0u8]);
    lemma_zero_u16(b, h as int);
    lemma_zero_u16(b, (h + 2) as int);
    assert(map_cell(b, h, key) == Some(None::<nat>));
    let ea: nat = b.len();
    let ca: nat = b.len() + en.len();
    lemma_u16_code(ea);
    lemma_u16_code(ca);
    lemma_u16_code(key.len());
    lemma_u32_code(fnv1a(key) as nat);
    assert(n.subrange(h as int, (h + 2) as int) =~= be_encode(ca, 2));
    assert(n.subrange(ca as int, (ca + 2) as int) =~= be_encode(ea, 2));
    assert(n.subrange((ca + 4) as int, (ca + 8) as int) =~= be_encode(fnv1a(key) as nat, 4));
    assert(n.subrange(ea as int, (ea + 2) as int) =~= be_encode(key.len(), 2));
    assert(n.subrange((ea + 2) as int, (ea + 2 + key.len()) as int) =~= key);
    assert(u16_at(n, h as int) == ca);
    assert(u16_at(n, ca as int) == ea);
    assert(cell_hash(n, ca) == fnv1a(key) as nat);
    assert(u16_at(n, ea as int) == key.len());
    assert(stored_key(n, ea) == Some(key));
    assert(find_key(n, ca, 8192, key) == Some(Some(ca)));
    let va: int = (ea + 2 + key.len()) as int;
    assert(n.subrange(va, va + e.len()) =~= e);
    T::lemma_decode_encoded(v, n, va);
}

/// In a new table, writing `v` in one of the first four columns and reading
/// that column gives `v`.
pub proof fn law_table_round_trip<T: NP_Value>(b: Seq<u8>, t: nat, k: u8, v: T::V)
    requires
        k < 4,
        t >= HEADER_SIZE,
        (t + 10) as int <= b.len(),
        b.subrange(t as int, (t + 10) as int) == Seq::new(10, |i: int| 0u8),
        column_set_spec::<T>(b, t, k, v) is Ok,
    ensures
        column_value::<T>(column_set_spec::<T>(b, t, k, v)->Ok_0, t, k) == Some(Some(v)),
{
    let e = T::encoded(v);
    let n = column_set_spec::<T>(b, t, k, v)->Ok_0;
    let slot: int = t + 2 * (k % 4) as int;
    reveal_with_fuel(be_value, 3);
    let z = b.subrange(t as int, (t + 10) as int);
    let j: int = 2 * (k % 4) as int;
    assert(z[j] == 0u8 && z[j + 1] == 0u8);
    assert(b[slot] == z[j] && b[slot + 1] == z[j + 1]);
    assert(b.subrange(slot, slot + 2) =~= seq![0u8, 0u8]);
    assert(u16_at(b, slot) == 0);
    let a: nat = b.len();
    lemma_u16_code(a);
    assert(n.subrange(slot, slot + 2) =~= be_encode(a, 2));
    assert(u16_at(n, slot) == a);
    assert(vtable_at(n, t, 0) == Some(Some(t)));
    assert(n.subrange(a as int, (a + e.len()) as int) =~= e);
    T::lemma_decode_encoded(v, n, a as int);
}

/// Two different keys written one after the other into an empty map both
/// read back their own values, whether or not their hashes are equal: a
/// lookup compares the stored key bytes.
pub proof fn law_map_distinct_keys<T: NP_Value>(
    b: Seq<u8>,
    h: nat,
    k1: Seq<u8>,
    v1: T::V,
    k2: Seq<u8>,
    v2: T::V,
)
    requires
        (h + 4) as int <= b.len(),
        b.subrange(h as int, (h + 4) as int) == seq![0u8, 0u8, 0u8, 0u8],
        k1 != k2,
        map_set_spec::<T>(b, h, k1, v1) is Ok,
        map_set_spec::<T>(map_set_spec::<T>(b, h, k1, v1)->Ok_0, h, k2, v2) is Ok,
    ensures
        map_value::<T>(
            map_set_spec::<T>(map_set_spec::<T>(b, h, k1, v1)->Ok_0, h, k2, v2)->Ok_0,
            h,
            k1,
        ) == Some(Some(v1)),
        map_value::<T>(
            map_set_spec::<T>(map_set_spec::<T>(b, h, k1, v1)->Ok_0, h, k2, v2)->Ok_0,
            h,
            k2,
        ) == Some(Some(v2)),
{
    let b1 = map_set_spec::<T>(b, h, k1, v1)->Ok_0;
    let b2 = map_set_spec::<T>(b1, h, k2, v2)->Ok_0;
    let (ca1, ca2, va1, va2) = lemma_map_second_entry::<T>(b, h, k1, v1, k2, v2);
    assert(find_key(b2, ca1, 8192, k1) == Some(Some(ca1)));
    assert(find_key(b2, ca2, 8191, k2) == Some(Some(ca2)));
    assert(find_key(b2, ca1, 8192, k2) == Some(Some(ca2)));
    T::lemma_decode_encoded(v1, b2, va1);
    T::lemma_decode_encoded(v2, b2, va2);
}

/// The layout after writing a new key into a map whose tail cell is at `t`:
/// only the tail's link and the header's tail change below the old end, and
/// the new entry and cell follow it.
#[verifier::rlimit(100)]
#[verifier::spinoff_prover]
proof fn lemma_map_append<T: NP_Value>(b1: Seq<u8>, h: nat, t: nat, k2: Seq<u8>, v2: T::V)
    requires
        (h + 4) as int <= b1.len(),
        map_cell(b1, h, k2) == Some(None::<nat>),
        u16_at(b1, (h + 2) as int) == t,
        t >= h + 4,
        t + 8 <= b1.len(),
        map_set_spec::<T>(b1, h, k2, v2) is Ok,
    ensures
        ({
            let b2 = map_set_spec::<T>(b1, h, k2, v2)->Ok_0;
            let e2 = T::encoded(v2);
            let ea2 = b1.len();
            let ca2 = b1.len() + entry(k2, e2).len();
            let va2 = (ea2 + 2 + k2.len()) as int;
            &&& b2.len() == ca2 + 8
            &&& ca2 < 0x1_0000
            &&& forall|i: int|
                0 <= i < b1.len() && !(t + 2 <= i < t + 4) && !(h + 2 <= i < h + 4) ==> b2[i]
                    == b1[i]
            &&& u16_at(b2, (t + 2) as int) == ca2
            &&& u16_at(b2, ca2 as int) == ea2
            &&& ea2 != 0
            &&& cell_hash(b2, ca2) == fnv1a(k2) as nat
            &&& stored_key(b2, ea2) == Some(k2)
            &&& b2.subrange(va2, va2 + e2.len()) == e2
            &&& e2.len() <= 65535
        }),
{
    let e2 = T::encoded(v2);
    let en2 = entry(k2, e2);
    let b2 = map_set_spec::<T>(b1, h, k2, v2)->Ok_0;
    let ea2: nat = b1.len();
    let ca2: nat = b1.len() + en2.len();
    lemma_u16_code(ea2);
    lemma_u16_code(ca2);
    lemma_u16_code(k2.len());
    lemma_u32_code(fnv1a(k2) as nat);
    assert(b2.subrange((t + 2) as int, (t + 4) as int) =~= be_encode(ca2, 2));
    assert(b2.subrange(ca2 as int, (ca2 + 2) as int) =~= be_encode(ea2, 2));
    assert(b2.subrange((ca2 + 4) as int, (ca2 + 8) as int) =~= be_encode(fnv1a(k2) as nat, 4));
    assert(b2.subrange(ea2 as int, (ea2 + 2) as int) =~= be_encode(k2.len(), 2));
    assert(b2.subrange((ea2 + 2) as int, (ea2 + 2 + k2.len()) as int) =~= k2);
    let va2: int = (ea2 + 2 + k2.len()) as int;
    assert(b2.subrange(va2, va2 + e2.len()) =~= e2);
}

/// A range that two writes left alone keeps its bytes.
proof fn lemma_range_kept(b1: Seq<u8>, b2: Seq<u8>, t: nat, h: nat, lo: int, hi: int)
    requires
        0 <= lo <= hi <= b1.len() <= b2.len(),
        forall|i: int|
            0 <= i < b1.len() && !(t + 2 <= i < t + 4) && !(h + 2 <= i < h + 4) ==> b2[i] == b1[i],
        hi <= t + 2 || t + 4 <= lo,
        hi <= h + 2 || h + 4 <= lo,
    ensures
        b2.subrange(lo, hi) == b1.subrange(lo, hi),
{
    assert(b2.subrange(lo, hi) =~= b1.subrange(lo, hi));
}

/// A key other than the only one in a map is not found in it.
proof fn lemma_other_key_absent(b1: Seq<u8>, h: nat, ca1: nat, ea1: nat, k1: Seq<u8>, k2: Seq<u8>)
    requires
        (h + 4) as int <= b1.len(),
        k1 != k2,
        u16_at(b1, h as int) == ca1,
        ca1 != 0,
        ca1 + 8 <= b1.len(),
        u16_at(b1, ca1 as int) == ea1,
        u16_at(b1, (ca1 + 2) as int) == 0,
        stored_key(b1, ea1) == Some(k1),
    ensures
        map_cell(b1, h, k2) == Some(None::<nat>),
{
    assert(find_key(b1, 0, 8191, k2) == Some(None::<nat>));
    assert(find_key(b1, ca1, 8192, k2) == Some(None::<nat>));
}

/// The layout after two writes of different keys into an empty map.
#[verifier::rlimit(100)]
#[verifier::spinoff_prover]
proof fn lemma_map_second_entry<T: NP_Value>(
    b: Seq<u8>,
    h: nat,
    k1: Seq<u8>,
    v1: T::V,
    k2: Seq<u8>,
    v2: T::V,
) -> (r: (nat, nat, int, int))
    requires
        (h + 4) as int <= b.len(),
        b.subrange(h as int, (h + 4) as int) == seq![0u8, 0u8, 0u8, 0u8],
        k1 != k2,
        map_set_spec::<T>(b, h, k1, v1) is Ok,
        map_set_spec::<T>(map_set_spec::<T>(b, h, k1, v1)->Ok_0, h, k2, v2) is Ok,
    ensures
        ({
            let b2 = map_set_spec::<T>(map_set_spec::<T>(b, h, k1, v1)->Ok_0, h, k2, v2)->Ok_0;
            let (ca1, ca2, va1, va2) = r;
            &&& (h + 4) as int <= b2.len()
            &&& ca1 != 0 && ca1 + 8 <= b2.len()
            &&& ca2 != 0 && ca2 + 8 <= b2.len()
            &&& u16_at(b2, h as int) == ca1
            &&& cell_hash(b2, ca1) == fnv1a(k1) as nat
            &&& u16_at(b2, ca1 as int) != 0
            &&& stored_key(b2, u16_at(b2, ca1 as int)) == Some(k1)
            &&& u16_at(b2, (ca1 + 2) as int) == ca2
            &&& cell_hash(b2, ca2) == fnv1a(k2) as nat
            &&& u16_at(b2, ca2 as int) != 0
            &&& stored_key(b2, u16_at(b2, ca2 as int)) == Some(k2)
            &&& va1 == u16_at(b2, ca1 as int) + 2 + k1.len()
            &&& va2 == u16_at(b2, ca2 as int) + 2 + k2.len()
            &&& 0 <= va1 && va1 + T::encoded(v1).len() <= b2.len()
            &&& b2.subrange(va1, va1 + T::encoded(v1).len()) == T::encoded(v1)
            &&& 0 <= va2 && va2 + T::encoded(v2).len() <= b2.len()
            &&& b2.subrange(va2, va2 + T::encoded(v2).len()) == T::encoded(v2)
            &&& T::encoded(v1).len() <= 65535
            &&& T::encoded(v2).len() <= 65535
        }),
{
    let e1 = T::encoded(v1);
    let en1 = entry(k1, e1);
    let b1 = map_set_spec::<T>(b, h, k1, v1)->Ok_0;
    lemma_map_first_entry::<T>(b, h, k1, v1);
    let ea1: nat = b.len();
    let ca1: nat = b.len() + en1.len();
    let va1: int = (ea1 + 2 + k1.len()) as int;
    assert(en1.subrange(2, (2 + k1.len()) as int) =~= k1);
    assert(en1.subrange((2 + k1.len()) as int, en1.len() as int) =~= e1);
    assert(b1.subrange((ea1 + 2) as int, va1) =~= k1);
    assert(b1.subrange(va1, va1 + e1.len()) =~= e1);
    assert(stored_key(b1, ea1) == Some(k1));
    lemma_other_key_absent(b1, h, ca1, ea1, k1, k2);
    let b2 = map_set_spec::<T>(b1, h, k2, v2)->Ok_0;
    lemma_map_append::<T>(b1, h, ca1, k2, v2);
    let e2 = T::encoded(v2);
    let ea2: nat = b1.len();
    let ca2: nat = b1.len() + entry(k2, e2).len();
    lemma_range_kept(b1, b2, ca1, h, h as int, (h + 2) as int);
    lemma_range_kept(b1, b2, ca1, h, ca1 as int, (ca1 + 2) as int);
    lemma_range_kept(b1, b2, ca1, h, (ca1 + 4) as int, (ca1 + 8) as int);
    lemma_range_kept(b1, b2, ca1, h, ea1 as int, (ea1 + 2) as int);
    lemma_range_kept(b1, b2, ca1, h, (ea1 + 2) as int, va1);
    lemma_range_kept(b1, b2, ca1, h, va1, va1 + e1.len());
    assert(stored_key(b2, ea1) == Some(k1));
    (ca1, ca2, va1, (ea2 + 2 + k2.len()) as int)
}

/// The layout after writing `v` under `key` into an empty map: the entry at
/// the old end, then its cell, with the header's head and tail on the cell.
proof fn lemma_map_first_entry<T: NP_Value>(b: Seq<u8>, h: nat, key: Seq<u8>, v: T::V)
    requires
        (h + 4) as int <= b.len(),
        b.subrange(h as int, (h + 4) as int) == seq![0u8, 0u8, 0u8, 0u8],
        map_set_spec::<T>(b, h, key, v) is Ok,
    ensures
        ({
            let e = T::encoded(v);
            let en = entry(key, e);
            let n = map_set_spec::<T>(b, h, key, v)->Ok_0;
            let ea = b.len();
            let ca = b.len() + en.len();
            &&& n.len() == ca + 8
            &&& ca < 0x1_0000
            &&& ea > 0
            &&& key.len() < 0x1_0000
            &&& u16_at(n, h as int) == ca
            &&& u16_at(n, (h + 2) as int) == ca
            &&& u16_at(n, ca as int) == ea
            &&& u16_at(n, (ca + 2) as int) == 0
            &&& cell_hash(n, ca) == fnv1a(key) as nat
            &&& n.subrange(ea as int, ca as int) == en
            &&& n.subrange(ea as int, (ea + 2) as int) == be_encode(key.len(), 2)
            &&& u16_at(n, ea as int) == key.len()
        }),
{
    let e = T::encoded(v);
    let en = entry(key, e);
    let n = map_set_spec::<T>(b, h, key, v)->Ok_0;
    assert(b.subrange(h as int, (h + 2) as int) =~= seq![0u8, 0u8]);
    assert(b.subrange((h + 2) as int, (h + 4) as int) =~= seq![0u8, 0u8]);
    lemma_zero_u16(b, h as int);
    lemma_zero_u16(b, (h + 2) as int);
    assert(map_cell(b, h, key) == Some(None::<nat>));
    let ea: nat = b.len();
    let ca: nat = b.len() + en.len();
    lemma_u16_code(ea);
    lemma_u16_code(ca);
    lemma_u16_code(key.len());
    lemma_u32_code(fnv1a(key) as nat);
    lemma_be_encode_len(key.len(), 2);
    assert(n.subrange(h as int, (h + 2) as int) =~= be_encode(ca, 2));
    assert(n.subrange((h + 2) as int, (h + 4) as int) =~= be_encode(ca, 2));
    assert(n.subrange(ca as int, (ca + 2) as int) =~= be_encode(ea, 2));
    assert(n.subrange((ca + 2) as int, (ca + 4) as int) =~= seq![0u8, 0u8]);
    lemma_zero_u16(n, (ca + 2) as int);
    assert(n.subrange((ca + 4) as int, (ca + 8) as int) =~= be_encode(fnv1a(key) as nat, 4));
    assert(n.subrange(ea as int, ca as int) =~= en);
    assert(n.subrange(ea as int, (ea + 2) as int) =~= be_encode(key.len(), 2));
}

} // verus!
