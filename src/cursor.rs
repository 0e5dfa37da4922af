//! The cursor: a transient handle on a pointer cell, and the operations that
//! read, write, clear, measure and copy the value a cell points to. Every
//! operation is stated for the cell at any address `at`; the root pointer is
//! the cell at 0.
use vstd::prelude::*;
use crate::encoding::{be_encode, lemma_be_encode_len};
use crate::error::NP_Error;
use crate::memory::{splice, u16_at, NP_Memory, HEADER_SIZE, MAX_SIZE};
use crate::pointer::{cell_size, parse_cursor_value, NP_Cell, NP_Parent, NP_Pointer_Bytes, NP_Pointer_Scalar};
use crate::schema::NP_Parsed_Schema;
use crate::value::{can_reuse, reusable, NP_Date, NP_Value};

verus! {

/// The address held by the cell at `at`.
pub open spec fn cell_addr(b: Seq<u8>, at: nat) -> nat {
    u16_at(b, at as int)
}

/// The header is there, the cell at `at` lies inside the bytes, and it does
/// not point into the header.
pub open spec fn cell_ok(b: Seq<u8>, at: nat) -> bool {
    b.len() >= HEADER_SIZE && at + 2 <= b.len() && (cell_addr(b, at) == 0 || cell_addr(b, at)
        >= HEADER_SIZE)
}

/// The address held by the root pointer.
pub open spec fn root_addr(b: Seq<u8>) -> nat {
    cell_addr(b, 0)
}

/// The header is there and the root pointer does not point into it.
pub open spec fn header_ok(b: Seq<u8>) -> bool {
    cell_ok(b, 0)
}

pub open spec fn opt_view<T: View>(o: Option<T>) -> Option<T::V> {
    match o {
        Some(v) => Some(v@),
        None => None,
    }
}

/// What reading the value of the cell at `at` as `T` gives: `None` when the
/// bytes break the format, `Some(None)` when the cell is empty and the schema
/// has no default.
pub open spec fn value_at<T: NP_Value>(schema: NP_Parsed_Schema, b: Seq<u8>, at: nat) -> Option<
    Option<T::V>,
> {
    if !cell_ok(b, at) {
        None
    } else if cell_addr(b, at) == 0 {
        Some(T::schema_default(schema))
    } else {
        match T::decoded(b, cell_addr(b, at) as int) {
            Some(v) => Some(Some(v)),
            None => None,
        }
    }
}

/// What reading the root as `T` gives.
pub open spec fn root_value<T: NP_Value>(schema: NP_Parsed_Schema, b: Seq<u8>) -> Option<
    Option<T::V>,
> {
    value_at::<T>(schema, b, 0)
}

/// A new value can take the place of the one the cell at `at` points to:
/// the old allocation is sound and as large as the new encoding.
pub open spec fn in_place_at<T: NP_Value>(b: Seq<u8>, at: nat, v: T::V) -> bool {
    cell_ok(b, at) && cell_addr(b, at) != 0 && reusable::<T>(b, cell_addr(b, at), T::encoded(v))
}

/// The cell at `at` is sound for a write: it lies inside the bytes, after a
/// header, and points nowhere or to an address inside the bytes past the header.
pub open spec fn cell_writable(b: Seq<u8>, at: nat) -> bool {
    cell_ok(b, at) && (cell_addr(b, at) == 0 || cell_addr(b, at) < b.len())
}

/// The error a read through the cell at `at` gives when it fails.
pub open spec fn read_error_at<T: NP_Value>(b: Seq<u8>, at: nat) -> NP_Error {
    if !cell_ok(b, at) {
        NP_Error::Corrupt
    } else {
        T::read_error(b, cell_addr(b, at) as int)
    }
}

/// The error compaction from the cell at `at` gives when it fails.
pub open spec fn compact_error_at<T: NP_Value>(b: Seq<u8>, at: nat) -> NP_Error {
    if b.len() > MAX_SIZE {
        NP_Error::Corrupt
    } else {
        read_error_at::<T>(b, at)
    }
}

pub open spec fn in_place<T: NP_Value>(b: Seq<u8>, v: T::V) -> bool {
    in_place_at::<T>(b, 0, v)
}

/// The bytes after writing `v` through the cell at `at`, `None` when the
/// arena is full.
pub open spec fn set_at_spec<T: NP_Value>(b: Seq<u8>, at: nat, v: T::V) -> Option<Seq<u8>> {
    if in_place_at::<T>(b, at, v) {
        Some(splice(b, cell_addr(b, at) as int, T::encoded(v)))
    } else if b.len() + T::encoded(v).len() <= MAX_SIZE {
        Some(splice(b + T::encoded(v), at as int, be_encode(b.len(), 2)))
    } else {
        None
    }
}

/// The bytes after writing `v` at the root.
pub open spec fn set_root_spec<T: NP_Value>(b: Seq<u8>, v: T::V) -> Option<Seq<u8>> {
    set_at_spec::<T>(b, 0, v)
}

/// The bytes after clearing the root pointer.
pub open spec fn deleted(b: Seq<u8>) -> Seq<u8> {
    splice(b, 0, seq![0u8, 0u8])
}

/// A buffer with nothing in it.
pub open spec fn empty_header() -> Seq<u8> {
    seq![0u8, 0u8, 0u8, 0u8]
}

/// A fresh buffer holding only the value that the cell at `at` points to,
/// read as `T`, at its root.
pub open spec fn compacted_at<T: NP_Value>(b: Seq<u8>, at: nat) -> Option<Seq<u8>> {
    if !cell_ok(b, at) || b.len() > MAX_SIZE {
        None
    } else if cell_addr(b, at) == 0 {
        Some(empty_header())
    } else {
        match T::decoded(b, cell_addr(b, at) as int) {
            Some(v) => Some(be_encode(HEADER_SIZE as nat, 2) + seq![0u8, 0u8] + T::encoded(v)),
            None => None,
        }
    }
}

/// The buffer that holds only what the root reaches, read as `T`.
pub open spec fn compacted<T: NP_Value>(b: Seq<u8>) -> Option<Seq<u8>> {
    compacted_at::<T>(b, 0)
}

/// Compaction from the cell at `at`, with the value type that the schema gives.
pub open spec fn compacted_by_schema_at(schema: NP_Parsed_Schema, b: Seq<u8>, at: nat) -> Option<Seq<u8>> {
    match schema {
        NP_Parsed_Schema::Boolean { .. } => compacted_at::<bool>(b, at),
        NP_Parsed_Schema::Int8 => compacted_at::<i8>(b, at),
        NP_Parsed_Schema::Int16 => compacted_at::<i16>(b, at),
        NP_Parsed_Schema::Int32 => compacted_at::<i32>(b, at),
        NP_Parsed_Schema::Int64 => compacted_at::<i64>(b, at),
        NP_Parsed_Schema::Uint8 => compacted_at::<u8>(b, at),
        NP_Parsed_Schema::Uint16 => compacted_at::<u16>(b, at),
        NP_Parsed_Schema::Uint32 => compacted_at::<u32>(b, at),
        NP_Parsed_Schema::Uint64 => compacted_at::<u64>(b, at),
        NP_Parsed_Schema::Date => compacted_at::<NP_Date>(b, at),
        NP_Parsed_Schema::UTF8String => compacted_at::<String>(b, at),
        NP_Parsed_Schema::Bytes => compacted_at::<Vec<u8>>(b, at),
    }
}

/// The error compaction from the cell at `at` gives, with the schema's type.
pub open spec fn compact_error_by_schema_at(schema: NP_Parsed_Schema, b: Seq<u8>, at: nat) -> NP_Error {
    match schema {
        NP_Parsed_Schema::Boolean { .. } => compact_error_at::<bool>(b, at),
        NP_Parsed_Schema::Int8 => compact_error_at::<i8>(b, at),
        NP_Parsed_Schema::Int16 => compact_error_at::<i16>(b, at),
        NP_Parsed_Schema::Int32 => compact_error_at::<i32>(b, at),
        NP_Parsed_Schema::Int64 => compact_error_at::<i64>(b, at),
        NP_Parsed_Schema::Uint8 => compact_error_at::<u8>(b, at),
        NP_Parsed_Schema::Uint16 => compact_error_at::<u16>(b, at),
        NP_Parsed_Schema::Uint32 => compact_error_at::<u32>(b, at),
        NP_Parsed_Schema::Uint64 => compact_error_at::<u64>(b, at),
        NP_Parsed_Schema::Date => compact_error_at::<NP_Date>(b, at),
        NP_Parsed_Schema::UTF8String => compact_error_at::<String>(b, at),
        NP_Parsed_Schema::Bytes => compact_error_at::<Vec<u8>>(b, at),
    }
}

/// Compaction from the root, with the value type that the schema gives.
pub open spec fn compacted_by_schema(schema: NP_Parsed_Schema, b: Seq<u8>) -> Option<Seq<u8>> {
    compacted_by_schema_at(schema, b, 0)
}

/// Writing the zero value of the schema's type through the cell at `at`.
pub open spec fn set_default_at(schema: NP_Parsed_Schema, b: Seq<u8>, at: nat) -> Option<Seq<u8>> {
    match schema {
        NP_Parsed_Schema::Boolean { .. } => set_at_spec::<bool>(b, at, false),
        NP_Parsed_Schema::Int8 => set_at_spec::<i8>(b, at, 0),
        NP_Parsed_Schema::Int16 => set_at_spec::<i16>(b, at, 0),
        NP_Parsed_Schema::Int32 => set_at_spec::<i32>(b, at, 0),
        NP_Parsed_Schema::Int64 => set_at_spec::<i64>(b, at, 0),
        NP_Parsed_Schema::Uint8 => set_at_spec::<u8>(b, at, 0),
        NP_Parsed_Schema::Uint16 => set_at_spec::<u16>(b, at, 0),
        NP_Parsed_Schema::Uint32 => set_at_spec::<u32>(b, at, 0),
        NP_Parsed_Schema::Uint64 => set_at_spec::<u64>(b, at, 0),
        NP_Parsed_Schema::Date => set_at_spec::<NP_Date>(b, at, 0),
        NP_Parsed_Schema::UTF8String => set_at_spec::<String>(b, at, Seq::empty()),
        NP_Parsed_Schema::Bytes => set_at_spec::<Vec<u8>>(b, at, Seq::empty()),
    }
}

/// Writing the zero value of the schema's type at the root.
pub open spec fn set_default_spec(schema: NP_Parsed_Schema, b: Seq<u8>) -> Option<Seq<u8>> {
    set_default_at(schema, b, 0)
}

/// Bytes used by a cell of `cs` bytes at `at` and the value's allocation,
/// if any; `None` when the bytes break the format or pass the address space.
pub open spec fn size_at<T: NP_Value>(b: Seq<u8>, at: nat, cs: nat) -> Option<nat> {
    if !cell_ok(b, at) || b.len() > MAX_SIZE {
        None
    } else if cell_addr(b, at) == 0 {
        Some(cs)
    } else {
        match T::decoded(b, cell_addr(b, at) as int) {
            Some(v) => Some(cs + T::encoded(v).len()),
            None => None,
        }
    }
}

/// Bytes used by the root: its pointer and the value's allocation.
pub open spec fn root_size<T: NP_Value>(b: Seq<u8>) -> Option<nat> {
    size_at::<T>(b, 0, 2)
}

/// The size from the cell at `at`, with the value type that the schema gives.
pub open spec fn size_by_schema_at(schema: NP_Parsed_Schema, b: Seq<u8>, at: nat, cs: nat) -> Option<nat> {
    match schema {
        NP_Parsed_Schema::Boolean { .. } => size_at::<bool>(b, at, cs),
        NP_Parsed_Schema::Int8 => size_at::<i8>(b, at, cs),
        NP_Parsed_Schema::Int16 => size_at::<i16>(b, at, cs),
        NP_Parsed_Schema::Int32 => size_at::<i32>(b, at, cs),
        NP_Parsed_Schema::Int64 => size_at::<i64>(b, at, cs),
        NP_Parsed_Schema::Uint8 => size_at::<u8>(b, at, cs),
        NP_Parsed_Schema::Uint16 => size_at::<u16>(b, at, cs),
        NP_Parsed_Schema::Uint32 => size_at::<u32>(b, at, cs),
        NP_Parsed_Schema::Uint64 => size_at::<u64>(b, at, cs),
        NP_Parsed_Schema::Date => size_at::<NP_Date>(b, at, cs),
        NP_Parsed_Schema::UTF8String => size_at::<String>(b, at, cs),
        NP_Parsed_Schema::Bytes => size_at::<Vec<u8>>(b, at, cs),
    }
}

/// The root's size, with the value type that the schema gives.
pub open spec fn root_size_by_schema(schema: NP_Parsed_Schema, b: Seq<u8>) -> Option<nat> {
    size_by_schema_at(schema, b, 0, 2)
}

/// What a cursor knows of the value it stands on.
#[derive(Debug, Clone, Copy, PartialEq, Eq, Structural)]
pub enum NP_Cursor_Data {
    Empty,
    Scalar,
}

/// Where a cursor stands: on a cell in the buffer, or on none.
#[derive(Debug, Clone, Copy, PartialEq, Eq, Structural)]
pub enum NP_Cursor_Addr {
    Virtual,
    Real(usize),
}

/// A handle on one pointer cell: where it is, which schema node it has, and
/// the cell's bytes when it was parsed.
#[derive(Debug, Clone, Copy)]
pub struct NP_Cursor {
    pub buff_addr: usize,
    pub schema_addr: usize,
    pub parent_addr: usize,
    pub data: NP_Cursor_Data,
    pub value: NP_Cell,
}

impl NP_Cursor {
    /// Where the cursor stands.
    pub open spec fn spec_addr(&self) -> NP_Cursor_Addr {
        if self.data is Empty {
            NP_Cursor_Addr::Virtual
        } else {
            NP_Cursor_Addr::Real(self.buff_addr)
        }
    }

    pub fn get_addr(&self) -> (r: NP_Cursor_Addr)
        ensures
            r == self.spec_addr(),
    {
        match self.data {
            NP_Cursor_Data::Empty => NP_Cursor_Addr::Virtual,
            NP_Cursor_Data::Scalar => NP_Cursor_Addr::Real(self.buff_addr),
        }
    }

    /// A virtual cursor: it stands on no cell, and its cell is empty.
    pub fn new_virtual() -> (r: NP_Cursor)
        ensures
            r.buff_addr == 0,
            r.schema_addr == 0,
            r.parent_addr == 0,
            r.data == NP_Cursor_Data::Empty,
            r.value.spec_addr() == 0,
            r.value.spec_bytes().len() == 2,
    {
        let mut p = NP_Pointer_Scalar { addr_value: [0u8, 0u8] };
        p.reset();
        NP_Cursor {
            buff_addr: 0,
            schema_addr: 0,
            parent_addr: 0,
            data: NP_Cursor_Data::Empty,
            value: NP_Cell::Scalar(p),
        }
    }

    /// A cursor on the root pointer. The operations that take a cursor read
    /// the cell's current bytes at its address.
    pub fn root() -> (r: NP_Cursor)
        ensures
            r.buff_addr == 0,
            r.data == NP_Cursor_Data::Scalar,
            r.value.spec_bytes().len() == 2,
    {
        let c = NP_Cursor::new_virtual();
        NP_Cursor { data: NP_Cursor_Data::Scalar, ..c }
    }

    /// Turns the cursor into a virtual one with an empty cell.
    pub fn reset(&mut self)
        ensures
            final(self).buff_addr == 0,
            final(self).schema_addr == 0,
            final(self).parent_addr == 0,
            final(self).data == NP_Cursor_Data::Empty,
            final(self).value.spec_addr() == 0,
    {
        *self = NP_Cursor::new_virtual();
    }

    /// Reads the cell at `buff_addr`, shaped by the kind of its parent.
    pub fn parse(
        buff_addr: usize,
        schema_addr: usize,
        parent_addr: usize,
        parent: NP_Parent,
        memory: &NP_Memory,
    ) -> (r: Result<NP_Cursor, NP_Error>)
        ensures
            buff_addr + cell_size(parent_addr as nat, parent) <= memory@.len() ==> (r matches Ok(c)
                && c.buff_addr == buff_addr && c.schema_addr == schema_addr && c.parent_addr
                == parent_addr && c.data == NP_Cursor_Data::Scalar && c.value.spec_bytes()
                == memory@.subrange(buff_addr as int, buff_addr + cell_size(parent_addr as nat, parent))
                && c.value.spec_addr() == u16_at(memory@, buff_addr as int)),
            buff_addr + cell_size(parent_addr as nat, parent) > memory@.len() ==> r == Err::<
                NP_Cursor,
                NP_Error,
            >(NP_Error::Corrupt),
    {
        let value = parse_cursor_value(buff_addr, parent_addr, parent, memory)?;
        Ok(NP_Cursor { buff_addr, schema_addr, parent_addr, data: NP_Cursor_Data::Scalar, value })
    }

    /// Copies the value that `from_cursor`'s cell points to into the root of
    /// the empty buffer `to_memory`.
    pub fn compact(
        from_cursor: &NP_Cursor,
        from_memory: &NP_Memory,
        to_memory: &mut NP_Memory,
        schema: &NP_Parsed_Schema,
    ) -> (r: Result<(), NP_Error>)
        requires
            old(to_memory)@ == empty_header(),
        ensures
            match compacted_by_schema_at(*schema, from_memory@, from_cursor.buff_addr as nat) {
                Some(n) => r is Ok && final(to_memory)@ == n,
                None => r == Err::<(), NP_Error>(
                    compact_error_by_schema_at(*schema, from_memory@, from_cursor.buff_addr as nat),
                ) && final(to_memory)@ == old(to_memory)@,
            },
    {
        let at = from_cursor.buff_addr;
        match schema {
            NP_Parsed_Schema::Boolean { .. } => compact_at::<bool>(from_memory, at, to_memory),
            NP_Parsed_Schema::Int8 => compact_at::<i8>(from_memory, at, to_memory),
            NP_Parsed_Schema::Int16 => compact_at::<i16>(from_memory, at, to_memory),
            NP_Parsed_Schema::Int32 => compact_at::<i32>(from_memory, at, to_memory),
            NP_Parsed_Schema::Int64 => compact_at::<i64>(from_memory, at, to_memory),
            NP_Parsed_Schema::Uint8 => compact_at::<u8>(from_memory, at, to_memory),
            NP_Parsed_Schema::Uint16 => compact_at::<u16>(from_memory, at, to_memory),
            NP_Parsed_Schema::Uint32 => compact_at::<u32>(from_memory, at, to_memory),
            NP_Parsed_Schema::Uint64 => compact_at::<u64>(from_memory, at, to_memory),
            NP_Parsed_Schema::Date => compact_at::<NP_Date>(from_memory, at, to_memory),
            NP_Parsed_Schema::UTF8String => compact_at::<String>(from_memory, at, to_memory),
            NP_Parsed_Schema::Bytes => compact_at::<Vec<u8>>(from_memory, at, to_memory),
        }
    }

    /// Writes the zero value of the schema's type (false, 0, empty) through
    /// the cursor's cell; `Corrupt` when the cell lies outside the buffer or
    /// points into the header or past the end.
    pub fn set_default(cursor: &NP_Cursor, memory: &mut NP_Memory, schema: &NP_Parsed_Schema) -> (r:
        Result<(), NP_Error>)
        ensures
            !cell_writable(old(memory)@, cursor.buff_addr as nat) ==> r == Err::<(), NP_Error>(
                NP_Error::Corrupt,
            ) && final(memory)@ == old(memory)@,
            cell_writable(old(memory)@, cursor.buff_addr as nat) ==> match set_default_at(
                *schema,
                old(memory)@,
                cursor.buff_addr as nat,
            ) {
                Some(n) => r is Ok && final(memory)@ == n,
                None => r == Err::<(), NP_Error>(NP_Error::OutOfSpace) && final(memory)@ == old(memory)@,
            },
    {
        let at = cursor.buff_addr;
        let len = memory.len();
        if len < HEADER_SIZE || at > len || len - at < 2 {
            return Err(NP_Error::Corrupt);
        }
        match schema {
            NP_Parsed_Schema::Boolean { .. } => set_at::<bool>(memory, at, &false),
            NP_Parsed_Schema::Int8 => set_at::<i8>(memory, at, &0),
            NP_Parsed_Schema::Int16 => set_at::<i16>(memory, at, &0),
            NP_Parsed_Schema::Int32 => set_at::<i32>(memory, at, &0),
            NP_Parsed_Schema::Int64 => set_at::<i64>(memory, at, &0),
            NP_Parsed_Schema::Uint8 => set_at::<u8>(memory, at, &0),
            NP_Parsed_Schema::Uint16 => set_at::<u16>(memory, at, &0),
            NP_Parsed_Schema::Uint32 => set_at::<u32>(memory, at, &0),
            NP_Parsed_Schema::Uint64 => set_at::<u64>(memory, at, &0),
            NP_Parsed_Schema::Date => set_at::<NP_Date>(memory, at, &NP_Date { value: 0 }),
            NP_Parsed_Schema::UTF8String => {
                let s = String::new();
                set_at::<String>(memory, at, &s)
            },
            NP_Parsed_Schema::Bytes => {
                let v: Vec<u8> = Vec::new();
                set_at::<Vec<u8>>(memory, at, &v)
            },
        }
    }

    /// Bytes used by the cursor's cell and the value it points to; 0 for a
    /// virtual cursor.
    pub fn calc_size(cursor: &NP_Cursor, memory: &NP_Memory, schema: &NP_Parsed_Schema) -> (r:
        Result<usize, NP_Error>)
        ensures
            cursor.data is Empty ==> r == Ok::<usize, NP_Error>(0),
            !(cursor.data is Empty) ==> match size_by_schema_at(
                *schema,
                memory@,
                cursor.buff_addr as nat,
                cursor.value.spec_bytes().len(),
            ) {
                Some(n) => r == Ok::<usize, NP_Error>(n as usize),
                None => r == Err::<usize, NP_Error>(NP_Error::Corrupt),
            },
    {
        if let NP_Cursor_Data::Empty = cursor.data {
            return Ok(0);
        }
        let at = cursor.buff_addr;
        let cs = cursor.value.get_size();
        match schema {
            NP_Parsed_Schema::Boolean { .. } => size_at_exec::<bool>(memory, at, cs),
            NP_Parsed_Schema::Int8 => size_at_exec::<i8>(memory, at, cs),
            NP_Parsed_Schema::Int16 => size_at_exec::<i16>(memory, at, cs),
            NP_Parsed_Schema::Int32 => size_at_exec::<i32>(memory, at, cs),
            NP_Parsed_Schema::Int64 => size_at_exec::<i64>(memory, at, cs),
            NP_Parsed_Schema::Uint8 => size_at_exec::<u8>(memory, at, cs),
            NP_Parsed_Schema::Uint16 => size_at_exec::<u16>(memory, at, cs),
            NP_Parsed_Schema::Uint32 => size_at_exec::<u32>(memory, at, cs),
            NP_Parsed_Schema::Uint64 => size_at_exec::<u64>(memory, at, cs),
            NP_Parsed_Schema::Date => size_at_exec::<NP_Date>(memory, at, cs),
            NP_Parsed_Schema::UTF8String => size_at_exec::<String>(memory, at, cs),
            NP_Parsed_Schema::Bytes => size_at_exec::<Vec<u8>>(memory, at, cs),
        }
    }
}

/// Bytes used by a cell of `cs` bytes at `at` and the value it points to,
/// read as `T`.
pub fn size_at_exec<T: NP_Value>(memory: &NP_Memory, at: usize, cs: usize) -> (r: Result<usize, NP_Error>)
    requires
        cs <= 8,
    ensures
        match size_at::<T>(memory@, at as nat, cs as nat) {
            Some(n) => r == Ok::<usize, NP_Error>(n as usize),
            None => r == Err::<usize, NP_Error>(NP_Error::Corrupt),
        },
{
    let len = memory.len();
    if len < HEADER_SIZE || len > MAX_SIZE || at > len || len - at < 2 {
        return Err(NP_Error::Corrupt);
    }
    let addr = memory.read_u16(at)?;
    if addr == 0 {
        return Ok(cs);
    }
    if (addr as usize) < HEADER_SIZE {
        return Err(NP_Error::Corrupt);
    }
    match T::into_value(memory, addr as usize) {
        Ok(v) => {
            proof {
                T::lemma_decoded_fits(memory@, addr as int);
            }
            let bytes = v.to_value_bytes();
            Ok(cs + bytes.len())
        },
        Err(_) => Err(NP_Error::Corrupt),
    }
}

/// Reads the value the cell at `at` points to as `T`, with the schema's
/// default when the cell is empty.
pub fn get_at<T: NP_Value>(memory: &NP_Memory, at: usize, schema: &NP_Parsed_Schema) -> (r: Result<
    Option<T>,
    NP_Error,
>)
    ensures
        match r {
            Ok(o) => value_at::<T>(*schema, memory@, at as nat) == Some(opt_view(o)),
            Err(e) => value_at::<T>(*schema, memory@, at as nat) is None && e == read_error_at::<T>(
                memory@,
                at as nat,
            ),
        },
{
    let len = memory.len();
    if len < HEADER_SIZE || at > len || len - at < 2 {
        return Err(NP_Error::Corrupt);
    }
    let addr = memory.read_u16(at)?;
    if addr == 0 {
        return Ok(T::default_value(schema));
    }
    if (addr as usize) < HEADER_SIZE {
        return Err(NP_Error::Corrupt);
    }
    let v = T::into_value(memory, addr as usize)?;
    Ok(Some(v))
}

/// Reads the root as `T`, with the schema's default when nothing is stored.
pub fn get_root<T: NP_Value>(memory: &NP_Memory, schema: &NP_Parsed_Schema) -> (r: Result<
    Option<T>,
    NP_Error,
>)
    ensures
        match r {
            Ok(o) => root_value::<T>(*schema, memory@) == Some(opt_view(o)),
            Err(e) => root_value::<T>(*schema, memory@) is None && e == read_error_at::<T>(
                memory@,
                0,
            ),
        },
{
    get_at::<T>(memory, 0, schema)
}

/// Writes `value` through the cell at `at`: over the old value when its
/// allocation can take the new encoding, else in a new allocation. A cell
/// that points into the header or past the end gives `Corrupt`.
pub fn set_at<T: NP_Value>(memory: &mut NP_Memory, at: usize, value: &T) -> (r: Result<(), NP_Error>)
    requires
        old(memory)@.len() >= HEADER_SIZE,
        at + 2 <= old(memory)@.len(),
    ensures
        !cell_writable(old(memory)@, at as nat) ==> r == Err::<(), NP_Error>(NP_Error::Corrupt)
            && final(memory)@ == old(memory)@,
        cell_writable(old(memory)@, at as nat) ==> match set_at_spec::<T>(old(memory)@, at as nat, value@) {
            Some(n) => r is Ok && final(memory)@ == n,
            None => r == Err::<(), NP_Error>(NP_Error::OutOfSpace) && final(memory)@ == old(memory)@,
        },
{
    let addr = memory.read_u16(at)?;
    let len = memory.len();
    if addr != 0 && ((addr as usize) < HEADER_SIZE || addr as usize >= len) {
        return Err(NP_Error::Corrupt);
    }
    let bytes = value.to_value_bytes();
    if addr != 0 && can_reuse::<T>(memory, addr as usize, &bytes) {
        memory.write_bytes(addr as usize, &bytes);
        Ok(())
    } else {
        let new_addr = memory.malloc_borrow(&bytes)?;
        memory.write_address(at, new_addr);
        Ok(())
    }
}

/// Writes `value` at the root.
pub fn set_root<T: NP_Value>(memory: &mut NP_Memory, value: &T) -> (r: Result<(), NP_Error>)
    requires
        old(memory)@.len() >= HEADER_SIZE,
    ensures
        !cell_writable(old(memory)@, 0) ==> r == Err::<(), NP_Error>(NP_Error::Corrupt) && final(memory)@ == old(memory)@,
        cell_writable(old(memory)@, 0) ==> match set_root_spec::<T>(old(memory)@, value@) {
            Some(n) => r is Ok && final(memory)@ == n,
            None => r == Err::<(), NP_Error>(NP_Error::OutOfSpace) && final(memory)@ == old(memory)@,
        },
{
    set_at::<T>(memory, 0, value)
}

/// Clears the root pointer; the old allocation stays until compaction.
pub fn del_root(memory: &mut NP_Memory) -> (r: Result<(), NP_Error>)
    ensures
        old(memory)@.len() >= HEADER_SIZE ==> r is Ok && final(memory)@ == deleted(old(memory)@),
        old(memory)@.len() < HEADER_SIZE ==> r == Err::<(), NP_Error>(NP_Error::Corrupt) && final(memory)@ == old(memory)@,
{
    if memory.len() < HEADER_SIZE {
        return Err(NP_Error::Corrupt);
    }
    memory.write_address(0, 0);
    proof {
        reveal_with_fuel(be_encode, 3);
        assert(be_encode(0, 2) =~= seq![0u8, 0u8]);
    }
    Ok(())
}

/// Copies the value the cell at `at` points to, read as `T`, to the root of
/// the empty buffer `to`.
pub fn compact_at<T: NP_Value>(from: &NP_Memory, at: usize, to: &mut NP_Memory) -> (r: Result<(), NP_Error>)
    requires
        old(to)@ == empty_header(),
    ensures
        match compacted_at::<T>(from@, at as nat) {
            Some(n) => r is Ok && final(to)@ == n,
            None => r == Err::<(), NP_Error>(compact_error_at::<T>(from@, at as nat)) && final(to)@
                == old(to)@,
        },
{
    let len = from.len();
    if len < HEADER_SIZE || len > MAX_SIZE || at > len || len - at < 2 {
        return Err(NP_Error::Corrupt);
    }
    let addr = from.read_u16(at)?;
    if addr == 0 {
        return Ok(());
    }
    if (addr as usize) < HEADER_SIZE {
        return Err(NP_Error::Corrupt);
    }
    let v = T::into_value(from, addr as usize)?;
    proof {
        T::lemma_decoded_fits(from@, addr as int);
    }
    let ghost e = T::encoded(v@);
    let r = set_root::<T>(to, &v);
    proof {
        let b = empty_header();
        reveal_with_fuel(be_encode, 3);
        lemma_be_encode_len(HEADER_SIZE as nat, 2);
        assert(root_addr(b) == 0) by {
            reveal_with_fuel(crate::encoding::be_value, 3);
            assert(b.subrange(0, 2) =~= seq![0u8, 0u8]);
        }
        assert(splice(b + e, 0, be_encode(b.len(), 2)) =~= be_encode(HEADER_SIZE as nat, 2)
            + seq![0u8, 0u8] + e);
    }
    r
}

/// Copies the root value, read as `T`, into the empty buffer `to`.
pub fn compact_root<T: NP_Value>(from: &NP_Memory, to: &mut NP_Memory) -> (r: Result<(), NP_Error>)
    requires
        old(to)@ == empty_header(),
    ensures
        match compacted::<T>(from@) {
            Some(n) => r is Ok && final(to)@ == n,
            None => r == Err::<(), NP_Error>(compact_error_at::<T>(from@, 0)) && final(to)@ == old(to)@,
        },
{
    compact_at::<T>(from, 0, to)
}

} // verus!
