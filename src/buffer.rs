//! Factories hold a schema and hand out buffers; buffers offer path-based
//! get, set, delete, compaction and size accounting.
use vstd::prelude::*;
use vstd::string::StringSliceAdditionalSpecFns;
use crate::cursor::{cell_writable, compact_error_by_schema_at, read_error_at, compacted_by_schema, deleted, del_root, empty_header, get_at, get_root, opt_view, root_value, set_default_spec, set_root, set_root_spec, value_at, NP_Cursor};
use crate::pointer::NP_Parent;
use crate::error::NP_Error;
use crate::json::schema_json;
use crate::laws::law_compaction_preserves;
use crate::memory::{NP_Memory, HEADER_SIZE};
use crate::schema::{schema_bytes, schema_from_bytes_spec, type_key, NP_Parsed_Schema};
use crate::value::{NP_Date, NP_Value};

verus! {

/// A value as JSON.
#[derive(Debug)]
pub enum NP_JSON {
    Null,
    True,
    False,
    Integer(i128),
    String(String),
    Array(Vec<NP_JSON>),
}

/// Whether `j` is the JSON of the value that the cell at `at` points to: the
/// value, else the schema's default, else null.
pub open spec fn json_of_value_at(schema: NP_Parsed_Schema, b: Seq<u8>, at: nat, j: NP_JSON) -> bool {
    match schema {
        NP_Parsed_Schema::Boolean { .. } => match value_at::<bool>(schema, b, at) {
            Some(Some(true)) => j == NP_JSON::True,
            Some(Some(false)) => j == NP_JSON::False,
            _ => j == NP_JSON::Null,
        },
        NP_Parsed_Schema::Int8 => match value_at::<i8>(schema, b, at) {
            Some(Some(v)) => j == NP_JSON::Integer(v as i128),
            _ => j == NP_JSON::Null,
        },
        NP_Parsed_Schema::Int16 => match value_at::<i16>(schema, b, at) {
            Some(Some(v)) => j == NP_JSON::Integer(v as i128),
            _ => j == NP_JSON::Null,
        },
        NP_Parsed_Schema::Int32 => match value_at::<i32>(schema, b, at) {
            Some(Some(v)) => j == NP_JSON::Integer(v as i128),
            _ => j == NP_JSON::Null,
        },
        NP_Parsed_Schema::Int64 => match value_at::<i64>(schema, b, at) {
            Some(Some(v)) => j == NP_JSON::Integer(v as i128),
            _ => j == NP_JSON::Null,
        },
        NP_Parsed_Schema::Uint8 => match value_at::<u8>(schema, b, at) {
            Some(Some(v)) => j == NP_JSON::Integer(v as i128),
            _ => j == NP_JSON::Null,
        },
        NP_Parsed_Schema::Uint16 => match value_at::<u16>(schema, b, at) {
            Some(Some(v)) => j == NP_JSON::Integer(v as i128),
            _ => j == NP_JSON::Null,
        },
        NP_Parsed_Schema::Uint32 => match value_at::<u32>(schema, b, at) {
            Some(Some(v)) => j == NP_JSON::Integer(v as i128),
            _ => j == NP_JSON::Null,
        },
        NP_Parsed_Schema::Uint64 => match value_at::<u64>(schema, b, at) {
            Some(Some(v)) => j == NP_JSON::Integer(v as i128),
            _ => j == NP_JSON::Null,
        },
        NP_Parsed_Schema::Date => match value_at::<NP_Date>(schema, b, at) {
            Some(Some(v)) => j == NP_JSON::Integer(v as i128),
            _ => j == NP_JSON::Null,
        },
        NP_Parsed_Schema::UTF8String => match value_at::<String>(schema, b, at) {
            Some(Some(v)) => j matches NP_JSON::String(t) && t@ == v,
            _ => j == NP_JSON::Null,
        },
        NP_Parsed_Schema::Bytes => match value_at::<Vec<u8>>(schema, b, at) {
            Some(Some(v)) => j matches NP_JSON::Array(a) && a@.len() == v.len() && forall|i: int|
                0 <= i < v.len() ==> a@[i] == NP_JSON::Integer(v[i] as i128),
            _ => j == NP_JSON::Null,
        },
    }
}

/// Whether `j` is the JSON of the root of `b`.
pub open spec fn json_of_root(schema: NP_Parsed_Schema, b: Seq<u8>, j: NP_JSON) -> bool {
    json_of_value_at(schema, b, 0, j)
}

fn json_of_bytes(v: &Vec<u8>) -> (r: NP_JSON)
    ensures
        r matches NP_JSON::Array(a) && a@.len() == v@.len() && forall|i: int|
            0 <= i < v@.len() ==> a@[i] == NP_JSON::Integer(v@[i] as i128),
{
    let mut a: Vec<NP_JSON> = Vec::new();
    let mut i: usize = 0;
    while i < v.len()
        invariant
            i <= v@.len(),
            a@.len() == i,
            forall|k: int| 0 <= k < i ==> a@[k] == NP_JSON::Integer(v@[k] as i128),
        decreases v@.len() - i,
    {
        a.push(NP_JSON::Integer(v[i] as i128));
        i = i + 1;
    }
    NP_JSON::Array(a)
}

impl NP_Cursor {
    /// The JSON of the value that the cursor's cell points to, defaults
    /// applied; null where the bytes do not decode.
    pub fn json_encode(cursor: &NP_Cursor, memory: &NP_Memory, schema: &NP_Parsed_Schema) -> (r:
        NP_JSON)
        ensures
            json_of_value_at(*schema, memory@, cursor.buff_addr as nat, r),
    {
        let at = cursor.buff_addr;
        match schema {
            NP_Parsed_Schema::Boolean { .. } => match get_at::<bool>(memory, at, schema) {
                Ok(Some(true)) => NP_JSON::True,
                Ok(Some(false)) => NP_JSON::False,
                _ => NP_JSON::Null,
            },
            NP_Parsed_Schema::Int8 => match get_at::<i8>(memory, at, schema) {
                Ok(Some(v)) => NP_JSON::Integer(v as i128),
                _ => NP_JSON::Null,
            },
            NP_Parsed_Schema::Int16 => match get_at::<i16>(memory, at, schema) {
                Ok(Some(v)) => NP_JSON::Integer(v as i128),
                _ => NP_JSON::Null,
            },
            NP_Parsed_Schema::Int32 => match get_at::<i32>(memory, at, schema) {
                Ok(Some(v)) => NP_JSON::Integer(v as i128),
                _ => NP_JSON::Null,
            },
            NP_Parsed_Schema::Int64 => match get_at::<i64>(memory, at, schema) {
                Ok(Some(v)) => NP_JSON::Integer(v as i128),
                _ => NP_JSON::Null,
            },
            NP_Parsed_Schema::Uint8 => match get_at::<u8>(memory, at, schema) {
                Ok(Some(v)) => NP_JSON::Integer(v as i128),
                _ => NP_JSON::Null,
            },
            NP_Parsed_Schema::Uint16 => match get_at::<u16>(memory, at, schema) {
                Ok(Some(v)) => NP_JSON::Integer(v as i128),
                _ => NP_JSON::Null,
            },
            NP_Parsed_Schema::Uint32 => match get_at::<u32>(memory, at, schema) {
                Ok(Some(v)) => NP_JSON::Integer(v as i128),
                _ => NP_JSON::Null,
            },
            NP_Parsed_Schema::Uint64 => match get_at::<u64>(memory, at, schema) {
                Ok(Some(v)) => NP_JSON::Integer(v as i128),
                _ => NP_JSON::Null,
            },
            NP_Parsed_Schema::Date => match get_at::<NP_Date>(memory, at, schema) {
                Ok(Some(d)) => NP_JSON::Integer(d.value as i128),
                _ => NP_JSON::Null,
            },
            NP_Parsed_Schema::UTF8String => match get_at::<String>(memory, at, schema) {
                Ok(Some(v)) => NP_JSON::String(v),
                _ => NP_JSON::Null,
            },
            NP_Parsed_Schema::Bytes => match get_at::<Vec<u8>>(memory, at, schema) {
                Ok(Some(v)) => json_of_bytes(&v),
                _ => NP_JSON::Null,
            },
        }
    }
}

/// Compaction never grows a buffer.
pub proof fn lemma_compacted_by_schema_len(schema: NP_Parsed_Schema, b: Seq<u8>)
    requires
        compacted_by_schema(schema, b) is Some,
    ensures
        compacted_by_schema(schema, b)->Some_0.len() <= b.len(),
{
    match schema {
        NP_Parsed_Schema::Boolean { .. } => law_compaction_preserves::<bool>(schema, b),
        NP_Parsed_Schema::Int8 => law_compaction_preserves::<i8>(schema, b),
        NP_Parsed_Schema::Int16 => law_compaction_preserves::<i16>(schema, b),
        NP_Parsed_Schema::Int32 => law_compaction_preserves::<i32>(schema, b),
        NP_Parsed_Schema::Int64 => law_compaction_preserves::<i64>(schema, b),
        NP_Parsed_Schema::Uint8 => law_compaction_preserves::<u8>(schema, b),
        NP_Parsed_Schema::Uint16 => law_compaction_preserves::<u16>(schema, b),
        NP_Parsed_Schema::Uint32 => law_compaction_preserves::<u32>(schema, b),
        NP_Parsed_Schema::Uint64 => law_compaction_preserves::<u64>(schema, b),
        NP_Parsed_Schema::Date => law_compaction_preserves::<NP_Date>(schema, b),
        NP_Parsed_Schema::UTF8String => law_compaction_preserves::<String>(schema, b),
        NP_Parsed_Schema::Bytes => law_compaction_preserves::<Vec<u8>>(schema, b),
    }
}

/// Sizes of a buffer: now, after a compaction, and the difference.
#[derive(Debug, Clone, Copy, PartialEq, Eq, Structural)]
pub struct NP_Size_Data {
    pub current_buffer: usize,
    pub after_compaction: usize,
    pub wasted_bytes: usize,
}

/// Holds a parsed schema and makes buffers for it.
#[derive(Debug, Clone, Copy)]
pub struct NP_Factory {
    pub schema: NP_Parsed_Schema,
}

/// A buffer: its bytes and the schema they follow.
pub struct NP_Buffer {
    pub schema: NP_Parsed_Schema,
    pub memory: NP_Memory,
}

impl NP_Factory {
    /// A factory for the schema that the JSON text `json_schema` describes.
    pub fn new(json_schema: &str) -> (r: Result<NP_Factory, NP_Error>)
        ensures
            forall|m: NP_Parsed_Schema|
                schema_json(m) == json_schema.spec_bytes() ==> (r matches Ok(f) && f.schema == m),
            r matches Err(e) ==> e == NP_Error::SchemaInvalid,
    {
        let schema = NP_Parsed_Schema::from_json(json_schema.as_bytes())?;
        Ok(NP_Factory { schema })
    }

    /// A factory for the schema whose compact byte form is `bytes`.
    pub fn new_compiled(bytes: &[u8]) -> (r: Result<NP_Factory, NP_Error>)
        ensures
            schema_from_bytes_spec(bytes@) matches Some(n) ==> (r matches Ok(f) && f.schema == n),
            schema_from_bytes_spec(bytes@) is None ==> r == Err::<NP_Factory, NP_Error>(
                NP_Error::SchemaInvalid,
            ),
    {
        let schema = NP_Parsed_Schema::from_bytes(bytes)?;
        Ok(NP_Factory { schema })
    }

    /// The schema's compact byte form.
    pub fn compile_schema(&self) -> (r: Vec<u8>)
        ensures
            r@ == schema_bytes(self.schema),
    {
        self.schema.to_bytes()
    }

    /// The schema's JSON text.
    pub fn export_schema(&self) -> (r: Vec<u8>)
        ensures
            r@ == schema_json(self.schema),
    {
        self.schema.to_json()
    }

    /// A buffer with nothing set.
    pub fn empty_buffer(&self) -> (r: NP_Buffer)
        ensures
            r.schema == self.schema,
            r.memory@ == empty_header(),
    {
        let memory = NP_Memory::new_empty();
        assert(memory@ =~= empty_header());
        NP_Buffer { schema: self.schema, memory }
    }

    /// A buffer over bytes made earlier.
    pub fn open_buffer(&self, bytes: Vec<u8>) -> (r: NP_Buffer)
        ensures
            r.schema == self.schema,
            r.memory@ == bytes@,
    {
        NP_Buffer { schema: self.schema, memory: NP_Memory::from_bytes(bytes) }
    }
}

impl NP_Buffer {
    /// Reads the value at `path` as `T`; the schema's default stands in when
    /// nothing is stored.
    pub fn get<T: NP_Value>(&self, path: &[&str]) -> (r: Result<Option<T>, NP_Error>)
        ensures
            path@.len() != 0 ==> r == Err::<Option<T>, NP_Error>(NP_Error::PathInvalid),
            path@.len() == 0 && T::spec_type_key() != type_key(self.schema) ==> r == Err::<
                Option<T>,
                NP_Error,
            >(NP_Error::TypeMismatch),
            path@.len() == 0 && T::spec_type_key() == type_key(self.schema) ==> match r {
                Ok(o) => root_value::<T>(self.schema, self.memory@) == Some(opt_view(o)),
                Err(e) => root_value::<T>(self.schema, self.memory@) is None && e == read_error_at::<
                    T,
                >(self.memory@, 0),
            },
    {
        if path.len() != 0 {
            return Err(NP_Error::PathInvalid);
        }
        if T::type_idx() != self.schema.get_type_key() {
            return Err(NP_Error::TypeMismatch);
        }
        get_root::<T>(&self.memory, &self.schema)
    }

    /// Writes `value` at `path`; on failure the buffer is left as it was.
    pub fn set<T: NP_Value>(&mut self, path: &[&str], value: T) -> (r: Result<(), NP_Error>)
        ensures
            final(self).schema == old(self).schema,
            path@.len() != 0 ==> r == Err::<(), NP_Error>(NP_Error::PathInvalid),
            path@.len() == 0 && T::spec_type_key() != type_key(old(self).schema) ==> r == Err::<
                (),
                NP_Error,
            >(NP_Error::TypeMismatch),
            path@.len() == 0 && T::spec_type_key() == type_key(old(self).schema) && !cell_writable(
                old(self).memory@,
                0,
            ) ==> r == Err::<(), NP_Error>(NP_Error::Corrupt),
            path@.len() == 0 && T::spec_type_key() == type_key(old(self).schema) && cell_writable(
                old(self).memory@,
                0,
            ) ==> match set_root_spec::<T>(
                old(self).memory@,
                value@,
            ) {
                Some(n) => r is Ok && final(self).memory@ == n,
                None => r == Err::<(), NP_Error>(NP_Error::OutOfSpace),
            },
            r is Err ==> final(self).memory@ == old(self).memory@,
    {
        if path.len() != 0 {
            return Err(NP_Error::PathInvalid);
        }
        if T::type_idx() != self.schema.get_type_key() {
            return Err(NP_Error::TypeMismatch);
        }
        if self.memory.len() < HEADER_SIZE {
            return Err(NP_Error::Corrupt);
        }
        set_root::<T>(&mut self.memory, &value)
    }

    /// Clears the value at `path`; later reads give the schema's default.
    pub fn del(&mut self, path: &[&str]) -> (r: Result<(), NP_Error>)
        ensures
            final(self).schema == old(self).schema,
            path@.len() != 0 ==> r == Err::<(), NP_Error>(NP_Error::PathInvalid) && final(self).memory@ == old(self).memory@,
            path@.len() == 0 && old(self).memory@.len() >= HEADER_SIZE ==> r is Ok && final(self).memory@ == deleted(old(self).memory@),
            path@.len() == 0 && old(self).memory@.len() < HEADER_SIZE ==> r == Err::<(), NP_Error>(
                NP_Error::Corrupt,
            ) && final(self).memory@ == old(self).memory@,
    {
        if path.len() != 0 {
            return Err(NP_Error::PathInvalid);
        }
        del_root(&mut self.memory)
    }

    /// Writes the zero value of the schema's type at `path`.
    pub fn set_default(&mut self, path: &[&str]) -> (r: Result<(), NP_Error>)
        ensures
            final(self).schema == old(self).schema,
            path@.len() != 0 ==> r == Err::<(), NP_Error>(NP_Error::PathInvalid),
            path@.len() == 0 && !cell_writable(old(self).memory@, 0) ==> r == Err::<(), NP_Error>(
                NP_Error::Corrupt,
            ),
            path@.len() == 0 && cell_writable(old(self).memory@, 0) ==> match set_default_spec(
                old(self).schema,
                old(self).memory@,
            ) {
                Some(n) => r is Ok && final(self).memory@ == n,
                None => r == Err::<(), NP_Error>(NP_Error::OutOfSpace),
            },
            r is Err ==> final(self).memory@ == old(self).memory@,
    {
        if path.len() != 0 {
            return Err(NP_Error::PathInvalid);
        }
        if self.memory.len() < HEADER_SIZE {
            return Err(NP_Error::Corrupt);
        }
        let cursor = NP_Cursor::parse(0, 0, 0, NP_Parent::Root, &self.memory)?;
        NP_Cursor::set_default(&cursor, &mut self.memory, &self.schema)
    }

    /// Rewrites the buffer with only what its root reaches; on failure
    /// (corrupt bytes, or stored text that is not UTF-8) the buffer is left
    /// as it was.
    pub fn compact(&mut self) -> (r: Result<(), NP_Error>)
        ensures
            final(self).schema == old(self).schema,
            match compacted_by_schema(old(self).schema, old(self).memory@) {
                Some(n) => r is Ok && final(self).memory@ == n,
                None => r == Err::<(), NP_Error>(
                    compact_error_by_schema_at(old(self).schema, old(self).memory@, 0),
                ) && final(self).memory@ == old(self).memory@,
            },
    {
        let mut to = NP_Memory::new_empty();
        assert(to@ =~= empty_header());
        let cursor = NP_Cursor::root();
        match NP_Cursor::compact(&cursor, &self.memory, &mut to, &self.schema) {
            Ok(()) => {
                self.memory = to;
                Ok(())
            },
            Err(e) => Err(e),
        }
    }

    /// The buffer's size now, after a compaction, and the difference.
    pub fn calc_bytes(&self) -> (r: Result<NP_Size_Data, NP_Error>)
        ensures
            match compacted_by_schema(self.schema, self.memory@) {
                Some(n) => r matches Ok(d) && d.current_buffer == self.memory@.len()
                    && d.after_compaction == n.len() && d.wasted_bytes == self.memory@.len()
                    - n.len(),
                None => r == Err::<NP_Size_Data, NP_Error>(NP_Error::Corrupt),
            },
    {
        let mut to = NP_Memory::new_empty();
        assert(to@ =~= empty_header());
        let cursor = NP_Cursor::root();
        match NP_Cursor::compact(&cursor, &self.memory, &mut to, &self.schema) {
            Ok(()) => {
                proof {
                    lemma_compacted_by_schema_len(self.schema, self.memory@);
                }
                let current = self.memory.len();
                let after = to.len();
                Ok(NP_Size_Data {
                    current_buffer: current,
                    after_compaction: after,
                    wasted_bytes: current - after,
                })
            },
            Err(_) => Err(NP_Error::Corrupt),
        }
    }

    /// The buffer's value as JSON, defaults applied.
    pub fn json_encode(&self) -> (r: NP_JSON)
        ensures
            json_of_root(self.schema, self.memory@, r),
    {
        let cursor = NP_Cursor::root();
        NP_Cursor::json_encode(&cursor, &self.memory, &self.schema)
    }

    /// A copy of the buffer's bytes.
    pub fn read_bytes(&self) -> (r: Vec<u8>)
        ensures
            r@ == self.memory@,
    {
        self.memory.read_bytes()
    }

    /// Gives up the buffer, returning its bytes.
    pub fn close(self) -> (r: Vec<u8>)
        ensures
            r@ == self.memory@,
    {
        self.memory.into_bytes()
    }
}

} // verus!
