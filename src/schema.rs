//! Parsed schema nodes and their compact byte form.
use vstd::prelude::*;
use crate::error::NP_Error;

verus! {

/// One parsed schema node. A buffer's root value has this type.
#[derive(Debug, Clone, Copy, PartialEq, Eq, Structural)]
pub enum NP_Parsed_Schema {
    Boolean { default: Option<bool> },
    Int8,
    Int16,
    Int32,
    Int64,
    Uint8,
    Uint16,
    Uint32,
    Uint64,
    Date,
    UTF8String,
    Bytes,
}

/// The one-byte tag that marks a node's type on disk.
pub open spec fn type_key(n: NP_Parsed_Schema) -> u8 {
    match n {
        NP_Parsed_Schema::UTF8String => 2,
        NP_Parsed_Schema::Bytes => 3,
        NP_Parsed_Schema::Int8 => 4,
        NP_Parsed_Schema::Int16 => 5,
        NP_Parsed_Schema::Int32 => 6,
        NP_Parsed_Schema::Int64 => 7,
        NP_Parsed_Schema::Uint8 => 8,
        NP_Parsed_Schema::Uint16 => 9,
        NP_Parsed_Schema::Uint32 => 10,
        NP_Parsed_Schema::Uint64 => 11,
        NP_Parsed_Schema::Boolean { .. } => 15,
        NP_Parsed_Schema::Date => 19,
    }
}

/// Whether byte order of the encoded form is the order of the values.
pub open spec fn is_sortable(n: NP_Parsed_Schema) -> bool {
    !(n is UTF8String || n is Bytes)
}

/// The byte that records a bool default: none, true, false.
pub open spec fn bool_default_byte(d: Option<bool>) -> u8 {
    match d {
        None => 0,
        Some(true) => 1,
        Some(false) => 2,
    }
}

/// The compact byte form of a node.
pub open spec fn schema_bytes(n: NP_Parsed_Schema) -> Seq<u8> {
    match n {
        NP_Parsed_Schema::Boolean { default } => seq![15u8, bool_default_byte(default)],
        _ => seq![type_key(n)],
    }
}

/// The node with a given tag and no options, if the tag names a type without options.
pub open spec fn plain_of_key(k: u8) -> Option<NP_Parsed_Schema> {
    if k == 2 {
        Some(NP_Parsed_Schema::UTF8String)
    } else if k == 3 {
        Some(NP_Parsed_Schema::Bytes)
    } else if k == 4 {
        Some(NP_Parsed_Schema::Int8)
    } else if k == 5 {
        Some(NP_Parsed_Schema::Int16)
    } else if k == 6 {
        Some(NP_Parsed_Schema::Int32)
    } else if k == 7 {
        Some(NP_Parsed_Schema::Int64)
    } else if k == 8 {
        Some(NP_Parsed_Schema::Uint8)
    } else if k == 9 {
        Some(NP_Parsed_Schema::Uint16)
    } else if k == 10 {
        Some(NP_Parsed_Schema::Uint32)
    } else if k == 11 {
        Some(NP_Parsed_Schema::Uint64)
    } else if k == 19 {
        Some(NP_Parsed_Schema::Date)
    } else {
        None
    }
}

/// The node that a compact byte form describes, if any.
pub open spec fn schema_from_bytes_spec(b: Seq<u8>) -> Option<NP_Parsed_Schema> {
    if b.len() == 2 && b[0] == 15 && b[1] <= 2 {
        Some(
            NP_Parsed_Schema::Boolean {
                default: if b[1] == 0 {
                    None
                } else {
                    Some(b[1] == 1)
                },
            },
        )
    } else if b.len() == 1 {
        plain_of_key(b[0])
    } else {
        None
    }
}

/// Reading back the compact byte form of a node gives the node.
pub proof fn law_schema_bytes_round_trip(n: NP_Parsed_Schema)
    ensures
        schema_from_bytes_spec(schema_bytes(n)) == Some(n),
{
}

impl NP_Parsed_Schema {
    /// The node's tag.
    pub fn get_type_key(&self) -> (r: u8)
        ensures
            r == type_key(*self),
    {
        match self {
            NP_Parsed_Schema::UTF8String => 2,
            NP_Parsed_Schema::Bytes => 3,
            NP_Parsed_Schema::Int8 => 4,
            NP_Parsed_Schema::Int16 => 5,
            NP_Parsed_Schema::Int32 => 6,
            NP_Parsed_Schema::Int64 => 7,
            NP_Parsed_Schema::Uint8 => 8,
            NP_Parsed_Schema::Uint16 => 9,
            NP_Parsed_Schema::Uint32 => 10,
            NP_Parsed_Schema::Uint64 => 11,
            NP_Parsed_Schema::Boolean { .. } => 15,
            NP_Parsed_Schema::Date => 19,
        }
    }

    /// Whether the node's encoding sorts as its values do.
    pub fn sortable(&self) -> (r: bool)
        ensures
            r == is_sortable(*self),
    {
        match self {
            NP_Parsed_Schema::UTF8String => false,
            NP_Parsed_Schema::Bytes => false,
            _ => true,
        }
    }

    /// The compact byte form.
    pub fn to_bytes(&self) -> (r: Vec<u8>)
        ensures
            r@ == schema_bytes(*self),
    {
        let k = self.get_type_key();
        match self {
            NP_Parsed_Schema::Boolean { default } => {
                let d: u8 = match default {
                    None => 0,
                    Some(true) => 1,
                    Some(false) => 2,
                };
                let r = vec![k, d];
                assert(r@ =~= schema_bytes(*self));
                r
            },
            _ => {
                let r = vec![k];
                assert(r@ =~= schema_bytes(*self));
                r
            },
        }
    }

    /// Reads a node from its compact byte form.
    pub fn from_bytes(b: &[u8]) -> (r: Result<NP_Parsed_Schema, NP_Error>)
        ensures
            schema_from_bytes_spec(b@) matches Some(n) ==> r == Ok::<NP_Parsed_Schema, NP_Error>(
                n,
            ),
            schema_from_bytes_spec(b@) is None ==> r == Err::<NP_Parsed_Schema, NP_Error>(
                NP_Error::SchemaInvalid,
            ),
    {
        if b.len() == 2 && b[0] == 15 && b[1] <= 2 {
            let d = if b[1] == 0 {
                None
            } else {
                Some(b[1] == 1)
            };
            Ok(NP_Parsed_Schema::Boolean { default: d })
        } else if b.len() == 1 {
            let k = b[0];
            if k == 2 {
                Ok(NP_Parsed_Schema::UTF8String)
            } else if k == 3 {
                Ok(NP_Parsed_Schema::Bytes)
            } else if k == 4 {
                Ok(NP_Parsed_Schema::Int8)
            } else if k == 5 {
                Ok(NP_Parsed_Schema::Int16)
            } else if k == 6 {
                Ok(NP_Parsed_Schema::Int32)
            } else if k == 7 {
                Ok(NP_Parsed_Schema::Int64)
            } else if k == 8 {
                Ok(NP_Parsed_Schema::Uint8)
            } else if k == 9 {
                Ok(NP_Parsed_Schema::Uint16)
            } else if k == 10 {
                Ok(NP_Parsed_Schema::Uint32)
            } else if k == 11 {
                Ok(NP_Parsed_Schema::Uint64)
            } else if k == 19 {
                Ok(NP_Parsed_Schema::Date)
            } else {
                Err(NP_Error::SchemaInvalid)
            }
        } else {
            Err(NP_Error::SchemaInvalid)
        }
    }
}

} // verus!
