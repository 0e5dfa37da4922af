//! In-place binary serialization: typed values laid out in a byte buffer
//! whose shape follows a schema, readable and writable without re-encoding.
#![allow(non_camel_case_types)]
#![allow(non_snake_case)]

pub mod buffer;
pub mod cursor;
pub mod encoding;
pub mod error;
pub mod hash;
pub mod json;
pub mod json_value;
pub mod laws;
pub mod list;
pub mod map;
pub mod memory;
pub mod pointer;
pub mod schema;
pub mod table;
pub mod value;
