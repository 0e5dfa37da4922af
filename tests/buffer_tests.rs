use no_proto::buffer::{NP_Factory, NP_JSON};
use no_proto::error::NP_Error;
use no_proto::cursor::{NP_Cursor, NP_Cursor_Addr, NP_Cursor_Data};
use no_proto::memory::NP_Memory;
use no_proto::pointer::{parse_cursor_value, NP_Cell, NP_List_Bytes, NP_Parent, NP_Pointer_Bytes, NP_Pointer_Map_Item, NP_Vtable};
use no_proto::schema::NP_Parsed_Schema;
use no_proto::value::NP_Date;

fn factory(schema: &str) -> NP_Factory {
    NP_Factory::new(schema).unwrap()
}

#[test]
fn bool_default_set_and_delete() {
    let f = factory("{\"type\":\"bool\",\"default\":false}");
    let mut b = f.empty_buffer();
    assert_eq!(b.get::<bool>(&[]).unwrap(), Some(false));
    b.set(&[], true).unwrap();
    assert_eq!(b.get::<bool>(&[]).unwrap(), Some(true));
    b.del(&[]).unwrap();
    assert_eq!(b.get::<bool>(&[]).unwrap(), Some(false));
}

#[test]
fn bool_default_true_schema() {
    let f = factory("{\"type\":\"bool\",\"default\":true}");
    assert_eq!(f.schema, NP_Parsed_Schema::Boolean { default: Some(true) });
    let b = f.empty_buffer();
    assert_eq!(b.get::<bool>(&[]).unwrap(), Some(true));
}

#[test]
fn integer_round_trips() {
    let mut b = factory("{\"type\":\"i64\"}").empty_buffer();
    b.set(&[], -1234567890123i64).unwrap();
    assert_eq!(b.get::<i64>(&[]).unwrap(), Some(-1234567890123i64));

    let mut b = factory("{\"type\":\"u32\"}").empty_buffer();
    b.set(&[], 4000000000u32).unwrap();
    assert_eq!(b.get::<u32>(&[]).unwrap(), Some(4000000000u32));

    let mut b = factory("{\"type\":\"i8\"}").empty_buffer();
    b.set(&[], i8::MIN).unwrap();
    assert_eq!(b.get::<i8>(&[]).unwrap(), Some(i8::MIN));

    let mut b = factory("{\"type\":\"u64\"}").empty_buffer();
    b.set(&[], u64::MAX).unwrap();
    assert_eq!(b.get::<u64>(&[]).unwrap(), Some(u64::MAX));
}

#[test]
fn integer_encodings_are_exact() {
    let mut b = factory("{\"type\":\"u16\"}").empty_buffer();
    b.set(&[], 0x1234u16).unwrap();
    assert_eq!(b.read_bytes(), vec![0, 4, 0, 0, 0x12, 0x34]);

    let mut b = factory("{\"type\":\"i16\"}").empty_buffer();
    b.set(&[], -2i16).unwrap();
    assert_eq!(b.read_bytes(), vec![0, 4, 0, 0, 0x7f, 0xfe]);

    let mut b = factory("{\"type\":\"bool\"}").empty_buffer();
    b.set(&[], true).unwrap();
    assert_eq!(b.read_bytes(), vec![0, 4, 0, 0, 1]);
}

#[test]
fn fixed_size_set_overwrites_in_place() {
    let mut b = factory("{\"type\":\"u32\"}").empty_buffer();
    b.set(&[], 7u32).unwrap();
    let len = b.calc_bytes().unwrap().current_buffer;
    b.set(&[], 7u32).unwrap();
    assert_eq!(b.calc_bytes().unwrap().current_buffer, len);
    b.set(&[], 9u32).unwrap();
    assert_eq!(b.calc_bytes().unwrap().current_buffer, len);
    assert_eq!(b.get::<u32>(&[]).unwrap(), Some(9));
}

#[test]
fn sortable_signed_encoding() {
    let values: [i16; 5] = [i16::MIN, -300, -1, 0, 300];
    let mut encoded: Vec<Vec<u8>> = Vec::new();
    for v in values.iter() {
        let mut b = factory("{\"type\":\"i16\"}").empty_buffer();
        b.set(&[], *v).unwrap();
        encoded.push(b.read_bytes()[4..].to_vec());
    }
    for i in 0..values.len() {
        for j in 0..values.len() {
            assert_eq!(encoded[i] < encoded[j], values[i] < values[j]);
        }
    }
}

#[test]
fn string_compaction_shrinks() {
    let mut b = factory("{\"type\":\"string\"}").empty_buffer();
    b.set(&[], String::from("hello world")).unwrap();
    b.set(&[], String::from("hi")).unwrap();
    let before = b.calc_bytes().unwrap();
    assert!(before.current_buffer >= 4 + 4 + 11 + 4 + 2);
    assert_eq!(before.after_compaction, 10);
    b.compact().unwrap();
    assert_eq!(b.get::<String>(&[]).unwrap(), Some(String::from("hi")));
    assert_eq!(b.calc_bytes().unwrap().current_buffer, 2 + 2 + 4 + 2);
}

#[test]
fn compaction_keeps_values() {
    let mut b = factory("{\"type\":\"bytes\"}").empty_buffer();
    b.set(&[], vec![1u8, 2, 3]).unwrap();
    b.set(&[], vec![9u8]).unwrap();
    let before = b.get::<Vec<u8>>(&[]).unwrap();
    let size = b.calc_bytes().unwrap().current_buffer;
    b.compact().unwrap();
    assert_eq!(b.get::<Vec<u8>>(&[]).unwrap(), before);
    assert!(b.calc_bytes().unwrap().current_buffer <= size);
    assert_eq!(b.read_bytes(), vec![0, 4, 0, 0, 0, 0, 0, 1, 9]);
}

#[test]
fn wasted_bytes_reported() {
    let mut b = factory("{\"type\":\"bytes\"}").empty_buffer();
    b.set(&[], vec![1u8, 2, 3]).unwrap();
    b.set(&[], vec![4u8, 5]).unwrap();
    let d = b.calc_bytes().unwrap();
    assert_eq!(d.current_buffer, 4 + 7 + 6);
    assert_eq!(d.after_compaction, 4 + 6);
    assert_eq!(d.wasted_bytes, 7);
}

#[test]
fn overflow_fails_cleanly() {
    let mut b = factory("{\"type\":\"bytes\"}").empty_buffer();
    let mut pushes = 0usize;
    loop {
        let payload = vec![7u8; 1024 + pushes % 2];
        let before = b.read_bytes();
        match b.set(&[], payload.clone()) {
            Ok(()) => pushes += 1,
            Err(e) => {
                assert_eq!(e, NP_Error::OutOfSpace);
                assert_eq!(b.read_bytes(), before);
                assert!(before.len() + 4 + payload.len() > 65535);
                break;
            }
        }
    }
    assert!(pushes > 60);
    assert_eq!(b.get::<Vec<u8>>(&[]).unwrap(), Some(vec![7u8; 1024 + (pushes - 1) % 2]));
}

#[test]
fn same_value_twice_keeps_size() {
    let mut b = factory("{\"type\":\"string\"}").empty_buffer();
    b.set(&[], String::from("hello")).unwrap();
    let once = b.read_bytes();
    b.set(&[], String::from("hello")).unwrap();
    assert_eq!(b.read_bytes(), once);
    b.set(&[], String::from("world")).unwrap();
    assert_eq!(b.read_bytes().len(), once.len());
    assert_eq!(b.get::<String>(&[]).unwrap(), Some(String::from("world")));
    b.set(&[], String::from("hi")).unwrap();
    assert_eq!(b.read_bytes().len(), once.len() + 4 + 2);
    let mut e = factory("{\"type\":\"string\"}").empty_buffer();
    e.set(&[], String::new()).unwrap();
    let size = e.calc_bytes().unwrap().current_buffer;
    e.set(&[], String::new()).unwrap();
    assert_eq!(e.calc_bytes().unwrap().current_buffer, size);
}

#[test]
fn compaction_reports_bad_text() {
    let f = factory("{\"type\":\"string\"}");
    let mut b = f.open_buffer(vec![0, 4, 0, 0, 0, 0, 0, 2, 0xc3, 0x28]);
    assert_eq!(b.compact(), Err(NP_Error::Utf8));
    let mut b = f.open_buffer(vec![0, 4, 0, 0, 0, 0, 0, 9, 0xc3, 0x28]);
    assert_eq!(b.compact(), Err(NP_Error::Corrupt));
    assert_eq!(b.get::<String>(&[]), Err(NP_Error::Corrupt));
}

#[test]
fn errors_for_path_and_type() {
    let mut b = factory("{\"type\":\"bool\"}").empty_buffer();
    assert_eq!(b.get::<bool>(&["a"]), Err(NP_Error::PathInvalid));
    assert_eq!(b.set(&["a"], true), Err(NP_Error::PathInvalid));
    assert_eq!(b.del(&["a"]), Err(NP_Error::PathInvalid));
    assert_eq!(b.get::<u8>(&[]), Err(NP_Error::TypeMismatch));
    assert_eq!(b.set(&[], 1u8), Err(NP_Error::TypeMismatch));
    assert_eq!(b.read_bytes(), vec![0, 0, 0, 0]);
}

#[test]
fn loaded_buffers_never_panic() {
    let f = factory("{\"type\":\"u32\"}");
    let b = f.open_buffer(vec![0, 9, 0, 0]);
    assert_eq!(b.get::<u32>(&[]), Err(NP_Error::Corrupt));
    let b = f.open_buffer(vec![0, 1, 0, 0, 0, 0, 0, 0]);
    assert_eq!(b.get::<u32>(&[]), Err(NP_Error::Corrupt));
    let b = f.open_buffer(vec![0]);
    assert_eq!(b.get::<u32>(&[]), Err(NP_Error::Corrupt));
    let mut b = f.open_buffer(vec![]);
    assert_eq!(b.set(&[], 3u32), Err(NP_Error::Corrupt));
    assert_eq!(b.compact(), Err(NP_Error::Corrupt));
    let mut b = f.open_buffer(vec![0xff, 0xff, 0, 0, 1]);
    assert_eq!(b.get::<u32>(&[]), Err(NP_Error::Corrupt));
    assert_eq!(b.set(&[], 5u32), Err(NP_Error::Corrupt));
    assert_eq!(b.read_bytes(), vec![0xff, 0xff, 0, 0, 1]);
    let mut b = f.open_buffer(vec![0, 2, 0, 0, 1]);
    assert_eq!(b.set(&[], 5u32), Err(NP_Error::Corrupt));
    let mut b = f.open_buffer(vec![0, 4, 0, 0, 1]);
    assert_eq!(b.get::<u32>(&[]), Err(NP_Error::Corrupt));
    b.set(&[], 5u32).unwrap();
    assert_eq!(b.get::<u32>(&[]).unwrap(), Some(5));
}

#[test]
fn invalid_utf8_is_reported() {
    let f = factory("{\"type\":\"string\"}");
    let b = f.open_buffer(vec![0, 4, 0, 0, 0, 0, 0, 2, 0xc3, 0x28]);
    assert_eq!(b.get::<String>(&[]), Err(NP_Error::Utf8));
    let b = f.open_buffer(vec![0, 4, 0, 0, 0, 0, 0, 2, 0xc3, 0xa9]);
    assert_eq!(b.get::<String>(&[]).unwrap(), Some(String::from("\u{e9}")));
}

#[test]
fn invalid_schemas_are_refused() {
    assert_eq!(NP_Factory::new("{\"type\":\"float\"}").err(), Some(NP_Error::SchemaInvalid));
    assert_eq!(NP_Factory::new("{\"kind\":\"u8\"}").err(), Some(NP_Error::SchemaInvalid));
    assert_eq!(NP_Factory::new("[\"u8\"]").err(), Some(NP_Error::SchemaInvalid));
    assert_eq!(NP_Factory::new("{\"type\":7}").err(), Some(NP_Error::SchemaInvalid));
    assert_eq!(NP_Factory::new("{\"type\":\"u8\"} x").err(), Some(NP_Error::SchemaInvalid));
    assert_eq!(NP_Factory::new("{\"type\":\"bool\"").err(), Some(NP_Error::SchemaInvalid));
    assert_eq!(NP_Factory::new("").err(), Some(NP_Error::SchemaInvalid));
    assert_eq!(NP_Factory::new_compiled(&[15, 3]).err(), Some(NP_Error::SchemaInvalid));
    assert_eq!(NP_Factory::new_compiled(&[99]).err(), Some(NP_Error::SchemaInvalid));
}

#[test]
fn schema_json_round_trip() {
    for s in [
        "{\"type\":\"bool\"}",
        "{\"type\":\"bool\",\"default\":true}",
        "{\"type\":\"i8\"}",
        "{\"type\":\"i16\"}",
        "{\"type\":\"i32\"}",
        "{\"type\":\"i64\"}",
        "{\"type\":\"u8\"}",
        "{\"type\":\"u16\"}",
        "{\"type\":\"u32\"}",
        "{\"type\":\"u64\"}",
        "{\"type\":\"string\"}",
        "{\"type\":\"bytes\"}",
    ] {
        let f = factory(s);
        assert_eq!(String::from_utf8(f.export_schema()).unwrap(), s);
    }
}

#[test]
fn schema_bytes_round_trip() {
    let f = factory("{\"type\":\"bool\",\"default\":false}");
    let bytes = f.compile_schema();
    assert_eq!(bytes, vec![15, 2]);
    let g = NP_Factory::new_compiled(&bytes).unwrap();
    assert_eq!(g.schema, f.schema);
    let f = factory("{\"type\":\"u16\"}");
    assert_eq!(f.compile_schema(), vec![9]);
    assert_eq!(NP_Factory::new_compiled(&[9]).unwrap().schema, NP_Parsed_Schema::Uint16);
}

#[test]
fn json_encode_values() {
    let f = factory("{\"type\":\"bool\",\"default\":true}");
    let b = f.empty_buffer();
    assert!(matches!(b.json_encode(), NP_JSON::True));
    let mut b = factory("{\"type\":\"i32\"}").empty_buffer();
    assert!(matches!(b.json_encode(), NP_JSON::Null));
    b.set(&[], -5i32).unwrap();
    assert!(matches!(b.json_encode(), NP_JSON::Integer(-5)));
    let mut b = factory("{\"type\":\"string\"}").empty_buffer();
    b.set(&[], String::from("hi")).unwrap();
    match b.json_encode() {
        NP_JSON::String(s) => assert_eq!(s, "hi"),
        other => panic!("unexpected {:?}", other),
    }
    let mut b = factory("{\"type\":\"bytes\"}").empty_buffer();
    b.set(&[], vec![3u8, 4]).unwrap();
    match b.json_encode() {
        NP_JSON::Array(a) => {
            assert_eq!(a.len(), 2);
            assert!(matches!(a[1], NP_JSON::Integer(4)));
        }
        other => panic!("unexpected {:?}", other),
    }
}

#[test]
fn set_default_writes_zero_values() {
    let mut b = factory("{\"type\":\"u8\"}").empty_buffer();
    b.set_default(&[]).unwrap();
    assert_eq!(b.get::<u8>(&[]).unwrap(), Some(0));
    let mut b = factory("{\"type\":\"string\"}").empty_buffer();
    b.set_default(&[]).unwrap();
    assert_eq!(b.get::<String>(&[]).unwrap(), Some(String::new()));
    let mut b = factory("{\"type\":\"bool\",\"default\":true}").empty_buffer();
    b.set_default(&[]).unwrap();
    assert_eq!(b.get::<bool>(&[]).unwrap(), Some(false));
}

#[test]
fn close_returns_bytes() {
    let mut b = factory("{\"type\":\"u8\"}").empty_buffer();
    b.set(&[], 200u8).unwrap();
    let bytes = b.close();
    assert_eq!(bytes, vec![0, 4, 0, 0, 200]);
    let f = factory("{\"type\":\"u8\"}");
    assert_eq!(f.open_buffer(bytes).get::<u8>(&[]).unwrap(), Some(200));
}

#[test]
fn cursor_parse_size_and_reset() {
    let schema = NP_Parsed_Schema::Uint16;
    let mut b = factory("{\"type\":\"u16\"}").empty_buffer();
    let empty = NP_Memory::from_bytes(b.read_bytes());
    let c = NP_Cursor::parse(0, 0, 0, NP_Parent::Root, &empty).unwrap();
    assert_eq!(NP_Cursor::calc_size(&c, &empty, &schema), Ok(2));
    b.set(&[], 513u16).unwrap();
    let m = NP_Memory::from_bytes(b.read_bytes());
    let mut c = NP_Cursor::parse(0, 0, 0, NP_Parent::Root, &m).unwrap();
    assert_eq!(c.value.get_addr_value(), 4);
    assert_eq!(c.get_addr(), NP_Cursor_Addr::Real(0));
    assert_eq!(NP_Cursor::calc_size(&c, &m, &schema), Ok(4));
    c.reset();
    assert_eq!(c.data, NP_Cursor_Data::Empty);
    assert_eq!(c.value.get_addr_value(), 0);
    assert_eq!(c.get_addr(), NP_Cursor_Addr::Virtual);
    assert!(NP_Cursor::parse(5, 0, 0, NP_Parent::Root, &m).is_err());
    assert!(NP_Cursor::parse(4, 0, 0, NP_Parent::Root, &m).is_ok());
}

#[test]
fn pointer_cells_are_big_endian() {
    let mut l = NP_List_Bytes::new();
    l.set_head(0x0102);
    l.set_tail(0x0304);
    assert_eq!(l.head, [1, 2]);
    assert_eq!((l.get_head(), l.get_tail()), (0x0102, 0x0304));
    let mut v = NP_Vtable::new();
    v.set_next(0xabcd);
    assert_eq!(v.next, [0xab, 0xcd]);
    assert_eq!(v.get_next(), 0xabcd);
    let mut m = NP_Pointer_Map_Item { addr_value: [0, 0], next_value: [0, 0], key_hash: [0; 4] };
    m.set_key_hash(0x11223344);
    assert_eq!(m.key_hash, [0x11, 0x22, 0x33, 0x44]);
    assert_eq!(m.get_key_hash(), 0x11223344);
    m.set_addr_value(7);
    assert_eq!(m.get_size(), 8);
    m.reset();
    assert_eq!(m.get_addr_value(), 0);
}

#[test]
fn date_round_trip_and_schema() {
    let f = factory("{\"type\":\"date\"}");
    assert_eq!(f.schema, NP_Parsed_Schema::Date);
    assert_eq!(f.compile_schema(), vec![19]);
    assert_eq!(String::from_utf8(f.export_schema()).unwrap(), "{\"type\":\"date\"}");
    let mut b = f.empty_buffer();
    assert_eq!(b.get::<NP_Date>(&[]).unwrap(), None);
    b.set(&[], NP_Date { value: 1_604_965_249_484 }).unwrap();
    assert_eq!(b.get::<NP_Date>(&[]).unwrap(), Some(NP_Date { value: 1_604_965_249_484 }));
    assert_eq!(b.get::<u64>(&[]), Err(NP_Error::TypeMismatch));
    assert!(matches!(b.json_encode(), NP_JSON::Integer(1_604_965_249_484)));
    assert_eq!(b.calc_bytes().unwrap().current_buffer, 4 + 8);
}

#[test]
fn schema_json_any_layout() {
    assert_eq!(factory("{\"type\": \"bool\"}").schema, NP_Parsed_Schema::Boolean { default: None });
    assert_eq!(
        factory(" { \"default\" : true ,\n \"type\":\"bool\" } ").schema,
        NP_Parsed_Schema::Boolean { default: Some(true) }
    );
    assert_eq!(
        factory("{\"type\":\"u8\",\"default\":true,\"extra\":[1,{\"a\":null}]}").schema,
        NP_Parsed_Schema::Uint8
    );
    assert_eq!(factory("{\"type\":\"bool\",\"default\":\"yes\"}").schema, NP_Parsed_Schema::Boolean { default: None });
    assert_eq!(factory("{\"typ\":\"u8\",\"type\":\"i8\",\"type\":\"u8\"}").schema, NP_Parsed_Schema::Int8);
}

#[test]
fn cell_shape_follows_parent() {
    let m = NP_Memory::from_bytes(vec![0, 0, 0, 0, 0, 9, 0, 12, 3, 0, 0, 0, 0]);
    match parse_cursor_value(4, 0, NP_Parent::List, &m).unwrap() {
        NP_Cell::Scalar(p) => assert_eq!(p.addr_value, [0, 9]),
        other => panic!("unexpected {:?}", other),
    }
    match parse_cursor_value(4, 1, NP_Parent::List, &m).unwrap() {
        NP_Cell::ListItem(p) => {
            assert_eq!(p.get_addr_value(), 9);
            assert_eq!(p.get_next_addr(), 12);
            assert_eq!(p.index, 3);
        }
        other => panic!("unexpected {:?}", other),
    }
    assert!(matches!(parse_cursor_value(4, 1, NP_Parent::Dict, &m).unwrap(), NP_Cell::MapItem(_)));
    assert!(matches!(parse_cursor_value(4, 1, NP_Parent::Table, &m).unwrap(), NP_Cell::Scalar(_)));
    assert_eq!(parse_cursor_value(6, 1, NP_Parent::Dict, &m).err(), Some(NP_Error::Corrupt));
    assert_eq!(parse_cursor_value(9, 1, NP_Parent::List, &m).err(), Some(NP_Error::Corrupt));
    assert!(parse_cursor_value(8, 1, NP_Parent::List, &m).is_ok());
    assert_eq!(NP_Cursor::parse(9, 0, 1, NP_Parent::List, &m).err(), Some(NP_Error::Corrupt));
}

#[test]
fn cursor_operations_on_inner_cells() {
    let schema = NP_Parsed_Schema::Uint16;
    // a cell at 4 pointing at a u16 at 6
    let mut m = NP_Memory::from_bytes(vec![0, 0, 0, 0, 0, 6, 0x01, 0x02]);
    let c = NP_Cursor::parse(4, 0, 0, NP_Parent::Root, &m).unwrap();
    assert_eq!(NP_Cursor::calc_size(&c, &m, &schema), Ok(4));
    assert!(matches!(NP_Cursor::json_encode(&c, &m, &schema), NP_JSON::Integer(258)));
    let mut to = NP_Memory::new_empty();
    NP_Cursor::compact(&c, &m, &mut to, &schema).unwrap();
    assert_eq!(to.read_bytes(), vec![0, 4, 0, 0, 0x01, 0x02]);
    NP_Cursor::set_default(&c, &mut m, &schema).unwrap();
    assert_eq!(m.read_bytes(), vec![0, 0, 0, 0, 0, 6, 0, 0]);
    let v = NP_Cursor::new_virtual();
    assert_eq!(NP_Cursor::calc_size(&v, &m, &schema), Ok(0));
    let far = NP_Cursor::parse(6, 0, 0, NP_Parent::Root, &m).unwrap();
    assert_eq!(NP_Cursor::set_default(&far, &mut NP_Memory::from_bytes(vec![0, 0, 0]), &schema), Err(NP_Error::Corrupt));
}
