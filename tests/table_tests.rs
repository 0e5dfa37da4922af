use no_proto::error::NP_Error;
use no_proto::memory::NP_Memory;
use no_proto::table::{table_get, table_new, table_set};

#[test]
fn table_round_trip() {
    let mut m = NP_Memory::new_empty();
    let t = table_new(&mut m).unwrap();
    assert_eq!(t, 4);
    table_set(&mut m, t, 0, &42u32).unwrap();
    table_set(&mut m, t, 1, &String::from("hi")).unwrap();
    table_set(&mut m, t, 2, &true).unwrap();
    assert_eq!(m.len(), 4 + 10 + 4 + (4 + 2) + 1);
    assert_eq!(table_get::<u32>(&m, t, 0).unwrap(), Some(42));
    assert_eq!(table_get::<String>(&m, t, 1).unwrap(), Some(String::from("hi")));
    assert_eq!(table_get::<bool>(&m, t, 2).unwrap(), Some(true));
    assert_eq!(table_get::<bool>(&m, t, 3).unwrap(), None);
}

#[test]
fn table_grows_vtables_on_demand() {
    let mut m = NP_Memory::new_empty();
    let t = table_new(&mut m).unwrap();
    assert_eq!(table_get::<u8>(&m, t, 9).unwrap(), None);
    let before = m.len();
    table_set(&mut m, t, 9, &7u8).unwrap();
    assert_eq!(m.len(), before + 10 + 10 + 1);
    assert_eq!(table_get::<u8>(&m, t, 9).unwrap(), Some(7));
    assert_eq!(table_get::<u8>(&m, t, 5).unwrap(), None);
    let before = m.len();
    table_set(&mut m, t, 5, &3u8).unwrap();
    assert_eq!(m.len(), before + 1);
    table_set(&mut m, t, 5, &4u8).unwrap();
    assert_eq!(m.len(), before + 1);
    assert_eq!(table_get::<u8>(&m, t, 5).unwrap(), Some(4));
    assert_eq!(table_get::<u8>(&m, t, 9).unwrap(), Some(7));
}

#[test]
fn corrupt_tables_are_reported() {
    let mut bytes = vec![0u8; 14];
    bytes[12] = 0xff;
    bytes[13] = 0x00;
    let mut m = NP_Memory::from_bytes(bytes);
    assert_eq!(table_get::<u8>(&m, 4, 5), Err(NP_Error::Corrupt));
    assert_eq!(table_set(&mut m, 4, 5, &1u8), Err(NP_Error::Corrupt));
    assert_eq!(table_get::<u8>(&m, 4, 1).unwrap(), None);
    assert_eq!(table_get::<u8>(&m, 100, 1), Err(NP_Error::Corrupt));
}
