use no_proto::error::NP_Error;
use no_proto::hash::hash;
use no_proto::map::{map_compact, map_del, map_get, map_keys, map_len, map_new, map_set};
use no_proto::memory::NP_Memory;
use std::collections::HashMap;

fn colliding_keys() -> (Vec<u8>, Vec<u8>) {
    let mut seen: HashMap<u32, Vec<u8>> = HashMap::new();
    let mut i: u64 = 0;
    loop {
        let key = format!("key{}", i).into_bytes();
        let h = hash(&key);
        if let Some(other) = seen.get(&h) {
            return (other.clone(), key);
        }
        seen.insert(h, key);
        i += 1;
    }
}

#[test]
fn map_round_trip_and_last_write_wins() {
    let mut m = NP_Memory::new_empty();
    let h = map_new(&mut m).unwrap() as usize;
    map_set(&mut m, h, b"alpha", &1u32).unwrap();
    map_set(&mut m, h, b"beta", &2u32).unwrap();
    assert_eq!(map_get::<u32>(&m, h, b"alpha").unwrap(), Some(1));
    assert_eq!(map_get::<u32>(&m, h, b"beta").unwrap(), Some(2));
    assert_eq!(map_get::<u32>(&m, h, b"gamma").unwrap(), None);
    map_set(&mut m, h, b"alpha", &10u32).unwrap();
    assert_eq!(map_get::<u32>(&m, h, b"alpha").unwrap(), Some(10));
    assert_eq!(map_keys(&m, h).unwrap(), vec![b"alpha".to_vec(), b"beta".to_vec()]);
}

#[test]
fn map_hash_collision() {
    let (a, b) = colliding_keys();
    assert_ne!(a, b);
    assert_eq!(hash(&a), hash(&b));
    let mut m = NP_Memory::new_empty();
    let h = map_new(&mut m).unwrap() as usize;
    map_set(&mut m, h, &a, &String::from("first")).unwrap();
    map_set(&mut m, h, &b, &String::from("second")).unwrap();
    assert_eq!(map_get::<String>(&m, h, &a).unwrap(), Some(String::from("first")));
    assert_eq!(map_get::<String>(&m, h, &b).unwrap(), Some(String::from("second")));
    assert_eq!(map_keys(&m, h).unwrap(), vec![a.clone(), b.clone()]);
}

#[test]
fn map_entry_layout() {
    let mut m = NP_Memory::new_empty();
    let h = map_new(&mut m).unwrap() as usize;
    map_set(&mut m, h, b"k", &true).unwrap();
    let hb = hash(b"k").to_be_bytes();
    let bytes = m.read_bytes();
    assert_eq!(&bytes[8..12], &[0, 1, b'k', 1]);
    assert_eq!(&bytes[12..20], &[0, 8, 0, 0, hb[0], hb[1], hb[2], hb[3]]);
    assert_eq!(&bytes[4..8], &[0, 12, 0, 12]);
}

#[test]
fn corrupt_maps_are_reported() {
    let m = NP_Memory::from_bytes(vec![0, 0, 0, 0, 0, 9, 0, 9]);
    assert_eq!(map_get::<u8>(&m, 4, b"x"), Err(NP_Error::Corrupt));
    assert_eq!(map_keys(&m, 4), Err(NP_Error::Corrupt));
    assert_eq!(map_get::<u8>(&m, 6, b"x"), Err(NP_Error::Corrupt));
}

#[test]
fn map_delete_keeps_order_of_rest() {
    let mut m = NP_Memory::new_empty();
    let h = map_new(&mut m).unwrap() as usize;
    for (i, k) in [b"a", b"b", b"c"].iter().enumerate() {
        map_set(&mut m, h, *k, &(i as u8)).unwrap();
    }
    map_del(&mut m, h, b"b").unwrap();
    assert_eq!(map_keys(&m, h).unwrap(), vec![b"a".to_vec(), b"c".to_vec()]);
    assert_eq!(map_get::<u8>(&m, h, b"b").unwrap(), None);
    map_del(&mut m, h, b"c").unwrap();
    map_set(&mut m, h, b"d", &9u8).unwrap();
    assert_eq!(map_keys(&m, h).unwrap(), vec![b"a".to_vec(), b"d".to_vec()]);
    let before = m.read_bytes();
    map_del(&mut m, h, b"zz").unwrap();
    assert_eq!(m.read_bytes(), before);
    map_del(&mut m, h, b"a").unwrap();
    map_del(&mut m, h, b"d").unwrap();
    assert_eq!(map_keys(&m, h).unwrap(), Vec::<Vec<u8>>::new());
    map_set(&mut m, h, b"e", &1u8).unwrap();
    assert_eq!(map_keys(&m, h).unwrap(), vec![b"e".to_vec()]);
}

#[test]
fn map_compaction_keeps_entries_in_order() {
    let mut m = NP_Memory::new_empty();
    let h = map_new(&mut m).unwrap() as usize;
    map_set(&mut m, h, b"x", &String::from("a long first value")).unwrap();
    map_set(&mut m, h, b"y", &String::from("why")).unwrap();
    map_set(&mut m, h, b"z", &String::from("zed")).unwrap();
    map_set(&mut m, h, b"x", &String::from("ex")).unwrap();
    map_del(&mut m, h, b"y").unwrap();
    assert_eq!(map_len(&m, h).unwrap(), 2);
    let c = map_compact::<String>(&m, h).unwrap();
    assert!(c.len() < m.len());
    assert_eq!(c.len(), 4 + 4 + (2 + 1 + 4 + 2 + 8) + (2 + 1 + 4 + 3 + 8));
    assert_eq!(&c.read_bytes()[0..4], &[0, 4, 0, 0]);
    assert_eq!(map_keys(&c, 4).unwrap(), vec![b"x".to_vec(), b"z".to_vec()]);
    assert_eq!(map_get::<String>(&c, 4, b"x").unwrap(), Some(String::from("ex")));
    assert_eq!(map_get::<String>(&c, 4, b"z").unwrap(), Some(String::from("zed")));
    assert_eq!(map_get::<String>(&c, 4, b"y").unwrap(), None);
}

#[test]
fn map_same_value_twice_keeps_size() {
    let mut m = NP_Memory::new_empty();
    let h = map_new(&mut m).unwrap() as usize;
    map_set(&mut m, h, b"k", &vec![1u8, 2, 3]).unwrap();
    let once = m.read_bytes();
    map_set(&mut m, h, b"k", &vec![1u8, 2, 3]).unwrap();
    assert_eq!(m.read_bytes(), once);
    map_set(&mut m, h, b"k", &vec![4u8, 5, 6]).unwrap();
    assert_eq!(m.len(), once.len());
    assert_eq!(map_get::<Vec<u8>>(&m, h, b"k").unwrap(), Some(vec![4u8, 5, 6]));
    map_set(&mut m, h, b"k", &vec![7u8]).unwrap();
    assert_eq!(m.len(), once.len() + 2 + 1 + 4 + 1);
}
