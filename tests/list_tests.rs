use no_proto::error::NP_Error;
use no_proto::hash::hash;
use no_proto::list::{NP_Collection, NP_List, list_del, list_get, list_indices, list_len, list_new, list_push, list_set};
use no_proto::memory::NP_Memory;

fn new_list() -> (NP_Memory, usize) {
    let mut m = NP_Memory::new_empty();
    let h = list_new(&mut m).unwrap() as usize;
    (m, h)
}

#[test]
fn sparse_list() {
    let (mut m, h) = new_list();
    list_set(&mut m, h, 5, &99u16).unwrap();
    assert_eq!(list_len(&m, h).unwrap(), 1);
    assert_eq!(list_get::<u16>(&m, h, 3).unwrap(), None);
    assert_eq!(list_get::<u16>(&m, h, 5).unwrap(), Some(99));
    assert_eq!(list_indices(&m, h).unwrap(), vec![5]);
}

#[test]
fn list_keeps_index_order() {
    let (mut m, h) = new_list();
    list_set(&mut m, h, 5, &50u32).unwrap();
    list_set(&mut m, h, 2, &20u32).unwrap();
    list_set(&mut m, h, 9, &90u32).unwrap();
    list_set(&mut m, h, 7, &70u32).unwrap();
    assert_eq!(list_indices(&m, h).unwrap(), vec![2, 5, 7, 9]);
    assert_eq!(list_get::<u32>(&m, h, 7).unwrap(), Some(70));
    assert_eq!(list_push(&mut m, h, &100u32).unwrap(), 10);
    assert_eq!(list_indices(&m, h).unwrap(), vec![2, 5, 7, 9, 10]);
    assert_eq!(list_get::<u32>(&m, h, 10).unwrap(), Some(100));
}

#[test]
fn list_push_numbers_from_zero() {
    let (mut m, h) = new_list();
    assert_eq!(list_push(&mut m, h, &true).unwrap(), 0);
    assert_eq!(list_push(&mut m, h, &false).unwrap(), 1);
    assert_eq!(list_get::<bool>(&m, h, 0).unwrap(), Some(true));
    assert_eq!(list_get::<bool>(&m, h, 1).unwrap(), Some(false));
    assert_eq!(list_len(&m, h).unwrap(), 2);
}

#[test]
fn list_overwrite_fixed_in_place() {
    let (mut m, h) = new_list();
    list_set(&mut m, h, 1, &1u64).unwrap();
    let size = m.len();
    list_set(&mut m, h, 1, &2u64).unwrap();
    assert_eq!(m.len(), size);
    assert_eq!(list_get::<u64>(&m, h, 1).unwrap(), Some(2));
    assert_eq!(list_len(&m, h).unwrap(), 1);
}

#[test]
fn list_overwrite_variable_reallocates() {
    let (mut m, h) = new_list();
    list_set(&mut m, h, 0, &String::from("one")).unwrap();
    let size = m.len();
    list_set(&mut m, h, 0, &String::from("three")).unwrap();
    assert_eq!(m.len(), size + 4 + 5);
    assert_eq!(list_get::<String>(&m, h, 0).unwrap(), Some(String::from("three")));
}

#[test]
fn list_delete() {
    let (mut m, h) = new_list();
    for i in [2u8, 5, 9] {
        list_set(&mut m, h, i, &(i as i16)).unwrap();
    }
    list_del(&mut m, h, 5).unwrap();
    assert_eq!(list_indices(&m, h).unwrap(), vec![2, 9]);
    assert_eq!(list_get::<i16>(&m, h, 5).unwrap(), None);
    list_del(&mut m, h, 9).unwrap();
    assert_eq!(list_indices(&m, h).unwrap(), vec![2]);
    assert_eq!(list_push(&mut m, h, &-3i16).unwrap(), 3);
    assert_eq!(list_indices(&m, h).unwrap(), vec![2, 3]);
    let before = m.read_bytes();
    list_del(&mut m, h, 77).unwrap();
    assert_eq!(m.read_bytes(), before);
    list_del(&mut m, h, 2).unwrap();
    list_del(&mut m, h, 3).unwrap();
    assert_eq!(list_len(&m, h).unwrap(), 0);
    assert_eq!(list_push(&mut m, h, &8i16).unwrap(), 0);
}

#[test]
fn list_full() {
    let (mut m, h) = new_list();
    list_set(&mut m, h, 255, &1u8).unwrap();
    let before = m.read_bytes();
    assert_eq!(list_push(&mut m, h, &2u8), Err(NP_Error::ListFull));
    assert_eq!(m.read_bytes(), before);
}

#[test]
fn list_of_bytes_overflow_fails_cleanly() {
    let (mut m, h) = new_list();
    let payload = vec![1u8; 1024];
    let mut pushed = 0usize;
    loop {
        let before = m.read_bytes();
        match list_push(&mut m, h, &payload) {
            Ok(_) => pushed += 1,
            Err(e) => {
                assert_eq!(e, NP_Error::OutOfSpace);
                assert_eq!(m.read_bytes(), before);
                assert!(before.len() + 4 + 1024 + 5 > 65535);
                break;
            }
        }
    }
    assert_eq!(pushed, (65535 - 8) / (4 + 1024 + 5));
    assert_eq!(list_len(&m, h).unwrap(), pushed);
    assert_eq!(list_get::<Vec<u8>>(&m, h, 0).unwrap(), Some(payload));
}

#[test]
fn corrupt_lists_are_reported() {
    let m = NP_Memory::from_bytes(vec![0, 0, 0, 0, 0, 8, 0, 8, 0, 0, 0, 8, 0]);
    assert_eq!(list_len(&m, 4), Err(NP_Error::Corrupt));
    assert_eq!(list_get::<u8>(&m, 4, 1), Err(NP_Error::Corrupt));
    assert_eq!(list_indices(&m, 4), Err(NP_Error::Corrupt));
    let m = NP_Memory::from_bytes(vec![0, 0, 0, 0, 0, 40, 0, 40]);
    assert_eq!(list_len(&m, 4), Err(NP_Error::Corrupt));
    assert_eq!(list_len(&m, 6), Err(NP_Error::Corrupt));
}

#[test]
fn fnv1a_hash_values() {
    assert_eq!(hash(b""), 0x811c9dc5);
    assert_eq!(hash(b"a"), 0xe40c292c);
    assert_eq!(hash(b"foobar"), 0xbf9cf968);
}

#[test]
fn list_handle_operations() {
    let mut m = NP_Memory::new_empty();
    let l = NP_List::new(&mut m).unwrap();
    assert_eq!(l.header, 4);
    l.set(&mut m, 5, &99u16).unwrap();
    assert_eq!(l.length(&m).unwrap(), 1);
    assert_eq!(l.get::<u16>(&m, 3).unwrap(), None);
    assert_eq!(l.get::<u16>(&m, 5).unwrap(), Some(99));
    assert_eq!(l.push(&mut m, &7u16).unwrap(), 6);
    assert_eq!(l.indices(&m).unwrap(), vec![5, 6]);
    l.del(&mut m, 5).unwrap();
    assert_eq!(l.indices(&m).unwrap(), vec![6]);
    assert_eq!(l.length(&m).unwrap(), 1);
}

#[test]
fn list_compaction_keeps_items() {
    let mut m = NP_Memory::new_empty();
    let l = NP_List::new(&mut m).unwrap();
    l.set(&mut m, 1, &String::from("first value")).unwrap();
    l.set(&mut m, 1, &String::from("one")).unwrap();
    l.set(&mut m, 4, &String::from("four")).unwrap();
    l.set(&mut m, 9, &String::from("nine")).unwrap();
    l.del(&mut m, 4).unwrap();
    let c = l.compact::<String>(&m).unwrap();
    assert!(c.len() < m.len());
    assert_eq!(c.len(), 4 + 4 + (4 + 3 + 5) + (4 + 4 + 5));
    let bytes = c.read_bytes();
    assert_eq!(&bytes[0..4], &[0, 4, 0, 0]);
    let n = NP_List { header: 4 };
    assert_eq!(n.indices(&c).unwrap(), vec![1, 9]);
    assert_eq!(n.get::<String>(&c, 1).unwrap(), Some(String::from("one")));
    assert_eq!(n.get::<String>(&c, 9).unwrap(), Some(String::from("nine")));
    assert_eq!(n.get::<String>(&c, 4).unwrap(), None);
}

#[test]
fn list_same_text_twice_keeps_size() {
    let (mut m, h) = new_list();
    list_set(&mut m, h, 3, &String::from("abc")).unwrap();
    let once = m.read_bytes();
    list_set(&mut m, h, 3, &String::from("abc")).unwrap();
    assert_eq!(m.read_bytes(), once);
    list_set(&mut m, h, 3, &String::from("xyz")).unwrap();
    assert_eq!(m.len(), once.len());
    assert_eq!(list_get::<String>(&m, h, 3).unwrap(), Some(String::from("xyz")));
}
