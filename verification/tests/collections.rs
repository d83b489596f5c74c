use open_storage::collections::vec_map::VecMap;
use open_storage::collections::vec_set::VecSet;
use open_storage::types::{Key, Principal, MAX_PRINCIPAL_LENGTH};

#[test]
fn map_keeps_one_value_per_key() {
    let mut map: VecMap<u128, u32> = VecMap::new();
    assert_eq!(map.len(), 0);
    assert_eq!(map.insert(1, 10), None);
    assert_eq!(map.insert(2, 20), None);
    assert_eq!(map.insert(1, 11), Some(10));
    assert_eq!(map.len(), 2);
    assert_eq!(map.get(&1), Some(&11));
    assert_eq!(map.get(&3), None);
    assert!(map.contains_key(&2));
    assert_eq!(map.key_at(0), 1);
    assert_eq!(map.value_at(1), &20);
    assert_eq!(map.remove(&1), Some(11));
    assert_eq!(map.remove(&1), None);
    assert_eq!(map.len(), 1);
    assert_eq!(map.key_at(0), 2);
}

#[test]
fn set_keeps_each_key_once() {
    let mut set: VecSet<u32> = VecSet::new();
    assert!(set.is_empty());
    assert!(set.insert(5));
    assert!(!set.insert(5));
    assert!(set.insert(6));
    assert_eq!(set.len(), 2);
    assert!(set.contains(&5));
    assert!(set.remove(&5));
    assert!(!set.remove(&5));
    assert_eq!(set.at(0), 6);
    let from = VecSet::from_vec(&vec![3u32, 1, 3, 2, 1]);
    assert_eq!(from.len(), 3);
    let below = VecSet::below(4);
    assert_eq!(below.len(), 4);
    assert!(below.contains(&0) && below.contains(&3) && !below.contains(&4));
    assert!(VecSet::below(0).is_empty());
}

#[test]
fn principals_are_their_bytes() {
    assert_eq!(MAX_PRINCIPAL_LENGTH, 29);
    let a = Principal::from_slice(&[1, 2, 3]).unwrap();
    let b = Principal::from_slice(&[1, 2, 3]).unwrap();
    let c = Principal::from_slice(&[1, 2, 3, 0]).unwrap();
    let empty = Principal::from_slice(&[]).unwrap();
    assert!(a.same(&b));
    assert!(!a.same(&c));
    assert!(!a.same(&empty));
    assert_eq!(a, b);
    assert_ne!(a, c);
    assert_eq!(a.to_vec(), vec![1, 2, 3]);
    assert_eq!(c.to_vec(), vec![1, 2, 3, 0]);
    assert_eq!(empty.to_vec(), Vec::<u8>::new());
    assert!(Principal::from_slice(&[7u8; 29]).is_some());
    assert!(Principal::from_slice(&[7u8; 30]).is_none());
    assert!([1u8; 32].same(&[1u8; 32]));
    let mut other = [1u8; 32];
    other[31] = 2;
    assert!(![1u8; 32].same(&other));
    assert!(5u128.same(&5) && !5u32.same(&6));
}
