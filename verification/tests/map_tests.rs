use noirc_evaluator::map::{DenseMap, Id, SparseMap};
use std::collections::HashSet;

#[test]
fn dense_push_returns_consecutive_ids() {
    let mut map: DenseMap<&str> = DenseMap::default();
    assert_eq!(map.len(), 0);
    let a = map.push("a");
    let b = map.push("b");
    let c = map.push("c");
    assert!(a == Id::test_new(0));
    assert!(b == Id::test_new(1));
    assert!(c == Id::test_new(2));
    assert_eq!(map.len(), 3);
}

#[test]
fn dense_index_finds_pushed_elements() {
    let mut map: DenseMap<u64> = DenseMap::default();
    let ids: Vec<Id<u64>> = (0..5u64).map(|x| map.push(x * 10)).collect();
    for (i, id) in ids.iter().enumerate() {
        assert_eq!(*map.index(*id), i as u64 * 10);
    }
}

#[test]
fn dense_index_mut_changes_only_that_element() {
    let mut map: DenseMap<u64> = DenseMap::default();
    let a = map.push(1);
    let b = map.push(2);
    *map.index_mut(b) = 20;
    assert_eq!(*map.index(a), 1);
    assert_eq!(*map.index(b), 20);
    assert_eq!(map.len(), 2);
}

#[test]
fn sparse_push_and_len() {
    let mut map: SparseMap<char> = SparseMap::default();
    assert_eq!(map.len(), 0);
    let a = map.push('a');
    let b = map.push('b');
    assert!(a == Id::test_new(0));
    assert!(b == Id::test_new(1));
    assert_eq!(map.len(), 2);
    assert_eq!(*map.index(a), 'a');
    assert_eq!(*map.index(b), 'b');
}

#[test]
fn sparse_remove_returns_element_then_none() {
    let mut map: SparseMap<u32> = SparseMap::default();
    let a = map.push(7);
    assert_eq!(map.remove(a), Some(7));
    assert_eq!(map.remove(a), None);
    assert_eq!(map.len(), 0);
}

#[test]
fn sparse_ids_stable_after_removal() {
    let mut map: SparseMap<u32> = SparseMap::default();
    let a = map.push(10);
    let b = map.push(20);
    let c = map.push(30);
    assert_eq!(map.remove(b), Some(20));
    assert_eq!(*map.index(a), 10);
    assert_eq!(*map.index(c), 30);
    assert_eq!(map.len(), 2);
}

#[test]
fn sparse_push_after_removal_hands_out_a_fresh_id() {
    let mut map: SparseMap<u32> = SparseMap::default();
    let a = map.push(10);
    let b = map.push(20);
    assert_eq!(map.remove(a), Some(10));
    let c = map.push(30);
    assert!(c != b);
    assert!(c != a);
    assert!(c == Id::test_new(2));
    assert_eq!(*map.index(b), 20);
    assert_eq!(*map.index(c), 30);
    assert_eq!(map.len(), 2);
}

#[test]
fn sparse_index_mut_changes_only_that_element() {
    let mut map: SparseMap<u32> = SparseMap::default();
    let a = map.push(1);
    let b = map.push(2);
    *map.index_mut(a) += 100;
    assert_eq!(*map.index(a), 101);
    assert_eq!(*map.index(b), 2);
}

#[test]
fn ids_compare_and_hash_by_index() {
    let x: Id<String> = Id::test_new(4);
    let y: Id<String> = Id::test_new(4);
    let z: Id<String> = Id::test_new(5);
    assert!(x == y);
    assert!(x != z);
    let copy = x;
    assert!(copy.clone() == x);
    let mut set: HashSet<Id<String>> = HashSet::new();
    set.insert(x);
    set.insert(y);
    set.insert(z);
    assert_eq!(set.len(), 2);
}

#[test]
fn id_debug_string() {
    assert_eq!(Id::<u32>::test_new(5).debug_string(), "Id(5)");
    assert_eq!(Id::<String>::test_new(0).debug_string(), "Id(0)");
    assert_eq!(Id::<u8>::test_new(1234567).debug_string(), "Id(1234567)");
}

#[test]
fn sparse_push_returns_length_when_that_id_is_free() {
    let mut map: SparseMap<u32> = SparseMap::default();
    let _a = map.push(10);
    let _b = map.push(20);
    let c = map.push(30);
    assert_eq!(map.remove(c), Some(30));
    let d = map.push(40);
    assert!(d == Id::test_new(2));
    assert_eq!(*map.index(d), 40);
    assert_eq!(map.len(), 3);
}
