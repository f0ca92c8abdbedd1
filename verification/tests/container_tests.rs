use quadratic_voting::assoc_list::AssocList;
use quadratic_voting::bounded_vec::BoundedVec;

#[test]
fn bounded_vec_rejects_inserts_over_capacity() {
    let mut q: BoundedVec<u64> = BoundedVec::new(2);
    assert_eq!(q.capacity(), 2);
    assert_eq!(q.len(), 0);
    assert_eq!(q.try_push(10), Ok(()));
    assert_eq!(q.try_push(20), Ok(()));
    // A full container reports the overflow instead of truncating.
    assert_eq!(q.try_push(30), Err(()));
    assert_eq!(q.len(), 2);
    assert_eq!(*q.get(0), 10);
    assert_eq!(*q.get(1), 20);
    assert!(q.contains(20));
    assert!(!q.contains(30));
}

#[test]
fn bounded_vec_removes_from_the_front() {
    let mut q: BoundedVec<u64> = BoundedVec::new(3);
    q.push(1);
    q.push(2);
    q.push(3);
    assert_eq!(q.remove_front(), 1);
    assert_eq!(q.remove_front(), 2);
    assert_eq!(q.len(), 1);
    assert_eq!(q.as_vec().as_slice(), &[3]);
}

#[test]
fn assoc_list_behaves_like_a_map() {
    let mut m: AssocList<u128> = AssocList::new();
    assert!(!m.contains_key(7));
    assert_eq!(m.get(7), None);
    m.insert(7, 100);
    m.insert(8, 200);
    assert_eq!(m.get(7), Some(&100));
    // A second insert for the same key replaces the value.
    m.insert(7, 300);
    assert_eq!(m.get(7), Some(&300));
    assert_eq!(m.remove(7), Some(300));
    assert_eq!(m.remove(7), None);
    assert!(!m.contains_key(7));
    assert_eq!(m.get(8), Some(&200));
}
