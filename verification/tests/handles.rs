use liveness::fake_ptr::{FakePtr, FakePtrMap};

#[test]
fn handles_are_numbered_from_one() {
    let mut m: FakePtrMap<String> = FakePtrMap::new();
    assert_eq!(m.next_id, 1);
    assert!(m.ptr_to_t.is_empty());
    let a = m.to_fake_ptr("a".to_string());
    let b = m.to_fake_ptr("b".to_string());
    assert_eq!(a.id, 1);
    assert_eq!(b.id, 2);
    assert_eq!(m.next_id, 3);
    assert_eq!(m.ptr_to_t.len(), 2);
}

#[test]
fn recover_gives_the_value_back_and_forgets_it() {
    let mut m: FakePtrMap<Vec<u8>> = FakePtrMap::new();
    let a = m.to_fake_ptr(vec![1, 2, 3]);
    let b = m.to_fake_ptr(vec![4]);
    let copy: FakePtr<Vec<u8>> = a;
    assert_eq!(m.recover(b), vec![4]);
    assert_eq!(m.recover(copy), vec![1, 2, 3]);
    assert!(m.ptr_to_t.is_empty());
    assert!(!m.ptr_to_t.contains_key(&a.clone().id));
    // A number is never given twice.
    let c = m.to_fake_ptr(vec![]);
    assert_eq!(c.id, 3);
}
