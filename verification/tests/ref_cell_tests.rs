use velox::ref_cell::RefCell;

#[test]
fn test_ref_cell() {
    let mut r = RefCell::new(5);
    assert_eq!(*r.get(), 5);
    r.set(10);
    assert_eq!(*r.get(), 10);
}
