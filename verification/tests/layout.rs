use cc_bindings::ir::common::{align_to, Align};

#[test]
fn align() {
    assert_eq!(align_to(5, Align::new(1)), 5);
    assert_eq!(align_to(2, Align::new(4)), 4);
    assert_eq!(align_to(4, Align::new(4)), 4);
    assert_eq!(align_to(0, Align::new(4)), 0);
    assert_eq!(align_to(0, Align::new(1)), 0);
}
