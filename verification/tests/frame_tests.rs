use simrs_jcvm::frame::{CallFrame};
#[test]
fn empty_frame_is_zeroed() {
    let f = CallFrame::empty();
    assert_eq!(f.return_pkg, 0);
    assert_eq!(f.return_method, 0);
    assert_eq!(f.return_pc, 0);
    assert_eq!(f.locals_base, 0);
    assert_eq!(f.stack_base, 0);
}

#[test]
fn frame_stores_return_info() {
    let f = CallFrame {
        return_pkg: 2,
        return_method: 5,
        return_pc: 42,
        locals_base: 8,
        stack_base: 3,
    };
    assert_eq!(f.return_pkg, 2);
    assert_eq!(f.return_method, 5);
    assert_eq!(f.return_pc, 42);
    assert_eq!(f.locals_base, 8);
    assert_eq!(f.stack_base, 3);
}
