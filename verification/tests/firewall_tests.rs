use simrs_jcvm::firewall::{SecurityException, check_access};
#[test]
fn same_context_allows_access() {
    assert!(check_access(1, 1).is_ok());
    assert!(check_access(0, 0).is_ok());
    assert!(check_access(255, 255).is_ok());
}

#[test]
fn different_context_denies_access() {
    assert_eq!(check_access(1, 2), Err(SecurityException));
    assert_eq!(check_access(0, 1), Err(SecurityException));
    assert_eq!(check_access(254, 255), Err(SecurityException));
}
