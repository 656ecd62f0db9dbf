//! Context-based access control (the applet firewall).
//!
//! Every heap object carries the context (package id) that created it.
//! An access is permitted only when the running context owns the object.
use vstd::prelude::*;

verus! {

/// Error raised when the firewall denies a cross-context access.
#[derive(Debug, Clone, Copy, PartialEq, Eq, Structural)]
pub struct SecurityException;

/// The firewall rule: the current context may touch an object exactly when it owns it.
pub open spec fn access_allowed(current_context: u8, owner_context: u8) -> bool {
    current_context == owner_context
}

/// Check whether the current execution context may access an object
/// owned by `owner_context`.
pub fn check_access(current_context: u8, owner_context: u8) -> (r: Result<(), SecurityException>)
    ensures
        r is Ok <==> access_allowed(current_context, owner_context),
        r is Err ==> r == Err::<(), SecurityException>(SecurityException),
{
    if current_context == owner_context {
        Ok(())
    } else {
        Err(SecurityException)
    }
}

} // verus!
