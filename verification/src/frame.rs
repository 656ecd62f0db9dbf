//! Call frames and the fixed sizes of the interpreter's stacks.
use vstd::prelude::*;

verus! {

/// A single call frame on the call stack: what `return` needs to resume the caller.
#[derive(Clone, Copy, Debug, PartialEq, Eq, Structural)]
pub struct CallFrame {
    /// Package index of the caller method.
    pub return_pkg: u8,
    /// Method index of the caller method.
    pub return_method: u8,
    /// Program counter to resume at in the caller.
    pub return_pc: u16,
    /// Base offset into the locals array for this frame.
    pub locals_base: u8,
    /// Base offset into the operand stack for this frame.
    pub stack_base: u8,
}

impl CallFrame {
    /// Create an empty (zeroed) call frame.
    pub fn empty() -> (f: Self)
        ensures
            f.return_pkg == 0,
            f.return_method == 0,
            f.return_pc == 0,
            f.locals_base == 0,
            f.stack_base == 0,
    {
        CallFrame { return_pkg: 0, return_method: 0, return_pc: 0, locals_base: 0, stack_base: 0 }
    }
}

/// Maximum operand stack depth (in 16-bit words).
pub const MAX_STACK: usize = 64;

/// Maximum call frame depth.
pub const MAX_FRAMES: usize = 8;

/// Maximum local variable slots (in 16-bit words).
pub const MAX_LOCALS: usize = 128;

} // verus!
