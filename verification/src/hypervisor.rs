//! Read-only introspection into a virtual machine's observation counters:
//! per-opcode execution counts, total instructions and the call-depth
//! high-water mark.
use vstd::prelude::*;
use crate::vm::JcVM;

verus! {

/// Read-only introspection into a `JavaCard` virtual machine.
pub trait Hypervisor {
    /// Per-opcode execution count, indexed by raw opcode byte.
    fn opcode_counts(&self) -> [u64; 256];

    /// Total instructions executed since the last reset.
    fn total_instructions(&self) -> u64;

    /// High-water mark of method-call depth observed.
    fn max_frame_depth(&self) -> u32;

    /// Zero every counter.
    fn reset_counters(&mut self);
}

impl<const HEAP_SIZE: usize, const MAX_PACKAGES: usize> Hypervisor for JcVM<HEAP_SIZE, MAX_PACKAGES> {
    fn opcode_counts(&self) -> (r: [u64; 256])
        ensures
            r@ == self.opcode_count_view(),
    {
        JcVM::opcode_counts(self)
    }

    fn total_instructions(&self) -> (r: u64)
        ensures
            r == self.instructions(),
    {
        JcVM::total_instructions(self)
    }

    fn max_frame_depth(&self) -> (r: u32)
        ensures
            r == self.frame_depth_mark(),
    {
        JcVM::max_frame_depth(self)
    }

    fn reset_counters(&mut self)
        ensures
            old(self).wf() ==> final(self).wf(),
            forall|i: int| 0 <= i < 256 ==> #[trigger] final(self).opcode_count_view()[i] == 0,
            final(self).instructions() == 0,
            final(self).frame_depth_mark() == 0,
            final(self).stack_words() == old(self).stack_words(),
            final(self).heap_view() == old(self).heap_view(),
            final(self).package_slots() == old(self).package_slots(),
            final(self).static_bytes() == old(self).static_bytes(),
            final(self).journal_view() == old(self).journal_view(),
    {
        self.reset_controlplane_counters();
    }
}

/// Stand-in [`Hypervisor`] that always reports zeros.
#[derive(Debug, Clone, Copy, Default)]
pub struct NullHypervisor;

impl Hypervisor for NullHypervisor {
    fn opcode_counts(&self) -> (r: [u64; 256])
        ensures
            forall|i: int| 0 <= i < 256 ==> #[trigger] r@[i] == 0,
    {
        [0u64; 256]
    }

    fn total_instructions(&self) -> (r: u64)
        ensures
            r == 0,
    {
        0
    }

    fn max_frame_depth(&self) -> (r: u32)
        ensures
            r == 0,
    {
        0
    }

    fn reset_counters(&mut self) {
    }
}

} // verus!
