//! The largest snapshot a virtual machine of a given size can take.
use vstd::prelude::*;
use crate::cap::Package;
use crate::frame::{MAX_FRAMES, MAX_LOCALS, MAX_STACK};
use crate::heap::ObjectHeap;
use crate::transaction::TransactionJournal;
use crate::vm::{JOURNAL_CAP, STATIC_FIELDS_SIZE};

verus! {

/// Upper bound on the byte length of a full VM snapshot: the heap at its largest, a
/// package count, every package slot at its largest, the static fields, the process
/// method, the journal at its largest, and the transient state (5 bytes of registers,
/// the two stack pointers, the frames, the operand stack and the locals). The sum must
/// fit in a `usize`.
pub fn upper_bound_snapshot_size<const HEAP_SIZE: usize, const MAX_PACKAGES: usize>() -> (r: usize)
    requires
        2 + HEAP_SIZE + 1 + MAX_PACKAGES * (1 + Package::MAX_SNAPSHOT_SIZE) + STATIC_FIELDS_SIZE + 1
            + (3 + 3 * JOURNAL_CAP) + 5 + 2 + MAX_FRAMES * 6 + MAX_STACK * 2 + MAX_LOCALS * 2
            <= usize::MAX,
    ensures
        r == 2 + HEAP_SIZE + 1 + MAX_PACKAGES * (1 + Package::MAX_SNAPSHOT_SIZE) + STATIC_FIELDS_SIZE
            + 1 + (3 + 3 * JOURNAL_CAP) + 5 + 2 + MAX_FRAMES * 6 + MAX_STACK * 2 + MAX_LOCALS * 2,
{
    ObjectHeap::<HEAP_SIZE>::max_snapshot_size() + 1 + MAX_PACKAGES * (1 + Package::MAX_SNAPSHOT_SIZE)
        + STATIC_FIELDS_SIZE + 1 + TransactionJournal::<JOURNAL_CAP>::max_snapshot_size() + 5 + 2
        + MAX_FRAMES * 6 + MAX_STACK * 2 + MAX_LOCALS * 2
}

} // verus!
