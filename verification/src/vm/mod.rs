//! The `JavaCard` virtual machine: loaded packages, the object heap and static
//! fields (persistent, snapshotted), the transaction journal (persistent, not
//! snapshotted), and the operand stack, call frames and locals (transient,
//! zeroed on restore).
//!
//! The arithmetic, conversion and branch helpers the interpreter is built from
//! live in [`ops`]; the applet wrapper in [`applet`].
use vstd::prelude::*;
use vstd::wrapping::{i16_specs, i32_specs, u16_specs};
use crate::cap::{MAX_AID_LEN, MAX_BYTECODE, Package, aid_equals};
use crate::frame::{CallFrame, MAX_FRAMES, MAX_LOCALS, MAX_STACK};
use crate::heap::{ARRAY_LENGTH_PREFIX, AccessError, HEADER_SIZE, ObjRef, ObjectHeap, ObjectKind};
use crate::opcodes::{self, ExecResult};
use crate::transaction::{TransactionError, TransactionJournal};
use crate::bytes::{hi8, le16, lo8};
use crate::heap::heap_image;
use crate::cap::snapshot::{is_saveable, pkg_saved_len, put, restored, save_overruns_from, save_stop, saveable, snapshot_image, snapshot_len, snapshot_ok, some_bytes, written};

pub mod ops;
pub mod applet;
pub mod roundtrip;

verus! {

/// Capacity of the transaction journal (entries).
pub const JOURNAL_CAP: usize = 256;

/// Size of the static field image (bytes).
pub const STATIC_FIELDS_SIZE: usize = 1024;

/// The `JavaCard` Virtual Machine.
///
/// `HEAP_SIZE`: backing store for the object heap (bytes).
/// `MAX_PACKAGES`: maximum loaded packages.
pub struct JcVM<const HEAP_SIZE: usize, const MAX_PACKAGES: usize> {
    heap: ObjectHeap<HEAP_SIZE>,
    packages: [Option<Package>; MAX_PACKAGES],
    static_fields: [u8; STATIC_FIELDS_SIZE],
    journal: TransactionJournal<JOURNAL_CAP>,
    stack: [u16; MAX_STACK],
    stack_ptr: u8,
    frames: [CallFrame; MAX_FRAMES],
    frame_ptr: u8,
    locals: [u16; MAX_LOCALS],
    current_pkg: u8,
    current_method: u8,
    pc: u16,
    current_context: u8,
    process_method: u8,
    opcode_counts: [u64; 256],
    total_instructions: u64,
    max_frame_depth: u32,
}

/// Whether a package slot holds a package whose AID is exactly `aid`.
pub open spec fn slot_has_aid(slot: Option<Package>, aid: Seq<u8>) -> bool {
    match slot {
        Some(p) => aid_equals(p.aid@, p.aid_len, aid),
        None => false,
    }
}

impl<const HEAP_SIZE: usize, const MAX_PACKAGES: usize> JcVM<HEAP_SIZE, MAX_PACKAGES> {
    /// The operand stack, bottom first.
    pub closed spec fn stack_words(&self) -> Seq<u16> {
        self.stack@.subrange(0, self.stack_ptr as int)
    }

    /// The object heap.
    pub closed spec fn heap_view(&self) -> ObjectHeap<HEAP_SIZE> {
        self.heap
    }

    /// The package slots.
    pub closed spec fn package_slots(&self) -> Seq<Option<Package>> {
        self.packages@
    }

    /// The static field image.
    pub closed spec fn static_bytes(&self) -> Seq<u8> {
        self.static_fields@
    }

    /// The transaction journal.
    pub closed spec fn journal_view(&self) -> TransactionJournal<JOURNAL_CAP> {
        self.journal
    }

    /// The active applet context (the package whose objects the firewall lets it touch).
    pub closed spec fn context(&self) -> u8 {
        self.current_context
    }

    /// The method run for an APDU.
    pub closed spec fn process_method_index(&self) -> u8 {
        self.process_method
    }

    /// A well-formed VM has a well-formed heap, one slot per package and a static field
    /// image of its full size.
    pub proof fn lemma_wf_parts(&self)
        requires
            self.wf(),
        ensures
            self.heap_view().wf(),
            self.package_slots().len() == MAX_PACKAGES,
            self.static_bytes().len() == STATIC_FIELDS_SIZE,
    {
    }

    /// Per-opcode execution counts.
    pub closed spec fn opcode_count_view(&self) -> Seq<u64> {
        self.opcode_counts@
    }

    /// Instructions executed.
    pub closed spec fn instructions(&self) -> u64 {
        self.total_instructions
    }

    /// Deepest call nesting seen.
    pub closed spec fn frame_depth_mark(&self) -> u32 {
        self.max_frame_depth
    }

    /// The call depth.
    pub closed spec fn depth(&self) -> nat {
        self.frame_ptr as nat
    }

    /// Well-formedness: the heap and journal are well formed, the stack and frame
    /// pointers stay within their arrays, and every frame's saved stack base does too.
    pub closed spec fn wf(&self) -> bool {
        &&& self.heap.wf()
        &&& self.journal.wf()
        &&& self.stack_ptr <= MAX_STACK
        &&& self.frame_ptr <= MAX_FRAMES
        &&& forall|i: int| 0 <= i < MAX_FRAMES ==> (#[trigger] self.frames@[i]).stack_base <= MAX_STACK
    }

    /// The transient state is zeroed: empty stack, no frames, zero locals, at the start
    /// of package 0's method 0 in context 0.
    pub closed spec fn transient_reset(&self) -> bool {
        &&& self.stack_ptr == 0 && self.frame_ptr == 0
        &&& forall|i: int| 0 <= i < MAX_STACK ==> #[trigger] self.stack@[i] == 0
        &&& forall|i: int| 0 <= i < MAX_LOCALS ==> #[trigger] self.locals@[i] == 0
        &&& forall|i: int| 0 <= i < MAX_FRAMES ==> #[trigger] self.frames@[i] == CallFrame {
            return_pkg: 0,
            return_method: 0,
            return_pc: 0,
            locals_base: 0,
            stack_base: 0,
        }
        &&& self.current_pkg == 0 && self.current_method == 0 && self.pc == 0
        &&& self.current_context == 0
    }

    /// A reset VM has an empty operand stack, no frames, zeroed locals and its program
    /// counter at 0, and runs in context 0.
    pub proof fn lemma_transient_reset(&self)
        requires
            self.transient_reset(),
        ensures
            self.stack_words().len() == 0,
            self.depth() == 0,
            self.context() == 0,
            self.pc_value() == 0,
            forall|i: int| 0 <= i < MAX_LOCALS ==> #[trigger] self.locals_view()[i] == 0,
    {
    }

    /// `self` and `other` agree on everything but the operand stack.
    pub closed spec fn same_but_stack(&self, other: &Self) -> bool {
        &&& self.heap == other.heap && self.packages == other.packages
        &&& self.static_fields == other.static_fields && self.journal == other.journal
        &&& self.frames == other.frames && self.frame_ptr == other.frame_ptr
        &&& self.locals == other.locals && self.current_pkg == other.current_pkg
        &&& self.current_method == other.current_method && self.pc == other.pc
        &&& self.current_context == other.current_context
        &&& self.process_method == other.process_method
        &&& self.opcode_counts == other.opcode_counts
        &&& self.total_instructions == other.total_instructions
        &&& self.max_frame_depth == other.max_frame_depth
    }

    /// `self` and `other` agree on everything but the operand stack and the heap.
    pub closed spec fn same_but_stack_heap(&self, other: &Self) -> bool {
        &&& self.packages == other.packages
        &&& self.static_fields == other.static_fields && self.journal == other.journal
        &&& self.frames == other.frames && self.frame_ptr == other.frame_ptr
        &&& self.locals == other.locals && self.current_pkg == other.current_pkg
        &&& self.current_method == other.current_method && self.pc == other.pc
        &&& self.current_context == other.current_context
        &&& self.process_method == other.process_method
        &&& self.opcode_counts == other.opcode_counts
        &&& self.total_instructions == other.total_instructions
        &&& self.max_frame_depth == other.max_frame_depth
    }

    /// `self` and `other` agree on everything but the transaction journal.
    pub closed spec fn same_but_journal(&self, other: &Self) -> bool {
        &&& self.heap == other.heap && self.packages == other.packages
        &&& self.static_fields == other.static_fields
        &&& self.stack == other.stack && self.stack_ptr == other.stack_ptr
        &&& self.frames == other.frames && self.frame_ptr == other.frame_ptr
        &&& self.locals == other.locals && self.current_pkg == other.current_pkg
        &&& self.current_method == other.current_method && self.pc == other.pc
        &&& self.current_context == other.current_context
        &&& self.process_method == other.process_method
        &&& self.opcode_counts == other.opcode_counts
        &&& self.total_instructions == other.total_instructions
        &&& self.max_frame_depth == other.max_frame_depth
    }

    /// One more pop after `i` pops (a pop of an empty stack changing nothing) is `i + 1`
    /// pops.
    pub proof fn lemma_pop_step(a: &Self, b: &Self, c: &Self, i: int)
        requires
            a.wf(),
            c.wf(),
            0 <= i,
            *b == a.popped(i),
            c.same_but_stack(b),
            c.raw_stack() == b.raw_stack(),
            c.stack_words().len() == (if b.stack_words().len() >= 1 {
                b.stack_words().len() - 1
            } else {
                0
            }),
        ensures
            *c == a.popped(i + 1),
    {
        Self::lemma_popped(a, c, i + 1);
    }

    /// What allocating an array of `length` elements (`bytes` payload bytes) of `kind`
    /// for the current context does, giving `r`: the reference at the free pointer, or a
    /// full heap when it does not fit; only the heap changes.
    pub open spec fn alloc_call(
        old: Self,
        new: Self,
        kind: ObjectKind,
        length: u16,
        bytes: int,
        r: crate::native::NativeResult,
    ) -> bool {
        let o = old.heap_view().array_alloc_at(bytes);
        &&& new.same_but_stack_heap(&old)
        &&& new.stack_words() == old.stack_words()
        &&& ObjectHeap::<HEAP_SIZE>::alloc_outcome(
            old.heap_view(),
            new.heap_view(),
            old.context(),
            kind,
            length,
            bytes,
            o,
        )
        &&& r == match o {
            Some(obj) => crate::native::NativeResult::Ref(obj.0),
            None => crate::native::NativeResult::Exception(ExecResult::HeapFull),
        }
    }

    /// Popping no word changes nothing; popping more words than the stack holds empties
    /// it, however many more.
    pub proof fn lemma_popped_empty(a: &Self, i: int, j: int)
        requires
            a.wf(),
            0 <= i <= j,
        ensures
            a.popped(0) == *a,
            a.stack_words().len() <= i ==> a.popped(i) == a.popped(j),
    {
    }

    /// Popping words leaves the heap, the context and the words beneath as they were.
    pub proof fn lemma_popped_views(a: &Self, k: int)
        requires
            a.wf(),
            0 <= k,
        ensures
            a.popped(k).wf(),
            a.popped(k).heap_view() == a.heap_view(),
            a.popped(k).context() == a.context(),
            a.popped(k).stack_words() == a.stack_words().subrange(
                0,
                if a.stack_words().len() >= k {
                    a.stack_words().len() - k
                } else {
                    0
                },
            ),
    {
    }

    /// `self` with its top `k` words popped (all of them when it holds fewer).
    pub closed spec fn popped(&self, k: int) -> Self {
        JcVM {
            stack_ptr: if self.stack_ptr >= k {
                (self.stack_ptr - k) as u8
            } else {
                0
            },
            ..*self
        }
    }

    /// A change of the stack alone that drops its top `k` words (all of them when it
    /// holds fewer) and leaves the words beneath in place is popping them.
    pub proof fn lemma_popped(a: &Self, b: &Self, k: int)
        requires
            a.wf(),
            b.wf(),
            b.same_but_stack(a),
            b.raw_stack() == a.raw_stack(),
            0 <= k,
            b.stack_words().len() == (if a.stack_words().len() >= k {
                a.stack_words().len() - k
            } else {
                0
            }),
        ensures
            *b == a.popped(k),
    {
        assert(b.stack =~= a.stack);
        assert(b.stack_ptr == a.popped(k).stack_ptr);
    }

    /// Create a new, empty JCVM.
    pub fn new() -> (vm: Self)
        ensures
            vm.wf(),
            vm.transient_reset(),
            vm.stack_words().len() == 0,
            vm.depth() == 0,
            vm.context() == 0,
            vm.heap_view().free_ptr() == 1,
            forall|i: int| 0 <= i < MAX_PACKAGES ==> #[trigger] vm.package_slots()[i] is None,
            vm.package_slots().len() == MAX_PACKAGES,
            forall|i: int| 0 <= i < STATIC_FIELDS_SIZE ==> #[trigger] vm.static_bytes()[i] == 0,
            !vm.journal_view().active_spec() && vm.journal_view().entry_count() == 0,
            vm.process_method_index() == 0,
            forall|i: int| 0 <= i < 256 ==> #[trigger] vm.opcode_count_view()[i] == 0,
            vm.instructions() == 0,
            vm.frame_depth_mark() == 0,
    {
        let f = CallFrame::empty();
        JcVM {
            heap: ObjectHeap::new(),
            packages: [None; MAX_PACKAGES],
            static_fields: [0u8; STATIC_FIELDS_SIZE],
            journal: TransactionJournal::new(),
            stack: [0u16; MAX_STACK],
            stack_ptr: 0,
            frames: [f; MAX_FRAMES],
            frame_ptr: 0,
            locals: [0u16; MAX_LOCALS],
            current_pkg: 0,
            current_method: 0,
            pc: 0,
            current_context: 0,
            process_method: 0,
            opcode_counts: [0u64; 256],
            total_instructions: 0,
            max_frame_depth: 0,
        }
    }

    /// Per-opcode execution counts, indexed by the raw opcode byte.
    pub fn opcode_counts(&self) -> (r: [u64; 256])
        ensures
            r@ == self.opcode_count_view(),
    {
        self.opcode_counts
    }

    /// Total instructions executed since the VM was constructed (or the counters were
    /// last reset).
    pub fn total_instructions(&self) -> (r: u64)
        ensures
            r == self.instructions(),
    {
        self.total_instructions
    }

    /// High-water mark of method-call depth seen during execution.
    pub fn max_frame_depth(&self) -> (r: u32)
        ensures
            r == self.frame_depth_mark(),
    {
        self.max_frame_depth
    }

    /// Reset all observation counters to zero.
    pub fn reset_controlplane_counters(&mut self)
        ensures
            old(self).wf() ==> final(self).wf(),
            forall|i: int| 0 <= i < 256 ==> #[trigger] final(self).opcode_count_view()[i] == 0,
            final(self).instructions() == 0,
            final(self).frame_depth_mark() == 0,
            final(self).stack_words() == old(self).stack_words(),
            final(self).heap_view() == old(self).heap_view(),
            final(self).package_slots() == old(self).package_slots(),
            final(self).static_bytes() == old(self).static_bytes(),
            final(self).journal_view() == old(self).journal_view(),
            final(self).process_method_index() == old(self).process_method_index(),
            final(self).context() == old(self).context(),
    {
        self.opcode_counts = [0u64; 256];
        self.total_instructions = 0;
        self.max_frame_depth = 0;
    }

    /// Load a package into the first free slot; its index, or `None` when every slot
    /// is taken.
    pub fn load_package(&mut self, pkg: Package) -> (r: Option<u8>)
        requires
            old(self).wf(),
            MAX_PACKAGES <= 256,
        ensures
            final(self).wf(),
            match r {
                Some(i) => i < MAX_PACKAGES && old(self).package_slots()[i as int] is None
                    && (forall|j: int| 0 <= j < i ==> #[trigger] old(self).package_slots()[j] is Some)
                    && final(self).package_slots() == old(self).package_slots().update(
                    i as int,
                    Some(pkg),
                ),
                None => (forall|j: int|
                    0 <= j < MAX_PACKAGES ==> #[trigger] old(self).package_slots()[j] is Some)
                    && *final(self) == *old(self),
            },
            final(self).stack_words() == old(self).stack_words(),
            final(self).heap_view() == old(self).heap_view(),
            final(self).static_bytes() == old(self).static_bytes(),
            final(self).journal_view() == old(self).journal_view(),
            final(self).process_method_index() == old(self).process_method_index(),
            final(self).context() == old(self).context(),
    {
        let mut i: usize = 0;
        while i < MAX_PACKAGES
            invariant
                i <= MAX_PACKAGES,
                MAX_PACKAGES <= 256,
                *self == *old(self),
                self.wf(),
                forall|j: int| 0 <= j < i ==> #[trigger] self.packages@[j] is Some,
            decreases MAX_PACKAGES - i,
        {
            if self.packages[i].is_none() {
                self.packages[i] = Some(pkg);
                return Some(i as u8);
            }
            i = i + 1;
        }
        None
    }

    /// A slot holds a package with AID `aid` exactly when the package's stored AID has
    /// `aid`'s length and equals it byte for byte over that whole length; two packages
    /// that share a prefix (such as the RID) are told apart by the bytes after it.
    pub proof fn lemma_slot_has_aid(slot: Option<Package>, aid: Seq<u8>)
        ensures
            slot_has_aid(slot, aid) <==> (slot matches Some(p) && aid.len() == p.aid_len && p.aid_len
                <= MAX_AID_LEN && forall|i: int| 0 <= i < p.aid_len ==> #[trigger] aid[i] == p.aid@[i]),
    {
        if let Some(p) = slot {
            crate::cap::lemma_aid_equals(p.aid@, p.aid_len, aid);
        }
    }

    /// The index of the first loaded package whose AID is exactly `aid`. Every package
    /// examined before the match must hold at most 16 AID bytes.
    pub fn find_package_by_aid(&self, aid: &[u8]) -> (r: Option<u8>)
        requires
            MAX_PACKAGES <= 256,
            forall|j: int|
                0 <= j < MAX_PACKAGES && (#[trigger] self.package_slots()[j] matches Some(p)
                    && p.aid_len > MAX_AID_LEN) ==> exists|k: int|
                    0 <= k < j && slot_has_aid(#[trigger] self.package_slots()[k], aid@),
        ensures
            match r {
                Some(i) => i < MAX_PACKAGES && slot_has_aid(self.package_slots()[i as int], aid@)
                    && forall|j: int|
                    0 <= j < i ==> !slot_has_aid(#[trigger] self.package_slots()[j], aid@),
                None => forall|j: int|
                    0 <= j < MAX_PACKAGES ==> !slot_has_aid(#[trigger] self.package_slots()[j], aid@),
            },
    {
        let mut i: usize = 0;
        while i < MAX_PACKAGES
            invariant
                i <= MAX_PACKAGES,
                MAX_PACKAGES <= 256,
                forall|j: int|
                    0 <= j < MAX_PACKAGES && (#[trigger] self.package_slots()[j] matches Some(p)
                        && p.aid_len > MAX_AID_LEN) ==> exists|k: int|
                        0 <= k < j && slot_has_aid(#[trigger] self.package_slots()[k], aid@),
                forall|j: int| 0 <= j < i ==> !slot_has_aid(#[trigger] self.packages@[j], aid@),
            decreases MAX_PACKAGES - i,
        {
            let ghost slot = self.package_slots()[i as int];
            if let Some(pkg) = &self.packages[i] {
                assert(slot == Some(*pkg));
                if pkg.aid_matches(aid) {
                    return Some(i as u8);
                }
            }
            i = i + 1;
        }
        None
    }

    /// Mutable access to the transaction journal.
    pub fn journal_mut(&mut self) -> (r: &mut TransactionJournal<JOURNAL_CAP>)
        ensures
            *r == old(self).journal_view(),
            final(self).journal_view() == *final(r),
            final(self).stack_words() == old(self).stack_words(),
            final(self).heap_view() == old(self).heap_view(),
            final(self).package_slots() == old(self).package_slots(),
            final(self).static_bytes() == old(self).static_bytes(),
            final(self).process_method_index() == old(self).process_method_index(),
            final(self).context() == old(self).context(),
            final(self).opcode_count_view() == old(self).opcode_count_view(),
            final(self).instructions() == old(self).instructions(),
            final(self).frame_depth_mark() == old(self).frame_depth_mark(),
            old(self).wf() && final(r).wf() ==> final(self).wf(),
            old(self).wf() ==> r.wf(),
            final(self).same_but_journal(old(self)),
    {
        &mut self.journal
    }

    /// What [`JcVM::abort_transaction`] does.
    pub open spec fn abort_outcome(old: Self, new: Self, r: Result<(), TransactionError>) -> bool {
        &&& new.keeps_config(&old)
        &&& new.wf()
        &&& !old.journal_view().active_spec() ==> r == Err::<(), TransactionError>(
            TransactionError::NotActive,
        ) && new == old
        &&& old.journal_view().active_spec() ==> r is Ok && !new.journal_view().active_spec()
            && new.journal_view().entry_count() == 0 && new.heap_view().free_ptr()
            == old.heap_view().free_ptr() && new.heap_view().bytes() == crate::transaction::rollback(
            old.heap_view().bytes(),
            old.heap_view().free_ptr(),
            old.journal_view().recorded(),
        )
        &&& new.stack_words() == old.stack_words()
        &&& new.package_slots() == old.package_slots()
        &&& new.static_bytes() == old.static_bytes()
        &&& new.context() == old.context()
    }

    /// Abort the current transaction, rolling back the journalled heap writes.
    pub fn abort_transaction(&mut self) -> (r: Result<(), TransactionError>)
        requires
            old(self).wf(),
        ensures
            Self::abort_outcome(*old(self), *final(self), r),
    {
        self.journal.abort(&mut self.heap)
    }

    /// Set the method run for an APDU.
    pub fn set_process_method(&mut self, method_idx: u8)
        requires
            old(self).wf(),
        ensures
            final(self).wf(),
            final(self).process_method_index() == method_idx,
            final(self).stack_words() == old(self).stack_words(),
            final(self).heap_view() == old(self).heap_view(),
            final(self).package_slots() == old(self).package_slots(),
            final(self).static_bytes() == old(self).static_bytes(),
            final(self).journal_view() == old(self).journal_view(),
            final(self).context() == old(self).context(),
    {
        self.process_method = method_idx;
    }

    /// The heap.
    pub fn heap(&self) -> (r: &ObjectHeap<HEAP_SIZE>)
        ensures
            *r == self.heap_view(),
    {
        &self.heap
    }

    /// Mutable access to the heap.
    pub fn heap_mut(&mut self) -> (r: &mut ObjectHeap<HEAP_SIZE>)
        ensures
            *r == old(self).heap_view(),
            final(self).heap_view() == *final(r),
            final(self).stack_words() == old(self).stack_words(),
            final(self).package_slots() == old(self).package_slots(),
            final(self).static_bytes() == old(self).static_bytes(),
            final(self).journal_view() == old(self).journal_view(),
            final(self).process_method_index() == old(self).process_method_index(),
            final(self).context() == old(self).context(),
            old(self).wf() && final(r).wf() ==> final(self).wf(),
    {
        &mut self.heap
    }

    // ------------------------------------------------------------------ operand stack

    /// Push a word onto the operand stack.
    pub(crate) fn push(&mut self, val: u16) -> (r: Result<(), ExecResult>)
        requires
            old(self).wf(),
        ensures
            final(self).keeps_config(old(self)),
            final(self).wf(),
            final(self).same_but_stack(old(self)),
            old(self).stack_words().len() < MAX_STACK ==> r is Ok && final(self).stack_words()
                == old(self).stack_words().push(val),
            old(self).stack_words().len() >= MAX_STACK ==> r == Err::<(), ExecResult>(
                ExecResult::StackOverflow,
            ) && *final(self) == *old(self),
    {
        if self.stack_ptr as usize >= MAX_STACK {
            return Err(ExecResult::StackOverflow);
        }
        let ghost before = self.stack_words();
        self.stack[self.stack_ptr as usize] = val;
        self.stack_ptr = self.stack_ptr + 1;
        assert(self.stack_words() =~= before.push(val));
        Ok(())
    }

    /// Pop a word from the operand stack.
    pub(crate) fn pop(&mut self) -> (r: Result<u16, ExecResult>)
        requires
            old(self).wf(),
        ensures
            final(self).keeps_config(old(self)),
            final(self).wf(),
            final(self).same_but_stack(old(self)),
            final(self).raw_stack() == old(self).raw_stack(),
            old(self).stack_words().len() > 0 ==> r == Ok::<u16, ExecResult>(
                old(self).stack_words().last(),
            ) && final(self).stack_words() == old(self).stack_words().drop_last(),
            old(self).stack_words().len() == 0 ==> r == Err::<u16, ExecResult>(
                ExecResult::StackUnderflow,
            ) && *final(self) == *old(self),
    {
        if self.stack_ptr == 0 {
            return Err(ExecResult::StackUnderflow);
        }
        let ghost before = self.stack_words();
        self.stack_ptr = self.stack_ptr - 1;
        assert(self.stack_words() =~= before.drop_last());
        Ok(self.stack[self.stack_ptr as usize])
    }

    /// Pop a word and read it as a signed short.
    pub(crate) fn pop_i16(&mut self) -> (r: Result<i16, ExecResult>)
        requires
            old(self).wf(),
        ensures
            final(self).keeps_config(old(self)),
            final(self).wf(),
            final(self).same_but_stack(old(self)),
            final(self).raw_stack() == old(self).raw_stack(),
            old(self).stack_words().len() > 0 ==> r == Ok::<i16, ExecResult>(
                old(self).stack_words().last() as i16,
            ) && final(self).stack_words() == old(self).stack_words().drop_last(),
            old(self).stack_words().len() == 0 ==> r == Err::<i16, ExecResult>(
                ExecResult::StackUnderflow,
            ) && *final(self) == *old(self),
    {
        match self.pop() {
            Ok(v) => Ok(v as i16),
            Err(e) => Err(e),
        }
    }

    /// The top word, without removing it.
    pub(crate) fn peek(&self) -> (r: Result<u16, ExecResult>)
        requires
            self.wf(),
        ensures
            self.stack_words().len() > 0 ==> r == Ok::<u16, ExecResult>(self.stack_words().last()),
            self.stack_words().len() == 0 ==> r == Err::<u16, ExecResult>(ExecResult::StackUnderflow),
    {
        if self.stack_ptr == 0 {
            return Err(ExecResult::StackUnderflow);
        }
        Ok(self.stack[self.stack_ptr as usize - 1])
    }

    /// Pop a 32-bit int: the low word on top, the high word beneath it.
    pub(crate) fn pop_int(&mut self) -> (r: Result<i32, ExecResult>)
        requires
            old(self).wf(),
        ensures
            final(self).keeps_config(old(self)),
            final(self).wf(),
            final(self).same_but_stack(old(self)),
            final(self).raw_stack() == old(self).raw_stack(),
            old(self).stack_words().len() >= 2 ==> r == Ok::<i32, ExecResult>(
                ops::int_of_words(
                    old(self).stack_words()[old(self).stack_words().len() - 2],
                    old(self).stack_words().last(),
                ),
            ) && final(self).stack_words() == old(self).stack_words().subrange(
                0,
                old(self).stack_words().len() - 2,
            ),
            old(self).stack_words().len() < 2 ==> r == Err::<i32, ExecResult>(
                ExecResult::StackUnderflow,
            ),
    {
        let lo = self.pop()?;
        let hi = self.pop()?;
        Ok(ops::words_to_int(hi, lo))
    }

    /// Push a 32-bit int: the high word, then the low word.
    pub(crate) fn push_int(&mut self, val: i32) -> (r: Result<(), ExecResult>)
        requires
            old(self).wf(),
        ensures
            final(self).keeps_config(old(self)),
            final(self).wf(),
            final(self).same_but_stack(old(self)),
            old(self).stack_words().len() + 2 <= MAX_STACK ==> r is Ok && final(self).stack_words()
                == old(self).stack_words().push(ops::high_word(val)).push(ops::low_word(val)),
            old(self).stack_words().len() + 2 > MAX_STACK ==> r == Err::<(), ExecResult>(
                ExecResult::StackOverflow,
            ),
    {
        let (hi, lo) = ops::int_to_words(val);
        self.push(hi)?;
        self.push(lo)?;
        Ok(())
    }

    /// Push a word onto the operand stack (for native methods).
    pub fn push_pub(&mut self, val: u16) -> (r: Result<(), ExecResult>)
        requires
            old(self).wf(),
        ensures
            final(self).keeps_config(old(self)),
            final(self).wf(),
            final(self).same_but_stack(old(self)),
            old(self).stack_words().len() < MAX_STACK ==> r is Ok && final(self).stack_words()
                == old(self).stack_words().push(val),
            old(self).stack_words().len() >= MAX_STACK ==> r == Err::<(), ExecResult>(
                ExecResult::StackOverflow,
            ) && *final(self) == *old(self),
    {
        self.push(val)
    }

    /// Pop a word as a signed short (for native methods).
    pub fn pop_i16_pub(&mut self) -> (r: Result<i16, ExecResult>)
        requires
            old(self).wf(),
        ensures
            final(self).keeps_config(old(self)),
            final(self).wf(),
            final(self).same_but_stack(old(self)),
            final(self).raw_stack() == old(self).raw_stack(),
            old(self).stack_words().len() > 0 ==> r == Ok::<i16, ExecResult>(
                old(self).stack_words().last() as i16,
            ) && final(self).stack_words() == old(self).stack_words().drop_last(),
            old(self).stack_words().len() == 0 ==> r == Err::<i16, ExecResult>(
                ExecResult::StackUnderflow,
            ) && *final(self) == *old(self),
    {
        self.pop_i16()
    }

    // ------------------------------------------------------------------ heap helpers

    /// Allocate a 256-byte APDU buffer owned by the current context.
    pub fn alloc_apdu_buffer(&mut self) -> (r: Option<ObjRef>)
        requires
            old(self).wf(),
        ensures
            final(self).keeps_config(old(self)),
            final(self).wf(),
            final(self).same_but_stack_heap(old(self)),
            final(self).stack_words() == old(self).stack_words(),
            ObjectHeap::<HEAP_SIZE>::alloc_outcome(
                old(self).heap_view(),
                final(self).heap_view(),
                old(self).context(),
                ObjectKind::ByteArray,
                256,
                256,
                r,
            ),
    {
        let r = self.heap.alloc_byte_array(self.current_context, 256);
        r
    }

    /// Allocate a byte array owned by the current context.
    pub fn alloc_byte_array(&mut self, length: u16) -> (r: Option<ObjRef>)
        requires
            old(self).wf(),
        ensures
            final(self).keeps_config(old(self)),
            final(self).wf(),
            final(self).same_but_stack_heap(old(self)),
            final(self).stack_words() == old(self).stack_words(),
            ObjectHeap::<HEAP_SIZE>::alloc_outcome(
                old(self).heap_view(),
                final(self).heap_view(),
                old(self).context(),
                ObjectKind::ByteArray,
                length,
                length as int,
                r,
            ),
    {
        self.heap.alloc_byte_array(self.current_context, length)
    }

    /// Allocate a short array owned by the current context.
    pub fn alloc_short_array(&mut self, length: u16) -> (r: Option<ObjRef>)
        requires
            old(self).wf(),
        ensures
            final(self).keeps_config(old(self)),
            final(self).wf(),
            final(self).same_but_stack_heap(old(self)),
            final(self).stack_words() == old(self).stack_words(),
            ObjectHeap::<HEAP_SIZE>::alloc_outcome(
                old(self).heap_view(),
                final(self).heap_view(),
                old(self).context(),
                ObjectKind::ShortArray,
                length,
                2 * length,
                r,
            ),
    {
        self.heap.alloc_short_array(self.current_context, length)
    }
}


/// What an access refused by the heap raises: null reference, index out of bounds,
/// wrong kind of object, firewall denial.
pub open spec fn access_result(e: AccessError) -> ExecResult {
    match e {
        AccessError::NullRef => ExecResult::NullPointerException,
        AccessError::OutOfBounds => ExecResult::ArrayIndexOutOfBounds,
        AccessError::TypeMismatch => ExecResult::ArrayStoreException,
        AccessError::Security(_) => ExecResult::SecurityException,
    }
}

/// What a refused field access raises: a firewall denial, or a null pointer for any
/// other refusal.
pub open spec fn field_result(e: AccessError) -> ExecResult {
    match e {
        AccessError::Security(_) => ExecResult::SecurityException,
        _ => ExecResult::NullPointerException,
    }
}

fn map_access(e: AccessError) -> (r: ExecResult)
    ensures
        r == access_result(e),
{
    match e {
        AccessError::NullRef => ExecResult::NullPointerException,
        AccessError::OutOfBounds => ExecResult::ArrayIndexOutOfBounds,
        AccessError::TypeMismatch => ExecResult::ArrayStoreException,
        AccessError::Security(_) => ExecResult::SecurityException,
    }
}

fn map_field(e: AccessError) -> (r: ExecResult)
    ensures
        r == field_result(e),
{
    match e {
        AccessError::Security(_) => ExecResult::SecurityException,
        _ => ExecResult::NullPointerException,
    }
}

/// Maximum instructions one run executes before it is stopped.
pub const EXEC_LIMIT: u32 = 100_000;

impl<const HEAP_SIZE: usize, const MAX_PACKAGES: usize> JcVM<HEAP_SIZE, MAX_PACKAGES> {
    /// The locals base of the current frame.
    pub closed spec fn locals_base(&self) -> int {
        if self.frame_ptr > 0 {
            self.frames@[self.frame_ptr - 1].locals_base as int
        } else {
            0
        }
    }

    /// Local variable `idx` of the current frame (0 past the locals area).
    pub closed spec fn local(&self, idx: int) -> u16 {
        if 0 <= self.locals_base() + idx < MAX_LOCALS {
            self.locals@[self.locals_base() + idx]
        } else {
            0
        }
    }

    /// `self` ran from `old`: still well formed, with the same packages, process method,
    /// applet context and instruction counts, and a call-depth mark at least as high.
    pub open spec fn keeps_config(&self, old: &Self) -> bool {
        &&& self.wf()
        &&& self.package_slots() == old.package_slots()
        &&& self.process_method_index() == old.process_method_index()
        &&& self.context() == old.context()
        &&& self.opcode_count_view() == old.opcode_count_view()
        &&& self.instructions() == old.instructions()
        &&& self.frame_depth_mark() >= old.frame_depth_mark()
    }

    /// `self` and `old` agree on the packages, the journal, the call frames, where
    /// execution is (package, method, applet context), the process method and the
    /// execution counters.
    pub closed spec fn kept_frame(&self, old: &Self) -> bool {
        &&& self.packages == old.packages && self.journal == old.journal
        &&& self.frames == old.frames && self.frame_ptr == old.frame_ptr
        &&& self.current_pkg == old.current_pkg && self.current_method == old.current_method
        &&& self.current_context == old.current_context
        &&& self.process_method == old.process_method
        &&& self.opcode_counts == old.opcode_counts
        &&& self.total_instructions == old.total_instructions
        &&& self.max_frame_depth == old.max_frame_depth
    }

    /// `self` is `old` with the operand stack `stack` and the program counter at `pc`,
    /// the locals `locals`, the static field image `statics` and the heap `heap`;
    /// nothing else changed.
    pub closed spec fn moved_all(
        &self,
        old: &Self,
        stack: Seq<u16>,
        pc: int,
        locals: Seq<u16>,
        statics: Seq<u8>,
        heap: ObjectHeap<HEAP_SIZE>,
    ) -> bool {
        &&& self.wf()
        &&& self.stack_words() =~= stack
        &&& self.pc == pc
        &&& self.locals@ =~= locals
        &&& self.static_fields@ =~= statics
        &&& self.heap == heap
        &&& self.kept_frame(old)
    }

    /// `self` is `old` with the operand stack `stack` and the program counter at `pc`;
    /// nothing else changed.
    pub open spec fn moved(&self, old: &Self, stack: Seq<u16>, pc: int) -> bool {
        self.moved_all(old, stack, pc, old.locals_view(), old.static_bytes(), old.heap_view())
    }

    /// The local variable area.
    pub closed spec fn locals_view(&self) -> Seq<u16> {
        self.locals@
    }

    /// The locals after setting local `idx` of the current frame to `v` (unchanged past
    /// the locals area).
    pub closed spec fn locals_set(&self, locals: Seq<u16>, idx: int, v: u16) -> Seq<u16> {
        if 0 <= self.locals_base() + idx < MAX_LOCALS {
            locals.update(self.locals_base() + idx, v)
        } else {
            locals
        }
    }

    /// The effect of an instruction that pops `k` words and pushes `words`, the program
    /// counter then at `pc`: with fewer than `k` words on the stack it stops with a stack
    /// underflow, where the pushed words do not fit with a stack overflow, and otherwise
    /// it goes on with only the stack and the program counter changed.
    pub open spec fn stack_step(
        &self,
        old: &Self,
        r: Option<ExecResult>,
        k: int,
        words: Seq<u16>,
        pc: int,
    ) -> bool {
        let sw = old.stack_words();
        if sw.len() < k {
            r == Some(ExecResult::StackUnderflow) && self.kept_persistent(old)
        } else if sw.len() - k + words.len() > MAX_STACK {
            r == Some(ExecResult::StackOverflow) && self.kept_persistent(old)
        } else {
            r is None && self.moved(old, sw.subrange(0, sw.len() - k) + words, pc)
        }
    }

    /// The persistent state (heap, static fields, package slots and journal) is as in
    /// `old`.
    pub open spec fn kept_persistent(&self, old: &Self) -> bool {
        &&& self.heap_view() == old.heap_view()
        &&& self.static_bytes() == old.static_bytes()
        &&& self.package_slots() == old.package_slots()
        &&& self.journal_view() == old.journal_view()
    }

    /// The words of a 32-bit int on the stack: the high word, then the low word.
    pub open spec fn int_words(v: i32) -> Seq<u16> {
        seq![ops::high_word(v), ops::low_word(v)]
    }

    pub closed spec fn same_but_pc(&self, other: &Self) -> bool {
        &&& self.heap == other.heap && self.packages == other.packages
        &&& self.static_fields == other.static_fields && self.journal == other.journal
        &&& self.stack == other.stack && self.stack_ptr == other.stack_ptr
        &&& self.frames == other.frames && self.frame_ptr == other.frame_ptr
        &&& self.locals == other.locals && self.current_pkg == other.current_pkg
        &&& self.current_method == other.current_method
        &&& self.current_context == other.current_context
        &&& self.process_method == other.process_method
        &&& self.opcode_counts == other.opcode_counts
        &&& self.total_instructions == other.total_instructions
        &&& self.max_frame_depth == other.max_frame_depth
    }

    /// Local variable `idx` of the current frame (0 past the locals area).
    fn get_local(&self, idx: u8) -> (r: u16)
        requires
            self.wf(),
        ensures
            r == self.local(idx as int),
    {
        let base: usize = if self.frame_ptr > 0 {
            self.frames[self.frame_ptr as usize - 1].locals_base as usize
        } else {
            0
        };
        let abs = base + idx as usize;
        if abs < MAX_LOCALS {
            self.locals[abs]
        } else {
            0
        }
    }

    /// Set local variable `idx` of the current frame (ignored past the locals area).
    fn set_local(&mut self, idx: u8, val: u16)
        requires
            old(self).wf(),
        ensures
            final(self).keeps_config(old(self)),
            final(self).kept_frame(old(self)),
            final(self).stack_words() == old(self).stack_words(),
            final(self).heap == old(self).heap,
            final(self).static_fields == old(self).static_fields,
            final(self).journal == old(self).journal,
            final(self).frames == old(self).frames,
            final(self).frame_ptr == old(self).frame_ptr,
            final(self).pc == old(self).pc,
            final(self).current_pkg == old(self).current_pkg,
            final(self).current_method == old(self).current_method,
            final(self).stack_ptr == old(self).stack_ptr,
            final(self).locals@ == (if old(self).locals_base() + idx < MAX_LOCALS {
                old(self).locals@.update(old(self).locals_base() + idx, val)
            } else {
                old(self).locals@
            }),
    {
        let base: usize = if self.frame_ptr > 0 {
            self.frames[self.frame_ptr as usize - 1].locals_base as usize
        } else {
            0
        };
        let abs = base + idx as usize;
        if abs < MAX_LOCALS {
            self.locals[abs] = val;
        }
    }

    /// The next bytecode byte, advancing the program counter; `None` at the end.
    fn fetch_u8(&mut self, bc: &[u8; MAX_BYTECODE], len: u16) -> (r: Option<u8>)
        requires
            old(self).wf(),
            len <= MAX_BYTECODE,
        ensures
            final(self).same_but_pc(old(self)),
            final(self).wf(),
            old(self).pc < len ==> r == Some(bc@[old(self).pc as int]) && final(self).pc == old(self).pc + 1,
            old(self).pc >= len ==> r is None && final(self).pc == old(self).pc,
    {
        if self.pc >= len {
            return None;
        }
        let v = bc[self.pc as usize];
        self.pc = self.pc + 1;
        Some(v)
    }

    /// The next two bytecode bytes as a big-endian word.
    fn fetch_u16(&mut self, bc: &[u8; MAX_BYTECODE], len: u16) -> (r: Option<u16>)
        requires
            old(self).wf(),
            len <= MAX_BYTECODE,
        ensures
            final(self).same_but_pc(old(self)),
            final(self).wf(),
            old(self).pc + 2 <= len ==> r == Some(
                crate::bytes::be16(bc@[old(self).pc as int], bc@[old(self).pc + 1]),
            ) && final(self).pc == old(self).pc + 2,
            old(self).pc + 2 > len ==> r is None,
    {
        let hi = self.fetch_u8(bc, len)?;
        let lo = self.fetch_u8(bc, len)?;
        Some(crate::bytes::read_be16(hi, lo))
    }

    /// The next two bytecode bytes as a big-endian signed short.
    fn fetch_i16(&mut self, bc: &[u8; MAX_BYTECODE], len: u16) -> (r: Option<i16>)
        requires
            old(self).wf(),
            len <= MAX_BYTECODE,
        ensures
            final(self).same_but_pc(old(self)),
            final(self).wf(),
            old(self).pc + 2 <= len ==> r == Some(
                crate::bytes::be16(bc@[old(self).pc as int], bc@[old(self).pc + 1]) as i16,
            ) && final(self).pc == old(self).pc + 2,
            old(self).pc + 2 > len ==> r is None,
    {
        let v = self.fetch_u16(bc, len)?;
        Some(v as i16)
    }

    /// The next four bytecode bytes as a big-endian signed int.
    fn fetch_i32(&mut self, bc: &[u8; MAX_BYTECODE], len: u16) -> (r: Option<i32>)
        requires
            old(self).wf(),
            len <= MAX_BYTECODE,
        ensures
            final(self).same_but_pc(old(self)),
            final(self).wf(),
            old(self).pc + 4 <= len ==> r == Some(
                crate::bytes::be32(
                    bc@[old(self).pc as int],
                    bc@[old(self).pc + 1],
                    bc@[old(self).pc + 2],
                    bc@[old(self).pc + 3],
                ) as i32,
            ) && final(self).pc == old(self).pc + 4,
            old(self).pc + 4 > len ==> r is None,
    {
        let b0 = self.fetch_u8(bc, len)?;
        let b1 = self.fetch_u8(bc, len)?;
        let b2 = self.fetch_u8(bc, len)?;
        let b3 = self.fetch_u8(bc, len)?;
        Some(crate::bytes::read_be32(b0, b1, b2, b3) as i32)
    }

    /// The method `method_idx` of package `pkg_idx`, if both exist.
    pub closed spec fn method_at(&self, pkg_idx: u8, method_idx: u8) -> Option<crate::cap::MethodInfo> {
        if pkg_idx < MAX_PACKAGES && self.packages@[pkg_idx as int] is Some && method_idx
            < crate::cap::MAX_METHODS
            && self.packages@[pkg_idx as int]->0.methods@[method_idx as int] is Some {
            Some(self.packages@[pkg_idx as int]->0.methods@[method_idx as int]->0)
        } else {
            None
        }
    }

    /// `(nargs, max_locals)` of a method, if it exists.
    fn method_info(&self, pkg_idx: u8, method_idx: u8) -> (r: Option<(u8, u8)>)
        ensures
            match self.method_at(pkg_idx, method_idx) {
                Some(m) => r == Some((m.nargs, m.max_locals)),
                None => r is None,
            },
    {
        if pkg_idx as usize >= MAX_PACKAGES {
            return None;
        }
        match &self.packages[pkg_idx as usize] {
            None => None,
            Some(pkg) => match pkg.method(method_idx) {
                None => None,
                Some(m) => Some((m.nargs, m.max_locals)),
            },
        }
    }

    /// The current method's bytecode and its length (at most the bytecode capacity).
    fn current_bytecode(&self) -> (r: Option<(u16, [u8; MAX_BYTECODE])>)
        ensures
            match self.method_at(self.current_pkg, self.current_method) {
                Some(m) => r matches Some((len, bc)) && bc == m.bytecode && len == (if m.bytecode_len
                    <= MAX_BYTECODE {
                    m.bytecode_len
                } else {
                    MAX_BYTECODE as u16
                }),
                None => r is None,
            },
    {
        if self.current_pkg as usize >= MAX_PACKAGES {
            return None;
        }
        match &self.packages[self.current_pkg as usize] {
            None => None,
            Some(pkg) => match pkg.method(self.current_method) {
                None => None,
                Some(m) => {
                    let len = if (m.bytecode_len as usize) <= MAX_BYTECODE {
                        m.bytecode_len
                    } else {
                        MAX_BYTECODE as u16
                    };
                    Some((len, m.bytecode))
                },
            },
        }
    }

    /// Pop two shorts: the top one is `b`, the one beneath it `a`; gives `(a, b)`.
    fn pop2_i16(&mut self) -> (r: Result<(i16, i16), ExecResult>)
        requires
            old(self).wf(),
        ensures
            final(self).wf(),
            final(self).same_but_stack(old(self)),
            old(self).stack_words().len() >= 2 ==> r == Ok::<(i16, i16), ExecResult>(
                (
                    old(self).stack_words()[old(self).stack_words().len() - 2] as i16,
                    old(self).stack_words().last() as i16,
                ),
            ) && final(self).stack_words() == old(self).stack_words().subrange(
                0,
                old(self).stack_words().len() - 2,
            ),
            old(self).stack_words().len() < 2 ==> r == Err::<(i16, i16), ExecResult>(
                ExecResult::StackUnderflow,
            ),
    {
        let b = self.pop_i16()?;
        let a = self.pop_i16()?;
        Ok((a, b))
    }

    /// Pop two words: the top one is `b`, the one beneath it `a`; gives `(a, b)`.
    fn pop2(&mut self) -> (r: Result<(u16, u16), ExecResult>)
        requires
            old(self).wf(),
        ensures
            final(self).wf(),
            final(self).same_but_stack(old(self)),
            old(self).stack_words().len() >= 2 ==> r == Ok::<(u16, u16), ExecResult>(
                (
                    old(self).stack_words()[old(self).stack_words().len() - 2],
                    old(self).stack_words().last(),
                ),
            ) && final(self).stack_words() == old(self).stack_words().subrange(
                0,
                old(self).stack_words().len() - 2,
            ),
            old(self).stack_words().len() < 2 ==> r == Err::<(u16, u16), ExecResult>(
                ExecResult::StackUnderflow,
            ),
    {
        let b = self.pop()?;
        let a = self.pop()?;
        Ok((a, b))
    }

    /// Pop two ints: the top one is `b`, the one beneath it `a`; gives `(a, b)`.
    fn pop2_int(&mut self) -> (r: Result<(i32, i32), ExecResult>)
        requires
            old(self).wf(),
        ensures
            final(self).wf(),
            final(self).same_but_stack(old(self)),
            old(self).stack_words().len() >= 4 ==> r == Ok::<(i32, i32), ExecResult>(
                (
                    ops::int_of_words(
                        old(self).stack_words()[old(self).stack_words().len() - 4],
                        old(self).stack_words()[old(self).stack_words().len() - 3],
                    ),
                    ops::int_of_words(
                        old(self).stack_words()[old(self).stack_words().len() - 2],
                        old(self).stack_words().last(),
                    ),
                ),
            ) && final(self).stack_words() == old(self).stack_words().subrange(
                0,
                old(self).stack_words().len() - 4,
            ),
            old(self).stack_words().len() < 4 ==> r == Err::<(i32, i32), ExecResult>(
                ExecResult::StackUnderflow,
            ),
    {
        let b = self.pop_int()?;
        let a = self.pop_int()?;
        Ok((a, b))
    }

    /// Continue with `Ok`, or stop with the error.
    fn stop_on(r: Result<(), ExecResult>) -> (s: Option<ExecResult>)
        ensures
            match r {
                Ok(_) => s is None,
                Err(e) => s == Some(e),
            },
    {
        match r {
            Ok(()) => None,
            Err(e) => Some(e),
        }
    }

    /// Jump `back` bytes before the program counter, then by `offset`, when `taken`.
    fn branch(&mut self, taken: bool, back: u16, offset: i32)
        requires
            old(self).wf(),
        ensures
            final(self).same_but_pc(old(self)),
            final(self).wf(),
            final(self).pc == (if taken {
                ops::branch_pc(old(self).pc, back, offset as int)
            } else {
                old(self).pc
            }),
    {
        if taken {
            self.pc = ops::branch_target(self.pc, back, offset);
        }
    }

    // ------------------------------------------------------------------ opcode groups

    /// What a constant or immediate push does: `nop` nothing; `aconst_null`, `sconst_*`
    /// and `iconst_*` push their constant; `bspush`, `sspush` and `iipush` push their
    /// sign-extended 1-byte, 2-byte and 4-byte operands, or stop at the end of the
    /// bytecode when the operand does not fit in it.
    pub open spec fn push_const_effect(
        old: Self,
        op: u8,
        bc: [u8; MAX_BYTECODE],
        len: u16,
        new: Self,
        r: Option<ExecResult>,
    ) -> bool {
        let pc = old.pc_value() as int;
        if op == opcodes::NOP {
            r is None && new.moved(&old, old.stack_words(), pc)
        } else if op == opcodes::ACONST_NULL {
            new.stack_step(&old, r, 0, seq![0u16], pc)
        } else if opcodes::SCONST_M1 <= op <= opcodes::SCONST_5 {
            new.stack_step(&old, r, 0, seq![(op - opcodes::SCONST_0) as u16], pc)
        } else if opcodes::ICONST_M1 <= op <= opcodes::ICONST_5 {
            new.stack_step(&old, r, 0, Self::int_words((op - opcodes::ICONST_0) as i32), pc)
        } else if op == opcodes::BSPUSH {
            if pc < len {
                new.stack_step(&old, r, 0, seq![((bc@[pc] as i8) as i16) as u16], pc + 1)
            } else {
                r == Some(ExecResult::EndOfBytecode)
            }
        } else if op == opcodes::SSPUSH {
            if pc + 2 <= len {
                new.stack_step(&old, r, 0, seq![crate::bytes::be16(bc@[pc], bc@[pc + 1])], pc + 2)
            } else {
                r == Some(ExecResult::EndOfBytecode)
            }
        } else if op == opcodes::IIPUSH {
            if pc + 4 <= len {
                new.stack_step(
                    &old,
                    r,
                    0,
                    Self::int_words(
                        crate::bytes::be32(bc@[pc], bc@[pc + 1], bc@[pc + 2], bc@[pc + 3]) as i32,
                    ),
                    pc + 4,
                )
            } else {
                r == Some(ExecResult::EndOfBytecode)
            }
        } else {
            r == Some(ExecResult::InvalidOpcode(op))
        }
    }

    /// Constants and immediate pushes.
    fn exec_push_const(&mut self, op: u8, bc: &[u8; MAX_BYTECODE], len: u16) -> (r: Option<
        ExecResult,
    >)
        requires
            old(self).wf(),
            len <= MAX_BYTECODE,
        ensures
            final(self).journal == old(self).journal,
            final(self).keeps_config(old(self)),
            final(self).heap == old(self).heap,
            final(self).static_fields == old(self).static_fields,
            Self::push_const_effect(*old(self), op, *bc, len, *final(self), r),
    {
        if op == opcodes::NOP {
            None
        } else if op == opcodes::ACONST_NULL {
            Self::stop_on(self.push(0))
        } else if opcodes::SCONST_M1 <= op && op <= opcodes::SCONST_5 {
            let v = (op as i16) - (opcodes::SCONST_0 as i16);
            Self::stop_on(self.push(v as u16))
        } else if opcodes::ICONST_M1 <= op && op <= opcodes::ICONST_5 {
            let v = (op as i32) - (opcodes::ICONST_0 as i32);
            Self::stop_on(self.push_int(v))
        } else if op == opcodes::BSPUSH {
            let b = match self.fetch_u8(bc, len) {
                Some(b) => b,
                None => return Some(ExecResult::EndOfBytecode),
            };
            Self::stop_on(self.push((b as i8) as i16 as u16))
        } else if op == opcodes::SSPUSH {
            let v = match self.fetch_u16(bc, len) {
                Some(v) => v,
                None => return Some(ExecResult::EndOfBytecode),
            };
            Self::stop_on(self.push(v))
        } else if op == opcodes::IIPUSH {
            let v = match self.fetch_i32(bc, len) {
                Some(v) => v,
                None => return Some(ExecResult::EndOfBytecode),
            };
            Self::stop_on(self.push_int(v))
        } else {
            Some(ExecResult::InvalidOpcode(op))
        }
    }

    /// What a local variable opcode does: the loads push local `i` (a 1-byte operand, or
    /// the opcode's own index; an int load pushes locals `i` and `i + 1`), the stores pop
    /// into them, `sinc` and `iinc` add a signed 1-byte constant to a short or int local.
    /// An operand past the bytecode stops the run at the end of the bytecode.
    pub open spec fn locals_effect(
        old: Self,
        op: u8,
        bc: [u8; MAX_BYTECODE],
        len: u16,
        new: Self,
        r: Option<ExecResult>,
    ) -> bool {
        let sw = old.stack_words();
        let n = sw.len();
        let pc = old.pc_value() as int;
        let lv = old.locals_view();
        if op == opcodes::ALOAD || op == opcodes::SLOAD {
            if pc < len {
                new.stack_step(&old, r, 0, seq![old.local(bc@[pc] as int)], pc + 1)
            } else {
                r == Some(ExecResult::EndOfBytecode)
            }
        } else if opcodes::ALOAD_0 <= op <= opcodes::ALOAD_3 {
            new.stack_step(&old, r, 0, seq![old.local(op - opcodes::ALOAD_0)], pc)
        } else if opcodes::SLOAD_0 <= op <= opcodes::SLOAD_3 {
            new.stack_step(&old, r, 0, seq![old.local(op - opcodes::SLOAD_0)], pc)
        } else if op == opcodes::ILOAD || (opcodes::ILOAD_0 <= op <= opcodes::ILOAD_3) {
            let fetch = op == opcodes::ILOAD;
            let idx: int = if fetch {
                bc@[pc] as int
            } else {
                op - opcodes::ILOAD_0
            };
            if fetch && pc >= len {
                r == Some(ExecResult::EndOfBytecode)
            } else {
                new.stack_step(
                    &old,
                    r,
                    0,
                    seq![old.local(idx), old.local((idx + 1) % 256)],
                    if fetch {
                        pc + 1
                    } else {
                        pc
                    },
                )
            }
        } else if op == opcodes::SSTORE || op == opcodes::ASTORE || op == opcodes::ASTORE_0 || (
        opcodes::SSTORE_0 <= op <= opcodes::SSTORE_3) {
            let fetch = op == opcodes::SSTORE || op == opcodes::ASTORE;
            let idx: int = if fetch {
                bc@[pc] as int
            } else if op == opcodes::ASTORE_0 {
                0
            } else {
                op - opcodes::SSTORE_0
            };
            let pc2 = if fetch {
                pc + 1
            } else {
                pc
            };
            if fetch && pc >= len {
                r == Some(ExecResult::EndOfBytecode)
            } else if n < 1 {
                r == Some(ExecResult::StackUnderflow)
            } else {
                r is None && new.moved_all(
                    &old,
                    sw.subrange(0, n - 1),
                    pc2,
                    old.locals_set(lv, idx, sw[n - 1]),
                    old.static_bytes(),
                    old.heap_view(),
                )
            }
        } else if op == opcodes::ISTORE || (opcodes::ISTORE_0 <= op <= opcodes::ISTORE_3) {
            let fetch = op == opcodes::ISTORE;
            let idx: int = if fetch {
                bc@[pc] as int
            } else {
                op - opcodes::ISTORE_0
            };
            let pc2 = if fetch {
                pc + 1
            } else {
                pc
            };
            if fetch && pc >= len {
                r == Some(ExecResult::EndOfBytecode)
            } else if n < 2 {
                r == Some(ExecResult::StackUnderflow)
            } else {
                r is None && new.moved_all(
                    &old,
                    sw.subrange(0, n - 2),
                    pc2,
                    old.locals_set(old.locals_set(lv, idx, sw[n - 2]), (idx + 1) % 256, sw[n - 1]),
                    old.static_bytes(),
                    old.heap_view(),
                )
            }
        } else if op == opcodes::SINC || op == opcodes::IINC {
            let idx: int = bc@[pc] as int;
            let c = bc@[pc + 1] as i8;
            if pc + 2 > len {
                r == Some(ExecResult::EndOfBytecode)
            } else if op == opcodes::SINC {
                r is None && new.moved_all(
                    &old,
                    sw,
                    pc + 2,
                    old.locals_set(
                        lv,
                        idx,
                        i16_specs::wrapping_add(old.local(idx) as i16, c as i16) as u16,
                    ),
                    old.static_bytes(),
                    old.heap_view(),
                )
            } else {
                let v = i32_specs::wrapping_add(
                    ops::int_of_words(old.local(idx), old.local((idx + 1) % 256)),
                    c as i32,
                );
                r is None && new.moved_all(
                    &old,
                    sw,
                    pc + 2,
                    old.locals_set(
                        old.locals_set(lv, idx, ops::high_word(v)),
                        (idx + 1) % 256,
                        ops::low_word(v),
                    ),
                    old.static_bytes(),
                    old.heap_view(),
                )
            }
        } else {
            r == Some(ExecResult::InvalidOpcode(op))
        }
    }

    /// Local variable loads.
    #[verifier::rlimit(30)]
    fn exec_loads(&mut self, op: u8, bc: &[u8; MAX_BYTECODE], len: u16) -> (r: Option<ExecResult>)
        requires
            old(self).wf(),
            len <= MAX_BYTECODE,
            opcodes::ALOAD <= op <= opcodes::ILOAD_3,
        ensures
            final(self).keeps_config(old(self)),
            final(self).heap == old(self).heap,
            final(self).static_fields == old(self).static_fields,
            final(self).packages == old(self).packages,
            final(self).journal == old(self).journal,
            Self::locals_effect(*old(self), op, *bc, len, *final(self), r),
    {
        if op == opcodes::ALOAD || op == opcodes::SLOAD {
            let idx = match self.fetch_u8(bc, len) {
                Some(b) => b,
                None => return Some(ExecResult::EndOfBytecode),
            };
            let v = self.get_local(idx);
            Self::stop_on(self.push(v))
        } else if opcodes::ALOAD_0 <= op && op <= opcodes::ALOAD_3 {
            let v = self.get_local(op - opcodes::ALOAD_0);
            Self::stop_on(self.push(v))
        } else if opcodes::SLOAD_0 <= op && op <= opcodes::SLOAD_3 {
            let v = self.get_local(op - opcodes::SLOAD_0);
            Self::stop_on(self.push(v))
        } else if op == opcodes::ILOAD || (opcodes::ILOAD_0 <= op && op <= opcodes::ILOAD_3) {
            let idx = if op == opcodes::ILOAD {
                match self.fetch_u8(bc, len) {
                    Some(b) => b,
                    None => return Some(ExecResult::EndOfBytecode),
                }
            } else {
                op - opcodes::ILOAD_0
            };
            let hi = self.get_local(idx);
            let lo = self.get_local(idx.wrapping_add(1));
            if let Err(e) = self.push(hi) {
                return Some(e);
            }
            Self::stop_on(self.push(lo))
        } else {
            Some(ExecResult::InvalidOpcode(op))
        }
    }

    /// Short and reference local stores.
    fn exec_short_stores(&mut self, op: u8, bc: &[u8; MAX_BYTECODE], len: u16) -> (r: Option<ExecResult>)
        requires
            old(self).wf(),
            len <= MAX_BYTECODE,
            op == opcodes::SSTORE || op == opcodes::ASTORE || op == opcodes::ASTORE_0 || (opcodes::SSTORE_0 <= op <= opcodes::SSTORE_3),
        ensures
            final(self).journal == old(self).journal,
            final(self).keeps_config(old(self)),
            final(self).heap == old(self).heap,
            final(self).static_fields == old(self).static_fields,
            Self::locals_effect(*old(self), op, *bc, len, *final(self), r),
    {
        if op == opcodes::SSTORE || op == opcodes::ASTORE || op == opcodes::ASTORE_0 || (
        opcodes::SSTORE_0 <= op && op <= opcodes::SSTORE_3) {
            let idx = if op == opcodes::SSTORE || op == opcodes::ASTORE {
                match self.fetch_u8(bc, len) {
                    Some(b) => b,
                    None => return Some(ExecResult::EndOfBytecode),
                }
            } else if op == opcodes::ASTORE_0 {
                0
            } else {
                op - opcodes::SSTORE_0
            };
            let v = match self.pop() {
                Ok(v) => v,
                Err(e) => return Some(e),
            };
            self.set_local(idx, v);
            None
        } else {
            Some(ExecResult::InvalidOpcode(op))
        }
    }

    /// Int local stores.
    fn exec_int_stores(&mut self, op: u8, bc: &[u8; MAX_BYTECODE], len: u16) -> (r: Option<ExecResult>)
        requires
            old(self).wf(),
            len <= MAX_BYTECODE,
            op == opcodes::ISTORE || (opcodes::ISTORE_0 <= op <= opcodes::ISTORE_3),
        ensures
            final(self).journal == old(self).journal,
            final(self).keeps_config(old(self)),
            final(self).heap == old(self).heap,
            final(self).static_fields == old(self).static_fields,
            Self::locals_effect(*old(self), op, *bc, len, *final(self), r),
    {
        if op == opcodes::ISTORE || (opcodes::ISTORE_0 <= op && op <= opcodes::ISTORE_3) {
            let idx = if op == opcodes::ISTORE {
                match self.fetch_u8(bc, len) {
                    Some(b) => b,
                    None => return Some(ExecResult::EndOfBytecode),
                }
            } else {
                op - opcodes::ISTORE_0
            };
            let (hi, lo) = match self.pop2() {
                Ok(p) => p,
                Err(e) => return Some(e),
            };
            self.set_local(idx, hi);
            self.set_local(idx.wrapping_add(1), lo);
            None
        } else {
            Some(ExecResult::InvalidOpcode(op))
        }
    }

    /// Local variable stores.
    fn exec_stores(&mut self, op: u8, bc: &[u8; MAX_BYTECODE], len: u16) -> (r: Option<ExecResult>)
        requires
            old(self).wf(),
            len <= MAX_BYTECODE,
            op == opcodes::SSTORE || op == opcodes::ASTORE || op == opcodes::ASTORE_0 || (opcodes::SSTORE_0 <= op <= opcodes::SSTORE_3) || op == opcodes::ISTORE || (opcodes::ISTORE_0 <= op <= opcodes::ISTORE_3),
        ensures
            final(self).journal == old(self).journal,
            final(self).keeps_config(old(self)),
            final(self).heap == old(self).heap,
            final(self).static_fields == old(self).static_fields,
            Self::locals_effect(*old(self), op, *bc, len, *final(self), r),
    {
        if op == opcodes::ISTORE || (opcodes::ISTORE_0 <= op && op <= opcodes::ISTORE_3) {
            self.exec_int_stores(op, bc, len)
        } else {
            self.exec_short_stores(op, bc, len)
        }
    }

    /// Local variable increments.
    fn exec_incs(&mut self, op: u8, bc: &[u8; MAX_BYTECODE], len: u16) -> (r: Option<ExecResult>)
        requires
            old(self).wf(),
            len <= MAX_BYTECODE,
            op == opcodes::SINC || op == opcodes::IINC,
        ensures
            final(self).journal == old(self).journal,
            final(self).keeps_config(old(self)),
            final(self).heap == old(self).heap,
            final(self).static_fields == old(self).static_fields,
            Self::locals_effect(*old(self), op, *bc, len, *final(self), r),
    {
        if op == opcodes::SINC {
            let idx = match self.fetch_u8(bc, len) {
                Some(b) => b,
                None => return Some(ExecResult::EndOfBytecode),
            };
            let c = match self.fetch_u8(bc, len) {
                Some(b) => b,
                None => return Some(ExecResult::EndOfBytecode),
            };
            let v = self.get_local(idx) as i16;
            self.set_local(idx, v.wrapping_add((c as i8) as i16) as u16);
            None
        } else if op == opcodes::IINC {
            let idx = match self.fetch_u8(bc, len) {
                Some(b) => b,
                None => return Some(ExecResult::EndOfBytecode),
            };
            let c = match self.fetch_u8(bc, len) {
                Some(b) => b,
                None => return Some(ExecResult::EndOfBytecode),
            };
            let hi = self.get_local(idx);
            let lo = self.get_local(idx.wrapping_add(1));
            let v = ops::words_to_int(hi, lo);
            let (h, l) = ops::int_to_words(v.wrapping_add((c as i8) as i32));
            self.set_local(idx, h);
            self.set_local(idx.wrapping_add(1), l);
            None
        } else {
            Some(ExecResult::InvalidOpcode(op))
        }
    }

    /// Local variable loads and stores, and local increments.
    fn exec_locals(&mut self, op: u8, bc: &[u8; MAX_BYTECODE], len: u16) -> (r: Option<
        ExecResult,
    >)
        requires
            old(self).wf(),
            len <= MAX_BYTECODE,
        ensures
            final(self).journal == old(self).journal,
            final(self).keeps_config(old(self)),
            final(self).heap == old(self).heap,
            final(self).static_fields == old(self).static_fields,
            Self::locals_effect(*old(self), op, *bc, len, *final(self), r),
    {
        if opcodes::ALOAD <= op && op <= opcodes::ILOAD_3 {
            self.exec_loads(op, bc, len)
        } else if op == opcodes::SSTORE || op == opcodes::ASTORE || op == opcodes::ASTORE_0 || (
        opcodes::SSTORE_0 <= op && op <= opcodes::SSTORE_3) || op == opcodes::ISTORE || (
        opcodes::ISTORE_0 <= op && op <= opcodes::ISTORE_3) {
            self.exec_stores(op, bc, len)
        } else if op == opcodes::SINC || op == opcodes::IINC {
            self.exec_incs(op, bc, len)
        } else {
            Some(ExecResult::InvalidOpcode(op))
        }
    }

    /// What a stack manipulation opcode does: `pop` and `pop2` drop one and two words,
    /// `dup` and `dup2` copy the top one and two, `swap` exchanges the top two.
    pub open spec fn stack_effect(old: Self, op: u8, new: Self, r: Option<ExecResult>) -> bool {
        let sw = old.stack_words();
        let n = sw.len();
        let pc = old.pc_value() as int;
        if op == opcodes::POP {
            new.stack_step(&old, r, 1, Seq::empty(), pc)
        } else if op == opcodes::POP2 {
            new.stack_step(&old, r, 2, Seq::empty(), pc)
        } else if op == opcodes::DUP {
            if n < 1 {
                r == Some(ExecResult::StackUnderflow)
            } else {
                new.stack_step(&old, r, 0, seq![sw[n - 1]], pc)
            }
        } else if op == opcodes::DUP2 {
            if n < 2 {
                r == Some(ExecResult::StackUnderflow)
            } else {
                new.stack_step(&old, r, 0, seq![sw[n - 2], sw[n - 1]], pc)
            }
        } else if op == opcodes::SWAP {
            new.stack_step(&old, r, 2, seq![sw[n - 1], sw[n - 2]], pc)
        } else {
            r == Some(ExecResult::InvalidOpcode(op))
        }
    }

    /// Operand stack manipulation.
    fn exec_stack(&mut self, op: u8) -> (r: Option<ExecResult>)
        requires
            old(self).wf(),
        ensures
            final(self).keeps_config(old(self)),
            final(self).same_but_stack(old(self)),
            Self::stack_effect(*old(self), op, *final(self), r),
    {
        if op == opcodes::POP {
            match self.pop() {
                Ok(_) => None,
                Err(e) => Some(e),
            }
        } else if op == opcodes::POP2 {
            match self.pop2() {
                Ok(_) => None,
                Err(e) => Some(e),
            }
        } else if op == opcodes::DUP {
            let v = match self.peek() {
                Ok(v) => v,
                Err(e) => return Some(e),
            };
            Self::stop_on(self.push(v))
        } else if op == opcodes::DUP2 {
            if self.stack_ptr < 2 {
                return Some(ExecResult::StackUnderflow);
            }
            let w1 = self.stack[self.stack_ptr as usize - 2];
            let w2 = self.stack[self.stack_ptr as usize - 1];
            if let Err(e) = self.push(w1) {
                return Some(e);
            }
            Self::stop_on(self.push(w2))
        } else if op == opcodes::SWAP {
            let (b, a) = match self.pop2() {
                Ok(p) => p,
                Err(e) => return Some(e),
            };
            if let Err(e) = self.push(a) {
                return Some(e);
            }
            Self::stop_on(self.push(b))
        } else {
            Some(ExecResult::InvalidOpcode(op))
        }
    }

    /// The word a short arithmetic, logic or conversion opcode leaves for the operands
    /// `a` (beneath) and `b` (top), or the exception it raises.
    pub open spec fn short_op_result(op: u8, a: u16, b: u16) -> Result<u16, ExecResult> {
        if op == opcodes::SADD {
            Ok(i16_specs::wrapping_add(a as i16, b as i16) as u16)
        } else if op == opcodes::SSUB {
            Ok(i16_specs::wrapping_sub(a as i16, b as i16) as u16)
        } else if op == opcodes::SMUL {
            Ok(i16_specs::wrapping_mul(a as i16, b as i16) as u16)
        } else if op == opcodes::SDIV {
            match ops::sdiv_result(a as i16, b as i16) {
                Ok(v) => Ok(v as u16),
                Err(e) => Err(e),
            }
        } else if op == opcodes::SREM {
            match ops::srem_result(a as i16, b as i16) {
                Ok(v) => Ok(v as u16),
                Err(e) => Err(e),
            }
        } else if op == opcodes::SSHL {
            Ok(ops::sshl_word(a as i16, b as i16))
        } else if op == opcodes::SSHR {
            Ok(ops::sshr_word(a as i16, b as i16))
        } else if op == opcodes::SUSHR {
            Ok(ops::sushr_word(a, b as i16))
        } else if op == opcodes::SAND {
            Ok(a & b)
        } else if op == opcodes::SOR {
            Ok(a | b)
        } else {
            Ok(a ^ b)
        }
    }

    /// Whether `op` is a two-operand short opcode.
    pub open spec fn is_short_binop(op: u8) -> bool {
        op == opcodes::SADD || op == opcodes::SSUB || op == opcodes::SMUL || op == opcodes::SDIV
            || op == opcodes::SREM || op == opcodes::SSHL || op == opcodes::SSHR || op
            == opcodes::SUSHR || op == opcodes::SAND || op == opcodes::SOR || op == opcodes::SXOR
    }

    /// Short division and remainder follow Java: both throw on a zero divisor; otherwise
    /// the dividend is the quotient times the divisor plus the remainder, the remainder
    /// is smaller than the divisor in magnitude and takes the dividend's sign (so the
    /// quotient is truncated toward zero), except that `MIN / -1` wraps to `MIN` with
    /// remainder 0.
    pub proof fn lemma_short_div_rem(a: i16, b: i16)
        ensures
            b == 0 ==> Self::short_op_result(opcodes::SDIV, a as u16, b as u16) == Err::<u16, ExecResult>(
                ExecResult::ArithmeticException,
            ) && Self::short_op_result(opcodes::SREM, a as u16, b as u16) == Err::<u16, ExecResult>(
                ExecResult::ArithmeticException,
            ),
            b != 0 ==> Self::short_op_result(opcodes::SDIV, a as u16, b as u16) is Ok
                && Self::short_op_result(opcodes::SREM, a as u16, b as u16) is Ok,
            b != 0 && a == i16::MIN && b == -1 ==> (Self::short_op_result(
                opcodes::SDIV,
                a as u16,
                b as u16,
            )->Ok_0 as i16) == i16::MIN && (Self::short_op_result(opcodes::SREM, a as u16, b as u16)->Ok_0 as i16) == 0,
            b != 0 && !(a == i16::MIN && b == -1) ==> {
                let q = Self::short_op_result(opcodes::SDIV, a as u16, b as u16)->Ok_0 as i16;
                let r = Self::short_op_result(opcodes::SREM, a as u16, b as u16)->Ok_0 as i16;
                &&& a == q * b + r
                &&& ops::abs(r as int) < ops::abs(b as int)
                &&& r == 0 || (r < 0) == (a < 0)
            },
    {
        assert((a as u16) as i16 == a) by (bit_vector);
        assert((b as u16) as i16 == b) by (bit_vector);
        if b != 0 && !(a == i16::MIN && b == -1) {
            ops::lemma_java_div_rem(a as int, b as int);
            let q = ops::java_div(a as int, b as int);
            let r = ops::java_rem(a as int, b as int);
            assert(-32768 <= q <= 32767) by {
                if q == 32768 || q == -32769 {
                    assert(ops::abs(a as int) >= 32768);
                    assert(a == i16::MIN);
                    assert(q * b == -32768 - r);
                    assert(ops::abs(r) < ops::abs(b as int));
                    assert(false) by (nonlinear_arith)
                        requires
                            q == 32768 || q == -32769,
                            q * b + r == -32768,
                            ops::abs(r) < ops::abs(b as int),
                            b != -1,
                            b != 0,
                            -32768 <= b <= 32767,
                            ops::abs(r) == if r < 0 { -r } else { r },
                            ops::abs(b as int) == if b < 0 { -b } else { b as int },
                    ;
                }
            }
            assert(-32768 <= r <= 32767);
            let qi = q as i16;
            let ri = r as i16;
            assert(qi == q && ri == r);
            assert(((qi as u16) as i16) == qi) by (bit_vector);
            assert(((ri as u16) as i16) == ri) by (bit_vector);
        }
        if b != 0 && a == i16::MIN && b == -1 {
            assert(((i16::MIN as u16) as i16) == i16::MIN) by (bit_vector);
            assert(((0i16 as u16) as i16) == 0) by (bit_vector);
        }
    }

    /// Int division and remainder follow Java in the same way (`MIN / -1` wraps to
    /// `MIN` with remainder 0).
    pub proof fn lemma_int_div_rem(a: i32, b: i32)
        ensures
            b == 0 ==> Self::int_op_result(opcodes::IDIV, a, b) == Err::<i32, ExecResult>(
                ExecResult::ArithmeticException,
            ) && Self::int_op_result(opcodes::IREM, a, b) == Err::<i32, ExecResult>(
                ExecResult::ArithmeticException,
            ),
            b != 0 ==> Self::int_op_result(opcodes::IDIV, a, b) is Ok && Self::int_op_result(opcodes::IREM, a, b) is Ok,
            b != 0 && a == i32::MIN && b == -1 ==> Self::int_op_result(opcodes::IDIV, a, b)->Ok_0 == i32::MIN
                && Self::int_op_result(opcodes::IREM, a, b)->Ok_0 == 0,
            b != 0 && !(a == i32::MIN && b == -1) ==> {
                let q = Self::int_op_result(opcodes::IDIV, a, b)->Ok_0;
                let r = Self::int_op_result(opcodes::IREM, a, b)->Ok_0;
                &&& a == q * b + r
                &&& ops::abs(r as int) < ops::abs(b as int)
                &&& r == 0 || (r < 0) == (a < 0)
            },
    {
        if b != 0 && !(a == i32::MIN && b == -1) {
            ops::lemma_java_div_rem(a as int, b as int);
            let q = ops::java_div(a as int, b as int);
            let r = ops::java_rem(a as int, b as int);
            assert(i32::MIN <= q <= i32::MAX) by {
                if q > i32::MAX || q < i32::MIN {
                    assert(false) by (nonlinear_arith)
                        requires
                            q > 0x7FFF_FFFF || q < -0x8000_0000,
                            ops::abs(q) <= ops::abs(a as int),
                            q * b + r == a,
                            ops::abs(r) < ops::abs(b as int),
                            !(a == -0x8000_0000 && b == -1),
                            b != 0,
                            -0x8000_0000 <= a <= 0x7FFF_FFFF,
                            -0x8000_0000 <= b <= 0x7FFF_FFFF,
                            ops::abs(q) == if q < 0 { -q } else { q },
                            ops::abs(r) == if r < 0 { -r } else { r },
                            ops::abs(a as int) == if a < 0 { -a } else { a as int },
                            ops::abs(b as int) == if b < 0 { -b } else { b as int },
                    ;
                }
            }
            assert(i32::MIN <= r <= i32::MAX);
        }
    }

    /// Short arithmetic is arithmetic on the signed operands modulo 2^16: the word
    /// `sadd`, `ssub` and `smul` leave is the sum, difference and product taken modulo
    /// 2^16; with `d` the low five bits of the count, `sshl` leaves the operand times
    /// 2^d modulo 2^16, `sshr` the signed operand divided by 2^d rounding down, and
    /// `sushr` the 16-bit word divided by 2^d. None of them throws.
    pub proof fn lemma_short_arith(a: u16, b: u16)
        ensures
            ({
                let x = a as i16 as int;
                let y = b as i16 as int;
                let p = vstd::arithmetic::power2::pow2((b % 32) as nat) as int;
                &&& Self::short_op_result(opcodes::SADD, a, b) matches Ok(w) && w as int == (x + y) % 65536
                &&& Self::short_op_result(opcodes::SSUB, a, b) matches Ok(w) && w as int == (x - y) % 65536
                &&& Self::short_op_result(opcodes::SMUL, a, b) matches Ok(w) && w as int == (x * y) % 65536
                &&& Self::short_op_result(opcodes::SSHL, a, b) matches Ok(w) && w as int == (x * p) % 65536
                &&& Self::short_op_result(opcodes::SSHR, a, b) matches Ok(w) && w as i16 as int == x / p
                &&& Self::short_op_result(opcodes::SUSHR, a, b) matches Ok(w) && w as int == a as int / p
            }),
    {
        let x = a as i16;
        let y = b as i16;
        assert((a as i16) as u16 == a) by (bit_vector);
        assert((b as i16) as u16 == b) by (bit_vector);
        assert(ops::shift_distance(y) == b % 32);
        ops::lemma_short_word(i16_specs::wrapping_add(x, y));
        ops::lemma_short_word(i16_specs::wrapping_sub(x, y));
        ops::lemma_short_word(i16_specs::wrapping_mul(x, y));
        ops::lemma_sshl_is_mul(x, y);
        ops::lemma_sshr_is_div(x, y);
        ops::lemma_sushr_is_div(a, y);
    }

    /// Int arithmetic is arithmetic modulo 2^32: the int `iadd`, `isub` and `imul`
    /// leave is congruent to the sum, difference and product modulo 2^32 (and, being an
    /// int, is the one such value in range). None of them throws.
    pub proof fn lemma_int_arith(a: i32, b: i32)
        ensures
            Self::int_op_result(opcodes::IADD, a, b) matches Ok(r) && (r - (a + b)) % 0x1_0000_0000 == 0,
            Self::int_op_result(opcodes::ISUB, a, b) matches Ok(r) && (r - (a - b)) % 0x1_0000_0000 == 0,
            Self::int_op_result(opcodes::IMUL, a, b) matches Ok(r) && (r - a * b) % 0x1_0000_0000 == 0,
    {
        let t = a * b;
        let m = t % 0x1_0000_0000;
        vstd::arithmetic::div_mod::lemma_fundamental_div_mod(t, 0x1_0000_0000);
        let q = t / 0x1_0000_0000;
        let r = i32_specs::wrapping_mul(a, b);
        assert(r - t == (if m > 0x7FFF_FFFF { -1 - q } else { -q }) * 0x1_0000_0000);
        vstd::arithmetic::div_mod::lemma_mod_multiples_basic(
            if m > 0x7FFF_FFFF { -1 - q } else { -q },
            0x1_0000_0000,
        );
    }

    fn short_op(op: u8, a: u16, b: u16) -> (r: Result<u16, ExecResult>)
        requires
            Self::is_short_binop(op),
        ensures
            r == Self::short_op_result(op, a, b),
    {
        if op == opcodes::SADD {
            Ok((a as i16).wrapping_add(b as i16) as u16)
        } else if op == opcodes::SSUB {
            Ok((a as i16).wrapping_sub(b as i16) as u16)
        } else if op == opcodes::SMUL {
            Ok((a as i16).wrapping_mul(b as i16) as u16)
        } else if op == opcodes::SDIV {
            match ops::sdiv(a as i16, b as i16) {
                Ok(v) => Ok(v as u16),
                Err(e) => Err(e),
            }
        } else if op == opcodes::SREM {
            match ops::srem(a as i16, b as i16) {
                Ok(v) => Ok(v as u16),
                Err(e) => Err(e),
            }
        } else if op == opcodes::SSHL {
            Ok(ops::sshl(a as i16, b as i16))
        } else if op == opcodes::SSHR {
            Ok(ops::sshr(a as i16, b as i16))
        } else if op == opcodes::SUSHR {
            Ok(ops::sushr(a, b as i16))
        } else if op == opcodes::SAND {
            Ok(a & b)
        } else if op == opcodes::SOR {
            Ok(a | b)
        } else {
            Ok(a ^ b)
        }
    }

    /// What a short arithmetic, logic or conversion opcode does: a two-operand one
    /// replaces its operands by [`JcVM::short_op_result`] (or stops with the exception
    /// it raises), `sneg` negates the top word and `s2b` narrows it to a byte.
    pub open spec fn short_arith_effect(old: Self, op: u8, new: Self, r: Option<ExecResult>) -> bool {
        let sw = old.stack_words();
        let n = sw.len();
        let pc = old.pc_value() as int;
        if Self::is_short_binop(op) {
            if n < 2 {
                r == Some(ExecResult::StackUnderflow) && new.kept_persistent(&old)
            } else {
                match Self::short_op_result(op, sw[n - 2], sw[n - 1]) {
                    Ok(w) => new.stack_step(&old, r, 2, seq![w], pc),
                    Err(e) => r == Some(e) && new.kept_persistent(&old),
                }
            }
        } else if op == opcodes::SNEG {
            new.stack_step(&old, r, 1, seq![i16_specs::wrapping_sub(0, sw[n - 1] as i16) as u16], pc)
        } else if op == opcodes::S2B {
            new.stack_step(&old, r, 1, seq![((sw[n - 1] as i16) as i8) as i16 as u16], pc)
        } else {
            r == Some(ExecResult::InvalidOpcode(op))
        }
    }

    /// Short arithmetic, logic and conversions.
    fn exec_short_arith(&mut self, op: u8) -> (r: Option<ExecResult>)
        requires
            old(self).wf(),
        ensures
            final(self).keeps_config(old(self)),
            final(self).same_but_stack(old(self)),
            Self::short_arith_effect(*old(self), op, *final(self), r),
    {
        if Self::exec_is_short_binop(op) {
            let (a, b) = match self.pop2() {
                Ok(p) => p,
                Err(e) => return Some(e),
            };
            match Self::short_op(op, a, b) {
                Ok(w) => Self::stop_on(self.push(w)),
                Err(e) => Some(e),
            }
        } else if op == opcodes::SNEG {
            let a = match self.pop_i16() {
                Ok(v) => v,
                Err(e) => return Some(e),
            };
            Self::stop_on(self.push((0i16).wrapping_sub(a) as u16))
        } else if op == opcodes::S2B {
            let a = match self.pop_i16() {
                Ok(v) => v,
                Err(e) => return Some(e),
            };
            Self::stop_on(self.push((a as i8) as i16 as u16))
        } else {
            Some(ExecResult::InvalidOpcode(op))
        }
    }

    fn exec_is_short_binop(op: u8) -> (r: bool)
        ensures
            r == Self::is_short_binop(op),
    {
        op == opcodes::SADD || op == opcodes::SSUB || op == opcodes::SMUL || op == opcodes::SDIV
            || op == opcodes::SREM || op == opcodes::SSHL || op == opcodes::SSHR || op
            == opcodes::SUSHR || op == opcodes::SAND || op == opcodes::SOR || op == opcodes::SXOR
    }

    /// The int an int arithmetic or logic opcode leaves for the operands `a` (beneath)
    /// and `b` (top), or the exception it raises.
    pub open spec fn int_op_result(op: u8, a: i32, b: i32) -> Result<i32, ExecResult> {
        if op == opcodes::IADD {
            Ok(i32_specs::wrapping_add(a, b))
        } else if op == opcodes::ISUB {
            Ok(i32_specs::wrapping_sub(a, b))
        } else if op == opcodes::IMUL {
            Ok(i32_specs::wrapping_mul(a, b))
        } else if op == opcodes::IDIV {
            ops::idiv_result(a, b)
        } else if op == opcodes::IREM {
            ops::irem_result(a, b)
        } else if op == opcodes::IAND {
            Ok(a & b)
        } else if op == opcodes::IOR {
            Ok(a | b)
        } else {
            Ok(a ^ b)
        }
    }

    /// Whether `op` is a two-int-operand opcode.
    pub open spec fn is_int_binop(op: u8) -> bool {
        op == opcodes::IADD || op == opcodes::ISUB || op == opcodes::IMUL || op == opcodes::IDIV
            || op == opcodes::IREM || op == opcodes::IAND || op == opcodes::IOR || op
            == opcodes::IXOR
    }

    fn exec_is_int_binop(op: u8) -> (r: bool)
        ensures
            r == Self::is_int_binop(op),
    {
        op == opcodes::IADD || op == opcodes::ISUB || op == opcodes::IMUL || op == opcodes::IDIV
            || op == opcodes::IREM || op == opcodes::IAND || op == opcodes::IOR || op
            == opcodes::IXOR
    }

    fn int_op(op: u8, a: i32, b: i32) -> (r: Result<i32, ExecResult>)
        requires
            Self::is_int_binop(op),
        ensures
            r == Self::int_op_result(op, a, b),
    {
        if op == opcodes::IADD {
            Ok(a.wrapping_add(b))
        } else if op == opcodes::ISUB {
            Ok(a.wrapping_sub(b))
        } else if op == opcodes::IMUL {
            Ok(a.wrapping_mul(b))
        } else if op == opcodes::IDIV {
            ops::idiv(a, b)
        } else if op == opcodes::IREM {
            ops::irem(a, b)
        } else if op == opcodes::IAND {
            Ok(a & b)
        } else if op == opcodes::IOR {
            Ok(a | b)
        } else {
            Ok(a ^ b)
        }
    }

    /// What an int arithmetic, logic, shift, conversion or comparison opcode does: a
    /// two-operand one replaces its two ints by [`JcVM::int_op_result`] (or stops with
    /// the exception it raises); `ineg` negates the top int; the shifts shift the int
    /// beneath by the short distance on top; `s2i` widens the top short, `i2b` and `i2s`
    /// narrow the top int; `icmp` compares two ints to -1, 0 or 1.
    pub open spec fn int_arith_effect(old: Self, op: u8, new: Self, r: Option<ExecResult>) -> bool {
        let sw = old.stack_words();
        let n = sw.len();
        let pc = old.pc_value() as int;
        if Self::is_int_binop(op) {
            if n < 4 {
                r == Some(ExecResult::StackUnderflow)
            } else {
                match Self::int_op_result(
                    op,
                    ops::int_of_words(sw[n - 4], sw[n - 3]),
                    ops::int_of_words(sw[n - 2], sw[n - 1]),
                ) {
                    Ok(v) => new.stack_step(&old, r, 4, Self::int_words(v), pc),
                    Err(e) => r == Some(e),
                }
            }
        } else if op == opcodes::INEG {
            new.stack_step(
                &old,
                r,
                2,
                Self::int_words(i32_specs::wrapping_sub(0, ops::int_of_words(sw[n - 2], sw[n - 1]))),
                pc,
            )
        } else if op == opcodes::ISHL || op == opcodes::ISHR || op == opcodes::IUSHR {
            let a = ops::int_of_words(sw[n - 3], sw[n - 2]);
            let b = sw[n - 1] as i16;
            new.stack_step(
                &old,
                r,
                3,
                Self::int_words(
                    if op == opcodes::ISHL {
                        ops::ishl_value(a, b)
                    } else if op == opcodes::ISHR {
                        ops::ishr_value(a, b)
                    } else {
                        ops::iushr_value(a, b)
                    },
                ),
                pc,
            )
        } else if op == opcodes::S2I {
            new.stack_step(&old, r, 1, Self::int_words((sw[n - 1] as i16) as i32), pc)
        } else if op == opcodes::I2B || op == opcodes::I2S {
            let a = ops::int_of_words(sw[n - 2], sw[n - 1]);
            new.stack_step(
                &old,
                r,
                2,
                seq![
                    (if op == opcodes::I2B {
                        (a as i8) as i16
                    } else {
                        a as i16
                    }) as u16,
                ],
                pc,
            )
        } else if op == opcodes::ICMP {
            new.stack_step(
                &old,
                r,
                4,
                seq![
                    ops::int_compare_word(
                        ops::int_of_words(sw[n - 4], sw[n - 3]),
                        ops::int_of_words(sw[n - 2], sw[n - 1]),
                    ),
                ],
                pc,
            )
        } else {
            r == Some(ExecResult::InvalidOpcode(op))
        }
    }

    /// Int arithmetic, logic, shifts, conversions and comparison.
    fn exec_int_arith(&mut self, op: u8) -> (r: Option<ExecResult>)
        requires
            old(self).wf(),
        ensures
            final(self).keeps_config(old(self)),
            final(self).same_but_stack(old(self)),
            Self::int_arith_effect(*old(self), op, *final(self), r),
    {
        if Self::exec_is_int_binop(op) {
            let (a, b) = match self.pop2_int() {
                Ok(p) => p,
                Err(e) => return Some(e),
            };
            match Self::int_op(op, a, b) {
                Ok(v) => Self::stop_on(self.push_int(v)),
                Err(e) => Some(e),
            }
        } else if op == opcodes::INEG {
            let a = match self.pop_int() {
                Ok(v) => v,
                Err(e) => return Some(e),
            };
            Self::stop_on(self.push_int((0i32).wrapping_sub(a)))
        } else if op == opcodes::ISHL || op == opcodes::ISHR || op == opcodes::IUSHR {
            let b = match self.pop_i16() {
                Ok(v) => v,
                Err(e) => return Some(e),
            };
            let a = match self.pop_int() {
                Ok(v) => v,
                Err(e) => return Some(e),
            };
            let v = if op == opcodes::ISHL {
                ops::ishl(a, b)
            } else if op == opcodes::ISHR {
                ops::ishr(a, b)
            } else {
                ops::iushr(a, b)
            };
            Self::stop_on(self.push_int(v))
        } else if op == opcodes::S2I {
            let a = match self.pop_i16() {
                Ok(v) => v,
                Err(e) => return Some(e),
            };
            Self::stop_on(self.push_int(a as i32))
        } else if op == opcodes::I2B || op == opcodes::I2S {
            let a = match self.pop_int() {
                Ok(v) => v,
                Err(e) => return Some(e),
            };
            let v: i16 = if op == opcodes::I2B {
                (a as i8) as i16
            } else {
                a as i16
            };
            Self::stop_on(self.push(v as u16))
        } else if op == opcodes::ICMP {
            let (a, b) = match self.pop2_int() {
                Ok(p) => p,
                Err(e) => return Some(e),
            };
            let v: u16 = if a > b {
                1
            } else if a == b {
                0
            } else {
                0xFFFF
            };
            Self::stop_on(self.push(v))
        } else {
            Some(ExecResult::InvalidOpcode(op))
        }
    }

    /// Whether the narrow or wide conditional branch `op` is taken for the popped
    /// operands (`a` beneath, `b` on top; one-operand branches look at `b` only).
    pub open spec fn branch_taken(op: u8, a: u16, b: u16) -> bool {
        let base = if op >= opcodes::IFEQ_W {
            (op - opcodes::IFEQ_W + opcodes::IFEQ) as u8
        } else {
            op
        };
        if base == opcodes::IFEQ {
            b == 0
        } else if base == opcodes::IFNE {
            b != 0
        } else if base == opcodes::IFLT {
            (b as i16) < 0
        } else if base == opcodes::IFGE {
            (b as i16) >= 0
        } else if base == opcodes::IFGT {
            (b as i16) > 0
        } else if base == opcodes::IFLE {
            (b as i16) <= 0
        } else if base == opcodes::IFNULL {
            b == 0
        } else if base == opcodes::IFNONNULL {
            b != 0
        } else if base == opcodes::IF_ACMPEQ || base == opcodes::IF_SCMPEQ {
            a == b
        } else if base == opcodes::IF_ACMPNE || base == opcodes::IF_SCMPNE {
            a != b
        } else if base == opcodes::IF_SCMPLT {
            (a as i16) < (b as i16)
        } else if base == opcodes::IF_SCMPGE {
            (a as i16) >= (b as i16)
        } else if base == opcodes::IF_SCMPGT {
            (a as i16) > (b as i16)
        } else {
            (a as i16) <= (b as i16)
        }
    }

    fn taken(op: u8, a: u16, b: u16) -> (r: bool)
        ensures
            r == Self::branch_taken(op, a, b),
    {
        let base = if op >= opcodes::IFEQ_W {
            op - opcodes::IFEQ_W + opcodes::IFEQ
        } else {
            op
        };
        if base == opcodes::IFEQ {
            b == 0
        } else if base == opcodes::IFNE {
            b != 0
        } else if base == opcodes::IFLT {
            (b as i16) < 0
        } else if base == opcodes::IFGE {
            (b as i16) >= 0
        } else if base == opcodes::IFGT {
            (b as i16) > 0
        } else if base == opcodes::IFLE {
            (b as i16) <= 0
        } else if base == opcodes::IFNULL {
            b == 0
        } else if base == opcodes::IFNONNULL {
            b != 0
        } else if base == opcodes::IF_ACMPEQ || base == opcodes::IF_SCMPEQ {
            a == b
        } else if base == opcodes::IF_ACMPNE || base == opcodes::IF_SCMPNE {
            a != b
        } else if base == opcodes::IF_SCMPLT {
            (a as i16) < (b as i16)
        } else if base == opcodes::IF_SCMPGE {
            (a as i16) >= (b as i16)
        } else if base == opcodes::IF_SCMPGT {
            (a as i16) > (b as i16)
        } else {
            (a as i16) <= (b as i16)
        }
    }

    /// Conditional branches decide on the operand words as follows: the null and
    /// equality tests compare the words themselves, the ordering tests compare their
    /// signed (two's-complement) values, with zero or with each other (`a` beneath,
    /// `b` on top); each test's opposite is taken exactly when it is not; and each wide
    /// form decides as its narrow form does.
    pub proof fn lemma_branch_conditions(a: u16, b: u16)
        ensures
            forall|op: u8|
                opcodes::IFEQ <= op <= opcodes::IF_SCMPLE ==> #[trigger] Self::branch_taken(op, a, b)
                    == Self::branch_taken((op - opcodes::IFEQ + opcodes::IFEQ_W) as u8, a, b),
            Self::branch_taken(opcodes::IFEQ, a, b) <==> b == 0,
            Self::branch_taken(opcodes::IFNE, a, b) <==> b != 0,
            Self::branch_taken(opcodes::IFNULL, a, b) <==> b == 0,
            Self::branch_taken(opcodes::IFNONNULL, a, b) <==> b != 0,
            Self::branch_taken(opcodes::IFLT, a, b) <==> ops::signed_word(b) < 0,
            Self::branch_taken(opcodes::IFGE, a, b) <==> ops::signed_word(b) >= 0,
            Self::branch_taken(opcodes::IFGT, a, b) <==> ops::signed_word(b) > 0,
            Self::branch_taken(opcodes::IFLE, a, b) <==> ops::signed_word(b) <= 0,
            Self::branch_taken(opcodes::IF_ACMPEQ, a, b) <==> a == b,
            Self::branch_taken(opcodes::IF_ACMPNE, a, b) <==> a != b,
            Self::branch_taken(opcodes::IF_SCMPEQ, a, b) <==> a == b,
            Self::branch_taken(opcodes::IF_SCMPNE, a, b) <==> a != b,
            Self::branch_taken(opcodes::IF_SCMPLT, a, b) <==> ops::signed_word(a) < ops::signed_word(b),
            Self::branch_taken(opcodes::IF_SCMPGE, a, b) <==> ops::signed_word(a) >= ops::signed_word(b),
            Self::branch_taken(opcodes::IF_SCMPGT, a, b) <==> ops::signed_word(a) > ops::signed_word(b),
            Self::branch_taken(opcodes::IF_SCMPLE, a, b) <==> ops::signed_word(a) <= ops::signed_word(b),
    {
        ops::lemma_signed_word(a);
        ops::lemma_signed_word(b);
    }

    /// A branch lands `offset` bytes away from its own opcode, the byte just before the
    /// program counter it is decoded at: the offset is the signed byte after a narrow
    /// branch and the signed big-endian word after a wide one (`goto_w` and the `_w`
    /// conditionals). `goto` and `goto_w` always jump; a conditional branch jumps when
    /// its test holds for the popped words and otherwise goes on right after its
    /// offset. (Stated for targets within the 16-bit program counter.)
    pub proof fn lemma_branch_target(old: Self, op: u8, bc: [u8; MAX_BYTECODE], len: u16, new: Self)
        requires
            Self::branch_effect(old, op, bc, len, new, None),
            op == opcodes::GOTO || op == opcodes::GOTO_W || Self::is_cond_branch(op),
        ensures
            ({
                let pc = old.pc_value() as int;
                let wide = op == opcodes::GOTO_W || op >= opcodes::IFEQ_W;
                let offset = if wide {
                    ops::signed_word((bc@[pc] as int * 256 + bc@[pc + 1] as int) as u16)
                } else {
                    bc@[pc] as int - if bc@[pc] >= 0x80 {
                        0x100int
                    } else {
                        0
                    }
                };
                let target = pc - 1 + offset;
                let next = pc + if wide {
                    2int
                } else {
                    1
                };
                let sw = old.stack_words();
                let n = sw.len();
                let a = if Self::one_operand_branch(op) {
                    0u16
                } else {
                    sw[n - 2]
                };
                let jumps = op == opcodes::GOTO || op == opcodes::GOTO_W || Self::branch_taken(op, a, sw[n - 1]);
                &&& jumps && 0 <= target < 0x10000 ==> new.pc_value() == target
                &&& !jumps ==> new.pc_value() == next
            }),
    {
        let pc = old.pc_value() as int;
        let b0 = bc@[pc];
        assert(b0 >= 0x80 ==> (b0 as i8) as i32 == (b0 as i32) - 0x100) by (bit_vector);
        assert(b0 < 0x80 ==> (b0 as i8) as i32 == b0 as i32) by (bit_vector);
        if op == opcodes::GOTO_W || op >= opcodes::IFEQ_W {
            ops::lemma_signed_word(crate::bytes::be16(bc@[pc], bc@[pc + 1]));
        }
    }

    /// Whether a conditional branch pops one operand (the others pop two).
    pub open spec fn one_operand_branch(op: u8) -> bool {
        (opcodes::IFEQ <= op <= opcodes::IFNONNULL) || (opcodes::IFEQ_W <= op
            <= opcodes::IFNONNULL_W)
    }

    /// Whether `op` is a conditional branch (narrow or wide).
    pub open spec fn is_cond_branch(op: u8) -> bool {
        (opcodes::IFEQ <= op <= opcodes::IF_SCMPLE) || (opcodes::IFEQ_W <= op
            <= opcodes::IF_SCMPLE_W)
    }

    /// What a branch does: `goto` and `goto_w` jump by their 1-byte or 2-byte signed
    /// offset, counted from the branching opcode; a conditional branch pops one or two
    /// operands and jumps when [`JcVM::branch_taken`] holds, else goes on after its
    /// operand. An operand past the bytecode stops the run at the end of the bytecode.
    pub open spec fn branch_effect(
        old: Self,
        op: u8,
        bc: [u8; MAX_BYTECODE],
        len: u16,
        new: Self,
        r: Option<ExecResult>,
    ) -> bool {
        let sw = old.stack_words();
        let n = sw.len();
        let pc = old.pc_value() as int;
        if op == opcodes::GOTO {
            if pc < len {
                r is None && new.moved(
                    &old,
                    sw,
                    ops::branch_pc((pc + 1) as u16, 2, (bc@[pc] as i8) as int) as int,
                )
            } else {
                r == Some(ExecResult::EndOfBytecode)
            }
        } else if op == opcodes::GOTO_W {
            if pc + 2 <= len {
                r is None && new.moved(
                    &old,
                    sw,
                    ops::branch_pc(
                        (pc + 2) as u16,
                        3,
                        crate::bytes::be16(bc@[pc], bc@[pc + 1]) as i16 as int,
                    ) as int,
                )
            } else {
                r == Some(ExecResult::EndOfBytecode)
            }
        } else if Self::is_cond_branch(op) {
            let wide = op >= opcodes::IFEQ_W;
            let fits = if wide {
                pc + 2 <= len
            } else {
                pc < len
            };
            let offset: int = if wide {
                crate::bytes::be16(bc@[pc], bc@[pc + 1]) as i16 as int
            } else {
                (bc@[pc] as i8) as int
            };
            let next = if wide {
                pc + 2
            } else {
                pc + 1
            };
            let k: int = if Self::one_operand_branch(op) {
                1
            } else {
                2
            };
            if !fits {
                r == Some(ExecResult::EndOfBytecode)
            } else if n < k {
                r == Some(ExecResult::StackUnderflow)
            } else {
                let a = if k == 1 {
                    0u16
                } else {
                    sw[n - 2]
                };
                r is None && new.moved(
                    &old,
                    sw.subrange(0, n - k),
                    if Self::branch_taken(op, a, sw[n - 1]) {
                        ops::branch_pc(
                            next as u16,
                            if wide {
                                3
                            } else {
                                2
                            },
                            offset,
                        ) as int
                    } else {
                        next
                    },
                )
            }
        } else {
            r == Some(ExecResult::InvalidOpcode(op))
        }
    }

    /// Unconditional and conditional branches, with 1-byte or 2-byte offsets counted
    /// from the branching opcode.
    fn exec_branch(&mut self, op: u8, bc: &[u8; MAX_BYTECODE], len: u16) -> (r: Option<
        ExecResult,
    >)
        requires
            old(self).wf(),
            len <= MAX_BYTECODE,
        ensures
            final(self).keeps_config(old(self)),
            final(self).heap == old(self).heap,
            final(self).static_fields == old(self).static_fields,
            final(self).journal == old(self).journal,
            final(self).locals == old(self).locals,
            final(self).frame_ptr == old(self).frame_ptr,
            final(self).current_pkg == old(self).current_pkg,
            final(self).current_method == old(self).current_method,
            Self::branch_effect(*old(self), op, *bc, len, *final(self), r),
    {
        if op == opcodes::GOTO {
            let off = match self.fetch_u8(bc, len) {
                Some(b) => b,
                None => return Some(ExecResult::EndOfBytecode),
            };
            self.branch(true, 2, (off as i8) as i32);
            None
        } else if op == opcodes::GOTO_W {
            let off = match self.fetch_i16(bc, len) {
                Some(v) => v,
                None => return Some(ExecResult::EndOfBytecode),
            };
            self.branch(true, 3, off as i32);
            None
        } else if (opcodes::IFEQ <= op && op <= opcodes::IF_SCMPLE) || (opcodes::IFEQ_W <= op && op
            <= opcodes::IF_SCMPLE_W) {
            let wide = op >= opcodes::IFEQ_W;
            let offset: i32 = if wide {
                match self.fetch_i16(bc, len) {
                    Some(v) => v as i32,
                    None => return Some(ExecResult::EndOfBytecode),
                }
            } else {
                match self.fetch_u8(bc, len) {
                    Some(b) => (b as i8) as i32,
                    None => return Some(ExecResult::EndOfBytecode),
                }
            };
            let one = (opcodes::IFEQ <= op && op <= opcodes::IFNONNULL) || (opcodes::IFEQ_W <= op
                && op <= opcodes::IFNONNULL_W);
            let (a, b) = if one {
                match self.pop() {
                    Ok(v) => (0u16, v),
                    Err(e) => return Some(e),
                }
            } else {
                match self.pop2() {
                    Ok(p) => p,
                    Err(e) => return Some(e),
                }
            };
            let t = Self::taken(op, a, b);
            self.branch(
                t,
                if wide {
                    3
                } else {
                    2
                },
                offset,
            );
            None
        } else {
            Some(ExecResult::InvalidOpcode(op))
        }
    }

    /// Resume the caller recorded in the topmost frame.
    fn pop_frame(&mut self)
        requires
            old(self).wf(),
            old(self).frame_ptr > 0,
        ensures
            final(self).keeps_config(old(self)),
            final(self).heap == old(self).heap,
            final(self).static_fields == old(self).static_fields,
            final(self).journal == old(self).journal,
            final(self).locals == old(self).locals,
            final(self).frames == old(self).frames,
            final(self).raw_stack() == old(self).raw_stack(),
            final(self).packages == old(self).packages,
            final(self).current_context == old(self).current_context,
            final(self).process_method == old(self).process_method,
            final(self).opcode_counts == old(self).opcode_counts,
            final(self).total_instructions == old(self).total_instructions,
            final(self).max_frame_depth == old(self).max_frame_depth,
            final(self).frame_ptr == old(self).frame_ptr - 1,
            final(self).current_pkg == old(self).frames@[old(self).frame_ptr - 1].return_pkg,
            final(self).current_method == old(self).frames@[old(self).frame_ptr - 1].return_method,
            final(self).pc == old(self).frames@[old(self).frame_ptr - 1].return_pc,
            final(self).stack_words() == old(self).stack@.subrange(
                0,
                old(self).frames@[old(self).frame_ptr - 1].stack_base as int,
            ),
    {
        self.frame_ptr = self.frame_ptr - 1;
        let f = self.frames[self.frame_ptr as usize];
        self.current_pkg = f.return_pkg;
        self.current_method = f.return_method;
        self.pc = f.return_pc;
        self.stack_ptr = f.stack_base;
    }

    /// The operand stack's backing words, popped ones included.
    pub closed spec fn raw_stack(&self) -> Seq<u16> {
        self.stack@
    }

    /// The stack base recorded in the topmost call frame.
    pub closed spec fn caller_stack_base(&self) -> int {
        self.frames@[self.frame_ptr - 1].stack_base as int
    }

    /// `self` resumed the caller recorded in the topmost frame of `old`: its package,
    /// method and program counter, its operand stack (as it was when the call was made)
    /// with `words` pushed, one frame less; nothing else changed.
    pub closed spec fn returned_to(&self, old: &Self, words: Seq<u16>) -> bool {
        let f = old.frames@[old.frame_ptr - 1];
        &&& self.wf()
        &&& self.stack_words() =~= old.raw_stack().subrange(0, f.stack_base as int) + words
        &&& self.pc == f.return_pc
        &&& self.current_pkg == f.return_pkg && self.current_method == f.return_method
        &&& self.frame_ptr == old.frame_ptr - 1 && self.frames == old.frames
        &&& self.locals == old.locals && self.heap == old.heap
        &&& self.static_fields == old.static_fields
        &&& self.packages == old.packages && self.journal == old.journal
        &&& self.current_context == old.current_context
        &&& self.process_method == old.process_method
        &&& self.opcode_counts == old.opcode_counts
        &&& self.total_instructions == old.total_instructions
        &&& self.max_frame_depth == old.max_frame_depth
    }

    /// What a return does: from the outermost frame it ends the run with the returned
    /// value (a short, a reference, an int, or none); from a nested one it resumes the
    /// caller with the value pushed on the caller's stack.
    pub open spec fn return_effect(old: Self, op: u8, new: Self, r: Option<ExecResult>) -> bool {
        let sw = old.stack_words();
        let n = sw.len();
        if op == opcodes::SRETURN || op == opcodes::ARETURN {
            if n < 1 {
                r == Some(ExecResult::StackUnderflow)
            } else if old.depth() == 0 {
                r == Some(
                    if op == opcodes::SRETURN {
                        ExecResult::ReturnShort(sw[n - 1] as i16)
                    } else {
                        ExecResult::ReturnRef(sw[n - 1])
                    },
                )
            } else if old.caller_stack_base() + 1 > MAX_STACK {
                r == Some(ExecResult::StackOverflow)
            } else {
                r is None && new.returned_to(&old, seq![sw[n - 1]])
            }
        } else if op == opcodes::IRETURN {
            let v = ops::int_of_words(sw[n - 2], sw[n - 1]);
            if n < 2 {
                r == Some(ExecResult::StackUnderflow)
            } else if old.depth() == 0 {
                r == Some(ExecResult::ReturnInt(v))
            } else if old.caller_stack_base() + 2 > MAX_STACK {
                r == Some(ExecResult::StackOverflow)
            } else {
                r is None && new.returned_to(&old, Self::int_words(v))
            }
        } else if op == opcodes::RETURN {
            if old.depth() == 0 {
                r == Some(ExecResult::ReturnVoid)
            } else {
                r is None && new.returned_to(&old, Seq::empty())
            }
        } else {
            r == Some(ExecResult::InvalidOpcode(op))
        }
    }

    /// Returns: from the outermost frame they end the run with the returned value;
    /// from a nested one they resume the caller and push the value onto its stack.
    fn exec_return(&mut self, op: u8) -> (r: Option<ExecResult>)
        requires
            old(self).wf(),
        ensures
            final(self).keeps_config(old(self)),
            final(self).heap == old(self).heap,
            final(self).static_fields == old(self).static_fields,
            final(self).journal == old(self).journal,
            Self::return_effect(*old(self), op, *final(self), r),
    {
        if op == opcodes::SRETURN || op == opcodes::ARETURN {
            let v = match self.pop() {
                Ok(v) => v,
                Err(e) => return Some(e),
            };
            if self.frame_ptr == 0 {
                return Some(
                    if op == opcodes::SRETURN {
                        ExecResult::ReturnShort(v as i16)
                    } else {
                        ExecResult::ReturnRef(v)
                    },
                );
            }
            self.pop_frame();
            Self::stop_on(self.push(v))
        } else if op == opcodes::IRETURN {
            let v = match self.pop_int() {
                Ok(v) => v,
                Err(e) => return Some(e),
            };
            if self.frame_ptr == 0 {
                return Some(ExecResult::ReturnInt(v));
            }
            self.pop_frame();
            Self::stop_on(self.push_int(v))
        } else if op == opcodes::RETURN {
            if self.frame_ptr == 0 {
                return Some(ExecResult::ReturnVoid);
            }
            self.pop_frame();
            None
        } else {
            Some(ExecResult::InvalidOpcode(op))
        }
    }

    /// What a static field opcode does: the byte forms name the field by a 1-byte offset
    /// (and skip a second operand byte), the others by a 2-byte one; a read pushes the
    /// byte, or the big-endian short or int there (0 where it does not fit in the image),
    /// a write pops the value and stores it there (nothing where it does not fit). An
    /// operand past the bytecode stops the run at the end of the bytecode.
    pub open spec fn static_effect(
        old: Self,
        op: u8,
        bc: [u8; MAX_BYTECODE],
        len: u16,
        new: Self,
        r: Option<ExecResult>,
    ) -> bool {
        let sw = old.stack_words();
        let n = sw.len();
        let pc = old.pc_value() as int;
        let st = old.static_bytes();
        let lv = old.locals_view();
        let idx: int = if op == opcodes::GETSTATIC_B || op == opcodes::PUTSTATIC_B {
            bc@[pc] as int
        } else {
            crate::bytes::be16(bc@[pc], bc@[pc + 1]) as int
        };
        if !(op == opcodes::GETSTATIC_B || op == opcodes::PUTSTATIC_B || op == opcodes::GETSTATIC_S
            || op == opcodes::GETSTATIC_A || op == opcodes::PUTSTATIC_S || op == opcodes::PUTSTATIC_A
            || op == opcodes::GETSTATIC_I || op == opcodes::PUTSTATIC_I) {
            r == Some(ExecResult::InvalidOpcode(op))
        } else if pc + 2 > len {
            r == Some(ExecResult::EndOfBytecode)
        } else if op == opcodes::GETSTATIC_B {
            new.stack_step(&old, r, 0, seq![st[idx] as u16], pc + 2)
        } else if op == opcodes::GETSTATIC_S || op == opcodes::GETSTATIC_A {
            new.stack_step(
                &old,
                r,
                0,
                seq![
                    if idx + 1 < STATIC_FIELDS_SIZE {
                        crate::bytes::be16(st[idx], st[idx + 1])
                    } else {
                        0
                    },
                ],
                pc + 2,
            )
        } else if op == opcodes::GETSTATIC_I {
            new.stack_step(
                &old,
                r,
                0,
                Self::int_words(
                    if idx + 3 < STATIC_FIELDS_SIZE {
                        crate::bytes::be32(st[idx], st[idx + 1], st[idx + 2], st[idx + 3]) as i32
                    } else {
                        0
                    },
                ),
                pc + 2,
            )
        } else if op == opcodes::PUTSTATIC_I {
            let v = ops::int_of_words(sw[n - 2], sw[n - 1]);
            let hi = ops::high_word(v);
            let lo = ops::low_word(v);
            if n < 2 {
                r == Some(ExecResult::StackUnderflow)
            } else {
                r is None && new.moved_all(
                    &old,
                    sw.subrange(0, n - 2),
                    pc + 2,
                    lv,
                    if idx + 3 < STATIC_FIELDS_SIZE {
                        st.update(idx, hi8(hi)).update(idx + 1, lo8(hi)).update(idx + 2, hi8(lo)).update(
                            idx + 3,
                            lo8(lo),
                        )
                    } else {
                        st
                    },
                    old.heap_view(),
                )
            }
        } else if n < 1 {
            r == Some(ExecResult::StackUnderflow)
        } else if op == opcodes::PUTSTATIC_B {
            r is None && new.moved_all(
                &old,
                sw.subrange(0, n - 1),
                pc + 2,
                lv,
                st.update(idx, sw[n - 1] as u8),
                old.heap_view(),
            )
        } else {
            r is None && new.moved_all(
                &old,
                sw.subrange(0, n - 1),
                pc + 2,
                lv,
                if idx + 1 < STATIC_FIELDS_SIZE {
                    st.update(idx, hi8(sw[n - 1])).update(idx + 1, lo8(sw[n - 1]))
                } else {
                    st
                },
                old.heap_view(),
            )
        }
    }

    /// Static field reads and writes: byte fields at a 1-byte offset, short and
    /// reference fields (2 bytes, big-endian) and int fields (4 bytes) at a 2-byte
    /// offset. Reads past the image give 0; writes past it are ignored.
    fn exec_static(&mut self, op: u8, bc: &[u8; MAX_BYTECODE], len: u16) -> (r: Option<
        ExecResult,
    >)
        requires
            old(self).wf(),
            len <= MAX_BYTECODE,
        ensures
            r is Some ==> final(self).static_fields == old(self).static_fields,
            final(self).keeps_config(old(self)),
            final(self).heap == old(self).heap,
            final(self).journal == old(self).journal,
            final(self).locals == old(self).locals,
            final(self).frame_ptr == old(self).frame_ptr,
            Self::static_effect(*old(self), op, *bc, len, *final(self), r),
    {
        if op == opcodes::GETSTATIC_B || op == opcodes::PUTSTATIC_B {
            let field = match self.fetch_u8(bc, len) {
                Some(b) => b,
                None => return Some(ExecResult::EndOfBytecode),
            };
            if self.fetch_u8(bc, len).is_none() {
                return Some(ExecResult::EndOfBytecode);
            }
            let idx = field as usize;
            if op == opcodes::GETSTATIC_B {
                Self::stop_on(self.push(self.static_fields[idx] as u16))
            } else {
                let v = match self.pop() {
                    Ok(v) => v,
                    Err(e) => return Some(e),
                };
                self.static_fields[idx] = v as u8;
                None
            }
        } else if op == opcodes::GETSTATIC_S || op == opcodes::GETSTATIC_A || op
            == opcodes::PUTSTATIC_S || op == opcodes::PUTSTATIC_A || op == opcodes::GETSTATIC_I
            || op == opcodes::PUTSTATIC_I {
            let idx = match self.fetch_u16(bc, len) {
                Some(v) => v as usize,
                None => return Some(ExecResult::EndOfBytecode),
            };
            if op == opcodes::GETSTATIC_S || op == opcodes::GETSTATIC_A {
                let v = if idx + 1 < STATIC_FIELDS_SIZE {
                    crate::bytes::read_be16(self.static_fields[idx], self.static_fields[idx + 1])
                } else {
                    0
                };
                Self::stop_on(self.push(v))
            } else if op == opcodes::PUTSTATIC_S || op == opcodes::PUTSTATIC_A {
                let v = match self.pop() {
                    Ok(v) => v,
                    Err(e) => return Some(e),
                };
                if idx + 1 < STATIC_FIELDS_SIZE {
                    self.static_fields[idx] = crate::bytes::high_byte(v);
                    self.static_fields[idx + 1] = crate::bytes::low_byte(v);
                }
                None
            } else if op == opcodes::GETSTATIC_I {
                let v: i32 = if idx + 3 < STATIC_FIELDS_SIZE {
                    crate::bytes::read_be32(
                        self.static_fields[idx],
                        self.static_fields[idx + 1],
                        self.static_fields[idx + 2],
                        self.static_fields[idx + 3],
                    ) as i32
                } else {
                    0
                };
                Self::stop_on(self.push_int(v))
            } else {
                let v = match self.pop_int() {
                    Ok(v) => v,
                    Err(e) => return Some(e),
                };
                if idx + 3 < STATIC_FIELDS_SIZE {
                    let (hi, lo) = ops::int_to_words(v);
                    self.static_fields[idx] = crate::bytes::high_byte(hi);
                    self.static_fields[idx + 1] = crate::bytes::low_byte(hi);
                    self.static_fields[idx + 2] = crate::bytes::high_byte(lo);
                    self.static_fields[idx + 3] = crate::bytes::low_byte(lo);
                }
                None
            }
        } else {
            Some(ExecResult::InvalidOpcode(op))
        }
    }

    /// What `athrow`, `checkcast` and `instanceof` do: `athrow` ends the run with an
    /// uncaught exception carrying the popped reference; `checkcast` skips its 2-byte
    /// operand; `instanceof` skips it and replaces the top reference by 1 when it is not
    /// null, else 0.
    pub open spec fn misc_effect(
        old: Self,
        op: u8,
        bc: [u8; MAX_BYTECODE],
        len: u16,
        new: Self,
        r: Option<ExecResult>,
    ) -> bool {
        let sw = old.stack_words();
        let n = sw.len();
        let pc = old.pc_value() as int;
        if op == opcodes::ATHROW {
            if n < 1 {
                r == Some(ExecResult::StackUnderflow)
            } else {
                r == Some(ExecResult::UncaughtException(sw[n - 1]))
            }
        } else if op == opcodes::CHECKCAST || op == opcodes::INSTANCEOF {
            if pc + 2 > len {
                r == Some(ExecResult::EndOfBytecode)
            } else if op == opcodes::CHECKCAST {
                r is None && new.moved(&old, sw, pc + 2)
            } else {
                new.stack_step(
                    &old,
                    r,
                    1,
                    seq![
                        if sw[n - 1] != 0 {
                            1u16
                        } else {
                            0u16
                        },
                    ],
                    pc + 2,
                )
            }
        } else {
            r == Some(ExecResult::InvalidOpcode(op))
        }
    }

    /// `athrow` and the type-check stubs (`checkcast` always passes; `instanceof` is 1
    /// for any non-null reference).
    fn exec_misc(&mut self, op: u8, bc: &[u8; MAX_BYTECODE], len: u16) -> (r: Option<ExecResult>)
        requires
            old(self).wf(),
            len <= MAX_BYTECODE,
        ensures
            final(self).keeps_config(old(self)),
            final(self).heap == old(self).heap,
            final(self).static_fields == old(self).static_fields,
            final(self).journal == old(self).journal,
            Self::misc_effect(*old(self), op, *bc, len, *final(self), r),
    {
        if op == opcodes::ATHROW {
            match self.pop() {
                Ok(v) => Some(ExecResult::UncaughtException(v)),
                Err(e) => Some(e),
            }
        } else if op == opcodes::CHECKCAST || op == opcodes::INSTANCEOF {
            if self.fetch_u8(bc, len).is_none() {
                return Some(ExecResult::EndOfBytecode);
            }
            if self.fetch_u8(bc, len).is_none() {
                return Some(ExecResult::EndOfBytecode);
            }
            if op == opcodes::CHECKCAST {
                return None;
            }
            let v = match self.pop() {
                Ok(v) => v,
                Err(e) => return Some(e),
            };
            Self::stop_on(
                self.push(
                    if v != 0 {
                        1
                    } else {
                        0
                    },
                ),
            )
        } else {
            Some(ExecResult::InvalidOpcode(op))
        }
    }

    /// Object and array creation.
    fn exec_alloc(&mut self, op: u8, bc: &[u8; MAX_BYTECODE], len: u16) -> (r: Option<ExecResult>)
        requires
            old(self).wf(),
            len <= MAX_BYTECODE,
            op == opcodes::NEW || op == opcodes::NEWARRAY || op == opcodes::ANEWARRAY,
        ensures
            r is Some && op != opcodes::NEW ==> final(self).heap == old(self).heap,
            final(self).keeps_config(old(self)),
            final(self).static_fields == old(self).static_fields,
            final(self).journal == old(self).journal,
            final(self).locals == old(self).locals,
            final(self).frame_ptr == old(self).frame_ptr,
            Self::alloc_effect(*old(self), op, *bc, len, *final(self), r),
    {
        let ctx = self.current_context;
        if op == opcodes::NEW {
            let field_bytes = match self.fetch_u8(bc, len) {
                Some(b) => b,
                None => return Some(ExecResult::EndOfBytecode),
            };
            if self.fetch_u8(bc, len).is_none() {
                return Some(ExecResult::EndOfBytecode);
            }
            match self.heap.alloc_instance(ctx, field_bytes as u16) {
                Some(obj) => Self::stop_on(self.push(obj.0)),
                None => Some(ExecResult::HeapFull),
            }
        } else if op == opcodes::NEWARRAY || op == opcodes::ANEWARRAY {
            if self.fetch_u8(bc, len).is_none() {
                return Some(ExecResult::EndOfBytecode);
            }
            let length = match self.pop_i16() {
                Ok(v) => v,
                Err(e) => return Some(e),
            };
            if length < 0 {
                return Some(
                    if op == opcodes::NEWARRAY {
                        ExecResult::ArrayIndexOutOfBounds
                    } else {
                        ExecResult::NegativeArraySize
                    },
                );
            }
            let made = if op == opcodes::NEWARRAY {
                self.heap.alloc_byte_array(ctx, length as u16)
            } else {
                self.heap.alloc_short_array(ctx, length as u16)
            };
            match made {
                Some(obj) => Self::stop_on(self.push(obj.0)),
                None => Some(ExecResult::HeapFull),
            }
        } else {
            Some(ExecResult::InvalidOpcode(op))
        }
    }

    /// Array element access and array length.
    fn exec_array(&mut self, op: u8) -> (r: Option<ExecResult>)
        requires
            old(self).wf(),
            !(op == opcodes::NEW || op == opcodes::NEWARRAY || op == opcodes::ANEWARRAY) && !(opcodes::GETFIELD_A <= op <= opcodes::PUTFIELD_I),
        ensures
            r is Some && op != opcodes::IASTORE ==> final(self).heap == old(self).heap,
            final(self).keeps_config(old(self)),
            final(self).static_fields == old(self).static_fields,
            final(self).journal == old(self).journal,
            final(self).locals == old(self).locals,
            final(self).frame_ptr == old(self).frame_ptr,
            Self::array_effect(*old(self), op, *final(self), r),
    {
        let ctx = self.current_context;
        if op == opcodes::BALOAD {
            let (arr, index) = match self.pop2() {
                Ok(p) => p,
                Err(e) => return Some(e),
            };
            match self.heap.baload_checked(ObjRef(arr), index, ctx) {
                Ok(v) => Self::stop_on(self.push(v as u16)),
                Err(e) => Some(map_access(e)),
            }
        } else if op == opcodes::BASTORE {
            let value = match self.pop() {
                Ok(v) => v,
                Err(e) => return Some(e),
            };
            let (arr, index) = match self.pop2() {
                Ok(p) => p,
                Err(e) => return Some(e),
            };
            match self.heap.bastore_checked(ObjRef(arr), index, value as u8, ctx) {
                Ok(()) => None,
                Err(e) => Some(map_access(e)),
            }
        } else if op == opcodes::SALOAD || op == opcodes::AALOAD {
            let (arr, index) = match self.pop2() {
                Ok(p) => p,
                Err(e) => return Some(e),
            };
            match self.heap.saload_checked(ObjRef(arr), index, ctx) {
                Ok(v) => Self::stop_on(self.push(v as u16)),
                Err(e) => Some(map_access(e)),
            }
        } else if op == opcodes::SASTORE || op == opcodes::AASTORE {
            let value = match self.pop_i16() {
                Ok(v) => v,
                Err(e) => return Some(e),
            };
            let (arr, index) = match self.pop2() {
                Ok(p) => p,
                Err(e) => return Some(e),
            };
            match self.heap.sastore_checked(ObjRef(arr), index, value, ctx) {
                Ok(()) => None,
                Err(e) => Some(map_access(e)),
            }
        } else if op == opcodes::IALOAD {
            let (arr, index) = match self.pop2() {
                Ok(p) => p,
                Err(e) => return Some(e),
            };
            let hi_idx = index.wrapping_mul(2);
            let lo_idx = hi_idx.wrapping_add(1);
            let hi = match self.heap.saload_checked(ObjRef(arr), hi_idx, ctx) {
                Ok(v) => v,
                Err(e) => return Some(map_access(e)),
            };
            let lo = match self.heap.saload_checked(ObjRef(arr), lo_idx, ctx) {
                Ok(v) => v,
                Err(e) => return Some(map_access(e)),
            };
            Self::stop_on(self.push_int(ops::words_to_int(hi as u16, lo as u16)))
        } else if op == opcodes::IASTORE {
            let v = match self.pop_int() {
                Ok(v) => v,
                Err(e) => return Some(e),
            };
            let (arr, index) = match self.pop2() {
                Ok(p) => p,
                Err(e) => return Some(e),
            };
            let (hi, lo) = ops::int_to_words(v);
            let hi_idx = index.wrapping_mul(2);
            let lo_idx = hi_idx.wrapping_add(1);
            if let Err(e) = self.heap.sastore_checked(ObjRef(arr), hi_idx, hi as i16, ctx) {
                return Some(map_access(e));
            }
            match self.heap.sastore_checked(ObjRef(arr), lo_idx, lo as i16, ctx) {
                Ok(()) => None,
                Err(e) => Some(map_access(e)),
            }
        } else if op == opcodes::ARRAYLENGTH {
            let obj = match self.pop() {
                Ok(v) => ObjRef(v),
                Err(e) => return Some(e),
            };
            if obj.is_null() {
                return Some(ExecResult::NullPointerException);
            }
            match self.heap.array_length(obj) {
                Some(n) => Self::stop_on(self.push(n)),
                None => Some(ExecResult::NullPointerException),
            }
        } else {
            Some(ExecResult::InvalidOpcode(op))
        }
    }

    /// Instance field access.
    fn exec_field(&mut self, op: u8, bc: &[u8; MAX_BYTECODE], len: u16) -> (r: Option<ExecResult>)
        requires
            old(self).wf(),
            len <= MAX_BYTECODE,
            opcodes::GETFIELD_A <= op <= opcodes::PUTFIELD_I,
        ensures
            r is Some ==> final(self).heap == old(self).heap,
            final(self).keeps_config(old(self)),
            final(self).static_fields == old(self).static_fields,
            final(self).journal == old(self).journal,
            final(self).locals == old(self).locals,
            final(self).frame_ptr == old(self).frame_ptr,
            Self::field_effect(*old(self), op, *bc, len, *final(self), r),
    {
        let ctx = self.current_context;
        if opcodes::GETFIELD_A <= op && op <= opcodes::PUTFIELD_I {
            let field = match self.fetch_u8(bc, len) {
                Some(b) => b as u16,
                None => return Some(ExecResult::EndOfBytecode),
            };
            if self.fetch_u8(bc, len).is_none() {
                return Some(ExecResult::EndOfBytecode);
            }
            if op == opcodes::GETFIELD_A || op == opcodes::GETFIELD_B || op == opcodes::GETFIELD_S
                || op == opcodes::GETFIELD_I {
                let obj = match self.pop() {
                    Ok(v) => ObjRef(v),
                    Err(e) => return Some(e),
                };
                if op == opcodes::GETFIELD_B {
                    match self.heap.getfield_b_checked(obj, field, ctx) {
                        Ok(v) => Self::stop_on(self.push(v as u16)),
                        Err(e) => Some(map_field(e)),
                    }
                } else if op == opcodes::GETFIELD_S {
                    match self.heap.getfield_s(obj, field, ctx) {
                        Ok(v) => Self::stop_on(self.push(v as u16)),
                        Err(e) => Some(map_field(e)),
                    }
                } else if op == opcodes::GETFIELD_A {
                    match self.heap.getfield_a(obj, field, ctx) {
                        Ok(v) => Self::stop_on(self.push(v)),
                        Err(e) => Some(map_field(e)),
                    }
                } else {
                    match self.heap.getfield_i(obj, field, ctx) {
                        Ok(v) => Self::stop_on(self.push_int(v)),
                        Err(e) => Some(map_field(e)),
                    }
                }
            } else if op == opcodes::PUTFIELD_I {
                let v = match self.pop_int() {
                    Ok(v) => v,
                    Err(e) => return Some(e),
                };
                let obj = match self.pop() {
                    Ok(v) => ObjRef(v),
                    Err(e) => return Some(e),
                };
                match self.heap.putfield_i(obj, field, v, ctx) {
                    Ok(()) => None,
                    Err(e) => Some(map_field(e)),
                }
            } else {
                let (o, v) = match self.pop2() {
                    Ok(p) => p,
                    Err(e) => return Some(e),
                };
                let obj = ObjRef(o);
                let res = if op == opcodes::PUTFIELD_B {
                    self.heap.putfield_b_checked(obj, field, v as u8, ctx)
                } else if op == opcodes::PUTFIELD_S {
                    self.heap.putfield_s(obj, field, v as i16, ctx)
                } else {
                    self.heap.putfield_a(obj, field, v, ctx)
                };
                match res {
                    Ok(()) => None,
                    Err(e) => Some(map_field(e)),
                }
            }
        } else {
            Some(ExecResult::InvalidOpcode(op))
        }
    }

    /// `self` is `old` with the operand stack `stack`, the program counter at `pc` and a
    /// new heap (which the caller describes); nothing else changed.
    pub open spec fn moved_heap(&self, old: &Self, stack: Seq<u16>, pc: int) -> bool {
        self.moved_all(old, stack, pc, old.locals_view(), old.static_bytes(), self.heap_view())
    }

    /// What an allocation does: `new` allocates an instance with as many field bytes as
    /// its first operand byte says (skipping the second), `newarray` and `anewarray`
    /// allocate a byte or short array of the popped length (skipping a type byte); each
    /// for the current context, pushing the new reference. A negative length raises an
    /// index or a negative size error, an allocation that does not fit a full heap.
    pub open spec fn alloc_effect(
        old: Self,
        op: u8,
        bc: [u8; MAX_BYTECODE],
        len: u16,
        new: Self,
        r: Option<ExecResult>,
    ) -> bool {
        let sw = old.stack_words();
        let n = sw.len();
        let pc = old.pc_value() as int;
        let h = old.heap_view();
        let nh = new.heap_view();
        let ctx = old.context();
        let at = ObjRef(h.free_ptr() as u16);
        if op == opcodes::NEW {
            let fb = bc@[pc] as u16;
            let need = h.free_ptr() + HEADER_SIZE + fb;
            if pc + 2 > len {
                r == Some(ExecResult::EndOfBytecode)
            } else if need > HEAP_SIZE || need > u16::MAX {
                r == Some(ExecResult::HeapFull)
            } else if n + 1 > MAX_STACK {
                r == Some(ExecResult::StackOverflow)
                    && ObjectHeap::<HEAP_SIZE>::instance_outcome(h, nh, ctx, fb, Some(at))
            } else {
                r is None && new.moved_heap(&old, sw.push(at.0), pc + 2)
                    && ObjectHeap::<HEAP_SIZE>::instance_outcome(h, nh, ctx, fb, Some(at))
            }
        } else if op == opcodes::NEWARRAY || op == opcodes::ANEWARRAY {
            let length = sw[n - 1] as i16;
            let bytes: int = if op == opcodes::NEWARRAY {
                length as int
            } else {
                2 * length
            };
            let need = h.free_ptr() + HEADER_SIZE + ARRAY_LENGTH_PREFIX + bytes;
            if pc + 1 > len {
                r == Some(ExecResult::EndOfBytecode)
            } else if n < 1 {
                r == Some(ExecResult::StackUnderflow)
            } else if length < 0 {
                r == Some(
                    if op == opcodes::NEWARRAY {
                        ExecResult::ArrayIndexOutOfBounds
                    } else {
                        ExecResult::NegativeArraySize
                    },
                )
            } else if need > HEAP_SIZE || need > u16::MAX {
                r == Some(ExecResult::HeapFull)
            } else {
                r is None && new.moved_heap(&old, sw.subrange(0, n - 1).push(at.0), pc + 1)
                    && ObjectHeap::<HEAP_SIZE>::alloc_outcome(
                    h,
                    nh,
                    ctx,
                    if op == opcodes::NEWARRAY {
                        ObjectKind::ByteArray
                    } else {
                        ObjectKind::ShortArray
                    },
                    length as u16,
                    bytes,
                    Some(at),
                )
            }
        } else {
            r == Some(ExecResult::InvalidOpcode(op))
        }
    }

    /// What an array opcode does, for the current context and through the heap's
    /// firewall and bounds checks ([`access_result`] says what a refusal raises): the
    /// loads pop the array and index and push the byte, short or int element (an int
    /// element is the two shorts at twice the index and the one after); the stores pop
    /// the value too and write it; `arraylength` replaces an array by its length (a null
    /// or non-array reference raises a null pointer exception).
    pub open spec fn array_effect(old: Self, op: u8, new: Self, r: Option<ExecResult>) -> bool {
        let sw = old.stack_words();
        let n = sw.len();
        let pc = old.pc_value() as int;
        let h = old.heap_view();
        let nh = new.heap_view();
        let ctx = old.context();
        if op == opcodes::BALOAD || op == opcodes::SALOAD || op == opcodes::AALOAD {
            let byte = op == opcodes::BALOAD;
            if n < 2 {
                r == Some(ExecResult::StackUnderflow)
            } else {
                match h.spec_element(
                    ObjRef(sw[n - 2]),
                    sw[n - 1],
                    ctx,
                    if byte {
                        ObjectKind::ByteArray
                    } else {
                        ObjectKind::ShortArray
                    },
                    if byte {
                        1
                    } else {
                        2
                    },
                ) {
                    Err(e) => r == Some(access_result(e)),
                    Ok(off) => r is None && new.moved(
                        &old,
                        sw.subrange(0, n - 2).push(
                            if byte {
                                h.byte_at(off) as u16
                            } else {
                                (h.be16_at(off) as i16) as u16
                            },
                        ),
                        pc,
                    ),
                }
            }
        } else if op == opcodes::BASTORE || op == opcodes::SASTORE || op == opcodes::AASTORE {
            let byte = op == opcodes::BASTORE;
            let v = sw[n - 1];
            if n < 3 {
                r == Some(ExecResult::StackUnderflow)
            } else {
                match h.spec_element(
                    ObjRef(sw[n - 3]),
                    sw[n - 2],
                    ctx,
                    if byte {
                        ObjectKind::ByteArray
                    } else {
                        ObjectKind::ShortArray
                    },
                    if byte {
                        1
                    } else {
                        2
                    },
                ) {
                    Err(e) => r == Some(access_result(e)),
                    Ok(off) => r is None && new.moved_heap(&old, sw.subrange(0, n - 3), pc)
                        && nh.free_ptr() == h.free_ptr() && nh.bytes() == (if byte {
                        h.bytes().update(off, v as u8)
                    } else {
                        h.bytes().update(off, hi8((v as i16) as u16)).update(
                            off + 1,
                            lo8((v as i16) as u16),
                        )
                    }),
                }
            }
        } else if op == opcodes::IALOAD {
            let arr = ObjRef(sw[n - 2]);
            let hi_idx = u16_specs::wrapping_mul(sw[n - 1], 2);
            let lo_idx = u16_specs::wrapping_add(hi_idx, 1);
            if n < 2 {
                r == Some(ExecResult::StackUnderflow)
            } else {
                match h.spec_element(arr, hi_idx, ctx, ObjectKind::ShortArray, 2) {
                    Err(e) => r == Some(access_result(e)),
                    Ok(oh) => match h.spec_element(arr, lo_idx, ctx, ObjectKind::ShortArray, 2) {
                        Err(e) => r == Some(access_result(e)),
                        Ok(ol) => r is None && new.moved(
                            &old,
                            sw.subrange(0, n - 2) + Self::int_words(
                                ops::int_of_words(
                                    (h.be16_at(oh) as i16) as u16,
                                    (h.be16_at(ol) as i16) as u16,
                                ),
                            ),
                            pc,
                        ),
                    },
                }
            }
        } else if op == opcodes::IASTORE {
            let v = ops::int_of_words(sw[n - 2], sw[n - 1]);
            let hi = (ops::high_word(v) as i16) as u16;
            let lo = (ops::low_word(v) as i16) as u16;
            let arr = ObjRef(sw[n - 4]);
            let hi_idx = u16_specs::wrapping_mul(sw[n - 3], 2);
            let lo_idx = u16_specs::wrapping_add(hi_idx, 1);
            if n < 4 {
                r == Some(ExecResult::StackUnderflow)
            } else {
                match h.spec_element(arr, hi_idx, ctx, ObjectKind::ShortArray, 2) {
                    Err(e) => r == Some(access_result(e)),
                    Ok(oh) => match h.spec_element(arr, lo_idx, ctx, ObjectKind::ShortArray, 2) {
                        Err(e) => r == Some(access_result(e)) && nh.free_ptr() == h.free_ptr()
                            && nh.bytes() == h.bytes().update(oh, hi8(hi)).update(oh + 1, lo8(hi)),
                        Ok(ol) => r is None && new.moved_heap(&old, sw.subrange(0, n - 4), pc)
                            && nh.free_ptr() == h.free_ptr() && nh.bytes() == h.bytes().update(
                            oh,
                            hi8(hi),
                        ).update(oh + 1, lo8(hi)).update(ol, hi8(lo)).update(ol + 1, lo8(lo)),
                    },
                }
            }
        } else if op == opcodes::ARRAYLENGTH {
            if n < 1 {
                r == Some(ExecResult::StackUnderflow)
            } else if sw[n - 1] == 0 {
                r == Some(ExecResult::NullPointerException)
            } else {
                match h.spec_array_length(ObjRef(sw[n - 1])) {
                    None => r == Some(ExecResult::NullPointerException),
                    Some(l) => r is None && new.moved(&old, sw.subrange(0, n - 1).push(l), pc),
                }
            }
        } else {
            r == Some(ExecResult::InvalidOpcode(op))
        }
    }

    /// What an instance field opcode does, for the current context and through the
    /// heap's firewall and bounds checks ([`field_result`] says what a refusal raises):
    /// the field is named by its byte offset (the first operand byte; the second is
    /// skipped); the reads replace the instance by the byte, short, reference or int
    /// there, the writes pop the value and the instance and store the value there.
    pub open spec fn field_effect(
        old: Self,
        op: u8,
        bc: [u8; MAX_BYTECODE],
        len: u16,
        new: Self,
        r: Option<ExecResult>,
    ) -> bool {
        let sw = old.stack_words();
        let n = sw.len();
        let pc = old.pc_value() as int;
        let h = old.heap_view();
        let nh = new.heap_view();
        let ctx = old.context();
        let field = bc@[pc] as u16;
        if !(opcodes::GETFIELD_A <= op <= opcodes::PUTFIELD_I) {
            r == Some(ExecResult::InvalidOpcode(op))
        } else if pc + 2 > len {
            r == Some(ExecResult::EndOfBytecode)
        } else if op <= opcodes::GETFIELD_I {
            let size: int = if op == opcodes::GETFIELD_B {
                1
            } else if op == opcodes::GETFIELD_I {
                4
            } else {
                2
            };
            if n < 1 {
                r == Some(ExecResult::StackUnderflow)
            } else {
                match h.spec_field(ObjRef(sw[n - 1]), field, ctx, size) {
                    Err(e) => r == Some(field_result(e)),
                    Ok(off) => new.stack_step(
                        &old,
                        r,
                        1,
                        if op == opcodes::GETFIELD_B {
                            seq![h.byte_at(off) as u16]
                        } else if op == opcodes::GETFIELD_S {
                            seq![(h.be16_at(off) as i16) as u16]
                        } else if op == opcodes::GETFIELD_A {
                            seq![h.be16_at(off)]
                        } else {
                            Self::int_words(h.be32_at(off))
                        },
                        pc + 2,
                    ),
                }
            }
        } else if op == opcodes::PUTFIELD_I {
            if n < 3 {
                r == Some(ExecResult::StackUnderflow)
            } else {
                match h.spec_field(ObjRef(sw[n - 3]), field, ctx, 4) {
                    Err(e) => r == Some(field_result(e)),
                    Ok(off) => r is None && new.moved_heap(&old, sw.subrange(0, n - 3), pc + 2)
                        && nh.free_ptr() == h.free_ptr() && nh.be32_at(off) == ops::int_of_words(
                        sw[n - 2],
                        sw[n - 1],
                    ) && nh.same_outside(&h, off, off + 4),
                }
            }
        } else {
            let v = sw[n - 1];
            if n < 2 {
                r == Some(ExecResult::StackUnderflow)
            } else {
                match h.spec_field(
                    ObjRef(sw[n - 2]),
                    field,
                    ctx,
                    if op == opcodes::PUTFIELD_B {
                        1
                    } else {
                        2
                    },
                ) {
                    Err(e) => r == Some(field_result(e)),
                    Ok(off) => r is None && new.moved_heap(&old, sw.subrange(0, n - 2), pc + 2)
                        && nh.free_ptr() == h.free_ptr() && nh.bytes() == (if op
                        == opcodes::PUTFIELD_B {
                        h.bytes().update(off, v as u8)
                    } else if op == opcodes::PUTFIELD_S {
                        h.bytes().update(off, hi8((v as i16) as u16)).update(
                            off + 1,
                            lo8((v as i16) as u16),
                        )
                    } else {
                        h.bytes().update(off, hi8(v)).update(off + 1, lo8(v))
                    }),
                }
            }
        }
    }

    /// What a heap opcode does (see [`JcVM::alloc_effect`], [`JcVM::array_effect`] and
    /// [`JcVM::field_effect`]).
    pub open spec fn heap_effect(
        old: Self,
        op: u8,
        bc: [u8; MAX_BYTECODE],
        len: u16,
        new: Self,
        r: Option<ExecResult>,
    ) -> bool {
        if op == opcodes::NEW || op == opcodes::NEWARRAY || op == opcodes::ANEWARRAY {
            Self::alloc_effect(old, op, bc, len, new, r)
        } else if opcodes::GETFIELD_A <= op <= opcodes::PUTFIELD_I {
            Self::field_effect(old, op, bc, len, new, r)
        } else {
            Self::array_effect(old, op, new, r)
        }
    }

    /// Object creation, array element and instance field access, array length. Every
    /// access goes through the heap's firewall and bounds checks.
    fn exec_heap(&mut self, op: u8, bc: &[u8; MAX_BYTECODE], len: u16) -> (r: Option<ExecResult>)
        requires
            old(self).wf(),
            len <= MAX_BYTECODE,
        ensures
            r is Some && op != opcodes::NEW && op != opcodes::IASTORE ==> final(self).heap == old(self).heap,
            final(self).keeps_config(old(self)),
            final(self).static_fields == old(self).static_fields,
            final(self).journal == old(self).journal,
            final(self).locals == old(self).locals,
            final(self).frame_ptr == old(self).frame_ptr,
            Self::heap_effect(*old(self), op, *bc, len, *final(self), r),
    {
        if op == opcodes::NEW || op == opcodes::NEWARRAY || op == opcodes::ANEWARRAY {
            self.exec_alloc(op, bc, len)
        } else if opcodes::GETFIELD_A <= op && op <= opcodes::PUTFIELD_I {
            self.exec_field(op, bc, len)
        } else {
            self.exec_array(op)
        }
    }

    /// The 2-byte big-endian signed value at `off` in `bc`.
    fn bc_i16(bc: &[u8; MAX_BYTECODE], off: usize) -> (r: i16)
        requires
            off + 1 < MAX_BYTECODE,
        ensures
            r == crate::bytes::be16(bc@[off as int], bc@[off + 1]) as i16,
    {
        crate::bytes::read_be16(bc[off], bc[off + 1]) as i16
    }

    /// The key of the lookup pair at `e`: a 2-byte short key for pairs of 4 bytes, a
    /// 4-byte int key for pairs of 6.
    pub open spec fn pair_key(bc: Seq<u8>, e: int, width: int) -> i32 {
        if width == 4 {
            (crate::bytes::be16(bc[e], bc[e + 1]) as i16) as i32
        } else {
            crate::bytes::be32(bc[e], bc[e + 1], bc[e + 2], bc[e + 3]) as i32
        }
    }

    /// Where lookup pair `i` starts: `start + i * width`, within the 16-bit counter.
    pub open spec fn pair_at(start: int, width: int, i: int) -> int {
        (start + (i * width) % 65536) % 65536
    }

    /// Scanning lookup pairs `i..npairs` for `key`: the jump offset of the first pair
    /// that matches, `Ok(None)` when none does, or `Err(())` when a pair runs past the
    /// bytecode before one matches.
    pub open spec fn lookup_scan(
        bc: Seq<u8>,
        len: int,
        start: int,
        width: int,
        npairs: int,
        key: i32,
        i: int,
    ) -> Result<Option<int>, ()>
        decreases npairs - i,
    {
        if i >= npairs {
            Ok(None)
        } else {
            let e = Self::pair_at(start, width, i);
            if e + width > len {
                Err(())
            } else if Self::pair_key(bc, e, width) == key {
                Ok(Some((crate::bytes::be16(bc[e + width - 2], bc[e + width - 1]) as i16) as int))
            } else {
                Self::lookup_scan(bc, len, start, width, npairs, key, i + 1)
            }
        }
    }

    /// Lookup pair `i` lies within the bytecode and its key is not `key`.
    pub open spec fn pair_misses(bc: Seq<u8>, len: int, start: int, width: int, key: i32, i: int) -> bool {
        let e = Self::pair_at(start, width, i);
        e + width <= len && Self::pair_key(bc, e, width) != key
    }

    /// The scan's answer when it stops at lookup pair `i`: the signed word that closes
    /// the pair when its key is `key`, a failure when the pair runs past the bytecode.
    pub open spec fn pair_stop(bc: Seq<u8>, len: int, start: int, width: int, i: int) -> Result<Option<int>, ()> {
        let e = Self::pair_at(start, width, i);
        if e + width > len {
            Err(())
        } else {
            Ok(Some((crate::bytes::be16(bc[e + width - 2], bc[e + width - 1]) as i16) as int))
        }
    }

    /// A lookup switch takes the first matching pair, scanning from the lowest: the scan
    /// finds no pair exactly when every pair lies within the bytecode and has another
    /// key; otherwise it stops at the first pair `i` that does not miss, and gives that
    /// pair's closing offset when its key matches, or fails when it runs past the
    /// bytecode.
    pub proof fn lemma_lookup_scan(bc: Seq<u8>, len: int, start: int, width: int, npairs: int, key: i32, k: int)
        ensures
            Self::lookup_scan(bc, len, start, width, npairs, key, k) == Ok::<Option<int>, ()>(None) <==> forall|
                j: int,
            | k <= j < npairs ==> #[trigger] Self::pair_misses(bc, len, start, width, key, j),
            Self::lookup_scan(bc, len, start, width, npairs, key, k) != Ok::<Option<int>, ()>(None) ==> exists|
                i: int,
            |
                #![trigger Self::pair_misses(bc, len, start, width, key, i)]
                k <= i < npairs && !Self::pair_misses(bc, len, start, width, key, i) && (forall|j: int|
                    k <= j < i ==> #[trigger] Self::pair_misses(bc, len, start, width, key, j))
                    && Self::lookup_scan(bc, len, start, width, npairs, key, k) == Self::pair_stop(
                    bc,
                    len,
                    start,
                    width,
                    i,
                ),
        decreases npairs - k,
    {
        if k < npairs {
            Self::lemma_lookup_scan(bc, len, start, width, npairs, key, k + 1);
            let r = Self::lookup_scan(bc, len, start, width, npairs, key, k);
            if Self::pair_misses(bc, len, start, width, key, k) {
                assert(r == Self::lookup_scan(bc, len, start, width, npairs, key, k + 1));
                if r != Ok::<Option<int>, ()>(None) {
                    let i = choose|i: int|
                        #![trigger Self::pair_misses(bc, len, start, width, key, i)]
                        k + 1 <= i < npairs && !Self::pair_misses(bc, len, start, width, key, i) && (forall|j: int|
                            k + 1 <= j < i ==> #[trigger] Self::pair_misses(bc, len, start, width, key, j))
                            && Self::lookup_scan(bc, len, start, width, npairs, key, k + 1) == Self::pair_stop(
                            bc,
                            len,
                            start,
                            width,
                            i,
                        );
                    assert(forall|j: int| k <= j < i ==> #[trigger] Self::pair_misses(bc, len, start, width, key, j));
                }
            } else {
                assert(r == Self::pair_stop(bc, len, start, width, k));
                assert(forall|j: int| k <= j < k ==> #[trigger] Self::pair_misses(bc, len, start, width, key, j));
            }
        }
    }

    /// The key a switch pops: the top short, or the top int.
    pub open spec fn switch_key(sw: Seq<u16>, short: bool) -> i32 {
        if short {
            (sw[sw.len() - 1] as i16) as i32
        } else {
            ops::int_of_words(sw[sw.len() - 2], sw[sw.len() - 1])
        }
    }

    /// What a table switch does: it reads its 2-byte default offset and its low and
    /// high bounds (2-byte for `stableswitch`, 4-byte for `itableswitch`) and pops the
    /// short or int key: a key within the bounds jumps by the offset of its table entry
    /// (2 bytes each, after the bounds), another by the default. Jumps count from the
    /// switch opcode; an operand or entry past the bytecode stops the run at the end of
    /// the bytecode.
    pub open spec fn table_switch_effect(
        old: Self,
        op: u8,
        bc: [u8; MAX_BYTECODE],
        len: u16,
        new: Self,
        r: Option<ExecResult>,
    ) -> bool {
        let sw = old.stack_words();
        let n = sw.len();
        let pc = old.pc_value() as int;
        let b = bc@;
        let spc = u16_specs::wrapping_sub(old.pc_value(), 1);
        let short = op == opcodes::STABLESWITCH;
        let k: int = if short {
            1
        } else {
            2
        };
        let key = Self::switch_key(sw, short);
        let default = (crate::bytes::be16(b[pc], b[pc + 1]) as i16) as int;
        let w: int = if short {
            2
        } else {
            4
        };
        let after = pc + 2 + 2 * w;
        let low: i32 = if short {
            (crate::bytes::be16(b[pc + 2], b[pc + 3]) as i16) as i32
        } else {
            crate::bytes::be32(b[pc + 2], b[pc + 3], b[pc + 4], b[pc + 5]) as i32
        };
        let high: i32 = if short {
            (crate::bytes::be16(b[pc + 4], b[pc + 5]) as i16) as i32
        } else {
            crate::bytes::be32(b[pc + 6], b[pc + 7], b[pc + 8], b[pc + 9]) as i32
        };
        let entry = (after + ((key - low) % 32768) * 2) % 65536;
        if after > len {
            r == Some(ExecResult::EndOfBytecode)
        } else if n < k {
            r == Some(ExecResult::StackUnderflow)
        } else if low <= key <= high {
            if entry + 1 >= len {
                r == Some(ExecResult::EndOfBytecode)
            } else {
                r is None && new.moved(
                    &old,
                    sw.subrange(0, n - k),
                    ops::branch_pc(spc, 0, (crate::bytes::be16(b[entry], b[entry + 1]) as i16) as int)
                        as int,
                )
            }
        } else {
            r is None && new.moved(&old, sw.subrange(0, n - k), ops::branch_pc(spc, 0, default) as int)
        }
    }

    /// What a lookup switch does: it reads its 2-byte default offset and pair count and
    /// pops the short or int key, then jumps by the offset of the first pair whose key
    /// matches ([`JcVM::lookup_scan`]), or by the default. Jumps count from the switch
    /// opcode; an operand or pair past the bytecode stops the run at the end of the
    /// bytecode.
    pub open spec fn lookup_switch_effect(
        old: Self,
        op: u8,
        bc: [u8; MAX_BYTECODE],
        len: u16,
        new: Self,
        r: Option<ExecResult>,
    ) -> bool {
        let sw = old.stack_words();
        let n = sw.len();
        let pc = old.pc_value() as int;
        let b = bc@;
        let spc = u16_specs::wrapping_sub(old.pc_value(), 1);
        let short = op == opcodes::SLOOKUPSWITCH;
        let k: int = if short {
            1
        } else {
            2
        };
        let default = (crate::bytes::be16(b[pc], b[pc + 1]) as i16) as int;
        let npairs = crate::bytes::be16(b[pc + 2], b[pc + 3]) as int;
        let width: int = if short {
            4
        } else {
            6
        };
        if pc + 4 > len {
            r == Some(ExecResult::EndOfBytecode)
        } else if n < k {
            r == Some(ExecResult::StackUnderflow)
        } else {
            match Self::lookup_scan(b, len as int, pc + 4, width, npairs, Self::switch_key(sw, short), 0) {
                Err(_) => r == Some(ExecResult::EndOfBytecode),
                Ok(found) => r is None && new.moved(
                    &old,
                    sw.subrange(0, n - k),
                    ops::branch_pc(
                        spc,
                        0,
                        match found {
                            Some(off) => off,
                            None => default,
                        },
                    ) as int,
                ),
            }
        }
    }

    /// What a switch does (see [`JcVM::table_switch_effect`] and
    /// [`JcVM::lookup_switch_effect`]).
    pub open spec fn switch_effect(
        old: Self,
        op: u8,
        bc: [u8; MAX_BYTECODE],
        len: u16,
        new: Self,
        r: Option<ExecResult>,
    ) -> bool {
        if op == opcodes::STABLESWITCH || op == opcodes::ITABLESWITCH {
            Self::table_switch_effect(old, op, bc, len, new, r)
        } else if op == opcodes::SLOOKUPSWITCH || op == opcodes::ILOOKUPSWITCH {
            Self::lookup_switch_effect(old, op, bc, len, new, r)
        } else {
            r == Some(ExecResult::InvalidOpcode(op))
        }
    }

    /// The table switches.
    #[verifier::spinoff_prover]
    #[verifier::rlimit(100)]
    fn exec_table_switch(&mut self, op: u8, bc: &[u8; MAX_BYTECODE], len: u16) -> (r: Option<ExecResult>)
        requires
            old(self).wf(),
            len <= MAX_BYTECODE,
            op == opcodes::STABLESWITCH || op == opcodes::ITABLESWITCH,
        ensures
            final(self).keeps_config(old(self)),
            final(self).heap == old(self).heap,
            final(self).static_fields == old(self).static_fields,
            final(self).journal == old(self).journal,
            final(self).locals == old(self).locals,
            final(self).frame_ptr == old(self).frame_ptr,
            Self::table_switch_effect(*old(self), op, *bc, len, *final(self), r),
    {
        let switch_pc = self.pc.wrapping_sub(1);
        let default_offset = match self.fetch_i16(bc, len) {
            Some(v) => v,
            None => return Some(ExecResult::EndOfBytecode),
        };
        let (low, high): (i32, i32) = if op == opcodes::STABLESWITCH {
            let lo = match self.fetch_i16(bc, len) {
                Some(v) => v,
                None => return Some(ExecResult::EndOfBytecode),
            };
            let hi = match self.fetch_i16(bc, len) {
                Some(v) => v,
                None => return Some(ExecResult::EndOfBytecode),
            };
            (lo as i32, hi as i32)
        } else {
            let lo = match self.fetch_i32(bc, len) {
                Some(v) => v,
                None => return Some(ExecResult::EndOfBytecode),
            };
            let hi = match self.fetch_i32(bc, len) {
                Some(v) => v,
                None => return Some(ExecResult::EndOfBytecode),
            };
            (lo, hi)
        };
        let key: i32 = if op == opcodes::STABLESWITCH {
            match self.pop_i16() {
                Ok(v) => v as i32,
                Err(e) => return Some(e),
            }
        } else {
            match self.pop_int() {
                Ok(v) => v,
                Err(e) => return Some(e),
            }
        };
        if key >= low && key <= high {
            let idx = ((key as i64) - (low as i64)) as u64;
            let entry_pc = self.pc.wrapping_add(((idx % 32768) * 2) as u16);
            if (entry_pc as u32) + 1 >= len as u32 {
                return Some(ExecResult::EndOfBytecode);
            }
            let offset = Self::bc_i16(bc, entry_pc as usize);
            self.pc = ops::branch_target(switch_pc, 0, offset as i32);
        } else {
            self.pc = ops::branch_target(switch_pc, 0, default_offset as i32);
        }
        None
    }

    /// Scan the lookup pairs from `start` for `key` (see [`JcVM::lookup_scan`]).
    fn lookup_pair(bc: &[u8; MAX_BYTECODE], len: u16, start: u16, width: u16, npairs: u16, key: i32) -> (r:
        Result<Option<i16>, ()>)
        requires
            len <= MAX_BYTECODE,
            width == 4 || width == 6,
        ensures
            match Self::lookup_scan(bc@, len as int, start as int, width as int, npairs as int, key, 0) {
                Err(_) => r is Err,
                Ok(None) => r == Ok::<Option<i16>, ()>(None),
                Ok(Some(off)) => r matches Ok(Some(o)) && o as int == off,
            },
    {
        let mut i: u16 = 0;
        while i < npairs
            invariant
                len <= MAX_BYTECODE,
                width == 4 || width == 6,
                i <= npairs,
                Self::lookup_scan(bc@, len as int, start as int, width as int, npairs as int, key, 0)
                    == Self::lookup_scan(bc@, len as int, start as int, width as int, npairs as int, key, i as int),
            decreases npairs - i,
        {
            let entry = start.wrapping_add(i.wrapping_mul(width));
            let e = entry as usize;
            assert(e as int == Self::pair_at(start as int, width as int, i as int));
            if e + (width as usize) > len as usize {
                return Err(());
            }
            let matched = if width == 4 {
                (Self::bc_i16(bc, e) as i32) == key
            } else {
                (crate::bytes::read_be32(bc[e], bc[e + 1], bc[e + 2], bc[e + 3]) as i32) == key
            };
            if matched {
                return Ok(Some(Self::bc_i16(bc, e + (width as usize) - 2)));
            }
            assert(Self::lookup_scan(bc@, len as int, start as int, width as int, npairs as int, key, i as int)
                == Self::lookup_scan(bc@, len as int, start as int, width as int, npairs as int, key, i + 1));
            i = i + 1;
        }
        Ok(None)
    }

    /// The lookup switches.
    #[verifier::spinoff_prover]
    #[verifier::rlimit(100)]
    fn exec_lookup_switch(&mut self, op: u8, bc: &[u8; MAX_BYTECODE], len: u16) -> (r: Option<ExecResult>)
        requires
            old(self).wf(),
            len <= MAX_BYTECODE,
            op == opcodes::SLOOKUPSWITCH || op == opcodes::ILOOKUPSWITCH,
        ensures
            final(self).keeps_config(old(self)),
            final(self).heap == old(self).heap,
            final(self).static_fields == old(self).static_fields,
            final(self).journal == old(self).journal,
            final(self).locals == old(self).locals,
            final(self).frame_ptr == old(self).frame_ptr,
            Self::lookup_switch_effect(*old(self), op, *bc, len, *final(self), r),
    {
        let switch_pc = self.pc.wrapping_sub(1);
        let default_offset = match self.fetch_i16(bc, len) {
            Some(v) => v,
            None => return Some(ExecResult::EndOfBytecode),
        };
        let npairs = match self.fetch_u16(bc, len) {
            Some(v) => v,
            None => return Some(ExecResult::EndOfBytecode),
        };
        let key: i32 = if op == opcodes::SLOOKUPSWITCH {
            match self.pop_i16() {
                Ok(v) => v as i32,
                Err(e) => return Some(e),
            }
        } else {
            match self.pop_int() {
                Ok(v) => v,
                Err(e) => return Some(e),
            }
        };
        let width: u16 = if op == opcodes::SLOOKUPSWITCH {
            4
        } else {
            6
        };
        let pairs_start = self.pc;
        match Self::lookup_pair(bc, len, pairs_start, width, npairs, key) {
            Err(()) => Some(ExecResult::EndOfBytecode),
            Ok(Some(offset)) => {
                self.pc = ops::branch_target(switch_pc, 0, offset as i32);
                None
            },
            Ok(None) => {
                self.pc = ops::branch_target(switch_pc, 0, default_offset as i32);
                None
            },
        }
    }

    /// The table and lookup switches (short and int keys). Jump targets are relative to
    /// the switch opcode; a key outside the table or matching no pair takes the default.
    fn exec_switch(&mut self, op: u8, bc: &[u8; MAX_BYTECODE], len: u16) -> (r: Option<ExecResult>)
        requires
            old(self).wf(),
            len <= MAX_BYTECODE,
        ensures
            final(self).keeps_config(old(self)),
            final(self).heap == old(self).heap,
            final(self).static_fields == old(self).static_fields,
            final(self).journal == old(self).journal,
            final(self).locals == old(self).locals,
            final(self).frame_ptr == old(self).frame_ptr,
            Self::switch_effect(*old(self), op, *bc, len, *final(self), r),
    {
        if op == opcodes::STABLESWITCH || op == opcodes::ITABLESWITCH {
            self.exec_table_switch(op, bc, len)
        } else if op == opcodes::SLOOKUPSWITCH || op == opcodes::ILOOKUPSWITCH {
            self.exec_lookup_switch(op, bc, len)
        } else {
            Some(ExecResult::InvalidOpcode(op))
        }
    }

    // ------------------------------------------------------------------ framework helpers

    /// Where byte `index` of the byte array `obj` lies, for the current context, or why
    /// the access is refused.
    pub open spec fn byte_elem(&self, obj: ObjRef, index: int) -> Result<int, AccessError> {
        self.heap_view().spec_element(obj, index as u16, self.context(), ObjectKind::ByteArray, 1)
    }

    /// Write a byte to a byte array; a refused write is ignored.
    pub fn heap_bastore(&mut self, obj: ObjRef, index: u16, value: u8)
        requires
            old(self).wf(),
        ensures
            final(self).keeps_config(old(self)),
            final(self).same_but_stack_heap(old(self)),
            final(self).stack_words() == old(self).stack_words(),
            match old(self).byte_elem(obj, index as int) {
                Ok(off) => final(self).heap_view().free_ptr() == old(self).heap_view().free_ptr()
                    && final(self).heap_view().bytes() == old(self).heap_view().bytes().update(
                    off,
                    value,
                ),
                Err(_) => final(self).heap_view() == old(self).heap_view(),
            },
    {
        let _ = self.heap.bastore_checked(obj, index, value, self.current_context);
    }

    /// Read a byte from a byte array; `None` when the read is refused.
    pub fn heap_baload(&self, obj: ObjRef, index: u16) -> (r: Option<u8>)
        requires
            self.wf(),
        ensures
            r == (match self.byte_elem(obj, index as int) {
                Ok(off) => Some(self.heap_view().byte_at(off)),
                Err(_) => None::<u8>,
            }),
    {
        match self.heap.baload_checked(obj, index, self.current_context) {
            Ok(v) => Some(v),
            Err(_) => None,
        }
    }

    /// What `Util.getShort` gives for `offset` in the byte array `arr`.
    pub open spec fn native_get_short_spec(&self, arr: ObjRef, offset: i16) -> Result<i16, ExecResult> {
        if offset < 0 {
            Err(ExecResult::ArrayIndexOutOfBounds)
        } else {
            match (self.byte_elem(arr, offset as int), self.byte_elem(arr, offset + 1)) {
                (Ok(a), Ok(b)) => Ok(
                    crate::bytes::be16(self.heap_view().byte_at(a), self.heap_view().byte_at(b)) as i16,
                ),
                _ => Err(ExecResult::ArrayIndexOutOfBounds),
            }
        }
    }

    /// `Util.getShort`: the big-endian short at `offset` in a byte array.
    pub fn native_get_short(&self, arr: ObjRef, offset: i16) -> (r: Result<i16, ExecResult>)
        requires
            self.wf(),
        ensures
            r == (if offset < 0 {
                Err(ExecResult::ArrayIndexOutOfBounds)
            } else {
                match (self.byte_elem(arr, offset as int), self.byte_elem(arr, offset + 1)) {
                    (Ok(a), Ok(b)) => Ok(
                        crate::bytes::be16(
                            self.heap_view().byte_at(a),
                            self.heap_view().byte_at(b),
                        ) as i16,
                    ),
                    _ => Err(ExecResult::ArrayIndexOutOfBounds),
                }
            }),
    {
        if offset < 0 {
            return Err(ExecResult::ArrayIndexOutOfBounds);
        }
        let hi = match self.heap.baload_checked(arr, offset as u16, self.current_context) {
            Ok(v) => v,
            Err(_) => return Err(ExecResult::ArrayIndexOutOfBounds),
        };
        let lo = match self.heap.baload_checked(arr, (offset as u16) + 1, self.current_context) {
            Ok(v) => v,
            Err(_) => return Err(ExecResult::ArrayIndexOutOfBounds),
        };
        Ok(crate::bytes::read_be16(hi, lo) as i16)
    }

    /// What [`JcVM::native_set_short`] does.
    pub open spec fn set_short_outcome(old: Self, new: Self, arr: ObjRef, offset: i16, value: i16, r: Result<i16, ExecResult>) -> bool {
        &&& new.keeps_config(&old)
        &&& new.same_but_stack_heap(&old)
        &&& new.stack_words() == old.stack_words()
        &&& new.heap_view().free_ptr() == old.heap_view().free_ptr()
        &&& offset < 0 ==> r == Err::<i16, ExecResult>(ExecResult::ArrayIndexOutOfBounds) && new == old
        &&& offset >= 0 ==> match (
                    old.byte_elem(arr, offset as int),
                    old.byte_elem(arr, offset + 1),
                ) {
                    (Ok(a), Ok(b)) => r == Ok::<i16, ExecResult>(i16_specs::wrapping_add(offset, 2))
                        && new.heap_view().bytes() == old.heap_view().bytes().update(
                        a,
                        crate::bytes::hi8(value as u16),
                    ).update(b, crate::bytes::lo8(value as u16)),
                    (Err(_), _) => r == Err::<i16, ExecResult>(ExecResult::ArrayIndexOutOfBounds)
                        && new == old,
                    (Ok(a), Err(_)) => r == Err::<i16, ExecResult>(ExecResult::ArrayIndexOutOfBounds)
                        && new.heap_view().bytes() == old.heap_view().bytes().update(
                        a,
                        crate::bytes::hi8(value as u16),
                    ),
                }
    }

    /// `Util.setShort` writes big-endian: when it succeeds, the byte at `offset` holds
    /// the high byte of the value's 16 bits and the next byte the low byte, so
    /// `Util.getShort` at the same offset reads the value back.
    pub proof fn lemma_set_then_get_short(
        old: Self,
        new: Self,
        arr: ObjRef,
        offset: i16,
        value: i16,
        r: Result<i16, ExecResult>,
    )
        requires
            old.wf(),
            Self::set_short_outcome(old, new, arr, offset, value, r),
            r is Ok,
        ensures
            new.byte_elem(arr, offset as int) matches Ok(a) && new.heap_view().byte_at(a) as int == (value as u16) as int
                / 256,
            new.byte_elem(arr, offset + 1) matches Ok(b) && new.heap_view().byte_at(b) as int == (value as u16) as int
                % 256,
            new.native_get_short_spec(arr, offset) == Ok::<i16, ExecResult>(value),
    {
        let a = old.byte_elem(arr, offset as int)->Ok_0;
        let b = old.byte_elem(arr, offset + 1)->Ok_0;
        let h = old.heap_view();
        let nh = new.heap_view();
        assert(a >= arr.0 + 6 && b == a + 1);
        assert(nh.bytes().len() == h.bytes().len());
        assert(forall|k: int| arr.0 <= k < arr.0 + 6 ==> #[trigger] nh.bytes()[k] == h.bytes()[k]);
        assert(nh.spec_owner_of(arr) == h.spec_owner_of(arr));
        assert(nh.spec_kind_of(arr) == h.spec_kind_of(arr));
        assert(nh.spec_array_length(arr) == h.spec_array_length(arr));
        assert(new.byte_elem(arr, offset as int) == old.byte_elem(arr, offset as int));
        assert(new.byte_elem(arr, offset + 1) == old.byte_elem(arr, offset + 1));
        let w = value as u16;
        assert(nh.byte_at(a) == crate::bytes::hi8(w));
        assert(nh.byte_at(b) == crate::bytes::lo8(w));
        assert(((w / 256) as u8 as int * 256 + (w % 256) as u8 as int) as u16 as i16 == value) by (bit_vector)
            requires
                w == value as u16,
        ;
    }

    /// `Util.setShort`: write `value` big-endian at `offset` in a byte array; gives
    /// `offset + 2`.
    pub fn native_set_short(&mut self, arr: ObjRef, offset: i16, value: i16) -> (r: Result<
        i16,
        ExecResult,
    >)
        requires
            old(self).wf(),
        ensures
            Self::set_short_outcome(*old(self), *final(self), arr, offset, value, r),
    {
        if offset < 0 {
            return Err(ExecResult::ArrayIndexOutOfBounds);
        }
        let ctx = self.current_context;
        let w = value as u16;
        let ghost h0 = self.heap;
        if self.heap.bastore_checked(arr, offset as u16, crate::bytes::high_byte(w), ctx).is_err() {
            return Err(ExecResult::ArrayIndexOutOfBounds);
        }
        proof {
            assert(self.heap.spec_owner_of(arr) == h0.spec_owner_of(arr));
            assert(self.heap.spec_kind_of(arr) == h0.spec_kind_of(arr));
            assert(self.heap.spec_array_length(arr) == h0.spec_array_length(arr));
            assert(self.heap.spec_element(arr, ((offset as u16) + 1) as u16, ctx, ObjectKind::ByteArray, 1)
                == h0.spec_element(arr, ((offset as u16) + 1) as u16, ctx, ObjectKind::ByteArray, 1));
        }
        if self.heap.bastore_checked(arr, (offset as u16) + 1, crate::bytes::low_byte(w), ctx).is_err() {
            return Err(ExecResult::ArrayIndexOutOfBounds);
        }
        Ok(offset.wrapping_add(2))
    }

    /// How `Util.arrayCompare` goes on from position `i`: the sign of the first
    /// differing byte pair, 0 when all `len` pairs agree, or the refused read.
    pub open spec fn compare_from(
        &self,
        src: ObjRef,
        src_off: int,
        dest: ObjRef,
        dest_off: int,
        len: int,
        i: int,
    ) -> Result<i8, ExecResult>
        decreases len - i,
    {
        if i >= len {
            Ok(0)
        } else {
            match (self.byte_elem(src, src_off + i), self.byte_elem(dest, dest_off + i)) {
                (Ok(a), Ok(b)) => if self.heap_view().byte_at(a) < self.heap_view().byte_at(b) {
                    Ok(-1i8)
                } else if self.heap_view().byte_at(a) > self.heap_view().byte_at(b) {
                    Ok(1)
                } else {
                    self.compare_from(src, src_off, dest, dest_off, len, i + 1)
                },
                _ => Err(ExecResult::ArrayIndexOutOfBounds),
            }
        }
    }

    /// Byte pair `i` of a comparison: both elements readable and equal.
    pub open spec fn pair_equal(&self, src: ObjRef, src_off: int, dest: ObjRef, dest_off: int, i: int) -> bool {
        &&& self.byte_elem(src, src_off + i) is Ok
        &&& self.byte_elem(dest, dest_off + i) is Ok
        &&& self.heap_view().byte_at(self.byte_elem(src, src_off + i)->Ok_0) == self.heap_view().byte_at(
            self.byte_elem(dest, dest_off + i)->Ok_0,
        )
    }

    /// `Util.arrayCompare` orders the two ranges lexicographically from their lowest
    /// index: 0 when every byte pair is readable and equal; otherwise it is decided by
    /// the first pair (lowest index) that is not equal: -1 when the source byte there is
    /// below the destination byte, 1 when above, and an out-of-bounds error when one of
    /// the two cannot be read.
    pub proof fn lemma_array_compare(&self, src: ObjRef, src_off: int, dest: ObjRef, dest_off: int, len: int)
        ensures
            self.compare_from(src, src_off, dest, dest_off, len, 0) == Ok::<i8, ExecResult>(0)
                <==> forall|i: int| 0 <= i < len ==> #[trigger] self.pair_equal(src, src_off, dest, dest_off, i),
            self.compare_from(src, src_off, dest, dest_off, len, 0) != Ok::<i8, ExecResult>(0) ==> exists|i: int|
                #![trigger self.pair_equal(src, src_off, dest, dest_off, i)]
                0 <= i < len && !self.pair_equal(src, src_off, dest, dest_off, i) && (forall|j: int|
                    0 <= j < i ==> #[trigger] self.pair_equal(src, src_off, dest, dest_off, j)) && {
                    let c = self.compare_from(src, src_off, dest, dest_off, len, 0);
                    if self.byte_elem(src, src_off + i) is Ok && self.byte_elem(dest, dest_off + i) is Ok {
                        let x = self.heap_view().byte_at(self.byte_elem(src, src_off + i)->Ok_0);
                        let y = self.heap_view().byte_at(self.byte_elem(dest, dest_off + i)->Ok_0);
                        &&& x < y ==> c == Ok::<i8, ExecResult>(-1i8)
                        &&& x > y ==> c == Ok::<i8, ExecResult>(1i8)
                    } else {
                        c == Err::<i8, ExecResult>(ExecResult::ArrayIndexOutOfBounds)
                    }
                },
    {
        self.lemma_compare_from(src, src_off, dest, dest_off, len, 0);
    }

    proof fn lemma_compare_from(&self, src: ObjRef, src_off: int, dest: ObjRef, dest_off: int, len: int, k: int)
        requires
            0 <= k,
        ensures
            self.compare_from(src, src_off, dest, dest_off, len, k) == Ok::<i8, ExecResult>(0)
                <==> forall|i: int| k <= i < len ==> #[trigger] self.pair_equal(src, src_off, dest, dest_off, i),
            self.compare_from(src, src_off, dest, dest_off, len, k) != Ok::<i8, ExecResult>(0) ==> exists|i: int|
                #![trigger self.pair_equal(src, src_off, dest, dest_off, i)]
                k <= i < len && !self.pair_equal(src, src_off, dest, dest_off, i) && (forall|j: int|
                    k <= j < i ==> #[trigger] self.pair_equal(src, src_off, dest, dest_off, j)) && {
                    let c = self.compare_from(src, src_off, dest, dest_off, len, k);
                    if self.byte_elem(src, src_off + i) is Ok && self.byte_elem(dest, dest_off + i) is Ok {
                        let x = self.heap_view().byte_at(self.byte_elem(src, src_off + i)->Ok_0);
                        let y = self.heap_view().byte_at(self.byte_elem(dest, dest_off + i)->Ok_0);
                        &&& x < y ==> c == Ok::<i8, ExecResult>(-1i8)
                        &&& x > y ==> c == Ok::<i8, ExecResult>(1i8)
                    } else {
                        c == Err::<i8, ExecResult>(ExecResult::ArrayIndexOutOfBounds)
                    }
                },
        decreases len - k,
    {
        if k < len {
            self.lemma_compare_from(src, src_off, dest, dest_off, len, k + 1);
            if self.pair_equal(src, src_off, dest, dest_off, k) {
                assert(self.compare_from(src, src_off, dest, dest_off, len, k) == self.compare_from(
                    src,
                    src_off,
                    dest,
                    dest_off,
                    len,
                    k + 1,
                ));
                if self.compare_from(src, src_off, dest, dest_off, len, k) != Ok::<i8, ExecResult>(0) {
                    let i = choose|i: int|
                        #![trigger self.pair_equal(src, src_off, dest, dest_off, i)]
                        k + 1 <= i < len && !self.pair_equal(src, src_off, dest, dest_off, i) && (forall|j: int|
                            k + 1 <= j < i ==> #[trigger] self.pair_equal(src, src_off, dest, dest_off, j)) && {
                            let c = self.compare_from(src, src_off, dest, dest_off, len, k + 1);
                            if self.byte_elem(src, src_off + i) is Ok && self.byte_elem(dest, dest_off + i) is Ok {
                                let x = self.heap_view().byte_at(self.byte_elem(src, src_off + i)->Ok_0);
                                let y = self.heap_view().byte_at(self.byte_elem(dest, dest_off + i)->Ok_0);
                                &&& x < y ==> c == Ok::<i8, ExecResult>(-1i8)
                                &&& x > y ==> c == Ok::<i8, ExecResult>(1i8)
                            } else {
                                c == Err::<i8, ExecResult>(ExecResult::ArrayIndexOutOfBounds)
                            }
                        };
                    assert(forall|j: int| k <= j < i ==> #[trigger] self.pair_equal(src, src_off, dest, dest_off, j));
                }
            } else {
                assert(forall|j: int| k <= j < k ==> #[trigger] self.pair_equal(src, src_off, dest, dest_off, j));
                assert(!self.pair_equal(src, src_off, dest, dest_off, k));
            }
        }
    }

    /// `Util.arrayCompare`: compare `length` bytes lexicographically; -1, 0 or 1.
    pub fn native_array_compare(
        &self,
        src: ObjRef,
        src_off: i16,
        dest: ObjRef,
        dest_off: i16,
        length: i16,
    ) -> (r: Result<i8, ExecResult>)
        requires
            self.wf(),
        ensures
            r == (if length < 0 || src_off < 0 || dest_off < 0 {
                Err(ExecResult::ArrayIndexOutOfBounds)
            } else {
                self.compare_from(src, src_off as int, dest, dest_off as int, length as int, 0)
            }),
    {
        if length < 0 || src_off < 0 || dest_off < 0 {
            return Err(ExecResult::ArrayIndexOutOfBounds);
        }
        let n = length as usize;
        let mut i: usize = 0;
        while i < n
            invariant
                self.wf(),
                0 <= src_off && 0 <= dest_off,
                n == length,
                i <= n,
                self.compare_from(src, src_off as int, dest, dest_off as int, length as int, 0)
                    == self.compare_from(src, src_off as int, dest, dest_off as int, length as int, i as int),
            decreases n - i,
        {
            let s_idx = (src_off as usize + i) as u16;
            let d_idx = (dest_off as usize + i) as u16;
            let sv = match self.heap.baload_checked(src, s_idx, self.current_context) {
                Ok(v) => v,
                Err(_) => return Err(ExecResult::ArrayIndexOutOfBounds),
            };
            let dv = match self.heap.baload_checked(dest, d_idx, self.current_context) {
                Ok(v) => v,
                Err(_) => return Err(ExecResult::ArrayIndexOutOfBounds),
            };
            if sv < dv {
                return Ok(-1);
            }
            if sv > dv {
                return Ok(1);
            }
            i = i + 1;
        }
        Ok(0)
    }

    /// The bytes `Util.arrayCopy` leaves: the `len` bytes of `src` from `src_off`, as
    /// they were, over the `len` bytes of `dest` from `dest_off` (byte element `j` of an
    /// array `o` lies at `o + 6 + j`).
    pub open spec fn copied_bytes(
        before: Seq<u8>,
        src: ObjRef,
        src_off: int,
        dest: ObjRef,
        dest_off: int,
        len: int,
    ) -> Seq<u8> {
        Seq::new(
            before.len(),
            |k: int|
                if dest.0 + 6 + dest_off <= k < dest.0 + 6 + dest_off + len {
                    before[src.0 + 6 + src_off + (k - (dest.0 + 6 + dest_off))]
                } else {
                    before[k]
                },
        )
    }

    /// What [`JcVM::native_array_copy`] does.
    pub open spec fn array_copy_outcome(old: Self, new: Self, src: ObjRef, src_off: i16, dest: ObjRef, dest_off: i16, length: i16, r: Result<i16, ExecResult>) -> bool {
        &&& new.keeps_config(&old)
        &&& new.same_but_stack_heap(&old)
        &&& new.stack_words() == old.stack_words()
        &&& new.heap_view().free_ptr() == old.heap_view().free_ptr()
        &&& r is Err ==> r == Err::<i16, ExecResult>(ExecResult::ArrayIndexOutOfBounds)
        &&& length < 0 || src_off < 0 || dest_off < 0 || length > 256 ==> r == Err::<i16, ExecResult>(
            ExecResult::ArrayIndexOutOfBounds,
        ) && new == old
        &&& 0 <= length <= 256 && src_off >= 0 && dest_off >= 0 ==> {
                    &&& (exists|i: int| 0 <= i < length && #[trigger] old.byte_elem(src, src_off + i) is Err)
                        ==> r == Err::<i16, ExecResult>(ExecResult::ArrayIndexOutOfBounds) && new == old
                    &&& ((forall|i: int| 0 <= i < length ==> #[trigger] old.byte_elem(src, src_off + i) is Ok)
                        && (forall|i: int| 0 <= i < length ==> #[trigger] old.byte_elem(dest, dest_off + i) is Ok))
                        ==> r == Ok::<i16, ExecResult>(i16_specs::wrapping_add(dest_off, length))
                        && new.heap_view().bytes() == Self::copied_bytes(
                        old.heap_view().bytes(),
                        src,
                        src_off as int,
                        dest,
                        dest_off as int,
                        length as int,
                    )
                    &&& r is Ok ==> (forall|i: int| 0 <= i < length ==> #[trigger] old.byte_elem(dest, dest_off + i) is Ok)
                        && (forall|i: int| 0 <= i < length ==> #[trigger] old.byte_elem(src, src_off + i) is Ok)
                    &&& (forall|i: int| 0 <= i < length ==> #[trigger] old.byte_elem(src, src_off + i) is Ok)
                        ==> forall|j: int|
                        #![trigger old.byte_elem(dest, dest_off + j)]
                        0 <= j < length && old.byte_elem(dest, dest_off + j) is Err && (forall|k: int|
                            0 <= k < j ==> #[trigger] old.byte_elem(dest, dest_off + k) is Ok)
                            ==> r == Err::<i16, ExecResult>(ExecResult::ArrayIndexOutOfBounds)
                            && new.heap_view().bytes() == Self::copied_bytes(
                            old.heap_view().bytes(),
                            src,
                            src_off as int,
                            dest,
                            dest_off as int,
                            j,
                        )
                }
    }

    /// `Util.arrayCopy`: copy `length` bytes between byte arrays (reading them all
    /// first, so overlapping copies within one array work); gives `dest_off + length`.
    /// At most 256 bytes are copied at once.
    pub fn native_array_copy(
        &mut self,
        src: ObjRef,
        src_off: i16,
        dest: ObjRef,
        dest_off: i16,
        length: i16,
    ) -> (r: Result<i16, ExecResult>)
        requires
            old(self).wf(),
        ensures
            Self::array_copy_outcome(*old(self), *final(self), src, src_off, dest, dest_off, length, r),
    {
        if length < 0 || src_off < 0 || dest_off < 0 {
            return Err(ExecResult::ArrayIndexOutOfBounds);
        }
        if length == 0 {
            proof {
                assert(Self::copied_bytes(self.heap.bytes(), src, src_off as int, dest, dest_off as int, 0)
                    =~= self.heap.bytes());
            }
            return Ok(dest_off);
        }
        let n = length as usize;
        if n > 256 {
            return Err(ExecResult::ArrayIndexOutOfBounds);
        }
        let ctx = self.current_context;
        let mut buf = [0u8; 256];
        let mut i: usize = 0;
        while i < n
            invariant
                self.wf(),
                *self == *old(self),
                ctx == self.current_context,
                0 <= src_off && 0 <= dest_off,
                n == length,
                n <= 256,
                i <= n,
                forall|k: int| 0 <= k < i ==> #[trigger] self.byte_elem(src, src_off + k) is Ok,
                forall|k: int| 0 <= k < i ==> #[trigger] buf@[k] == self.heap_view().byte_at(
                    self.byte_elem(src, src_off + k)->Ok_0,
                ),
            decreases n - i,
        {
            let idx = (src_off as usize + i) as u16;
            match self.heap.baload_checked(src, idx, ctx) {
                Ok(v) => {
                    buf[i] = v;
                },
                Err(_) => {
                    assert(self.byte_elem(src, src_off + i) is Err);
                    return Err(ExecResult::ArrayIndexOutOfBounds);
                },
            }
            i = i + 1;
        }
        let ghost h0 = self.heap;
        let ghost me0 = *self;
        let mut j: usize = 0;
        while j < n
            invariant
                self.wf(),
                me0 == *old(self),
                ctx == self.current_context,
                self.same_but_stack_heap(&me0),
                self.stack_words() == me0.stack_words(),
                0 <= src_off && 0 <= dest_off,
                n == length,
                n <= 256,
                j <= n,
                forall|k: int| 0 <= k < n ==> #[trigger] me0.byte_elem(src, src_off + k) is Ok,
                forall|k: int| 0 <= k < n ==> #[trigger] buf@[k] == h0.byte_at(
                    me0.byte_elem(src, src_off + k)->Ok_0,
                ),
                forall|k: int| 0 <= k < j ==> #[trigger] me0.byte_elem(dest, dest_off + k) is Ok,
                self.heap.free_ptr() == h0.free_ptr(),
                h0 == me0.heap,
                self.heap.bytes().len() == h0.bytes().len(),
                self.heap.spec_owner_of(dest) == h0.spec_owner_of(dest),
                self.heap.spec_kind_of(dest) == h0.spec_kind_of(dest),
                self.heap.spec_array_length(dest) == h0.spec_array_length(dest),
                self.heap.bytes() == Self::copied_bytes(h0.bytes(), src, src_off as int, dest, dest_off as int, j as int),
            decreases n - j,
        {
            let idx = (dest_off as usize + j) as u16;
            let ghost before = self.heap;
            assert(self.heap.spec_element(dest, idx, ctx, ObjectKind::ByteArray, 1) == h0.spec_element(
                dest,
                idx,
                ctx,
                ObjectKind::ByteArray,
                1,
            ));
            match self.heap.bastore_checked(dest, idx, buf[j], ctx) {
                Ok(()) => {},
                Err(_) => {
                    assert(me0.byte_elem(dest, dest_off + j) is Err);
                    assert(!(forall|i: int| 0 <= i < length ==> #[trigger] me0.byte_elem(dest, dest_off + i) is Ok));
                    assert forall|j2: int|
                        #![trigger me0.byte_elem(dest, dest_off + j2)]
                        0 <= j2 < length && me0.byte_elem(dest, dest_off + j2) is Err && (forall|k: int|
                            0 <= k < j2 ==> #[trigger] me0.byte_elem(dest, dest_off + k) is Ok)
                        implies j2 == j by {
                        if j2 < j {
                            assert(me0.byte_elem(dest, dest_off + j2) is Ok);
                        } else if j2 > j {
                            assert(me0.byte_elem(dest, dest_off + j) is Ok);
                        }
                    }
                    return Err(ExecResult::ArrayIndexOutOfBounds);
                },
            }
            proof {
                let d = dest.0 + 6 + dest_off;
                assert(dest.0 + 4 < d);
                assert(self.heap.bytes() =~= Self::copied_bytes(h0.bytes(), src, src_off as int, dest, dest_off as int, j + 1));
            }
            j = j + 1;
        }
        Ok(dest_off.wrapping_add(length))
    }

    /// The locals base a call from the current frame gives the callee: the caller's
    /// base plus the caller's `max_locals` (0 for an unknown caller), saturating at 255.
    pub closed spec fn callee_locals_base(&self) -> int {
        let caller = match self.method_at(self.current_pkg, self.current_method) {
            Some(m) => m.max_locals as int,
            None => 0,
        };
        if self.locals_base() + caller > 255 {
            255
        } else {
            self.locals_base() + caller
        }
    }

    /// The callee's locals: the arguments `args` from `nb` on, zeros after them up to
    /// `nb + ml`, the other locals as they were.
    pub open spec fn callee_locals(l: Seq<u16>, nb: int, nargs: int, ml: int, args: Seq<u16>) -> Seq<
        u16,
    > {
        Seq::new(
            l.len(),
            |j: int|
                if nb <= j < nb + nargs {
                    args[j - nb]
                } else if nb + nargs <= j < nb + ml {
                    0
                } else {
                    l[j]
                },
        )
    }

    /// `self` entered method `method` of package `pkg` from `old`: the operand stack
    /// `stack`, the locals `locals`, a frame pushed that resumes `old`'s method at
    /// `return_pc` with the callee's locals from [`JcVM::callee_locals_base`] and the
    /// stack as left, at the start of the callee; nothing else changed but the call-depth
    /// mark, which records the new depth.
    pub closed spec fn entered(
        &self,
        old: &Self,
        pkg: u8,
        method: u8,
        stack: Seq<u16>,
        locals: Seq<u16>,
        return_pc: u16,
    ) -> bool {
        &&& self.wf()
        &&& self.stack_words() =~= stack
        &&& self.locals@ =~= locals
        &&& self.pc == 0
        &&& self.current_pkg == pkg && self.current_method == method
        &&& self.frame_ptr == old.frame_ptr + 1
        &&& self.frames@ == old.frames@.update(
            old.frame_ptr as int,
            CallFrame {
                return_pkg: old.current_pkg,
                return_method: old.current_method,
                return_pc,
                locals_base: old.callee_locals_base() as u8,
                stack_base: stack.len() as u8,
            },
        )
        &&& self.max_frame_depth == (if old.frame_ptr + 1 > old.max_frame_depth {
            (old.frame_ptr + 1) as u32
        } else {
            old.max_frame_depth
        })
        &&& self.heap == old.heap && self.static_fields == old.static_fields
        &&& self.packages == old.packages && self.journal == old.journal
        &&& self.current_context == old.current_context
        &&& self.process_method == old.process_method
        &&& self.opcode_counts == old.opcode_counts
        &&& self.total_instructions == old.total_instructions
    }

    /// What `invokestatic` does: its operand names the target `(package, method)`; a
    /// missing target raises an invalid method, a full frame stack a frame overflow,
    /// locals that do not fit a stack overflow, too few arguments an underflow;
    /// otherwise it moves the arguments from the stack into the callee's locals, zeroes
    /// its other locals and enters it ([`JcVM::entered`]).
    pub open spec fn invokestatic_effect(
        old: Self,
        bc: [u8; MAX_BYTECODE],
        len: u16,
        new: Self,
        r: Option<ExecResult>,
    ) -> bool {
        let sw = old.stack_words();
        let n = sw.len();
        let pc = old.pc_value() as int;
        let tp = bc@[pc];
        let tm = bc@[pc + 1];
        if pc + 2 > len {
            r == Some(ExecResult::EndOfBytecode)
        } else {
            match old.method_at(tp, tm) {
                None => r == Some(ExecResult::InvalidMethod),
                Some(m) => {
                    let nb = old.callee_locals_base();
                    let nargs = m.nargs as int;
                    if old.depth() >= MAX_FRAMES {
                        r == Some(ExecResult::FrameOverflow)
                    } else if nb + m.max_locals > MAX_LOCALS {
                        r == Some(ExecResult::StackOverflow)
                    } else if n < nargs {
                        r == Some(ExecResult::StackUnderflow)
                    } else {
                        r is None && new.entered(
                            &old,
                            tp,
                            tm,
                            sw.subrange(0, n - nargs),
                            Self::callee_locals(
                                old.locals_view(),
                                nb,
                                nargs,
                                m.max_locals as int,
                                sw.subrange(n - nargs, n as int),
                            ),
                            (pc + 2) as u16,
                        )
                    }
                },
            }
        }
    }

    /// `invokestatic`: read the target `(package, method)` operand, check it exists and
    /// that frames and locals have room, move the arguments from the stack into the
    /// callee's locals, zero its other locals, push a frame and jump to its start.
    fn exec_invokestatic(&mut self, bc: &[u8; MAX_BYTECODE], len: u16) -> (r: Option<ExecResult>)
        requires
            old(self).wf(),
            len <= MAX_BYTECODE,
        ensures
            final(self).keeps_config(old(self)),
            final(self).heap == old(self).heap,
            final(self).static_fields == old(self).static_fields,
            final(self).journal == old(self).journal,
            Self::invokestatic_effect(*old(self), *bc, len, *final(self), r),
    {
        let target_pkg = match self.fetch_u8(bc, len) {
            Some(b) => b,
            None => return Some(ExecResult::EndOfBytecode),
        };
        let target_method = match self.fetch_u8(bc, len) {
            Some(b) => b,
            None => return Some(ExecResult::EndOfBytecode),
        };
        let (nargs, max_locals) = match self.method_info(target_pkg, target_method) {
            Some(p) => p,
            None => return Some(ExecResult::InvalidMethod),
        };
        if self.frame_ptr as usize >= MAX_FRAMES {
            return Some(ExecResult::FrameOverflow);
        }
        let current_base: u8 = if self.frame_ptr > 0 {
            self.frames[self.frame_ptr as usize - 1].locals_base
        } else {
            0
        };
        let caller_locals: u8 = match self.method_info(self.current_pkg, self.current_method) {
            Some((_, ml)) => ml,
            None => 0,
        };
        let new_base: u8 = current_base.saturating_add(caller_locals);
        if new_base as usize + max_locals as usize > MAX_LOCALS {
            return Some(ExecResult::StackOverflow);
        }
        let args_start = new_base as usize;
        let ghost before = *self;
        let ghost sw = before.stack_words();
        let ghost n = sw.len();
        let ghost nb = new_base as int;
        assert(nb == old(self).callee_locals_base());
        assert(old(self).pc + 2 <= len ==> bc@[old(self).pc as int] == target_pkg && bc@[old(self).pc + 1] == target_method);
        let mut i: usize = nargs as usize;
        while i > 0
            invariant
                before.keeps_config(old(self)),
                before.heap == old(self).heap,
                before.static_fields == old(self).static_fields,
                before.journal == old(self).journal,
                args_start == new_base,
                old(self).pc + 2 <= len ==> old(self).method_at(bc@[old(self).pc as int], bc@[old(self).pc + 1]) is Some
                    && old(self).frame_ptr < MAX_FRAMES,
                self.keeps_config(&before),
                self.heap == before.heap,
                self.static_fields == before.static_fields,
                self.journal == before.journal,
                self.frames == before.frames,
                self.frame_ptr == before.frame_ptr,
                self.frame_ptr < MAX_FRAMES,
                self.pc == before.pc,
                self.current_pkg == before.current_pkg,
                self.current_method == before.current_method,
                self.max_frame_depth == before.max_frame_depth,
                i <= nargs,
                self.packages == before.packages,
                self.current_context == before.current_context,
                self.process_method == before.process_method,
                self.opcode_counts == before.opcode_counts,
                self.total_instructions == before.total_instructions,
                old(self).pc + 2 <= len,
                old(self).method_at(bc@[old(self).pc as int], bc@[old(self).pc + 1]) matches Some(m)
                    && m.nargs == nargs && m.max_locals == max_locals,
                old(self).depth() < MAX_FRAMES,
                before.same_but_pc(old(self)),
                before.pc == old(self).pc + 2,
                sw == before.stack_words(),
                n == sw.len(),
                nb == args_start,
                nb == old(self).callee_locals_base(),
                nb + max_locals <= MAX_LOCALS,
                n >= nargs - i,
                self.stack_words() =~= sw.subrange(0, n - (nargs - i)),
                forall|j: int| 0 <= j < MAX_LOCALS ==> #[trigger] self.locals@[j] == (if nb + i <= j < nb + nargs {
                    sw[n - nargs + (j - nb)]
                } else {
                    before.locals@[j]
                }),
            decreases i,
        {
            i = i - 1;
            let v = match self.pop() {
                Ok(v) => v,
                Err(e) => return Some(e),
            };
            if args_start + i < MAX_LOCALS {
                self.locals[args_start + i] = v;
            }
        }
        let mut k: usize = nargs as usize;
        while k < max_locals as usize
            invariant
                before.keeps_config(old(self)),
                before.heap == old(self).heap,
                before.static_fields == old(self).static_fields,
                before.journal == old(self).journal,
                args_start == new_base,
                old(self).pc + 2 <= len ==> old(self).method_at(bc@[old(self).pc as int], bc@[old(self).pc + 1]) is Some
                    && old(self).frame_ptr < MAX_FRAMES,
                self.keeps_config(&before),
                self.heap == before.heap,
                self.static_fields == before.static_fields,
                self.journal == before.journal,
                self.frames == before.frames,
                self.frame_ptr == before.frame_ptr,
                self.frame_ptr < MAX_FRAMES,
                self.pc == before.pc,
                self.current_pkg == before.current_pkg,
                self.current_method == before.current_method,
                self.max_frame_depth == before.max_frame_depth,
                k <= 255,
                self.packages == before.packages,
                self.current_context == before.current_context,
                self.process_method == before.process_method,
                self.opcode_counts == before.opcode_counts,
                self.total_instructions == before.total_instructions,
                old(self).pc + 2 <= len,
                old(self).method_at(bc@[old(self).pc as int], bc@[old(self).pc + 1]) matches Some(m)
                    && m.nargs == nargs && m.max_locals == max_locals,
                old(self).depth() < MAX_FRAMES,
                before.same_but_pc(old(self)),
                before.pc == old(self).pc + 2,
                sw == before.stack_words(),
                n == sw.len(),
                nb == args_start,
                nb == old(self).callee_locals_base(),
                nb + max_locals <= MAX_LOCALS,
                n >= nargs,
                nargs <= k,
                k <= (if nargs > max_locals {
                    nargs as usize
                } else {
                    max_locals as usize
                }),
                self.stack_words() =~= sw.subrange(0, n - nargs),
                forall|j: int| 0 <= j < MAX_LOCALS ==> #[trigger] self.locals@[j] == (if nb <= j < nb + nargs {
                    sw[n - nargs + (j - nb)]
                } else if nb + nargs <= j < nb + k {
                    0
                } else {
                    before.locals@[j]
                }),
            decreases max_locals - k,
        {
            if args_start + k < MAX_LOCALS {
                self.locals[args_start + k] = 0;
            }
            k = k + 1;
        }
        let fp = self.frame_ptr as usize;
        self.frames[fp] = CallFrame {
            return_pkg: self.current_pkg,
            return_method: self.current_method,
            return_pc: self.pc,
            locals_base: new_base,
            stack_base: self.stack_ptr,
        };
        self.frame_ptr = self.frame_ptr + 1;
        let depth = self.frame_ptr as u32;
        if depth > self.max_frame_depth {
            self.max_frame_depth = depth;
        }
        self.current_pkg = target_pkg;
        self.current_method = target_method;
        self.pc = 0;
        proof {
            assert(self.locals@ =~= Self::callee_locals(
                old(self).locals_view(),
                nb,
                nargs as int,
                max_locals as int,
                sw.subrange(n - nargs, n as int),
            ));
        }
        None
    }

    /// What a native method's result does to the run: `void` goes on with the VM the
    /// method left, a short, int or reference result is pushed, an exception stops the
    /// run.
    pub open spec fn native_push(after: Self, nr: crate::native::NativeResult, new: Self, r: Option<ExecResult>) -> bool {
        match nr {
            crate::native::NativeResult::Void => r is None && new == after,
            crate::native::NativeResult::Short(v) => new.stack_step(&after, r, 0, seq![v as u16], after.pc_value() as int),
            crate::native::NativeResult::Int(v) => new.stack_step(&after, r, 0, Self::int_words(v), after.pc_value() as int),
            crate::native::NativeResult::Ref(v) => new.stack_step(&after, r, 0, seq![v], after.pc_value() as int),
            crate::native::NativeResult::Exception(e) => r == Some(e),
            crate::native::NativeResult::NotNative => false,
        }
    }

    /// What an invocation does: `invokestatic` and `invokespecial` as
    /// [`JcVM::invokestatic_effect`] says; `invokevirtual` and `invokeinterface` call the
    /// native framework method their 2-byte operand names as `(class_id, method_id)`
    /// ([`crate::native::native_call`], its result handled as [`JcVM::native_push`]
    /// says), and when it names none, dispatch as `invokestatic`.
    pub open spec fn invoke_effect(
        old: Self,
        op: u8,
        bc: [u8; MAX_BYTECODE],
        len: u16,
        new: Self,
        r: Option<ExecResult>,
    ) -> bool {
        let pc = old.pc_value() as int;
        if op == opcodes::INVOKESTATIC || op == opcodes::INVOKESPECIAL {
            Self::invokestatic_effect(old, bc, len, new, r)
        } else if op == opcodes::INVOKEVIRTUAL || op == opcodes::INVOKEINTERFACE {
            if pc + 2 > len {
                r == Some(ExecResult::EndOfBytecode)
            } else if !crate::native::is_native(bc@[pc], bc@[pc + 1]) {
                Self::invokestatic_effect(old, bc, len, new, r)
            } else {
                exists|mid: Self, after: Self, nr: crate::native::NativeResult|
                    #![trigger crate::native::native_call(mid, bc@[pc], bc@[pc + 1], after, nr)]
                    mid.same_but_pc(&old) && mid.pc_value() == pc + 2 && crate::native::native_call(
                        mid,
                        bc@[pc],
                        bc@[pc + 1],
                        after,
                        nr,
                    ) && Self::native_push(after, nr, new, r)
            }
        } else {
            r == Some(ExecResult::InvalidOpcode(op))
        }
    }

    /// Static and special invocations, and virtual and interface invocations: the
    /// latter try the native framework methods first (their 2-byte operand being the
    /// `(class_id, method_id)` pair) and otherwise dispatch as a static call.
    fn exec_invoke(&mut self, op: u8, bc: &[u8; MAX_BYTECODE], len: u16) -> (r: Option<ExecResult>)
        requires
            old(self).wf(),
            len <= MAX_BYTECODE,
        ensures
            final(self).keeps_config(old(self)),
            Self::invoke_effect(*old(self), op, *bc, len, *final(self), r),
    {
        if op == opcodes::INVOKESTATIC || op == opcodes::INVOKESPECIAL {
            self.exec_invokestatic(bc, len)
        } else if op == opcodes::INVOKEVIRTUAL || op == opcodes::INVOKEINTERFACE {
            let saved_pc = self.pc;
            let b1 = match self.fetch_u8(bc, len) {
                Some(b) => b,
                None => return Some(ExecResult::EndOfBytecode),
            };
            let b2 = match self.fetch_u8(bc, len) {
                Some(b) => b,
                None => return Some(ExecResult::EndOfBytecode),
            };
            let ghost mid = *self;
            let result = crate::native::dispatch_native(b1, b2, self);
            let ghost after = *self;
            proof {
                if result == crate::native::NativeResult::NotNative {
                    assert(*self == mid);
                }
            }
            let r = match result {
                crate::native::NativeResult::Void => None,
                crate::native::NativeResult::Short(v) => Self::stop_on(self.push(v as u16)),
                crate::native::NativeResult::Int(v) => Self::stop_on(self.push_int(v)),
                crate::native::NativeResult::Ref(v) => Self::stop_on(self.push(v)),
                crate::native::NativeResult::Exception(e) => Some(e),
                crate::native::NativeResult::NotNative => {
                    self.pc = saved_pc;
                    proof {
                        assert(*self == *old(self));
                    }
                    self.exec_invokestatic(bc, len)
                },
            };
            proof {
                if crate::native::is_native(b1, b2) {
                    assert(crate::native::native_call(mid, b1, b2, after, result));
                    assert(Self::native_push(after, result, *self, r));
                }
            }
            r
        } else {
            Some(ExecResult::InvalidOpcode(op))
        }
    }

    /// What executing the opcode `op` does, the program counter just past it, in the
    /// method whose bytecode is `bc` (its first `len` bytes): each group of opcodes as its
    /// own effect says; an opcode of no group stops the run as invalid, changing nothing.
    /// Only the heap, static-field and invoke opcodes change the persistent state, and a
    /// stop leaves it alone except at the opcodes [`JcVM::stops_cleanly`] names.
    pub open spec fn op_effect(
        old: Self,
        op: u8,
        bc: [u8; MAX_BYTECODE],
        len: u16,
        new: Self,
        r: Option<ExecResult>,
    ) -> bool {
        (if op <= opcodes::SSPUSH || op == opcodes::IIPUSH {
            Self::push_const_effect(old, op, bc, len, new, r)
        } else if (opcodes::ALOAD <= op <= opcodes::ILOAD_3) || (opcodes::SSTORE <= op
            <= opcodes::ISTORE) || (opcodes::ISTORE_0 <= op <= opcodes::ISTORE_3) || op
            == opcodes::SINC || op == opcodes::IINC {
            Self::locals_effect(old, op, bc, len, new, r)
        } else if (opcodes::AALOAD <= op <= opcodes::IALOAD) || (opcodes::AASTORE <= op
            <= opcodes::IASTORE) || (opcodes::GETFIELD_A <= op <= opcodes::PUTFIELD_I) || (
        opcodes::NEW <= op <= opcodes::ARRAYLENGTH) {
            Self::heap_effect(old, op, bc, len, new, r)
        } else if opcodes::POP <= op <= opcodes::SWAP {
            Self::stack_effect(old, op, new, r)
        } else if Self::is_short_binop(op) || op == opcodes::SNEG || op == opcodes::S2B {
            Self::short_arith_effect(old, op, new, r)
        } else if Self::is_int_binop(op) || op == opcodes::INEG || op == opcodes::ISHL || op
            == opcodes::ISHR || op == opcodes::IUSHR || (opcodes::S2I <= op <= opcodes::ICMP) {
            Self::int_arith_effect(old, op, new, r)
        } else if (opcodes::IFEQ <= op <= opcodes::GOTO) || (opcodes::IFEQ_W <= op
            <= opcodes::GOTO_W) {
            Self::branch_effect(old, op, bc, len, new, r)
        } else if opcodes::STABLESWITCH <= op <= opcodes::ILOOKUPSWITCH {
            Self::switch_effect(old, op, bc, len, new, r)
        } else if opcodes::ARETURN <= op <= opcodes::RETURN {
            Self::return_effect(old, op, new, r)
        } else if op == opcodes::GETSTATIC_A || op == opcodes::GETSTATIC_S || op
            == opcodes::GETSTATIC_I || op == opcodes::PUTSTATIC_A || op == opcodes::PUTSTATIC_S
            || op == opcodes::PUTSTATIC_I || op == opcodes::GETSTATIC_B || op
            == opcodes::PUTSTATIC_B {
            Self::static_effect(old, op, bc, len, new, r)
        } else if opcodes::INVOKEVIRTUAL <= op <= opcodes::INVOKEINTERFACE {
            Self::invoke_effect(old, op, bc, len, new, r)
        } else if opcodes::ATHROW <= op <= opcodes::INSTANCEOF {
            Self::misc_effect(old, op, bc, len, new, r)
        } else {
            r == Some(ExecResult::InvalidOpcode(op)) && new == old
        }) && ((Self::persistent_free(op) || (r is Some && Self::stops_cleanly(op)))
            ==> new.kept_persistent(&old))
    }

    /// Whether a stop at `op` leaves the persistent state alone: every opcode but the
    /// invokes (a native may have written before it raised), `new` (a fresh object stays
    /// allocated when its reference no longer fits on the stack) and `iastore` (the high
    /// half is written before the low half is refused).
    pub open spec fn stops_cleanly(op: u8) -> bool {
        !Self::is_invoke(op) && op != opcodes::NEW && op != opcodes::IASTORE
    }

    /// Whether `op` is one of the invoke opcodes (which may run a native).
    pub open spec fn is_invoke(op: u8) -> bool {
        opcodes::INVOKEVIRTUAL <= op <= opcodes::INVOKEINTERFACE
    }

    /// Whether `op` leaves the heap, the static fields, the package slots and the journal
    /// alone whatever happens: every opcode but the heap, static-field and invoke ones.
    pub open spec fn persistent_free(op: u8) -> bool {
        &&& !((opcodes::AALOAD <= op <= opcodes::IALOAD) || (opcodes::AASTORE <= op
            <= opcodes::IASTORE) || (opcodes::GETFIELD_A <= op <= opcodes::PUTFIELD_I) || (
        opcodes::NEW <= op <= opcodes::ARRAYLENGTH))
        &&& !(op == opcodes::GETSTATIC_A || op == opcodes::GETSTATIC_S || op
            == opcodes::GETSTATIC_I || op == opcodes::PUTSTATIC_A || op == opcodes::PUTSTATIC_S
            || op == opcodes::PUTSTATIC_I || op == opcodes::GETSTATIC_B || op
            == opcodes::PUTSTATIC_B)
        &&& !Self::is_invoke(op)
    }

    /// `self` once the opcode `op` at its program counter is fetched and counted: the
    /// program counter past it, its execution count and the instruction count one up
    /// (saturating).
    pub closed spec fn counted(&self, op: u8) -> Self {
        JcVM {
            pc: (self.pc + 1) as u16,
            opcode_counts: vstd::array::spec_array_update(
                self.opcode_counts,
                op as int,
                sat_inc(self.opcode_counts@[op as int]),
            ),
            total_instructions: sat_inc(self.total_instructions),
            ..*self
        }
    }

    /// What one step does: without a current method it stops as an invalid method, at
    /// the end of the bytecode it stops there, changing nothing either way; otherwise it
    /// fetches and counts the opcode at the program counter and executes it
    /// ([`JcVM::op_effect`]).
    #[verifier::opaque]
    pub open spec fn step_effect(old: Self, new: Self, r: Option<ExecResult>) -> bool {
        match old.current_method_info() {
            None => r == Some(ExecResult::InvalidMethod) && new == old,
            Some(m) => if old.pc_value() >= Self::code_len(m) {
                r == Some(ExecResult::EndOfBytecode) && new == old
            } else {
                let op = m.bytecode@[old.pc_value() as int];
                Self::op_effect(old.counted(op), op, m.bytecode, Self::code_len(m) as u16, new, r)
            },
        }
    }

    /// A step that stops the run leaves the heap, the static fields, the package slots
    /// and the journal as they were, unless it stopped at an opcode that
    /// [`JcVM::stops_cleanly`] leaves out.
    pub proof fn lemma_stop_keeps_persistent(old: Self, new: Self, r: Option<ExecResult>)
        requires
            Self::step_effect(old, new, r),
            r is Some,
            old.current_method_info() matches Some(m) ==> (old.pc_value() < Self::code_len(m)
                ==> Self::stops_cleanly(m.bytecode@[old.pc_value() as int])),
        ensures
            new.kept_persistent(&old),
    {
        reveal(JcVM::step_effect);
    }

    /// `m` pushes the shorts `a` and `b` (two `sspush`), combines them with the short
    /// binary opcode `op`, and returns the result (`sreturn`).
    pub open spec fn binop_program(m: crate::cap::MethodInfo, a: u16, b: u16, op: u8) -> bool {
        &&& m.bytecode_len == 8
        &&& m.bytecode@[0] == opcodes::SSPUSH
        &&& crate::bytes::be16(m.bytecode@[1], m.bytecode@[2]) == a
        &&& m.bytecode@[3] == opcodes::SSPUSH
        &&& crate::bytes::be16(m.bytecode@[4], m.bytecode@[5]) == b
        &&& m.bytecode@[6] == op
        &&& m.bytecode@[7] == opcodes::SRETURN
        &&& Self::is_short_binop(op)
    }

    /// Where a run of a [`JcVM::binop_program`] stands: method `m`, outermost frame,
    /// program counter `pc`, operand stack `stack`.
    spec fn binop_at(&self, m: crate::cap::MethodInfo, pc: u16, stack: Seq<u16>) -> bool {
        &&& self.current_method_info() == Some(m)
        &&& self.pc == pc
        &&& self.stack_words() == stack
        &&& self.frame_ptr == 0
    }

    proof fn lemma_binop_push_a(x: Self, y: Self, ro: Option<ExecResult>, m: crate::cap::MethodInfo, a: u16, b: u16, op: u8)
        requires
            Self::binop_program(m, a, b, op),
            x.binop_at(m, 0, Seq::empty()),
            Self::step_effect(x, y, ro),
        ensures
            ro is None,
            y.binop_at(m, 3, seq![a]),
    {
        reveal(JcVM::step_effect);
        assert(x.counted(opcodes::SSPUSH).stack_words() == x.stack_words());
    }

    proof fn lemma_binop_push_b(x: Self, y: Self, ro: Option<ExecResult>, m: crate::cap::MethodInfo, a: u16, b: u16, op: u8)
        requires
            Self::binop_program(m, a, b, op),
            x.binop_at(m, 3, seq![a]),
            Self::step_effect(x, y, ro),
        ensures
            ro is None,
            y.binop_at(m, 6, seq![a, b]),
    {
        reveal(JcVM::step_effect);
        assert(x.counted(opcodes::SSPUSH).stack_words() == x.stack_words());
        assert(seq![a].subrange(0, 1) + seq![b] =~= seq![a, b]);
    }

    proof fn lemma_binop_op(x: Self, y: Self, ro: Option<ExecResult>, m: crate::cap::MethodInfo, a: u16, b: u16, op: u8)
        requires
            Self::binop_program(m, a, b, op),
            x.binop_at(m, 6, seq![a, b]),
            Self::step_effect(x, y, ro),
        ensures
            match Self::short_op_result(op, a, b) {
                Ok(w) => ro is None && y.binop_at(m, 7, seq![w]),
                Err(e) => ro == Some(e),
            },
    {
        reveal(JcVM::step_effect);
        assert(x.counted(op).stack_words() == x.stack_words());
        if let Ok(w) = Self::short_op_result(op, a, b) {
            assert(seq![a, b].subrange(0, 0) + seq![w] =~= seq![w]);
        }
    }

    proof fn lemma_binop_return(x: Self, y: Self, ro: Option<ExecResult>, m: crate::cap::MethodInfo, a: u16, b: u16, op: u8, w: u16)
        requires
            Self::binop_program(m, a, b, op),
            x.binop_at(m, 7, seq![w]),
            Self::step_effect(x, y, ro),
        ensures
            ro == Some(ExecResult::ReturnShort(w as i16)),
    {
        reveal(JcVM::step_effect);
        assert(x.counted(opcodes::SRETURN).stack_words() == x.stack_words());
        assert(x.counted(opcodes::SRETURN).depth() == 0);
    }

    /// A run of a method that pushes two shorts, combines them with a short binary
    /// opcode and returns the result gives back the result of the opcode's arithmetic
    /// ([`JcVM::short_op_result`]: the wrapping sum, difference or product, the
    /// quotient or remainder, the shift or the bitwise combination), or the exception
    /// it raises: `execute` on such a method returns exactly that.
    pub proof fn lemma_binop_execute(
        old: Self,
        fin: Self,
        r: ExecResult,
        pkg: u8,
        method: u8,
        m: crate::cap::MethodInfo,
        a: u16,
        b: u16,
        op: u8,
    )
        requires
            pkg < MAX_PACKAGES,
            method < crate::cap::MAX_METHODS,
            old.package_slots()[pkg as int] matches Some(p) && p.methods@[method as int] == Some(m),
            Self::binop_program(m, a, b, op),
            exists|s0: Self| #![trigger s0.started(&old, pkg, method)] s0.started(&old, pkg, method)
                && Self::runs_to(s0, fin, r),
        ensures
            r == (match Self::short_op_result(op, a, b) {
                Ok(w) => ExecResult::ReturnShort(w as i16),
                Err(e) => e,
            }),
    {
        let s0 = choose|s0: Self| #![trigger s0.started(&old, pkg, method)] s0.started(&old, pkg, method)
            && Self::runs_to(s0, fin, r);
        let t = choose|t: Seq<Self>| #![trigger Self::run_trace(t, r)] t[0] == s0 && t.last() == fin
            && Self::run_trace(t, r);
        let k = t.len() - 1;
        assert(s0.binop_at(m, 0, Seq::empty())) by {
            assert(s0.stack_words() =~= Seq::<u16>::empty());
        }
        assert(k >= 1);
        if k == 1 {
            Self::lemma_binop_push_a(t[0], t[1], Some(r), m, a, b, op);
        } else {
            assert(Self::step_effect(t[0], t[1], None));
            Self::lemma_binop_push_a(t[0], t[1], None, m, a, b, op);
            if k == 2 {
                Self::lemma_binop_push_b(t[1], t[2], Some(r), m, a, b, op);
            } else {
                assert(Self::step_effect(t[1], t[2], None));
                Self::lemma_binop_push_b(t[1], t[2], None, m, a, b, op);
                if k == 3 {
                    Self::lemma_binop_op(t[2], t[3], Some(r), m, a, b, op);
                } else {
                    assert(Self::step_effect(t[2], t[3], None));
                    Self::lemma_binop_op(t[2], t[3], None, m, a, b, op);
                    let w = Self::short_op_result(op, a, b)->Ok_0;
                    if k == 4 {
                        Self::lemma_binop_return(t[3], t[4], Some(r), m, a, b, op, w);
                    } else {
                        assert(Self::step_effect(t[3], t[4], None));
                        Self::lemma_binop_return(t[3], t[4], None, m, a, b, op, w);
                    }
                }
            }
        }
    }

    /// Execute one decoded opcode.
    fn exec_op(&mut self, op: u8, bc: &[u8; MAX_BYTECODE], len: u16) -> (r: Option<ExecResult>)
        requires
            old(self).wf(),
            len <= MAX_BYTECODE,
        ensures
            final(self).keeps_config(old(self)),
            Self::op_effect(*old(self), op, *bc, len, *final(self), r),
    {
        if op <= opcodes::SSPUSH || op == opcodes::IIPUSH {
            self.exec_push_const(op, bc, len)
        } else if (opcodes::ALOAD <= op && op <= opcodes::ILOAD_3) || (opcodes::SSTORE <= op && op
            <= opcodes::ISTORE) || (opcodes::ISTORE_0 <= op && op <= opcodes::ISTORE_3) || op
            == opcodes::SINC || op == opcodes::IINC {
            self.exec_locals(op, bc, len)
        } else if (opcodes::AALOAD <= op && op <= opcodes::IALOAD) || (opcodes::AASTORE <= op && op
            <= opcodes::IASTORE) || (opcodes::GETFIELD_A <= op && op <= opcodes::PUTFIELD_I) || (
        opcodes::NEW <= op && op <= opcodes::ARRAYLENGTH) {
            self.exec_heap(op, bc, len)
        } else if opcodes::POP <= op && op <= opcodes::SWAP {
            self.exec_stack(op)
        } else if Self::exec_is_short_binop(op) || op == opcodes::SNEG || op == opcodes::S2B {
            self.exec_short_arith(op)
        } else if Self::exec_is_int_binop(op) || op == opcodes::INEG || op == opcodes::ISHL || op
            == opcodes::ISHR || op == opcodes::IUSHR || (opcodes::S2I <= op && op <= opcodes::ICMP) {
            self.exec_int_arith(op)
        } else if (opcodes::IFEQ <= op && op <= opcodes::GOTO) || (opcodes::IFEQ_W <= op && op
            <= opcodes::GOTO_W) {
            self.exec_branch(op, bc, len)
        } else if opcodes::STABLESWITCH <= op && op <= opcodes::ILOOKUPSWITCH {
            self.exec_switch(op, bc, len)
        } else if opcodes::ARETURN <= op && op <= opcodes::RETURN {
            self.exec_return(op)
        } else if op == opcodes::GETSTATIC_A || op == opcodes::GETSTATIC_S || op
            == opcodes::GETSTATIC_I || op == opcodes::PUTSTATIC_A || op == opcodes::PUTSTATIC_S || op
            == opcodes::PUTSTATIC_I || op == opcodes::GETSTATIC_B || op == opcodes::PUTSTATIC_B {
            self.exec_static(op, bc, len)
        } else if opcodes::INVOKEVIRTUAL <= op && op <= opcodes::INVOKEINTERFACE {
            self.exec_invoke(op, bc, len)
        } else if opcodes::ATHROW <= op && op <= opcodes::INSTANCEOF {
            self.exec_misc(op, bc, len)
        } else {
            Some(ExecResult::InvalidOpcode(op))
        }
    }

    /// The current method's bytecode length as the interpreter reads it (at most the
    /// bytecode capacity).
    pub open spec fn code_len(m: crate::cap::MethodInfo) -> int {
        if m.bytecode_len <= MAX_BYTECODE {
            m.bytecode_len as int
        } else {
            MAX_BYTECODE as int
        }
    }

    /// The method being executed.
    pub closed spec fn current_method_info(&self) -> Option<crate::cap::MethodInfo> {
        self.method_at(self.current_pkg, self.current_method)
    }

    /// The program counter.
    pub closed spec fn pc_value(&self) -> u16 {
        self.pc
    }

    /// Fetch, count and execute one instruction; `Some` when the run stops.
    fn step(&mut self) -> (r: Option<ExecResult>)
        requires
            old(self).wf(),
        ensures
            final(self).wf(),
            final(self).package_slots() == old(self).package_slots(),
            final(self).process_method_index() == old(self).process_method_index(),
            final(self).context() == old(self).context(),
            final(self).frame_depth_mark() >= old(self).frame_depth_mark(),
            old(self).current_method_info() is None ==> r == Some(ExecResult::InvalidMethod)
                && *final(self) == *old(self),
            old(self).current_method_info() matches Some(m) && old(self).pc_value() >= Self::code_len(
                m,
            ) ==> r == Some(ExecResult::EndOfBytecode) && *final(self) == *old(self),
            old(self).current_method_info() is Some && old(self).pc_value() < Self::code_len(
                old(self).current_method_info()->0,
            ) ==> {
                let op = old(self).current_method_info()->0.bytecode@[old(self).pc_value() as int];
                &&& final(self).instructions() == sat_inc(old(self).instructions())
                &&& final(self).opcode_count_view() == old(self).opcode_count_view().update(
                    op as int,
                    sat_inc(old(self).opcode_count_view()[op as int]),
                )
            },
            Self::step_effect(*old(self), *final(self), r),
    {
        proof {
            reveal(JcVM::step_effect);
        }
        let (len, bc) = match self.current_bytecode() {
            Some(p) => p,
            None => return Some(ExecResult::InvalidMethod),
        };
        if self.pc >= len {
            return Some(ExecResult::EndOfBytecode);
        }
        let op = bc[self.pc as usize];
        self.pc = self.pc + 1;
        let c = self.opcode_counts[op as usize];
        self.opcode_counts[op as usize] = if c < u64::MAX {
            c + 1
        } else {
            c
        };
        self.total_instructions = if self.total_instructions < u64::MAX {
            self.total_instructions + 1
        } else {
            self.total_instructions
        };
        proof {
            assert(self.opcode_counts =~= old(self).counted(op).opcode_counts);
            assert(*self == old(self).counted(op));
        }
        let r = self.exec_op(op, &bc, len);
        r
    }

    /// `t` is a run of the interpreter: the states it went through, from the first to the
    /// last. Either it stopped: each step but the last went on ([`JcVM::step_effect`]
    /// with no result), and the last stopped with `r`; or it reached the execution limit:
    /// [`EXEC_LIMIT`] steps all went on, and `r` says so.
    pub open spec fn run_trace(t: Seq<Self>, r: ExecResult) -> bool {
        let k = t.len() - 1;
        &&& 1 <= t.len() <= EXEC_LIMIT + 1
        &&& forall|i: int| #![trigger t[i]] 0 <= i < k - 1 ==> Self::step_effect(t[i], t[i + 1], None)
        &&& {
            ||| k >= 1 && Self::step_effect(t[k - 1], t[k], Some(r))
            ||| k == EXEC_LIMIT && r == ExecResult::ExecutionLimit && Self::step_effect(
                t[k - 1],
                t[k],
                None,
            )
        }
    }

    /// A run from `old` that ends in `new` with the result `r`.
    pub open spec fn runs_to(old: Self, new: Self, r: ExecResult) -> bool {
        exists|t: Seq<Self>| #![trigger Self::run_trace(t, r)] t[0] == old && t.last() == new && Self::run_trace(t, r)
    }

    /// Run instructions until one stops the run, or the execution limit is reached.
    fn run(&mut self) -> (r: ExecResult)
        requires
            old(self).wf(),
        ensures
            final(self).wf(),
            final(self).package_slots() == old(self).package_slots(),
            final(self).process_method_index() == old(self).process_method_index(),
            final(self).context() == old(self).context(),
            final(self).frame_depth_mark() >= old(self).frame_depth_mark(),
            final(self).instructions() >= old(self).instructions(),
            old(self).current_method_info() is None ==> r == ExecResult::InvalidMethod && *final(self)
                == *old(self),
            Self::runs_to(*old(self), *final(self), r),
    {
        let mut steps: u32 = 0;
        let ghost mut t: Seq<Self> = seq![*self];
        loop
            invariant
                t.len() == steps + 1,
                t[0] == *old(self),
                t.last() == *self,
                forall|i: int| #![trigger t[i]] 0 <= i < t.len() - 1 ==> Self::step_effect(t[i], t[i + 1], None),
                self.wf(),
                self.package_slots() == old(self).package_slots(),
                self.process_method_index() == old(self).process_method_index(),
                self.context() == old(self).context(),
                self.frame_depth_mark() >= old(self).frame_depth_mark(),
                self.instructions() >= old(self).instructions(),
                steps <= EXEC_LIMIT,
                steps == 0 ==> *self == *old(self),
                old(self).current_method_info() is None ==> steps == 0,
            decreases EXEC_LIMIT - steps,
        {
            steps = steps + 1;
            if steps > EXEC_LIMIT {
                proof {
                    assert(Self::step_effect(t[t.len() - 2], t[t.len() - 1], None));
                    assert(Self::run_trace(t, ExecResult::ExecutionLimit));
                }
                return ExecResult::ExecutionLimit;
            }
            let ghost before = *self;
            let s = self.step();
            proof {
                let t2 = t.push(*self);
                assert(t2[t2.len() - 2] == before);
                assert forall|i: int| #![trigger t2[i]] 0 <= i < t2.len() - 2 implies Self::step_effect(t2[i], t2[i + 1], None) by {
                    assert(t2[i] == t[i] && t2[i + 1] == t[i + 1]);
                }
                t = t2;
            }
            match s {
                Some(r) => {
                    proof {
                        assert(Self::run_trace(t, r));
                    }
                    return r;
                },
                None => {},
            }
        }
    }

    /// `self` is `old` ready to execute method `method` of package `pkg`: an empty,
    /// zeroed operand stack, no (and zeroed) call frames, zeroed locals, at the start of
    /// the method in the package's applet context; nothing else changed.
    pub closed spec fn started(&self, old: &Self, pkg: u8, method: u8) -> bool {
        &&& self.wf()
        &&& self.stack_ptr == 0 && self.frame_ptr == 0
        &&& forall|i: int| 0 <= i < MAX_STACK ==> #[trigger] self.stack@[i] == 0
        &&& forall|i: int| 0 <= i < MAX_LOCALS ==> #[trigger] self.locals@[i] == 0
        &&& forall|i: int| 0 <= i < MAX_FRAMES ==> #[trigger] self.frames@[i] == CallFrame {
            return_pkg: 0,
            return_method: 0,
            return_pc: 0,
            locals_base: 0,
            stack_base: 0,
        }
        &&& self.current_pkg == pkg && self.current_method == method
        &&& self.current_context == pkg && self.pc == 0
        &&& self.heap == old.heap && self.packages == old.packages
        &&& self.static_fields == old.static_fields && self.journal == old.journal
        &&& self.process_method == old.process_method
        &&& self.opcode_counts == old.opcode_counts
        &&& self.total_instructions == old.total_instructions
        &&& self.max_frame_depth == old.max_frame_depth
    }

    /// Execute method `method_idx` of package `pkg_idx`: reset the transient state,
    /// enter the package's context and run until the method returns, an exception is
    /// raised, or the execution limit is reached.
    pub fn execute(&mut self, pkg_idx: u8, method_idx: u8) -> (r: ExecResult)
        requires
            old(self).wf(),
        ensures
            final(self).wf(),
            final(self).package_slots() == old(self).package_slots(),
            final(self).process_method_index() == old(self).process_method_index(),
            final(self).context() == pkg_idx,
            final(self).frame_depth_mark() >= old(self).frame_depth_mark(),
            final(self).instructions() >= old(self).instructions(),
            old(self).method_at(pkg_idx, method_idx) is None ==> r == ExecResult::InvalidMethod
                && final(self).heap_view() == old(self).heap_view() && final(self).static_bytes()
                == old(self).static_bytes() && final(self).journal_view() == old(self).journal_view(),
            exists|s0: Self| #![trigger s0.started(old(self), pkg_idx, method_idx)] s0.started(old(self), pkg_idx, method_idx)
                && Self::runs_to(s0, *final(self), r),
    {
        let f = CallFrame::empty();
        self.stack = [0u16; MAX_STACK];
        self.stack_ptr = 0;
        self.frames = [f; MAX_FRAMES];
        self.frame_ptr = 0;
        self.locals = [0u16; MAX_LOCALS];
        self.current_pkg = pkg_idx;
        self.current_method = method_idx;
        self.current_context = pkg_idx;
        self.pc = 0;
        let ghost s0 = *self;
        let r = self.run();
        proof {
            assert(s0.started(old(self), pkg_idx, method_idx));
        }
        r
    }
}

/// Add one, saturating at the maximum.
pub open spec fn sat_inc(x: u64) -> u64 {
    if x < u64::MAX {
        (x + 1) as u64
    } else {
        x
    }
}


/// The image of one package slot: a presence byte, then the package's snapshot.
pub open spec fn slot_img(slot: Option<Package>) -> Seq<Option<u8>> {
    match slot {
        None => seq![Some(0u8)],
        Some(p) => seq![Some(1u8)] + snapshot_image(p),
    }
}

/// The image of a run of package slots.
pub open spec fn slots_img(s: Seq<Option<Package>>) -> Seq<Option<u8>>
    decreases s.len(),
{
    if s.len() == 0 {
        Seq::empty()
    } else {
        slots_img(s.drop_last()) + slot_img(s.last())
    }
}

/// How many slots hold a package.
pub open spec fn loaded_count(s: Seq<Option<Package>>) -> nat
    decreases s.len(),
{
    if s.len() == 0 {
        0
    } else {
        loaded_count(s.drop_last()) + (if s.last() is Some {
            1nat
        } else {
            0nat
        })
    }
}

/// Where package slot `k` starts in a VM snapshot `b`.
pub open spec fn vm_pkg_pos(b: Seq<u8>, k: nat) -> int
    decreases k,
{
    if k == 0 {
        2 + le16(b[0], b[1]) + 1
    } else {
        let prev = vm_pkg_pos(b, (k - 1) as nat);
        if b[prev] == 0 {
            prev + 1
        } else {
            prev + 1 + pkg_saved_len(b.subrange(prev + 1, b.len() as int))
        }
    }
}

/// Whether package slot `k` of a VM snapshot can be read.
#[verifier::opaque]
pub open spec fn vm_slot_ok(b: Seq<u8>, k: nat) -> bool {
    &&& 0 <= vm_pkg_pos(b, k) < b.len()
    &&& b[vm_pkg_pos(b, k)] != 0 ==> snapshot_ok(b.subrange(vm_pkg_pos(b, k) + 1, b.len() as int))
}

pub(crate) proof fn lemma_slots_step(s: Seq<Option<Package>>, k: int)
    requires
        0 <= k < s.len(),
    ensures
        slots_img(s.subrange(0, k + 1)) == slots_img(s.subrange(0, k)) + slot_img(s[k]),
        loaded_count(s.subrange(0, k + 1)) == loaded_count(s.subrange(0, k)) + (if s[k] is Some {
            1nat
        } else {
            0nat
        }),
{
    assert(s.subrange(0, k + 1).drop_last() =~= s.subrange(0, k));
}

impl<const HEAP_SIZE: usize, const MAX_PACKAGES: usize> JcVM<HEAP_SIZE, MAX_PACKAGES> {
    /// What [`JcVM::save_state`] writes: the heap snapshot, the number of loaded
    /// packages, each slot (presence byte, then the package snapshot), the static
    /// field image and the process method.
    pub open spec fn vm_image(&self) -> Seq<Option<u8>> {
        some_bytes(heap_image(self.heap_view().bytes(), self.heap_view().free_ptr())) + seq![
            Some((loaded_count(self.package_slots()) % 256) as u8),
        ] + slots_img(self.package_slots()) + some_bytes(self.static_bytes()) + seq![
            Some(self.process_method_index()),
        ]
    }

    /// Where package slot `k` of the image starts.
    pub open spec fn slot_start(&self, k: int) -> int {
        (3 + self.heap_view().free_ptr() + slots_img(self.package_slots().subrange(0, k)).len()) as int
    }

    /// How much of the image [`JcVM::save_state`] has written into `len` bytes when it
    /// gives up, looking at package slots from `k` on: a slot starting at or past the
    /// end stops it there; a package that does not fit stops it where the package's own
    /// save stops ([`save_stop`]); then the static fields and the process method must fit.
    pub open spec fn vm_save_stop_from(&self, len: int, k: nat) -> int
        decreases MAX_PACKAGES - k,
    {
        if k >= MAX_PACKAGES {
            let pos = self.slot_start(MAX_PACKAGES as int);
            if pos + STATIC_FIELDS_SIZE > len {
                pos
            } else {
                pos + STATIC_FIELDS_SIZE
            }
        } else {
            let pos = self.slot_start(k as int);
            if pos >= len {
                pos
            } else {
                match self.package_slots()[k as int] {
                    Some(p) => if len - pos - 1 < snapshot_len(p) {
                        pos + 1 + save_stop(p, len - pos - 1)
                    } else {
                        self.vm_save_stop_from(len, (k + 1) as nat)
                    },
                    None => self.vm_save_stop_from(len, (k + 1) as nat),
                }
            }
        }
    }

    /// How much of the image a save into `len` bytes that gives up has written: nothing
    /// when the heap does not fit, the heap alone when nothing more does.
    pub open spec fn vm_save_stop(&self, len: int) -> int {
        let h: int = (2 + self.heap_view().free_ptr()) as int;
        if len < h {
            0
        } else if h >= len {
            h
        } else {
            self.vm_save_stop_from(len, 0)
        }
    }

    /// Saving into `len` bytes, from slot `k` on, does not reach a package whose save
    /// would overrun a method header ([`save_overruns_from`]).
    pub open spec fn vm_save_safe_from(&self, len: int, k: nat) -> bool
        decreases MAX_PACKAGES - k,
    {
        if k >= MAX_PACKAGES {
            true
        } else {
            let pos = self.slot_start(k as int);
            if pos >= len {
                true
            } else {
                match self.package_slots()[k as int] {
                    Some(p) => if len - pos - 1 < snapshot_len(p) {
                        len - pos - 1 >= 18 ==> !save_overruns_from(p, len - pos - 1, 0)
                    } else {
                        self.vm_save_safe_from(len, (k + 1) as nat)
                    },
                    None => self.vm_save_safe_from(len, (k + 1) as nat),
                }
            }
        }
    }

    /// Whether the state can be saved: the heap's free pointer within the heap, and
    /// every loaded package saveable.
    pub open spec fn can_save(&self) -> bool {
        &&& self.heap_view().free_ptr() <= HEAP_SIZE
        &&& forall|k: int|
            0 <= k < MAX_PACKAGES ==> (#[trigger] self.package_slots()[k] matches Some(p) ==> saveable(p))
    }

    /// Whether `b` is a VM snapshot [`JcVM::restore_state`] accepts.
    pub open spec fn vm_restore_ok(b: Seq<u8>) -> bool {
        &&& b.len() >= 2
        &&& 1 <= le16(b[0], b[1]) <= HEAP_SIZE
        &&& 2 + le16(b[0], b[1]) < b.len()
        &&& forall|k: nat| k < MAX_PACKAGES ==> #[trigger] vm_slot_ok(b, k)
        &&& vm_pkg_pos(b, MAX_PACKAGES as nat) + STATIC_FIELDS_SIZE < b.len()
    }

    /// The number of bytes a snapshot takes, or `None` when the state cannot be saved.
    fn saved_len(&self) -> (r: Option<usize>)
        requires
            self.wf(),
            MAX_PACKAGES <= 256,
        ensures
            r is Some <==> self.can_save(),
            r matches Some(t) ==> t == self.vm_image().len(),
    {
        if self.heap.used() > self.heap.capacity() {
            return None;
        }
        let mut total: usize = 2 + self.heap.used() + 1;
        let mut k: usize = 0;
        while k < MAX_PACKAGES
            invariant
                self.wf(),
                MAX_PACKAGES <= 256,
                k <= MAX_PACKAGES,
                self.heap.free_ptr() <= HEAP_SIZE,
                total == 3 + self.heap.free_ptr() + slots_img(self.packages@.subrange(0, k as int)).len(),
                total <= 3 + self.heap.free_ptr() + 11680 * k,
                forall|j: int| 0 <= j < k ==> (#[trigger] self.packages@[j] matches Some(p) ==> saveable(p)),
            decreases MAX_PACKAGES - k,
        {
            proof {
                lemma_slots_step(self.packages@, k as int);
            }
            match &self.packages[k] {
                None => {
                    total = total + 1;
                },
                Some(p) => {
                    if !is_saveable(p) {
                        return None;
                    }
                    proof {
                        crate::cap::snapshot::lemma_snapshot_len_pub(*p);
                    }
                    total = total + 1 + p.image_len();
                },
            }
            k = k + 1;
        }
        proof {
            assert(self.packages@.subrange(0, MAX_PACKAGES as int) =~= self.packages@);
        }
        Some(total + STATIC_FIELDS_SIZE + 1)
    }

    /// Save the persistent state (heap, packages, static fields, process method) into
    /// `buf`; the bytes written, or 0 when `buf` is too small. Each part's room is
    /// checked before it is written, so a buffer that is too small keeps the part of the
    /// image written before the first that did not fit ([`JcVM::vm_save_stop`]); a state
    /// that cannot be saved writes nothing.
    #[verifier::spinoff_prover]
    #[verifier::rlimit(40)]
    pub fn save_state(&self, buf: &mut [u8]) -> (r: usize)
        requires
            self.wf(),
            MAX_PACKAGES <= 256,
            old(buf)@.len() <= isize::MAX,
            self.can_save() && old(buf)@.len() > 2 + self.heap_view().free_ptr()
                ==> self.vm_save_safe_from(old(buf)@.len() as int, 0),
        ensures
            !self.can_save() ==> r == 0 && final(buf)@ == old(buf)@,
            self.can_save() && old(buf)@.len() < self.vm_image().len() ==> r == 0 && written(
                final(buf)@,
                old(buf)@,
                self.vm_image().subrange(0, self.vm_save_stop(old(buf)@.len() as int)),
            ),
            self.can_save() && old(buf)@.len() >= self.vm_image().len() ==> r
                == self.vm_image().len() && written(final(buf)@, old(buf)@, self.vm_image()),
    {
        let total = match self.saved_len() {
            Some(t) => t,
            None => return 0,
        };
        let len = buf.len();
        let ghost o = buf@;
        let ghost img = self.vm_image();
        proof {
            assert(img.subrange(0, 0) =~= Seq::<Option<u8>>::empty());
            assert(written(buf@, o, Seq::<Option<u8>>::empty()));
        }
        if len < self.heap.snapshot_size() {
            return 0;
        }
        let n = self.heap.save_state(buf);
        let ghost c0 = some_bytes(heap_image(self.heap.bytes(), self.heap.free_ptr()));
        assert(written(buf@, o, c0));
        proof {
            lemma_slots_img_split(self.packages@, 0);
            assert(self.packages@.subrange(0, 0) =~= Seq::<Option<Package>>::empty());
            assert(self.packages@.subrange(0, self.packages@.len() as int) =~= self.packages@);
            assert(img.subrange(0, c0.len() as int) =~= c0);
        }
        if n >= len {
            return 0;
        }
        let mut count: u8 = 0;
        let mut j: usize = 0;
        while j < MAX_PACKAGES
            invariant
                j <= MAX_PACKAGES,
                MAX_PACKAGES <= 256,
                count as int == loaded_count(self.packages@.subrange(0, j as int)) % 256,
            decreases MAX_PACKAGES - j,
        {
            proof {
                lemma_slots_step(self.packages@, j as int);
            }
            if self.packages[j].is_some() {
                count = count.wrapping_add(1);
            }
            j = j + 1;
        }
        assert(self.packages@.subrange(0, MAX_PACKAGES as int) =~= self.packages@);
        put(buf, n, count, Ghost(o), Ghost(c0));
        let ghost c1 = c0 + seq![Some((loaded_count(self.packages@) % 256) as u8)];
        assert(c0.push(Some(count)) =~= c1);
        let mut off = n + 1;
        let mut k: usize = 0;
        while k < MAX_PACKAGES
            invariant
                self.wf(),
                self.can_save(),
                o.len() <= isize::MAX,
                len == o.len(),
                o == old(buf)@,
                img == self.vm_image(),
                total == img.len(),
                off <= len,
                n == 2 + self.heap_view().free_ptr(),
                n < len,
                self.vm_save_stop(len as int) == self.vm_save_stop_from(len as int, k as nat),
                self.vm_save_safe_from(len as int, k as nat),
                off == self.slot_start(k as int),
                c1 == c0 + seq![Some((loaded_count(self.packages@) % 256) as u8)],
                c0 == some_bytes(heap_image(self.heap.bytes(), self.heap.free_ptr())),
                k <= MAX_PACKAGES,
                off == c1.len() + slots_img(self.packages@.subrange(0, k as int)).len(),
                written(buf@, o, c1 + slots_img(self.packages@.subrange(0, k as int))),
                c1.len() + slots_img(self.packages@).len() + STATIC_FIELDS_SIZE + 1 == self.vm_image().len(),
                slots_img(self.packages@.subrange(0, k as int)).len() <= slots_img(self.packages@).len(),
            decreases MAX_PACKAGES - k,
        {
            proof {
                lemma_slots_step(self.packages@, k as int);
                lemma_slots_len_mono(self.packages@, k + 1);
            }
            let ghost base = c1 + slots_img(self.packages@.subrange(0, k as int));
            if off >= len {
                proof {
                    lemma_slots_img_split(self.packages@, k as int);
                    assert(img.subrange(0, base.len() as int) =~= base);
                }
                return 0;
            }
            match &self.packages[k] {
                None => {
                    put(buf, off, 0, Ghost(o), Ghost(base));
                    assert(base.push(Some(0u8)) =~= base + slot_img(self.packages@[k as int]));
                    off = off + 1;
                },
                Some(p) => {
                    put(buf, off, 1, Ghost(o), Ghost(base));
                    proof {
                        crate::cap::snapshot::lemma_snapshot_len_pub(*p);
                    }
                    let plen = p.image_len();
                    if len - off - 1 < plen {
                        put_package_upto(buf, off + 1, p, Ghost(o), Ghost(base.push(Some(1u8))));
                        proof {
                            let l2 = (len - off - 1) as int;
                            crate::cap::snapshot::lemma_save_stop_bound(*p, l2);
                            let st = save_stop(*p, l2);
                            lemma_slots_img_split(self.packages@, k + 1);
                            let next = c1 + slots_img(self.packages@.subrange(0, k + 1));
                            assert(next =~= base.push(Some(1u8)) + snapshot_image(*p));
                            assert(img.subrange(0, next.len() as int) =~= next);
                            assert(next.subrange(0, off + 1 + st) =~= base.push(Some(1u8)) + snapshot_image(*p).subrange(0, st));
                            assert(img.subrange(0, off + 1 + st) =~= next.subrange(0, off + 1 + st));
                        }
                        return 0;
                    }
                    let len = plen;
                    put_package(buf, off + 1, p, Ghost(o), Ghost(base.push(Some(1u8))));
                    assert(base.push(Some(1u8)) + snapshot_image(*p) =~= base + slot_img(self.packages@[k as int]));
                    off = off + 1 + len;
                },
            }
            k = k + 1;
        }
        assert(self.packages@.subrange(0, MAX_PACKAGES as int) =~= self.packages@);
        let ghost c2 = c1 + slots_img(self.packages@);
        proof {
            assert(img.subrange(0, c2.len() as int) =~= c2);
        }
        if len - off < STATIC_FIELDS_SIZE {
            return 0;
        }
        crate::cap::snapshot::put_bytes(buf, off, self.static_fields.as_slice(), STATIC_FIELDS_SIZE, Ghost(o), Ghost(c2));
        assert(self.static_fields@.subrange(0, STATIC_FIELDS_SIZE as int) =~= self.static_fields@);
        let ghost c3 = c2 + some_bytes(self.static_fields@);
        proof {
            assert(img.subrange(0, c3.len() as int) =~= c3);
        }
        if len - off - STATIC_FIELDS_SIZE < 1 {
            return 0;
        }
        put(buf, off + STATIC_FIELDS_SIZE, self.process_method, Ghost(o), Ghost(c3));
        assert(c3.push(Some(self.process_method)) =~= self.vm_image());
        off + STATIC_FIELDS_SIZE + 1
    }
}

impl<const HEAP_SIZE: usize, const MAX_PACKAGES: usize> JcVM<HEAP_SIZE, MAX_PACKAGES> {
    /// Package slot `k` as a snapshot `b` restores it: empty, or the package the bytes
    /// from its position restore (starting from an empty package, so without static
    /// field sizes or classes).
    #[verifier::opaque]
    pub open spec fn slot_restored(slot: Option<Package>, b: Seq<u8>, k: nat) -> bool {
        if b[vm_pkg_pos(b, k)] == 0 {
            slot is None
        } else {
            slot matches Some(q) && restored(q, b.subrange(vm_pkg_pos(b, k) + 1, b.len() as int))
                && q.static_field_image_size == 0 && q.static_reference_count == 0 && q.class_count
                == 0 && forall|i: int|
                0 <= i < crate::cap::MAX_CLASSES_PER_PACKAGE ==> #[trigger] q.classes@[i] is None
        }
    }

    /// What a VM restored from the snapshot `b` holds: the heap's free pointer and
    /// allocated bytes from the snapshot and zeros beyond, each package slot as
    /// [`JcVM::slot_restored`] says, the static field image and the process method from
    /// the snapshot, and the transient state zeroed.
    pub open spec fn restored_from(&self, b: Seq<u8>) -> bool {
        &&& self.heap_view().free_ptr() == le16(b[0], b[1])
        &&& forall|i: int|
            0 <= i < self.heap_view().free_ptr() ==> #[trigger] self.heap_view().bytes()[i] == b[2 + i]
        &&& forall|i: int|
            self.heap_view().free_ptr() <= i < HEAP_SIZE ==> #[trigger] self.heap_view().bytes()[i] == 0
        &&& forall|k: nat|
            k < MAX_PACKAGES ==> Self::slot_restored(#[trigger] self.package_slots()[k as int], b, k)
        &&& self.static_bytes() == b.subrange(
            vm_pkg_pos(b, MAX_PACKAGES as nat),
            vm_pkg_pos(b, MAX_PACKAGES as nat) + STATIC_FIELDS_SIZE,
        )
        &&& self.process_method_index() == b[vm_pkg_pos(b, MAX_PACKAGES as nat) + STATIC_FIELDS_SIZE]
        &&& self.transient_reset()
    }

    /// `self` keeps `old`'s transient state (stack, frames, locals, where execution is),
    /// its journal and its counters.
    pub closed spec fn kept_registers(&self, old: &Self) -> bool {
        &&& self.stack == old.stack && self.stack_ptr == old.stack_ptr
        &&& self.frames == old.frames && self.frame_ptr == old.frame_ptr
        &&& self.locals == old.locals
        &&& self.current_pkg == old.current_pkg && self.current_method == old.current_method
        &&& self.current_context == old.current_context && self.pc == old.pc
        &&& self.journal == old.journal
        &&& self.opcode_counts == old.opcode_counts
        &&& self.total_instructions == old.total_instructions
        &&& self.max_frame_depth == old.max_frame_depth
    }

    /// What [`JcVM::kept_registers`] says, in the views.
    pub proof fn lemma_kept_registers(&self, old: &Self)
        requires
            self.kept_registers(old),
        ensures
            self.stack_words() == old.stack_words(),
            self.depth() == old.depth(),
            self.context() == old.context(),
            self.pc_value() == old.pc_value(),
            self.locals_view() == old.locals_view(),
            self.journal_view() == old.journal_view(),
            self.opcode_count_view() == old.opcode_count_view(),
            self.instructions() == old.instructions(),
            self.frame_depth_mark() == old.frame_depth_mark(),
    {
    }

    /// What a refused restore from `b` leaves in `self` (from `old`): it reads the parts
    /// in order, setting each as it is read, so a refusal keeps what was set before the
    /// fault. A refused heap image changes nothing; otherwise the heap is restored, then
    /// the package slots before the first malformed one, then (all slots read) the
    /// static fields when they are there in full; the process method, the transient
    /// state, the journal and the counters keep their values.
    pub open spec fn restore_failed_from(&self, old: &Self, b: Seq<u8>) -> bool {
        &&& self.kept_registers(old)
        &&& self.process_method_index() == old.process_method_index()
        &&& if !(b.len() >= 2 && 1 <= le16(b[0], b[1]) <= HEAP_SIZE && b.len() >= 2 + le16(b[0], b[1])) {
            &&& self.heap_view() == old.heap_view()
            &&& self.package_slots() == old.package_slots()
            &&& self.static_bytes() == old.static_bytes()
        } else {
            &&& self.heap_view().free_ptr() == le16(b[0], b[1])
            &&& forall|i: int|
                0 <= i < self.heap_view().free_ptr() ==> #[trigger] self.heap_view().bytes()[i] == b[2 + i]
            &&& forall|i: int|
                self.heap_view().free_ptr() <= i < HEAP_SIZE ==> #[trigger] self.heap_view().bytes()[i] == 0
            &&& if 2 + le16(b[0], b[1]) >= b.len() {
                &&& self.package_slots() == old.package_slots()
                &&& self.static_bytes() == old.static_bytes()
            } else if !(forall|k: nat| k < MAX_PACKAGES ==> #[trigger] vm_slot_ok(b, k)) {
                &&& exists|f: nat|
                    #![trigger vm_slot_ok(b, f)]
                    f < MAX_PACKAGES && !vm_slot_ok(b, f) && (forall|j: nat| j < f ==> #[trigger] vm_slot_ok(b, j))
                        && (forall|j: nat|
                        j < MAX_PACKAGES ==> if j < f {
                            Self::slot_restored(#[trigger] self.package_slots()[j as int], b, j)
                        } else {
                            self.package_slots()[j as int] == old.package_slots()[j as int]
                        })
                &&& self.package_slots().len() == MAX_PACKAGES
                &&& self.static_bytes() == old.static_bytes()
            } else {
                &&& forall|k: nat|
                    k < MAX_PACKAGES ==> Self::slot_restored(#[trigger] self.package_slots()[k as int], b, k)
                &&& if vm_pkg_pos(b, MAX_PACKAGES as nat) + STATIC_FIELDS_SIZE > b.len() {
                    self.static_bytes() == old.static_bytes()
                } else {
                    self.static_bytes() == b.subrange(
                        vm_pkg_pos(b, MAX_PACKAGES as nat),
                        vm_pkg_pos(b, MAX_PACKAGES as nat) + STATIC_FIELDS_SIZE,
                    )
                }
            }
        }
    }

    /// A first malformed package slot `k` leaves the slots before it restored and the
    /// others as they were.
    proof fn lemma_slots_fail(&self, old: &Self, b: Seq<u8>, k: nat)
        requires
            k < MAX_PACKAGES,
            !vm_slot_ok(b, k),
            forall|j: nat| j < k ==> #[trigger] vm_slot_ok(b, j),
            forall|j: nat| j < k ==> Self::slot_restored(#[trigger] self.packages@[j as int], b, j),
            forall|j: int| k <= j < MAX_PACKAGES ==> #[trigger] self.packages@[j] == old.packages@[j],
        ensures
            exists|f: nat|
                #![trigger vm_slot_ok(b, f)]
                f < MAX_PACKAGES && !vm_slot_ok(b, f) && (forall|j: nat| j < f ==> #[trigger] vm_slot_ok(b, j))
                    && (forall|j: nat|
                    j < MAX_PACKAGES ==> if j < f {
                        Self::slot_restored(#[trigger] self.package_slots()[j as int], b, j)
                    } else {
                        self.package_slots()[j as int] == old.package_slots()[j as int]
                    }),
            !(forall|j: nat| j < MAX_PACKAGES ==> #[trigger] vm_slot_ok(b, j)),
    {
        assert forall|j: nat|
            j < MAX_PACKAGES implies if j < k {
                Self::slot_restored(#[trigger] self.package_slots()[j as int], b, j)
            } else {
                self.package_slots()[j as int] == old.package_slots()[j as int]
            } by {}
        assert(vm_slot_ok(b, k) == false);
    }

    /// Restore the persistent state from a snapshot and zero the transient state (as a
    /// card reset does); `false` when the snapshot is malformed, the parts read before
    /// the fault then already restored ([`JcVM::restore_failed_from`]).
    pub fn restore_state(&mut self, buf: &[u8]) -> (r: bool)
        requires
            old(self).wf(),
            MAX_PACKAGES <= 256,
            buf@.len() <= isize::MAX,
        ensures
            final(self).wf(),
            r == Self::vm_restore_ok(buf@),
            final(self).opcode_count_view() == old(self).opcode_count_view(),
            final(self).instructions() == old(self).instructions(),
            final(self).journal_view() == old(self).journal_view(),
            final(self).frame_depth_mark() == old(self).frame_depth_mark(),
            !r ==> final(self).restore_failed_from(old(self), buf@),
            r ==> final(self).restored_from(buf@),
    {
        if !self.heap.restore_state(buf) {
            return false;
        }
        let len = buf.len();
        let free = crate::bytes::read_le16(buf[0], buf[1]) as usize;
        let mut off = 2 + free;
        if off >= len {
            return false;
        }
        off = off + 1;
        let ghost h = self.heap;
        let mut k: usize = 0;
        while k < MAX_PACKAGES
            invariant
                self.wf(),
                self.heap == h,
                len == buf@.len(),
                len <= isize::MAX,
                MAX_PACKAGES <= 256,
                k <= MAX_PACKAGES,
                off == vm_pkg_pos(buf@, k as nat),
                off <= len + 11680,
                forall|j: nat| j < k ==> #[trigger] vm_slot_ok(buf@, j),
                forall|j: nat| j < k ==> Self::slot_restored(#[trigger] self.packages@[j as int], buf@, j),
                self.process_method == old(self).process_method,
                self.opcode_counts == old(self).opcode_counts,
                self.total_instructions == old(self).total_instructions,
                self.journal == old(self).journal,
                self.max_frame_depth == old(self).max_frame_depth,
                self.kept_registers(old(self)),
                self.static_fields == old(self).static_fields,
                forall|j: int| k <= j < MAX_PACKAGES ==> #[trigger] self.packages@[j] == old(self).packages@[j],
                h.free_ptr() == le16(buf@[0], buf@[1]),
                1 <= le16(buf@[0], buf@[1]) <= HEAP_SIZE,
                buf@.len() >= 2 + le16(buf@[0], buf@[1]),
                2 + le16(buf@[0], buf@[1]) < len,
                forall|i: int| 0 <= i < h.free_ptr() ==> #[trigger] h.bytes()[i] == buf@[2 + i],
                forall|i: int| h.free_ptr() <= i < HEAP_SIZE ==> #[trigger] h.bytes()[i] == 0,
            decreases MAX_PACKAGES - k,
        {
            proof {
                reveal(vm_slot_ok);
                reveal(JcVM::slot_restored);
            }
            if off >= len {
                assert(!vm_slot_ok(buf@, k as nat));
                proof { self.lemma_slots_fail(old(self), buf@, k as nat); }
                return false;
            }
            let present = buf[off];
            off = off + 1;
            if present == 0 {
                self.packages[k] = None;
            } else {
                let mut pkg = Package::empty();
                let sub = vstd::slice::slice_subrange(buf, off, len);
                if !pkg.restore_state(sub) {
                    assert(!vm_slot_ok(buf@, k as nat));
                    proof { self.lemma_slots_fail(old(self), buf@, k as nat); }
                    return false;
                }
                proof {
                    crate::cap::snapshot::lemma_restored_len(pkg, sub@);
                }
                let n = pkg.image_len();
                off = off + n;
                self.packages[k] = Some(pkg);
            }
            k = k + 1;
        }
        if off > len || len - off < STATIC_FIELDS_SIZE {
            return false;
        }
        let mut i: usize = 0;
        while i < STATIC_FIELDS_SIZE
            invariant
                off + STATIC_FIELDS_SIZE <= len,
                off == vm_pkg_pos(buf@, MAX_PACKAGES as nat),
                len == buf@.len(),
                self.kept_registers(old(self)),
                self.process_method == old(self).process_method,
                forall|j: nat| j < MAX_PACKAGES ==> #[trigger] vm_slot_ok(buf@, j),
                h.free_ptr() == le16(buf@[0], buf@[1]),
                1 <= le16(buf@[0], buf@[1]) <= HEAP_SIZE,
                buf@.len() >= 2 + le16(buf@[0], buf@[1]),
                2 + le16(buf@[0], buf@[1]) < len,
                forall|i: int| 0 <= i < h.free_ptr() ==> #[trigger] h.bytes()[i] == buf@[2 + i],
                forall|i: int| h.free_ptr() <= i < HEAP_SIZE ==> #[trigger] h.bytes()[i] == 0,
                i <= STATIC_FIELDS_SIZE,
                forall|x: int| 0 <= x < i ==> #[trigger] self.static_fields@[x] == buf@[off + x],
                self.wf(),
                self.heap == h,
                forall|j: nat| j < MAX_PACKAGES ==> Self::slot_restored(#[trigger] self.packages@[j as int], buf@, j),
                self.opcode_counts == old(self).opcode_counts,
                self.total_instructions == old(self).total_instructions,
                self.journal == old(self).journal,
                self.max_frame_depth == old(self).max_frame_depth,
            decreases STATIC_FIELDS_SIZE - i,
        {
            self.static_fields[i] = buf[off + i];
            i = i + 1;
        }
        assert(self.static_fields@ =~= buf@.subrange(off as int, off + STATIC_FIELDS_SIZE));
        if len - off == STATIC_FIELDS_SIZE {
            return false;
        }
        self.process_method = buf[off + STATIC_FIELDS_SIZE];
        let f = CallFrame::empty();
        self.stack = [0u16; MAX_STACK];
        self.stack_ptr = 0;
        self.frames = [f; MAX_FRAMES];
        self.frame_ptr = 0;
        self.locals = [0u16; MAX_LOCALS];
        self.current_pkg = 0;
        self.current_method = 0;
        self.pc = 0;
        self.current_context = 0;
        true
    }
}

/// Write as much of package `p`'s snapshot at `off` as its save writes into the rest of
/// the buffer, which is too short for all of it.
fn put_package_upto(buf: &mut [u8], off: usize, p: &Package, Ghost(o): Ghost<Seq<u8>>, Ghost(img): Ghost<Seq<Option<u8>>>)
    requires
        o.len() <= isize::MAX,
        written(old(buf)@, o, img),
        off == img.len(),
        off <= o.len(),
        saveable(*p),
        o.len() - off < snapshot_len(*p),
        o.len() - off >= 18 ==> !save_overruns_from(*p, o.len() - off, 0),
    ensures
        written(final(buf)@, o, img + snapshot_image(*p).subrange(0, save_stop(*p, o.len() - off))),
{
    let len = buf.len() - off;
    let mut tmp: Vec<u8> = Vec::new();
    let mut i: usize = 0;
    while i < len
        invariant
            i <= len,
            o.len() <= isize::MAX,
            off + len == buf@.len(),
            buf@.len() == o.len(),
            tmp@ == buf@.subrange(off as int, off + i),
        decreases len - i,
    {
        tmp.push(buf[off + i]);
        assert(buf@.subrange(off as int, off + i + 1) =~= buf@.subrange(off as int, off + i).push(buf@[off + i]));
        i = i + 1;
    }
    let ghost b0 = buf@;
    let ghost t0 = tmp@;
    let mut slice_buf = tmp;
    let w = p.save_state(slice_buf.as_mut_slice());
    let ghost t1 = slice_buf@;
    let ghost pre = snapshot_image(*p).subrange(0, save_stop(*p, len as int));
    let mut i: usize = 0;
    while i < len
        invariant
            i <= len,
            o.len() <= isize::MAX,
            off + len == o.len(),
            buf@.len() == o.len(),
            slice_buf@ == t1,
            t1.len() == len,
            written(t1, t0, pre),
            t0 == b0.subrange(off as int, off + len),
            forall|x: int| 0 <= x < o.len() ==> #[trigger] buf@[x] == (if off <= x < off + i {
                t1[x - off]
            } else {
                b0[x]
            }),
        decreases len - i,
    {
        buf[off + i] = slice_buf[i];
        i = i + 1;
    }
    assert forall|x: int| 0 <= x < o.len() implies #[trigger] buf@[x] == (if x < (img + pre).len()
        && (img + pre)[x] is Some {
        (img + pre)[x]->0
    } else {
        o[x]
    }) by {
        if off <= x < off + len {
            assert(t0[x - off] == b0[x]);
        }
    }
}

/// The slot images split anywhere.
#[verifier::spinoff_prover]
#[verifier::rlimit(80)]
proof fn lemma_slots_img_split(s: Seq<Option<Package>>, k: int)
    requires
        0 <= k <= s.len(),
    ensures
        slots_img(s) == slots_img(s.subrange(0, k)) + slots_img(s.subrange(k, s.len() as int)),
    decreases s.len(),
{
    if k == s.len() {
        assert(s.subrange(0, k) =~= s);
        assert(s.subrange(k, s.len() as int) =~= Seq::<Option<Package>>::empty());
        assert(slots_img(s) + Seq::<Option<u8>>::empty() =~= slots_img(s));
    } else {
        let s0 = s.drop_last();
        lemma_slots_img_split(s0, k);
        assert(s0.subrange(0, k) =~= s.subrange(0, k));
        let t = s.subrange(k, s.len() as int);
        assert(t.drop_last() =~= s0.subrange(k, s0.len() as int));
        assert(t.last() == s.last());
        assert(slots_img(s) =~= slots_img(s.subrange(0, k)) + slots_img(t));
    }
}

/// Write package `p`'s snapshot at `off` (the end of what was written so far).
fn put_package(buf: &mut [u8], off: usize, p: &Package, Ghost(o): Ghost<Seq<u8>>, Ghost(img): Ghost<Seq<Option<u8>>>)
    requires
        o.len() <= isize::MAX,
        written(old(buf)@, o, img),
        off == img.len(),
        saveable(*p),
        off + snapshot_image(*p).len() <= o.len(),
    ensures
        written(final(buf)@, o, img + snapshot_image(*p)),
{
    proof {
        crate::cap::snapshot::lemma_snapshot_len_pub(*p);
    }
    let len = p.image_len();
    let mut tmp: Vec<u8> = Vec::new();
    let mut i: usize = 0;
    while i < len
        invariant
            i <= len,
            o.len() <= isize::MAX,
            off + len <= buf@.len(),
            buf@.len() == o.len(),
            tmp@ == buf@.subrange(off as int, off + i),
        decreases len - i,
    {
        tmp.push(buf[off + i]);
        assert(buf@.subrange(off as int, off + i + 1) =~= buf@.subrange(off as int, off + i).push(buf@[off + i]));
        i = i + 1;
    }
    let ghost b0 = buf@;
    let ghost t0 = tmp@;
    let mut slice_buf = tmp;
    proof {
        crate::cap::snapshot::lemma_no_overrun(*p, len as int, 0);
    }
    let w = p.save_state(slice_buf.as_mut_slice());
    let ghost t1 = slice_buf@;
    let mut i: usize = 0;
    while i < len
        invariant
            i <= len,
            o.len() <= isize::MAX,
            off + len <= o.len(),
            buf@.len() == o.len(),
            slice_buf@ == t1,
            t1.len() == len,
            len == snapshot_image(*p).len(),
            written(t1, t0, snapshot_image(*p)),
            t0 == b0.subrange(off as int, off + len),
            forall|x: int| 0 <= x < o.len() ==> #[trigger] buf@[x] == (if off <= x < off + i {
                t1[x - off]
            } else {
                b0[x]
            }),
        decreases len - i,
    {
        buf[off + i] = slice_buf[i];
        i = i + 1;
    }
    assert forall|x: int| 0 <= x < o.len() implies #[trigger] buf@[x] == (if x < (img + snapshot_image(*p)).len()
        && (img + snapshot_image(*p))[x] is Some {
        (img + snapshot_image(*p))[x]->0
    } else {
        o[x]
    }) by {
        if off <= x < off + len {
            assert(t0[x - off] == b0[x]);
        }
    }
}

proof fn lemma_slots_len_mono(s: Seq<Option<Package>>, k: int)
    requires
        0 <= k <= s.len(),
    ensures
        slots_img(s.subrange(0, k)).len() <= slots_img(s).len(),
    decreases s.len() - k,
{
    if k < s.len() {
        lemma_slots_step(s, k);
        lemma_slots_len_mono(s, k + 1);
    } else {
        assert(s.subrange(0, k) =~= s);
    }
}


impl<const HEAP_SIZE: usize, const MAX_PACKAGES: usize> Default for JcVM<HEAP_SIZE, MAX_PACKAGES> {
    fn default() -> (vm: Self)
        ensures
            vm.wf(),
            vm.transient_reset(),
            vm.heap_view().free_ptr() == 1,
            forall|i: int| 0 <= i < MAX_PACKAGES ==> #[trigger] vm.package_slots()[i] is None,
    {
        Self::new()
    }
}

} // verus!
