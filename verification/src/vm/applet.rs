//! An applet backed by a package loaded into the virtual machine: processing an
//! APDU runs the package's process method.
use vstd::prelude::*;
use crate::cap::Package;
use crate::heap::ObjectHeap;
use crate::opcodes::ExecResult;
use super::{JcVM, STATIC_FIELDS_SIZE};

verus! {

/// ISO 7816-4 status word: wrong length.
pub const SW_WRONG_LENGTH: u16 = 0x6700;

/// ISO 7816-4 status word: no precise diagnosis.
pub const SW_NO_PRECISE_DIAGNOSIS: u16 = 0x6F00;

/// What processing an APDU gives: response data of a length, or a status word.
#[derive(Debug, Clone, Copy, PartialEq, Eq, Structural)]
pub enum AppletResult {
    /// Success with this many bytes of response data.
    Response(usize),
    /// Failure with this status word.
    Sw(u16),
}

/// What the applet answers to the process method's result: a returned short is the
/// 2-byte big-endian response (when `out` holds it), a void return an empty one;
/// anything else is "no precise diagnosis".
pub open spec fn applet_answer(r: ExecResult, out_len: nat) -> AppletResult {
    match r {
        ExecResult::ReturnVoid => AppletResult::Response(0),
        ExecResult::ReturnShort(_) => if out_len >= 2 {
            AppletResult::Response(2)
        } else {
            AppletResult::Sw(SW_WRONG_LENGTH)
        },
        _ => AppletResult::Sw(SW_NO_PRECISE_DIAGNOSIS),
    }
}

/// `r` and `out` (holding `before` until then) are what the applet gives when the
/// process method ends with `e`: a returned short is written big-endian at the start
/// of `out` when it fits; nothing else touches `out`.
pub open spec fn process_outcome(e: ExecResult, before: Seq<u8>, after: Seq<u8>, r: AppletResult) -> bool {
    &&& r == applet_answer(e, before.len())
    &&& match e {
        ExecResult::ReturnShort(v) => if before.len() >= 2 {
            after == before.update(0, crate::bytes::hi8(v as u16)).update(1, crate::bytes::lo8(v as u16))
        } else {
            after == before
        },
        _ => after == before,
    }
}

/// What the applet answers, by how the process method ended: a response only when it
/// returned (void: no data; a short: its two bytes, high byte first, at the start of
/// `out`, or "wrong length" (0x6700) when `out` cannot hold them); every other ending,
/// an exception or a virtual machine error, is "no precise diagnosis" (0x6F00) with
/// `out` untouched.
pub proof fn lemma_process_answer(e: ExecResult, before: Seq<u8>, after: Seq<u8>, r: AppletResult)
    requires
        process_outcome(e, before, after, r),
    ensures
        r is Response <==> (e is ReturnVoid || (e is ReturnShort && before.len() >= 2)),
        e is ReturnVoid ==> r == AppletResult::Response(0) && after == before,
        e matches ExecResult::ReturnShort(v) ==> if before.len() >= 2 {
            &&& r == AppletResult::Response(2)
            &&& after.len() == before.len()
            &&& after[0] as int * 256 + after[1] as int == v as u16 as int
            &&& forall|i: int| 2 <= i < before.len() ==> after[i] == before[i]
        } else {
            r == AppletResult::Sw(0x6700) && after == before
        },
        !(e is ReturnVoid || e is ReturnShort) ==> r == AppletResult::Sw(0x6F00) && after == before,
{
    if let ExecResult::ReturnShort(v) = e {
        if before.len() >= 2 {
            crate::bytes::lemma_split_join16(v as u16);
        }
    }
}

/// A loaded package exposed as an applet.
pub struct JcVMApplet<const HEAP_SIZE: usize, const MAX_PACKAGES: usize> {
    vm: JcVM<HEAP_SIZE, MAX_PACKAGES>,
    pkg_idx: u8,
}

impl<const HEAP_SIZE: usize, const MAX_PACKAGES: usize> JcVMApplet<HEAP_SIZE, MAX_PACKAGES> {
    /// The virtual machine.
    pub closed spec fn vm_view(&self) -> JcVM<HEAP_SIZE, MAX_PACKAGES> {
        self.vm
    }

    /// The package the applet runs.
    pub closed spec fn package_index(&self) -> u8 {
        self.pkg_idx
    }

    /// Wrap `vm`, running package `pkg_idx`.
    pub fn new(vm: JcVM<HEAP_SIZE, MAX_PACKAGES>, pkg_idx: u8) -> (a: Self)
        ensures
            a.vm_view() == vm,
            a.package_index() == pkg_idx,
    {
        JcVMApplet { vm, pkg_idx }
    }

    /// The underlying virtual machine.
    pub fn vm(&self) -> (r: &JcVM<HEAP_SIZE, MAX_PACKAGES>)
        ensures
            *r == self.vm_view(),
    {
        &self.vm
    }

    /// Mutable access to the underlying virtual machine.
    pub fn vm_mut(&mut self) -> (r: &mut JcVM<HEAP_SIZE, MAX_PACKAGES>)
        ensures
            *r == old(self).vm_view(),
            final(self).vm_view() == *final(r),
            final(self).package_index() == old(self).package_index(),
    {
        &mut self.vm
    }

    /// Process an APDU: run the process method of the applet's package; a returned
    /// short goes big-endian into `out`.
    pub fn process(&mut self, cmd: &[u8], out: &mut [u8]) -> (r: AppletResult)
        requires
            old(self).vm_view().wf(),
        ensures
            final(self).vm_view().wf(),
            final(self).package_index() == old(self).package_index(),
            final(out)@.len() == old(out)@.len(),
            exists|s0: JcVM<HEAP_SIZE, MAX_PACKAGES>, e: ExecResult|
                #![trigger JcVM::<HEAP_SIZE, MAX_PACKAGES>::runs_to(s0, final(self).vm_view(), e)]
                s0.started(
                    &old(self).vm_view(),
                    old(self).package_index(),
                    old(self).vm_view().process_method_index(),
                ) && JcVM::<HEAP_SIZE, MAX_PACKAGES>::runs_to(s0, final(self).vm_view(), e)
                    && process_outcome(e, old(out)@, final(out)@, r),
    {
        let method_idx = self.vm.process_method;
        let ghost v0 = self.vm;
        let result = self.vm.execute(self.pkg_idx, method_idx);
        let ghost o = out@;
        let r = match result {
            ExecResult::ReturnVoid => AppletResult::Response(0),
            ExecResult::ReturnShort(v) => {
                if out.len() >= 2 {
                    let w = v as u16;
                    out[0] = crate::bytes::high_byte(w);
                    out[1] = crate::bytes::low_byte(w);
                    assert(out@ =~= o.update(0, crate::bytes::hi8(v as u16)).update(1, crate::bytes::lo8(v as u16)));
                    AppletResult::Response(2)
                } else {
                    AppletResult::Sw(SW_WRONG_LENGTH)
                }
            },
            _ => AppletResult::Sw(SW_NO_PRECISE_DIAGNOSIS),
        };
        assert(process_outcome(result, o, out@, r));
        proof {
            let s0 = choose|s0: JcVM<HEAP_SIZE, MAX_PACKAGES>|
                #[trigger] s0.started(&v0, self.pkg_idx, method_idx) && JcVM::<
                    HEAP_SIZE,
                    MAX_PACKAGES,
                >::runs_to(s0, self.vm, result);
            assert(JcVM::<HEAP_SIZE, MAX_PACKAGES>::runs_to(s0, self.vm, result));
        }
        r
    }

    /// An upper bound on the snapshot size: the heap at its largest, the package count,
    /// every slot with a package at its largest, the static fields and the process
    /// method. The sum must fit in a `usize`.
    pub fn snapshot_size(&self) -> (r: usize)
        requires
            2 + HEAP_SIZE + 1 + MAX_PACKAGES * (1 + Package::MAX_SNAPSHOT_SIZE) + STATIC_FIELDS_SIZE
                + 1 <= usize::MAX,
        ensures
            r == 2 + HEAP_SIZE + 1 + MAX_PACKAGES * (1 + Package::MAX_SNAPSHOT_SIZE)
                + STATIC_FIELDS_SIZE + 1,
    {
        ObjectHeap::<HEAP_SIZE>::max_snapshot_size() + 1 + MAX_PACKAGES * (1 + Package::MAX_SNAPSHOT_SIZE)
            + STATIC_FIELDS_SIZE + 1
    }

    /// Save the virtual machine's persistent state (see [`JcVM::save_state`]).
    pub fn save_state(&self, buf: &mut [u8]) -> (r: usize)
        requires
            self.vm_view().wf(),
            MAX_PACKAGES <= 256,
            old(buf)@.len() <= isize::MAX,
            self.vm_view().can_save() && old(buf)@.len() > 2 + self.vm_view().heap_view().free_ptr()
                ==> self.vm_view().vm_save_safe_from(old(buf)@.len() as int, 0),
        ensures
            !self.vm_view().can_save() ==> r == 0 && final(buf)@ == old(buf)@,
            self.vm_view().can_save() && old(buf)@.len() < self.vm_view().vm_image().len() ==> r
                == 0 && crate::cap::snapshot::written(
                final(buf)@,
                old(buf)@,
                self.vm_view().vm_image().subrange(0, self.vm_view().vm_save_stop(old(buf)@.len() as int)),
            ),
            self.vm_view().can_save() && old(buf)@.len() >= self.vm_view().vm_image().len() ==> r
                == self.vm_view().vm_image().len() && crate::cap::snapshot::written(
                final(buf)@,
                old(buf)@,
                self.vm_view().vm_image(),
            ),
    {
        self.vm.save_state(buf)
    }

    /// Restore the virtual machine's persistent state (see [`JcVM::restore_state`]).
    pub fn restore_state(&mut self, buf: &[u8]) -> (r: bool)
        requires
            old(self).vm_view().wf(),
            MAX_PACKAGES <= 256,
            buf@.len() <= isize::MAX,
        ensures
            final(self).vm_view().wf(),
            r == JcVM::<HEAP_SIZE, MAX_PACKAGES>::vm_restore_ok(buf@),
            r ==> final(self).vm_view().restored_from(buf@),
            !r ==> final(self).vm_view().restore_failed_from(&old(self).vm_view(), buf@),
            final(self).vm_view().journal_view() == old(self).vm_view().journal_view(),
            final(self).package_index() == old(self).package_index(),
    {
        self.vm.restore_state(buf)
    }
}

} // verus!
