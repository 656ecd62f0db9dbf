//! The VM snapshot law: the bytes [`JcVM::save_state`] writes are a snapshot that
//! [`JcVM::restore_state`] accepts, and the VM it restores holds the persistent state of
//! the VM that was saved.
use vstd::prelude::*;
use crate::bytes::{le16, lemma_split_join16};
use crate::cap::Package;
use crate::cap::roundtrip::{
    carries, lemma_carried_roundtrip, lemma_restored_unique, lemma_written_carries, restorable,
    with_unsaved_of,
};
use crate::cap::snapshot::{
    lemma_restored_len, lemma_snapshot_len_pub, pkg_saved_len, restored, saveable, snapshot_image,
    snapshot_ok, some_bytes, written,
};
use crate::heap::heap_image;
use super::{JcVM, STATIC_FIELDS_SIZE, lemma_slots_step, slot_img, slots_img, vm_pkg_pos, vm_slot_ok};

verus! {

proof fn lemma_carries_split(b: Seq<u8>, pos: int, x: Seq<Option<u8>>, y: Seq<Option<u8>>)
    requires
        carries(b, pos, x + y),
    ensures
        carries(b, pos, x),
        carries(b, pos + x.len(), y),
{
    assert forall|i: int| 0 <= i < x.len() && (#[trigger] x[i]) is Some implies b[pos + i]
        == x[i]->0 by {
        assert((x + y)[i] == x[i]);
    }
    assert forall|i: int| 0 <= i < y.len() && (#[trigger] y[i]) is Some implies b[pos + x.len()
        + i] == y[i]->0 by {
        assert((x + y)[x.len() + i] == y[i]);
    }
}

/// Bytes that carry an image from `q` on carry it from the start of what follows `q`.
proof fn lemma_carries_shift(b: Seq<u8>, q: int, img: Seq<Option<u8>>)
    requires
        carries(b, q, img),
    ensures
        carries(b.subrange(q, b.len() as int), 0, img),
{
    let sub = b.subrange(q, b.len() as int);
    assert forall|i: int| 0 <= i < img.len() && (#[trigger] img[i]) is Some implies sub[0 + i]
        == img[i]->0 by {
        assert(sub[i] == b[q + i]);
    }
}

/// The package slots of `v` that hold packages saving and restoring gives back.
pub open spec fn packages_restorable<const HEAP_SIZE: usize, const MAX_PACKAGES: usize>(
    v: JcVM<HEAP_SIZE, MAX_PACKAGES>,
) -> bool {
    forall|k: int|
        0 <= k < MAX_PACKAGES ==> (#[trigger] v.package_slots()[k] matches Some(p) ==> restorable(p))
}

/// `w` holds the persistent state of `v`: the same heap free pointer and allocated
/// bytes, the same package in each slot (but for the fields a package snapshot does not
/// carry), the same static field image and the same process method.
pub open spec fn holds_state_of<const HEAP_SIZE: usize, const MAX_PACKAGES: usize>(
    w: JcVM<HEAP_SIZE, MAX_PACKAGES>,
    v: JcVM<HEAP_SIZE, MAX_PACKAGES>,
) -> bool {
    &&& w.heap_view().free_ptr() == v.heap_view().free_ptr()
    &&& forall|i: int|
        0 <= i < v.heap_view().free_ptr() ==> #[trigger] w.heap_view().bytes()[i]
            == v.heap_view().bytes()[i]
    &&& forall|k: int|
        0 <= k < MAX_PACKAGES ==> match v.package_slots()[k] {
            None => #[trigger] w.package_slots()[k] is None,
            Some(p) => w.package_slots()[k] matches Some(q) && q == with_unsaved_of(p, q),
        }
    &&& w.static_bytes() == v.static_bytes()
    &&& w.process_method_index() == v.process_method_index()
}

/// Where the package slots start in a VM snapshot, and how each reads back.
proof fn lemma_slot<const HEAP_SIZE: usize, const MAX_PACKAGES: usize>(
    v: JcVM<HEAP_SIZE, MAX_PACKAGES>,
    b: Seq<u8>,
    base: int,
    k: nat,
)
    requires
        v.wf(),
        v.can_save(),
        packages_restorable(v),
        carries(b, base, slots_img(v.package_slots())),
        k < MAX_PACKAGES,
        vm_pkg_pos(b, k) == base + slots_img(v.package_slots().subrange(0, k as int)).len(),
    ensures
        vm_pkg_pos(b, k + 1) == base + slots_img(v.package_slots().subrange(0, k + 1 as int)).len(),
        0 <= vm_pkg_pos(b, k) < b.len(),
        v.package_slots()[k as int] is None ==> b[vm_pkg_pos(b, k)] == 0,
        v.package_slots()[k as int] matches Some(p) ==> b[vm_pkg_pos(b, k)] == 1 && snapshot_ok(
            b.subrange(vm_pkg_pos(b, k) + 1, b.len() as int),
        ) && restored(p, b.subrange(vm_pkg_pos(b, k) + 1, b.len() as int)),
    decreases MAX_PACKAGES - k,
{
    v.lemma_wf_parts();
    let ps = v.package_slots();
    let q = vm_pkg_pos(b, k);
    lemma_slots_prefix(b, base, ps, k as int);
    lemma_slots_step(ps, k as int);
    match ps[k as int] {
        None => {
            assert(seq![Some(0u8)][0] is Some);
        },
        Some(p) => {
            assert(ps[k as int] matches Some(p) ==> saveable(p) && restorable(p));
            let img = snapshot_image(p);
            lemma_carries_split(b, q, seq![Some(1u8)], img);
            assert(seq![Some(1u8)][0] is Some);
            lemma_carries_shift(b, q + 1, img);
            let sub = b.subrange(q + 1, b.len() as int);
            lemma_carried_roundtrip(p, sub);
            lemma_restored_len(p, sub);
            lemma_snapshot_len_pub(p);
            assert(pkg_saved_len(sub) == img.len());
        },
    }
}

/// Each prefix of a run of package slots is carried, and so is each slot after it.
proof fn lemma_slots_prefix(b: Seq<u8>, pos: int, ps: Seq<Option<Package>>, k: int)
    requires
        carries(b, pos, slots_img(ps)),
        0 <= k <= ps.len(),
    ensures
        carries(b, pos, slots_img(ps.subrange(0, k))),
        k < ps.len() ==> carries(b, pos + slots_img(ps.subrange(0, k)).len(), slot_img(ps[k])),
    decreases ps.len() - k,
{
    if k == ps.len() {
        assert(ps.subrange(0, k) =~= ps);
    } else {
        lemma_slots_prefix(b, pos, ps, k + 1);
        lemma_slots_step(ps, k);
        lemma_carries_split(b, pos, slots_img(ps.subrange(0, k)), slot_img(ps[k]));
    }
}

/// The package slots of a carried VM image sit where [`vm_pkg_pos`] finds them.
proof fn lemma_slot_positions<const HEAP_SIZE: usize, const MAX_PACKAGES: usize>(
    v: JcVM<HEAP_SIZE, MAX_PACKAGES>,
    b: Seq<u8>,
    base: int,
    k: nat,
)
    requires
        v.wf(),
        v.can_save(),
        packages_restorable(v),
        carries(b, base, slots_img(v.package_slots())),
        k <= MAX_PACKAGES,
        base == 3 + le16(b[0], b[1]),
    ensures
        vm_pkg_pos(b, k) == base + slots_img(v.package_slots().subrange(0, k as int)).len(),
    decreases k,
{
    if k == 0 {
        assert(v.package_slots().subrange(0, 0) =~= Seq::<Option<Package>>::empty());
    } else {
        lemma_slot_positions(v, b, base, (k - 1) as nat);
        lemma_slot(v, b, base, (k - 1) as nat);
    }
}

/// Saving the VM and restoring what was written gives its persistent state back: a
/// buffer that holds the image [`JcVM::save_state`] writes (whatever its other bytes), for
/// a VM whose packages are all [`restorable`], is a snapshot [`JcVM::restore_state`]
/// accepts, and every VM restored from it holds the saved VM's persistent state.
pub proof fn lemma_vm_snapshot_roundtrip<const HEAP_SIZE: usize, const MAX_PACKAGES: usize>(
    v: JcVM<HEAP_SIZE, MAX_PACKAGES>,
    old: Seq<u8>,
    b: Seq<u8>,
)
    requires
        v.wf(),
        v.can_save(),
        packages_restorable(v),
        written(b, old, v.vm_image()),
    ensures
        JcVM::<HEAP_SIZE, MAX_PACKAGES>::vm_restore_ok(b),
        forall|w: JcVM<HEAP_SIZE, MAX_PACKAGES>| #[trigger] w.restored_from(b) ==> holds_state_of(w, v),
{
    v.lemma_wf_parts();
    let h = v.heap_view();
    let free = h.free_ptr();
    let ps = v.package_slots();
    let hi = heap_image(h.bytes(), free);
    let i0 = some_bytes(hi);
    let i1 = seq![Some((crate::vm::loaded_count(ps) % 256) as u8)];
    let i2 = slots_img(ps);
    let i3 = some_bytes(v.static_bytes());
    let i4 = seq![Some(v.process_method_index())];
    assert(v.vm_image() == i0 + i1 + i2 + i3 + i4);
    lemma_written_carries(b, old, v.vm_image());
    lemma_carries_split(b, 0, i0 + i1 + i2 + i3, i4);
    lemma_carries_split(b, 0, i0 + i1 + i2, i3);
    lemma_carries_split(b, 0, i0 + i1, i2);
    lemma_carries_split(b, 0, i0, i1);
    assert(hi.len() == 2 + free);
    // the heap
    assert(i0[0] is Some && i0[1] is Some);
    assert(b[0] == hi[0] && b[1] == hi[1]);
    lemma_split_join16(free as u16);
    assert(le16(b[0], b[1]) == free);
    assert forall|i: int| 0 <= i < free implies b[2 + i] == #[trigger] h.bytes()[i] by {
        assert(i0[2 + i] is Some);
        assert(hi[2 + i] == h.bytes()[i]);
    }
    // the package slots
    let base: int = 3 + free as int;
    assert(i1[0] is Some);
    lemma_slot_positions(v, b, base, MAX_PACKAGES as nat);
    assert(ps.subrange(0, MAX_PACKAGES as int) =~= ps);
    let end = vm_pkg_pos(b, MAX_PACKAGES as nat);
    assert(end == base + i2.len());
    assert forall|k: nat| k < MAX_PACKAGES implies #[trigger] vm_slot_ok(b, k) by {
        reveal(vm_slot_ok);
        lemma_slot_positions(v, b, base, k);
        lemma_slot(v, b, base, k);
    }
    // static fields and the process method
    assert(i4[0] is Some);
    assert(b.subrange(end, end + STATIC_FIELDS_SIZE) =~= v.static_bytes()) by {
        assert forall|i: int| 0 <= i < STATIC_FIELDS_SIZE implies b.subrange(
            end,
            end + STATIC_FIELDS_SIZE,
        )[i] == v.static_bytes()[i] by {
            assert(i3[i] is Some);
        }
    }
    assert forall|w: JcVM<HEAP_SIZE, MAX_PACKAGES>| #[trigger] w.restored_from(b) implies holds_state_of(w, v) by {
        assert forall|k: int| 0 <= k < MAX_PACKAGES implies match ps[k] {
            None => #[trigger] w.package_slots()[k] is None,
            Some(p) => w.package_slots()[k] matches Some(q) && q == with_unsaved_of(p, q),
        } by {
            let kn = k as nat;
            lemma_slot_positions(v, b, base, kn);
            lemma_slot(v, b, base, kn);
            assert(JcVM::<HEAP_SIZE, MAX_PACKAGES>::slot_restored(w.package_slots()[kn as int], b, kn));
            reveal(JcVM::slot_restored);
            if let Some(p) = ps[k] {
                let q = w.package_slots()[k]->0;
                lemma_restored_unique(p, q, b.subrange(vm_pkg_pos(b, kn) + 1, b.len() as int));
            }
        }
    }
}

} // verus!
