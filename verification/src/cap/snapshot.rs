//! Package snapshots: the byte layout [`Package::save_state`] writes and
//! [`Package::restore_state`] reads back.
//!
//! Layout: `aid_len`, the AID (16 bytes), `method_count`; 32 method slots
//! (a presence byte, then for a present method its header, `bytecode_len`
//! LE, the bytecode, the exception count and entries, and the descriptor
//! and class offsets); then the trailing blocks: constant pool, applets,
//! imports, method component offsets, exports and reference locations.
//! Snapshots written before a trailing block existed end early and restore
//! that block (and those after it) as empty.
use vstd::prelude::*;
use crate::bytes::{hi8, le16, lo8, read_le16};
use super::{
    AppletInfo, CpInfo, ExceptionEntry, ExportInfo, ImportInfo, MAX_AID_LEN,
    MAX_APPLETS_PER_PACKAGE, MAX_BYTECODE, MAX_CP_ENTRIES, MAX_EXCEPTIONS,
    MAX_EXPORTED_CLASSES_PER_PACKAGE, MAX_EXPORTED_FIELDS_PER_CLASS,
    MAX_EXPORTED_METHODS_PER_CLASS, MAX_IMPORTS_PER_PACKAGE, MAX_METHODS,
    MAX_REF_LOC_BYTE2_INDICES, MAX_REF_LOC_BYTE_INDICES, MethodInfo, Package,
};

verus! {

/// One applet slot: present(1) + `aid_len`(1) + aid + `install_method_offset`(2).
pub const APPLET_SLOT_SIZE: usize = 20;

/// One import slot: present(1) + minor(1) + major(1) + `aid_len`(1) + aid.
pub const IMPORT_SLOT_SIZE: usize = 20;

/// One export slot: present(1) + `class_offset`(2) + two counts(2) + 16 field and 16
/// method offsets (2 bytes each).
pub const EXPORT_SLOT_SIZE: usize = 69;

/// The applet block: count(1) + slots.
pub const APPLET_BLOCK_SIZE: usize = 81;

/// The import block: count(1) + slots.
pub const IMPORT_BLOCK_SIZE: usize = 161;

/// The export block: count(1) + slots.
pub const EXPORT_BLOCK_SIZE: usize = 277;

/// The method component offsets block: one u16 per method slot.
pub const METHOD_OFFSETS_BLOCK_SIZE: usize = 64;

/// The reference-location block: two counts (2 bytes each) and both delta arrays.
pub const REF_LOC_BLOCK_SIZE: usize = 196;

/// Bytes a method record takes at most: present(1) + header(4) + `bytecode_len`(2) +
/// bytecode + exception count(1) + entries (8 each) + offsets(4).
pub const METHOD_RECORD_MAX: usize = 333;

/// The little-endian u16 at `i`.
pub open spec fn le16_of(b: Seq<u8>, i: int) -> u16 {
    le16(b[i], b[i + 1])
}

// ---------------------------------------------------------------- reading a method record

/// The bytecode length a method record at `p` (just after its presence byte) gives.
pub open spec fn mrec_len(b: Seq<u8>, p: int) -> int {
    le16_of(b, p + 4) as int
}

/// Where the bytecode of the method record at `p` ends.
pub open spec fn mrec_code_end(b: Seq<u8>, p: int) -> int {
    p + 6 + mrec_len(b, p)
}

/// How many exception entries the record at `p` carries (none without a count byte).
pub open spec fn mrec_exc_count(b: Seq<u8>, p: int) -> int {
    if mrec_code_end(b, p) < b.len() {
        if b[mrec_code_end(b, p)] > MAX_EXCEPTIONS {
            MAX_EXCEPTIONS as int
        } else {
            b[mrec_code_end(b, p)] as int
        }
    } else {
        0
    }
}

/// Where the exception entries of the record at `p` start.
pub open spec fn mrec_exc_start(b: Seq<u8>, p: int) -> int {
    mrec_code_end(b, p) + 1
}

/// Where the exception table of the record at `p` ends.
pub open spec fn mrec_exc_end(b: Seq<u8>, p: int) -> int {
    if mrec_code_end(b, p) < b.len() {
        mrec_exc_start(b, p) + 8 * mrec_exc_count(b, p)
    } else {
        mrec_code_end(b, p)
    }
}

/// Whether the record at `p` carries its two component offsets.
pub open spec fn mrec_has_offsets(b: Seq<u8>, p: int) -> bool {
    mrec_exc_end(b, p) + 4 <= b.len()
}

/// Where the method record at `p` ends.
pub open spec fn mrec_end(b: Seq<u8>, p: int) -> int {
    if mrec_has_offsets(b, p) {
        mrec_exc_end(b, p) + 4
    } else {
        mrec_exc_end(b, p)
    }
}

/// Whether the method record at `p` can be read.
pub open spec fn mrec_ok(b: Seq<u8>, p: int) -> bool {
    &&& p + 6 <= b.len()
    &&& mrec_len(b, p) <= MAX_BYTECODE
    &&& mrec_code_end(b, p) <= b.len()
    &&& mrec_exc_end(b, p) <= b.len()
}

/// The exception entry at `q`.
pub open spec fn exc_entry_at(b: Seq<u8>, q: int) -> ExceptionEntry {
    ExceptionEntry {
        start_pc: le16_of(b, q),
        end_pc: le16_of(b, q + 2),
        handler_pc: le16_of(b, q + 4),
        catch_type: le16_of(b, q + 6),
    }
}

/// `m` is the method the record at `p` holds.
pub open spec fn mrec_decodes(m: MethodInfo, b: Seq<u8>, p: int) -> bool {
    &&& m.flags == b[p] && m.max_stack == b[p + 1] && m.nargs == b[p + 2] && m.max_locals == b[p
        + 3]
    &&& m.bytecode_len == mrec_len(b, p)
    &&& forall|i: int| 0 <= i < mrec_len(b, p) ==> #[trigger] m.bytecode@[i] == b[p + 6 + i]
    &&& forall|i: int| mrec_len(b, p) <= i < MAX_BYTECODE ==> #[trigger] m.bytecode@[i] == 0
    &&& forall|k: int|
        0 <= k < mrec_exc_count(b, p) ==> #[trigger] m.exception_table@[k] == Some(
            exc_entry_at(b, mrec_exc_start(b, p) + 8 * k),
        )
    &&& forall|k: int| mrec_exc_count(b, p) <= k < MAX_EXCEPTIONS ==> #[trigger] m.exception_table@[k] is None
    &&& m.descriptor_offset == (if mrec_has_offsets(b, p) {
        le16_of(b, mrec_exc_end(b, p))
    } else {
        0
    })
    &&& m.class_offset == (if mrec_has_offsets(b, p) {
        le16_of(b, mrec_exc_end(b, p) + 2)
    } else {
        0
    })
}

/// Where method slot `k` starts (slots are read in order from byte 18).
pub open spec fn mslot_pos(b: Seq<u8>, k: nat) -> int
    decreases k,
{
    if k == 0 {
        18
    } else {
        let prev = mslot_pos(b, (k - 1) as nat);
        if b[prev] == 0 {
            prev + 1
        } else {
            mrec_end(b, prev + 1)
        }
    }
}

/// Whether method slot `k` can be read.
pub open spec fn mslot_ok(b: Seq<u8>, k: nat) -> bool {
    &&& 0 <= mslot_pos(b, k) < b.len()
    &&& b[mslot_pos(b, k)] != 0 ==> mrec_ok(b, mslot_pos(b, k) + 1)
}

// ---------------------------------------------------------------- trailing blocks

/// Where the constant pool block starts.
pub open spec fn cp_pos(b: Seq<u8>) -> int {
    mslot_pos(b, MAX_METHODS as nat)
}

/// Whether the snapshot carries a constant pool block.
pub open spec fn has_cp(b: Seq<u8>) -> bool {
    cp_pos(b) + 2 <= b.len()
}

/// The constant pool entry count the snapshot carries.
pub open spec fn cp_count_of(b: Seq<u8>) -> int {
    le16_of(b, cp_pos(b)) as int
}

/// Where the applet block starts.
pub open spec fn applet_pos(b: Seq<u8>) -> int {
    if has_cp(b) {
        cp_pos(b) + 2 + 4 * cp_count_of(b)
    } else {
        cp_pos(b)
    }
}

/// Whether the snapshot carries an applet block.
pub open spec fn has_applets(b: Seq<u8>) -> bool {
    applet_pos(b) < b.len()
}

/// Where applet slot `k` starts.
pub open spec fn aslot(b: Seq<u8>, k: int) -> int {
    applet_pos(b) + 1 + 20 * k
}

/// Where the import block starts.
pub open spec fn import_pos(b: Seq<u8>) -> int {
    if has_applets(b) {
        applet_pos(b) + APPLET_BLOCK_SIZE
    } else {
        applet_pos(b)
    }
}

/// Whether the snapshot carries an import block.
pub open spec fn has_imports(b: Seq<u8>) -> bool {
    import_pos(b) < b.len()
}

/// Where import slot `k` starts.
pub open spec fn islot(b: Seq<u8>, k: int) -> int {
    import_pos(b) + 1 + 20 * k
}

/// Where the method offsets block starts.
pub open spec fn moff_pos(b: Seq<u8>) -> int {
    if has_imports(b) {
        import_pos(b) + IMPORT_BLOCK_SIZE
    } else {
        import_pos(b)
    }
}

/// Whether the snapshot carries the method offsets block.
pub open spec fn has_moffs(b: Seq<u8>) -> bool {
    moff_pos(b) + METHOD_OFFSETS_BLOCK_SIZE <= b.len()
}

/// Where the export block starts.
pub open spec fn export_pos(b: Seq<u8>) -> int {
    if has_moffs(b) {
        moff_pos(b) + METHOD_OFFSETS_BLOCK_SIZE
    } else {
        moff_pos(b)
    }
}

/// Whether the snapshot carries an export block.
pub open spec fn has_exports(b: Seq<u8>) -> bool {
    export_pos(b) < b.len()
}

/// Where export slot `k` starts.
pub open spec fn xslot(b: Seq<u8>, k: int) -> int {
    export_pos(b) + 1 + 69 * k
}

/// Where the reference-location block starts.
pub open spec fn refloc_pos(b: Seq<u8>) -> int {
    if has_exports(b) {
        export_pos(b) + EXPORT_BLOCK_SIZE
    } else {
        export_pos(b)
    }
}

/// Whether the snapshot carries the reference-location block.
pub open spec fn has_refloc(b: Seq<u8>) -> bool {
    refloc_pos(b) + REF_LOC_BLOCK_SIZE <= b.len()
}

/// Whether applet slot `k` can be read.
pub open spec fn aslot_ok(b: Seq<u8>, k: int) -> bool {
    &&& aslot(b, k) < b.len()
    &&& b[aslot(b, k)] != 0 ==> aslot(b, k) + 20 <= b.len() && b[aslot(b, k) + 1] <= MAX_AID_LEN
}

/// Whether import slot `k` can be read.
pub open spec fn islot_ok(b: Seq<u8>, k: int) -> bool {
    &&& islot(b, k) < b.len()
    &&& b[islot(b, k)] != 0 ==> islot(b, k) + 20 <= b.len() && b[islot(b, k) + 3] <= MAX_AID_LEN
}

/// Whether export slot `k` can be read.
pub open spec fn xslot_ok(b: Seq<u8>, k: int) -> bool {
    &&& xslot(b, k) < b.len()
    &&& b[xslot(b, k)] != 0 ==> xslot(b, k) + 69 <= b.len() && b[xslot(b, k) + 3]
        <= MAX_EXPORTED_FIELDS_PER_CLASS && b[xslot(b, k) + 4] <= MAX_EXPORTED_METHODS_PER_CLASS
}

/// Whether `b` is a snapshot [`Package::restore_state`] accepts.
pub open spec fn snapshot_ok(b: Seq<u8>) -> bool {
    &&& b.len() >= 18
    &&& b[0] <= MAX_AID_LEN
    &&& forall|k: nat| k < MAX_METHODS ==> #[trigger] mslot_ok(b, k)
    &&& has_cp(b) ==> cp_count_of(b) <= MAX_CP_ENTRIES && cp_pos(b) + 2 + 4 * cp_count_of(b)
        <= b.len()
    &&& has_applets(b) ==> b[applet_pos(b)] <= MAX_APPLETS_PER_PACKAGE && forall|k: int|
        0 <= k < MAX_APPLETS_PER_PACKAGE ==> #[trigger] aslot_ok(b, k)
    &&& has_imports(b) ==> b[import_pos(b)] <= MAX_IMPORTS_PER_PACKAGE && forall|k: int|
        0 <= k < MAX_IMPORTS_PER_PACKAGE ==> #[trigger] islot_ok(b, k)
    &&& has_exports(b) ==> b[export_pos(b)] <= MAX_EXPORTED_CLASSES_PER_PACKAGE && forall|k: int|
        0 <= k < MAX_EXPORTED_CLASSES_PER_PACKAGE ==> #[trigger] xslot_ok(b, k)
    &&& has_refloc(b) ==> le16_of(b, refloc_pos(b)) <= MAX_REF_LOC_BYTE_INDICES && le16_of(
        b,
        refloc_pos(b) + 2 + MAX_REF_LOC_BYTE_INDICES,
    ) <= MAX_REF_LOC_BYTE2_INDICES
}

/// `p` holds what the snapshot `b` restores (the static field sizes and the classes,
/// which snapshots do not carry, aside).
pub open spec fn restored(p: Package, b: Seq<u8>) -> bool {
    &&& p.aid_len == b[0]
    &&& forall|i: int| 0 <= i < MAX_AID_LEN ==> #[trigger] p.aid@[i] == b[1 + i]
    &&& p.method_count == b[17]
    &&& forall|k: nat|
        k < MAX_METHODS ==> (if b[mslot_pos(b, k)] == 0 {
            #[trigger] p.methods@[k as int] is None
        } else {
            p.methods@[k as int] is Some && mrec_decodes(
                p.methods@[k as int]->0,
                b,
                mslot_pos(b, k) + 1,
            )
        })
    &&& p.cp_count == (if has_cp(b) {
        cp_count_of(b)
    } else {
        0
    })
    &&& forall|i: int|
        0 <= i < MAX_CP_ENTRIES ==> (if i < p.cp_count {
            (#[trigger] p.constant_pool@[i]).tag == b[cp_pos(b) + 2 + 4 * i]
                && p.constant_pool@[i].info@ == seq![
                b[cp_pos(b) + 3 + 4 * i],
                b[cp_pos(b) + 4 + 4 * i],
                b[cp_pos(b) + 5 + 4 * i],
            ]
        } else {
            p.constant_pool@[i].tag == 0 && p.constant_pool@[i].info@ == seq![0u8, 0u8, 0u8]
        })
    &&& p.applet_count == (if has_applets(b) {
        b[applet_pos(b)]
    } else {
        0
    })
    &&& forall|k: int|
        0 <= k < MAX_APPLETS_PER_PACKAGE ==> (if has_applets(b) && b[aslot(b, k)] != 0 {
            (#[trigger] p.applets@[k]) is Some && p.applets@[k]->0.aid_len == b[aslot(b, k) + 1]
                && (forall|i: int|
                0 <= i < MAX_AID_LEN ==> #[trigger] p.applets@[k]->0.aid@[i] == b[aslot(b, k) + 2
                    + i]) && p.applets@[k]->0.install_method_offset == le16_of(b, aslot(b, k) + 18)
        } else {
            p.applets@[k] is None
        })
    &&& p.import_count == (if has_imports(b) {
        b[import_pos(b)]
    } else {
        0
    })
    &&& forall|k: int|
        0 <= k < MAX_IMPORTS_PER_PACKAGE ==> (if has_imports(b) && b[islot(b, k)] != 0 {
            (#[trigger] p.imports@[k]) is Some && p.imports@[k]->0.minor_version == b[islot(b, k)
                + 1] && p.imports@[k]->0.major_version == b[islot(b, k) + 2]
                && p.imports@[k]->0.aid_len == b[islot(b, k) + 3] && (forall|i: int|
                0 <= i < MAX_AID_LEN ==> #[trigger] p.imports@[k]->0.aid@[i] == b[islot(b, k) + 4
                    + i])
        } else {
            p.imports@[k] is None
        })
    &&& forall|i: int|
        0 <= i < MAX_METHODS ==> #[trigger] p.method_offsets@[i] == (if has_moffs(b) {
            le16_of(b, moff_pos(b) + 2 * i)
        } else {
            0
        })
    &&& p.export_count == (if has_exports(b) {
        b[export_pos(b)]
    } else {
        0
    })
    &&& forall|k: int|
        0 <= k < MAX_EXPORTED_CLASSES_PER_PACKAGE ==> (if has_exports(b) && b[xslot(b, k)] != 0 {
            (#[trigger] p.exports@[k]) is Some && p.exports@[k]->0.class_offset == le16_of(
                b,
                xslot(b, k) + 1,
            ) && p.exports@[k]->0.static_field_count == b[xslot(b, k) + 3]
                && p.exports@[k]->0.static_method_count == b[xslot(b, k) + 4] && (forall|i: int|
                0 <= i < MAX_EXPORTED_FIELDS_PER_CLASS ==> #[trigger] p.exports@[k]->0.static_field_offsets@[i]
                    == le16_of(b, xslot(b, k) + 5 + 2 * i)) && (forall|i: int|
                0 <= i < MAX_EXPORTED_METHODS_PER_CLASS
                    ==> #[trigger] p.exports@[k]->0.static_method_offsets@[i] == le16_of(
                    b,
                    xslot(b, k) + 37 + 2 * i,
                ))
        } else {
            p.exports@[k] is None
        })
    &&& p.ref_loc_byte_count == (if has_refloc(b) {
        le16_of(b, refloc_pos(b))
    } else {
        0
    })
    &&& forall|i: int|
        0 <= i < MAX_REF_LOC_BYTE_INDICES ==> #[trigger] p.ref_loc_byte_deltas@[i] == (if has_refloc(
            b,
        ) {
            b[refloc_pos(b) + 2 + i]
        } else {
            0
        })
    &&& p.ref_loc_byte2_count == (if has_refloc(b) {
        le16_of(b, refloc_pos(b) + 2 + MAX_REF_LOC_BYTE_INDICES)
    } else {
        0
    })
    &&& forall|i: int|
        0 <= i < MAX_REF_LOC_BYTE2_INDICES ==> #[trigger] p.ref_loc_byte2_deltas@[i] == (if has_refloc(
            b,
        ) {
            b[refloc_pos(b) + 4 + MAX_REF_LOC_BYTE_INDICES + i]
        } else {
            0
        })
}


// ---------------------------------------------------------------- what a refused restore leaves

/// Method slot `k` of `b` restored into `x`.
pub open spec fn method_slot_restored(x: Option<MethodInfo>, b: Seq<u8>, k: nat) -> bool {
    if b[mslot_pos(b, k)] == 0 {
        x is None
    } else {
        x is Some && mrec_decodes(x->0, b, mslot_pos(b, k) + 1)
    }
}

/// Applet slot `k` of `b` restored into `x`.
pub open spec fn applet_slot_restored(x: Option<AppletInfo>, b: Seq<u8>, k: int) -> bool {
    if b[aslot(b, k)] != 0 {
        &&& x is Some
        &&& x->0.aid_len == b[aslot(b, k) + 1]
        &&& forall|i: int| 0 <= i < MAX_AID_LEN ==> #[trigger] x->0.aid@[i] == b[aslot(b, k) + 2 + i]
        &&& x->0.install_method_offset == le16_of(b, aslot(b, k) + 18)
    } else {
        x is None
    }
}

/// Import slot `k` of `b` restored into `x`.
pub open spec fn import_slot_restored(x: Option<ImportInfo>, b: Seq<u8>, k: int) -> bool {
    if b[islot(b, k)] != 0 {
        &&& x is Some
        &&& x->0.minor_version == b[islot(b, k) + 1]
        &&& x->0.major_version == b[islot(b, k) + 2]
        &&& x->0.aid_len == b[islot(b, k) + 3]
        &&& forall|i: int| 0 <= i < MAX_AID_LEN ==> #[trigger] x->0.aid@[i] == b[islot(b, k) + 4 + i]
    } else {
        x is None
    }
}

/// Export slot `k` of `b` restored into `x`.
pub open spec fn export_slot_restored(x: Option<ExportInfo>, b: Seq<u8>, k: int) -> bool {
    if b[xslot(b, k)] != 0 {
        &&& x is Some
        &&& x->0.class_offset == le16_of(b, xslot(b, k) + 1)
        &&& x->0.static_field_count == b[xslot(b, k) + 3]
        &&& x->0.static_method_count == b[xslot(b, k) + 4]
        &&& forall|i: int|
            0 <= i < MAX_EXPORTED_FIELDS_PER_CLASS ==> #[trigger] x->0.static_field_offsets@[i]
                == le16_of(b, xslot(b, k) + 5 + 2 * i)
        &&& forall|i: int|
            0 <= i < MAX_EXPORTED_METHODS_PER_CLASS ==> #[trigger] x->0.static_method_offsets@[i]
                == le16_of(b, xslot(b, k) + 37 + 2 * i)
    } else {
        x is None
    }
}

/// The method slots a refused restore leaves: those before the first malformed slot
/// restored, the others as they were in `o`.
pub open spec fn methods_partial(n: Seq<Option<MethodInfo>>, o: Seq<Option<MethodInfo>>, b: Seq<u8>) -> bool {
    exists|f: nat|
        #![trigger mslot_ok(b, f)]
        f < MAX_METHODS && !mslot_ok(b, f) && (forall|j: nat| j < f ==> #[trigger] mslot_ok(b, j))
            && (forall|j: nat|
            j < MAX_METHODS ==> if j < f {
                method_slot_restored(#[trigger] n[j as int], b, j)
            } else {
                n[j as int] == o[j as int]
            })
}

/// The applet slots a refused applet block leaves: none when the count is over the
/// table, else those before the first malformed slot restored and none from it on.
pub open spec fn applets_partial(arr: Seq<Option<AppletInfo>>, b: Seq<u8>) -> bool {
    if b[applet_pos(b)] > MAX_APPLETS_PER_PACKAGE {
        forall|k: int| 0 <= k < MAX_APPLETS_PER_PACKAGE ==> #[trigger] arr[k] is None
    } else {
        exists|f: int|
            #![trigger aslot_ok(b, f)]
            0 <= f < MAX_APPLETS_PER_PACKAGE && !aslot_ok(b, f) && (forall|j: int|
                0 <= j < f ==> #[trigger] aslot_ok(b, j)) && (forall|j: int|
                0 <= j < MAX_APPLETS_PER_PACKAGE ==> if j < f {
                    applet_slot_restored(#[trigger] arr[j], b, j)
                } else {
                    arr[j] is None
                })
    }
}

/// The import slots a refused import block leaves (as for applets).
pub open spec fn imports_partial(arr: Seq<Option<ImportInfo>>, b: Seq<u8>) -> bool {
    if b[import_pos(b)] > MAX_IMPORTS_PER_PACKAGE {
        forall|k: int| 0 <= k < MAX_IMPORTS_PER_PACKAGE ==> #[trigger] arr[k] is None
    } else {
        exists|f: int|
            #![trigger islot_ok(b, f)]
            0 <= f < MAX_IMPORTS_PER_PACKAGE && !islot_ok(b, f) && (forall|j: int|
                0 <= j < f ==> #[trigger] islot_ok(b, j)) && (forall|j: int|
                0 <= j < MAX_IMPORTS_PER_PACKAGE ==> if j < f {
                    import_slot_restored(#[trigger] arr[j], b, j)
                } else {
                    arr[j] is None
                })
    }
}

/// The export slots a refused export block leaves (as for applets).
pub open spec fn exports_partial(arr: Seq<Option<ExportInfo>>, b: Seq<u8>) -> bool {
    if b[export_pos(b)] > MAX_EXPORTED_CLASSES_PER_PACKAGE {
        forall|k: int| 0 <= k < MAX_EXPORTED_CLASSES_PER_PACKAGE ==> #[trigger] arr[k] is None
    } else {
        exists|f: int|
            #![trigger xslot_ok(b, f)]
            0 <= f < MAX_EXPORTED_CLASSES_PER_PACKAGE && !xslot_ok(b, f) && (forall|j: int|
                0 <= j < f ==> #[trigger] xslot_ok(b, j)) && (forall|j: int|
                0 <= j < MAX_EXPORTED_CLASSES_PER_PACKAGE ==> if j < f {
                    export_slot_restored(#[trigger] arr[j], b, j)
                } else {
                    arr[j] is None
                })
    }
}

/// The constant pool block, when present, fits its table and the buffer.
pub open spec fn cp_block_ok(b: Seq<u8>) -> bool {
    has_cp(b) ==> cp_count_of(b) <= MAX_CP_ENTRIES && cp_pos(b) + 2 + 4 * cp_count_of(b) <= b.len()
}

/// The applet block, when present, is well formed.
pub open spec fn applets_block_ok(b: Seq<u8>) -> bool {
    has_applets(b) ==> b[applet_pos(b)] <= MAX_APPLETS_PER_PACKAGE && forall|k: int|
        0 <= k < MAX_APPLETS_PER_PACKAGE ==> #[trigger] aslot_ok(b, k)
}

/// The import block, when present, is well formed.
pub open spec fn imports_block_ok(b: Seq<u8>) -> bool {
    has_imports(b) ==> b[import_pos(b)] <= MAX_IMPORTS_PER_PACKAGE && forall|k: int|
        0 <= k < MAX_IMPORTS_PER_PACKAGE ==> #[trigger] islot_ok(b, k)
}

/// The export block, when present, is well formed.
pub open spec fn exports_block_ok(b: Seq<u8>) -> bool {
    has_exports(b) ==> b[export_pos(b)] <= MAX_EXPORTED_CLASSES_PER_PACKAGE && forall|k: int|
        0 <= k < MAX_EXPORTED_CLASSES_PER_PACKAGE ==> #[trigger] xslot_ok(b, k)
}

/// The constant pool restored from `b`.
pub open spec fn cp_restored(p: Package, b: Seq<u8>) -> bool {
    &&& p.cp_count == (if has_cp(b) {
        cp_count_of(b)
    } else {
        0
    })
    &&& forall|i: int|
        0 <= i < MAX_CP_ENTRIES ==> (if i < p.cp_count {
            (#[trigger] p.constant_pool@[i]).tag == b[cp_pos(b) + 2 + 4 * i]
                && p.constant_pool@[i].info@ == seq![
                b[cp_pos(b) + 3 + 4 * i],
                b[cp_pos(b) + 4 + 4 * i],
                b[cp_pos(b) + 5 + 4 * i],
            ]
        } else {
            p.constant_pool@[i].tag == 0 && p.constant_pool@[i].info@ == seq![0u8, 0u8, 0u8]
        })
}

/// The applets restored from `b`.
pub open spec fn applets_restored(p: Package, b: Seq<u8>) -> bool {
    &&& p.applet_count == (if has_applets(b) {
        b[applet_pos(b)]
    } else {
        0
    })
    &&& forall|k: int|
        0 <= k < MAX_APPLETS_PER_PACKAGE ==> (if has_applets(b) {
            applet_slot_restored(#[trigger] p.applets@[k], b, k)
        } else {
            p.applets@[k] is None
        })
}

/// The imports restored from `b`.
pub open spec fn imports_restored(p: Package, b: Seq<u8>) -> bool {
    &&& p.import_count == (if has_imports(b) {
        b[import_pos(b)]
    } else {
        0
    })
    &&& forall|k: int|
        0 <= k < MAX_IMPORTS_PER_PACKAGE ==> (if has_imports(b) {
            import_slot_restored(#[trigger] p.imports@[k], b, k)
        } else {
            p.imports@[k] is None
        })
}

/// The method offsets restored from `b`.
pub open spec fn moffs_restored(p: Package, b: Seq<u8>) -> bool {
    forall|i: int|
        0 <= i < MAX_METHODS ==> #[trigger] p.method_offsets@[i] == (if has_moffs(b) {
            le16_of(b, moff_pos(b) + 2 * i)
        } else {
            0
        })
}

/// The exports restored from `b`.
pub open spec fn exports_restored(p: Package, b: Seq<u8>) -> bool {
    &&& p.export_count == (if has_exports(b) {
        b[export_pos(b)]
    } else {
        0
    })
    &&& forall|k: int|
        0 <= k < MAX_EXPORTED_CLASSES_PER_PACKAGE ==> (if has_exports(b) {
            export_slot_restored(#[trigger] p.exports@[k], b, k)
        } else {
            p.exports@[k] is None
        })
}

/// What [`Package::restore_state`] leaves in `n` (from `o`) when it refuses the snapshot
/// `b`: it reads the blocks in order, setting what it read before each check, so a
/// refusal keeps what was set up to the fault. Below 18 bytes nothing is set; an AID
/// length over 16 is itself kept; a malformed method slot keeps the AID, the method
/// count and the slots before it; the constant pool, applet, import and export blocks
/// are cleared before they are read, and a malformed one keeps its count and the slots
/// before the fault; a reference-location count over its table keeps the counts read
/// before it.
pub open spec fn restore_failed(o: Package, n: Package, b: Seq<u8>) -> bool {
    if b.len() < 18 {
        n == o
    } else if b[0] > MAX_AID_LEN {
        n == Package { aid_len: b[0], ..o }
    } else {
        &&& n.aid_len == b[0]
        &&& forall|i: int| 0 <= i < MAX_AID_LEN ==> #[trigger] n.aid@[i] == b[1 + i]
        &&& n.method_count == b[17]
        &&& if !(forall|k: nat| k < MAX_METHODS ==> #[trigger] mslot_ok(b, k)) {
            &&& methods_partial(n.methods@, o.methods@, b)
            &&& n == Package {
                aid: n.aid,
                aid_len: n.aid_len,
                method_count: n.method_count,
                methods: n.methods,
                ..o
            }
        } else {
            &&& forall|k: nat| k < MAX_METHODS ==> method_slot_restored(#[trigger] n.methods@[k as int], b, k)
            &&& if !cp_block_ok(b) {
                &&& n.cp_count == 0
                &&& forall|i: int| 0 <= i < MAX_CP_ENTRIES ==> (#[trigger] n.constant_pool@[i]).tag == 0
                    && n.constant_pool@[i].info@ == seq![0u8, 0u8, 0u8]
                &&& n == Package {
                    aid: n.aid,
                    aid_len: n.aid_len,
                    method_count: n.method_count,
                    methods: n.methods,
                    cp_count: n.cp_count,
                    constant_pool: n.constant_pool,
                    ..o
                }
            } else if !applets_block_ok(b) {
                &&& cp_restored(n, b)
                &&& n.applet_count == b[applet_pos(b)]
                &&& applets_partial(n.applets@, b)
                &&& n == Package {
                    aid: n.aid,
                    aid_len: n.aid_len,
                    method_count: n.method_count,
                    methods: n.methods,
                    cp_count: n.cp_count,
                    constant_pool: n.constant_pool,
                    applet_count: n.applet_count,
                    applets: n.applets,
                    ..o
                }
            } else if !imports_block_ok(b) {
                &&& cp_restored(n, b)
                &&& applets_restored(n, b)
                &&& n.import_count == b[import_pos(b)]
                &&& imports_partial(n.imports@, b)
                &&& n == Package {
                    aid: n.aid,
                    aid_len: n.aid_len,
                    method_count: n.method_count,
                    methods: n.methods,
                    cp_count: n.cp_count,
                    constant_pool: n.constant_pool,
                    applet_count: n.applet_count,
                    applets: n.applets,
                    import_count: n.import_count,
                    imports: n.imports,
                    ..o
                }
            } else if !exports_block_ok(b) {
                &&& cp_restored(n, b)
                &&& applets_restored(n, b)
                &&& imports_restored(n, b)
                &&& moffs_restored(n, b)
                &&& n.export_count == b[export_pos(b)]
                &&& exports_partial(n.exports@, b)
                &&& n == Package {
                    aid: n.aid,
                    aid_len: n.aid_len,
                    method_count: n.method_count,
                    methods: n.methods,
                    cp_count: n.cp_count,
                    constant_pool: n.constant_pool,
                    applet_count: n.applet_count,
                    applets: n.applets,
                    import_count: n.import_count,
                    imports: n.imports,
                    method_offsets: n.method_offsets,
                    export_count: n.export_count,
                    exports: n.exports,
                    ..o
                }
            } else {
                &&& cp_restored(n, b)
                &&& applets_restored(n, b)
                &&& imports_restored(n, b)
                &&& moffs_restored(n, b)
                &&& exports_restored(n, b)
                &&& n.ref_loc_byte2_count == 0
                &&& forall|i: int|
                    0 <= i < MAX_REF_LOC_BYTE2_INDICES ==> #[trigger] n.ref_loc_byte2_deltas@[i] == 0
                &&& if le16_of(b, refloc_pos(b)) > MAX_REF_LOC_BYTE_INDICES {
                    &&& n.ref_loc_byte_count == 0
                    &&& forall|i: int|
                        0 <= i < MAX_REF_LOC_BYTE_INDICES ==> #[trigger] n.ref_loc_byte_deltas@[i] == 0
                } else {
                    &&& n.ref_loc_byte_count == le16_of(b, refloc_pos(b))
                    &&& forall|i: int|
                        0 <= i < MAX_REF_LOC_BYTE_INDICES ==> #[trigger] n.ref_loc_byte_deltas@[i]
                            == b[refloc_pos(b) + 2 + i]
                }
                &&& n == Package {
                    aid: n.aid,
                    aid_len: n.aid_len,
                    method_count: n.method_count,
                    methods: n.methods,
                    cp_count: n.cp_count,
                    constant_pool: n.constant_pool,
                    applet_count: n.applet_count,
                    applets: n.applets,
                    import_count: n.import_count,
                    imports: n.imports,
                    method_offsets: n.method_offsets,
                    export_count: n.export_count,
                    exports: n.exports,
                    ref_loc_byte_count: n.ref_loc_byte_count,
                    ref_loc_byte_deltas: n.ref_loc_byte_deltas,
                    ref_loc_byte2_count: n.ref_loc_byte2_count,
                    ref_loc_byte2_deltas: n.ref_loc_byte2_deltas,
                    ..o
                }
            }
        }
    }
}


// ---------------------------------------------------------------- restoring

/// `N` bytes of `buf` from `from`.
fn read_bytes<const N: usize>(buf: &[u8], from: usize) -> (r: [u8; N])
    requires
        from + N <= buf@.len(),
    ensures
        forall|i: int| 0 <= i < N ==> #[trigger] r@[i] == buf@[from + i],
{
    let mut out = [0u8; N];
    let mut i: usize = 0;
    while i < N
        invariant
            from + N <= buf.len(),
            i <= N,
            out@.len() == N,
            forall|k: int| 0 <= k < i ==> #[trigger] out@[k] == buf@[from + k],
        decreases N - i,
    {
        out[i] = buf[from + i];
        i = i + 1;
    }
    out
}

/// `N` little-endian u16 values of `buf` from `from`.
fn read_u16s_le<const N: usize>(buf: &[u8], from: usize) -> (r: [u16; N])
    requires
        from + 2 * N <= buf@.len(),
    ensures
        forall|i: int| 0 <= i < N ==> #[trigger] r@[i] == le16_of(buf@, from + 2 * i),
{
    let mut out = [0u16; N];
    let mut i: usize = 0;
    while i < N
        invariant
            from + 2 * N <= buf.len(),
            i <= N,
            out@.len() == N,
            forall|k: int| 0 <= k < i ==> #[trigger] out@[k] == le16_of(buf@, from + 2 * k),
        decreases N - i,
    {
        out[i] = read_le16(buf[from + 2 * i], buf[from + 2 * i + 1]);
        i = i + 1;
    }
    out
}

/// Read the method record at `p` (just after its presence byte): the method and
/// where the record ends, or `None` when it cannot be read.
fn read_method(buf: &[u8], p: usize) -> (r: Option<(MethodInfo, usize)>)
    requires
        p <= buf@.len(),
    ensures
        r is Some <==> mrec_ok(buf@, p as int),
        r matches Some((m, e)) ==> mrec_decodes(m, buf@, p as int) && e == mrec_end(buf@, p as int),
{
    let len = buf.len();
    if len - p < 6 {
        return None;
    }
    let bytecode_len = read_le16(buf[p + 4], buf[p + 5]);
    let n = bytecode_len as usize;
    if n > MAX_BYTECODE || len - p - 6 < n {
        return None;
    }
    let mut bytecode = [0u8; MAX_BYTECODE];
    let mut i: usize = 0;
    while i < n
        invariant
            n <= MAX_BYTECODE,
            p + 6 + n <= buf.len(),
            i <= n,
            forall|k: int| 0 <= k < i ==> #[trigger] bytecode@[k] == buf@[p + 6 + k],
            forall|k: int| n <= k < MAX_BYTECODE ==> #[trigger] bytecode@[k] == 0,
        decreases n - i,
    {
        bytecode[i] = buf[p + 6 + i];
        i = i + 1;
    }
    let mut off = p + 6 + n;
    let mut exception_table: [Option<ExceptionEntry>; MAX_EXCEPTIONS] = [None; MAX_EXCEPTIONS];
    if off < len {
        let c = buf[off] as usize;
        let count = if c > MAX_EXCEPTIONS {
            MAX_EXCEPTIONS
        } else {
            c
        };
        off = off + 1;
        let mut k: usize = 0;
        while k < count
            invariant
                len == buf@.len(),
                p + 6 <= buf@.len(),
                mrec_len(buf@, p as int) <= MAX_BYTECODE,
                count <= MAX_EXCEPTIONS,
                count == mrec_exc_count(buf@, p as int),
                mrec_code_end(buf@, p as int) < buf@.len(),
                off == mrec_exc_start(buf@, p as int) + 8 * k,
                off <= buf.len(),
                k <= count,
                forall|j: int|
                    0 <= j < k ==> #[trigger] exception_table@[j] == Some(
                        exc_entry_at(buf@, mrec_exc_start(buf@, p as int) + 8 * j),
                    ),
                forall|j: int| k <= j < MAX_EXCEPTIONS ==> #[trigger] exception_table@[j] is None,
            decreases count - k,
        {
            if len - off < 8 {
                return None;
            }
            exception_table[k] = Some(
                ExceptionEntry {
                    start_pc: read_le16(buf[off], buf[off + 1]),
                    end_pc: read_le16(buf[off + 2], buf[off + 3]),
                    handler_pc: read_le16(buf[off + 4], buf[off + 5]),
                    catch_type: read_le16(buf[off + 6], buf[off + 7]),
                },
            );
            off = off + 8;
            k = k + 1;
        }
    }
    let mut descriptor_offset: u16 = 0;
    let mut class_offset: u16 = 0;
    if len - off >= 4 {
        descriptor_offset = read_le16(buf[off], buf[off + 1]);
        class_offset = read_le16(buf[off + 2], buf[off + 3]);
        off = off + 4;
    }
    Some(
        (
            MethodInfo {
                flags: buf[p],
                max_stack: buf[p + 1],
                nargs: buf[p + 2],
                max_locals: buf[p + 3],
                bytecode,
                bytecode_len,
                exception_table,
                descriptor_offset,
                class_offset,
            },
            off,
        ),
    )
}


/// The constant pool block at `c`: its entries, count, and where the applet block
/// starts; `None` when the block is malformed.
fn restore_cp(buf: &[u8], c: usize) -> (r: Option<([CpInfo; MAX_CP_ENTRIES], u16, usize)>)
    requires
        c == cp_pos(buf@),
        c <= buf@.len(),
    ensures
        r is Some <==> (has_cp(buf@) ==> cp_count_of(buf@) <= MAX_CP_ENTRIES && cp_pos(buf@) + 2 + 4
            * cp_count_of(buf@) <= buf@.len()),
        r matches Some((cp, n, next)) ==> {
            &&& n == (if has_cp(buf@) {
                cp_count_of(buf@)
            } else {
                0
            })
            &&& next == applet_pos(buf@)
            &&& next <= buf@.len()
            &&& forall|i: int|
                0 <= i < MAX_CP_ENTRIES ==> (if i < n {
                    (#[trigger] cp@[i]).tag == buf@[c + 2 + 4 * i] && cp@[i].info@ == seq![
                        buf@[c + 3 + 4 * i],
                        buf@[c + 4 + 4 * i],
                        buf@[c + 5 + 4 * i],
                    ]
                } else {
                    cp@[i].tag == 0 && cp@[i].info@ == seq![0u8, 0u8, 0u8]
                })
        },
{
    let unused = CpInfo::unused();
    let mut cp = [unused; MAX_CP_ENTRIES];
    if buf.len() - c < 2 {
        return Some((cp, 0, c));
    }
    let count = read_le16(buf[c], buf[c + 1]);
    let n = count as usize;
    if n > MAX_CP_ENTRIES || buf.len() - c - 2 < 4 * n {
        return None;
    }
    let mut i: usize = 0;
    while i < n
        invariant
            n <= MAX_CP_ENTRIES,
            c + 2 + 4 * n <= buf.len(),
            i <= n,
            unused.tag == 0,
            unused.info@ == seq![0u8, 0u8, 0u8],
            forall|k: int|
                0 <= k < i ==> (#[trigger] cp@[k]).tag == buf@[c + 2 + 4 * k] && cp@[k].info@ == seq![
                    buf@[c + 3 + 4 * k],
                    buf@[c + 4 + 4 * k],
                    buf@[c + 5 + 4 * k],
                ],
            forall|k: int| i <= k < MAX_CP_ENTRIES ==> #[trigger] cp@[k] == unused,
        decreases n - i,
    {
        let o = c + 2 + 4 * i;
        cp[i] = CpInfo { tag: buf[o], info: [buf[o + 1], buf[o + 2], buf[o + 3]] };
        assert(cp@[i as int].info@ =~= seq![buf@[o as int + 1], buf@[o as int + 2], buf@[o as int + 3]]);
        i = i + 1;
    }
    Some((cp, count, c + 2 + 4 * n))
}

/// The applet block at `a`: its slots, count, and where the import block starts;
/// `None` when the block is malformed.
fn restore_applets(buf: &[u8], a: usize) -> (r: Result<
    ([Option<AppletInfo>; MAX_APPLETS_PER_PACKAGE], u8, usize),
    [Option<AppletInfo>; MAX_APPLETS_PER_PACKAGE],
>)
    requires
        a == applet_pos(buf@),
        a <= buf@.len(),
        buf@.len() <= isize::MAX,
    ensures
        r is Ok <==> (has_applets(buf@) ==> buf@[a as int] <= MAX_APPLETS_PER_PACKAGE && forall|k: int|
            0 <= k < MAX_APPLETS_PER_PACKAGE ==> #[trigger] aslot_ok(buf@, k)),
        r matches Err(arr) ==> has_applets(buf@) && applets_partial(arr@, buf@),
        r matches Ok((arr, n, next)) ==> {
            &&& n == (if has_applets(buf@) {
                buf@[a as int]
            } else {
                0
            })
            &&& next == import_pos(buf@)
            &&& forall|k: int|
                0 <= k < MAX_APPLETS_PER_PACKAGE ==> (if has_applets(buf@) && buf@[aslot(buf@, k)] != 0 {
                    (#[trigger] arr@[k]) is Some && arr@[k]->0.aid_len == buf@[aslot(buf@, k) + 1]
                        && (forall|i: int|
                        0 <= i < MAX_AID_LEN ==> #[trigger] arr@[k]->0.aid@[i] == buf@[aslot(buf@, k)
                            + 2 + i]) && arr@[k]->0.install_method_offset == le16_of(
                        buf@,
                        aslot(buf@, k) + 18,
                    )
                } else {
                    arr@[k] is None
                })
        },
{
    let mut arr: [Option<AppletInfo>; MAX_APPLETS_PER_PACKAGE] = [None; MAX_APPLETS_PER_PACKAGE];
    if a >= buf.len() {
        return Ok((arr, 0, a));
    }
    let count = buf[a];
    if count as usize > MAX_APPLETS_PER_PACKAGE {
        assert(applets_partial(arr@, buf@));
        return Err(arr);
    }
    let mut k: usize = 0;
    while k < MAX_APPLETS_PER_PACKAGE
        invariant
            buf@[a as int] <= MAX_APPLETS_PER_PACKAGE,
            a == applet_pos(buf@),
            a < buf@.len(),
            buf@.len() <= isize::MAX,
            k <= MAX_APPLETS_PER_PACKAGE,
            forall|j: int| 0 <= j < k ==> #[trigger] aslot_ok(buf@, j),
            forall|j: int|
                0 <= j < k ==> (if buf@[aslot(buf@, j)] != 0 {
                    (#[trigger] arr@[j]) is Some && arr@[j]->0.aid_len == buf@[aslot(buf@, j) + 1]
                        && (forall|i: int|
                        0 <= i < MAX_AID_LEN ==> #[trigger] arr@[j]->0.aid@[i] == buf@[aslot(buf@, j)
                            + 2 + i]) && arr@[j]->0.install_method_offset == le16_of(
                        buf@,
                        aslot(buf@, j) + 18,
                    )
                } else {
                    arr@[j] is None
                }),
            forall|j: int| k <= j < MAX_APPLETS_PER_PACKAGE ==> #[trigger] arr@[j] is None,
        decreases MAX_APPLETS_PER_PACKAGE - k,
    {
        let off = a + 1 + 20 * k;
        if off >= buf.len() {
            assert(!aslot_ok(buf@, k as int));
            proof {
                assert forall|j: int| 0 <= j < MAX_APPLETS_PER_PACKAGE implies (if j < k {
                    applet_slot_restored(#[trigger] arr@[j], buf@, j)
                } else {
                    arr@[j] is None
                }) by {}
                assert(!aslot_ok(buf@, k as int));
            }
            return Err(arr);
        }
        if buf[off] != 0 {
            if buf.len() - off < 20 || buf[off + 1] as usize > MAX_AID_LEN {
                assert(!aslot_ok(buf@, k as int));
                proof {
                    assert forall|j: int| 0 <= j < MAX_APPLETS_PER_PACKAGE implies (if j < k {
                        applet_slot_restored(#[trigger] arr@[j], buf@, j)
                    } else {
                        arr@[j] is None
                    }) by {}
                    assert(!aslot_ok(buf@, k as int));
                }
                return Err(arr);
            }
            let aid: [u8; MAX_AID_LEN] = read_bytes(buf, off + 2);
            arr[k] = Some(
                AppletInfo {
                    aid,
                    aid_len: buf[off + 1],
                    install_method_offset: read_le16(buf[off + 18], buf[off + 19]),
                },
            );
        }
        k = k + 1;
    }
    Ok((arr, count, a + APPLET_BLOCK_SIZE))
}

/// The import block at `i0`: its slots, count, and where the method offsets block
/// starts; `None` when the block is malformed.
fn restore_imports(buf: &[u8], i0: usize) -> (r: Result<
    ([Option<ImportInfo>; MAX_IMPORTS_PER_PACKAGE], u8, usize),
    [Option<ImportInfo>; MAX_IMPORTS_PER_PACKAGE],
>)
    requires
        i0 == import_pos(buf@),
        i0 <= buf@.len() + APPLET_BLOCK_SIZE,
        buf@.len() <= isize::MAX,
    ensures
        r is Ok <==> (has_imports(buf@) ==> buf@[i0 as int] <= MAX_IMPORTS_PER_PACKAGE && forall|k: int|
            0 <= k < MAX_IMPORTS_PER_PACKAGE ==> #[trigger] islot_ok(buf@, k)),
        r matches Err(arr) ==> has_imports(buf@) && imports_partial(arr@, buf@),
        r matches Ok((arr, n, next)) ==> {
            &&& n == (if has_imports(buf@) {
                buf@[i0 as int]
            } else {
                0
            })
            &&& next == moff_pos(buf@)
            &&& forall|k: int|
                0 <= k < MAX_IMPORTS_PER_PACKAGE ==> (if has_imports(buf@) && buf@[islot(buf@, k)] != 0 {
                    (#[trigger] arr@[k]) is Some && arr@[k]->0.minor_version == buf@[islot(buf@, k) + 1]
                        && arr@[k]->0.major_version == buf@[islot(buf@, k) + 2]
                        && arr@[k]->0.aid_len == buf@[islot(buf@, k) + 3] && (forall|i: int|
                        0 <= i < MAX_AID_LEN ==> #[trigger] arr@[k]->0.aid@[i] == buf@[islot(buf@, k)
                            + 4 + i])
                } else {
                    arr@[k] is None
                })
        },
{
    let mut arr: [Option<ImportInfo>; MAX_IMPORTS_PER_PACKAGE] = [None; MAX_IMPORTS_PER_PACKAGE];
    if i0 >= buf.len() {
        return Ok((arr, 0, i0));
    }
    let count = buf[i0];
    if count as usize > MAX_IMPORTS_PER_PACKAGE {
        assert(imports_partial(arr@, buf@));
        return Err(arr);
    }
    let mut k: usize = 0;
    while k < MAX_IMPORTS_PER_PACKAGE
        invariant
            buf@[i0 as int] <= MAX_IMPORTS_PER_PACKAGE,
            i0 == import_pos(buf@),
            i0 < buf@.len(),
            buf@.len() <= isize::MAX,
            k <= MAX_IMPORTS_PER_PACKAGE,
            forall|j: int| 0 <= j < k ==> #[trigger] islot_ok(buf@, j),
            forall|j: int|
                0 <= j < k ==> (if buf@[islot(buf@, j)] != 0 {
                    (#[trigger] arr@[j]) is Some && arr@[j]->0.minor_version == buf@[islot(buf@, j) + 1]
                        && arr@[j]->0.major_version == buf@[islot(buf@, j) + 2]
                        && arr@[j]->0.aid_len == buf@[islot(buf@, j) + 3] && (forall|i: int|
                        0 <= i < MAX_AID_LEN ==> #[trigger] arr@[j]->0.aid@[i] == buf@[islot(buf@, j)
                            + 4 + i])
                } else {
                    arr@[j] is None
                }),
            forall|j: int| k <= j < MAX_IMPORTS_PER_PACKAGE ==> #[trigger] arr@[j] is None,
        decreases MAX_IMPORTS_PER_PACKAGE - k,
    {
        let off = i0 + 1 + 20 * k;
        if off >= buf.len() {
            assert(!islot_ok(buf@, k as int));
            proof {
                assert forall|j: int| 0 <= j < MAX_IMPORTS_PER_PACKAGE implies (if j < k {
                    import_slot_restored(#[trigger] arr@[j], buf@, j)
                } else {
                    arr@[j] is None
                }) by {}
                assert(!islot_ok(buf@, k as int));
            }
            return Err(arr);
        }
        if buf[off] != 0 {
            if buf.len() - off < 20 || buf[off + 3] as usize > MAX_AID_LEN {
                assert(!islot_ok(buf@, k as int));
                proof {
                    assert forall|j: int| 0 <= j < MAX_IMPORTS_PER_PACKAGE implies (if j < k {
                        import_slot_restored(#[trigger] arr@[j], buf@, j)
                    } else {
                        arr@[j] is None
                    }) by {}
                    assert(!islot_ok(buf@, k as int));
                }
                return Err(arr);
            }
            let aid: [u8; MAX_AID_LEN] = read_bytes(buf, off + 4);
            arr[k] = Some(
                ImportInfo {
                    minor_version: buf[off + 1],
                    major_version: buf[off + 2],
                    aid,
                    aid_len: buf[off + 3],
                },
            );
        }
        k = k + 1;
    }
    Ok((arr, count, i0 + IMPORT_BLOCK_SIZE))
}

/// The export block at `e0`: its slots, count, and where the reference-location block
/// starts; `None` when the block is malformed.
fn restore_exports(buf: &[u8], e0: usize) -> (r: Result<
    ([Option<ExportInfo>; MAX_EXPORTED_CLASSES_PER_PACKAGE], u8, usize),
    [Option<ExportInfo>; MAX_EXPORTED_CLASSES_PER_PACKAGE],
>)
    requires
        e0 == export_pos(buf@),
        e0 <= buf@.len() + APPLET_BLOCK_SIZE + IMPORT_BLOCK_SIZE,
        buf@.len() <= isize::MAX,
    ensures
        r is Ok <==> (has_exports(buf@) ==> buf@[e0 as int] <= MAX_EXPORTED_CLASSES_PER_PACKAGE
            && forall|k: int| 0 <= k < MAX_EXPORTED_CLASSES_PER_PACKAGE ==> #[trigger] xslot_ok(buf@, k)),
        r matches Err(arr) ==> has_exports(buf@) && exports_partial(arr@, buf@),
        r matches Ok((arr, n, next)) ==> {
            &&& n == (if has_exports(buf@) {
                buf@[e0 as int]
            } else {
                0
            })
            &&& next == refloc_pos(buf@)
            &&& forall|k: int|
                0 <= k < MAX_EXPORTED_CLASSES_PER_PACKAGE ==> (if has_exports(buf@) && buf@[xslot(
                    buf@,
                    k,
                )] != 0 {
                    (#[trigger] arr@[k]) is Some && arr@[k]->0.class_offset == le16_of(
                        buf@,
                        xslot(buf@, k) + 1,
                    ) && arr@[k]->0.static_field_count == buf@[xslot(buf@, k) + 3]
                        && arr@[k]->0.static_method_count == buf@[xslot(buf@, k) + 4] && (forall|i: int|
                        0 <= i < MAX_EXPORTED_FIELDS_PER_CLASS ==> #[trigger] arr@[k]->0.static_field_offsets@[i]
                            == le16_of(buf@, xslot(buf@, k) + 5 + 2 * i)) && (forall|i: int|
                        0 <= i < MAX_EXPORTED_METHODS_PER_CLASS
                            ==> #[trigger] arr@[k]->0.static_method_offsets@[i] == le16_of(
                            buf@,
                            xslot(buf@, k) + 37 + 2 * i,
                        ))
                } else {
                    arr@[k] is None
                })
        },
{
    let mut arr: [Option<ExportInfo>; MAX_EXPORTED_CLASSES_PER_PACKAGE] = [None;
    MAX_EXPORTED_CLASSES_PER_PACKAGE];
    if e0 >= buf.len() {
        return Ok((arr, 0, e0));
    }
    let count = buf[e0];
    if count as usize > MAX_EXPORTED_CLASSES_PER_PACKAGE {
        assert(exports_partial(arr@, buf@));
        return Err(arr);
    }
    let mut k: usize = 0;
    while k < MAX_EXPORTED_CLASSES_PER_PACKAGE
        invariant
            buf@[e0 as int] <= MAX_EXPORTED_CLASSES_PER_PACKAGE,
            e0 == export_pos(buf@),
            e0 < buf@.len(),
            buf@.len() <= isize::MAX,
            k <= MAX_EXPORTED_CLASSES_PER_PACKAGE,
            forall|j: int| 0 <= j < k ==> #[trigger] xslot_ok(buf@, j),
            forall|j: int|
                0 <= j < k ==> (if buf@[xslot(buf@, j)] != 0 {
                    (#[trigger] arr@[j]) is Some && arr@[j]->0.class_offset == le16_of(
                        buf@,
                        xslot(buf@, j) + 1,
                    ) && arr@[j]->0.static_field_count == buf@[xslot(buf@, j) + 3]
                        && arr@[j]->0.static_method_count == buf@[xslot(buf@, j) + 4] && (forall|i: int|
                        0 <= i < MAX_EXPORTED_FIELDS_PER_CLASS ==> #[trigger] arr@[j]->0.static_field_offsets@[i]
                            == le16_of(buf@, xslot(buf@, j) + 5 + 2 * i)) && (forall|i: int|
                        0 <= i < MAX_EXPORTED_METHODS_PER_CLASS
                            ==> #[trigger] arr@[j]->0.static_method_offsets@[i] == le16_of(
                            buf@,
                            xslot(buf@, j) + 37 + 2 * i,
                        ))
                } else {
                    arr@[j] is None
                }),
            forall|j: int| k <= j < MAX_EXPORTED_CLASSES_PER_PACKAGE ==> #[trigger] arr@[j] is None,
        decreases MAX_EXPORTED_CLASSES_PER_PACKAGE - k,
    {
        let off = e0 + 1 + 69 * k;
        if off >= buf.len() {
            assert(!xslot_ok(buf@, k as int));
            proof {
                assert forall|j: int| 0 <= j < MAX_EXPORTED_CLASSES_PER_PACKAGE implies (if j < k {
                    export_slot_restored(#[trigger] arr@[j], buf@, j)
                } else {
                    arr@[j] is None
                }) by {}
                assert(!xslot_ok(buf@, k as int));
            }
            return Err(arr);
        }
        if buf[off] != 0 {
            if buf.len() - off < 69 || buf[off + 3] as usize > MAX_EXPORTED_FIELDS_PER_CLASS
                || buf[off + 4] as usize > MAX_EXPORTED_METHODS_PER_CLASS {
                assert(!xslot_ok(buf@, k as int));
                proof {
                    assert forall|j: int| 0 <= j < MAX_EXPORTED_CLASSES_PER_PACKAGE implies (if j < k {
                        export_slot_restored(#[trigger] arr@[j], buf@, j)
                    } else {
                        arr@[j] is None
                    }) by {}
                    assert(!xslot_ok(buf@, k as int));
                }
                return Err(arr);
            }
            let fields: [u16; 16] = read_u16s_le(buf, off + 5);
            let methods: [u16; 16] = read_u16s_le(buf, off + 37);
            arr[k] = Some(
                ExportInfo {
                    class_offset: read_le16(buf[off + 1], buf[off + 2]),
                    static_field_count: buf[off + 3],
                    static_method_count: buf[off + 4],
                    static_field_offsets: fields,
                    static_method_offsets: methods,
                },
            );
        }
        k = k + 1;
    }
    Ok((arr, count, e0 + EXPORT_BLOCK_SIZE))
}



impl Package {
    /// A method slot `k` that is the first malformed one leaves [`methods_partial`].
    proof fn lemma_methods_fail(self, p: Package, b: Seq<u8>, k: nat)
        requires
            k < MAX_METHODS,
            !mslot_ok(b, k),
            forall|j: nat| j < k ==> #[trigger] mslot_ok(b, j),
            forall|j: nat|
                j < k ==> (if b[mslot_pos(b, j)] == 0 {
                    #[trigger] p.methods@[j as int] is None
                } else {
                    p.methods@[j as int] is Some && mrec_decodes(
                        p.methods@[j as int]->0,
                        b,
                        mslot_pos(b, j) + 1,
                    )
                }),
            forall|j: int| k <= j < MAX_METHODS ==> #[trigger] p.methods@[j] == self.methods@[j],
        ensures
            methods_partial(p.methods@, self.methods@, b),
            !(forall|j: nat| j < MAX_METHODS ==> #[trigger] mslot_ok(b, j)),
    {
        assert forall|j: nat|
            j < MAX_METHODS implies if j < k {
                method_slot_restored(#[trigger] p.methods@[j as int], b, j)
            } else {
                p.methods@[j as int] == self.methods@[j as int]
            } by {}
        assert(mslot_ok(b, k) == false);
    }
}

impl Package {
    /// Restore the package from a snapshot; `false` (the package untouched) when the
    /// snapshot is malformed. Trailing blocks a snapshot lacks restore as empty; the
    /// static field sizes and the classes are not part of a snapshot and keep their
    /// values.
    pub fn restore_state(&mut self, buf: &[u8]) -> (r: bool)
        requires
            buf@.len() <= isize::MAX,
        ensures
            r == snapshot_ok(buf@),
            r ==> restored(*final(self), buf@),
            r ==> final(self).static_field_image_size == old(self).static_field_image_size
                && final(self).static_reference_count == old(self).static_reference_count
                && final(self).classes == old(self).classes && final(self).class_count == old(
                self,
            ).class_count,
            !r ==> restore_failed(*old(self), *final(self), buf@),
    {
        let len = buf.len();
        if len < 18 {
            return false;
        }
        if buf[0] as usize > MAX_AID_LEN {
            self.aid_len = buf[0];
            return false;
        }
        let mut p = *self;
        p.aid_len = buf[0];
        p.aid = read_bytes(buf, 1);
        p.method_count = buf[17];
        let mut off: usize = 18;
        let mut k: usize = 0;
        while k < MAX_METHODS
            invariant
                len >= 18,
                buf@[0] <= MAX_AID_LEN,
                len == buf@.len(),
                len <= isize::MAX,
                k <= MAX_METHODS,
                off == mslot_pos(buf@, k as nat),
                off <= len,
                forall|j: nat| j < k ==> #[trigger] mslot_ok(buf@, j),
                forall|j: nat|
                    j < k ==> (if buf@[mslot_pos(buf@, j)] == 0 {
                        #[trigger] p.methods@[j as int] is None
                    } else {
                        p.methods@[j as int] is Some && mrec_decodes(
                            p.methods@[j as int]->0,
                            buf@,
                            mslot_pos(buf@, j) + 1,
                        )
                    }),
                p.aid_len == buf@[0],
                forall|i: int| 0 <= i < MAX_AID_LEN ==> #[trigger] p.aid@[i] == buf@[1 + i],
                p.method_count == buf@[17],
                p.static_field_image_size == self.static_field_image_size,
                p.static_reference_count == self.static_reference_count,
                p.classes == self.classes,
                p.class_count == self.class_count,
                *self == *old(self),
                p == (Package {
                    aid: p.aid,
                    aid_len: p.aid_len,
                    method_count: p.method_count,
                    methods: p.methods,
                    ..*old(self)
                }),
                forall|j: int| k <= j < MAX_METHODS ==> #[trigger] p.methods@[j] == old(self).methods@[j],
            decreases MAX_METHODS - k,
        {
            if off >= len {
                assert(!mslot_ok(buf@, k as nat));
                proof { self.lemma_methods_fail(p, buf@, k as nat); }
                *self = p;
                return false;
            }
            if buf[off] == 0 {
                p.methods[k] = None;
                off = off + 1;
            } else {
                match read_method(buf, off + 1) {
                    None => {
                        assert(!mslot_ok(buf@, k as nat));
                        proof { self.lemma_methods_fail(p, buf@, k as nat); }
                        *self = p;
                        return false;
                    },
                    Some((m, e)) => {
                        p.methods[k] = Some(m);
                        off = e;
                    },
                }
            }
            k = k + 1;
        }
        let (cp, cp_count, a) = match restore_cp(buf, off) {
            Some(t) => t,
            None => {
                p.cp_count = 0;
                p.constant_pool = [CpInfo::unused(); MAX_CP_ENTRIES];
                *self = p;
                return false;
            },
        };
        p.constant_pool = cp;
        p.cp_count = cp_count;
        let (applets, applet_count, i0) = match restore_applets(buf, a) {
            Ok(t) => t,
            Err(arr) => {
                p.applet_count = buf[a];
                p.applets = arr;
                *self = p;
                return false;
            },
        };
        p.applets = applets;
        p.applet_count = applet_count;
        let (imports, import_count, mo) = match restore_imports(buf, i0) {
            Ok(t) => t,
            Err(arr) => {
                p.import_count = buf[i0];
                p.imports = arr;
                *self = p;
                return false;
            },
        };
        p.imports = imports;
        p.import_count = import_count;
        let e0 = if mo <= len && len - mo >= METHOD_OFFSETS_BLOCK_SIZE {
            p.method_offsets = read_u16s_le(buf, mo);
            mo + METHOD_OFFSETS_BLOCK_SIZE
        } else {
            p.method_offsets = [0u16; MAX_METHODS];
            mo
        };
        let (exports, export_count, r0) = match restore_exports(buf, e0) {
            Ok(t) => t,
            Err(arr) => {
                p.export_count = buf[e0];
                p.exports = arr;
                *self = p;
                return false;
            },
        };
        p.exports = exports;
        p.export_count = export_count;
        if r0 <= len && len - r0 >= REF_LOC_BLOCK_SIZE {
            let c1 = read_le16(buf[r0], buf[r0 + 1]);
            if c1 as usize > MAX_REF_LOC_BYTE_INDICES {
                p.ref_loc_byte_count = 0;
                p.ref_loc_byte_deltas = [0u8; MAX_REF_LOC_BYTE_INDICES];
                p.ref_loc_byte2_count = 0;
                p.ref_loc_byte2_deltas = [0u8; MAX_REF_LOC_BYTE2_INDICES];
                *self = p;
                return false;
            }
            let d1: [u8; MAX_REF_LOC_BYTE_INDICES] = read_bytes(buf, r0 + 2);
            let c2 = read_le16(buf[r0 + 130], buf[r0 + 131]);
            if c2 as usize > MAX_REF_LOC_BYTE2_INDICES {
                p.ref_loc_byte_count = c1;
                p.ref_loc_byte_deltas = d1;
                p.ref_loc_byte2_count = 0;
                p.ref_loc_byte2_deltas = [0u8; MAX_REF_LOC_BYTE2_INDICES];
                *self = p;
                return false;
            }
            let d2: [u8; MAX_REF_LOC_BYTE2_INDICES] = read_bytes(buf, r0 + 132);
            p.ref_loc_byte_count = c1;
            p.ref_loc_byte_deltas = d1;
            p.ref_loc_byte2_count = c2;
            p.ref_loc_byte2_deltas = d2;
        } else {
            p.ref_loc_byte_count = 0;
            p.ref_loc_byte_deltas = [0u8; MAX_REF_LOC_BYTE_INDICES];
            p.ref_loc_byte2_count = 0;
            p.ref_loc_byte2_deltas = [0u8; MAX_REF_LOC_BYTE2_INDICES];
        }
        *self = p;
        true
    }
}


// ---------------------------------------------------------------- the saved image

/// Bytes written as they are.
pub open spec fn some_bytes(s: Seq<u8>) -> Seq<Option<u8>> {
    Seq::new(s.len(), |i: int| Some(s[i]))
}

/// A little-endian u16.
pub open spec fn le16_img(v: u16) -> Seq<Option<u8>> {
    seq![Some(lo8(v)), Some(hi8(v))]
}

/// `n` bytes the save skips (the buffer keeps what it held there).
pub open spec fn gap(n: nat) -> Seq<Option<u8>> {
    Seq::new(n, |i: int| None)
}

/// The exception entries a table holds, in slot order.
pub open spec fn exc_entries(t: Seq<Option<ExceptionEntry>>) -> Seq<ExceptionEntry>
    decreases t.len(),
{
    if t.len() == 0 {
        Seq::empty()
    } else {
        match t.last() {
            Some(e) => exc_entries(t.drop_last()).push(e),
            None => exc_entries(t.drop_last()),
        }
    }
}

/// One exception entry: start, end, handler and catch type, each little-endian.
pub open spec fn exc_img(e: ExceptionEntry) -> Seq<Option<u8>> {
    le16_img(e.start_pc) + le16_img(e.end_pc) + le16_img(e.handler_pc) + le16_img(e.catch_type)
}

/// A run of exception entries.
pub open spec fn excs_img(es: Seq<ExceptionEntry>) -> Seq<Option<u8>>
    decreases es.len(),
{
    if es.len() == 0 {
        Seq::empty()
    } else {
        excs_img(es.drop_last()) + exc_img(es.last())
    }
}

/// One method slot.
pub open spec fn method_img(slot: Option<MethodInfo>) -> Seq<Option<u8>> {
    match slot {
        None => seq![Some(0u8)],
        Some(m) => seq![Some(1u8), Some(m.flags), Some(m.max_stack), Some(m.nargs), Some(m.max_locals)]
            + le16_img(m.bytecode_len) + some_bytes(m.bytecode@.subrange(0, m.bytecode_len as int))
            + seq![Some(exc_entries(m.exception_table@).len() as u8)] + excs_img(
            exc_entries(m.exception_table@),
        ) + le16_img(m.descriptor_offset) + le16_img(m.class_offset),
    }
}

/// A run of method slots.
pub open spec fn methods_img(ms: Seq<Option<MethodInfo>>) -> Seq<Option<u8>>
    decreases ms.len(),
{
    if ms.len() == 0 {
        Seq::empty()
    } else {
        methods_img(ms.drop_last()) + method_img(ms.last())
    }
}

/// A run of constant pool entries (tag, then the 3 payload bytes).
pub open spec fn cp_img(cp: Seq<CpInfo>) -> Seq<Option<u8>>
    decreases cp.len(),
{
    if cp.len() == 0 {
        Seq::empty()
    } else {
        cp_img(cp.drop_last()) + seq![
            Some(cp.last().tag),
            Some(cp.last().info@[0]),
            Some(cp.last().info@[1]),
            Some(cp.last().info@[2]),
        ]
    }
}

/// One applet slot (an absent one leaves its 19 payload bytes alone).
pub open spec fn applet_img(slot: Option<AppletInfo>) -> Seq<Option<u8>> {
    match slot {
        None => seq![Some(0u8)] + gap(19),
        Some(a) => seq![Some(1u8), Some(a.aid_len)] + some_bytes(a.aid@) + le16_img(
            a.install_method_offset,
        ),
    }
}

/// A run of applet slots.
pub open spec fn applets_img(s: Seq<Option<AppletInfo>>) -> Seq<Option<u8>>
    decreases s.len(),
{
    if s.len() == 0 {
        Seq::empty()
    } else {
        applets_img(s.drop_last()) + applet_img(s.last())
    }
}

/// One import slot (an absent one leaves its 19 payload bytes alone).
pub open spec fn import_img(slot: Option<ImportInfo>) -> Seq<Option<u8>> {
    match slot {
        None => seq![Some(0u8)] + gap(19),
        Some(i) => seq![Some(1u8), Some(i.minor_version), Some(i.major_version), Some(i.aid_len)]
            + some_bytes(i.aid@),
    }
}

/// A run of import slots.
pub open spec fn imports_img(s: Seq<Option<ImportInfo>>) -> Seq<Option<u8>>
    decreases s.len(),
{
    if s.len() == 0 {
        Seq::empty()
    } else {
        imports_img(s.drop_last()) + import_img(s.last())
    }
}

/// A run of little-endian u16 values.
pub open spec fn u16s_img(s: Seq<u16>) -> Seq<Option<u8>>
    decreases s.len(),
{
    if s.len() == 0 {
        Seq::empty()
    } else {
        u16s_img(s.drop_last()) + le16_img(s.last())
    }
}

/// One export slot (an absent one leaves its 68 payload bytes alone).
pub open spec fn export_img(slot: Option<ExportInfo>) -> Seq<Option<u8>> {
    match slot {
        None => seq![Some(0u8)] + gap(68),
        Some(e) => seq![Some(1u8)] + le16_img(e.class_offset) + seq![
            Some(e.static_field_count),
            Some(e.static_method_count),
        ] + u16s_img(e.static_field_offsets@) + u16s_img(e.static_method_offsets@),
    }
}

/// A run of export slots.
pub open spec fn exports_img(s: Seq<Option<ExportInfo>>) -> Seq<Option<u8>>
    decreases s.len(),
{
    if s.len() == 0 {
        Seq::empty()
    } else {
        exports_img(s.drop_last()) + export_img(s.last())
    }
}

/// What [`Package::save_state`] writes: `Some(b)` where it writes `b`, `None` where it
/// leaves the buffer's byte as it was.
pub open spec fn snapshot_image(p: Package) -> Seq<Option<u8>> {
    seq![Some(p.aid_len)] + some_bytes(p.aid@) + seq![Some(p.method_count)] + methods_img(
        p.methods@,
    ) + le16_img(p.cp_count) + cp_img(p.constant_pool@.subrange(0, p.cp_count as int)) + seq![
        Some(p.applet_count),
    ] + applets_img(p.applets@) + seq![Some(p.import_count)] + imports_img(p.imports@) + u16s_img(
        p.method_offsets@,
    ) + seq![Some(p.export_count)] + exports_img(p.exports@) + le16_img(p.ref_loc_byte_count)
        + some_bytes(p.ref_loc_byte_deltas@) + le16_img(p.ref_loc_byte2_count) + some_bytes(
        p.ref_loc_byte2_deltas@,
    )
}

/// `b` is `old` with the image `img` written over its first bytes.
pub open spec fn written(b: Seq<u8>, old: Seq<u8>, img: Seq<Option<u8>>) -> bool {
    &&& b.len() == old.len()
    &&& img.len() <= old.len()
    &&& forall|i: int|
        0 <= i < old.len() ==> #[trigger] b[i] == (if i < img.len() && img[i] is Some {
            img[i]->0
        } else {
            old[i]
        })
}

/// Whether a package can be saved: every method's bytecode length is within the
/// bytecode array, and the constant pool count within the pool.
pub open spec fn saveable(p: Package) -> bool {
    &&& p.cp_count <= MAX_CP_ENTRIES
    &&& forall|k: int|
        0 <= k < MAX_METHODS ==> (#[trigger] p.methods@[k] matches Some(m) ==> m.bytecode_len
            <= MAX_BYTECODE)
}


// ---------------------------------------------------------------- image lengths

pub(crate) proof fn lemma_exc_entries_len(t: Seq<Option<ExceptionEntry>>)
    ensures
        exc_entries(t).len() <= t.len(),
    decreases t.len(),
{
    if t.len() > 0 {
        lemma_exc_entries_len(t.drop_last());
    }
}

pub(crate) proof fn lemma_excs_img_len(es: Seq<ExceptionEntry>)
    ensures
        excs_img(es).len() == 8 * es.len(),
    decreases es.len(),
{
    if es.len() > 0 {
        lemma_excs_img_len(es.drop_last());
    }
}

/// The length of a method slot's image.
pub open spec fn method_img_len(slot: Option<MethodInfo>) -> int {
    match slot {
        None => 1,
        Some(m) => 12 + m.bytecode_len + 8 * exc_entries(m.exception_table@).len(),
    }
}

pub(crate) proof fn lemma_method_img_len(slot: Option<MethodInfo>)
    requires
        slot matches Some(m) ==> m.bytecode_len <= MAX_BYTECODE,
    ensures
        method_img(slot).len() == method_img_len(slot),
{
    if let Some(m) = slot {
        lemma_excs_img_len(exc_entries(m.exception_table@));
    }
}

/// The summed image length of a run of method slots.
pub open spec fn methods_img_len(ms: Seq<Option<MethodInfo>>) -> int
    decreases ms.len(),
{
    if ms.len() == 0 {
        0
    } else {
        methods_img_len(ms.drop_last()) + method_img_len(ms.last())
    }
}

pub(crate) proof fn lemma_methods_img_len(ms: Seq<Option<MethodInfo>>)
    requires
        forall|k: int| 0 <= k < ms.len() ==> (#[trigger] ms[k] matches Some(m) ==> m.bytecode_len
            <= MAX_BYTECODE),
    ensures
        methods_img(ms).len() == methods_img_len(ms),
    decreases ms.len(),
{
    if ms.len() > 0 {
        lemma_methods_img_len(ms.drop_last());
        lemma_method_img_len(ms.last());
    }
}

pub(crate) proof fn lemma_cp_img_len(cp: Seq<CpInfo>)
    ensures
        cp_img(cp).len() == 4 * cp.len(),
    decreases cp.len(),
{
    if cp.len() > 0 {
        lemma_cp_img_len(cp.drop_last());
    }
}

pub(crate) proof fn lemma_applets_img_len(s: Seq<Option<AppletInfo>>)
    ensures
        applets_img(s).len() == 20 * s.len(),
    decreases s.len(),
{
    if s.len() > 0 {
        lemma_applets_img_len(s.drop_last());
    }
}

pub(crate) proof fn lemma_imports_img_len(s: Seq<Option<ImportInfo>>)
    ensures
        imports_img(s).len() == 20 * s.len(),
    decreases s.len(),
{
    if s.len() > 0 {
        lemma_imports_img_len(s.drop_last());
    }
}

pub(crate) proof fn lemma_u16s_img_len(s: Seq<u16>)
    ensures
        u16s_img(s).len() == 2 * s.len(),
    decreases s.len(),
{
    if s.len() > 0 {
        lemma_u16s_img_len(s.drop_last());
    }
}

pub(crate) proof fn lemma_exports_img_len(s: Seq<Option<ExportInfo>>)
    requires
        forall|k: int| 0 <= k < s.len() ==> (#[trigger] s[k] matches Some(e) ==> e.static_field_offsets@.len() == 16 && e.static_method_offsets@.len() == 16),
    ensures
        exports_img(s).len() == 69 * s.len(),
    decreases s.len(),
{
    if s.len() > 0 {
        lemma_exports_img_len(s.drop_last());
        if let Some(e) = s.last() {
            lemma_u16s_img_len(e.static_field_offsets@);
            lemma_u16s_img_len(e.static_method_offsets@);
        }
    }
}

/// The length of a package's snapshot image.
pub open spec fn snapshot_len(p: Package) -> int {
    18 + methods_img_len(p.methods@) + 2 + 4 * p.cp_count + APPLET_BLOCK_SIZE + IMPORT_BLOCK_SIZE
        + METHOD_OFFSETS_BLOCK_SIZE + EXPORT_BLOCK_SIZE + REF_LOC_BLOCK_SIZE
}

pub(crate) proof fn lemma_snapshot_len(p: Package)
    requires
        saveable(p),
    ensures
        snapshot_image(p).len() == snapshot_len(p),
{
    lemma_methods_img_len(p.methods@);
    lemma_cp_img_len(p.constant_pool@.subrange(0, p.cp_count as int));
    lemma_applets_img_len(p.applets@);
    lemma_imports_img_len(p.imports@);
    lemma_u16s_img_len(p.method_offsets@);
    lemma_exports_img_len(p.exports@);
}


// ---------------------------------------------------------------- where a short save stops

/// Where method slot `k` of `p`'s image starts.
pub open spec fn mslot_start(p: Package, k: int) -> int {
    18 + methods_img_len(p.methods@.subrange(0, k))
}

/// How much of the image [`Package::save_state`] has written when the blocks after the
/// method slots do not all fit in `len` bytes: it checks each block's room before
/// writing it, and stops at the first that does not fit.
pub open spec fn save_stop_blocks(p: Package, len: int) -> int {
    let c = 18 + methods_img_len(p.methods@);
    let a = c + 2 + 4 * p.cp_count;
    let i = a + APPLET_BLOCK_SIZE;
    let mo = i + IMPORT_BLOCK_SIZE;
    let e = mo + METHOD_OFFSETS_BLOCK_SIZE;
    let rl = e + EXPORT_BLOCK_SIZE;
    if a > len {
        c
    } else if i > len {
        a
    } else if mo > len {
        i
    } else if e > len {
        mo
    } else if rl > len {
        e
    } else {
        rl
    }
}

/// How much of the image [`Package::save_state`] has written into `len` bytes when it
/// gives up, looking at method slots from `k` on: a slot that starts at or past the end
/// stops it there; a present slot whose header, bytecode and room for a full exception
/// table and the offsets (69 bytes) do not fit stops it after its 7 header bytes.
pub open spec fn save_stop_from(p: Package, len: int, k: nat) -> int
    decreases MAX_METHODS - k,
{
    if k >= MAX_METHODS {
        save_stop_blocks(p, len)
    } else {
        let pos = mslot_start(p, k as int);
        if pos >= len {
            pos
        } else if p.methods@[k as int] is Some && pos + 76 + p.methods@[k as int]->0.bytecode_len > len {
            pos + 7
        } else {
            save_stop_from(p, len, (k + 1) as nat)
        }
    }
}

/// How much of the image a save into `len` bytes that gives up has written: nothing
/// below 18 bytes.
pub open spec fn save_stop(p: Package, len: int) -> int {
    if len < 18 {
        0
    } else {
        save_stop_from(p, len, 0)
    }
}

/// Whether saving into `len` bytes reaches, from slot `k` on, a present method slot whose
/// 7 header bytes run past the end.
pub open spec fn save_overruns_from(p: Package, len: int, k: nat) -> bool
    decreases MAX_METHODS - k,
{
    if k >= MAX_METHODS {
        false
    } else {
        let pos = mslot_start(p, k as int);
        if pos >= len {
            false
        } else if p.methods@[k as int] is Some {
            if pos + 7 > len {
                true
            } else if pos + 76 + p.methods@[k as int]->0.bytecode_len > len {
                false
            } else {
                save_overruns_from(p, len, (k + 1) as nat)
            }
        } else {
            save_overruns_from(p, len, (k + 1) as nat)
        }
    }
}

/// A save into a buffer too short for the whole image stops within the buffer.
pub(crate) proof fn lemma_save_stop_bound(p: Package, len: int)
    requires
        saveable(p),
        0 <= len,
        len >= 18 ==> !save_overruns_from(p, len, 0),
    ensures
        0 <= save_stop(p, len) <= len,
{
    if len >= 18 {
        lemma_save_stop_from_bound(p, len, 0);
    }
}

proof fn lemma_save_stop_from_bound(p: Package, len: int, k: nat)
    requires
        saveable(p),
        k <= MAX_METHODS,
        0 <= mslot_start(p, k as int) <= len,
        !save_overruns_from(p, len, k),
    ensures
        0 <= save_stop_from(p, len, k) <= len,
    decreases MAX_METHODS - k,
{
    if k < MAX_METHODS {
        let pos = mslot_start(p, k as int);
        lemma_methods_step(p.methods@, k as int);
        if pos < len {
            if p.methods@[k as int] is Some && pos + 76 + p.methods@[k as int]->0.bytecode_len > len {
            } else {
                if let Some(m) = p.methods@[k as int] {
                    lemma_exc_entries_len(m.exception_table@);
                }
                lemma_save_stop_from_bound(p, len, k + 1);
            }
        }
    } else {
        assert(p.methods@.subrange(0, MAX_METHODS as int) =~= p.methods@);
    }
}

/// The method slot images split anywhere.
pub(crate) proof fn lemma_methods_img_split(s: Seq<Option<MethodInfo>>, k: int)
    requires
        0 <= k <= s.len(),
    ensures
        methods_img(s) == methods_img(s.subrange(0, k)) + methods_img(s.subrange(k, s.len() as int)),
    decreases s.len(),
{
    if k == s.len() {
        assert(s.subrange(0, k) =~= s);
        assert(s.subrange(k, s.len() as int) =~= Seq::<Option<MethodInfo>>::empty());
        assert(methods_img(s) + Seq::<Option<u8>>::empty() =~= methods_img(s));
    } else {
        let s0 = s.drop_last();
        lemma_methods_img_split(s0, k);
        assert(s0.subrange(0, k) =~= s.subrange(0, k));
        let t = s.subrange(k, s.len() as int);
        assert(t.drop_last() =~= s0.subrange(k, s0.len() as int));
        assert(t.last() == s.last());
        assert(methods_img(s) =~= methods_img(s.subrange(0, k)) + methods_img(t));
    }
}

/// A buffer of at least the image's length never overruns a method header.
pub(crate) proof fn lemma_no_overrun(p: Package, len: int, k: nat)
    requires
        saveable(p),
        len >= snapshot_len(p),
        k <= MAX_METHODS,
    ensures
        !save_overruns_from(p, len, k),
    decreases MAX_METHODS - k,
{
    if k < MAX_METHODS {
        lemma_methods_step(p.methods@, k as int);
        lemma_methods_len_mono(p.methods@, k + 1 as int);
        lemma_no_overrun(p, len, (k + 1) as nat);
    }
}

/// A save that finds method slot `k` starting at or past the end of the buffer stops
/// there, with the header and the slots before `k` written.
proof fn lemma_save_stop_methods(p: Package, c2: Seq<Option<u8>>, k: int, len: int)
    requires
        saveable(p),
        0 <= k < MAX_METHODS,
        len >= 18,
        c2 == seq![Some(p.aid_len)] + some_bytes(p.aid@) + seq![Some(p.method_count)],
        save_stop(p, len) == save_stop_from(p, len, k as nat),
        mslot_start(p, k) >= len,
    ensures
        save_stop(p, len) == mslot_start(p, k),
        len < snapshot_len(p),
        snapshot_image(p).subrange(0, mslot_start(p, k)) == c2 + methods_img(p.methods@.subrange(0, k)),
{
    lemma_snapshot_len(p);
    lemma_methods_step(p.methods@, k);
    lemma_methods_len_mono(p.methods@, k + 1);
    lemma_methods_img_split(p.methods@, k);
    lemma_methods_img_len(p.methods@.subrange(0, k));
    lemma_methods_img_len(p.methods@);
    let x = c2 + methods_img(p.methods@);
    assert(snapshot_image(p).subrange(0, x.len() as int) =~= x);
    assert(x.subrange(0, mslot_start(p, k)) =~= c2 + methods_img(p.methods@.subrange(0, k)));
    assert(snapshot_image(p).subrange(0, mslot_start(p, k)) =~= x.subrange(0, mslot_start(p, k)));
}

/// A save whose present method slot `k` does not leave room for its bytecode, a full
/// exception table and the offsets stops after the slot's 7 header bytes.
#[verifier::rlimit(40)]
proof fn lemma_save_stop_header(p: Package, c2: Seq<Option<u8>>, k: int, len: int)
    requires
        saveable(p),
        0 <= k < MAX_METHODS,
        len >= 18,
        c2 == seq![Some(p.aid_len)] + some_bytes(p.aid@) + seq![Some(p.method_count)],
        save_stop(p, len) == save_stop_from(p, len, k as nat),
        mslot_start(p, k) < len,
        p.methods@[k] is Some,
        mslot_start(p, k) + 76 + p.methods@[k]->0.bytecode_len > len,
    ensures
        save_stop(p, len) == mslot_start(p, k) + 7,
        len < snapshot_len(p),
        snapshot_image(p).subrange(0, mslot_start(p, k) + 7) == c2 + methods_img(p.methods@.subrange(0, k))
            + method_img(p.methods@[k]).subrange(0, 7),
{
    lemma_snapshot_len(p);
    lemma_methods_step(p.methods@, k);
    lemma_methods_len_mono(p.methods@, k + 1);
    lemma_methods_img_split(p.methods@, k + 1);
    lemma_methods_img_len(p.methods@.subrange(0, k));
    lemma_methods_img_len(p.methods@.subrange(0, k + 1));
    lemma_methods_img_len(p.methods@);
    lemma_exc_entries_len(p.methods@[k]->0.exception_table@);
    let x = c2 + methods_img(p.methods@);
    let y = c2 + methods_img(p.methods@.subrange(0, k)) + method_img(p.methods@[k]);
    assert(snapshot_image(p).subrange(0, x.len() as int) =~= x);
    assert(x.subrange(0, y.len() as int) =~= y);
    assert(y.subrange(0, mslot_start(p, k) + 7) =~= c2 + methods_img(p.methods@.subrange(0, k))
        + method_img(p.methods@[k]).subrange(0, 7));
    assert(snapshot_image(p).subrange(0, mslot_start(p, k) + 7) =~= y.subrange(0, mslot_start(p, k) + 7));
}

// ---------------------------------------------------------------- saving

pub(crate) proof fn lemma_methods_step(s: Seq<Option<MethodInfo>>, k: int)
    requires
        0 <= k < s.len(),
    ensures
        methods_img(s.subrange(0, k + 1)) == methods_img(s.subrange(0, k)) + method_img(s[k]),
        methods_img_len(s.subrange(0, k + 1)) == methods_img_len(s.subrange(0, k)) + method_img_len(s[k]),
{
    assert(s.subrange(0, k + 1).drop_last() =~= s.subrange(0, k));
}

pub(crate) proof fn lemma_excs_step(t: Seq<Option<ExceptionEntry>>, k: int)
    requires
        0 <= k < t.len(),
    ensures
        exc_entries(t.subrange(0, k + 1)) == (match t[k] {
            Some(e) => exc_entries(t.subrange(0, k)).push(e),
            None => exc_entries(t.subrange(0, k)),
        }),
{
    assert(t.subrange(0, k + 1).drop_last() =~= t.subrange(0, k));
}

pub(crate) proof fn lemma_excs_img_push(es: Seq<ExceptionEntry>, e: ExceptionEntry)
    ensures
        excs_img(es.push(e)) == excs_img(es) + exc_img(e),
{
    assert(es.push(e).drop_last() =~= es);
}

pub(crate) proof fn lemma_cp_step(s: Seq<CpInfo>, k: int)
    requires
        0 <= k < s.len(),
    ensures
        cp_img(s.subrange(0, k + 1)) == cp_img(s.subrange(0, k)) + seq![
            Some(s[k].tag),
            Some(s[k].info@[0]),
            Some(s[k].info@[1]),
            Some(s[k].info@[2]),
        ],
{
    assert(s.subrange(0, k + 1).drop_last() =~= s.subrange(0, k));
}

pub(crate) proof fn lemma_applets_step(s: Seq<Option<AppletInfo>>, k: int)
    requires
        0 <= k < s.len(),
    ensures
        applets_img(s.subrange(0, k + 1)) == applets_img(s.subrange(0, k)) + applet_img(s[k]),
{
    assert(s.subrange(0, k + 1).drop_last() =~= s.subrange(0, k));
}

pub(crate) proof fn lemma_imports_step(s: Seq<Option<ImportInfo>>, k: int)
    requires
        0 <= k < s.len(),
    ensures
        imports_img(s.subrange(0, k + 1)) == imports_img(s.subrange(0, k)) + import_img(s[k]),
{
    assert(s.subrange(0, k + 1).drop_last() =~= s.subrange(0, k));
}

pub(crate) proof fn lemma_exports_step(s: Seq<Option<ExportInfo>>, k: int)
    requires
        0 <= k < s.len(),
    ensures
        exports_img(s.subrange(0, k + 1)) == exports_img(s.subrange(0, k)) + export_img(s[k]),
{
    assert(s.subrange(0, k + 1).drop_last() =~= s.subrange(0, k));
}

pub(crate) proof fn lemma_u16s_step(s: Seq<u16>, k: int)
    requires
        0 <= k < s.len(),
    ensures
        u16s_img(s.subrange(0, k + 1)) == u16s_img(s.subrange(0, k)) + le16_img(s[k]),
{
    assert(s.subrange(0, k + 1).drop_last() =~= s.subrange(0, k));
}

pub(crate) proof fn lemma_written_gap(b: Seq<u8>, o: Seq<u8>, img: Seq<Option<u8>>, n: nat)
    requires
        written(b, o, img),
        img.len() + n <= o.len(),
    ensures
        written(b, o, img + gap(n)),
{
    assert forall|i: int| 0 <= i < o.len() implies #[trigger] b[i] == (if i < (img + gap(n)).len()
        && (img + gap(n))[i] is Some {
        (img + gap(n))[i]->0
    } else {
        o[i]
    }) by {
        if i >= img.len() && i < img.len() + n {
            assert((img + gap(n))[i] is None);
        }
    }
}

/// Write one byte at `off`, the end of what was written so far.
pub(crate) fn put(buf: &mut [u8], off: usize, v: u8, Ghost(o): Ghost<Seq<u8>>, Ghost(img): Ghost<Seq<Option<u8>>>)
    requires
        o.len() <= isize::MAX,
        written(old(buf)@, o, img),
        off == img.len(),
        off < o.len(),
    ensures
        written(final(buf)@, o, img.push(Some(v))),
{
    buf[off] = v;
    assert forall|i: int| 0 <= i < o.len() implies #[trigger] buf@[i] == (if i < img.push(Some(v)).len()
        && img.push(Some(v))[i] is Some {
        img.push(Some(v))[i]->0
    } else {
        o[i]
    }) by {}
}

/// Write a little-endian u16 at `off`.
fn put_le16(buf: &mut [u8], off: usize, v: u16, Ghost(o): Ghost<Seq<u8>>, Ghost(img): Ghost<Seq<Option<u8>>>)
    requires
        o.len() <= isize::MAX,
        written(old(buf)@, o, img),
        off == img.len(),
        off + 2 <= o.len(),
    ensures
        written(final(buf)@, o, img + le16_img(v)),
{
    put(buf, off, crate::bytes::low_byte(v), Ghost(o), Ghost(img));
    put(buf, off + 1, crate::bytes::high_byte(v), Ghost(o), Ghost(img.push(Some(lo8(v)))));
    assert(img.push(Some(lo8(v))).push(Some(hi8(v))) =~= img + le16_img(v));
}

/// Write `src[..n]` at `off`.
pub(crate) fn put_bytes(buf: &mut [u8], off: usize, src: &[u8], n: usize, Ghost(o): Ghost<Seq<u8>>, Ghost(img): Ghost<Seq<Option<u8>>>)
    requires
        o.len() <= isize::MAX,
        written(old(buf)@, o, img),
        off == img.len(),
        off + n <= o.len(),
        n <= src@.len(),
    ensures
        written(final(buf)@, o, img + some_bytes(src@.subrange(0, n as int))),
{
    let mut i: usize = 0;
    while i < n
        invariant
            written(buf@, o, img + some_bytes(src@.subrange(0, i as int))),
            o.len() <= isize::MAX,
            off == img.len(),
            off + n <= o.len(),
            n <= src@.len(),
            i <= n,
        decreases n - i,
    {
        let ghost cur = img + some_bytes(src@.subrange(0, i as int));
        put(buf, off + i, src[i], Ghost(o), Ghost(cur));
        assert(cur.push(Some(src@[i as int])) =~= img + some_bytes(src@.subrange(0, i + 1)));
        i = i + 1;
    }
}

/// Write method slot `slot` at `off`; gives where it ends.
fn put_method(buf: &mut [u8], off: usize, slot: &Option<MethodInfo>, Ghost(o): Ghost<Seq<u8>>, Ghost(img): Ghost<Seq<Option<u8>>>) -> (r: usize)
    requires
        o.len() <= isize::MAX,
        written(old(buf)@, o, img),
        off == img.len(),
        off + method_img_len(*slot) <= o.len(),
        slot matches Some(m) ==> m.bytecode_len <= MAX_BYTECODE,
    ensures
        written(final(buf)@, o, img + method_img(*slot)),
        r == off + method_img_len(*slot),
{
    match slot {
        None => {
            put(buf, off, 0, Ghost(o), Ghost(img));
            assert(img.push(Some(0u8)) =~= img + method_img(*slot));
            off + 1
        },
        Some(m) => {
            proof {
                lemma_exc_entries_len(m.exception_table@);
            }
            let mut count: u8 = 0;
            let mut j: usize = 0;
            while j < MAX_EXCEPTIONS
                invariant
                    j <= MAX_EXCEPTIONS,
                    count == exc_entries(m.exception_table@.subrange(0, j as int)).len(),
                    count <= j,
                decreases MAX_EXCEPTIONS - j,
            {
                proof {
                    lemma_excs_step(m.exception_table@, j as int);
                }
                if m.exception_table[j].is_some() {
                    count = count + 1;
                }
                j = j + 1;
            }
            assert(m.exception_table@.subrange(0, MAX_EXCEPTIONS as int) =~= m.exception_table@);
            let ghost head = seq![Some(1u8), Some(m.flags), Some(m.max_stack), Some(m.nargs), Some(m.max_locals)];
            put(buf, off, 1, Ghost(o), Ghost(img));
            put(buf, off + 1, m.flags, Ghost(o), Ghost(img.push(Some(1u8))));
            put(buf, off + 2, m.max_stack, Ghost(o), Ghost(img.push(Some(1u8)).push(Some(m.flags))));
            put(buf, off + 3, m.nargs, Ghost(o), Ghost(img.push(Some(1u8)).push(Some(m.flags)).push(Some(m.max_stack))));
            put(buf, off + 4, m.max_locals, Ghost(o), Ghost(img.push(Some(1u8)).push(Some(m.flags)).push(Some(m.max_stack)).push(Some(m.nargs))));
            assert(img.push(Some(1u8)).push(Some(m.flags)).push(Some(m.max_stack)).push(Some(m.nargs)).push(Some(m.max_locals)) =~= img + head);
            let ghost c1 = img + head;
            put_le16(buf, off + 5, m.bytecode_len, Ghost(o), Ghost(c1));
            let ghost c2 = c1 + le16_img(m.bytecode_len);
            let n = m.bytecode_len as usize;
            put_bytes(buf, off + 7, m.bytecode.as_slice(), n, Ghost(o), Ghost(c2));
            let ghost c3 = c2 + some_bytes(m.bytecode@.subrange(0, n as int));
            put(buf, off + 7 + n, count, Ghost(o), Ghost(c3));
            let ghost c4 = c3.push(Some(count));
            let mut pos = off + 8 + n;
            let mut k: usize = 0;
            while k < MAX_EXCEPTIONS
                invariant
                    written(buf@, o, c4 + excs_img(exc_entries(m.exception_table@.subrange(0, k as int)))),
                    c4.len() == off + 8 + n,
                    pos == off + 8 + n + 8 * exc_entries(m.exception_table@.subrange(0, k as int)).len(),
                    k <= MAX_EXCEPTIONS,
                    exc_entries(m.exception_table@.subrange(0, k as int)).len() <= exc_entries(m.exception_table@).len() || k <= MAX_EXCEPTIONS,
                    off + method_img_len(*slot) <= o.len(),
                    o.len() <= isize::MAX,
                    *slot == Some(*m),
                    n == m.bytecode_len,
                decreases MAX_EXCEPTIONS - k,
            {
                proof {
                    lemma_excs_step(m.exception_table@, k as int);
                    lemma_excs_img_len(exc_entries(m.exception_table@.subrange(0, k as int)));
                    lemma_exc_entries_count_mono(m.exception_table@, k as int);
                    lemma_exc_entries_count_mono(m.exception_table@, k + 1);
                }
                if let Some(e) = m.exception_table[k] {
                    let ghost base = c4 + excs_img(exc_entries(m.exception_table@.subrange(0, k as int)));
                    put_le16(buf, pos, e.start_pc, Ghost(o), Ghost(base));
                    put_le16(buf, pos + 2, e.end_pc, Ghost(o), Ghost(base + le16_img(e.start_pc)));
                    put_le16(buf, pos + 4, e.handler_pc, Ghost(o), Ghost(base + le16_img(e.start_pc) + le16_img(e.end_pc)));
                    put_le16(buf, pos + 6, e.catch_type, Ghost(o), Ghost(base + le16_img(e.start_pc) + le16_img(e.end_pc) + le16_img(e.handler_pc)));
                    proof {
                        lemma_excs_img_push(exc_entries(m.exception_table@.subrange(0, k as int)), e);
                        assert(base + le16_img(e.start_pc) + le16_img(e.end_pc) + le16_img(e.handler_pc) + le16_img(e.catch_type)
                            =~= c4 + excs_img(exc_entries(m.exception_table@.subrange(0, k + 1))));
                    }
                    pos = pos + 8;
                }
                k = k + 1;
            }
            proof {
                assert(m.exception_table@.subrange(0, MAX_EXCEPTIONS as int) =~= m.exception_table@);
                lemma_excs_img_len(exc_entries(m.exception_table@));
            }
            let ghost c5 = c4 + excs_img(exc_entries(m.exception_table@));
            put_le16(buf, pos, m.descriptor_offset, Ghost(o), Ghost(c5));
            put_le16(buf, pos + 2, m.class_offset, Ghost(o), Ghost(c5 + le16_img(m.descriptor_offset)));
            assert(c5 + le16_img(m.descriptor_offset) + le16_img(m.class_offset) =~= img + method_img(*slot));
            pos + 4
        },
    }
}

pub(crate) proof fn lemma_exc_entries_count_mono(t: Seq<Option<ExceptionEntry>>, k: int)
    requires
        0 <= k <= t.len(),
    ensures
        exc_entries(t.subrange(0, k)).len() <= exc_entries(t).len(),
    decreases t.len() - k,
{
    if k < t.len() {
        lemma_excs_step(t, k);
        lemma_exc_entries_count_mono(t, k + 1);
    } else {
        assert(t.subrange(0, k) =~= t);
    }
}


/// Write applet slot `slot` at `off`.
fn put_applet(buf: &mut [u8], off: usize, slot: &Option<AppletInfo>, Ghost(o): Ghost<Seq<u8>>, Ghost(img): Ghost<Seq<Option<u8>>>)
    requires
        o.len() <= isize::MAX,
        written(old(buf)@, o, img),
        off == img.len(),
        off + 20 <= o.len(),
    ensures
        written(final(buf)@, o, img + applet_img(*slot)),
{
    match slot {
        None => {
            put(buf, off, 0, Ghost(o), Ghost(img));
            proof {
                lemma_written_gap(buf@, o, img.push(Some(0u8)), 19);
                assert(img.push(Some(0u8)) + gap(19) =~= img + applet_img(*slot));
            }
        },
        Some(a) => {
            put(buf, off, 1, Ghost(o), Ghost(img));
            put(buf, off + 1, a.aid_len, Ghost(o), Ghost(img.push(Some(1u8))));
            let ghost c = img.push(Some(1u8)).push(Some(a.aid_len));
            put_bytes(buf, off + 2, a.aid.as_slice(), MAX_AID_LEN, Ghost(o), Ghost(c));
            assert(a.aid@.subrange(0, MAX_AID_LEN as int) =~= a.aid@);
            put_le16(buf, off + 18, a.install_method_offset, Ghost(o), Ghost(c + some_bytes(a.aid@)));
            assert(c + some_bytes(a.aid@) + le16_img(a.install_method_offset) =~= img + applet_img(*slot));
        },
    }
}

/// Write import slot `slot` at `off`.
fn put_import(buf: &mut [u8], off: usize, slot: &Option<ImportInfo>, Ghost(o): Ghost<Seq<u8>>, Ghost(img): Ghost<Seq<Option<u8>>>)
    requires
        o.len() <= isize::MAX,
        written(old(buf)@, o, img),
        off == img.len(),
        off + 20 <= o.len(),
    ensures
        written(final(buf)@, o, img + import_img(*slot)),
{
    match slot {
        None => {
            put(buf, off, 0, Ghost(o), Ghost(img));
            proof {
                lemma_written_gap(buf@, o, img.push(Some(0u8)), 19);
                assert(img.push(Some(0u8)) + gap(19) =~= img + import_img(*slot));
            }
        },
        Some(i) => {
            put(buf, off, 1, Ghost(o), Ghost(img));
            put(buf, off + 1, i.minor_version, Ghost(o), Ghost(img.push(Some(1u8))));
            put(buf, off + 2, i.major_version, Ghost(o), Ghost(img.push(Some(1u8)).push(Some(i.minor_version))));
            put(buf, off + 3, i.aid_len, Ghost(o), Ghost(img.push(Some(1u8)).push(Some(i.minor_version)).push(Some(i.major_version))));
            let ghost c = img.push(Some(1u8)).push(Some(i.minor_version)).push(Some(i.major_version)).push(Some(i.aid_len));
            put_bytes(buf, off + 4, i.aid.as_slice(), MAX_AID_LEN, Ghost(o), Ghost(c));
            assert(i.aid@.subrange(0, MAX_AID_LEN as int) =~= i.aid@);
            assert(c + some_bytes(i.aid@) =~= img + import_img(*slot));
        },
    }
}

/// Write `vals` as little-endian u16 values at `off`.
fn put_u16s(buf: &mut [u8], off: usize, vals: &[u16], Ghost(o): Ghost<Seq<u8>>, Ghost(img): Ghost<Seq<Option<u8>>>)
    requires
        o.len() <= isize::MAX,
        written(old(buf)@, o, img),
        off == img.len(),
        off + 2 * vals@.len() <= o.len(),
    ensures
        written(final(buf)@, o, img + u16s_img(vals@)),
{
    let mut k: usize = 0;
    while k < vals.len()
        invariant
            o.len() <= isize::MAX,
            written(buf@, o, img + u16s_img(vals@.subrange(0, k as int))),
            off == img.len(),
            off + 2 * vals@.len() <= o.len(),
            k <= vals@.len(),
        decreases vals@.len() - k,
    {
        proof {
            lemma_u16s_step(vals@, k as int);
            lemma_u16s_img_len(vals@.subrange(0, k as int));
        }
        put_le16(buf, off + 2 * k, vals[k], Ghost(o), Ghost(img + u16s_img(vals@.subrange(0, k as int))));
        assert(img + u16s_img(vals@.subrange(0, k as int)) + le16_img(vals@[k as int]) =~= img + u16s_img(vals@.subrange(0, k + 1)));
        k = k + 1;
    }
    assert(vals@.subrange(0, vals@.len() as int) =~= vals@);
}

/// Write export slot `slot` at `off`.
fn put_export(buf: &mut [u8], off: usize, slot: &Option<ExportInfo>, Ghost(o): Ghost<Seq<u8>>, Ghost(img): Ghost<Seq<Option<u8>>>)
    requires
        o.len() <= isize::MAX,
        written(old(buf)@, o, img),
        off == img.len(),
        off + 69 <= o.len(),
    ensures
        written(final(buf)@, o, img + export_img(*slot)),
{
    match slot {
        None => {
            put(buf, off, 0, Ghost(o), Ghost(img));
            proof {
                lemma_written_gap(buf@, o, img.push(Some(0u8)), 68);
                assert(img.push(Some(0u8)) + gap(68) =~= img + export_img(*slot));
            }
        },
        Some(e) => {
            put(buf, off, 1, Ghost(o), Ghost(img));
            put_le16(buf, off + 1, e.class_offset, Ghost(o), Ghost(img.push(Some(1u8))));
            let ghost c = img.push(Some(1u8)) + le16_img(e.class_offset);
            put(buf, off + 3, e.static_field_count, Ghost(o), Ghost(c));
            put(buf, off + 4, e.static_method_count, Ghost(o), Ghost(c.push(Some(e.static_field_count))));
            let ghost c2 = c.push(Some(e.static_field_count)).push(Some(e.static_method_count));
            put_u16s(buf, off + 5, e.static_field_offsets.as_slice(), Ghost(o), Ghost(c2));
            proof {
                lemma_u16s_img_len(e.static_field_offsets@);
            }
            put_u16s(buf, off + 37, e.static_method_offsets.as_slice(), Ghost(o), Ghost(c2 + u16s_img(e.static_field_offsets@)));
            assert(c2 + u16s_img(e.static_field_offsets@) + u16s_img(e.static_method_offsets@) =~= img + export_img(*slot));
        },
    }
}


/// How many entries a method's exception table holds.
fn exc_count(m: &MethodInfo) -> (r: usize)
    ensures
        r == exc_entries(m.exception_table@).len(),
        r <= MAX_EXCEPTIONS,
{
    proof {
        lemma_exc_entries_len(m.exception_table@);
    }
    let mut count: usize = 0;
    let mut j: usize = 0;
    while j < MAX_EXCEPTIONS
        invariant
            j <= MAX_EXCEPTIONS,
            count == exc_entries(m.exception_table@.subrange(0, j as int)).len(),
            count <= j,
        decreases MAX_EXCEPTIONS - j,
    {
        proof {
            lemma_excs_step(m.exception_table@, j as int);
        }
        if m.exception_table[j].is_some() {
            count = count + 1;
        }
        j = j + 1;
    }
    assert(m.exception_table@.subrange(0, MAX_EXCEPTIONS as int) =~= m.exception_table@);
    count
}

impl Package {
    /// Upper bound on a package snapshot's length.
    pub const MAX_SNAPSHOT_SIZE: usize = 11679;

    /// Bytes a snapshot of this package takes.
    pub(crate) fn image_len(&self) -> (r: usize)
        requires
            saveable(*self),
        ensures
            r == snapshot_len(*self),
            r <= Package::MAX_SNAPSHOT_SIZE,
    {
        let mut total: usize = 0;
        let mut k: usize = 0;
        while k < MAX_METHODS
            invariant
                saveable(*self),
                k <= MAX_METHODS,
                total == methods_img_len(self.methods@.subrange(0, k as int)),
                total <= k * 332,
            decreases MAX_METHODS - k,
        {
            proof {
                lemma_methods_step(self.methods@, k as int);
                lemma_exc_entries_len(self.methods@[k as int]->0.exception_table@);
            }
            match &self.methods[k] {
                None => {
                    total = total + 1;
                },
                Some(m) => {
                    total = total + 12 + m.bytecode_len as usize + 8 * exc_count(m);
                },
            }
            k = k + 1;
        }
        assert(self.methods@.subrange(0, MAX_METHODS as int) =~= self.methods@);
        assert(total <= 10624);
        18 + total + 2 + 4 * (self.cp_count as usize) + APPLET_BLOCK_SIZE + IMPORT_BLOCK_SIZE
            + METHOD_OFFSETS_BLOCK_SIZE + EXPORT_BLOCK_SIZE + REF_LOC_BLOCK_SIZE
    }

    /// Save the package into `buf`; the number of bytes written, or 0 when `buf` is too
    /// small. Each block's room is checked before it is written, so a buffer that is too
    /// small keeps the part of the image written before the first block that did not
    /// fit ([`save_stop`]). Absent applet, import and export slots keep their payload
    /// bytes of `buf`.
    #[verifier::spinoff_prover]
    #[verifier::rlimit(80)]
    pub fn save_state(&self, buf: &mut [u8]) -> (r: usize)
        requires
            saveable(*self),
            old(buf)@.len() <= isize::MAX,
            old(buf)@.len() >= 18 ==> !save_overruns_from(*self, old(buf)@.len() as int, 0),
        ensures
            old(buf)@.len() < snapshot_len(*self) ==> r == 0 && written(
                final(buf)@,
                old(buf)@,
                snapshot_image(*self).subrange(0, save_stop(*self, old(buf)@.len() as int)),
            ),
            old(buf)@.len() >= snapshot_len(*self) ==> r == snapshot_len(*self) && written(
                final(buf)@,
                old(buf)@,
                snapshot_image(*self),
            ),
    {
        let total = self.image_len();
        let len = buf.len();
        let ghost o = buf@;
        proof {
            lemma_snapshot_len(*self);
            lemma_methods_img_len(self.methods@);
            assert(written(buf@, o, Seq::<Option<u8>>::empty()));
            assert(snapshot_image(*self).subrange(0, 0) =~= Seq::<Option<u8>>::empty());
        }
        if len < 18 {
            return 0;
        }
        put(buf, 0, self.aid_len, Ghost(o), Ghost(Seq::empty()));
        let ghost c0 = seq![Some(self.aid_len)];
        assert(Seq::<Option<u8>>::empty().push(Some(self.aid_len)) =~= c0);
        put_bytes(buf, 1, self.aid.as_slice(), MAX_AID_LEN, Ghost(o), Ghost(c0));
        assert(self.aid@.subrange(0, MAX_AID_LEN as int) =~= self.aid@);
        let ghost c1 = c0 + some_bytes(self.aid@);
        put(buf, 17, self.method_count, Ghost(o), Ghost(c1));
        let ghost c2 = c1 + seq![Some(self.method_count)];
        assert(c1.push(Some(self.method_count)) =~= c2);
        let mut off: usize = 18;
        let mut k: usize = 0;
        while k < MAX_METHODS
            invariant
                saveable(*self),
                o.len() <= isize::MAX,
                len == o.len(),
                len >= 18,
                total == snapshot_len(*self),
                snapshot_image(*self).len() == snapshot_len(*self),
                c2 == seq![Some(self.aid_len)] + some_bytes(self.aid@) + seq![Some(self.method_count)],
                save_stop(*self, len as int) == save_stop_from(*self, len as int, k as nat),
                !save_overruns_from(*self, len as int, k as nat),
                off == mslot_start(*self, k as int),
                off <= len,
                o == old(buf)@,
                c2.len() == 18,
                k <= MAX_METHODS,
                off == 18 + methods_img_len(self.methods@.subrange(0, k as int)),
                methods_img_len(self.methods@) == methods_img(self.methods@).len(),
                written(buf@, o, c2 + methods_img(self.methods@.subrange(0, k as int))),
                methods_img_len(self.methods@.subrange(0, k as int)) <= methods_img_len(self.methods@),
            decreases MAX_METHODS - k,
        {
            proof {
                lemma_methods_step(self.methods@, k as int);
                lemma_methods_img_len(self.methods@.subrange(0, k as int));
                lemma_methods_len_mono(self.methods@, k + 1);
            }
            let ghost ck = c2 + methods_img(self.methods@.subrange(0, k as int));
            if off >= len {
                proof {
                    lemma_save_stop_methods(*self, c2, k as int, len as int);
                    assert(ck.len() == off);
                    assert(snapshot_image(*self).subrange(0, save_stop(*self, len as int)) == ck);
                }
                return 0;
            }
            if let Some(m) = &self.methods[k] {
                if off + 76 + m.bytecode_len as usize > len {
                    put(buf, off, 1, Ghost(o), Ghost(ck));
                    put(buf, off + 1, m.flags, Ghost(o), Ghost(ck.push(Some(1u8))));
                    put(buf, off + 2, m.max_stack, Ghost(o), Ghost(ck.push(Some(1u8)).push(Some(m.flags))));
                    put(buf, off + 3, m.nargs, Ghost(o), Ghost(ck.push(Some(1u8)).push(Some(m.flags)).push(Some(m.max_stack))));
                    put(buf, off + 4, m.max_locals, Ghost(o), Ghost(ck.push(Some(1u8)).push(Some(m.flags)).push(Some(m.max_stack)).push(Some(m.nargs))));
                    let ghost h5 = ck.push(Some(1u8)).push(Some(m.flags)).push(Some(m.max_stack)).push(Some(m.nargs)).push(Some(m.max_locals));
                    put_le16(buf, off + 5, m.bytecode_len, Ghost(o), Ghost(h5));
                    proof {
                        lemma_save_stop_header(*self, c2, k as int, len as int);
                        assert(h5 + le16_img(m.bytecode_len) =~= ck + method_img(Some(*m)).subrange(0, 7));
                    }
                    return 0;
                }
            }
            proof {
                if self.methods@[k as int] is Some {
                    lemma_exc_entries_len(self.methods@[k as int]->0.exception_table@);
                }
            }
            off = put_method(buf, off, &self.methods[k], Ghost(o), Ghost(ck));
            assert(c2 + methods_img(self.methods@.subrange(0, k as int)) + method_img(self.methods@[k as int])
                =~= c2 + methods_img(self.methods@.subrange(0, k + 1)));
            k = k + 1;
        }
        assert(self.methods@.subrange(0, MAX_METHODS as int) =~= self.methods@);
        let ghost c3 = c2 + methods_img(self.methods@);
        proof {
            lemma_methods_img_len(self.methods@);
            lemma_cp_img_len(self.constant_pool@.subrange(0, self.cp_count as int));
            lemma_applets_img_len(self.applets@);
            lemma_imports_img_len(self.imports@);
            lemma_u16s_img_len(self.method_offsets@);
            lemma_exports_img_len(self.exports@);
        }
        if len - off < 2 + 4 * (self.cp_count as usize) {
            proof {
                assert(snapshot_image(*self).subrange(0, c3.len() as int) =~= c3);
            }
            return 0;
        }
        put_le16(buf, off, self.cp_count, Ghost(o), Ghost(c3));
        let ghost c4 = c3 + le16_img(self.cp_count);
        off = off + 2;
        let n = self.cp_count as usize;
        let mut i: usize = 0;
        while i < n
            invariant
                o.len() <= isize::MAX,
                n == self.cp_count,
                n <= MAX_CP_ENTRIES,
                i <= n,
                off == c4.len() + 4 * i,
                c4.len() + 4 * n <= o.len(),
                written(buf@, o, c4 + cp_img(self.constant_pool@.subrange(0, i as int))),
            decreases n - i,
        {
            proof {
                lemma_cp_step(self.constant_pool@.subrange(0, n as int), i as int);
                assert(self.constant_pool@.subrange(0, n as int).subrange(0, i as int) =~= self.constant_pool@.subrange(0, i as int));
                assert(self.constant_pool@.subrange(0, n as int).subrange(0, i + 1) =~= self.constant_pool@.subrange(0, i + 1));
                lemma_cp_img_len(self.constant_pool@.subrange(0, i as int));
            }
            let e = self.constant_pool[i];
            let ghost b0 = c4 + cp_img(self.constant_pool@.subrange(0, i as int));
            put(buf, off, e.tag, Ghost(o), Ghost(b0));
            put(buf, off + 1, e.info[0], Ghost(o), Ghost(b0.push(Some(e.tag))));
            put(buf, off + 2, e.info[1], Ghost(o), Ghost(b0.push(Some(e.tag)).push(Some(e.info@[0]))));
            put(buf, off + 3, e.info[2], Ghost(o), Ghost(b0.push(Some(e.tag)).push(Some(e.info@[0])).push(Some(e.info@[1]))));
            assert(b0.push(Some(e.tag)).push(Some(e.info@[0])).push(Some(e.info@[1])).push(Some(e.info@[2]))
                =~= c4 + cp_img(self.constant_pool@.subrange(0, i + 1)));
            off = off + 4;
            i = i + 1;
        }
        let ghost c5 = c4 + cp_img(self.constant_pool@.subrange(0, self.cp_count as int));
        proof {
            lemma_cp_img_len(self.constant_pool@.subrange(0, self.cp_count as int));
        }
        if len - off < APPLET_BLOCK_SIZE {
            proof {
                assert(snapshot_image(*self).subrange(0, c5.len() as int) =~= c5);
            }
            return 0;
        }
        put(buf, off, self.applet_count, Ghost(o), Ghost(c5));
        let ghost c6 = c5 + seq![Some(self.applet_count)];
        assert(c5.push(Some(self.applet_count)) =~= c6);
        off = off + 1;
        let mut a: usize = 0;
        while a < MAX_APPLETS_PER_PACKAGE
            invariant
                o.len() <= isize::MAX,
                a <= MAX_APPLETS_PER_PACKAGE,
                off == c6.len() + 20 * a,
                c6.len() + 80 <= o.len(),
                written(buf@, o, c6 + applets_img(self.applets@.subrange(0, a as int))),
            decreases MAX_APPLETS_PER_PACKAGE - a,
        {
            proof {
                lemma_applets_step(self.applets@, a as int);
                lemma_applets_img_len(self.applets@.subrange(0, a as int));
            }
            put_applet(buf, off, &self.applets[a], Ghost(o), Ghost(c6 + applets_img(self.applets@.subrange(0, a as int))));
            assert(c6 + applets_img(self.applets@.subrange(0, a as int)) + applet_img(self.applets@[a as int])
                =~= c6 + applets_img(self.applets@.subrange(0, a + 1)));
            off = off + 20;
            a = a + 1;
        }
        assert(self.applets@.subrange(0, MAX_APPLETS_PER_PACKAGE as int) =~= self.applets@);
        let ghost c7 = c6 + applets_img(self.applets@);
        proof {
            lemma_applets_img_len(self.applets@);
        }
        if len - off < IMPORT_BLOCK_SIZE {
            proof {
                assert(snapshot_image(*self).subrange(0, c7.len() as int) =~= c7);
            }
            return 0;
        }
        put(buf, off, self.import_count, Ghost(o), Ghost(c7));
        let ghost c8 = c7 + seq![Some(self.import_count)];
        assert(c7.push(Some(self.import_count)) =~= c8);
        off = off + 1;
        let mut m: usize = 0;
        while m < MAX_IMPORTS_PER_PACKAGE
            invariant
                o.len() <= isize::MAX,
                m <= MAX_IMPORTS_PER_PACKAGE,
                off == c8.len() + 20 * m,
                c8.len() + 160 <= o.len(),
                written(buf@, o, c8 + imports_img(self.imports@.subrange(0, m as int))),
            decreases MAX_IMPORTS_PER_PACKAGE - m,
        {
            proof {
                lemma_imports_step(self.imports@, m as int);
                lemma_imports_img_len(self.imports@.subrange(0, m as int));
            }
            put_import(buf, off, &self.imports[m], Ghost(o), Ghost(c8 + imports_img(self.imports@.subrange(0, m as int))));
            assert(c8 + imports_img(self.imports@.subrange(0, m as int)) + import_img(self.imports@[m as int])
                =~= c8 + imports_img(self.imports@.subrange(0, m + 1)));
            off = off + 20;
            m = m + 1;
        }
        assert(self.imports@.subrange(0, MAX_IMPORTS_PER_PACKAGE as int) =~= self.imports@);
        let ghost c9 = c8 + imports_img(self.imports@);
        proof {
            lemma_imports_img_len(self.imports@);
        }
        if len - off < METHOD_OFFSETS_BLOCK_SIZE {
            proof {
                assert(snapshot_image(*self).subrange(0, c9.len() as int) =~= c9);
            }
            return 0;
        }
        put_u16s(buf, off, self.method_offsets.as_slice(), Ghost(o), Ghost(c9));
        let ghost c10 = c9 + u16s_img(self.method_offsets@);
        proof {
            lemma_u16s_img_len(self.method_offsets@);
        }
        off = off + METHOD_OFFSETS_BLOCK_SIZE;
        if len - off < EXPORT_BLOCK_SIZE {
            proof {
                assert(snapshot_image(*self).subrange(0, c10.len() as int) =~= c10);
            }
            return 0;
        }
        put(buf, off, self.export_count, Ghost(o), Ghost(c10));
        let ghost c11 = c10 + seq![Some(self.export_count)];
        assert(c10.push(Some(self.export_count)) =~= c11);
        off = off + 1;
        let mut x: usize = 0;
        while x < MAX_EXPORTED_CLASSES_PER_PACKAGE
            invariant
                o.len() <= isize::MAX,
                x <= MAX_EXPORTED_CLASSES_PER_PACKAGE,
                off == c11.len() + 69 * x,
                c11.len() + 276 <= o.len(),
                written(buf@, o, c11 + exports_img(self.exports@.subrange(0, x as int))),
            decreases MAX_EXPORTED_CLASSES_PER_PACKAGE - x,
        {
            proof {
                lemma_exports_step(self.exports@, x as int);
                lemma_exports_img_len(self.exports@.subrange(0, x as int));
            }
            put_export(buf, off, &self.exports[x], Ghost(o), Ghost(c11 + exports_img(self.exports@.subrange(0, x as int))));
            assert(c11 + exports_img(self.exports@.subrange(0, x as int)) + export_img(self.exports@[x as int])
                =~= c11 + exports_img(self.exports@.subrange(0, x + 1)));
            off = off + 69;
            x = x + 1;
        }
        assert(self.exports@.subrange(0, MAX_EXPORTED_CLASSES_PER_PACKAGE as int) =~= self.exports@);
        let ghost c12 = c11 + exports_img(self.exports@);
        proof {
            lemma_exports_img_len(self.exports@);
        }
        if len - off < REF_LOC_BLOCK_SIZE {
            proof {
                assert(snapshot_image(*self).subrange(0, c12.len() as int) =~= c12);
            }
            return 0;
        }
        put_le16(buf, off, self.ref_loc_byte_count, Ghost(o), Ghost(c12));
        let ghost c13 = c12 + le16_img(self.ref_loc_byte_count);
        put_bytes(buf, off + 2, self.ref_loc_byte_deltas.as_slice(), MAX_REF_LOC_BYTE_INDICES, Ghost(o), Ghost(c13));
        assert(self.ref_loc_byte_deltas@.subrange(0, MAX_REF_LOC_BYTE_INDICES as int) =~= self.ref_loc_byte_deltas@);
        let ghost c14 = c13 + some_bytes(self.ref_loc_byte_deltas@);
        put_le16(buf, off + 130, self.ref_loc_byte2_count, Ghost(o), Ghost(c14));
        let ghost c15 = c14 + le16_img(self.ref_loc_byte2_count);
        put_bytes(buf, off + 132, self.ref_loc_byte2_deltas.as_slice(), MAX_REF_LOC_BYTE2_INDICES, Ghost(o), Ghost(c15));
        assert(self.ref_loc_byte2_deltas@.subrange(0, MAX_REF_LOC_BYTE2_INDICES as int) =~= self.ref_loc_byte2_deltas@);
        assert(c15 + some_bytes(self.ref_loc_byte2_deltas@) =~= snapshot_image(*self));
        off + 196
    }
}

pub(crate) proof fn lemma_methods_len_mono(s: Seq<Option<MethodInfo>>, k: int)
    requires
        0 <= k <= s.len(),
    ensures
        methods_img_len(s.subrange(0, k)) <= methods_img_len(s),
    decreases s.len() - k,
{
    if k < s.len() {
        lemma_methods_step(s, k);
        lemma_methods_len_mono(s, k + 1);
    } else {
        assert(s.subrange(0, k) =~= s);
    }
}


// ---------------------------------------------------------------- saved length of a restored package

/// The saved length of the first `k` method slots of the package a snapshot `b`
/// restores.
pub open spec fn saved_methods_len(b: Seq<u8>, k: nat) -> int
    decreases k,
{
    if k == 0 {
        0
    } else {
        saved_methods_len(b, (k - 1) as nat) + (if b[mslot_pos(b, (k - 1) as nat)] == 0 {
            1
        } else {
            12 + mrec_len(b, mslot_pos(b, (k - 1) as nat) + 1) + 8 * mrec_exc_count(
                b,
                mslot_pos(b, (k - 1) as nat) + 1,
            )
        })
    }
}

/// The number of bytes saving the package a snapshot `b` restores would take.
pub open spec fn pkg_saved_len(b: Seq<u8>) -> int {
    18 + saved_methods_len(b, MAX_METHODS as nat) + 2 + 4 * (if has_cp(b) {
        cp_count_of(b)
    } else {
        0
    }) + APPLET_BLOCK_SIZE + IMPORT_BLOCK_SIZE + METHOD_OFFSETS_BLOCK_SIZE + EXPORT_BLOCK_SIZE
        + REF_LOC_BLOCK_SIZE
}

pub(crate) proof fn lemma_exc_entries_compact(t: Seq<Option<ExceptionEntry>>, n: int)
    requires
        0 <= n <= t.len(),
        forall|k: int| 0 <= k < n ==> #[trigger] t[k] is Some,
        forall|k: int| n <= k < t.len() ==> #[trigger] t[k] is None,
    ensures
        exc_entries(t).len() == n,
        forall|k: int| 0 <= k < n ==> #[trigger] exc_entries(t)[k] == t[k]->0,
    decreases t.len(),
{
    if t.len() > 0 {
        if t.len() > n {
            lemma_exc_entries_compact(t.drop_last(), n);
        } else {
            lemma_exc_entries_compact(t.drop_last(), n - 1);
        }
    }
}

pub(crate) proof fn lemma_saved_methods_len(q: Package, b: Seq<u8>, k: nat)
    requires
        k <= MAX_METHODS,
        snapshot_ok(b),
        restored(q, b),
    ensures
        methods_img_len(q.methods@.subrange(0, k as int)) == saved_methods_len(b, k),
    decreases k,
{
    if k > 0 {
        let j = (k - 1) as nat;
        lemma_saved_methods_len(q, b, j);
        lemma_methods_step(q.methods@, j as int);
        assert(mslot_ok(b, j));
        if b[mslot_pos(b, j)] != 0 {
            let m = q.methods@[j as int]->0;
            let p = mslot_pos(b, j) + 1;
            lemma_exc_entries_compact(m.exception_table@, mrec_exc_count(b, p));
        }
    }
}

/// A restored package can be saved, and saving it takes [`pkg_saved_len`] bytes.
pub proof fn lemma_restored_len(q: Package, b: Seq<u8>)
    requires
        snapshot_ok(b),
        restored(q, b),
    ensures
        saveable(q),
        snapshot_len(q) == pkg_saved_len(b),
{
    assert forall|k: int| 0 <= k < MAX_METHODS implies (#[trigger] q.methods@[k] matches Some(m)
        ==> m.bytecode_len <= MAX_BYTECODE) by {
        assert(mslot_ok(b, k as nat));
    }
    lemma_saved_methods_len(q, b, MAX_METHODS as nat);
    assert(q.methods@.subrange(0, MAX_METHODS as int) =~= q.methods@);
}


/// Whether `p` can be saved (see [`saveable`]).
pub fn is_saveable(p: &Package) -> (r: bool)
    ensures
        r == saveable(*p),
{
    if p.cp_count as usize > MAX_CP_ENTRIES {
        return false;
    }
    let mut k: usize = 0;
    while k < MAX_METHODS
        invariant
            k <= MAX_METHODS,
            p.cp_count <= MAX_CP_ENTRIES,
            forall|j: int| 0 <= j < k ==> (#[trigger] p.methods@[j] matches Some(m) ==> m.bytecode_len
                <= MAX_BYTECODE),
        decreases MAX_METHODS - k,
    {
        if let Some(m) = &p.methods[k] {
            if m.bytecode_len as usize > MAX_BYTECODE {
                return false;
            }
        }
        k = k + 1;
    }
    true
}


proof fn lemma_methods_len_bound(ms: Seq<Option<MethodInfo>>)
    requires
        forall|k: int| 0 <= k < ms.len() ==> (#[trigger] ms[k] matches Some(m) ==> m.bytecode_len
            <= MAX_BYTECODE && m.exception_table@.len() == MAX_EXCEPTIONS),
    ensures
        methods_img_len(ms) <= 332 * ms.len(),
    decreases ms.len(),
{
    if ms.len() > 0 {
        assert forall|k: int| 0 <= k < ms.drop_last().len() implies (#[trigger] ms.drop_last()[k] matches Some(m)
            ==> m.bytecode_len <= MAX_BYTECODE && m.exception_table@.len() == MAX_EXCEPTIONS) by {
            assert(ms.drop_last()[k] == ms[k]);
        }
        lemma_methods_len_bound(ms.drop_last());
        let last = ms[ms.len() - 1];
        if let Some(m) = last {
            lemma_exc_entries_len(m.exception_table@);
        }
    }
}

/// A saveable package's image takes [`snapshot_len`] bytes, at most the maximum.
pub proof fn lemma_snapshot_len_pub(p: Package)
    requires
        saveable(p),
    ensures
        snapshot_image(p).len() == snapshot_len(p),
        snapshot_len(p) <= Package::MAX_SNAPSHOT_SIZE,
{
    lemma_snapshot_len(p);
    lemma_methods_len_bound(p.methods@);
}

} // verus!
