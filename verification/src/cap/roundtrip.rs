//! The snapshot law: the bytes [`Package::save_state`] writes are a snapshot that
//! [`Package::restore_state`] accepts, and it restores every field a snapshot carries
//! to the value it had in the package that was saved.
use vstd::prelude::*;
use crate::bytes::{le16, lemma_split_join16};
use super::{
    AppletInfo, CpInfo, ExceptionEntry, ExportInfo, ImportInfo, MAX_AID_LEN,
    MAX_APPLETS_PER_PACKAGE, MAX_BYTECODE, MAX_CP_ENTRIES, MAX_EXCEPTIONS,
    MAX_EXPORTED_CLASSES_PER_PACKAGE, MAX_EXPORTED_FIELDS_PER_CLASS,
    MAX_EXPORTED_METHODS_PER_CLASS, MAX_IMPORTS_PER_PACKAGE, MAX_METHODS,
    MAX_REF_LOC_BYTE2_INDICES, MAX_REF_LOC_BYTE_INDICES, MethodInfo, Package,
};
use super::snapshot::{
    APPLET_BLOCK_SIZE, EXPORT_BLOCK_SIZE, IMPORT_BLOCK_SIZE, METHOD_OFFSETS_BLOCK_SIZE,
    REF_LOC_BLOCK_SIZE, applet_pos, aslot, aslot_ok, cp_count_of, cp_pos, export_pos, has_applets,
    has_cp, has_exports, has_imports, has_moffs, has_refloc, import_pos, islot, islot_ok,
    moff_pos, refloc_pos, restored, snapshot_ok, xslot, xslot_ok, lemma_snapshot_len, saveable, snapshot_image, written, applet_img, applets_img, cp_img, exc_entries, exc_entry_at, exc_img, excs_img, export_img,
    exports_img, import_img, imports_img, le16_img, le16_of, lemma_applets_img_len,
    lemma_cp_img_len, lemma_exc_entries_compact, lemma_exc_entries_len, lemma_excs_img_len,
    lemma_exports_img_len, lemma_imports_img_len, lemma_method_img_len, lemma_methods_img_len,
    lemma_methods_step, lemma_u16s_img_len, method_img, method_img_len, methods_img,
    methods_img_len, mrec_code_end, mrec_decodes, mrec_end, mrec_exc_count, mrec_exc_end,
    mrec_exc_start, mrec_has_offsets, mrec_len, mrec_ok, mslot_ok, mslot_pos, some_bytes,
    u16s_img,
};

verus! {

// ---------------------------------------------------------------- which packages round-trip

/// An exception table whose entries fill its first slots, with no empty slot before an
/// entry (saving writes the entries one after another; restoring fills the first slots).
pub open spec fn compact_table(t: Seq<Option<ExceptionEntry>>) -> bool {
    forall|i: int, j: int| 0 <= i < j < t.len() && #[trigger] t[i] is None ==> #[trigger] t[j] is None
}

/// A method that a snapshot gives back as it was: its bytecode length within the
/// bytecode array, zeros after the bytecode, and a compact exception table.
pub open spec fn method_restorable(m: MethodInfo) -> bool {
    &&& m.bytecode_len <= MAX_BYTECODE
    &&& forall|i: int| m.bytecode_len <= i < MAX_BYTECODE ==> #[trigger] m.bytecode@[i] == 0
    &&& compact_table(m.exception_table@)
}

/// A package that saving and restoring gives back as it was: each count within what a
/// snapshot may carry, each AID length within an AID, unused constant pool entries zero,
/// and its methods [`method_restorable`].
pub open spec fn restorable(p: Package) -> bool {
    &&& p.aid_len <= MAX_AID_LEN
    &&& forall|k: int| 0 <= k < MAX_METHODS ==> (#[trigger] p.methods@[k] matches Some(m)
        ==> method_restorable(m))
    &&& p.cp_count <= MAX_CP_ENTRIES
    &&& forall|i: int| p.cp_count <= i < MAX_CP_ENTRIES ==> (#[trigger] p.constant_pool@[i]).tag
        == 0 && p.constant_pool@[i].info@ == seq![0u8, 0u8, 0u8]
    &&& p.applet_count <= MAX_APPLETS_PER_PACKAGE
    &&& forall|k: int| 0 <= k < MAX_APPLETS_PER_PACKAGE ==> (#[trigger] p.applets@[k] matches Some(a)
        ==> a.aid_len <= MAX_AID_LEN)
    &&& p.import_count <= MAX_IMPORTS_PER_PACKAGE
    &&& forall|k: int| 0 <= k < MAX_IMPORTS_PER_PACKAGE ==> (#[trigger] p.imports@[k] matches Some(i)
        ==> i.aid_len <= MAX_AID_LEN)
    &&& p.export_count <= MAX_EXPORTED_CLASSES_PER_PACKAGE
    &&& forall|k: int| 0 <= k < MAX_EXPORTED_CLASSES_PER_PACKAGE ==> (#[trigger] p.exports@[k] matches Some(e)
        ==> e.static_field_count <= MAX_EXPORTED_FIELDS_PER_CLASS && e.static_method_count
        <= MAX_EXPORTED_METHODS_PER_CLASS)
    &&& p.ref_loc_byte_count <= MAX_REF_LOC_BYTE_INDICES
    &&& p.ref_loc_byte2_count <= MAX_REF_LOC_BYTE2_INDICES
}

// ---------------------------------------------------------------- reading an image back

/// From `pos` on, `b` holds each byte the image `img` writes.
pub open spec fn carries(b: Seq<u8>, pos: int, img: Seq<Option<u8>>) -> bool {
    &&& 0 <= pos
    &&& pos + img.len() <= b.len()
    &&& forall|i: int| 0 <= i < img.len() && (#[trigger] img[i]) is Some ==> b[pos + i] == img[i]->0
}

proof fn lemma_carries_split(b: Seq<u8>, pos: int, x: Seq<Option<u8>>, y: Seq<Option<u8>>)
    requires
        carries(b, pos, x + y),
    ensures
        carries(b, pos, x),
        carries(b, pos + x.len(), y),
{
    assert forall|i: int| 0 <= i < x.len() && (#[trigger] x[i]) is Some implies b[pos + i]
        == x[i]->0 by {
        assert((x + y)[i] == x[i]);
    }
    assert forall|i: int| 0 <= i < y.len() && (#[trigger] y[i]) is Some implies b[pos + x.len()
        + i] == y[i]->0 by {
        assert((x + y)[x.len() + i] == y[i]);
    }
}

proof fn lemma_carries_byte(b: Seq<u8>, pos: int, v: u8)
    requires
        carries(b, pos, seq![Some(v)]),
    ensures
        b[pos] == v,
        pos < b.len(),
{
    assert(seq![Some(v)][0] is Some);
}

proof fn lemma_carries_bytes(b: Seq<u8>, pos: int, s: Seq<u8>)
    requires
        carries(b, pos, some_bytes(s)),
    ensures
        forall|i: int| 0 <= i < s.len() ==> b[pos + i] == #[trigger] s[i],
{
    assert forall|i: int| 0 <= i < s.len() implies b[pos + i] == #[trigger] s[i] by {
        assert(some_bytes(s)[i] is Some);
    }
}

proof fn lemma_carries_le16(b: Seq<u8>, pos: int, v: u16)
    requires
        carries(b, pos, le16_img(v)),
    ensures
        le16_of(b, pos) == v,
        pos + 2 <= b.len(),
{
    assert(le16_img(v)[0] is Some);
    assert(le16_img(v)[1] is Some);
    lemma_split_join16(v);
}

proof fn lemma_carries_u16s(b: Seq<u8>, pos: int, s: Seq<u16>)
    requires
        carries(b, pos, u16s_img(s)),
    ensures
        forall|i: int| 0 <= i < s.len() ==> le16_of(b, pos + 2 * i) == #[trigger] s[i],
    decreases s.len(),
{
    if s.len() > 0 {
        let s0 = s.drop_last();
        lemma_u16s_img_len(s0);
        lemma_carries_split(b, pos, u16s_img(s0), le16_img(s.last()));
        lemma_carries_u16s(b, pos, s0);
        lemma_carries_le16(b, pos + 2 * s0.len(), s.last());
        assert forall|i: int| 0 <= i < s.len() implies le16_of(b, pos + 2 * i) == #[trigger] s[i] by {
            if i < s0.len() {
                assert(s0[i] == s[i]);
            }
        }
    }
}

// ---------------------------------------------------------------- methods

proof fn lemma_compact_table(t: Seq<Option<ExceptionEntry>>)
    requires
        compact_table(t),
    ensures
        exc_entries(t).len() <= t.len(),
        forall|k: int| 0 <= k < exc_entries(t).len() ==> (#[trigger] t[k]) is Some,
        forall|k: int| exc_entries(t).len() <= k < t.len() ==> (#[trigger] t[k]) is None,
    decreases t.len(),
{
    lemma_exc_entries_len(t);
    if t.len() > 0 {
        let t0 = t.drop_last();
        assert(compact_table(t0)) by {
            assert forall|i: int, j: int| 0 <= i < j < t0.len() && #[trigger] t0[i] is None implies #[trigger] t0[j] is None by {
                assert(t0[i] == t[i] && t0[j] == t[j]);
            }
        }
        lemma_compact_table(t0);
        lemma_exc_entries_len(t0);
        let n0 = exc_entries(t0).len();
        if t.last() is Some {
            assert forall|k: int| 0 <= k < t0.len() implies (#[trigger] t0[k]) is Some by {
                if t0[k] is None {
                    assert(t[k] is None);
                    assert(t[t.len() - 1] is None);
                }
            }
            if n0 < t0.len() {
                assert(t0[n0 as int] is None);
            }
            assert forall|k: int| 0 <= k < exc_entries(t).len() implies (#[trigger] t[k]) is Some by {
                if k < t0.len() {
                    assert(t0[k] == t[k]);
                }
            }
        } else {
            assert forall|k: int| 0 <= k < exc_entries(t).len() implies (#[trigger] t[k]) is Some by {
                assert(t0[k] == t[k]);
            }
            assert forall|k: int| exc_entries(t).len() <= k < t.len() implies (#[trigger] t[k]) is None by {
                if k < t0.len() {
                    assert(t0[k] == t[k]);
                }
            }
        }
    }
}

proof fn lemma_carries_excs(b: Seq<u8>, pos: int, es: Seq<ExceptionEntry>)
    requires
        carries(b, pos, excs_img(es)),
    ensures
        forall|k: int| 0 <= k < es.len() ==> exc_entry_at(b, pos + 8 * k) == #[trigger] es[k],
    decreases es.len(),
{
    if es.len() > 0 {
        let e0 = es.drop_last();
        let e = es.last();
        lemma_excs_img_len(e0);
        lemma_carries_split(b, pos, excs_img(e0), exc_img(e));
        lemma_carries_excs(b, pos, e0);
        let q = pos + 8 * e0.len();
        let a = le16_img(e.start_pc);
        let c = le16_img(e.end_pc);
        let h = le16_img(e.handler_pc);
        let t = le16_img(e.catch_type);
        lemma_carries_split(b, q, a + c + h, t);
        lemma_carries_split(b, q, a + c, h);
        lemma_carries_split(b, q, a, c);
        lemma_carries_le16(b, q, e.start_pc);
        lemma_carries_le16(b, q + 2, e.end_pc);
        lemma_carries_le16(b, q + 4, e.handler_pc);
        lemma_carries_le16(b, q + 6, e.catch_type);
        assert forall|k: int| 0 <= k < es.len() implies exc_entry_at(b, pos + 8 * k)
            == #[trigger] es[k] by {
            if k < e0.len() {
                assert(e0[k] == es[k]);
            }
        }
    }
}

/// A present method slot's image read back at `q` (its presence byte).
proof fn lemma_carries_method(b: Seq<u8>, q: int, m: MethodInfo)
    requires
        carries(b, q, method_img(Some(m))),
        method_restorable(m),
    ensures
        b[q] == 1,
        mrec_ok(b, q + 1),
        mrec_has_offsets(b, q + 1),
        mrec_end(b, q + 1) == q + method_img_len(Some(m)),
        mrec_decodes(m, b, q + 1),
{
    let p = q + 1;
    let t = m.exception_table@;
    let es = exc_entries(t);
    let n = es.len();
    lemma_compact_table(t);
    lemma_excs_img_len(es);
    let x5 = seq![Some(1u8), Some(m.flags), Some(m.max_stack), Some(m.nargs), Some(m.max_locals)];
    let ln = le16_img(m.bytecode_len);
    let code = some_bytes(m.bytecode@.subrange(0, m.bytecode_len as int));
    let cnt = seq![Some(n as u8)];
    let ex = excs_img(es);
    let d = le16_img(m.descriptor_offset);
    let c = le16_img(m.class_offset);
    assert(method_img(Some(m)) == x5 + ln + code + cnt + ex + d + c);
    lemma_carries_split(b, q, x5 + ln + code + cnt + ex + d, c);
    lemma_carries_split(b, q, x5 + ln + code + cnt + ex, d);
    lemma_carries_split(b, q, x5 + ln + code + cnt, ex);
    lemma_carries_split(b, q, x5 + ln + code, cnt);
    lemma_carries_split(b, q, x5 + ln, code);
    lemma_carries_split(b, q, x5, ln);
    assert(x5[0] is Some && x5[1] is Some && x5[2] is Some && x5[3] is Some && x5[4] is Some);
    let len = m.bytecode_len as int;
    lemma_carries_le16(b, q + 5, m.bytecode_len);
    assert(mrec_len(b, p) == len);
    lemma_carries_bytes(b, q + 7, m.bytecode@.subrange(0, len));
    let ce = q + 7 + len;
    assert(mrec_code_end(b, p) == ce);
    lemma_carries_byte(b, ce, n as u8);
    assert(mrec_exc_count(b, p) == n);
    lemma_carries_excs(b, ce + 1, es);
    assert(mrec_exc_start(b, p) == ce + 1);
    assert(mrec_exc_end(b, p) == ce + 1 + 8 * n);
    lemma_carries_le16(b, ce + 1 + 8 * n, m.descriptor_offset);
    lemma_carries_le16(b, ce + 3 + 8 * n, m.class_offset);
    lemma_exc_entries_compact(t, n as int);
    assert forall|i: int| 0 <= i < mrec_len(b, p) implies #[trigger] m.bytecode@[i] == b[p + 6 + i] by {
        assert(m.bytecode@.subrange(0, len)[i] == m.bytecode@[i]);
    }
    assert forall|k: int| 0 <= k < mrec_exc_count(b, p) implies #[trigger] m.exception_table@[k]
        == Some(exc_entry_at(b, mrec_exc_start(b, p) + 8 * k)) by {
        assert(es[k] == t[k]->0);
        assert(exc_entry_at(b, ce + 1 + 8 * k) == es[k]);
    }
}


/// Each prefix of a run of method slots is carried, and so is each slot after it.
proof fn lemma_methods_prefix(b: Seq<u8>, pos: int, ms: Seq<Option<MethodInfo>>, k: int)
    requires
        carries(b, pos, methods_img(ms)),
        0 <= k <= ms.len(),
        forall|j: int| 0 <= j < ms.len() ==> (#[trigger] ms[j] matches Some(m) ==> m.bytecode_len
            <= MAX_BYTECODE),
    ensures
        carries(b, pos, methods_img(ms.subrange(0, k))),
        k < ms.len() ==> carries(b, pos + methods_img_len(ms.subrange(0, k)), method_img(ms[k])),
    decreases ms.len() - k,
{
    if k == ms.len() {
        assert(ms.subrange(0, k) =~= ms);
    } else {
        lemma_methods_prefix(b, pos, ms, k + 1);
        lemma_methods_step(ms, k);
        let s = ms.subrange(0, k);
        assert forall|j: int| 0 <= j < s.len() implies (#[trigger] s[j] matches Some(m)
            ==> m.bytecode_len <= MAX_BYTECODE) by {
            assert(s[j] == ms[j]);
        }
        lemma_methods_img_len(s);
        lemma_carries_split(b, pos, methods_img(s), method_img(ms[k]));
    }
}

/// The method slots of a carried package image sit where [`mslot_pos`] finds them.
proof fn lemma_mslot_pos(b: Seq<u8>, p: Package, k: nat)
    requires
        carries(b, 18, methods_img(p.methods@)),
        restorable(p),
        k <= MAX_METHODS,
    ensures
        mslot_pos(b, k) == 18 + methods_img_len(p.methods@.subrange(0, k as int)),
    decreases k,
{
    let ms = p.methods@;
    assert forall|j: int| 0 <= j < ms.len() implies (#[trigger] ms[j] matches Some(m)
        ==> m.bytecode_len <= MAX_BYTECODE) by {
        assert(p.methods@[j] == ms[j]);
    }
    if k == 0 {
        assert(ms.subrange(0, 0).len() == 0);
    } else {
        let j = (k - 1) as nat;
        lemma_mslot_pos(b, p, j);
        lemma_methods_prefix(b, 18, ms, j as int);
        lemma_methods_step(ms, j as int);
        let q = 18 + methods_img_len(ms.subrange(0, j as int));
        match ms[j as int] {
            None => {
                lemma_carries_byte(b, q, 0u8);
            },
            Some(m) => {
                assert(p.methods@[j as int] matches Some(m) ==> method_restorable(m));
                lemma_carries_method(b, q, m);
            },
        }
    }
}

/// Method slot `k` of a carried package image reads back as the package's method.
proof fn lemma_mslot(b: Seq<u8>, p: Package, k: nat)
    requires
        carries(b, 18, methods_img(p.methods@)),
        restorable(p),
        k < MAX_METHODS,
    ensures
        mslot_ok(b, k),
        (if b[mslot_pos(b, k)] == 0 {
            p.methods@[k as int] is None
        } else {
            p.methods@[k as int] is Some && mrec_decodes(
                p.methods@[k as int]->0,
                b,
                mslot_pos(b, k) + 1,
            )
        }),
{
    let ms = p.methods@;
    assert forall|j: int| 0 <= j < ms.len() implies (#[trigger] ms[j] matches Some(m)
        ==> m.bytecode_len <= MAX_BYTECODE) by {
        assert(p.methods@[j] == ms[j]);
    }
    lemma_mslot_pos(b, p, k);
    lemma_methods_prefix(b, 18, ms, k as int);
    let q = 18 + methods_img_len(ms.subrange(0, k as int));
    match ms[k as int] {
        None => {
            lemma_carries_byte(b, q, 0u8);
        },
        Some(m) => {
            assert(p.methods@[k as int] matches Some(m) ==> method_restorable(m));
            lemma_carries_method(b, q, m);
        },
    }
}


// ---------------------------------------------------------------- trailing blocks

proof fn lemma_carries_cp(b: Seq<u8>, pos: int, s: Seq<CpInfo>)
    requires
        carries(b, pos, cp_img(s)),
    ensures
        forall|i: int|
            0 <= i < s.len() ==> b[pos + 4 * i] == (#[trigger] s[i]).tag && b[pos + 4 * i + 1]
                == s[i].info@[0] && b[pos + 4 * i + 2] == s[i].info@[1] && b[pos + 4 * i + 3]
                == s[i].info@[2],
    decreases s.len(),
{
    if s.len() > 0 {
        let s0 = s.drop_last();
        let e = s.last();
        let last = seq![Some(e.tag), Some(e.info@[0]), Some(e.info@[1]), Some(e.info@[2])];
        lemma_cp_img_len(s0);
        lemma_carries_split(b, pos, cp_img(s0), last);
        lemma_carries_cp(b, pos, s0);
        assert(last[0] is Some && last[1] is Some && last[2] is Some && last[3] is Some);
        assert forall|i: int| 0 <= i < s.len() implies b[pos + 4 * i] == (#[trigger] s[i]).tag
            && b[pos + 4 * i + 1] == s[i].info@[0] && b[pos + 4 * i + 2] == s[i].info@[1] && b[pos
            + 4 * i + 3] == s[i].info@[2] by {
            if i < s0.len() {
                assert(s0[i] == s[i]);
            }
        }
    }
}

proof fn lemma_carries_applets(b: Seq<u8>, pos: int, s: Seq<Option<AppletInfo>>)
    requires
        carries(b, pos, applets_img(s)),
    ensures
        forall|k: int| 0 <= k < s.len() ==> carries(b, pos + 20 * k, applet_img(#[trigger] s[k])),
    decreases s.len(),
{
    if s.len() > 0 {
        let s0 = s.drop_last();
        lemma_applets_img_len(s0);
        lemma_carries_split(b, pos, applets_img(s0), applet_img(s.last()));
        lemma_carries_applets(b, pos, s0);
        assert forall|k: int| 0 <= k < s.len() implies carries(b, pos + 20 * k, applet_img(
            #[trigger] s[k],
        )) by {
            if k < s0.len() {
                assert(s0[k] == s[k]);
            }
        }
    }
}

proof fn lemma_carries_imports(b: Seq<u8>, pos: int, s: Seq<Option<ImportInfo>>)
    requires
        carries(b, pos, imports_img(s)),
    ensures
        forall|k: int| 0 <= k < s.len() ==> carries(b, pos + 20 * k, import_img(#[trigger] s[k])),
    decreases s.len(),
{
    if s.len() > 0 {
        let s0 = s.drop_last();
        lemma_imports_img_len(s0);
        lemma_carries_split(b, pos, imports_img(s0), import_img(s.last()));
        lemma_carries_imports(b, pos, s0);
        assert forall|k: int| 0 <= k < s.len() implies carries(b, pos + 20 * k, import_img(
            #[trigger] s[k],
        )) by {
            if k < s0.len() {
                assert(s0[k] == s[k]);
            }
        }
    }
}

proof fn lemma_carries_exports(b: Seq<u8>, pos: int, s: Seq<Option<ExportInfo>>)
    requires
        carries(b, pos, exports_img(s)),
    ensures
        forall|k: int| 0 <= k < s.len() ==> carries(b, pos + 69 * k, export_img(#[trigger] s[k])),
    decreases s.len(),
{
    if s.len() > 0 {
        let s0 = s.drop_last();
        assert forall|k: int| 0 <= k < s0.len() implies (#[trigger] s0[k] matches Some(e)
            ==> e.static_field_offsets@.len() == 16 && e.static_method_offsets@.len() == 16) by {}
        lemma_exports_img_len(s0);
        lemma_carries_split(b, pos, exports_img(s0), export_img(s.last()));
        lemma_carries_exports(b, pos, s0);
        assert forall|k: int| 0 <= k < s.len() implies carries(b, pos + 69 * k, export_img(
            #[trigger] s[k],
        )) by {
            if k < s0.len() {
                assert(s0[k] == s[k]);
            }
        }
    }
}

proof fn lemma_carries_applet(b: Seq<u8>, q: int, slot: Option<AppletInfo>)
    requires
        carries(b, q, applet_img(slot)),
    ensures
        q + 20 <= b.len(),
        slot is None ==> b[q] == 0,
        slot matches Some(a) ==> b[q] == 1 && b[q + 1] == a.aid_len && le16_of(b, q + 18)
            == a.install_method_offset && forall|i: int|
            0 <= i < MAX_AID_LEN ==> b[q + 2 + i] == #[trigger] a.aid@[i],
{
    match slot {
        None => {
            lemma_carries_split(b, q, seq![Some(0u8)], super::snapshot::gap(19));
            lemma_carries_byte(b, q, 0u8);
        },
        Some(a) => {
            let h = seq![Some(1u8), Some(a.aid_len)];
            lemma_carries_split(b, q, h + some_bytes(a.aid@), le16_img(a.install_method_offset));
            lemma_carries_split(b, q, h, some_bytes(a.aid@));
            assert(h[0] is Some && h[1] is Some);
            lemma_carries_bytes(b, q + 2, a.aid@);
            lemma_carries_le16(b, q + 18, a.install_method_offset);
        },
    }
}

proof fn lemma_carries_import(b: Seq<u8>, q: int, slot: Option<ImportInfo>)
    requires
        carries(b, q, import_img(slot)),
    ensures
        q + 20 <= b.len(),
        slot is None ==> b[q] == 0,
        slot matches Some(m) ==> b[q] == 1 && b[q + 1] == m.minor_version && b[q + 2]
            == m.major_version && b[q + 3] == m.aid_len && forall|i: int|
            0 <= i < MAX_AID_LEN ==> b[q + 4 + i] == #[trigger] m.aid@[i],
{
    match slot {
        None => {
            lemma_carries_split(b, q, seq![Some(0u8)], super::snapshot::gap(19));
            lemma_carries_byte(b, q, 0u8);
        },
        Some(m) => {
            let h = seq![Some(1u8), Some(m.minor_version), Some(m.major_version), Some(m.aid_len)];
            lemma_carries_split(b, q, h, some_bytes(m.aid@));
            assert(h[0] is Some && h[1] is Some && h[2] is Some && h[3] is Some);
            lemma_carries_bytes(b, q + 4, m.aid@);
        },
    }
}

proof fn lemma_carries_export(b: Seq<u8>, q: int, slot: Option<ExportInfo>)
    requires
        carries(b, q, export_img(slot)),
    ensures
        q + 69 <= b.len(),
        slot is None ==> b[q] == 0,
        slot matches Some(e) ==> b[q] == 1 && le16_of(b, q + 1) == e.class_offset && b[q + 3]
            == e.static_field_count && b[q + 4] == e.static_method_count && (forall|i: int|
            0 <= i < MAX_EXPORTED_FIELDS_PER_CLASS ==> le16_of(b, q + 5 + 2 * i)
                == #[trigger] e.static_field_offsets@[i]) && (forall|i: int|
            0 <= i < MAX_EXPORTED_METHODS_PER_CLASS ==> le16_of(b, q + 37 + 2 * i)
                == #[trigger] e.static_method_offsets@[i]),
{
    match slot {
        None => {
            lemma_carries_split(b, q, seq![Some(0u8)], super::snapshot::gap(68));
            lemma_carries_byte(b, q, 0u8);
        },
        Some(e) => {
            let h1 = seq![Some(1u8)];
            let h2 = le16_img(e.class_offset);
            let h3 = seq![Some(e.static_field_count), Some(e.static_method_count)];
            let f = u16s_img(e.static_field_offsets@);
            let m = u16s_img(e.static_method_offsets@);
            lemma_u16s_img_len(e.static_field_offsets@);
            lemma_u16s_img_len(e.static_method_offsets@);
            lemma_carries_split(b, q, h1 + h2 + h3 + f, m);
            lemma_carries_split(b, q, h1 + h2 + h3, f);
            lemma_carries_split(b, q, h1 + h2, h3);
            lemma_carries_split(b, q, h1, h2);
            lemma_carries_byte(b, q, 1u8);
            lemma_carries_le16(b, q + 1, e.class_offset);
            assert(h3[0] is Some && h3[1] is Some);
            lemma_carries_u16s(b, q + 5, e.static_field_offsets@);
            lemma_carries_u16s(b, q + 37, e.static_method_offsets@);
        },
    }
}


// ---------------------------------------------------------------- the whole image

/// Where each block of a package image starts, relative to the end of its methods.
pub open spec fn cp_at(p: Package) -> int {
    18 + methods_img_len(p.methods@)
}

/// Each block of a package image that `b` carries, at its place.
pub open spec fn carries_blocks(b: Seq<u8>, p: Package) -> bool {
    let c = cp_at(p);
    let a = c + 2 + 4 * p.cp_count;
    let i = a + APPLET_BLOCK_SIZE;
    let o = i + IMPORT_BLOCK_SIZE;
    let x = o + METHOD_OFFSETS_BLOCK_SIZE;
    let r = x + EXPORT_BLOCK_SIZE;
    &&& carries(b, 0, seq![Some(p.aid_len)])
    &&& carries(b, 1, some_bytes(p.aid@))
    &&& carries(b, 17, seq![Some(p.method_count)])
    &&& carries(b, 18, methods_img(p.methods@))
    &&& carries(b, c, le16_img(p.cp_count))
    &&& carries(b, c + 2, cp_img(p.constant_pool@.subrange(0, p.cp_count as int)))
    &&& carries(b, a, seq![Some(p.applet_count)])
    &&& carries(b, a + 1, applets_img(p.applets@))
    &&& carries(b, i, seq![Some(p.import_count)])
    &&& carries(b, i + 1, imports_img(p.imports@))
    &&& carries(b, o, u16s_img(p.method_offsets@))
    &&& carries(b, x, seq![Some(p.export_count)])
    &&& carries(b, x + 1, exports_img(p.exports@))
    &&& carries(b, r, le16_img(p.ref_loc_byte_count))
    &&& carries(b, r + 2, some_bytes(p.ref_loc_byte_deltas@))
    &&& carries(b, r + 2 + MAX_REF_LOC_BYTE_INDICES, le16_img(p.ref_loc_byte2_count))
    &&& carries(b, r + 4 + MAX_REF_LOC_BYTE_INDICES, some_bytes(p.ref_loc_byte2_deltas@))
}

proof fn lemma_image_blocks(p: Package, b: Seq<u8>)
    requires
        restorable(p),
        carries(b, 0, snapshot_image(p)),
    ensures
        carries_blocks(b, p),
        cp_at(p) + 2 + 4 * p.cp_count + APPLET_BLOCK_SIZE + IMPORT_BLOCK_SIZE
            + METHOD_OFFSETS_BLOCK_SIZE + EXPORT_BLOCK_SIZE + REF_LOC_BLOCK_SIZE <= b.len(),
{
    let a0 = seq![Some(p.aid_len)];
    let a1 = some_bytes(p.aid@);
    let a2 = seq![Some(p.method_count)];
    let a3 = methods_img(p.methods@);
    let a4 = le16_img(p.cp_count);
    let a5 = cp_img(p.constant_pool@.subrange(0, p.cp_count as int));
    let a6 = seq![Some(p.applet_count)];
    let a7 = applets_img(p.applets@);
    let a8 = seq![Some(p.import_count)];
    let a9 = imports_img(p.imports@);
    let a10 = u16s_img(p.method_offsets@);
    let a11 = seq![Some(p.export_count)];
    let a12 = exports_img(p.exports@);
    let a13 = le16_img(p.ref_loc_byte_count);
    let a14 = some_bytes(p.ref_loc_byte_deltas@);
    let a15 = le16_img(p.ref_loc_byte2_count);
    let a16 = some_bytes(p.ref_loc_byte2_deltas@);
    let img = snapshot_image(p);
    assert(img == a0 + a1 + a2 + a3 + a4 + a5 + a6 + a7 + a8 + a9 + a10 + a11 + a12 + a13 + a14
        + a15 + a16);
    assert forall|k: int| 0 <= k < MAX_METHODS implies (#[trigger] p.methods@[k] matches Some(m)
        ==> m.bytecode_len <= MAX_BYTECODE) by {
        assert(p.methods@[k] matches Some(m) ==> method_restorable(m));
    }
    assert(saveable(p));
    lemma_snapshot_len(p);
    lemma_methods_img_len(p.methods@);
    lemma_cp_img_len(p.constant_pool@.subrange(0, p.cp_count as int));
    lemma_applets_img_len(p.applets@);
    lemma_imports_img_len(p.imports@);
    lemma_u16s_img_len(p.method_offsets@);
    lemma_exports_img_len(p.exports@);
    lemma_carries_split(b, 0, a0 + a1 + a2 + a3 + a4 + a5 + a6 + a7 + a8 + a9 + a10 + a11 + a12
        + a13 + a14 + a15, a16);
    lemma_carries_split(b, 0, a0 + a1 + a2 + a3 + a4 + a5 + a6 + a7 + a8 + a9 + a10 + a11 + a12
        + a13 + a14, a15);
    lemma_carries_split(b, 0, a0 + a1 + a2 + a3 + a4 + a5 + a6 + a7 + a8 + a9 + a10 + a11 + a12
        + a13, a14);
    lemma_carries_split(b, 0, a0 + a1 + a2 + a3 + a4 + a5 + a6 + a7 + a8 + a9 + a10 + a11 + a12,
        a13);
    lemma_carries_split(b, 0, a0 + a1 + a2 + a3 + a4 + a5 + a6 + a7 + a8 + a9 + a10 + a11, a12);
    lemma_carries_split(b, 0, a0 + a1 + a2 + a3 + a4 + a5 + a6 + a7 + a8 + a9 + a10, a11);
    lemma_carries_split(b, 0, a0 + a1 + a2 + a3 + a4 + a5 + a6 + a7 + a8 + a9, a10);
    lemma_carries_split(b, 0, a0 + a1 + a2 + a3 + a4 + a5 + a6 + a7 + a8, a9);
    lemma_carries_split(b, 0, a0 + a1 + a2 + a3 + a4 + a5 + a6 + a7, a8);
    lemma_carries_split(b, 0, a0 + a1 + a2 + a3 + a4 + a5 + a6, a7);
    lemma_carries_split(b, 0, a0 + a1 + a2 + a3 + a4 + a5, a6);
    lemma_carries_split(b, 0, a0 + a1 + a2 + a3 + a4, a5);
    lemma_carries_split(b, 0, a0 + a1 + a2 + a3, a4);
    lemma_carries_split(b, 0, a0 + a1 + a2, a3);
    lemma_carries_split(b, 0, a0 + a1, a2);
    lemma_carries_split(b, 0, a0, a1);
}


/// Where the trailing blocks of a carried image sit in `b`.
proof fn lemma_block_positions(b: Seq<u8>, p: Package)
    requires
        restorable(p),
        carries_blocks(b, p),
        cp_at(p) + 2 + 4 * p.cp_count + APPLET_BLOCK_SIZE + IMPORT_BLOCK_SIZE
            + METHOD_OFFSETS_BLOCK_SIZE + EXPORT_BLOCK_SIZE + REF_LOC_BLOCK_SIZE <= b.len(),
    ensures
        cp_pos(b) == cp_at(p),
        has_cp(b),
        cp_count_of(b) == p.cp_count,
        applet_pos(b) == cp_at(p) + 2 + 4 * p.cp_count,
        has_applets(b),
        import_pos(b) == applet_pos(b) + APPLET_BLOCK_SIZE,
        has_imports(b),
        moff_pos(b) == import_pos(b) + IMPORT_BLOCK_SIZE,
        has_moffs(b),
        export_pos(b) == moff_pos(b) + METHOD_OFFSETS_BLOCK_SIZE,
        has_exports(b),
        refloc_pos(b) == export_pos(b) + EXPORT_BLOCK_SIZE,
        has_refloc(b),
{
    lemma_mslot_pos(b, p, MAX_METHODS as nat);
    assert(p.methods@.subrange(0, MAX_METHODS as int) =~= p.methods@);
    lemma_carries_le16(b, cp_at(p), p.cp_count);
}

/// What the lemmas below need of `b`: it carries each block of the image of `p`, and
/// the whole image fits.
pub open spec fn carries_image(b: Seq<u8>, p: Package) -> bool {
    &&& restorable(p)
    &&& carries_blocks(b, p)
    &&& cp_at(p) + 2 + 4 * p.cp_count + APPLET_BLOCK_SIZE + IMPORT_BLOCK_SIZE
        + METHOD_OFFSETS_BLOCK_SIZE + EXPORT_BLOCK_SIZE + REF_LOC_BLOCK_SIZE <= b.len()
}

proof fn lemma_rt_methods(b: Seq<u8>, p: Package)
    requires
        carries_image(b, p),
    ensures
        b.len() >= 18,
        b[0] == p.aid_len,
        forall|i: int| 0 <= i < MAX_AID_LEN ==> #[trigger] p.aid@[i] == b[1 + i],
        p.method_count == b[17],
        forall|k: nat| k < MAX_METHODS ==> #[trigger] mslot_ok(b, k),
        forall|k: nat|
            k < MAX_METHODS ==> (if b[mslot_pos(b, k)] == 0 {
                #[trigger] p.methods@[k as int] is None
            } else {
                p.methods@[k as int] is Some && mrec_decodes(
                    p.methods@[k as int]->0,
                    b,
                    mslot_pos(b, k) + 1,
                )
            }),
{
    lemma_carries_byte(b, 0, p.aid_len);
    lemma_carries_bytes(b, 1, p.aid@);
    lemma_carries_byte(b, 17, p.method_count);
    assert forall|k: nat| k < MAX_METHODS implies #[trigger] mslot_ok(b, k) by {
        lemma_mslot(b, p, k);
    }
    assert forall|k: nat|
        k < MAX_METHODS implies (if b[mslot_pos(b, k)] == 0 {
            #[trigger] p.methods@[k as int] is None
        } else {
            p.methods@[k as int] is Some && mrec_decodes(
                p.methods@[k as int]->0,
                b,
                mslot_pos(b, k) + 1,
            )
        }) by {
        lemma_mslot(b, p, k);
    }
}

proof fn lemma_rt_cp(b: Seq<u8>, p: Package)
    requires
        carries_image(b, p),
    ensures
        has_cp(b),
        cp_count_of(b) == p.cp_count,
        cp_pos(b) + 2 + 4 * cp_count_of(b) <= b.len(),
        forall|i: int| 0 <= i < MAX_CP_ENTRIES ==> (if i < p.cp_count {
            (#[trigger] p.constant_pool@[i]).tag == b[cp_pos(b) + 2 + 4 * i] && p.constant_pool@[i].info@
                == seq![b[cp_pos(b) + 3 + 4 * i], b[cp_pos(b) + 4 + 4 * i], b[cp_pos(b) + 5 + 4 * i]]
        } else {
            p.constant_pool@[i].tag == 0 && p.constant_pool@[i].info@ == seq![0u8, 0u8, 0u8]
        }),
{
    lemma_block_positions(b, p);
    let c = cp_at(p);
    let cps = p.constant_pool@.subrange(0, p.cp_count as int);
    lemma_carries_cp(b, c + 2, cps);
    assert forall|i: int| 0 <= i < MAX_CP_ENTRIES implies (if i < p.cp_count {
        (#[trigger] p.constant_pool@[i]).tag == b[cp_pos(b) + 2 + 4 * i] && p.constant_pool@[i].info@
            == seq![b[cp_pos(b) + 3 + 4 * i], b[cp_pos(b) + 4 + 4 * i], b[cp_pos(b) + 5 + 4 * i]]
    } else {
        p.constant_pool@[i].tag == 0 && p.constant_pool@[i].info@ == seq![0u8, 0u8, 0u8]
    }) by {
        if i < p.cp_count {
            assert(cps[i] == p.constant_pool@[i]);
            assert(p.constant_pool@[i].info@ =~= seq![
                b[cp_pos(b) + 3 + 4 * i],
                b[cp_pos(b) + 4 + 4 * i],
                b[cp_pos(b) + 5 + 4 * i],
            ]);
        }
    }
}

proof fn lemma_rt_applets(b: Seq<u8>, p: Package)
    requires
        carries_image(b, p),
    ensures
        has_applets(b),
        b[applet_pos(b)] == p.applet_count,
        forall|k: int| 0 <= k < MAX_APPLETS_PER_PACKAGE ==> #[trigger] aslot_ok(b, k),
        forall|k: int| 0 <= k < MAX_APPLETS_PER_PACKAGE ==> (if has_applets(b) && b[aslot(b, k)] != 0 {
            (#[trigger] p.applets@[k]) is Some && p.applets@[k]->0.aid_len == b[aslot(b, k) + 1] && (forall|i: int|
                0 <= i < MAX_AID_LEN ==> #[trigger] p.applets@[k]->0.aid@[i] == b[aslot(b, k) + 2 + i])
                && p.applets@[k]->0.install_method_offset == le16_of(b, aslot(b, k) + 18)
        } else {
            p.applets@[k] is None
        }),
{
    lemma_block_positions(b, p);
    let a = applet_pos(b);
    lemma_carries_byte(b, a, p.applet_count);
    lemma_carries_applets(b, a + 1, p.applets@);
    assert forall|k: int| 0 <= k < MAX_APPLETS_PER_PACKAGE implies #[trigger] aslot_ok(b, k) by {
        lemma_carries_applet(b, a + 1 + 20 * k, p.applets@[k]);
        assert(p.applets@[k] matches Some(ap) ==> ap.aid_len <= MAX_AID_LEN);
    }
    assert forall|k: int| 0 <= k < MAX_APPLETS_PER_PACKAGE implies (if has_applets(b) && b[aslot(b, k)] != 0 {
        (#[trigger] p.applets@[k]) is Some && p.applets@[k]->0.aid_len == b[aslot(b, k) + 1] && (forall|i: int|
            0 <= i < MAX_AID_LEN ==> #[trigger] p.applets@[k]->0.aid@[i] == b[aslot(b, k) + 2 + i])
            && p.applets@[k]->0.install_method_offset == le16_of(b, aslot(b, k) + 18)
    } else {
        p.applets@[k] is None
    }) by {
        lemma_carries_applet(b, a + 1 + 20 * k, p.applets@[k]);
        assert(p.applets@[k] matches Some(ap) ==> ap.aid_len <= MAX_AID_LEN);
    }
}

proof fn lemma_rt_imports(b: Seq<u8>, p: Package)
    requires
        carries_image(b, p),
    ensures
        has_imports(b),
        b[import_pos(b)] == p.import_count,
        forall|k: int| 0 <= k < MAX_IMPORTS_PER_PACKAGE ==> #[trigger] islot_ok(b, k),
        forall|k: int| 0 <= k < MAX_IMPORTS_PER_PACKAGE ==> (if has_imports(b) && b[islot(b, k)] != 0 {
            (#[trigger] p.imports@[k]) is Some && p.imports@[k]->0.minor_version == b[islot(b, k) + 1]
                && p.imports@[k]->0.major_version == b[islot(b, k) + 2] && p.imports@[k]->0.aid_len
                == b[islot(b, k) + 3] && (forall|i: int|
                0 <= i < MAX_AID_LEN ==> #[trigger] p.imports@[k]->0.aid@[i] == b[islot(b, k) + 4 + i])
        } else {
            p.imports@[k] is None
        }),
{
    lemma_block_positions(b, p);
    let im = import_pos(b);
    lemma_carries_byte(b, im, p.import_count);
    lemma_carries_imports(b, im + 1, p.imports@);
    assert forall|k: int| 0 <= k < MAX_IMPORTS_PER_PACKAGE implies #[trigger] islot_ok(b, k) by {
        lemma_carries_import(b, im + 1 + 20 * k, p.imports@[k]);
        assert(p.imports@[k] matches Some(ip) ==> ip.aid_len <= MAX_AID_LEN);
    }
    assert forall|k: int| 0 <= k < MAX_IMPORTS_PER_PACKAGE implies (if has_imports(b) && b[islot(b, k)] != 0 {
        (#[trigger] p.imports@[k]) is Some && p.imports@[k]->0.minor_version == b[islot(b, k) + 1]
            && p.imports@[k]->0.major_version == b[islot(b, k) + 2] && p.imports@[k]->0.aid_len
            == b[islot(b, k) + 3] && (forall|i: int|
            0 <= i < MAX_AID_LEN ==> #[trigger] p.imports@[k]->0.aid@[i] == b[islot(b, k) + 4 + i])
    } else {
        p.imports@[k] is None
    }) by {
        lemma_carries_import(b, im + 1 + 20 * k, p.imports@[k]);
        assert(p.imports@[k] matches Some(ip) ==> ip.aid_len <= MAX_AID_LEN);
    }
}

proof fn lemma_rt_exports(b: Seq<u8>, p: Package)
    requires
        carries_image(b, p),
    ensures
        has_moffs(b),
        forall|i: int|
            0 <= i < MAX_METHODS ==> #[trigger] p.method_offsets@[i] == (if has_moffs(b) {
                le16_of(b, moff_pos(b) + 2 * i)
            } else {
                0
            }),
        has_exports(b),
        b[export_pos(b)] == p.export_count,
        forall|k: int| 0 <= k < MAX_EXPORTED_CLASSES_PER_PACKAGE ==> #[trigger] xslot_ok(b, k),
        forall|k: int| 0 <= k < MAX_EXPORTED_CLASSES_PER_PACKAGE ==> (if has_exports(b) && b[xslot(b, k)] != 0 {
            (#[trigger] p.exports@[k]) is Some && p.exports@[k]->0.class_offset == le16_of(b, xslot(b, k) + 1)
                && p.exports@[k]->0.static_field_count == b[xslot(b, k) + 3]
                && p.exports@[k]->0.static_method_count == b[xslot(b, k) + 4] && (forall|i: int|
                0 <= i < MAX_EXPORTED_FIELDS_PER_CLASS ==> #[trigger] p.exports@[k]->0.static_field_offsets@[i]
                    == le16_of(b, xslot(b, k) + 5 + 2 * i)) && (forall|i: int|
                0 <= i < MAX_EXPORTED_METHODS_PER_CLASS ==> #[trigger] p.exports@[k]->0.static_method_offsets@[i]
                    == le16_of(b, xslot(b, k) + 37 + 2 * i))
        } else {
            p.exports@[k] is None
        }),
{
    lemma_block_positions(b, p);
    lemma_carries_u16s(b, moff_pos(b), p.method_offsets@);
    let x = export_pos(b);
    lemma_carries_byte(b, x, p.export_count);
    lemma_carries_exports(b, x + 1, p.exports@);
    assert forall|k: int| 0 <= k < MAX_EXPORTED_CLASSES_PER_PACKAGE implies #[trigger] xslot_ok(b, k) by {
        lemma_carries_export(b, x + 1 + 69 * k, p.exports@[k]);
        assert(p.exports@[k] matches Some(e) ==> e.static_field_count
            <= MAX_EXPORTED_FIELDS_PER_CLASS && e.static_method_count
            <= MAX_EXPORTED_METHODS_PER_CLASS);
    }
    assert forall|k: int| 0 <= k < MAX_EXPORTED_CLASSES_PER_PACKAGE implies (if has_exports(b) && b[xslot(b, k)] != 0 {
        (#[trigger] p.exports@[k]) is Some && p.exports@[k]->0.class_offset == le16_of(b, xslot(b, k) + 1)
            && p.exports@[k]->0.static_field_count == b[xslot(b, k) + 3]
            && p.exports@[k]->0.static_method_count == b[xslot(b, k) + 4] && (forall|i: int|
            0 <= i < MAX_EXPORTED_FIELDS_PER_CLASS ==> #[trigger] p.exports@[k]->0.static_field_offsets@[i]
                == le16_of(b, xslot(b, k) + 5 + 2 * i)) && (forall|i: int|
            0 <= i < MAX_EXPORTED_METHODS_PER_CLASS ==> #[trigger] p.exports@[k]->0.static_method_offsets@[i]
                == le16_of(b, xslot(b, k) + 37 + 2 * i))
    } else {
        p.exports@[k] is None
    }) by {
        lemma_carries_export(b, x + 1 + 69 * k, p.exports@[k]);
        assert(p.exports@[k] matches Some(e) ==> e.static_field_count
            <= MAX_EXPORTED_FIELDS_PER_CLASS && e.static_method_count
            <= MAX_EXPORTED_METHODS_PER_CLASS);
    }
}

proof fn lemma_rt_refloc(b: Seq<u8>, p: Package)
    requires
        carries_image(b, p),
    ensures
        has_refloc(b),
        le16_of(b, refloc_pos(b)) == p.ref_loc_byte_count,
        le16_of(b, refloc_pos(b) + 2 + MAX_REF_LOC_BYTE_INDICES) == p.ref_loc_byte2_count,
        forall|i: int| 0 <= i < MAX_REF_LOC_BYTE_INDICES ==> #[trigger] p.ref_loc_byte_deltas@[i]
            == b[refloc_pos(b) + 2 + i],
        forall|i: int| 0 <= i < MAX_REF_LOC_BYTE2_INDICES ==> #[trigger] p.ref_loc_byte2_deltas@[i]
            == b[refloc_pos(b) + 4 + MAX_REF_LOC_BYTE_INDICES + i],
{
    lemma_block_positions(b, p);
    let r = refloc_pos(b);
    lemma_carries_le16(b, r, p.ref_loc_byte_count);
    lemma_carries_bytes(b, r + 2, p.ref_loc_byte_deltas@);
    lemma_carries_le16(b, r + 2 + MAX_REF_LOC_BYTE_INDICES, p.ref_loc_byte2_count);
    lemma_carries_bytes(b, r + 4 + MAX_REF_LOC_BYTE_INDICES, p.ref_loc_byte2_deltas@);
}

/// Saving then restoring gives the package back: a buffer that holds the image
/// [`Package::save_state`] writes for a [`restorable`] package (whatever its other bytes)
/// is a snapshot [`Package::restore_state`] accepts, and the package it describes is the
/// one that was saved.
pub proof fn lemma_snapshot_roundtrip(p: Package, old: Seq<u8>, b: Seq<u8>)
    requires
        restorable(p),
        written(b, old, snapshot_image(p)),
    ensures
        snapshot_ok(b),
        restored(p, b),
{
    lemma_written_carries(b, old, snapshot_image(p));
    lemma_carried_roundtrip(p, b);
}

/// A buffer that an image was written over carries the image.
pub proof fn lemma_written_carries(b: Seq<u8>, old: Seq<u8>, img: Seq<Option<u8>>)
    requires
        written(b, old, img),
    ensures
        carries(b, 0, img),
{
    assert forall|i: int| 0 <= i < img.len() && (#[trigger] img[i]) is Some implies b[0 + i]
        == img[i]->0 by {
        assert(b[i] == (if i < img.len() && img[i] is Some {
            img[i]->0
        } else {
            old[i]
        }));
    }
}

/// [`lemma_snapshot_roundtrip`] for any bytes that carry the image from their start.
pub proof fn lemma_carried_roundtrip(p: Package, b: Seq<u8>)
    requires
        restorable(p),
        carries(b, 0, snapshot_image(p)),
    ensures
        snapshot_ok(b),
        restored(p, b),
{
    lemma_image_blocks(p, b);
    lemma_rt_methods(b, p);
    lemma_rt_cp(b, p);
    lemma_rt_applets(b, p);
    lemma_rt_imports(b, p);
    lemma_rt_exports(b, p);
    lemma_rt_refloc(b, p);
}


// ---------------------------------------------------------------- a snapshot names one package

proof fn lemma_mrec_unique(m1: MethodInfo, m2: MethodInfo, b: Seq<u8>, p: int)
    requires
        mrec_decodes(m1, b, p),
        mrec_decodes(m2, b, p),
    ensures
        m1 == m2,
{
    assert(m1.bytecode =~= m2.bytecode) by {
        assert forall|i: int| 0 <= i < MAX_BYTECODE implies m1.bytecode[i] == m2.bytecode[i] by {
            if i < mrec_len(b, p) {
                assert(m1.bytecode@[i] == b[p + 6 + i]);
                assert(m2.bytecode@[i] == b[p + 6 + i]);
            } else {
                assert(m1.bytecode@[i] == 0);
                assert(m2.bytecode@[i] == 0);
            }
        }
    }
    assert(m1.exception_table =~= m2.exception_table) by {
        assert forall|k: int| 0 <= k < MAX_EXCEPTIONS implies m1.exception_table[k]
            == m2.exception_table[k] by {
            if k < mrec_exc_count(b, p) {
                assert(m1.exception_table@[k] == m2.exception_table@[k]);
            } else {
                assert(m1.exception_table@[k] is None);
                assert(m2.exception_table@[k] is None);
            }
        }
    }
}

/// The package with the fields a snapshot does not carry (the static field sizes and
/// the classes) taken from `q`, and every other field from `p`.
pub open spec fn with_unsaved_of(p: Package, q: Package) -> Package {
    Package {
        static_field_image_size: q.static_field_image_size,
        static_reference_count: q.static_reference_count,
        classes: q.classes,
        class_count: q.class_count,
        ..p
    }
}

/// A snapshot names one package: two packages that both hold what the snapshot `b`
/// restores agree on every field a snapshot carries.
pub proof fn lemma_restored_unique(p: Package, q: Package, b: Seq<u8>)
    requires
        restored(p, b),
        restored(q, b),
    ensures
        q == with_unsaved_of(p, q),
{
    let w = with_unsaved_of(p, q);
    assert(q.aid =~= w.aid) by {
        assert forall|i: int| 0 <= i < MAX_AID_LEN implies q.aid[i] == w.aid[i] by {
            assert(q.aid@[i] == b[1 + i] && p.aid@[i] == b[1 + i]);
        }
    }
    assert(q.methods =~= w.methods) by {
        assert forall|k: int| 0 <= k < MAX_METHODS implies q.methods[k] == w.methods[k] by {
            assert(q.methods@[k as nat as int] == q.methods@[k]);
            if b[mslot_pos(b, k as nat)] != 0 {
                lemma_mrec_unique(
                    q.methods@[k]->0,
                    p.methods@[k]->0,
                    b,
                    mslot_pos(b, k as nat) + 1,
                );
            }
        }
    }
    assert(q.method_offsets =~= w.method_offsets) by {
        assert forall|i: int| 0 <= i < MAX_METHODS implies q.method_offsets[i] == w.method_offsets[i] by {
            assert(q.method_offsets@[i] == p.method_offsets@[i]);
        }
    }
    assert(q.constant_pool =~= w.constant_pool) by {
        assert forall|i: int| 0 <= i < MAX_CP_ENTRIES implies q.constant_pool[i] == w.constant_pool[i] by {
            let a = q.constant_pool@[i];
            let c = p.constant_pool@[i];
            assert(a.tag == c.tag && a.info@ == c.info@);
            assert(a.info =~= c.info) by {
                assert forall|j: int| 0 <= j < 3 implies a.info[j] == c.info[j] by {
                    assert(a.info@[j] == c.info@[j]);
                }
            }
        }
    }
    assert(q.applets =~= w.applets) by {
        assert forall|k: int| 0 <= k < MAX_APPLETS_PER_PACKAGE implies q.applets[k] == w.applets[k] by {
            if has_applets(b) && b[aslot(b, k)] != 0 {
                let x = q.applets@[k]->0;
                let y = p.applets@[k]->0;
                assert(x.aid =~= y.aid) by {
                    assert forall|i: int| 0 <= i < MAX_AID_LEN implies x.aid[i] == y.aid[i] by {
                        assert(x.aid@[i] == b[aslot(b, k) + 2 + i]);
                        assert(y.aid@[i] == b[aslot(b, k) + 2 + i]);
                    }
                }
            } else {
                assert(q.applets@[k] is None && p.applets@[k] is None);
            }
        }
    }
    assert(q.imports =~= w.imports) by {
        assert forall|k: int| 0 <= k < MAX_IMPORTS_PER_PACKAGE implies q.imports[k] == w.imports[k] by {
            if has_imports(b) && b[islot(b, k)] != 0 {
                let x = q.imports@[k]->0;
                let y = p.imports@[k]->0;
                assert(x.aid =~= y.aid) by {
                    assert forall|i: int| 0 <= i < MAX_AID_LEN implies x.aid[i] == y.aid[i] by {
                        assert(x.aid@[i] == b[islot(b, k) + 4 + i]);
                        assert(y.aid@[i] == b[islot(b, k) + 4 + i]);
                    }
                }
            } else {
                assert(q.imports@[k] is None && p.imports@[k] is None);
            }
        }
    }
    assert(q.exports =~= w.exports) by {
        assert forall|k: int| 0 <= k < MAX_EXPORTED_CLASSES_PER_PACKAGE implies q.exports[k] == w.exports[k] by {
            if has_exports(b) && b[xslot(b, k)] != 0 {
                let x = q.exports@[k]->0;
                let y = p.exports@[k]->0;
                assert(x.static_field_offsets =~= y.static_field_offsets) by {
                    assert forall|i: int| 0 <= i < MAX_EXPORTED_FIELDS_PER_CLASS implies x.static_field_offsets[i] == y.static_field_offsets[i] by {
                        assert(x.static_field_offsets@[i] == le16_of(b, xslot(b, k) + 5 + 2 * i));
                        assert(y.static_field_offsets@[i] == le16_of(b, xslot(b, k) + 5 + 2 * i));
                    }
                }
                assert(x.static_method_offsets =~= y.static_method_offsets) by {
                    assert forall|i: int| 0 <= i < MAX_EXPORTED_METHODS_PER_CLASS implies x.static_method_offsets[i] == y.static_method_offsets[i] by {
                        assert(x.static_method_offsets@[i] == le16_of(b, xslot(b, k) + 37 + 2 * i));
                        assert(y.static_method_offsets@[i] == le16_of(b, xslot(b, k) + 37 + 2 * i));
                    }
                }
            } else {
                assert(q.exports@[k] is None && p.exports@[k] is None);
            }
        }
    }
    assert(q.ref_loc_byte_deltas =~= w.ref_loc_byte_deltas) by {
        assert forall|i: int| 0 <= i < MAX_REF_LOC_BYTE_INDICES implies q.ref_loc_byte_deltas[i] == w.ref_loc_byte_deltas[i] by {
            assert(q.ref_loc_byte_deltas@[i] == p.ref_loc_byte_deltas@[i]);
        }
    }
    assert(q.ref_loc_byte2_deltas =~= w.ref_loc_byte2_deltas) by {
        assert forall|i: int| 0 <= i < MAX_REF_LOC_BYTE2_INDICES implies q.ref_loc_byte2_deltas[i] == w.ref_loc_byte2_deltas[i] by {
            assert(q.ref_loc_byte2_deltas@[i] == p.ref_loc_byte2_deltas@[i]);
        }
    }
}

/// Restoring what saving wrote gives the saved package back: after [`Package::save_state`]
/// wrote the image of a [`restorable`] package `p` into a buffer, any package that holds
/// what the buffer restores (as [`Package::restore_state`] makes the package it restores
/// into) is `p`, but for the fields a snapshot does not carry.
pub proof fn lemma_save_then_restore(p: Package, old: Seq<u8>, b: Seq<u8>, q: Package)
    requires
        restorable(p),
        written(b, old, snapshot_image(p)),
        restored(q, b),
    ensures
        snapshot_ok(b),
        q == with_unsaved_of(p, q),
{
    lemma_snapshot_roundtrip(p, old, b);
    lemma_restored_unique(p, q, b);
}


// ---------------------------------------------------------------- the field-wise law

/// A package whose snapshot carries every field it has: each count within what a
/// snapshot may carry, each AID length within an AID, and each method's bytecode length
/// within the bytecode array. (Unlike [`restorable`], its methods may hold bytes past
/// their bytecode, gaps in their exception tables, and its unused constant pool entries
/// anything: a snapshot does not carry those.)
pub open spec fn snapshot_carried(p: Package) -> bool {
    &&& p.aid_len <= MAX_AID_LEN
    &&& forall|k: int| 0 <= k < MAX_METHODS ==> (#[trigger] p.methods@[k] matches Some(m)
        ==> m.bytecode_len <= MAX_BYTECODE)
    &&& p.cp_count <= MAX_CP_ENTRIES
    &&& p.applet_count <= MAX_APPLETS_PER_PACKAGE
    &&& forall|k: int| 0 <= k < MAX_APPLETS_PER_PACKAGE ==> (#[trigger] p.applets@[k] matches Some(a)
        ==> a.aid_len <= MAX_AID_LEN)
    &&& p.import_count <= MAX_IMPORTS_PER_PACKAGE
    &&& forall|k: int| 0 <= k < MAX_IMPORTS_PER_PACKAGE ==> (#[trigger] p.imports@[k] matches Some(i)
        ==> i.aid_len <= MAX_AID_LEN)
    &&& p.export_count <= MAX_EXPORTED_CLASSES_PER_PACKAGE
    &&& forall|k: int| 0 <= k < MAX_EXPORTED_CLASSES_PER_PACKAGE ==> (#[trigger] p.exports@[k] matches Some(e)
        ==> e.static_field_count <= MAX_EXPORTED_FIELDS_PER_CLASS && e.static_method_count
        <= MAX_EXPORTED_METHODS_PER_CLASS)
    &&& p.ref_loc_byte_count <= MAX_REF_LOC_BYTE_INDICES
    &&& p.ref_loc_byte2_count <= MAX_REF_LOC_BYTE2_INDICES
}

spec fn zero_from(a: [u8; MAX_BYTECODE], i: nat) -> [u8; MAX_BYTECODE]
    decreases MAX_BYTECODE - i,
{
    if i >= MAX_BYTECODE {
        a
    } else {
        zero_from(vstd::array::spec_array_update(a, i as int, 0u8), i + 1)
    }
}

proof fn lemma_zero_from(a: [u8; MAX_BYTECODE], i: nat)
    requires
        i <= MAX_BYTECODE,
    ensures
        forall|j: int| 0 <= j < i ==> #[trigger] zero_from(a, i)@[j] == a@[j],
        forall|j: int| i <= j < MAX_BYTECODE ==> #[trigger] zero_from(a, i)@[j] == 0,
    decreases MAX_BYTECODE - i,
{
    if i < MAX_BYTECODE {
        let a1 = vstd::array::spec_array_update(a, i as int, 0u8);
        lemma_zero_from(a1, i + 1);
        assert(zero_from(a, i) == zero_from(a1, i + 1));
        assert(a1@ == a@.update(i as int, 0u8));
    }
}

spec fn table_of(
    t: [Option<ExceptionEntry>; MAX_EXCEPTIONS],
    es: Seq<ExceptionEntry>,
    i: nat,
) -> [Option<ExceptionEntry>; MAX_EXCEPTIONS]
    decreases MAX_EXCEPTIONS - i,
{
    if i >= MAX_EXCEPTIONS {
        t
    } else {
        table_of(
            vstd::array::spec_array_update(
                t,
                i as int,
                if i < es.len() {
                    Some(es[i as int])
                } else {
                    None
                },
            ),
            es,
            i + 1,
        )
    }
}

proof fn lemma_table_of(t: [Option<ExceptionEntry>; MAX_EXCEPTIONS], es: Seq<ExceptionEntry>, i: nat)
    requires
        i <= MAX_EXCEPTIONS,
        forall|j: int| 0 <= j < i ==> #[trigger] t@[j] == (if j < es.len() {
            Some(es[j])
        } else {
            None::<ExceptionEntry>
        }),
    ensures
        forall|j: int| 0 <= j < MAX_EXCEPTIONS ==> #[trigger] table_of(t, es, i)@[j] == (if j
            < es.len() {
            Some(es[j])
        } else {
            None::<ExceptionEntry>
        }),
    decreases MAX_EXCEPTIONS - i,
{
    if i < MAX_EXCEPTIONS {
        let t1 = vstd::array::spec_array_update(
            t,
            i as int,
            if i < es.len() {
                Some(es[i as int])
            } else {
                None
            },
        );
        lemma_table_of(t1, es, i + 1);
    }
}

/// A table holding `es` in its first slots and nothing after holds the entries `es`.
proof fn lemma_entries_of_filled(t: Seq<Option<ExceptionEntry>>, es: Seq<ExceptionEntry>)
    requires
        es.len() <= t.len(),
        forall|j: int| 0 <= j < t.len() ==> #[trigger] t[j] == (if j < es.len() {
            Some(es[j])
        } else {
            None::<ExceptionEntry>
        }),
    ensures
        exc_entries(t) == es,
    decreases t.len(),
{
    if t.len() > 0 {
        let t0 = t.drop_last();
        if es.len() == t.len() {
            let e0 = es.drop_last();
            assert forall|j: int| 0 <= j < t0.len() implies #[trigger] t0[j] == (if j < e0.len() {
                Some(e0[j])
            } else {
                None::<ExceptionEntry>
            }) by {
                assert(t0[j] == t[j]);
            }
            lemma_entries_of_filled(t0, e0);
            assert(es =~= e0.push(es.last()));
        } else {
            assert forall|j: int| 0 <= j < t0.len() implies #[trigger] t0[j] == (if j < es.len() {
                Some(es[j])
            } else {
                None::<ExceptionEntry>
            }) by {
                assert(t0[j] == t[j]);
            }
            lemma_entries_of_filled(t0, es);
        }
    } else {
        assert(es =~= Seq::<ExceptionEntry>::empty());
    }
}

/// `m` with zeros after its bytecode and its exception entries moved to the first slots.
spec fn norm_method(m: MethodInfo) -> MethodInfo {
    MethodInfo {
        bytecode: zero_from(m.bytecode, m.bytecode_len as nat),
        exception_table: table_of(m.exception_table, exc_entries(m.exception_table@), 0),
        ..m
    }
}

spec fn norm_methods(a: [Option<MethodInfo>; MAX_METHODS], i: nat) -> [Option<MethodInfo>; MAX_METHODS]
    decreases MAX_METHODS - i,
{
    if i >= MAX_METHODS {
        a
    } else {
        norm_methods(
            vstd::array::spec_array_update(
                a,
                i as int,
                match a@[i as int] {
                    Some(m) => Some(norm_method(m)),
                    None => None,
                },
            ),
            i + 1,
        )
    }
}

proof fn lemma_norm_methods(a: [Option<MethodInfo>; MAX_METHODS], orig: [Option<MethodInfo>; MAX_METHODS], i: nat)
    requires
        i <= MAX_METHODS,
        forall|j: int| 0 <= j < i ==> #[trigger] a@[j] == (match orig@[j] {
            Some(m) => Some(norm_method(m)),
            None => None,
        }),
        forall|j: int| i <= j < MAX_METHODS ==> #[trigger] a@[j] == orig@[j],
    ensures
        forall|j: int| 0 <= j < MAX_METHODS ==> #[trigger] norm_methods(a, i)@[j] == (match orig@[j] {
            Some(m) => Some(norm_method(m)),
            None => None,
        }),
    decreases MAX_METHODS - i,
{
    if i < MAX_METHODS {
        let a1 = vstd::array::spec_array_update(
            a,
            i as int,
            match a@[i as int] {
                Some(m) => Some(norm_method(m)),
                None => None,
            },
        );
        lemma_norm_methods(a1, orig, i + 1);
    }
}

spec fn zero_cp(a: [CpInfo; MAX_CP_ENTRIES], i: nat) -> [CpInfo; MAX_CP_ENTRIES]
    decreases MAX_CP_ENTRIES - i,
{
    if i >= MAX_CP_ENTRIES {
        a
    } else {
        zero_cp(
            vstd::array::spec_array_update(
                a,
                i as int,
                CpInfo { tag: 0, info: vstd::array::spec_array_fill_for_copy_type::<u8, 3>(0u8) },
            ),
            i + 1,
        )
    }
}

proof fn lemma_zero_cp(a: [CpInfo; MAX_CP_ENTRIES], i: nat)
    requires
        i <= MAX_CP_ENTRIES,
    ensures
        forall|j: int| 0 <= j < i ==> #[trigger] zero_cp(a, i)@[j] == a@[j],
        forall|j: int| i <= j < MAX_CP_ENTRIES ==> (#[trigger] zero_cp(a, i)@[j]).tag == 0
            && zero_cp(a, i)@[j].info@ == seq![0u8, 0u8, 0u8],
    decreases MAX_CP_ENTRIES - i,
{
    if i < MAX_CP_ENTRIES {
        let z = CpInfo { tag: 0, info: vstd::array::spec_array_fill_for_copy_type::<u8, 3>(0u8) };
        assert(z.info@ =~= seq![0u8, 0u8, 0u8]);
        let a1 = vstd::array::spec_array_update(a, i as int, z);
        lemma_zero_cp(a1, i + 1);
        assert(zero_cp(a, i) == zero_cp(a1, i + 1));
        assert(a1@ == a@.update(i as int, z));
    }
}

/// `p` with each method [`norm_method`]-ed and its unused constant pool entries zeroed:
/// the same snapshot image, and [`restorable`].
spec fn normalized(p: Package) -> Package {
    Package {
        methods: norm_methods(p.methods, 0),
        constant_pool: zero_cp(p.constant_pool, p.cp_count as nat),
        ..p
    }
}

proof fn lemma_methods_img_ext(s1: Seq<Option<MethodInfo>>, s2: Seq<Option<MethodInfo>>)
    requires
        s1.len() == s2.len(),
        forall|k: int| 0 <= k < s1.len() ==> method_img(#[trigger] s1[k]) == method_img(s2[k]),
    ensures
        methods_img(s1) == methods_img(s2),
    decreases s1.len(),
{
    if s1.len() > 0 {
        let a = s1.drop_last();
        let b = s2.drop_last();
        assert forall|k: int| 0 <= k < a.len() implies method_img(#[trigger] a[k]) == method_img(b[k]) by {
            assert(a[k] == s1[k] && b[k] == s2[k]);
        }
        lemma_methods_img_ext(a, b);
        assert(method_img(s1[s1.len() - 1]) == method_img(s2[s2.len() - 1]));
    }
}

proof fn lemma_normalized(p: Package)
    requires
        snapshot_carried(p),
    ensures
        restorable(normalized(p)),
        saveable(normalized(p)),
        snapshot_image(normalized(p)) == snapshot_image(p),
        forall|k: int| 0 <= k < MAX_METHODS ==> #[trigger] normalized(p).methods@[k] == (match p.methods@[k] {
            Some(m) => Some(norm_method(m)),
            None => None,
        }),
        forall|i: int| 0 <= i < p.cp_count ==> #[trigger] normalized(p).constant_pool@[i] == p.constant_pool@[i],
{
    let q = normalized(p);
    lemma_norm_methods(p.methods, p.methods, 0);
    lemma_zero_cp(p.constant_pool, p.cp_count as nat);
    assert forall|k: int| 0 <= k < MAX_METHODS implies method_img(#[trigger] q.methods@[k]) == method_img(
        p.methods@[k],
    ) && (q.methods@[k] matches Some(m) ==> method_restorable(m) && m.bytecode_len <= MAX_BYTECODE) by {
        if let Some(m) = p.methods@[k] {
            let n = norm_method(m);
            let es = exc_entries(m.exception_table@);
            lemma_exc_entries_len(m.exception_table@);
            lemma_zero_from(m.bytecode, m.bytecode_len as nat);
            lemma_table_of(m.exception_table, es, 0);
            lemma_entries_of_filled(n.exception_table@, es);
            assert(n.bytecode@.subrange(0, m.bytecode_len as int) =~= m.bytecode@.subrange(
                0,
                m.bytecode_len as int,
            ));
            assert(compact_table(n.exception_table@)) by {
                assert forall|i: int, j: int|
                    0 <= i < j < n.exception_table@.len() && #[trigger] n.exception_table@[i] is None implies #[trigger] n.exception_table@[j] is None by {
                }
            }
        }
    }
    lemma_methods_img_ext(q.methods@, p.methods@);
    assert(q.constant_pool@.subrange(0, p.cp_count as int) =~= p.constant_pool@.subrange(0, p.cp_count as int));
}

/// Saving then restoring gives back every field a snapshot carries, for any package
/// whose counts fit what a snapshot may carry: after [`Package::save_state`] wrote the
/// image of `p`, a package `q` that holds what the buffer restores has `p`'s AID, method
/// count, tables, counts, method offsets and reference-location deltas; each method slot
/// present or absent as in `p`, with `p`'s header bytes, bytecode (up to its length),
/// exception entries (in order) and offsets; and the first `cp_count` constant pool
/// entries of `p`.
pub proof fn lemma_save_then_restore_fields(p: Package, old: Seq<u8>, b: Seq<u8>, q: Package)
    requires
        snapshot_carried(p),
        written(b, old, snapshot_image(p)),
        restored(q, b),
    ensures
        snapshot_ok(b),
        q.aid == p.aid,
        q.aid_len == p.aid_len,
        q.method_count == p.method_count,
        forall|k: int| 0 <= k < MAX_METHODS ==> (#[trigger] q.methods@[k] is Some <==> p.methods@[k] is Some),
        forall|k: int|
            0 <= k < MAX_METHODS && #[trigger] q.methods@[k] is Some ==> {
                let a = q.methods@[k]->0;
                let c = p.methods@[k]->0;
                &&& a.flags == c.flags && a.max_stack == c.max_stack && a.nargs == c.nargs
                    && a.max_locals == c.max_locals
                &&& a.bytecode_len == c.bytecode_len
                &&& forall|i: int| 0 <= i < c.bytecode_len ==> #[trigger] a.bytecode@[i] == c.bytecode@[i]
                &&& exc_entries(a.exception_table@) == exc_entries(c.exception_table@)
                &&& a.descriptor_offset == c.descriptor_offset && a.class_offset == c.class_offset
            },
        q.cp_count == p.cp_count,
        forall|i: int| 0 <= i < p.cp_count ==> #[trigger] q.constant_pool@[i] == p.constant_pool@[i],
        q.applets == p.applets && q.applet_count == p.applet_count,
        q.imports == p.imports && q.import_count == p.import_count,
        q.exports == p.exports && q.export_count == p.export_count,
        q.method_offsets == p.method_offsets,
        q.ref_loc_byte_count == p.ref_loc_byte_count && q.ref_loc_byte_deltas == p.ref_loc_byte_deltas,
        q.ref_loc_byte2_count == p.ref_loc_byte2_count && q.ref_loc_byte2_deltas
            == p.ref_loc_byte2_deltas,
{
    let n = normalized(p);
    lemma_normalized(p);
    lemma_save_then_restore(n, old, b, q);
    assert forall|k: int|
        0 <= k < MAX_METHODS && #[trigger] q.methods@[k] is Some implies {
            let a = q.methods@[k]->0;
            let c = p.methods@[k]->0;
            &&& a.flags == c.flags && a.max_stack == c.max_stack && a.nargs == c.nargs
                && a.max_locals == c.max_locals
            &&& a.bytecode_len == c.bytecode_len
            &&& forall|i: int| 0 <= i < c.bytecode_len ==> #[trigger] a.bytecode@[i] == c.bytecode@[i]
            &&& exc_entries(a.exception_table@) == exc_entries(c.exception_table@)
            &&& a.descriptor_offset == c.descriptor_offset && a.class_offset == c.class_offset
        } by {
        assert(q.methods@[k] == n.methods@[k]);
        let c = p.methods@[k]->0;
        let es = exc_entries(c.exception_table@);
        lemma_exc_entries_len(c.exception_table@);
        lemma_zero_from(c.bytecode, c.bytecode_len as nat);
        lemma_table_of(c.exception_table, es, 0);
        lemma_entries_of_filled(norm_method(c).exception_table@, es);
    }
    assert forall|i: int| 0 <= i < p.cp_count implies #[trigger] q.constant_pool@[i] == p.constant_pool@[i] by {
        assert(q.constant_pool@[i] == n.constant_pool@[i]);
    }
}

} // verus!
