use simrs_jcvm::cap::cp_tag;
use simrs_jcvm::cap::{AppletInfo, CAP_MAGIC, CpInfo, ExportInfo, ImportInfo, MAX_APPLETS_PER_PACKAGE, MAX_BYTECODE, MAX_CP_ENTRIES, MAX_EXPORTED_CLASSES_PER_PACKAGE, MAX_IMPORTS_PER_PACKAGE, MAX_METHODS, MAX_REF_LOC_BYTE_INDICES, Package, ParseError, blob, build_cap_blob, parse_cap, snapshot};
use simrs_jcvm::cap::components::{tag};
use simrs_jcvm::cap::snapshot::{APPLET_BLOCK_SIZE, EXPORT_BLOCK_SIZE, IMPORT_BLOCK_SIZE, METHOD_OFFSETS_BLOCK_SIZE, REF_LOC_BLOCK_SIZE};
use simrs_jcvm::vm::{applet};
#[test]
fn parse_minimal_cap() {
    let aid = [0xA0, 0x00, 0x00, 0x00, 0x62];
    let bytecode: &[u8] = &[0x04, 0x78]; // sconst_1, sreturn
    let mut blob = [0u8; 512];
    let len = build_cap_blob(&aid, &[bytecode], &mut blob);

    let pkg = parse_cap(&blob[..len]).unwrap();
    assert!(pkg.aid_matches(&aid));
    assert_eq!(pkg.method_count, 1);
    let m = pkg.method(0).unwrap();
    assert!(m.is_static());
    assert_eq!(m.bytecode_len, 2);
    assert_eq!(&m.bytecode[..2], &[0x04, 0x78]);
}

#[test]
fn parse_bad_magic() {
    let data = [0x00, 0x00, 0x00, 0x00];
    assert!(matches!(parse_cap(&data), Err(ParseError::BadMagic)));
}

#[test]
fn parse_too_short() {
    assert!(matches!(
        parse_cap(&[0xDE, 0xCA]),
        Err(ParseError::TooShort)
    ));
}

#[test]
fn parse_aid_too_long() {
    let mut blob = [0u8; 32];
    blob[0..4].copy_from_slice(&CAP_MAGIC.to_be_bytes());
    blob[4] = 17; // AID length > 16
    assert!(matches!(parse_cap(&blob), Err(ParseError::AidTooLong)));
}

#[test]
fn parse_too_many_methods() {
    let mut blob = [0u8; 32];
    blob[0..4].copy_from_slice(&CAP_MAGIC.to_be_bytes());
    blob[4] = 1; // AID len
    blob[5] = 0xAA; // AID byte
    blob[6] = 33; // 33 methods > MAX_METHODS
    assert!(matches!(
        parse_cap(&blob[..7]),
        Err(ParseError::TooManyMethods)
    ));
}

#[test]
fn parse_bytecode_too_long() {
    let mut blob = [0u8; 32];
    blob[0..4].copy_from_slice(&CAP_MAGIC.to_be_bytes());
    blob[4] = 1; // AID len
    blob[5] = 0xAA; // AID
    blob[6] = 1; // 1 method
    blob[7] = 0; // flags
    blob[8] = 0; // max_stack
    blob[9] = 0; // nargs
    blob[10] = 0; // max_locals
    blob[11] = 0x01; // bytecode_len high byte
    blob[12] = 0x01; // bytecode_len = 257 > MAX_BYTECODE
    assert!(matches!(
        parse_cap(&blob[..13]),
        Err(ParseError::BytecodeTooLong)
    ));
}

#[test]
fn package_aid_mismatch() {
    let pkg = Package::empty();
    assert!(!pkg.aid_matches(&[0xAA]));
}

#[test]
fn method_index_out_of_range() {
    let pkg = Package::empty();
    assert!(pkg.method(0).is_none());
    assert!(pkg.method(255).is_none());
}

#[test]
fn build_multiple_methods() {
    let aid = [0xA0, 0x00];
    let bc1: &[u8] = &[0x03, 0x78]; // sconst_0, sreturn
    let bc2: &[u8] = &[0x04, 0x41, 0x78]; // sconst_1, sadd, sreturn
    let mut blob = [0u8; 512];
    let len = build_cap_blob(&aid, &[bc1, bc2], &mut blob);

    let pkg = parse_cap(&blob[..len]).unwrap();
    assert_eq!(pkg.method_count, 2);
    assert_eq!(pkg.method(0).unwrap().bytecode_len, 2);
    assert_eq!(pkg.method(1).unwrap().bytecode_len, 3);
}

#[test]
fn package_snapshot_roundtrip() {
    let aid = [0xA0, 0x00, 0x00, 0x00, 0x62];
    let bytecode: &[u8] = &[0x04, 0x78];
    let mut blob = [0u8; 512];
    let len = build_cap_blob(&aid, &[bytecode], &mut blob);
    let pkg = parse_cap(&blob[..len]).unwrap();

    let mut snap = [0u8; Package::MAX_SNAPSHOT_SIZE];
    let n = pkg.save_state(&mut snap);
    assert!(n > 0);

    let mut pkg2 = Package::empty();
    assert!(pkg2.restore_state(&snap[..n]));
    assert!(pkg2.aid_matches(&aid));
    assert_eq!(pkg2.method_count, 1);
    let m = pkg2.method(0).unwrap();
    assert_eq!(m.bytecode_len, 2);
    assert_eq!(&m.bytecode[..2], &[0x04, 0x78]);
}

#[test]
#[allow(clippy::cast_possible_truncation)]
fn package_snapshot_roundtrip_with_constant_pool() {
    // Snapshot a Package whose CP has every entry-type variant
    // and verify each entry round-trips byte-for-byte. Picks
    // adversarial info bytes (all distinct, high-bit set in some
    // positions) so a wrong-byte or wrong-offset bug would surface.
    let aid = [0xA0, 0x00, 0x00, 0x00, 0x62];
    let mut pkg = Package::empty();
    pkg.aid_len = aid.len() as u8;
    pkg.aid[..aid.len()].copy_from_slice(&aid);
    pkg.method_count = 0;

    let entries = [
        (cp_tag::CLASSREF, [0x12, 0x34, 0x00]),
        (cp_tag::CLASSREF, [0x80 | 0x05, 0x42, 0x00]),
        (cp_tag::INSTANCE_FIELDREF, [0x00, 0x10, 0x07]),
        (cp_tag::VIRTUAL_METHODREF, [0x00, 0x20, 0x82]),
        (cp_tag::SUPER_METHODREF, [0x80 | 0x03, 0x09, 0x05]),
        (cp_tag::STATIC_FIELDREF, [0x00, 0xAB, 0xCD]),
        (cp_tag::STATIC_METHODREF, [0x80 | 0x07, 0x11, 0x33]),
    ];
    for (i, (tag, info)) in entries.iter().enumerate() {
        pkg.constant_pool[i] = CpInfo {
            tag: *tag,
            info: *info,
        };
    }
    pkg.cp_count = entries.len() as u16;

    let mut snap = [0u8; Package::MAX_SNAPSHOT_SIZE];
    let n = pkg.save_state(&mut snap);
    assert!(n > 0);

    let mut pkg2 = Package::empty();
    assert!(pkg2.restore_state(&snap[..n]));
    assert_eq!(pkg2.cp_count, entries.len() as u16);
    for (i, (tag, info)) in entries.iter().enumerate() {
        let entry = pkg2.cp_entry(i as u16).expect("entry present");
        assert_eq!(entry.tag, *tag, "tag at index {i}");
        assert_eq!(entry.info, *info, "info at index {i}");
    }
}

#[test]
fn old_snapshot_without_constant_pool_block_restores_to_empty_cp() {
    // Forward compatibility: a snapshot saved before the CP block
    // existed simply ends after the methods. `restore_state` must
    // accept that and surface `cp_count = 0` rather than failing.
    // Construct one such snapshot by save-then-truncate.
    let mut pkg = Package::empty();
    pkg.aid_len = 1;
    pkg.aid[0] = 0xAA;
    let mut snap = [0u8; Package::MAX_SNAPSHOT_SIZE];
    let n = pkg.save_state(&mut snap);
    assert!(n >= 2);
    // Drop the trailing 2-byte cp_count + entries. The pre-CP
    // snapshot ends right after the per-method block.
    let truncated = &snap[..n - 2];

    let mut pkg2 = Package::empty();
    // Pre-populate to make the assertion meaningful: if restore
    // forgot to reset cp_count, this `7` would survive.
    pkg2.cp_count = 7;
    assert!(pkg2.restore_state(truncated));
    assert_eq!(pkg2.cp_count, 0);
}

// Block-size constants live at module scope (above `impl Package`) so
// `save_state`, `restore_state`, `MAX_SNAPSHOT_SIZE`, and these test
// helpers all consult one source of truth. Bumping a `MAX_*` field
// count then cascades through every site without per-call-site
// re-derivation.

/// Total trailing block size after the CP block: applet +
/// import + method-offsets + export + ref-loc.
const TRAILING_BLOCKS_AFTER_CP: usize = APPLET_BLOCK_SIZE
    + IMPORT_BLOCK_SIZE
    + METHOD_OFFSETS_BLOCK_SIZE
    + EXPORT_BLOCK_SIZE
    + REF_LOC_BLOCK_SIZE;

/// Locate the `cp_count` u16 in a snapshot whose CP, applet,
/// import, export, and ref-loc blocks are all empty.
const fn cp_count_offset_when_empty(n: usize) -> usize {
    n - TRAILING_BLOCKS_AFTER_CP - 2
}

/// Locate the `applet_count` byte in a snapshot whose applet,
/// import, method-offsets, export, and ref-loc blocks are empty.
const fn applet_count_offset_when_empty(n: usize) -> usize {
    n - REF_LOC_BLOCK_SIZE
        - EXPORT_BLOCK_SIZE
        - METHOD_OFFSETS_BLOCK_SIZE
        - IMPORT_BLOCK_SIZE
        - APPLET_BLOCK_SIZE
}

/// Locate the `import_count` byte in a snapshot whose import,
/// method-offsets, export, and ref-loc blocks are empty.
const fn import_count_offset_when_empty(n: usize) -> usize {
    n - REF_LOC_BLOCK_SIZE - EXPORT_BLOCK_SIZE - METHOD_OFFSETS_BLOCK_SIZE - IMPORT_BLOCK_SIZE
}

#[test]
fn restore_rejects_snapshot_with_cp_count_over_max() {
    // A malformed/attacker-controlled snapshot that claims more
    // CP entries than we can hold must be rejected. Silently
    // truncating would let a forged snapshot drop entries.
    let mut pkg = Package::empty();
    pkg.aid_len = 1;
    pkg.aid[0] = 0xAA;
    let mut snap = [0u8; Package::MAX_SNAPSHOT_SIZE];
    let n = pkg.save_state(&mut snap);
    // Overwrite cp_count at its computed offset (between the
    // method block and the applet block).
    let cp_count_off = cp_count_offset_when_empty(n);
    #[allow(clippy::cast_possible_truncation)]
    let bad = (MAX_CP_ENTRIES as u16) + 1;
    snap[cp_count_off..cp_count_off + 2].copy_from_slice(&bad.to_le_bytes());

    let mut pkg2 = Package::empty();
    assert!(
        !pkg2.restore_state(&snap[..n]),
        "restore must reject cp_count > MAX_CP_ENTRIES"
    );
}

#[test]
fn restore_rejects_snapshot_with_truncated_cp_entries() {
    // Snapshot's cp_count claims more entries than the buffer
    // holds. Reading past the buffer would be out-of-bounds.
    let mut pkg = Package::empty();
    pkg.aid_len = 1;
    pkg.aid[0] = 0xAA;
    // Claim 3 entries but truncate so that only 1 entry fits
    // after the cp_count header. cp_count is at `cp_count_offset()`;
    // entries start at `cp_count_offset() + 2`. Allow exactly
    // 1 entry (4 bytes) of CP payload, then truncate.
    pkg.cp_count = 3;
    pkg.constant_pool[0] = CpInfo {
        tag: cp_tag::CLASSREF,
        info: [0x00, 0x01, 0x00],
    };
    pkg.constant_pool[1] = CpInfo {
        tag: cp_tag::CLASSREF,
        info: [0x00, 0x02, 0x00],
    };
    pkg.constant_pool[2] = CpInfo {
        tag: cp_tag::CLASSREF,
        info: [0x00, 0x03, 0x00],
    };
    let mut snap = [0u8; Package::MAX_SNAPSHOT_SIZE];
    let n = pkg.save_state(&mut snap);
    // cp_count sits right after the method block. With cp_count = 3,
    // the snapshot wrote 3 * 4 = 12 entry bytes after cp_count,
    // then the empty applet block, the empty import block, the
    // method-offsets block, and the empty export block at the tail.
    let cp_count_off = n - TRAILING_BLOCKS_AFTER_CP - 12 - 2;
    // Truncate to: cp_count_off + cp_count(2) + 1 entry(4) -- 2
    // entries short. The parser must refuse to read past the
    // buffer when cp_count promises 3 entries but only 1 fits.
    let truncated_len = cp_count_off + 2 + 4;

    let mut pkg2 = Package::empty();
    assert!(
        !pkg2.restore_state(&snap[..truncated_len]),
        "restore must reject truncated CP entries"
    );
}

#[test]
#[allow(clippy::cast_possible_truncation)]
fn package_snapshot_roundtrip_with_applets() {
    // Snapshot a Package whose applets section has both a present
    // and an absent slot (count < MAX_APPLETS_PER_PACKAGE) so the
    // restore path exercises both branches.
    let pkg_aid = [0xA0, 0x00, 0x00, 0x00, 0x62];
    let mut pkg = Package::empty();
    pkg.aid_len = pkg_aid.len() as u8;
    pkg.aid[..pkg_aid.len()].copy_from_slice(&pkg_aid);
    let mut a1 = AppletInfo::empty();
    a1.aid[..3].copy_from_slice(&[0xA0, 0x11, 0x22]);
    a1.aid_len = 3;
    a1.install_method_offset = 0x0123;
    let mut a2 = AppletInfo::empty();
    a2.aid[..16].copy_from_slice(&[0xCC; 16]);
    a2.aid_len = 16;
    a2.install_method_offset = 0xBEEF;
    pkg.applets[0] = Some(a1);
    pkg.applets[1] = Some(a2);
    pkg.applet_count = 2;

    let mut snap = [0u8; Package::MAX_SNAPSHOT_SIZE];
    let n = pkg.save_state(&mut snap);
    assert!(n > 0);

    let mut pkg2 = Package::empty();
    assert!(pkg2.restore_state(&snap[..n]));
    assert_eq!(pkg2.applet_count, 2);
    assert_eq!(pkg2.applets[0], Some(a1));
    assert_eq!(pkg2.applets[1], Some(a2));
    assert_eq!(pkg2.applets[2], None);
}

#[test]
fn restore_rejects_snapshot_with_applet_count_over_max() {
    let mut pkg = Package::empty();
    pkg.aid_len = 1;
    pkg.aid[0] = 0xAA;
    let mut snap = [0u8; Package::MAX_SNAPSHOT_SIZE];
    let n = pkg.save_state(&mut snap);
    let off = applet_count_offset_when_empty(n);
    #[allow(clippy::cast_possible_truncation)]
    let bad = (MAX_APPLETS_PER_PACKAGE as u8) + 1;
    snap[off] = bad;

    let mut pkg2 = Package::empty();
    assert!(
        !pkg2.restore_state(&snap[..n]),
        "restore must reject applet_count > MAX_APPLETS_PER_PACKAGE"
    );
}

#[test]
fn old_snapshot_without_applet_block_restores_to_empty_applets() {
    // Forward compat: snapshots saved before the applet/import/
    // offsets/export blocks existed end after the CP block.
    // Restore must accept the truncated form and surface zeros
    // for everything beyond the CP.
    let mut pkg = Package::empty();
    pkg.aid_len = 1;
    pkg.aid[0] = 0xAA;
    let mut snap = [0u8; Package::MAX_SNAPSHOT_SIZE];
    let n = pkg.save_state(&mut snap);
    let truncated = &snap[..n - TRAILING_BLOCKS_AFTER_CP];

    let mut pkg2 = Package::empty();
    // Pre-populate to make the assertion meaningful.
    pkg2.applet_count = 7;
    pkg2.import_count = 9;
    pkg2.export_count = 3;
    pkg2.method_offsets[0] = 0xBEEF;
    pkg2.ref_loc_byte_count = 5;
    pkg2.ref_loc_byte2_count = 7;
    assert!(pkg2.restore_state(truncated));
    assert_eq!(pkg2.applet_count, 0);
    assert_eq!(pkg2.import_count, 0);
    assert_eq!(pkg2.export_count, 0);
    assert_eq!(pkg2.method_offsets[0], 0);
    assert_eq!(pkg2.ref_loc_byte_count, 0);
    assert_eq!(pkg2.ref_loc_byte2_count, 0);
}

#[test]
#[allow(clippy::cast_possible_truncation)]
fn package_snapshot_roundtrip_with_imports() {
    // Snapshot a Package with two imports of distinct
    // versions/AIDs and verify they round-trip byte-for-byte.
    let mut pkg = Package::empty();
    pkg.aid_len = 5;
    pkg.aid[..5].copy_from_slice(&[0xA0, 0, 0, 0, 0x62]);
    let mut i1 = ImportInfo::empty();
    i1.aid[..7].copy_from_slice(&[0xA0, 0x00, 0x00, 0x00, 0x62, 0x01, 0x01]);
    i1.aid_len = 7;
    i1.minor_version = 0x05;
    i1.major_version = 0x01;
    let mut i2 = ImportInfo::empty();
    i2.aid[..16].copy_from_slice(&[0xCC; 16]);
    i2.aid_len = 16;
    i2.minor_version = 0xAB;
    i2.major_version = 0xCD;
    pkg.imports[0] = Some(i1);
    pkg.imports[1] = Some(i2);
    pkg.import_count = 2;

    let mut snap = [0u8; Package::MAX_SNAPSHOT_SIZE];
    let n = pkg.save_state(&mut snap);
    assert!(n > 0);

    let mut pkg2 = Package::empty();
    assert!(pkg2.restore_state(&snap[..n]));
    assert_eq!(pkg2.import_count, 2);
    assert_eq!(pkg2.imports[0], Some(i1));
    assert_eq!(pkg2.imports[1], Some(i2));
    assert_eq!(pkg2.imports[2], None);
}

#[test]
fn restore_rejects_snapshot_with_import_count_over_max() {
    let mut pkg = Package::empty();
    pkg.aid_len = 1;
    pkg.aid[0] = 0xAA;
    let mut snap = [0u8; Package::MAX_SNAPSHOT_SIZE];
    let n = pkg.save_state(&mut snap);
    let off = import_count_offset_when_empty(n);
    #[allow(clippy::cast_possible_truncation)]
    let bad = (MAX_IMPORTS_PER_PACKAGE as u8) + 1;
    snap[off] = bad;

    let mut pkg2 = Package::empty();
    assert!(
        !pkg2.restore_state(&snap[..n]),
        "restore must reject import_count > MAX_IMPORTS_PER_PACKAGE"
    );
}

#[test]
#[allow(clippy::cast_possible_truncation)]
fn package_snapshot_roundtrip_with_exports() {
    // Snapshot a Package with two exported classes (one fields-only,
    // one methods-only) and verify they round-trip byte-for-byte.
    let mut pkg = Package::empty();
    pkg.aid_len = 5;
    pkg.aid[..5].copy_from_slice(&[0xA0, 0, 0, 0, 0x62]);
    let mut e0 = ExportInfo::empty();
    e0.class_offset = 0x1234;
    e0.static_field_count = 2;
    e0.static_field_offsets[0] = 0x10;
    e0.static_field_offsets[1] = 0x20;
    let mut e1 = ExportInfo::empty();
    e1.class_offset = 0x5678;
    e1.static_method_count = 3;
    e1.static_method_offsets[0] = 0x100;
    e1.static_method_offsets[1] = 0x200;
    e1.static_method_offsets[2] = 0x300;
    pkg.exports[0] = Some(e0);
    pkg.exports[1] = Some(e1);
    pkg.export_count = 2;

    let mut snap = [0u8; Package::MAX_SNAPSHOT_SIZE];
    let n = pkg.save_state(&mut snap);
    assert!(n > 0);

    let mut pkg2 = Package::empty();
    assert!(pkg2.restore_state(&snap[..n]));
    assert_eq!(pkg2.export_count, 2);
    assert_eq!(pkg2.exports[0], Some(e0));
    assert_eq!(pkg2.exports[1], Some(e1));
    assert_eq!(pkg2.exports[2], None);
}

#[test]
fn restore_rejects_snapshot_with_export_count_over_max() {
    let mut pkg = Package::empty();
    pkg.aid_len = 1;
    pkg.aid[0] = 0xAA;
    let mut snap = [0u8; Package::MAX_SNAPSHOT_SIZE];
    let n = pkg.save_state(&mut snap);
    // export_count is the first byte of the export block; the
    // ref-loc block follows it at the tail.
    let off = n - REF_LOC_BLOCK_SIZE - EXPORT_BLOCK_SIZE;
    #[allow(clippy::cast_possible_truncation)]
    let bad = (MAX_EXPORTED_CLASSES_PER_PACKAGE as u8) + 1;
    snap[off] = bad;

    let mut pkg2 = Package::empty();
    assert!(
        !pkg2.restore_state(&snap[..n]),
        "restore must reject export_count > MAX_EXPORTED_CLASSES_PER_PACKAGE"
    );
}

#[test]
#[allow(clippy::cast_possible_truncation)]
fn package_snapshot_roundtrip_with_ref_loc_deltas() {
    // Snapshot adversarial ref-loc deltas (including 0xFF
    // continuation bytes) and verify they round-trip byte-for-byte.
    let mut pkg = Package::empty();
    pkg.aid_len = 1;
    pkg.aid[0] = 0xAA;
    pkg.ref_loc_byte_deltas[0] = 0x10;
    pkg.ref_loc_byte_deltas[1] = 0xFF;
    pkg.ref_loc_byte_deltas[2] = 0x05;
    pkg.ref_loc_byte_count = 3;
    pkg.ref_loc_byte2_deltas[0] = 0x21;
    pkg.ref_loc_byte2_deltas[1] = 0xFE;
    pkg.ref_loc_byte2_count = 2;

    let mut snap = [0u8; Package::MAX_SNAPSHOT_SIZE];
    let n = pkg.save_state(&mut snap);
    assert!(n > 0);

    let mut pkg2 = Package::empty();
    assert!(pkg2.restore_state(&snap[..n]));
    assert_eq!(pkg2.ref_loc_byte_count, 3);
    assert_eq!(pkg2.ref_loc_byte_deltas(), &[0x10, 0xFF, 0x05]);
    assert_eq!(pkg2.ref_loc_byte2_count, 2);
    assert_eq!(pkg2.ref_loc_byte2_deltas(), &[0x21, 0xFE]);
}

#[test]
fn restore_rejects_snapshot_with_ref_loc_byte_count_over_max() {
    let mut pkg = Package::empty();
    pkg.aid_len = 1;
    pkg.aid[0] = 0xAA;
    let mut snap = [0u8; Package::MAX_SNAPSHOT_SIZE];
    let n = pkg.save_state(&mut snap);
    // ref_loc_byte_count is the first u16 of the ref-loc block.
    let off = n - REF_LOC_BLOCK_SIZE;
    #[allow(clippy::cast_possible_truncation)]
    let bad = (MAX_REF_LOC_BYTE_INDICES as u16) + 1;
    snap[off..off + 2].copy_from_slice(&bad.to_le_bytes());

    let mut pkg2 = Package::empty();
    assert!(
        !pkg2.restore_state(&snap[..n]),
        "restore must reject ref_loc_byte_count > MAX_REF_LOC_BYTE_INDICES"
    );
}

#[test]
fn old_snapshot_without_export_block_restores_to_empty_exports() {
    // Forward compat: drop both ref-loc and export blocks to
    // simulate a snapshot saved before either existed.
    let mut pkg = Package::empty();
    pkg.aid_len = 1;
    pkg.aid[0] = 0xAA;
    let mut snap = [0u8; Package::MAX_SNAPSHOT_SIZE];
    let n = pkg.save_state(&mut snap);
    let truncated = &snap[..n - REF_LOC_BLOCK_SIZE - EXPORT_BLOCK_SIZE];

    let mut pkg2 = Package::empty();
    pkg2.export_count = 7;
    pkg2.ref_loc_byte_count = 5;
    assert!(pkg2.restore_state(truncated));
    assert_eq!(pkg2.export_count, 0);
    assert_eq!(pkg2.ref_loc_byte_count, 0);
}

#[test]
fn old_snapshot_without_import_block_restores_to_empty_imports() {
    // A snapshot ending right after the applet block predates
    // the import / method-offsets / export / ref-loc blocks;
    // restore must accept and zero each of them.
    let mut pkg = Package::empty();
    pkg.aid_len = 1;
    pkg.aid[0] = 0xAA;
    let mut snap = [0u8; Package::MAX_SNAPSHOT_SIZE];
    let n = pkg.save_state(&mut snap);
    let truncated = &snap[..n
        - REF_LOC_BLOCK_SIZE
        - EXPORT_BLOCK_SIZE
        - METHOD_OFFSETS_BLOCK_SIZE
        - IMPORT_BLOCK_SIZE];

    let mut pkg2 = Package::empty();
    pkg2.import_count = 7;
    pkg2.export_count = 9;
    pkg2.method_offsets[1] = 0xCAFE;
    pkg2.ref_loc_byte_count = 5;
    assert!(pkg2.restore_state(truncated));
    assert_eq!(pkg2.import_count, 0);
    assert_eq!(pkg2.export_count, 0);
    assert_eq!(pkg2.method_offsets[1], 0);
    assert_eq!(pkg2.ref_loc_byte_count, 0);
}

#[test]
fn cp_entry_past_cp_count_returns_none() {
    // API contract: cp_entry must bound-check against the live
    // cp_count, not just MAX_CP_ENTRIES. Stale entries beyond
    // cp_count must not leak out.
    let mut pkg = Package::empty();
    pkg.cp_count = 2;
    // Plant a "stale" entry at index 5 (past cp_count) to ensure
    // the bounds check is on cp_count rather than tag != 0.
    pkg.constant_pool[5] = CpInfo {
        tag: cp_tag::CLASSREF,
        info: [0xDE, 0xAD, 0xBE],
    };
    assert!(
        pkg.cp_entry(0).is_some(),
        "default-empty entry at 0 still present"
    );
    assert!(
        pkg.cp_entry(1).is_some(),
        "default-empty entry at 1 still present"
    );
    assert!(pkg.cp_entry(2).is_none(), "index == cp_count must be None");
    assert!(
        pkg.cp_entry(5).is_none(),
        "stale entry past cp_count must not leak"
    );
    #[allow(clippy::cast_possible_truncation)]
    let max_idx = MAX_CP_ENTRIES as u16;
    assert!(
        pkg.cp_entry(max_idx).is_none(),
        "MAX_CP_ENTRIES must be None"
    );
    assert!(pkg.cp_entry(u16::MAX).is_none(), "u16::MAX must be None");
}
