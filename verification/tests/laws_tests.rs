use simrs_jcvm::cap::{
    build_cap_blob, parse_cap_blob, AppletInfo, CpInfo, ExceptionEntry, ExportInfo, ImportInfo,
    MethodInfo, Package, METHOD_FLAG_STATIC,
};
use simrs_jcvm::heap::ObjRef;
use simrs_jcvm::opcodes::{ExecResult, SADD, SAND, SCONST_2, SCONST_3, SDIV, SMUL, SRETURN, SSPUSH, SSUB};
use simrs_jcvm::vm::JcVM;

fn same_method(a: &MethodInfo, b: &MethodInfo) -> bool {
    a.flags == b.flags
        && a.max_stack == b.max_stack
        && a.nargs == b.nargs
        && a.max_locals == b.max_locals
        && a.bytecode == b.bytecode
        && a.bytecode_len == b.bytecode_len
        && a.exception_table == b.exception_table
        && a.descriptor_offset == b.descriptor_offset
        && a.class_offset == b.class_offset
}

fn same_saved_fields(a: &Package, b: &Package) -> bool {
    let methods_same = a.methods.iter().zip(b.methods.iter()).all(|(x, y)| match (x, y) {
        (None, None) => true,
        (Some(m), Some(n)) => same_method(m, n),
        _ => false,
    });
    a.aid == b.aid
        && a.aid_len == b.aid_len
        && methods_same
        && a.method_count == b.method_count
        && a.method_offsets == b.method_offsets
        && a.constant_pool == b.constant_pool
        && a.cp_count == b.cp_count
        && a.applets == b.applets
        && a.applet_count == b.applet_count
        && a.imports == b.imports
        && a.import_count == b.import_count
        && a.exports == b.exports
        && a.export_count == b.export_count
        && a.ref_loc_byte_deltas == b.ref_loc_byte_deltas
        && a.ref_loc_byte_count == b.ref_loc_byte_count
        && a.ref_loc_byte2_deltas == b.ref_loc_byte2_deltas
        && a.ref_loc_byte2_count == b.ref_loc_byte2_count
}

/// A package with every saved table in use.
fn full_package() -> Package {
    let mut p = Package::empty();
    p.aid_len = 7;
    for i in 0..7 {
        p.aid[i] = 0xA0 + i as u8;
    }
    let mut m = MethodInfo::empty();
    m.flags = 0x08;
    m.max_stack = 3;
    m.nargs = 1;
    m.max_locals = 2;
    m.bytecode[0] = SCONST_2;
    m.bytecode[1] = SRETURN;
    m.bytecode_len = 2;
    m.exception_table[0] = Some(ExceptionEntry { start_pc: 0, end_pc: 1, handler_pc: 1, catch_type: 0 });
    m.descriptor_offset = 0x10;
    m.class_offset = 0x10;
    p.methods[0] = Some(m);
    p.methods[3] = Some(MethodInfo::empty());
    p.method_count = 2;
    p.method_offsets[0] = 0x1234;
    p.constant_pool[0] = CpInfo { tag: 1, info: [0x80, 0x01, 0x02] };
    p.constant_pool[1] = CpInfo { tag: 6, info: [0x00, 0x00, 0x07] };
    p.cp_count = 2;
    let mut a = AppletInfo::empty();
    a.aid_len = 6;
    a.aid[..6].copy_from_slice(&[1, 2, 3, 4, 5, 6]);
    a.install_method_offset = 0x0042;
    p.applets[1] = Some(a);
    p.applet_count = 1;
    let mut imp = ImportInfo::empty();
    imp.minor_version = 1;
    imp.major_version = 2;
    imp.aid_len = 5;
    imp.aid[..5].copy_from_slice(&[0xA0, 0, 0, 0, 0x62]);
    p.imports[0] = Some(imp);
    p.import_count = 1;
    let mut e = ExportInfo::empty();
    e.class_offset = 0x0300;
    e.static_field_count = 2;
    e.static_method_count = 1;
    e.static_field_offsets[0] = 7;
    e.static_field_offsets[1] = 9;
    e.static_method_offsets[0] = 0x0101;
    p.exports[2] = Some(e);
    p.export_count = 1;
    p.ref_loc_byte_deltas[0] = 4;
    p.ref_loc_byte_count = 1;
    p.ref_loc_byte2_deltas[0] = 5;
    p.ref_loc_byte2_deltas[1] = 6;
    p.ref_loc_byte2_count = 2;
    p
}

#[test]
fn package_save_then_restore_gives_the_package_back() {
    let p = full_package();
    let mut buf = vec![0xEEu8; Package::MAX_SNAPSHOT_SIZE];
    let n = p.save_state(&mut buf);
    assert!(n > 0);
    let mut q = Package::empty();
    q.static_field_image_size = 12;
    q.static_reference_count = 3;
    assert!(q.restore_state(&buf[..n]));
    assert!(same_saved_fields(&p, &q));
    // What a snapshot does not carry stays as it was in the package restored into.
    assert_eq!(q.static_field_image_size, 12);
    assert_eq!(q.static_reference_count, 3);
}

#[test]
fn package_restore_refuses_applet_count_over_the_table() {
    let mut p = full_package();
    p.applet_count = 5;
    let mut buf = vec![0u8; Package::MAX_SNAPSHOT_SIZE];
    let n = p.save_state(&mut buf);
    assert!(n > 0);
    let mut q = Package::empty();
    assert!(!q.restore_state(&buf[..n]));
    // What was read before the refused applet block stays in the package.
    assert_eq!(q.aid_len, p.aid_len);
    assert_eq!(q.method_count, p.method_count);
    assert_eq!(q.cp_count, p.cp_count);
    assert_eq!(q.applet_count, 5);
    assert!(q.applets.iter().all(|a| a.is_none()));
    assert_eq!(q.import_count, 0);
}

#[test]
fn package_restore_keeps_an_oversized_aid_length() {
    let mut q = Package::empty();
    let mut buf = vec![0u8; 40];
    buf[0] = 17;
    assert!(!q.restore_state(&buf));
    assert_eq!(q.aid_len, 17);
    assert_eq!(q.method_count, 0);
    // Below 18 bytes nothing is read.
    let mut r = Package::empty();
    assert!(!r.restore_state(&buf[..17]));
    assert_eq!(r.aid_len, 0);
}

#[test]
fn package_save_into_short_buffer_writes_the_part_that_fits() {
    let p = full_package();
    let mut full = vec![0u8; Package::MAX_SNAPSHOT_SIZE];
    assert!(p.save_state(&mut full) > 0);
    let mut buf = vec![0x55u8; 100];
    assert_eq!(p.save_state(&mut buf), 0);
    // Header and slots 0..3 fit; slot 3's bytecode and tables do not, so only its
    // 7 header bytes are written.
    assert_eq!(&buf[..49], &full[..49]);
    assert_eq!(buf[42], 1);
    assert!(buf[49..].iter().all(|b| *b == 0x55));
    // Below 18 bytes nothing is written.
    let mut tiny = vec![0x55u8; 17];
    assert_eq!(p.save_state(&mut tiny), 0);
    assert!(tiny.iter().all(|b| *b == 0x55));
}

#[test]
fn build_then_parse_gives_the_built_methods() {
    let aid: Vec<u8> = (1..=20).collect();
    let long: Vec<u8> = (0..300).map(|i| i as u8).collect();
    let short = [SCONST_3, SRETURN];
    let mut blob = vec![0u8; 1024];
    let n = build_cap_blob(&aid, &[&short, &long], &mut blob);
    let p = parse_cap_blob(&blob[..n]).unwrap();
    assert_eq!(p.aid_len, 16);
    assert_eq!(&p.aid[..16], &aid[..16]);
    assert_eq!(p.method_count, 2);
    let m0 = p.methods[0].unwrap();
    assert_eq!(m0.flags, METHOD_FLAG_STATIC);
    assert_eq!((m0.max_stack, m0.nargs, m0.max_locals), (8, 0, 4));
    assert_eq!(m0.bytecode_len, 2);
    assert_eq!(&m0.bytecode[..2], &short);
    assert!(m0.exception_table.iter().all(|e| e.is_none()));
    assert_eq!((m0.descriptor_offset, m0.class_offset), (0, 0));
    let m1 = p.methods[1].unwrap();
    assert_eq!(m1.bytecode_len, 256);
    assert_eq!(&m1.bytecode[..], &long[..256]);
    assert!(p.methods[2].is_none());
    assert_eq!(p.cp_count, 0);
    assert_eq!(p.applet_count, 0);
}

#[test]
fn vm_save_then_restore_keeps_the_persistent_state() {
    let aid = [0xA0, 0x00, 0x00, 0x00, 0x01];
    let code = [SCONST_2, SCONST_3, SADD, SRETURN];
    let mut blob = [0u8; 512];
    let len = build_cap_blob(&aid, &[&code], &mut blob);
    let pkg = parse_cap_blob(&blob[..len]).unwrap();
    let mut vm = JcVM::<2048, 2>::new();
    assert_eq!(vm.load_package(pkg), Some(0));
    vm.set_process_method(0);
    let arr = vm.alloc_byte_array(4).unwrap();
    vm.heap_bastore(arr, 2, 0x7E);
    let mut buf = vec![0u8; 32768];
    let n = vm.save_state(&mut buf);
    assert!(n > 0);
    let mut vm2 = JcVM::<2048, 2>::new();
    assert!(vm2.restore_state(&buf[..n]));
    assert_eq!(vm2.heap().used(), vm.heap().used());
    assert_eq!(vm2.heap_baload(arr, 2), Some(0x7E));
    assert_eq!(vm2.find_package_by_aid(&aid), Some(0));
    assert_eq!(vm2.execute(0, 0), ExecResult::ReturnShort(5));
    assert_eq!(vm2.heap_baload(ObjRef(0), 0), None);
}

#[test]
fn package_save_then_restore_keeps_carried_fields_of_any_package() {
    let mut p = full_package();
    // Bytes past the bytecode, a gap before an exception entry and a used-looking
    // entry past the constant pool count are not carried by a snapshot.
    let mut m = p.methods[0].unwrap();
    m.bytecode[5] = 0x77;
    m.exception_table[0] = None;
    m.exception_table[2] = Some(ExceptionEntry { start_pc: 0, end_pc: 1, handler_pc: 1, catch_type: 3 });
    p.methods[0] = Some(m);
    p.constant_pool[5] = CpInfo { tag: 3, info: [1, 2, 3] };
    let mut buf = vec![0u8; Package::MAX_SNAPSHOT_SIZE];
    let n = p.save_state(&mut buf);
    assert!(n > 0);
    let mut q = Package::empty();
    assert!(q.restore_state(&buf[..n]));
    let qm = q.methods[0].unwrap();
    assert_eq!(qm.bytecode_len, m.bytecode_len);
    assert_eq!(&qm.bytecode[..2], &m.bytecode[..2]);
    assert_eq!(qm.bytecode[5], 0);
    assert_eq!(qm.exception_table[0], m.exception_table[2]);
    assert_eq!(qm.exception_table[2], None);
    assert_eq!(q.cp_count, p.cp_count);
    assert_eq!(&q.constant_pool[..2], &p.constant_pool[..2]);
    assert_eq!(q.constant_pool[5].tag, 0);
    assert_eq!(q.applets, p.applets);
    assert_eq!(q.exports, p.exports);
}

#[test]
fn vm_save_into_short_buffer_writes_the_part_that_fits() {
    let aid = [0xA0, 0x00, 0x00, 0x00, 0x01];
    let code = [SCONST_2, SCONST_3, SADD, SRETURN];
    let mut blob = [0u8; 512];
    let len = build_cap_blob(&aid, &[&code], &mut blob);
    let pkg = parse_cap_blob(&blob[..len]).unwrap();
    let mut vm = JcVM::<2048, 2>::new();
    assert_eq!(vm.load_package(pkg), Some(0));
    let mut full = vec![0u8; 32768];
    let n = vm.save_state(&mut full);
    assert!(n > 0);
    // One byte short: all but the process method is written.
    let mut buf = vec![0x55u8; n - 1];
    assert_eq!(vm.save_state(&mut buf), 0);
    assert_eq!(&buf[..], &full[..n - 1]);
    // Shorter than the heap: nothing is written.
    let mut tiny = vec![0x55u8; 2];
    assert_eq!(vm.save_state(&mut tiny), 0);
    assert!(tiny.iter().all(|b| *b == 0x55));
    // Room for the heap, the count and a few package bytes: the package's own save
    // writes what fits of its header (nothing past the 18 header bytes it needs).
    let heap_len = 2 + vm.heap().used();
    let mut part = vec![0x55u8; heap_len + 10];
    assert_eq!(vm.save_state(&mut part), 0);
    assert_eq!(&part[..heap_len + 2], &full[..heap_len + 2]);
    assert!(part[heap_len + 2..].iter().all(|b| *b == 0x55));
}

#[test]
fn vm_refused_restore_keeps_the_parts_read_before_the_fault() {
    let aid = [0xA0, 0x00, 0x00, 0x00, 0x01];
    let code = [SCONST_2, SCONST_3, SADD, SRETURN];
    let mut blob = [0u8; 512];
    let len = build_cap_blob(&aid, &[&code], &mut blob);
    let pkg = parse_cap_blob(&blob[..len]).unwrap();
    let mut vm = JcVM::<2048, 2>::new();
    assert_eq!(vm.load_package(pkg), Some(0));
    let arr = vm.alloc_byte_array(4).unwrap();
    vm.heap_bastore(arr, 1, 0x3C);
    let mut full = vec![0u8; 32768];
    let n = vm.save_state(&mut full);
    assert!(n > 0);
    // The process method byte is missing: everything before it is restored.
    let mut vm2 = JcVM::<2048, 2>::new();
    assert!(!vm2.restore_state(&full[..n - 1]));
    assert_eq!(vm2.heap().used(), vm.heap().used());
    assert_eq!(vm2.heap_baload(arr, 1), Some(0x3C));
    assert_eq!(vm2.find_package_by_aid(&aid), Some(0));
    // A heap image that does not fit changes nothing.
    let mut vm3 = JcVM::<2048, 2>::new();
    assert!(!vm3.restore_state(&full[..3]));
    assert_eq!(vm3.heap().used(), 1);
}

fn run_binop(a: i16, b: i16, op: u8) -> ExecResult {
    let [ah, al] = a.to_be_bytes();
    let [bh, bl] = b.to_be_bytes();
    let code = [SSPUSH, ah, al, SSPUSH, bh, bl, op, SRETURN];
    let aid = [0xA0, 0x00, 0x00, 0x00, 0x01];
    let mut blob = [0u8; 512];
    let len = build_cap_blob(&aid, &[&code], &mut blob);
    let pkg = parse_cap_blob(&blob[..len]).unwrap();
    let mut vm = JcVM::<1024, 1>::new();
    assert_eq!(vm.load_package(pkg), Some(0));
    vm.execute(0, 0)
}

#[test]
fn binop_programs_give_the_wrapping_results() {
    for &(a, b) in &[(0x7FFF_i16, 1_i16), (-32768, -1), (1234, -5678), (0, 0), (-7, 3)] {
        assert_eq!(run_binop(a, b, SADD), ExecResult::ReturnShort(a.wrapping_add(b)));
        assert_eq!(run_binop(a, b, SSUB), ExecResult::ReturnShort(a.wrapping_sub(b)));
        assert_eq!(run_binop(a, b, SMUL), ExecResult::ReturnShort(a.wrapping_mul(b)));
        assert_eq!(run_binop(a, b, SAND), ExecResult::ReturnShort(a & b));
    }
    assert_eq!(run_binop(5, 0, SDIV), ExecResult::ArithmeticException);
}
