use simrs_jcvm::cap::{parse_cap_blob, ParseError};
use simrs_jcvm::heap::{AccessError, ObjRef, ObjectHeap};
use simrs_jcvm::firewall::SecurityException;
use simrs_jcvm::cap::{self, build_cap_blob};
use simrs_jcvm::opcodes::{ANEWARRAY, BALOAD, ExecResult, GOTO, SCONST_0, SCONST_2, SRETURN};
use simrs_jcvm::vm::JcVM;
use simrs_jcvm::transaction::TransactionJournal;

/// One method record holding `sconst_0; sreturn`, followed by `tail`.
fn blob_with_tail(tail: &[u8]) -> Vec<u8> {
    let mut v = vec![0xDE, 0xCA, 0xFF, 0xED, 1, 0xA0, 1];
    v.extend_from_slice(&[0x08, 2, 0, 0, 0x00, 0x02, SCONST_0, SRETURN]);
    v.extend_from_slice(tail);
    v
}

fn vm_with_method(bytecode: &[u8]) -> JcVM<4096, 4> {
    let aid = [0xA0, 0x00, 0x00, 0x00, 0x01];
    let mut blob = [0u8; 512];
    let len = build_cap_blob(&aid, &[bytecode], &mut blob);
    let pkg = cap::parse_cap(&blob[..len]).unwrap();
    let mut vm = JcVM::<4096, 4>::new();
    vm.load_package(pkg).unwrap();
    vm
}

#[test]
fn blob_method_without_tables_parses() {
    let p = parse_cap_blob(&blob_with_tail(&[])).unwrap();
    assert_eq!(p.method_count, 1);
    assert_eq!(p.method(0).unwrap().bytecode_len, 2);
}

#[test]
fn blob_too_many_exceptions() {
    assert_eq!(parse_cap_blob(&blob_with_tail(&[9])).err(), Some(ParseError::TooManyExceptions));
}

#[test]
fn blob_empty_try_region_is_invalid_handler() {
    // start_pc == end_pc: an empty try region.
    let tail = [1, 0, 0, 0, 0, 0, 0, 0, 0];
    assert_eq!(
        parse_cap_blob(&blob_with_tail(&tail)).err(),
        Some(ParseError::InvalidExceptionHandler)
    );
}

#[test]
fn blob_handler_outside_code_is_invalid_handler() {
    // handler_pc == bytecode length.
    let tail = [1, 0, 0, 0, 1, 0, 2, 0, 0];
    assert_eq!(
        parse_cap_blob(&blob_with_tail(&tail)).err(),
        Some(ParseError::InvalidExceptionHandler)
    );
}

#[test]
fn blob_valid_exception_entry_is_kept() {
    let tail = [1, 0, 0, 0, 1, 0, 1, 0, 7];
    let p = parse_cap_blob(&blob_with_tail(&tail)).unwrap();
    let e = p.method(0).unwrap().exception_table[0].unwrap();
    assert_eq!((e.start_pc, e.end_pc, e.handler_pc, e.catch_type), (0, 1, 1, 7));
}

#[test]
fn blob_descriptor_class_offset_mismatch() {
    let tail = [0, 0, 1, 0, 2];
    assert_eq!(parse_cap_blob(&blob_with_tail(&tail)).err(), Some(ParseError::OffsetMismatch));
}

#[test]
fn blob_equal_offsets_accepted() {
    let tail = [0, 0, 3, 0, 3];
    assert!(parse_cap_blob(&blob_with_tail(&tail)).is_ok());
}

#[test]
fn heap_checked_null_ref() {
    let heap = ObjectHeap::<256>::new();
    assert_eq!(heap.baload_checked(ObjRef(0), 0, 1), Err(AccessError::NullRef));
}

#[test]
fn heap_checked_type_mismatch() {
    let mut heap = ObjectHeap::<256>::new();
    let arr = heap.alloc_short_array(1, 2).unwrap();
    assert_eq!(heap.baload_checked(arr, 0, 1), Err(AccessError::TypeMismatch));
}

#[test]
fn heap_checked_out_of_bounds_and_security() {
    let mut heap = ObjectHeap::<256>::new();
    let arr = heap.alloc_byte_array(1, 2).unwrap();
    assert_eq!(heap.baload_checked(arr, 2, 1), Err(AccessError::OutOfBounds));
    assert_eq!(
        heap.baload_checked(arr, 0, 2),
        Err(AccessError::Security(SecurityException))
    );
    assert_eq!(heap.bastore_checked(arr, 1, 0x5A, 1), Ok(()));
    assert_eq!(heap.baload_checked(arr, 1, 1), Ok(0x5A));
}

#[test]
fn vm_baload_on_short_array_is_array_store_exception() {
    let bc = [SCONST_2, ANEWARRAY, 0, SCONST_0, BALOAD, SRETURN];
    let mut vm = vm_with_method(&bc);
    assert_eq!(vm.execute(0, 0), ExecResult::ArrayStoreException);
}

#[test]
fn vm_endless_push_overflows_stack() {
    // sconst_0; goto -1
    let bc = [SCONST_0, GOTO, 0xFF];
    let mut vm = vm_with_method(&bc);
    assert_eq!(vm.execute(0, 0), ExecResult::StackOverflow);
}

#[test]
fn field_write_past_instance_size_is_refused() {
    let mut heap = ObjectHeap::<256>::new();
    let a = heap.alloc_instance(1, 2).unwrap();
    let b = heap.alloc_instance(2, 2).unwrap();
    let mut before = [0u8; 256];
    heap.save_state(&mut before);
    // Offset 2 is past a's two field bytes: it would land in b's header.
    assert_eq!(heap.putfield_b(a, 2, 0xEE, 1), Ok(false));
    assert_eq!(heap.getfield_b(a, 2, 1), Ok(None));
    assert_eq!(heap.putfield_b_checked(a, 2, 0xEE, 1), Err(AccessError::OutOfBounds));
    let mut after = [0u8; 256];
    heap.save_state(&mut after);
    assert_eq!(before, after);
    assert_eq!(heap.owner_of(b), Some(2));
    // The last field byte is still writable.
    assert_eq!(heap.putfield_b(a, 1, 0x11, 1), Ok(true));
    assert_eq!(heap.getfield_b(a, 1, 1), Ok(Some(0x11)));
}

#[test]
fn heap_restore_refuses_zero_free_pointer() {
    let mut heap = ObjectHeap::<64>::new();
    assert!(!heap.restore_state(&[0, 0]));
    assert_eq!(heap.used(), 1);
    let obj = heap.alloc_byte_array(0, 1).unwrap();
    assert!(!obj.is_null());
}

#[test]
fn journal_refused_restore_leaves_it_unchanged() {
    let mut j = TransactionJournal::<4>::new();
    j.begin().unwrap();
    j.record_write(10, 0xAA).unwrap();
    let mut before = [0u8; 32];
    let n = j.save_state(&mut before);
    // Count 5 exceeds the capacity of 4.
    assert!(!j.restore_state(&[0, 5, 0]));
    let mut after = [0u8; 32];
    assert_eq!(j.save_state(&mut after), n);
    assert_eq!(before, after);
    assert!(j.is_active());
    // Too few entry bytes for the count.
    assert!(!j.restore_state(&[1, 1, 0, 7]));
    let mut again = [0u8; 32];
    assert_eq!(j.save_state(&mut again), n);
    assert_eq!(before, again);
}
