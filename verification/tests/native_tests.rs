use simrs_jcvm::native::class_id;
use simrs_jcvm::native::method_id;
use simrs_jcvm::native::{NativeResult, dispatch_native};
use simrs_jcvm::opcodes::{ExecResult};
use simrs_jcvm::vm::{JcVM};
/// Helper: create a fresh VM for testing.
fn test_vm() -> JcVM<4096, 4> {
    JcVM::new()
}

// -- Applet tests --

#[test]
fn applet_register_returns_void() {
    let mut vm = test_vm();
    let result = dispatch_native(class_id::APPLET, method_id::REGISTER, &mut vm);
    assert_eq!(result, NativeResult::Void);
}

#[test]
fn applet_selecting_applet_returns_false() {
    let mut vm = test_vm();
    let result = dispatch_native(class_id::APPLET, method_id::SELECTING_APPLET, &mut vm);
    assert_eq!(result, NativeResult::Short(0));
}

// -- APDU tests --

#[test]
fn apdu_get_buffer_returns_ref() {
    let mut vm = test_vm();
    let result = dispatch_native(class_id::APDU, method_id::GET_BUFFER, &mut vm);
    match result {
        NativeResult::Ref(r) => assert_ne!(r, 0, "should not be null ref"),
        other => panic!("expected Ref, got {other:?}"),
    }
}

#[test]
fn apdu_set_incoming_and_receive_returns_zero() {
    let mut vm = test_vm();
    let result = dispatch_native(class_id::APDU, method_id::SET_INCOMING_AND_RECEIVE, &mut vm);
    assert_eq!(result, NativeResult::Short(0));
}

#[test]
fn apdu_set_outgoing_returns_256() {
    let mut vm = test_vm();
    let result = dispatch_native(class_id::APDU, method_id::SET_OUTGOING, &mut vm);
    assert_eq!(result, NativeResult::Short(256));
}

#[test]
fn apdu_set_outgoing_length_pops_arg() {
    let mut vm = test_vm();
    let _ = vm.push_pub(100);
    let result = dispatch_native(class_id::APDU, method_id::SET_OUTGOING_LENGTH, &mut vm);
    assert_eq!(result, NativeResult::Void);
}

#[test]
fn apdu_send_bytes_pops_two_args() {
    let mut vm = test_vm();
    let _ = vm.push_pub(0); // offset
    let _ = vm.push_pub(10); // length
    let result = dispatch_native(class_id::APDU, method_id::SEND_BYTES, &mut vm);
    assert_eq!(result, NativeResult::Void);
}

#[test]
fn apdu_set_outgoing_and_send_pops_two_args() {
    let mut vm = test_vm();
    let _ = vm.push_pub(0);
    let _ = vm.push_pub(10);
    let result = dispatch_native(class_id::APDU, method_id::SET_OUTGOING_AND_SEND, &mut vm);
    assert_eq!(result, NativeResult::Void);
}

#[test]
fn apdu_receive_bytes_pops_arg() {
    let mut vm = test_vm();
    let _ = vm.push_pub(0);
    let result = dispatch_native(class_id::APDU, method_id::RECEIVE_BYTES, &mut vm);
    assert_eq!(result, NativeResult::Short(0));
}

#[test]
fn apdu_send_bytes_long_pops_three_args() {
    let mut vm = test_vm();
    let _ = vm.push_pub(0); // outData ref
    let _ = vm.push_pub(0); // offset
    let _ = vm.push_pub(10); // length
    let result = dispatch_native(class_id::APDU, method_id::SEND_BYTES_LONG, &mut vm);
    assert_eq!(result, NativeResult::Void);
}

// -- Util tests --

#[test]
fn util_make_short_combines_bytes() {
    let mut vm = test_vm();
    let _ = vm.push_pub(0xDE); // b1
    let _ = vm.push_pub(0xAD); // b2
    let result = dispatch_native(class_id::UTIL, method_id::MAKE_SHORT, &mut vm);
    assert_eq!(
        result,
        NativeResult::Short(i16::from_be_bytes([0xDE, 0xAD]))
    );
}

#[test]
fn util_make_short_zero() {
    let mut vm = test_vm();
    let _ = vm.push_pub(0x00);
    let _ = vm.push_pub(0x00);
    let result = dispatch_native(class_id::UTIL, method_id::MAKE_SHORT, &mut vm);
    assert_eq!(result, NativeResult::Short(0));
}

#[test]
fn util_array_copy_basic() {
    let mut vm = test_vm();
    // Allocate src and dest arrays.
    let src = vm.alloc_byte_array(4).unwrap();
    let dest = vm.alloc_byte_array(4).unwrap();

    // Write some data to src.
    vm.heap_bastore(src, 0, 0x11);
    vm.heap_bastore(src, 1, 0x22);
    vm.heap_bastore(src, 2, 0x33);
    vm.heap_bastore(src, 3, 0x44);

    // Push args: src, srcOff, dest, destOff, length.
    let _ = vm.push_pub(src.0);
    let _ = vm.push_pub(0); // srcOff
    let _ = vm.push_pub(dest.0);
    let _ = vm.push_pub(0); // destOff
    let _ = vm.push_pub(4); // length

    let result = dispatch_native(class_id::UTIL, method_id::ARRAY_COPY, &mut vm);
    // Returns destOff + length = 0 + 4 = 4.
    assert_eq!(result, NativeResult::Short(4));

    // Verify dest contents.
    assert_eq!(vm.heap_baload(dest, 0), Some(0x11));
    assert_eq!(vm.heap_baload(dest, 1), Some(0x22));
    assert_eq!(vm.heap_baload(dest, 2), Some(0x33));
    assert_eq!(vm.heap_baload(dest, 3), Some(0x44));
}

#[test]
fn util_array_copy_non_atomic_basic() {
    let mut vm = test_vm();
    let src = vm.alloc_byte_array(2).unwrap();
    let dest = vm.alloc_byte_array(2).unwrap();

    vm.heap_bastore(src, 0, 0xAA);
    vm.heap_bastore(src, 1, 0xBB);

    let _ = vm.push_pub(src.0);
    let _ = vm.push_pub(0);
    let _ = vm.push_pub(dest.0);
    let _ = vm.push_pub(0);
    let _ = vm.push_pub(2);

    let result = dispatch_native(class_id::UTIL, method_id::ARRAY_COPY_NON_ATOMIC, &mut vm);
    assert_eq!(result, NativeResult::Short(2));
    assert_eq!(vm.heap_baload(dest, 0), Some(0xAA));
    assert_eq!(vm.heap_baload(dest, 1), Some(0xBB));
}

#[test]
fn util_array_compare_equal() {
    let mut vm = test_vm();
    let a = vm.alloc_byte_array(3).unwrap();
    let b = vm.alloc_byte_array(3).unwrap();

    for i in 0..3 {
        vm.heap_bastore(a, i, 0x42);
        vm.heap_bastore(b, i, 0x42);
    }

    let _ = vm.push_pub(a.0);
    let _ = vm.push_pub(0);
    let _ = vm.push_pub(b.0);
    let _ = vm.push_pub(0);
    let _ = vm.push_pub(3);

    let result = dispatch_native(class_id::UTIL, method_id::ARRAY_COMPARE, &mut vm);
    assert_eq!(result, NativeResult::Short(0));
}

#[test]
fn util_array_compare_less() {
    let mut vm = test_vm();
    let a = vm.alloc_byte_array(2).unwrap();
    let b = vm.alloc_byte_array(2).unwrap();

    vm.heap_bastore(a, 0, 0x01);
    vm.heap_bastore(a, 1, 0x02);
    vm.heap_bastore(b, 0, 0x01);
    vm.heap_bastore(b, 1, 0x03);

    let _ = vm.push_pub(a.0);
    let _ = vm.push_pub(0);
    let _ = vm.push_pub(b.0);
    let _ = vm.push_pub(0);
    let _ = vm.push_pub(2);

    let result = dispatch_native(class_id::UTIL, method_id::ARRAY_COMPARE, &mut vm);
    assert_eq!(result, NativeResult::Short(-1));
}

#[test]
fn util_array_compare_greater() {
    let mut vm = test_vm();
    let a = vm.alloc_byte_array(1).unwrap();
    let b = vm.alloc_byte_array(1).unwrap();

    vm.heap_bastore(a, 0, 0xFF);
    vm.heap_bastore(b, 0, 0x00);

    let _ = vm.push_pub(a.0);
    let _ = vm.push_pub(0);
    let _ = vm.push_pub(b.0);
    let _ = vm.push_pub(0);
    let _ = vm.push_pub(1);

    let result = dispatch_native(class_id::UTIL, method_id::ARRAY_COMPARE, &mut vm);
    assert_eq!(result, NativeResult::Short(1));
}

#[test]
fn util_get_short_reads_big_endian() {
    let mut vm = test_vm();
    let arr = vm.alloc_byte_array(4).unwrap();
    vm.heap_bastore(arr, 0, 0x12);
    vm.heap_bastore(arr, 1, 0x34);

    let _ = vm.push_pub(arr.0);
    let _ = vm.push_pub(0);

    let result = dispatch_native(class_id::UTIL, method_id::GET_SHORT, &mut vm);
    assert_eq!(result, NativeResult::Short(0x1234));
}

#[test]
fn util_set_short_writes_big_endian() {
    let mut vm = test_vm();
    let arr = vm.alloc_byte_array(4).unwrap();

    let _ = vm.push_pub(arr.0);
    let _ = vm.push_pub(0); // offset
    let _ = vm.push_pub(0x5678_u16); // value

    let result = dispatch_native(class_id::UTIL, method_id::SET_SHORT, &mut vm);
    // Returns bOff + 2 = 2.
    assert_eq!(result, NativeResult::Short(2));
    assert_eq!(vm.heap_baload(arr, 0), Some(0x56));
    assert_eq!(vm.heap_baload(arr, 1), Some(0x78));
}

// -- ISOException tests --

#[test]
fn iso_exception_throw_it() {
    let mut vm = test_vm();
    let _ = vm.push_pub(0x6A82); // SW_FILE_NOT_FOUND
    let result = dispatch_native(class_id::ISO_EXCEPTION, method_id::THROW_IT, &mut vm);
    assert_eq!(
        result,
        NativeResult::Exception(ExecResult::UncaughtException(0x6A82))
    );
}

#[test]
fn iso_exception_throw_it_empty_stack() {
    let mut vm = test_vm();
    // Stack is empty; should use fallback SW.
    let result = dispatch_native(class_id::ISO_EXCEPTION, method_id::THROW_IT, &mut vm);
    assert_eq!(
        result,
        NativeResult::Exception(ExecResult::UncaughtException(0x6F00))
    );
}

// -- JCSystem tests --

#[test]
fn jc_system_begin_transaction() {
    let mut vm = test_vm();
    let result = dispatch_native(class_id::JC_SYSTEM, method_id::BEGIN_TRANSACTION, &mut vm);
    assert_eq!(result, NativeResult::Void);
}

#[test]
fn jc_system_commit_transaction() {
    let mut vm = test_vm();
    let _ = vm.journal_mut().begin();
    let result = dispatch_native(class_id::JC_SYSTEM, method_id::COMMIT_TRANSACTION, &mut vm);
    assert_eq!(result, NativeResult::Void);
}

#[test]
fn jc_system_abort_transaction() {
    let mut vm = test_vm();
    let result = dispatch_native(class_id::JC_SYSTEM, method_id::ABORT_TRANSACTION, &mut vm);
    assert_eq!(result, NativeResult::Void);
}

#[test]
fn jc_system_make_transient_byte_array() {
    let mut vm = test_vm();
    let _ = vm.push_pub(8); // length
    let _ = vm.push_pub(0); // event (CLEAR_ON_RESET)
    let result = dispatch_native(
        class_id::JC_SYSTEM,
        method_id::MAKE_TRANSIENT_BYTE_ARRAY,
        &mut vm,
    );
    match result {
        NativeResult::Ref(r) => assert_ne!(r, 0),
        other => panic!("expected Ref, got {other:?}"),
    }
}

#[test]
fn jc_system_make_transient_short_array() {
    let mut vm = test_vm();
    let _ = vm.push_pub(4); // length
    let _ = vm.push_pub(0); // event
    let result = dispatch_native(
        class_id::JC_SYSTEM,
        method_id::MAKE_TRANSIENT_SHORT_ARRAY,
        &mut vm,
    );
    match result {
        NativeResult::Ref(r) => assert_ne!(r, 0),
        other => panic!("expected Ref, got {other:?}"),
    }
}

#[test]
fn jc_system_make_transient_byte_array_negative_size() {
    let mut vm = test_vm();
    // Push -1 as short (0xFFFF).
    let _ = vm.push_pub((-1_i16).cast_unsigned());
    let _ = vm.push_pub(0); // event
    let result = dispatch_native(
        class_id::JC_SYSTEM,
        method_id::MAKE_TRANSIENT_BYTE_ARRAY,
        &mut vm,
    );
    assert_eq!(
        result,
        NativeResult::Exception(ExecResult::NegativeArraySize)
    );
}

// -- Unknown class/method --

#[test]
fn unknown_class_returns_not_native() {
    let mut vm = test_vm();
    let result = dispatch_native(0xFF, 0xFF, &mut vm);
    assert_eq!(result, NativeResult::NotNative);
}

#[test]
fn unknown_method_returns_not_native() {
    let mut vm = test_vm();
    let result = dispatch_native(class_id::APPLET, 0xFF, &mut vm);
    assert_eq!(result, NativeResult::NotNative);
}

// -- Class/method ID uniqueness --

#[test]
fn class_ids_are_distinct() {
    let ids = [
        class_id::APPLET,
        class_id::APDU,
        class_id::UTIL,
        class_id::ISO7816,
        class_id::ISO_EXCEPTION,
        class_id::JC_SYSTEM,
        class_id::OWNER_PIN,
    ];
    for i in 0..ids.len() {
        for j in (i + 1)..ids.len() {
            assert_ne!(ids[i], ids[j], "class ID collision at indices {i} and {j}");
        }
    }
}

#[test]
fn util_array_copy_with_offsets() {
    let mut vm = test_vm();
    let src = vm.alloc_byte_array(6).unwrap();
    let dest = vm.alloc_byte_array(6).unwrap();

    vm.heap_bastore(src, 2, 0xAA);
    vm.heap_bastore(src, 3, 0xBB);

    let _ = vm.push_pub(src.0);
    let _ = vm.push_pub(2); // srcOff
    let _ = vm.push_pub(dest.0);
    let _ = vm.push_pub(1); // destOff
    let _ = vm.push_pub(2); // length

    let result = dispatch_native(class_id::UTIL, method_id::ARRAY_COPY, &mut vm);
    assert_eq!(result, NativeResult::Short(3)); // destOff + length = 1 + 2

    assert_eq!(vm.heap_baload(dest, 0), Some(0x00));
    assert_eq!(vm.heap_baload(dest, 1), Some(0xAA));
    assert_eq!(vm.heap_baload(dest, 2), Some(0xBB));
}

#[test]
fn util_get_short_at_offset() {
    let mut vm = test_vm();
    let arr = vm.alloc_byte_array(4).unwrap();
    vm.heap_bastore(arr, 2, 0xAB);
    vm.heap_bastore(arr, 3, 0xCD);

    let _ = vm.push_pub(arr.0);
    let _ = vm.push_pub(2); // offset

    let result = dispatch_native(class_id::UTIL, method_id::GET_SHORT, &mut vm);
    assert_eq!(
        result,
        NativeResult::Short(i16::from_be_bytes([0xAB, 0xCD]))
    );
}

#[test]
fn util_set_short_at_offset() {
    let mut vm = test_vm();
    let arr = vm.alloc_byte_array(6).unwrap();

    let _ = vm.push_pub(arr.0);
    let _ = vm.push_pub(3); // offset
    let _ = vm.push_pub(0x1234_u16);

    let result = dispatch_native(class_id::UTIL, method_id::SET_SHORT, &mut vm);
    assert_eq!(result, NativeResult::Short(5)); // 3 + 2
    assert_eq!(vm.heap_baload(arr, 3), Some(0x12));
    assert_eq!(vm.heap_baload(arr, 4), Some(0x34));
}
