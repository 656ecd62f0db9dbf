//! Native implementations of the `javacard.framework` API.
//!
//! A framework call is identified by a `(class_id, method_id)` pair; the
//! invoke handlers try [`dispatch_native`] first and fall through to
//! bytecode dispatch on [`NativeResult::NotNative`]. Arguments are popped
//! from the operand stack right to left.
use vstd::prelude::*;
use crate::heap::{ObjRef, ObjectKind};
use crate::opcodes::ExecResult;
use crate::vm::JcVM;

pub mod class_id;
pub mod method_id;

verus! {

/// Result of a native method dispatch.
#[derive(Debug, Clone, Copy, PartialEq, Eq, Structural)]
pub enum NativeResult {
    /// Void return (no value pushed to stack).
    Void,
    /// Return a short to be pushed on the stack.
    Short(i16),
    /// Return an int to be pushed as two stack words.
    Int(i32),
    /// Return an object reference to be pushed on the stack.
    Ref(u16),
    /// The method threw an exception.
    Exception(ExecResult),
    /// The pair does not name a native method.
    NotNative,
}

/// Whether `(c, m)` names a native framework method.
pub open spec fn is_native(c: u8, m: u8) -> bool {
    (c == class_id::APPLET && 1 <= m <= 2) || (c == class_id::APDU && 1 <= m <= 8) || (c
        == class_id::UTIL && 1 <= m <= 6) || (c == class_id::ISO_EXCEPTION && m == 1) || (c
        == class_id::JC_SYSTEM && 1 <= m <= 5)
}

/// Map a failed pop to the exception it raises.
fn raise<T>(r: Result<T, ExecResult>) -> (n: Result<T, NativeResult>)
    ensures
        match r {
            Ok(v) => n == Ok::<T, NativeResult>(v),
            Err(e) => n == Err::<T, NativeResult>(NativeResult::Exception(e)),
        },
{
    match r {
        Ok(v) => Ok(v),
        Err(e) => Err(NativeResult::Exception(e)),
    }
}

/// Pop the five arguments of `arrayCopy` / `arrayCompare`: `(src, src_off, dest,
/// dest_off, length)`.
/// Pop a word for a native method, dropping nothing else: after `i` pops of `a`, this is
/// pop `i + 1` (a pop of an empty stack changing nothing).
fn pop_arg<const H: usize, const P: usize>(
    vm: &mut JcVM<H, P>,
    Ghost(a): Ghost<JcVM<H, P>>,
    Ghost(i): Ghost<int>,
) -> (r: Result<u16, ExecResult>)
    requires
        old(vm).wf(),
        a.wf(),
        0 <= i,
        *old(vm) == a.popped(i),
    ensures
        final(vm).wf(),
        final(vm).keeps_config(old(vm)),
        *final(vm) == a.popped(i + 1),
        a.stack_words().len() > i ==> r == Ok::<u16, ExecResult>(
            a.stack_words()[a.stack_words().len() - i - 1],
        ),
        a.stack_words().len() <= i ==> r == Err::<u16, ExecResult>(ExecResult::StackUnderflow),
        r is Err ==> forall|j: int| i <= j ==> #[trigger] a.popped(j) == *final(vm),
{
    let ghost b = *vm;
    proof {
        JcVM::<H, P>::lemma_popped_views(&a, i);
    }
    let r = vm.pop();
    proof {
        JcVM::<H, P>::lemma_pop_step(&a, &b, vm, i);
        if r is Err {
            assert forall|j: int| i <= j implies #[trigger] a.popped(j) == *vm by {
                JcVM::<H, P>::lemma_popped_empty(&a, i, j);
            }
        }
    }
    r
}

fn pop_copy_args<const H: usize, const P: usize>(vm: &mut JcVM<H, P>) -> (r: Result<
    (u16, i16, u16, i16, i16),
    NativeResult,
>)
    requires
        old(vm).wf(),
    ensures
        final(vm).keeps_config(old(vm)),
        *final(vm) == old(vm).popped(5),
        old(vm).stack_words().len() >= 5 ==> {
            let s = old(vm).stack_words();
            let n = s.len();
            r == Ok::<(u16, i16, u16, i16, i16), NativeResult>(
                (s[n - 5], s[n - 4] as i16, s[n - 3], s[n - 2] as i16, s[n - 1] as i16),
            )
        },
        old(vm).stack_words().len() < 5 ==> r == Err::<(u16, i16, u16, i16, i16), NativeResult>(
            NativeResult::Exception(ExecResult::StackUnderflow),
        ),
{
    let ghost a = *vm;
    proof {
        JcVM::<H, P>::lemma_popped_empty(&a, 0, 0);
    }
    let length = raise(pop_arg(vm, Ghost(a), Ghost(0)))? as i16;
    let dest_off = raise(pop_arg(vm, Ghost(a), Ghost(1)))? as i16;
    let dest = raise(pop_arg(vm, Ghost(a), Ghost(2)))?;
    let src_off = raise(pop_arg(vm, Ghost(a), Ghost(3)))? as i16;
    let src = raise(pop_arg(vm, Ghost(a), Ghost(4)))?;
    Ok((src, src_off, dest, dest_off, length))
}

/// A native method's short result as a `Result`: the short, or the exception (any
/// other result reads as an invalid method).
pub open spec fn short_result(r: NativeResult) -> Result<i16, ExecResult> {
    match r {
        NativeResult::Short(v) => Ok(v),
        NativeResult::Exception(e) => Err(e),
        _ => Err(ExecResult::InvalidMethod),
    }
}

/// What the framework call `(class_id, method_id)` does, giving `new` and `r`: a pair
/// that names no native method leaves the VM untouched and gives
/// [`NativeResult::NotNative`]. The applet and APDU stubs give fixed results, popping
/// (and ignoring) their arguments; `getBuffer` and the transient array makers allocate
/// an array for the current context. The `Util` methods pop their arguments and
/// compare, copy, make, get or set shorts in byte arrays; `ISOException.throwIt` raises
/// the popped status word (0x6F00 when there is none); the `JCSystem` transaction calls
/// begin, commit or abort the transaction. Too few arguments raise a stack underflow.
pub open spec fn native_call<const H: usize, const P: usize>(
    old: JcVM<H, P>,
    class_id: u8,
    method_id: u8,
    new: JcVM<H, P>,
    r: NativeResult,
) -> bool {
    let sw = old.stack_words();
    let n = sw.len();
    &&& new.keeps_config(&old)
    &&& if !is_native(class_id, method_id) {
        r == NativeResult::NotNative && new == old
    } else if class_id == class_id::APPLET {
        new == old && r == (if method_id == method_id::REGISTER {
            NativeResult::Void
        } else {
            NativeResult::Short(0)
        })
    } else if class_id == class_id::APDU {
        if method_id == method_id::GET_BUFFER {
            JcVM::<H, P>::alloc_call(old, new, ObjectKind::ByteArray, 256, 256, r)
        } else if method_id == method_id::SET_INCOMING_AND_RECEIVE {
            new == old && r == NativeResult::Short(0)
        } else if method_id == method_id::SET_OUTGOING {
            new == old && r == NativeResult::Short(256)
        } else if method_id == method_id::SET_OUTGOING_LENGTH {
            new == old.popped(1) && r == NativeResult::Void
        } else if method_id == method_id::SEND_BYTES || method_id == method_id::SET_OUTGOING_AND_SEND {
            new == old.popped(2) && r == NativeResult::Void
        } else if method_id == method_id::RECEIVE_BYTES {
            new == old.popped(1) && r == NativeResult::Short(0)
        } else {
            new == old.popped(3) && r == NativeResult::Void
        }
    } else if class_id == class_id::UTIL {
        if method_id <= method_id::ARRAY_COMPARE {
            let src = ObjRef(sw[n - 5]);
            let src_off = sw[n - 4] as i16;
            let dest = ObjRef(sw[n - 3]);
            let dest_off = sw[n - 2] as i16;
            let length = sw[n - 1] as i16;
            if n < 5 {
                new == old.popped(5) && r == NativeResult::Exception(ExecResult::StackUnderflow)
            } else if method_id == method_id::ARRAY_COMPARE {
                new == old.popped(5) && r == match (if length < 0 || src_off < 0 || dest_off < 0 {
                    Err(ExecResult::ArrayIndexOutOfBounds)
                } else {
                    old.popped(5).compare_from(src, src_off as int, dest, dest_off as int, length as int, 0)
                }) {
                    Ok(c) => NativeResult::Short(c as i16),
                    Err(e) => NativeResult::Exception(e),
                }
            } else {
                (r is Short || r is Exception) && JcVM::<H, P>::array_copy_outcome(
                    old.popped(5),
                    new,
                    src,
                    src_off,
                    dest,
                    dest_off,
                    length,
                    short_result(r),
                )
            }
        } else if method_id == method_id::MAKE_SHORT {
            new == old.popped(2) && r == (if n >= 2 {
                NativeResult::Short(crate::bytes::be16(sw[n - 2] as u8, sw[n - 1] as u8) as i16)
            } else {
                NativeResult::Exception(ExecResult::StackUnderflow)
            })
        } else if method_id == method_id::GET_SHORT {
            new == old.popped(2) && r == (if n >= 2 {
                match old.native_get_short_spec(ObjRef(sw[n - 2]), sw[n - 1] as i16) {
                    Ok(v) => NativeResult::Short(v),
                    Err(e) => NativeResult::Exception(e),
                }
            } else {
                NativeResult::Exception(ExecResult::StackUnderflow)
            })
        } else if n < 3 {
            new == old.popped(3) && r == NativeResult::Exception(ExecResult::StackUnderflow)
        } else {
            (r is Short || r is Exception) && JcVM::<H, P>::set_short_outcome(
                old.popped(3),
                new,
                ObjRef(sw[n - 3]),
                sw[n - 2] as i16,
                sw[n - 1] as i16,
                short_result(r),
            )
        }
    } else if class_id == class_id::ISO_EXCEPTION {
        new == old.popped(1) && r == NativeResult::Exception(
            ExecResult::UncaughtException(
                if n > 0 {
                    sw[n - 1]
                } else {
                    0x6F00u16
                },
            ),
        )
    } else if method_id == method_id::BEGIN_TRANSACTION || method_id == method_id::COMMIT_TRANSACTION {
        let j = old.journal_view();
        let nj = new.journal_view();
        &&& r == NativeResult::Void
        &&& new.same_but_journal(&old)
        &&& if (method_id == method_id::BEGIN_TRANSACTION) == j.active_spec() {
            nj == j
        } else {
            nj.active_spec() == (method_id == method_id::BEGIN_TRANSACTION) && nj.entry_count() == 0
                && nj.wf() && (method_id == method_id::BEGIN_TRANSACTION ==> nj.recorded() == Seq::<
                (u16, u8),
            >::empty())
        }
    } else if method_id == method_id::ABORT_TRANSACTION {
        r == NativeResult::Void && JcVM::<H, P>::abort_outcome(
            old,
            new,
            if old.journal_view().active_spec() {
                Ok(())
            } else {
                Err(crate::transaction::TransactionError::NotActive)
            },
        )
    } else {
        let length = sw[n - 2] as i16;
        if n < 2 {
            new == old.popped(2) && r == NativeResult::Exception(ExecResult::StackUnderflow)
        } else if length < 0 {
            new == old.popped(2) && r == NativeResult::Exception(ExecResult::NegativeArraySize)
        } else if method_id == method_id::MAKE_TRANSIENT_BYTE_ARRAY {
            JcVM::<H, P>::alloc_call(old.popped(2), new, ObjectKind::ByteArray, length as u16, length as int, r)
        } else {
            JcVM::<H, P>::alloc_call(old.popped(2), new, ObjectKind::ShortArray, length as u16, 2 * length, r)
        }
    }
}

/// `APDU.getBuffer` pops nothing and gives a reference exactly when a 256-byte array
/// fits the heap (a full heap otherwise): a fresh byte array of 256 elements for the
/// current context, at the old free pointer, each element readable there, element 256
/// not, and all zero.
pub proof fn lemma_apdu_buffer<const H: usize, const P: usize>(old: JcVM<H, P>, new: JcVM<H, P>, r: NativeResult)
    requires
        old.wf(),
        native_call(old, class_id::APDU, method_id::GET_BUFFER, new, r),
    ensures
        r is Ref <==> old.heap_view().free_ptr() + 6 + 256 <= H && old.heap_view().free_ptr() + 6 + 256 <= u16::MAX,
        !(r is Ref) ==> r == NativeResult::Exception(ExecResult::HeapFull),
        r is Ref ==> ({
            let obj = ObjRef(r->Ref_0);
            let h = new.heap_view();
            let ctx = old.context();
            &&& obj.0 == old.heap_view().free_ptr()
            &&& new.stack_words() == old.stack_words()
            &&& h.spec_kind_of(obj) == Some(ObjectKind::ByteArray)
            &&& h.spec_owner_of(obj) == Some(ctx)
            &&& h.spec_array_length(obj) == Some(256u16)
            &&& h.free_ptr() == old.heap_view().free_ptr() + 6 + 256
            &&& forall|i: int| 0 <= i < 256 ==> #[trigger] h.spec_element(obj, i as u16, ctx, ObjectKind::ByteArray, 1)
                == Ok::<int, crate::heap::AccessError>(obj.0 + 6 + i)
            &&& h.spec_element(obj, 256, ctx, ObjectKind::ByteArray, 1) is Err
            &&& forall|k: int| obj.0 + 6 <= k < h.free_ptr() ==> #[trigger] h.bytes()[k] == 0
        }),
{
    old.lemma_wf_parts();
    if r is Ref {
        let obj = ObjRef(r->Ref_0);
        let h = new.heap_view();
        let ctx = old.context();
        h.lemma_bytes_len();
        assert(h.spec_owner_of(obj) == Some(ctx));
        assert(crate::heap::kind_of_tag(crate::heap::kind_tag(ObjectKind::ByteArray)) == Some(
            ObjectKind::ByteArray,
        ));
        assert(h.spec_array_length(obj) == Some(256u16));
        assert forall|i: int| 0 <= i < 256 implies #[trigger] h.spec_element(
            obj,
            i as u16,
            ctx,
            ObjectKind::ByteArray,
            1,
        ) == Ok::<int, crate::heap::AccessError>(obj.0 + 6 + i) by {}
    }
}

/// `Util.makeShort` joins the low bytes of its two popped words, the first pushed one
/// as the high byte: the short's 16 bits are that byte times 256 plus the other.
pub proof fn lemma_make_short<const H: usize, const P: usize>(old: JcVM<H, P>, new: JcVM<H, P>, r: NativeResult)
    requires
        native_call(old, class_id::UTIL, method_id::MAKE_SHORT, new, r),
        old.stack_words().len() >= 2,
    ensures
        ({
            let sw = old.stack_words();
            let n = sw.len();
            r matches NativeResult::Short(v) && (v as u16) as int == (sw[n - 2] % 256) * 256 + sw[n - 1] % 256
        }),
{
    let sw = old.stack_words();
    let n = sw.len();
    let x = sw[n - 2];
    let y = sw[n - 1];
    assert(((x as u8) as u16) == x % 256) by (bit_vector);
    assert(((y as u8) as u16) == y % 256) by (bit_vector);
    let t = crate::bytes::be16(x as u8, y as u8);
    assert((t as i16) as u16 == t) by (bit_vector);
}

/// `JCSystem.makeTransientByteArray` / `makeTransientShortArray` pop a length `n`
/// (under the event) and give a reference exactly when both words are there, `n` is not
/// negative and the array fits the heap; otherwise a stack underflow, a negative array
/// size or a full heap, in that order. The reference names a fresh array of the kind
/// they name (byte or short) for the current context, at the old free pointer, of
/// length `n`: each of its `n` elements can be read and written there, element `n`
/// cannot, and its whole payload (`n` bytes or `n` 2-byte shorts) is zero.
pub proof fn lemma_make_transient<const H: usize, const P: usize>(
    old: JcVM<H, P>,
    method_id: u8,
    new: JcVM<H, P>,
    r: NativeResult,
)
    requires
        old.wf(),
        method_id == method_id::MAKE_TRANSIENT_BYTE_ARRAY || method_id
            == method_id::MAKE_TRANSIENT_SHORT_ARRAY,
        native_call(old, class_id::JC_SYSTEM, method_id, new, r),
    ensures
        ({
            let sw = old.stack_words();
            let n = sw[sw.len() - 2] as i16;
            let elem: int = if method_id == method_id::MAKE_TRANSIENT_SHORT_ARRAY {
                2
            } else {
                1
            };
            let end = old.heap_view().free_ptr() + 6 + elem * n;
            &&& r is Ref <==> (sw.len() >= 2 && n >= 0 && end <= H && end <= u16::MAX)
            &&& !(r is Ref) ==> r == NativeResult::Exception(
                if sw.len() < 2 {
                    ExecResult::StackUnderflow
                } else if n < 0 {
                    ExecResult::NegativeArraySize
                } else {
                    ExecResult::HeapFull
                },
            )
        }),
        r is Ref ==> ({
            let sw = old.stack_words();
            let n = sw[sw.len() - 2] as i16;
            let obj = ObjRef(r->Ref_0);
            let short = method_id == method_id::MAKE_TRANSIENT_SHORT_ARRAY;
            let kind = if short {
                ObjectKind::ShortArray
            } else {
                ObjectKind::ByteArray
            };
            let elem: int = if short {
                2
            } else {
                1
            };
            let h = new.heap_view();
            let ctx = old.context();
            &&& obj.0 == old.heap_view().free_ptr()
            &&& h.spec_kind_of(obj) == Some(kind)
            &&& h.spec_owner_of(obj) == Some(ctx)
            &&& h.spec_array_length(obj) == Some(n as u16)
            &&& h.free_ptr() == old.heap_view().free_ptr() + 6 + elem * n
            &&& forall|i: int| 0 <= i < n ==> #[trigger] h.spec_element(obj, i as u16, ctx, kind, elem)
                == Ok::<int, crate::heap::AccessError>(obj.0 + 6 + elem * i)
            &&& h.spec_element(obj, n as u16, ctx, kind, elem) is Err
            &&& forall|k: int| obj.0 + 6 <= k < h.free_ptr() ==> #[trigger] h.bytes()[k] == 0
        }),
{
    JcVM::<H, P>::lemma_popped_views(&old, 2);
    old.lemma_wf_parts();
    if r is Ref {
        let sw = old.stack_words();
        let n = sw[sw.len() - 2] as i16;
        let obj = ObjRef(r->Ref_0);
        let h = new.heap_view();
        let ctx = old.context();
        h.lemma_bytes_len();
        assert(h.spec_owner_of(obj) == Some(ctx));
        assert(h.spec_array_length(obj) == Some(n as u16));
        if method_id == method_id::MAKE_TRANSIENT_SHORT_ARRAY {
            assert(crate::heap::kind_of_tag(crate::heap::kind_tag(ObjectKind::ShortArray)) == Some(
                ObjectKind::ShortArray,
            ));
            assert forall|i: int| 0 <= i < n implies #[trigger] h.spec_element(
                obj,
                i as u16,
                ctx,
                ObjectKind::ShortArray,
                2,
            ) == Ok::<int, crate::heap::AccessError>(obj.0 + 6 + 2 * i) by {}
        } else {
            assert(crate::heap::kind_of_tag(crate::heap::kind_tag(ObjectKind::ByteArray)) == Some(
                ObjectKind::ByteArray,
            ));
            assert forall|i: int| 0 <= i < n implies #[trigger] h.spec_element(
                obj,
                i as u16,
                ctx,
                ObjectKind::ByteArray,
                1,
            ) == Ok::<int, crate::heap::AccessError>(obj.0 + 6 + i) by {}
        }
    }
}

/// Dispatch the framework call `(class_id, method_id)`: pop its arguments, run it,
/// and give its result; [`NativeResult::NotNative`] (with the VM untouched) when the
/// pair names no native method.
pub fn dispatch_native<const H: usize, const P: usize>(
    class_id: u8,
    method_id: u8,
    vm: &mut JcVM<H, P>,
) -> (r: NativeResult)
    requires
        old(vm).wf(),
    ensures
        native_call(*old(vm), class_id, method_id, *final(vm), r),
{
    let ghost a = *vm;
    proof {
        JcVM::<H, P>::lemma_popped_empty(&a, 0, 0);
    }
    if class_id == class_id::APPLET {
        if method_id == method_id::REGISTER {
            return NativeResult::Void;
        } else if method_id == method_id::SELECTING_APPLET {
            return NativeResult::Short(0);
        }
    } else if class_id == class_id::APDU {
        if method_id == method_id::GET_BUFFER {
            return match vm.alloc_apdu_buffer() {
                Some(obj) => NativeResult::Ref(obj.0),
                None => NativeResult::Exception(ExecResult::HeapFull),
            };
        } else if method_id == method_id::SET_INCOMING_AND_RECEIVE {
            return NativeResult::Short(0);
        } else if method_id == method_id::SET_OUTGOING {
            return NativeResult::Short(256);
        } else if method_id == method_id::SET_OUTGOING_LENGTH {
            let _len = pop_arg(vm, Ghost(a), Ghost(0));
            return NativeResult::Void;
        } else if method_id == method_id::SEND_BYTES || method_id == method_id::SET_OUTGOING_AND_SEND {
            let _length = pop_arg(vm, Ghost(a), Ghost(0));
            let _offset = pop_arg(vm, Ghost(a), Ghost(1));
            return NativeResult::Void;
        } else if method_id == method_id::RECEIVE_BYTES {
            let _offset = pop_arg(vm, Ghost(a), Ghost(0));
            return NativeResult::Short(0);
        } else if method_id == method_id::SEND_BYTES_LONG {
            let _length = pop_arg(vm, Ghost(a), Ghost(0));
            let _offset = pop_arg(vm, Ghost(a), Ghost(1));
            let _out_data = pop_arg(vm, Ghost(a), Ghost(2));
            return NativeResult::Void;
        }
    } else if class_id == class_id::UTIL {
        if method_id == method_id::ARRAY_COPY || method_id == method_id::ARRAY_COPY_NON_ATOMIC
            || method_id == method_id::ARRAY_COMPARE {
            let (src, src_off, dest, dest_off, length) = match pop_copy_args(vm) {
                Ok(a) => a,
                Err(e) => return e,
            };
            if method_id == method_id::ARRAY_COMPARE {
                return match vm.native_array_compare(ObjRef(src), src_off, ObjRef(dest), dest_off, length) {
                    Ok(c) => NativeResult::Short(c as i16),
                    Err(e) => NativeResult::Exception(e),
                };
            }
            return match vm.native_array_copy(ObjRef(src), src_off, ObjRef(dest), dest_off, length) {
                Ok(next) => NativeResult::Short(next),
                Err(e) => NativeResult::Exception(e),
            };
        } else if method_id == method_id::MAKE_SHORT {
            let b2 = match pop_arg(vm, Ghost(a), Ghost(0)) {
                Ok(v) => v as u8,
                Err(e) => return NativeResult::Exception(e),
            };
            let b1 = match pop_arg(vm, Ghost(a), Ghost(1)) {
                Ok(v) => v as u8,
                Err(e) => return NativeResult::Exception(e),
            };
            return NativeResult::Short(crate::bytes::read_be16(b1, b2) as i16);
        } else if method_id == method_id::GET_SHORT {
            let b_off = match pop_arg(vm, Ghost(a), Ghost(0)) {
                Ok(v) => v as i16,
                Err(e) => return NativeResult::Exception(e),
            };
            let arr = match pop_arg(vm, Ghost(a), Ghost(1)) {
                Ok(v) => v,
                Err(e) => return NativeResult::Exception(e),
            };
            proof {
                JcVM::<H, P>::lemma_popped_views(&a, 2);
            }
            return match vm.native_get_short(ObjRef(arr), b_off) {
                Ok(v) => NativeResult::Short(v),
                Err(e) => NativeResult::Exception(e),
            };
        } else if method_id == method_id::SET_SHORT {
            let value = match pop_arg(vm, Ghost(a), Ghost(0)) {
                Ok(v) => v as i16,
                Err(e) => return NativeResult::Exception(e),
            };
            let b_off = match pop_arg(vm, Ghost(a), Ghost(1)) {
                Ok(v) => v as i16,
                Err(e) => return NativeResult::Exception(e),
            };
            let arr = match pop_arg(vm, Ghost(a), Ghost(2)) {
                Ok(v) => v,
                Err(e) => return NativeResult::Exception(e),
            };
            return match vm.native_set_short(ObjRef(arr), b_off, value) {
                Ok(next) => NativeResult::Short(next),
                Err(e) => NativeResult::Exception(e),
            };
        }
    } else if class_id == class_id::ISO_EXCEPTION {
        if method_id == method_id::THROW_IT {
            let sw = match pop_arg(vm, Ghost(a), Ghost(0)) {
                Ok(v) => v,
                Err(_) => 0x6F00,
            };
            return NativeResult::Exception(ExecResult::UncaughtException(sw));
        }
    } else if class_id == class_id::JC_SYSTEM {
        if method_id == method_id::BEGIN_TRANSACTION {
            let j = vm.journal_mut();
            let _ = j.begin();
            return NativeResult::Void;
        } else if method_id == method_id::COMMIT_TRANSACTION {
            let j = vm.journal_mut();
            let _ = j.commit();
            return NativeResult::Void;
        } else if method_id == method_id::ABORT_TRANSACTION {
            let _ = vm.abort_transaction();
            return NativeResult::Void;
        } else if method_id == method_id::MAKE_TRANSIENT_BYTE_ARRAY || method_id
            == method_id::MAKE_TRANSIENT_SHORT_ARRAY {
            let _event = pop_arg(vm, Ghost(a), Ghost(0));
            let length = match pop_arg(vm, Ghost(a), Ghost(1)) {
                Ok(v) => v as i16,
                Err(e) => return NativeResult::Exception(e),
            };
            if length < 0 {
                return NativeResult::Exception(ExecResult::NegativeArraySize);
            }
            let made = if method_id == method_id::MAKE_TRANSIENT_BYTE_ARRAY {
                vm.alloc_byte_array(length as u16)
            } else {
                vm.alloc_short_array(length as u16)
            };
            return match made {
                Some(obj) => NativeResult::Ref(obj.0),
                None => NativeResult::Exception(ExecResult::HeapFull),
            };
        }
    }
    NativeResult::NotNative
}

} // verus!
