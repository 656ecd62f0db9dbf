//! The flat package blob: magic, AID, method count and one record per method.
//!
//! ```text
//! [ magic: 4 bytes (0xDECAFFED, big-endian) ]
//! [ AID length: 1 byte ] [ AID: up to 16 bytes ]
//! [ method count: 1 byte ]
//! per method:
//!   [ flags ] [ max_stack ] [ nargs ] [ max_locals ] [ bytecode_len: u16 BE ]
//!   [ bytecode: bytecode_len bytes ]
//!   optional, present when bytes remain:
//!   [ exception count: 1 byte ] [ 8 bytes per entry: start, end, handler, catch (u16 BE) ]
//!   optional, present when 4 more bytes remain:
//!   [ descriptor offset: u16 BE ] [ class offset: u16 BE ]
//! ```
use vstd::prelude::*;
use crate::bytes::{be16, be32, hi8, lo8, high_byte, low_byte, read_be16, read_be32, lemma_split_join16};
use super::{
    CAP_MAGIC, ExceptionEntry, MAX_AID_LEN, MAX_BYTECODE, MAX_EXCEPTIONS, MAX_METHODS,
    METHOD_FLAG_STATIC, MethodInfo, Package, ParseError, has_empty_tables,
};

verus! {

/// The big-endian u16 at `i`.
pub open spec fn u16_at(d: Seq<u8>, i: int) -> u16 {
    be16(d[i], d[i + 1])
}

/// The exception entry whose 8 bytes start at `p`.
pub open spec fn entry_at(d: Seq<u8>, p: int) -> ExceptionEntry {
    ExceptionEntry {
        start_pc: u16_at(d, p),
        end_pc: u16_at(d, p + 2),
        handler_pc: u16_at(d, p + 4),
        catch_type: u16_at(d, p + 6),
    }
}

/// An exception entry lies within a method of `bl` bytecode bytes: its try region is
/// non-empty and inside the code, and its handler starts inside the code.
pub open spec fn entry_valid(e: ExceptionEntry, bl: u16) -> bool {
    !(e.handler_pc >= bl || e.start_pc >= bl || e.end_pc > bl || e.start_pc >= e.end_pc)
}

/// The first problem among exception entries `j..n` starting at `p`, if any.
pub open spec fn exceptions_error(d: Seq<u8>, p: int, j: nat, n: nat, bl: u16) -> Option<
    ParseError,
>
    decreases n - j,
{
    if j >= n {
        None
    } else if d.len() < p + 8 * j + 8 {
        Some(ParseError::TooShort)
    } else if !entry_valid(entry_at(d, p + 8 * j), bl) {
        Some(ParseError::InvalidExceptionHandler)
    } else {
        exceptions_error(d, p, j + 1, n, bl)
    }
}

/// Where the method record at `pos` ends, or why it is malformed.
pub open spec fn method_end(d: Seq<u8>, pos: int) -> Result<int, ParseError> {
    if d.len() < pos + 6 {
        Err(ParseError::TooShort)
    } else {
        let bl = u16_at(d, pos + 4);
        if bl > MAX_BYTECODE {
            Err(ParseError::BytecodeTooLong)
        } else if d.len() < pos + 6 + bl {
            Err(ParseError::TooShort)
        } else {
            let p2 = pos + 6 + bl;
            if p2 < d.len() {
                let n = d[p2];
                if n > MAX_EXCEPTIONS {
                    Err(ParseError::TooManyExceptions)
                } else {
                    match exceptions_error(d, p2 + 1, 0, n as nat, bl) {
                        Some(e) => Err(e),
                        None => {
                            let p4 = p2 + 1 + 8 * n;
                            if d.len() >= p4 + 4 {
                                let ds = u16_at(d, p4);
                                let cs = u16_at(d, p4 + 2);
                                if (ds != 0 || cs != 0) && ds != cs {
                                    Err(ParseError::OffsetMismatch)
                                } else {
                                    Ok(p4 + 4)
                                }
                            } else {
                                Ok(p4)
                            }
                        },
                    }
                }
            } else {
                Ok(p2)
            }
        }
    }
}

/// Where the first `k` method records starting at `start` end, or the first problem.
pub open spec fn methods_end(d: Seq<u8>, start: int, k: nat) -> Result<int, ParseError>
    decreases k,
{
    if k == 0 {
        Ok(start)
    } else {
        match methods_end(d, start, (k - 1) as nat) {
            Err(e) => Err(e),
            Ok(p) => method_end(d, p),
        }
    }
}

/// The method record at `pos` decodes to `m`.
pub open spec fn method_decodes(m: MethodInfo, d: Seq<u8>, pos: int) -> bool {
    let bl = u16_at(d, pos + 4);
    let p2 = pos + 6 + bl;
    &&& m.flags == d[pos]
    &&& m.max_stack == d[pos + 1]
    &&& m.nargs == d[pos + 2]
    &&& m.max_locals == d[pos + 3]
    &&& m.bytecode_len == bl
    &&& forall|i: int| 0 <= i < bl ==> #[trigger] m.bytecode@[i] == d[pos + 6 + i]
    &&& forall|i: int| bl <= i < MAX_BYTECODE ==> #[trigger] m.bytecode@[i] == 0
    &&& if p2 < d.len() {
        let n = d[p2] as int;
        let p4 = p2 + 1 + 8 * n;
        &&& forall|j: int|
            0 <= j < n ==> #[trigger] m.exception_table@[j] == Some(entry_at(d, p2 + 1 + 8 * j))
        &&& forall|j: int| n <= j < MAX_EXCEPTIONS ==> #[trigger] m.exception_table@[j] is None
        &&& if d.len() >= p4 + 4 {
            m.descriptor_offset == u16_at(d, p4) && m.class_offset == u16_at(d, p4 + 2)
        } else {
            m.descriptor_offset == 0 && m.class_offset == 0
        }
    } else {
        &&& forall|j: int| 0 <= j < MAX_EXCEPTIONS ==> #[trigger] m.exception_table@[j] is None
        &&& m.descriptor_offset == 0 && m.class_offset == 0
    }
}

/// The header checks of a blob: on success, the AID length and the method count.
pub open spec fn blob_header(d: Seq<u8>) -> Result<(u8, u8), ParseError> {
    if d.len() < 4 {
        Err(ParseError::TooShort)
    } else if be32(d[0], d[1], d[2], d[3]) != CAP_MAGIC {
        Err(ParseError::BadMagic)
    } else if d.len() < 5 {
        Err(ParseError::TooShort)
    } else if d[4] > MAX_AID_LEN {
        Err(ParseError::AidTooLong)
    } else if d.len() < 6 + d[4] {
        Err(ParseError::TooShort)
    } else if d[5 + d[4]] > MAX_METHODS {
        Err(ParseError::TooManyMethods)
    } else {
        Ok((d[4], d[5 + d[4]]))
    }
}

/// Whether the blob parses, and if not, the error the parser reports.
pub open spec fn blob_outcome(d: Seq<u8>) -> Result<(), ParseError> {
    match blob_header(d) {
        Err(e) => Err(e),
        Ok((aid_len, count)) => match methods_end(d, 6 + aid_len, count as nat) {
            Err(e) => Err(e),
            Ok(_) => Ok(()),
        },
    }
}

/// Where method record `i` of a well-formed blob starts.
pub open spec fn blob_method_start(d: Seq<u8>, i: nat) -> int {
    methods_end(d, 6 + d[4], i)->Ok_0
}

/// `r` is what parsing the blob `d` gives: the error the checks report, or a package
/// with the blob's AID and methods and no other tables.
pub open spec fn blob_result(d: Seq<u8>, r: Result<Package, ParseError>) -> bool {
    match r {
        Err(e) => blob_outcome(d) == Err::<(), ParseError>(e),
        Ok(p) => {
            &&& blob_outcome(d) is Ok
            &&& p.aid_len == d[4]
            &&& forall|i: int| 0 <= i < d[4] ==> #[trigger] p.aid@[i] == d[5 + i]
            &&& forall|i: int| d[4] <= i < MAX_AID_LEN ==> #[trigger] p.aid@[i] == 0
            &&& p.method_count == d[5 + d[4]]
            &&& forall|i: int|
                0 <= i < p.method_count ==> #[trigger] p.methods@[i] is Some && method_decodes(
                    p.methods@[i]->0,
                    d,
                    blob_method_start(d, i as nat),
                )
            &&& forall|i: int| p.method_count <= i < MAX_METHODS ==> #[trigger] p.methods@[i] is None
            &&& has_empty_tables(p)
        },
    }
}

proof fn lemma_methods_end_step(d: Seq<u8>, start: int, k: nat)
    requires
        methods_end(d, start, k) is Ok,
    ensures
        methods_end(d, start, k + 1) == method_end(d, methods_end(d, start, k)->Ok_0),
{
}

proof fn lemma_methods_end_err(d: Seq<u8>, start: int, k: nat, m: nat)
    requires
        methods_end(d, start, k) is Err,
        k <= m,
    ensures
        methods_end(d, start, m) == methods_end(d, start, k),
    decreases m - k,
{
    if k < m {
        lemma_methods_end_err(d, start, k, (m - 1) as nat);
    }
}

proof fn lemma_method_end_grows(d: Seq<u8>, pos: int)
    requires
        method_end(d, pos) is Ok,
    ensures
        pos + 6 <= method_end(d, pos)->Ok_0 <= d.len(),
{
    let bl = u16_at(d, pos + 4);
    let p2 = pos + 6 + bl;
    if p2 < d.len() {
        lemma_exceptions_fit(d, p2 + 1, 0, d[p2] as nat, bl);
    }
}

proof fn lemma_exceptions_fit(d: Seq<u8>, p: int, j: nat, n: nat, bl: u16)
    requires
        exceptions_error(d, p, j, n, bl) is None,
        j <= n,
    ensures
        n == j || d.len() >= p + 8 * n,
    decreases n - j,
{
    if j < n {
        lemma_exceptions_fit(d, p, j + 1, n, bl);
    }
}

/// Parse one method record at `pos`.
fn parse_blob_method(data: &[u8], pos: usize) -> (r: Result<(MethodInfo, usize), ParseError>)
    requires
        pos <= data@.len(),
    ensures
        match r {
            Ok((m, end)) => method_end(data@, pos as int) == Ok::<int, ParseError>(end as int)
                && method_decodes(m, data@, pos as int) && m.bytecode_len <= MAX_BYTECODE,
            Err(e) => method_end(data@, pos as int) == Err::<int, ParseError>(e),
        },
{
    let len = data.len();
    if len - pos < 6 {
        return Err(ParseError::TooShort);
    }
    let flags = data[pos];
    let max_stack = data[pos + 1];
    let nargs = data[pos + 2];
    let max_locals = data[pos + 3];
    let mut p = pos + 4;
    let bytecode_len = read_be16(data[p], data[p + 1]);
    p = p + 2;
    if bytecode_len as usize > MAX_BYTECODE {
        return Err(ParseError::BytecodeTooLong);
    }
    if len - p < bytecode_len as usize {
        return Err(ParseError::TooShort);
    }
    let bl = bytecode_len as usize;
    let mut bytecode = [0u8; MAX_BYTECODE];
    let mut i: usize = 0;
    while i < bl
        invariant
            bl <= MAX_BYTECODE,
            p == pos + 6,
            p + bl <= data@.len(),
            len == data@.len(),
            i <= bl,
            forall|k: int| 0 <= k < i ==> #[trigger] bytecode@[k] == data@[p + k],
            forall|k: int| bl <= k < MAX_BYTECODE ==> #[trigger] bytecode@[k] == 0,
        decreases bl - i,
    {
        bytecode[i] = data[p + i];
        i = i + 1;
    }
    p = p + bl;
    let mut exception_table: [Option<ExceptionEntry>; MAX_EXCEPTIONS] = [None; MAX_EXCEPTIONS];
    let mut descriptor_offset: u16 = 0;
    let mut class_offset: u16 = 0;
    let ghost p2 = p as int;
    if p < len {
        let exc_count = data[p] as usize;
        p = p + 1;
        if exc_count > MAX_EXCEPTIONS {
            return Err(ParseError::TooManyExceptions);
        }
        let ghost n = data@[p2] as nat;
        let mut j: usize = 0;
        while j < exc_count
            invariant
                p2 < data@.len(),
                p2 == pos + 6 + bytecode_len,
                bytecode_len == u16_at(data@, pos + 4),
                bytecode_len <= MAX_BYTECODE,
                pos + 6 <= len,
                len == data@.len(),
                exc_count == n,
                n == data@[p2],
                exc_count <= MAX_EXCEPTIONS,
                j <= exc_count,
                p == p2 + 1 + 8 * j,
                p <= len,
                bl == bytecode_len,
                exceptions_error(data@, p2 + 1, 0, n, bytecode_len) == exceptions_error(
                    data@,
                    p2 + 1,
                    j as nat,
                    n,
                    bytecode_len,
                ),
                forall|k: int|
                    0 <= k < j ==> #[trigger] exception_table@[k] == Some(
                        entry_at(data@, p2 + 1 + 8 * k),
                    ),
                forall|k: int| j <= k < MAX_EXCEPTIONS ==> #[trigger] exception_table@[k] is None,
            decreases exc_count - j,
        {
            if len - p < 8 {
                assert(exceptions_error(data@, p2 + 1, j as nat, n, bytecode_len) == Some(
                    ParseError::TooShort,
                ));
                return Err(ParseError::TooShort);
            }
            let start_pc = read_be16(data[p], data[p + 1]);
            let end_pc = read_be16(data[p + 2], data[p + 3]);
            let handler_pc = read_be16(data[p + 4], data[p + 5]);
            let catch_type = read_be16(data[p + 6], data[p + 7]);
            if handler_pc >= bytecode_len || start_pc >= bytecode_len || end_pc > bytecode_len
                || start_pc >= end_pc {
                assert(!entry_valid(entry_at(data@, p2 + 1 + 8 * j), bytecode_len));
                assert(exceptions_error(data@, p2 + 1, j as nat, n, bytecode_len) == Some(
                    ParseError::InvalidExceptionHandler,
                ));
                return Err(ParseError::InvalidExceptionHandler);
            }
            exception_table[j] = Some(ExceptionEntry { start_pc, end_pc, handler_pc, catch_type });
            p = p + 8;
            j = j + 1;
        }
        if len - p >= 4 {
            descriptor_offset = read_be16(data[p], data[p + 1]);
            class_offset = read_be16(data[p + 2], data[p + 3]);
            p = p + 4;
            if (descriptor_offset != 0 || class_offset != 0) && descriptor_offset != class_offset {
                return Err(ParseError::OffsetMismatch);
            }
        }
    }
    let m = MethodInfo {
        flags,
        max_stack,
        nargs,
        max_locals,
        bytecode,
        bytecode_len,
        exception_table,
        descriptor_offset,
        class_offset,
    };
    Ok((m, p))
}

/// Parse a flat package blob into a [`Package`].
pub fn parse_cap_blob(data: &[u8]) -> (r: Result<Package, ParseError>)
    ensures
        blob_result(data@, r),
        r matches Ok(p) ==> forall|i: int|
            0 <= i < MAX_METHODS ==> (#[trigger] p.methods@[i] matches Some(m) ==> m.bytecode_len
                <= MAX_BYTECODE),
{
    if data.len() < 4 {
        return Err(ParseError::TooShort);
    }
    let magic = read_be32(data[0], data[1], data[2], data[3]);
    if magic != CAP_MAGIC {
        return Err(ParseError::BadMagic);
    }
    if data.len() < 5 {
        return Err(ParseError::TooShort);
    }
    let aid_len = data[4];
    if aid_len as usize > MAX_AID_LEN {
        return Err(ParseError::AidTooLong);
    }
    if data.len() < 5 + aid_len as usize {
        return Err(ParseError::TooShort);
    }
    let mut pkg = Package::empty();
    let mut i: usize = 0;
    while i < aid_len as usize
        invariant
            aid_len <= MAX_AID_LEN,
            5 + aid_len <= data@.len(),
            aid_len == data@[4],
            has_empty_tables(pkg),
            pkg.aid_len == 0,
            pkg.method_count == 0,
            forall|q: int| 0 <= q < MAX_METHODS ==> #[trigger] pkg.methods@[q] is None,
            forall|k: int| 0 <= k < i ==> #[trigger] pkg.aid@[k] == data@[5 + k],
            forall|k: int| aid_len <= k < MAX_AID_LEN ==> #[trigger] pkg.aid@[k] == 0,
            i <= aid_len,
        decreases aid_len - i,
    {
        pkg.aid[i] = data[5 + i];
        i = i + 1;
    }
    pkg.aid_len = aid_len;
    let start = 5 + aid_len as usize;
    if data.len() < start + 1 {
        return Err(ParseError::TooShort);
    }
    let method_count = data[start];
    if method_count as usize > MAX_METHODS {
        return Err(ParseError::TooManyMethods);
    }
    let mut pos = start + 1;
    let mut k: usize = 0;
    while k < method_count as usize
        invariant
            blob_header(data@) == Ok::<(u8, u8), ParseError>((aid_len, method_count)),
            method_count <= MAX_METHODS,
            k <= method_count,
            pos <= data@.len(),
            methods_end(data@, 6 + aid_len, k as nat) == Ok::<int, ParseError>(pos as int),
            pkg.aid_len == aid_len,
            forall|q: int| 0 <= q < aid_len ==> #[trigger] pkg.aid@[q] == data@[5 + q],
            forall|q: int| aid_len <= q < MAX_AID_LEN ==> #[trigger] pkg.aid@[q] == 0,
            has_empty_tables(pkg),
            pkg.method_count == 0,
            forall|q: int|
                0 <= q < k ==> #[trigger] pkg.methods@[q] is Some && method_decodes(
                    pkg.methods@[q]->0,
                    data@,
                    blob_method_start(data@, q as nat),
                ),
            forall|q: int| k <= q < MAX_METHODS ==> #[trigger] pkg.methods@[q] is None,
            forall|q: int|
                0 <= q < MAX_METHODS ==> (#[trigger] pkg.methods@[q] matches Some(m) ==> m.bytecode_len
                    <= MAX_BYTECODE),
        decreases method_count - k,
    {
        proof {
            lemma_methods_end_step(data@, 6 + aid_len, k as nat);
        }
        let (m, end) = match parse_blob_method(data, pos) {
            Ok(v) => v,
            Err(e) => {
                proof {
                    lemma_methods_end_err(data@, 6 + aid_len, (k + 1) as nat, method_count as nat);
                }
                return Err(e);
            },
        };
        proof {
            lemma_method_end_grows(data@, pos as int);
        }
        pkg.methods[k] = Some(m);
        pos = end;
        k = k + 1;
    }
    pkg.method_count = method_count;
    Ok(pkg)
}

/// The record `build_cap_blob` writes for one method: static, `max_stack` 8, no
/// arguments, 4 locals, the bytecode, an empty exception table and zero offsets.
pub open spec fn blob_method_image(bc: Seq<u8>) -> Seq<u8> {
    seq![METHOD_FLAG_STATIC, 8u8, 0u8, 4u8, hi8(bc.len() as u16), lo8(bc.len() as u16)] + bc
        + seq![0u8, 0u8, 0u8, 0u8, 0u8]
}

/// A bytecode truncated to at most `MAX_BYTECODE` bytes.
pub open spec fn clip_bytecode(bc: Seq<u8>) -> Seq<u8> {
    if bc.len() <= MAX_BYTECODE {
        bc
    } else {
        bc.subrange(0, MAX_BYTECODE as int)
    }
}

/// The method records for the first `k` bytecodes.
pub open spec fn blob_methods_image(bcs: Seq<Seq<u8>>, k: nat) -> Seq<u8>
    decreases k,
{
    if k == 0 || k > bcs.len() {
        Seq::empty()
    } else {
        blob_methods_image(bcs, (k - 1) as nat) + blob_method_image(clip_bytecode(bcs[k - 1]))
    }
}

/// An AID truncated to at most `MAX_AID_LEN` bytes.
pub open spec fn clip_aid(aid: Seq<u8>) -> Seq<u8> {
    if aid.len() <= MAX_AID_LEN {
        aid
    } else {
        aid.subrange(0, MAX_AID_LEN as int)
    }
}

/// The number of methods a blob built from `n` bytecodes holds.
pub open spec fn clip_count(n: nat) -> nat {
    if n <= MAX_METHODS {
        n
    } else {
        MAX_METHODS as nat
    }
}

/// The whole blob `build_cap_blob` writes.
pub open spec fn blob_image(aid: Seq<u8>, bcs: Seq<Seq<u8>>) -> Seq<u8> {
    seq![0xDEu8, 0xCAu8, 0xFFu8, 0xEDu8, clip_aid(aid).len() as u8] + clip_aid(aid) + seq![
        clip_count(bcs.len()) as u8,
    ] + blob_methods_image(bcs, clip_count(bcs.len()))
}

proof fn lemma_methods_image_len(bcs: Seq<Seq<u8>>, k: nat)
    requires
        k <= bcs.len(),
    ensures
        blob_methods_image(bcs, k).len() <= k * (MAX_BYTECODE + 11),
    decreases k,
{
    if k > 0 {
        lemma_methods_image_len(bcs, (k - 1) as nat);
    }
}

/// Build a package blob with one static method per bytecode (at most `MAX_METHODS`,
/// each truncated to `MAX_BYTECODE` bytes) and the AID truncated to `MAX_AID_LEN`.
/// Returns the number of bytes written; the buffer must hold the whole blob.
pub fn build_cap_blob(aid: &[u8], bytecodes: &[&[u8]], buf: &mut [u8]) -> (r: usize)
    requires
        old(buf)@.len() >= blob_image(aid@, bytecodes@.map_values(|s: &[u8]| s@)).len(),
    ensures
        r == blob_image(aid@, bytecodes@.map_values(|s: &[u8]| s@)).len(),
        final(buf)@.len() == old(buf)@.len(),
        final(buf)@.subrange(0, r as int) == blob_image(aid@, bytecodes@.map_values(|s: &[u8]| s@)),
        final(buf)@.subrange(r as int, old(buf)@.len() as int) == old(buf)@.subrange(
            r as int,
            old(buf)@.len() as int,
        ),
{
    let ghost bcs = bytecodes@.map_values(|s: &[u8]| s@);
    let ghost img = blob_image(aid@, bcs);
    let aid_len = if aid.len() < MAX_AID_LEN {
        aid.len()
    } else {
        MAX_AID_LEN
    };
    let count = if bytecodes.len() < MAX_METHODS {
        bytecodes.len()
    } else {
        MAX_METHODS
    };
    proof {
        lemma_methods_image_len(bcs, clip_count(bcs.len()));
        assert(clip_aid(aid@).len() == aid_len);
        assert(clip_count(bcs.len()) == count);
    }
    buf[0] = 0xDE;
    buf[1] = 0xCA;
    buf[2] = 0xFF;
    buf[3] = 0xED;
    buf[4] = aid_len as u8;
    let mut i: usize = 0;
    while i < aid_len
        invariant
            aid_len == clip_aid(aid@).len(),
            aid_len <= aid@.len(),
            buf@.len() == old(buf)@.len(),
            buf@.len() >= img.len(),
            img == blob_image(aid@, bcs),
            i <= aid_len,
            forall|k: int| 0 <= k < 5 + i ==> #[trigger] buf@[k] == img[k],
            forall|k: int| img.len() <= k < buf@.len() ==> #[trigger] buf@[k] == old(buf)@[k],
        decreases aid_len - i,
    {
        buf[5 + i] = aid[i];
        i = i + 1;
    }
    let mut pos = 5 + aid_len;
    buf[pos] = count as u8;
    pos = pos + 1;
    let mut m: usize = 0;
    while m < count
        invariant
            count == clip_count(bcs.len()),
            count <= bytecodes@.len(),
            aid_len == clip_aid(aid@).len(),
            buf@.len() == old(buf)@.len(),
            img == blob_image(aid@, bcs),
            buf@.len() >= img.len(),
            bcs == bytecodes@.map_values(|s: &[u8]| s@),
            m <= count,
            pos == 6 + aid_len + blob_methods_image(bcs, m as nat).len(),
            forall|k: int| 0 <= k < pos ==> #[trigger] buf@[k] == img[k],
            forall|k: int| img.len() <= k < buf@.len() ==> #[trigger] buf@[k] == old(buf)@[k],
        decreases count - m,
    {
        let bc = bytecodes[m];
        let bc_len = if bc.len() < MAX_BYTECODE {
            bc.len()
        } else {
            MAX_BYTECODE
        };
        proof {
            lemma_methods_image_len(bcs, clip_count(bcs.len()));
            lemma_methods_image_prefix(bcs, (m + 1) as nat, clip_count(bcs.len()));
            assert(bcs[m as int] == bc@);
            assert(clip_bytecode(bc@).len() == bc_len);
        }
        let ghost base = pos as int;
        pos = write_method_record(buf, pos, bc, bc_len);
        proof {
            lemma_image_method_slice(aid@, bcs, m as nat);
            let rec = blob_method_image(clip_bytecode(bc@));
            assert forall|k: int| 0 <= k < pos implies #[trigger] buf@[k] == img[k] by {
                if k >= base {
                    assert(buf@[k] == rec[k - base]);
                }
            }
        }
        m = m + 1;
    }
    proof {
        assert(buf@.subrange(0, pos as int) =~= img);
        assert(buf@.subrange(pos as int, buf@.len() as int) =~= old(buf)@.subrange(
            pos as int,
            old(buf)@.len() as int,
        ));
    }
    pos
}

/// Write one method record (see [`blob_method_image`]) at `pos`; returns where it ends.
fn write_method_record(buf: &mut [u8], pos: usize, bc: &[u8], bc_len: usize) -> (end: usize)
    requires
        bc_len == clip_bytecode(bc@).len(),
        pos + 11 + bc_len <= old(buf)@.len(),
    ensures
        end == pos + blob_method_image(clip_bytecode(bc@)).len(),
        final(buf)@.len() == old(buf)@.len(),
        forall|k: int| 0 <= k < pos ==> #[trigger] final(buf)@[k] == old(buf)@[k],
        forall|k: int|
            pos <= k < end ==> #[trigger] final(buf)@[k] == blob_method_image(clip_bytecode(bc@))[k
                - pos],
        forall|k: int| end <= k < old(buf)@.len() ==> #[trigger] final(buf)@[k] == old(buf)@[k],
{
    let ghost rec = blob_method_image(clip_bytecode(bc@));
    buf[pos] = METHOD_FLAG_STATIC;
    buf[pos + 1] = 8;
    buf[pos + 2] = 0;
    buf[pos + 3] = 4;
    buf[pos + 4] = high_byte(bc_len as u16);
    buf[pos + 5] = low_byte(bc_len as u16);
    let start = pos + 6;
    let mut j: usize = 0;
    while j < bc_len
        invariant
            bc_len == clip_bytecode(bc@).len(),
            bc_len <= bc@.len(),
            start == pos + 6,
            start + bc_len + 5 <= buf.len(),
            buf@.len() == old(buf)@.len(),
            rec == blob_method_image(clip_bytecode(bc@)),
            forall|k: int| 0 <= k < pos ==> #[trigger] buf@[k] == old(buf)@[k],
            forall|k: int| pos <= k < start + j ==> #[trigger] buf@[k] == rec[k - pos],
            forall|k: int| start + bc_len <= k < buf@.len() ==> #[trigger] buf@[k] == old(buf)@[k],
            j <= bc_len,
        decreases bc_len - j,
    {
        buf[start + j] = bc[j];
        j = j + 1;
    }
    let p = start + bc_len;
    buf[p] = 0;
    buf[p + 1] = 0;
    buf[p + 2] = 0;
    buf[p + 3] = 0;
    buf[p + 4] = 0;
    p + 5
}

proof fn lemma_methods_image_prefix(bcs: Seq<Seq<u8>>, k: nat, n: nat)
    requires
        k <= n <= bcs.len(),
    ensures
        blob_methods_image(bcs, k).len() <= blob_methods_image(bcs, n).len(),
        blob_methods_image(bcs, n).subrange(0, blob_methods_image(bcs, k).len() as int)
            == blob_methods_image(bcs, k),
    decreases n - k,
{
    if k < n {
        lemma_methods_image_prefix(bcs, k, (n - 1) as nat);
        let a = blob_methods_image(bcs, (n - 1) as nat);
        let b = blob_method_image(clip_bytecode(bcs[n - 1]));
        assert((a + b).subrange(0, blob_methods_image(bcs, k).len() as int) =~= a.subrange(
            0,
            blob_methods_image(bcs, k).len() as int,
        ));
    } else {
        assert(blob_methods_image(bcs, n).subrange(0, blob_methods_image(bcs, k).len() as int)
            =~= blob_methods_image(bcs, k));
    }
}

proof fn lemma_image_method_slice(aid: Seq<u8>, bcs: Seq<Seq<u8>>, m: nat)
    requires
        m < clip_count(bcs.len()),
    ensures
        ({
            let img = blob_image(aid, bcs);
            let base = 6 + clip_aid(aid).len() + blob_methods_image(bcs, m).len();
            let rec = blob_method_image(clip_bytecode(bcs[m as int]));
            &&& base + rec.len() <= img.len()
            &&& forall|k: int| base <= k < base + rec.len() ==> #[trigger] img[k] == rec[k - base]
        }),
{
    let img = blob_image(aid, bcs);
    let n = clip_count(bcs.len());
    lemma_methods_image_prefix(bcs, m + 1, n);
    let pre = seq![0xDEu8, 0xCAu8, 0xFFu8, 0xEDu8, clip_aid(aid).len() as u8] + clip_aid(aid)
        + seq![n as u8];
    let all = blob_methods_image(bcs, n);
    let upto = blob_methods_image(bcs, m + 1);
    assert(upto == blob_methods_image(bcs, m) + blob_method_image(clip_bytecode(bcs[m as int])));
    assert(img == pre + all);
    let base = 6 + clip_aid(aid).len() + blob_methods_image(bcs, m).len();
    let rec = blob_method_image(clip_bytecode(bcs[m as int]));
    assert forall|k: int| base <= k < base + rec.len() implies #[trigger] img[k] == rec[k - base] by {
        assert(img[k] == all[k - pre.len()]);
        assert(all[k - pre.len()] == all.subrange(0, upto.len() as int)[k - pre.len()]);
        assert(upto[k - pre.len()] == rec[k - base]);
    }
}


/// The method record `build_cap_blob` writes for the bytecode `bc` ends where
/// [`method_end`] says, and decodes to a static method holding `bc`.
proof fn lemma_built_record(d: Seq<u8>, pos: int, bc: Seq<u8>)
    requires
        0 <= pos,
        bc.len() <= MAX_BYTECODE,
        pos + blob_method_image(bc).len() <= d.len(),
        forall|k: int|
            pos <= k < pos + blob_method_image(bc).len() ==> #[trigger] d[k] == blob_method_image(
                bc,
            )[k - pos],
    ensures
        method_end(d, pos) == Ok::<int, ParseError>(pos + blob_method_image(bc).len()),
        forall|m: MethodInfo| #[trigger] method_decodes(m, d, pos) ==> built_method(m, bc),
{
    let rec = blob_method_image(bc);
    let n: int = bc.len() as int;
    assert(rec.len() == n + 11);
    assert(d[pos] == rec[0] && d[pos + 1] == rec[1] && d[pos + 2] == rec[2] && d[pos + 3] == rec[3]);
    assert(d[pos + 4] == rec[4] && d[pos + 5] == rec[5]);
    lemma_split_join16(n as u16);
    assert(u16_at(d, pos + 4) == n);
    let p2 = pos + 6 + n;
    assert(d[p2] == rec[6 + n]);
    assert(d[p2] == 0);
    assert(d[p2 + 1] == rec[7 + n] && d[p2 + 2] == rec[8 + n]);
    assert(d[p2 + 3] == rec[9 + n] && d[p2 + 4] == rec[10 + n]);
    assert(u16_at(d, p2 + 1) == 0 && u16_at(d, p2 + 3) == 0);
    assert(exceptions_error(d, p2 + 1, 0, 0, n as u16) is None);
    assert forall|m: MethodInfo| #[trigger] method_decodes(m, d, pos) implies built_method(m, bc) by {
        assert forall|i: int| 0 <= i < n implies #[trigger] m.bytecode@[i] == bc[i] by {
            assert(m.bytecode@[i] == d[pos + 6 + i]);
            assert(d[pos + 6 + i] == rec[6 + i]);
        }
    }
}

/// A method as `build_cap_blob` describes it for the bytecode `bc`: static, `max_stack` 8,
/// no arguments, 4 locals, `bc` as its bytecode, no exception handlers and zero offsets.
pub open spec fn built_method(m: MethodInfo, bc: Seq<u8>) -> bool {
    &&& m.flags == METHOD_FLAG_STATIC
    &&& m.max_stack == 8 && m.nargs == 0 && m.max_locals == 4
    &&& m.bytecode_len == bc.len()
    &&& forall|i: int| 0 <= i < bc.len() ==> #[trigger] m.bytecode@[i] == bc[i]
    &&& forall|j: int| 0 <= j < MAX_EXCEPTIONS ==> #[trigger] m.exception_table@[j] is None
    &&& m.descriptor_offset == 0 && m.class_offset == 0
}

proof fn lemma_built_methods_end(aid: Seq<u8>, bcs: Seq<Seq<u8>>, k: nat)
    requires
        k <= clip_count(bcs.len()),
    ensures
        methods_end(blob_image(aid, bcs), 6 + clip_aid(aid).len() as int, k) == Ok::<int, ParseError>(
            6 + clip_aid(aid).len() as int + blob_methods_image(bcs, k).len(),
        ),
    decreases k,
{
    if k > 0 {
        let j = (k - 1) as nat;
        lemma_built_methods_end(aid, bcs, j);
        lemma_image_method_slice(aid, bcs, j);
        lemma_built_record(
            blob_image(aid, bcs),
            6 + clip_aid(aid).len() as int + blob_methods_image(bcs, j).len(),
            clip_bytecode(bcs[j as int]),
        );
    }
}

/// Parsing what `build_cap_blob` wrote gives back what was built: the parse succeeds,
/// with the (truncated) AID, one method per (truncated) bytecode as [`built_method`]
/// describes, no other method and no other table.
pub proof fn lemma_build_then_parse(aid: Seq<u8>, bcs: Seq<Seq<u8>>, r: Result<Package, ParseError>)
    requires
        blob_result(blob_image(aid, bcs), r),
    ensures
        r is Ok,
        r matches Ok(p) ==> {
            &&& p.aid_len == clip_aid(aid).len()
            &&& forall|i: int| 0 <= i < clip_aid(aid).len() ==> #[trigger] p.aid@[i] == clip_aid(aid)[i]
            &&& p.method_count == clip_count(bcs.len())
            &&& forall|i: int|
                0 <= i < clip_count(bcs.len()) ==> (#[trigger] p.methods@[i] matches Some(m)
                    && built_method(m, clip_bytecode(bcs[i])))
            &&& forall|i: int| clip_count(bcs.len()) <= i < MAX_METHODS ==> #[trigger] p.methods@[i] is None
            &&& has_empty_tables(p)
        },
{
    let d = blob_image(aid, bcs);
    let a = clip_aid(aid);
    let n = clip_count(bcs.len());
    let head = seq![0xDEu8, 0xCAu8, 0xFFu8, 0xEDu8, a.len() as u8];
    let all = blob_methods_image(bcs, n);
    assert(d == head + a + seq![n as u8] + all);
    assert(d[0] == 0xDE && d[1] == 0xCA && d[2] == 0xFF && d[3] == 0xED);
    assert(be32(0xDEu8, 0xCAu8, 0xFFu8, 0xEDu8) == CAP_MAGIC);
    assert(d[4] == a.len());
    assert(d[5 + a.len() as int] == n);
    assert forall|i: int| 0 <= i < a.len() implies d[5 + i] == #[trigger] a[i] by {}
    lemma_built_methods_end(aid, bcs, n);
    assert(blob_header(d) == Ok::<(u8, u8), ParseError>((a.len() as u8, n as u8)));
    if let Ok(p) = r {
        assert forall|i: int| 0 <= i < n implies (#[trigger] p.methods@[i] matches Some(m)
            && built_method(m, clip_bytecode(bcs[i]))) by {
            lemma_built_methods_end(aid, bcs, i as nat);
            lemma_image_method_slice(aid, bcs, i as nat);
            lemma_built_record(
                d,
                6 + a.len() as int + blob_methods_image(bcs, i as nat).len(),
                clip_bytecode(bcs[i]),
            );
        }
    }
}

} // verus!
