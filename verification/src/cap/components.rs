//! Standard component-tagged CAP file parser (JCVM 3.2 Chapter 6).
//!
//! A CAP file is a sequence of components, each laid out as
//! `tag: u8 | size: u16 BE | info: [u8; size]`. This parser decodes the
//! Header, Method, Descriptor, Constant Pool, Applet, Import, Export,
//! Reference Location, Static Field and Class components into a
//! [`Package`]; other components are skipped. When a tag occurs more than
//! once, the last occurrence wins.
use vstd::prelude::*;
use vstd::slice::slice_subrange;
use crate::bytes::{be16, be32, read_be16, read_be32};
use super::{
    AppletInfo, CAP_MAGIC, ClassInfo, ClassRef, CpInfo, ExportInfo, ImportInfo, MAX_AID_LEN,
    MAX_APPLETS_PER_PACKAGE, MAX_BYTECODE, MAX_CLASSES_PER_PACKAGE, MAX_CP_ENTRIES, MAX_EXCEPTIONS,
    MAX_EXPORTED_CLASSES_PER_PACKAGE, MAX_EXPORTED_FIELDS_PER_CLASS,
    MAX_EXPORTED_METHODS_PER_CLASS, MAX_IMPORTS_PER_PACKAGE, MAX_METHODS, MAX_REF_LOC_BYTE_INDICES,
    MAX_REF_LOC_BYTE2_INDICES, MethodInfo, Package, ParseError, cp_tag, decode_class_ref_3,
    decode_class_ref_spec,
};

pub mod tag;

verus! {

/// Method header flag: extended header format (JCVM 3.2 § 6.10.1).
pub const METHOD_FLAG_EXTENDED: u8 = 0x08;

/// The big-endian u16 at `i`.
pub open spec fn u16_at(d: Seq<u8>, i: int) -> u16 {
    be16(d[i], d[i + 1])
}

/// Whether a method header byte selects the extended (4-byte) header.
pub open spec fn is_extended(b: u8) -> bool {
    (b / 8) % 2 == 1
}

/// Read a `u32` big-endian, advancing `pos`.
fn read_u32_be(data: &[u8], pos: &mut usize) -> (r: Result<u32, ParseError>)
    requires
        *old(pos) <= data@.len(),
    ensures
        data@.len() < *old(pos) + 4 ==> r == Err::<u32, ParseError>(ParseError::TooShort)
            && *final(pos) == *old(pos),
        data@.len() >= *old(pos) + 4 ==> r == Ok::<u32, ParseError>(
            be32(
                data@[*old(pos) as int],
                data@[*old(pos) + 1],
                data@[*old(pos) + 2],
                data@[*old(pos) + 3],
            ),
        ) && *final(pos) == *old(pos) + 4,
{
    let p = *pos;
    if data.len() - p < 4 {
        return Err(ParseError::TooShort);
    }
    let v = read_be32(data[p], data[p + 1], data[p + 2], data[p + 3]);
    *pos = p + 4;
    Ok(v)
}

/// What the Header component body gives: the package AID length, or the error.
pub open spec fn header_result(b: Seq<u8>) -> Result<u8, ParseError> {
    if b.len() < 4 {
        Err(ParseError::TooShort)
    } else if be32(b[0], b[1], b[2], b[3]) != CAP_MAGIC {
        Err(ParseError::BadMagic)
    } else if b.len() < 10 {
        Err(ParseError::TooShort)
    } else if b[9] > MAX_AID_LEN {
        Err(ParseError::AidTooLong)
    } else if b.len() < 10 + b[9] {
        Err(ParseError::TooShort)
    } else {
        Ok(b[9])
    }
}

/// Parse the Header component body (magic, CAP version, flags, package version,
/// AID) and extract the package AID.
fn parse_header(body: &[u8]) -> (r: Result<([u8; MAX_AID_LEN], u8), ParseError>)
    ensures
        match r {
            Ok((aid, n)) => header_result(body@) == Ok::<u8, ParseError>(n) && (forall|i: int|
                0 <= i < n ==> #[trigger] aid@[i] == body@[10 + i]) && (forall|i: int|
                n <= i < MAX_AID_LEN ==> #[trigger] aid@[i] == 0),
            Err(e) => header_result(body@) == Err::<u8, ParseError>(e),
        },
{
    let mut pos: usize = 0;
    let magic = read_u32_be(body, &mut pos)?;
    if magic != CAP_MAGIC {
        return Err(ParseError::BadMagic);
    }
    if body.len() < 10 {
        return Err(ParseError::TooShort);
    }
    let aid_len = body[9];
    if aid_len as usize > MAX_AID_LEN {
        return Err(ParseError::AidTooLong);
    }
    if body.len() < 10 + aid_len as usize {
        return Err(ParseError::TooShort);
    }
    let mut aid = [0u8; MAX_AID_LEN];
    let mut i: usize = 0;
    while i < aid_len as usize
        invariant
            aid_len <= MAX_AID_LEN,
            10 + aid_len <= body@.len(),
            i <= aid_len,
            forall|k: int| 0 <= k < i ==> #[trigger] aid@[k] == body@[10 + k],
            forall|k: int| aid_len <= k < MAX_AID_LEN ==> #[trigger] aid@[k] == 0,
        decreases aid_len - i,
    {
        aid[i] = body[10 + i];
        i = i + 1;
    }
    Ok((aid, aid_len))
}

/// What a single `method_info` spanning all of `s` gives: the header length, or the
/// error.
pub open spec fn one_method_result(s: Seq<u8>) -> Result<int, ParseError> {
    if s.len() == 0 {
        Err(ParseError::TooShort)
    } else {
        let h: int = if is_extended(s[0]) {
            4
        } else {
            2
        };
        if s.len() < h {
            Err(ParseError::TooShort)
        } else if s.len() - h > MAX_BYTECODE {
            Err(ParseError::BytecodeTooLong)
        } else {
            Ok(h)
        }
    }
}

/// `m` is the method a `method_info` spanning all of `s` decodes to.
pub open spec fn one_method_decodes(m: MethodInfo, s: Seq<u8>) -> bool {
    let h = one_method_result(s)->Ok_0;
    &&& if is_extended(s[0]) {
        m.flags == s[0] && m.max_stack == s[1] && m.nargs == s[2] && m.max_locals == s[3]
    } else {
        m.flags == s[0] / 16 && m.max_stack == s[0] % 16 && m.nargs == s[1] / 16 && m.max_locals
            == s[1] % 16
    }
    &&& m.bytecode_len == s.len() - h
    &&& forall|i: int| 0 <= i < s.len() - h ==> #[trigger] m.bytecode@[i] == s[h + i]
    &&& forall|i: int| s.len() - h <= i < MAX_BYTECODE ==> #[trigger] m.bytecode@[i] == 0
    &&& forall|i: int| 0 <= i < MAX_EXCEPTIONS ==> #[trigger] m.exception_table@[i] is None
    &&& m.descriptor_offset == 0 && m.class_offset == 0
}

/// Parse a single `method_info` whose bytecode spans the rest of `slice`: a compact
/// (nibble-packed, 2-byte) or extended (4-byte) header, then the bytecode.
fn parse_one_method(slice: &[u8]) -> (r: Result<MethodInfo, ParseError>)
    ensures
        match r {
            Ok(m) => one_method_result(slice@) is Ok && one_method_decodes(m, slice@),
            Err(e) => one_method_result(slice@) == Err::<int, ParseError>(e),
        },
{
    if slice.len() == 0 {
        return Err(ParseError::TooShort);
    }
    let header_byte = slice[0];
    let extended = (header_byte / 8) % 2 == 1;
    let header_len: usize = if extended {
        4
    } else {
        2
    };
    if slice.len() < header_len {
        return Err(ParseError::TooShort);
    }
    let (flags, max_stack, nargs, max_locals) = if extended {
        (slice[0], slice[1], slice[2], slice[3])
    } else {
        (header_byte / 16, header_byte % 16, slice[1] / 16, slice[1] % 16)
    };
    let n = slice.len() - header_len;
    if n > MAX_BYTECODE {
        return Err(ParseError::BytecodeTooLong);
    }
    let mut bytecode = [0u8; MAX_BYTECODE];
    let mut i: usize = 0;
    while i < n
        invariant
            n <= MAX_BYTECODE,
            n == slice@.len() - header_len,
            header_len + n <= slice.len(),
            i <= n,
            forall|k: int| 0 <= k < i ==> #[trigger] bytecode@[k] == slice@[header_len + k],
            forall|k: int| n <= k < MAX_BYTECODE ==> #[trigger] bytecode@[k] == 0,
        decreases n - i,
    {
        bytecode[i] = slice[header_len + i];
        i = i + 1;
    }
    Ok(
        MethodInfo {
            flags,
            max_stack,
            nargs,
            max_locals,
            bytecode,
            bytecode_len: n as u16,
            exception_table: [None; MAX_EXCEPTIONS],
            descriptor_offset: 0,
            class_offset: 0,
        },
    )
}

/// The Method component's method region starts after the handler table.
pub open spec fn methods_start(b: Seq<u8>) -> int {
    1 + 8 * b[0]
}

/// Where the `method_info` described by an `(offset, bytecode_count)` pair ends, or
/// the framing error.
pub open spec fn method_slot_end(b: Seq<u8>, off: u16, count: u16) -> Result<int, ParseError> {
    if off >= b.len() {
        Err(ParseError::TooShort)
    } else {
        let end = off + (if is_extended(b[off as int]) {
            4int
        } else {
            2int
        }) + count;
        if end > b.len() {
            Err(ParseError::TooShort)
        } else {
            Ok(end)
        }
    }
}

/// The first problem with the methods the pairs `ps[k..]` describe, if any.
pub open spec fn methods_error(b: Seq<u8>, ps: Seq<(u16, u16)>, k: nat) -> Option<ParseError>
    decreases ps.len() - k,
{
    if k >= ps.len() {
        None
    } else if k >= MAX_METHODS {
        Some(ParseError::TooManyMethods)
    } else {
        match method_slot_end(b, ps[k as int].0, ps[k as int].1) {
            Err(e) => Some(e),
            Ok(end) => match one_method_result(b.subrange(ps[k as int].0 as int, end)) {
                Err(e) => Some(e),
                Ok(_) => methods_error(b, ps, k + 1),
            },
        }
    }
}

/// What the Method component body gives for the method pairs `ps`: nothing to report,
/// or the error.
pub open spec fn parse_methods_error(b: Seq<u8>, ps: Seq<(u16, u16)>) -> Option<ParseError> {
    if b.len() == 0 {
        Some(ParseError::TooShort)
    } else if b.len() < methods_start(b) {
        Some(ParseError::TooShort)
    } else if ps.len() == 0 {
        match one_method_result(b.subrange(methods_start(b), b.len() as int)) {
            Err(e) => Some(e),
            Ok(_) => None,
        }
    } else {
        methods_error(b, ps, 0)
    }
}

/// `methods`, `offsets` and `count` are what the Method component body `b` decodes to
/// under the method pairs `ps` (no pairs: one method spanning the region after the
/// handler table).
pub open spec fn methods_decode(
    b: Seq<u8>,
    ps: Seq<(u16, u16)>,
    methods: Seq<Option<MethodInfo>>,
    offsets: Seq<u16>,
    count: u8,
) -> bool {
    &&& methods.len() == MAX_METHODS && offsets.len() == MAX_METHODS
    &&& if ps.len() == 0 {
        &&& count == 1
        &&& methods[0] is Some && one_method_decodes(
            methods[0]->0,
            b.subrange(methods_start(b), b.len() as int),
        )
        &&& forall|i: int| 1 <= i < MAX_METHODS ==> #[trigger] methods[i] is None
        &&& forall|i: int| 0 <= i < MAX_METHODS ==> #[trigger] offsets[i] == 0
    } else {
        &&& count == ps.len()
        &&& forall|i: int|
            0 <= i < ps.len() ==> #[trigger] methods[i] is Some && offsets[i] == ps[i].0
                && one_method_decodes(
                methods[i]->0,
                b.subrange(
                    ps[i].0 as int,
                    method_slot_end(b, ps[i].0, ps[i].1)->Ok_0,
                ),
            )
        &&& forall|i: int| ps.len() <= i < MAX_METHODS ==> #[trigger] methods[i] is None
        &&& forall|i: int| ps.len() <= i < MAX_METHODS ==> #[trigger] offsets[i] == 0
    }
}

proof fn lemma_methods_error_skip(b: Seq<u8>, ps: Seq<(u16, u16)>, k: nat)
    requires
        k < ps.len(),
        k < MAX_METHODS,
        method_slot_end(b, ps[k as int].0, ps[k as int].1) is Ok,
        one_method_result(
            b.subrange(ps[k as int].0 as int, method_slot_end(b, ps[k as int].0, ps[k as int].1)->Ok_0),
        ) is Ok,
    ensures
        methods_error(b, ps, k) == methods_error(b, ps, k + 1),
{
}

/// Parse the Method component body: skip the handler table, then decode one method
/// per `(offset, bytecode_count)` pair, or a single method spanning the rest when no
/// pairs are given.
fn parse_methods(body: &[u8], method_offsets: &[(u16, u16)]) -> (r: Result<
    ([Option<MethodInfo>; MAX_METHODS], [u16; MAX_METHODS], u8),
    ParseError,
>)
    ensures
        match r {
            Ok((ms, offs, n)) => parse_methods_error(body@, method_offsets@) is None
                && methods_decode(body@, method_offsets@, ms@, offs@, n) && forall|i: int|
                0 <= i < MAX_METHODS ==> (#[trigger] ms@[i] matches Some(m) ==> m.bytecode_len
                    <= MAX_BYTECODE),
            Err(e) => parse_methods_error(body@, method_offsets@) == Some(e),
        },
{
    if body.len() == 0 {
        return Err(ParseError::TooShort);
    }
    let handler_count = body[0] as usize;
    let region_start = 1 + handler_count * 8;
    if body.len() < region_start {
        return Err(ParseError::TooShort);
    }
    let mut methods: [Option<MethodInfo>; MAX_METHODS] = [None; MAX_METHODS];
    let mut offsets: [u16; MAX_METHODS] = [0u16; MAX_METHODS];
    if method_offsets.len() == 0 {
        let rest = slice_subrange(body, region_start, body.len());
        let m = parse_one_method(rest)?;
        methods[0] = Some(m);
        return Ok((methods, offsets, 1));
    }
    let mut count: usize = 0;
    while count < method_offsets.len()
        invariant
            count <= method_offsets@.len(),
            count <= MAX_METHODS,
            body@.len() > 0,
            body@.len() >= methods_start(body@),
            method_offsets@.len() > 0,
            methods_error(body@, method_offsets@, 0) == methods_error(
                body@,
                method_offsets@,
                count as nat,
            ),
            forall|i: int|
                0 <= i < count ==> #[trigger] methods@[i] is Some && offsets@[i]
                    == method_offsets@[i].0 && one_method_decodes(
                    methods@[i]->0,
                    body@.subrange(
                        method_offsets@[i].0 as int,
                        method_slot_end(body@, method_offsets@[i].0, method_offsets@[i].1)->Ok_0,
                    ),
                ),
            forall|i: int| count <= i < MAX_METHODS ==> #[trigger] methods@[i] is None,
            forall|i: int| count <= i < MAX_METHODS ==> #[trigger] offsets@[i] == 0,
            forall|i: int|
                0 <= i < MAX_METHODS ==> (#[trigger] methods@[i] matches Some(m) ==> m.bytecode_len
                    <= MAX_BYTECODE),
        decreases method_offsets@.len() - count,
    {
        if count >= MAX_METHODS {
            return Err(ParseError::TooManyMethods);
        }
        let (offset, bytecode_count) = method_offsets[count];
        let start = offset as usize;
        if start >= body.len() {
            return Err(ParseError::TooShort);
        }
        let header_size: usize = if (body[start] / 8) % 2 == 1 {
            4
        } else {
            2
        };
        let end = start + header_size + bytecode_count as usize;
        if end > body.len() {
            return Err(ParseError::TooShort);
        }
        let m = parse_one_method(slice_subrange(body, start, end))?;
        proof {
            lemma_methods_error_skip(body@, method_offsets@, count as nat);
        }
        methods[count] = Some(m);
        offsets[count] = offset;
        count = count + 1;
    }
    proof {
        assert(methods_error(body@, method_offsets@, count as nat) is None);
    }
    Ok((methods, offsets, count as u8))
}


/// What the `StaticField` component body gives: `(image_size, reference_count)`, or
/// the error. Array initialisers and non-default values are refused.
pub open spec fn static_field_result(b: Seq<u8>) -> Result<(u16, u16), ParseError> {
    if b.len() < 8 {
        Err(ParseError::TooShort)
    } else if u16_at(b, 4) != 0 {
        Err(ParseError::StaticFieldArrayInitsUnsupported)
    } else if u16_at(b, 6) != 0 {
        Err(ParseError::StaticFieldNonDefaultValuesUnsupported)
    } else {
        Ok((u16_at(b, 0), u16_at(b, 2)))
    }
}

/// Parse the `StaticField` component body: image size and reference count; array
/// initialisers and non-default values are not supported.
fn parse_static_field_component(body: &[u8]) -> (r: Result<(u16, u16), ParseError>)
    ensures
        r == static_field_result(body@),
{
    if body.len() < 8 {
        return Err(ParseError::TooShort);
    }
    let image_size = read_be16(body[0], body[1]);
    let reference_count = read_be16(body[2], body[3]);
    let array_init_count = read_be16(body[4], body[5]);
    if array_init_count != 0 {
        return Err(ParseError::StaticFieldArrayInitsUnsupported);
    }
    let default_value_count = read_be16(body[6], body[7]);
    if default_value_count != 0 {
        return Err(ParseError::StaticFieldNonDefaultValuesUnsupported);
    }
    Ok((image_size, reference_count))
}

/// What the Reference Location component body gives: the two index counts, or the
/// error.
pub open spec fn ref_loc_result(b: Seq<u8>) -> Result<(u16, u16), ParseError> {
    if b.len() < 2 {
        Err(ParseError::TooShort)
    } else if u16_at(b, 0) > MAX_REF_LOC_BYTE_INDICES {
        Err(ParseError::TooManyRefLocByteIndices)
    } else if b.len() < 2 + u16_at(b, 0) + 2 {
        Err(ParseError::TooShort)
    } else if u16_at(b, 2 + u16_at(b, 0)) > MAX_REF_LOC_BYTE2_INDICES {
        Err(ParseError::TooManyRefLocByte2Indices)
    } else if b.len() < 4 + u16_at(b, 0) + u16_at(b, 2 + u16_at(b, 0)) {
        Err(ParseError::TooShort)
    } else {
        Ok((u16_at(b, 0), u16_at(b, 2 + u16_at(b, 0))))
    }
}

/// `dst` holds `src[from..from + n]` followed by zeros.
pub open spec fn copied_then_zero(dst: Seq<u8>, src: Seq<u8>, from: int, n: int) -> bool {
    &&& forall|i: int| 0 <= i < n ==> #[trigger] dst[i] == src[from + i]
    &&& forall|i: int| n <= i < dst.len() ==> #[trigger] dst[i] == 0
}

/// Copy `n` bytes of `body` from `from` into the front of a zeroed array.
fn copy_prefix<const N: usize>(body: &[u8], from: usize, n: usize) -> (r: [u8; N])
    requires
        n <= N,
        from + n <= body@.len(),
    ensures
        copied_then_zero(r@, body@, from as int, n as int),
{
    let mut out = [0u8; N];
    let mut i: usize = 0;
    while i < n
        invariant
            n <= N,
            from + n <= body.len(),
            i <= n,
            out@.len() == N,
            forall|k: int| 0 <= k < i ==> #[trigger] out@[k] == body@[from + k],
            forall|k: int| i <= k < N ==> #[trigger] out@[k] == 0,
        decreases n - i,
    {
        out[i] = body[from + i];
        i = i + 1;
    }
    out
}

/// Parse the Reference Location component body: the 1-byte and 2-byte index delta
/// lists, each behind a big-endian count.
fn parse_ref_location_component(body: &[u8]) -> (r: Result<
    ([u8; MAX_REF_LOC_BYTE_INDICES], u16, [u8; MAX_REF_LOC_BYTE2_INDICES], u16),
    ParseError,
>)
    ensures
        match r {
            Ok((d1, n1, d2, n2)) => ref_loc_result(body@) == Ok::<(u16, u16), ParseError>((n1, n2))
                && copied_then_zero(d1@, body@, 2, n1 as int) && copied_then_zero(
                d2@,
                body@,
                4 + n1,
                n2 as int,
            ),
            Err(e) => ref_loc_result(body@) == Err::<(u16, u16), ParseError>(e),
        },
{
    if body.len() < 2 {
        return Err(ParseError::TooShort);
    }
    let byte_count = read_be16(body[0], body[1]);
    if byte_count as usize > MAX_REF_LOC_BYTE_INDICES {
        return Err(ParseError::TooManyRefLocByteIndices);
    }
    let n1 = byte_count as usize;
    if body.len() < 2 + n1 + 2 {
        return Err(ParseError::TooShort);
    }
    let byte_deltas: [u8; MAX_REF_LOC_BYTE_INDICES] = copy_prefix(body, 2, n1);
    let pos = 2 + n1;
    let byte2_count = read_be16(body[pos], body[pos + 1]);
    if byte2_count as usize > MAX_REF_LOC_BYTE2_INDICES {
        return Err(ParseError::TooManyRefLocByte2Indices);
    }
    let n2 = byte2_count as usize;
    if body.len() < pos + 2 + n2 {
        return Err(ParseError::TooShort);
    }
    let byte2_deltas: [u8; MAX_REF_LOC_BYTE2_INDICES] = copy_prefix(body, pos + 2, n2);
    Ok((byte_deltas, byte_count, byte2_deltas, byte2_count))
}

/// Whether `t` is one of the six Constant Pool tags this runtime decodes.
pub open spec fn cp_tag_known(t: u8) -> bool {
    1 <= t <= 6
}

/// The entry count of a Constant Pool component body, or the error.
pub open spec fn cp_result(b: Seq<u8>) -> Result<u16, ParseError> {
    if b.len() < 2 {
        Err(ParseError::TooShort)
    } else if u16_at(b, 0) > MAX_CP_ENTRIES {
        Err(ParseError::TooManyConstantPoolEntries)
    } else if b.len() < 2 + 4 * u16_at(b, 0) {
        Err(ParseError::TooShort)
    } else if exists|i: int| 0 <= i < u16_at(b, 0) && !cp_tag_known(#[trigger] b[2 + 4 * i]) {
        Err(ParseError::UnknownConstantPoolTag)
    } else {
        Ok(u16_at(b, 0))
    }
}

/// `cp` holds the first `n` entries of a Constant Pool body `b`, then unused slots.
pub open spec fn cp_decodes(cp: Seq<CpInfo>, b: Seq<u8>, n: int) -> bool {
    &&& forall|i: int|
        0 <= i < n ==> (#[trigger] cp[i]).tag == b[2 + 4 * i] && cp[i].info@ == seq![
            b[3 + 4 * i],
            b[4 + 4 * i],
            b[5 + 4 * i],
        ]
    &&& forall|i: int| n <= i < cp.len() ==> (#[trigger] cp[i]).tag == 0 && cp[i].info@ == seq![
        0u8,
        0u8,
        0u8,
    ]
}

/// Parse the Constant Pool component body: a big-endian count, then 4-byte entries
/// (tag + 3 payload bytes); an unknown tag is refused.
fn parse_constant_pool(body: &[u8]) -> (r: Result<([CpInfo; MAX_CP_ENTRIES], u16), ParseError>)
    ensures
        match r {
            Ok((cp, n)) => cp_result(body@) == Ok::<u16, ParseError>(n) && cp_decodes(
                cp@,
                body@,
                n as int,
            ),
            Err(e) => cp_result(body@) == Err::<u16, ParseError>(e),
        },
{
    if body.len() < 2 {
        return Err(ParseError::TooShort);
    }
    let count = read_be16(body[0], body[1]);
    if count as usize > MAX_CP_ENTRIES {
        return Err(ParseError::TooManyConstantPoolEntries);
    }
    let n = count as usize;
    if body.len() < 2 + n * 4 {
        return Err(ParseError::TooShort);
    }
    let unused = CpInfo::unused();
    let mut entries = [unused; MAX_CP_ENTRIES];
    let mut i: usize = 0;
    while i < n
        invariant
            n == u16_at(body@, 0),
            n <= MAX_CP_ENTRIES,
            2 + n * 4 <= body@.len(),
            i <= n,
            unused.tag == 0,
            unused.info@ == seq![0u8, 0u8, 0u8],
            forall|k: int| 0 <= k < i ==> cp_tag_known(#[trigger] body@[2 + 4 * k]),
            forall|k: int|
                0 <= k < i ==> (#[trigger] entries@[k]).tag == body@[2 + 4 * k] && entries@[k].info@
                    == seq![body@[3 + 4 * k], body@[4 + 4 * k], body@[5 + 4 * k]],
            forall|k: int| i <= k < MAX_CP_ENTRIES ==> #[trigger] entries@[k] == unused,
        decreases n - i,
    {
        let off = 2 + i * 4;
        let tag = body[off];
        if !(1 <= tag && tag <= 6) {
            assert(!cp_tag_known(body@[2 + 4 * (i as int)]));
            return Err(ParseError::UnknownConstantPoolTag);
        }
        entries[i] = CpInfo { tag, info: [body[off + 1], body[off + 2], body[off + 3]] };
        assert(entries@[i as int].info@ =~= seq![
            body@[3 + 4 * i],
            body@[4 + 4 * i],
            body@[5 + 4 * i],
        ]);
        i = i + 1;
    }
    Ok((entries, count))
}


/// A record start followed by the starts of the records after it, or the error.
pub open spec fn cons(p: int, r: Result<Seq<int>, ParseError>) -> Result<Seq<int>, ParseError> {
    match r {
        Ok(s) => Ok(seq![p] + s),
        Err(e) => Err(e),
    }
}

/// The starts `pre`, then those `r` gives, or its error.
pub open spec fn prepend(pre: Seq<int>, r: Result<Seq<int>, ParseError>) -> Result<
    Seq<int>,
    ParseError,
> {
    match r {
        Ok(s) => Ok(pre + s),
        Err(e) => Err(e),
    }
}

proof fn lemma_prepend_cons(pre: Seq<int>, p: int, r: Result<Seq<int>, ParseError>)
    ensures
        prepend(pre, cons(p, r)) == prepend(pre.push(p), r),
{
    if let Ok(s) = r {
        assert(pre + (seq![p] + s) =~= pre.push(p) + s);
    }
}

proof fn lemma_prepend_empty(pre: Seq<int>)
    ensures
        prepend(pre, Ok(Seq::<int>::empty())) == Ok::<Seq<int>, ParseError>(pre),
{
    assert(pre + Seq::<int>::empty() =~= pre);
}

// ---------------------------------------------------------------- Applet component

/// Where the applet record at `p` ends (AID length byte, AID, install method offset).
pub open spec fn applet_end(b: Seq<u8>, p: int) -> int {
    p + 1 + b[p] + 2
}

/// The problem with the applet record at `p`, if any.
pub open spec fn applet_rec_error(b: Seq<u8>, p: int) -> Option<ParseError> {
    if p + 1 > b.len() {
        Some(ParseError::TooShort)
    } else if b[p] > MAX_AID_LEN {
        Some(ParseError::AidTooLong)
    } else if applet_end(b, p) > b.len() {
        Some(ParseError::TooShort)
    } else {
        None
    }
}

/// The starts of `k` applet records from `p`, or the first error.
pub open spec fn applet_walk(b: Seq<u8>, p: int, k: nat) -> Result<Seq<int>, ParseError>
    decreases k,
{
    if k == 0 {
        Ok(Seq::empty())
    } else {
        match applet_rec_error(b, p) {
            Some(e) => Err(e),
            None => cons(p, applet_walk(b, applet_end(b, p), (k - 1) as nat)),
        }
    }
}

/// What the Applet component body gives: the record starts, or the error.
pub open spec fn applet_result(b: Seq<u8>) -> Result<Seq<int>, ParseError> {
    if b.len() == 0 {
        Err(ParseError::TooShort)
    } else if b[0] > MAX_APPLETS_PER_PACKAGE {
        Err(ParseError::TooManyApplets)
    } else {
        applet_walk(b, 1, b[0] as nat)
    }
}

/// `a` is the applet record at `p`.
pub open spec fn applet_decodes(a: AppletInfo, b: Seq<u8>, p: int) -> bool {
    &&& a.aid_len == b[p]
    &&& copied_then_zero(a.aid@, b, p + 1, b[p] as int)
    &&& a.install_method_offset == u16_at(b, p + 1 + b[p])
}

/// `arr` and `n` are what the Applet component body `b` decodes to.
pub open spec fn applets_decode(b: Seq<u8>, arr: Seq<Option<AppletInfo>>, n: u8) -> bool {
    &&& applet_result(b) is Ok
    &&& n == b[0] && applet_result(b)->Ok_0.len() == n
    &&& forall|i: int|
        0 <= i < n ==> (#[trigger] arr[i]) is Some && applet_decodes(
            arr[i]->0,
            b,
            applet_result(b)->Ok_0[i],
        )
    &&& forall|i: int| n <= i < arr.len() ==> #[trigger] arr[i] is None
}

/// Parse the Applet component body: a count, then per applet an AID (length-prefixed)
/// and the install method offset.
fn parse_applet_component(body: &[u8]) -> (r: Result<
    ([Option<AppletInfo>; MAX_APPLETS_PER_PACKAGE], u8),
    ParseError,
>)
    ensures
        match r {
            Ok((a, n)) => applets_decode(body@, a@, n),
            Err(e) => applet_result(body@) == Err::<Seq<int>, ParseError>(e),
        },
{
    if body.len() == 0 {
        return Err(ParseError::TooShort);
    }
    let count = body[0];
    if count as usize > MAX_APPLETS_PER_PACKAGE {
        return Err(ParseError::TooManyApplets);
    }
    let mut pos: usize = 1;
    let mut applets: [Option<AppletInfo>; MAX_APPLETS_PER_PACKAGE] = [None;
    MAX_APPLETS_PER_PACKAGE];
    let mut i: u8 = 0;
    let ghost mut starts: Seq<int> = Seq::empty();
    while i < count
        invariant
            count == body@[0],
            count <= MAX_APPLETS_PER_PACKAGE,
            i <= count,
            pos <= body.len(),
            starts.len() == i,
            applet_result(body@) == prepend(starts, applet_walk(body@, pos as int, (count - i) as nat)),
            forall|k: int|
                0 <= k < i ==> (#[trigger] applets@[k]) is Some && applet_decodes(
                    applets@[k]->0,
                    body@,
                    starts[k],
                ),
            forall|k: int| i <= k < MAX_APPLETS_PER_PACKAGE ==> #[trigger] applets@[k] is None,
        decreases count - i,
    {
        if body.len() - pos < 1 {
            return Err(ParseError::TooShort);
        }
        let aid_len = body[pos];
        if aid_len as usize > MAX_AID_LEN {
            return Err(ParseError::AidTooLong);
        }
        let n = aid_len as usize;
        if body.len() - pos - 1 < n + 2 {
            return Err(ParseError::TooShort);
        }
        let aid: [u8; MAX_AID_LEN] = copy_prefix(body, pos + 1, n);
        let q = pos + 1 + n;
        let install_method_offset = read_be16(body[q], body[q + 1]);
        applets[i as usize] = Some(AppletInfo { aid, aid_len, install_method_offset });
        proof {
            lemma_prepend_cons(starts, pos as int, applet_walk(body@, q + 2, (count - i - 1) as nat));
            starts = starts.push(pos as int);
        }
        pos = q + 2;
        i = i + 1;
    }
    proof {
        lemma_prepend_empty(starts);
    }
    Ok((applets, count))
}

// ---------------------------------------------------------------- Import component

/// Where the import record at `p` ends (versions, AID length byte, AID).
pub open spec fn import_end(b: Seq<u8>, p: int) -> int {
    p + 3 + b[p + 2]
}

/// The problem with the import record at `p`, if any.
pub open spec fn import_rec_error(b: Seq<u8>, p: int) -> Option<ParseError> {
    if p + 3 > b.len() {
        Some(ParseError::TooShort)
    } else if b[p + 2] > MAX_AID_LEN {
        Some(ParseError::AidTooLong)
    } else if import_end(b, p) > b.len() {
        Some(ParseError::TooShort)
    } else {
        None
    }
}

/// The starts of `k` import records from `p`, or the first error.
pub open spec fn import_walk(b: Seq<u8>, p: int, k: nat) -> Result<Seq<int>, ParseError>
    decreases k,
{
    if k == 0 {
        Ok(Seq::empty())
    } else {
        match import_rec_error(b, p) {
            Some(e) => Err(e),
            None => cons(p, import_walk(b, import_end(b, p), (k - 1) as nat)),
        }
    }
}

/// What the Import component body gives: the record starts, or the error.
pub open spec fn import_result(b: Seq<u8>) -> Result<Seq<int>, ParseError> {
    if b.len() == 0 {
        Err(ParseError::TooShort)
    } else if b[0] > MAX_IMPORTS_PER_PACKAGE {
        Err(ParseError::TooManyImports)
    } else {
        import_walk(b, 1, b[0] as nat)
    }
}

/// `m` is the import record at `p`.
pub open spec fn import_decodes(m: ImportInfo, b: Seq<u8>, p: int) -> bool {
    &&& m.minor_version == b[p] && m.major_version == b[p + 1]
    &&& m.aid_len == b[p + 2]
    &&& copied_then_zero(m.aid@, b, p + 3, b[p + 2] as int)
}

/// `arr` and `n` are what the Import component body `b` decodes to.
pub open spec fn imports_decode(b: Seq<u8>, arr: Seq<Option<ImportInfo>>, n: u8) -> bool {
    &&& import_result(b) is Ok
    &&& n == b[0] && import_result(b)->Ok_0.len() == n
    &&& forall|i: int|
        0 <= i < n ==> (#[trigger] arr[i]) is Some && import_decodes(
            arr[i]->0,
            b,
            import_result(b)->Ok_0[i],
        )
    &&& forall|i: int| n <= i < arr.len() ==> #[trigger] arr[i] is None
}

/// Parse the Import component body: a count, then per package its minor and major
/// version and its AID (length-prefixed).
fn parse_import_component(body: &[u8]) -> (r: Result<
    ([Option<ImportInfo>; MAX_IMPORTS_PER_PACKAGE], u8),
    ParseError,
>)
    ensures
        match r {
            Ok((a, n)) => imports_decode(body@, a@, n),
            Err(e) => import_result(body@) == Err::<Seq<int>, ParseError>(e),
        },
{
    if body.len() == 0 {
        return Err(ParseError::TooShort);
    }
    let count = body[0];
    if count as usize > MAX_IMPORTS_PER_PACKAGE {
        return Err(ParseError::TooManyImports);
    }
    let mut pos: usize = 1;
    let mut imports: [Option<ImportInfo>; MAX_IMPORTS_PER_PACKAGE] = [None;
    MAX_IMPORTS_PER_PACKAGE];
    let mut i: u8 = 0;
    let ghost mut starts: Seq<int> = Seq::empty();
    while i < count
        invariant
            count == body@[0],
            count <= MAX_IMPORTS_PER_PACKAGE,
            i <= count,
            pos <= body.len(),
            starts.len() == i,
            import_result(body@) == prepend(starts, import_walk(body@, pos as int, (count - i) as nat)),
            forall|k: int|
                0 <= k < i ==> (#[trigger] imports@[k]) is Some && import_decodes(
                    imports@[k]->0,
                    body@,
                    starts[k],
                ),
            forall|k: int| i <= k < MAX_IMPORTS_PER_PACKAGE ==> #[trigger] imports@[k] is None,
        decreases count - i,
    {
        if body.len() - pos < 3 {
            return Err(ParseError::TooShort);
        }
        let minor_version = body[pos];
        let major_version = body[pos + 1];
        let aid_len = body[pos + 2];
        if aid_len as usize > MAX_AID_LEN {
            return Err(ParseError::AidTooLong);
        }
        let n = aid_len as usize;
        if body.len() - pos - 3 < n {
            return Err(ParseError::TooShort);
        }
        let aid: [u8; MAX_AID_LEN] = copy_prefix(body, pos + 3, n);
        imports[i as usize] = Some(ImportInfo { minor_version, major_version, aid, aid_len });
        proof {
            lemma_prepend_cons(starts, pos as int, import_walk(body@, pos + 3 + n, (count - i - 1) as nat));
            starts = starts.push(pos as int);
        }
        pos = pos + 3 + n;
        i = i + 1;
    }
    proof {
        lemma_prepend_empty(starts);
    }
    Ok((imports, count))
}


// ---------------------------------------------------------------- Export component

/// Where the export record at `p` ends (class offset, two counts, the offsets).
pub open spec fn export_end(b: Seq<u8>, p: int) -> int {
    p + 4 + 2 * (b[p + 2] + b[p + 3])
}

/// The problem with the export record at `p`, if any.
pub open spec fn export_rec_error(b: Seq<u8>, p: int) -> Option<ParseError> {
    if p + 4 > b.len() {
        Some(ParseError::TooShort)
    } else if b[p + 2] > MAX_EXPORTED_FIELDS_PER_CLASS {
        Some(ParseError::TooManyExportedFields)
    } else if b[p + 3] > MAX_EXPORTED_METHODS_PER_CLASS {
        Some(ParseError::TooManyExportedMethods)
    } else if export_end(b, p) > b.len() {
        Some(ParseError::TooShort)
    } else {
        None
    }
}

/// The starts of `k` export records from `p`, or the first error.
pub open spec fn export_walk(b: Seq<u8>, p: int, k: nat) -> Result<Seq<int>, ParseError>
    decreases k,
{
    if k == 0 {
        Ok(Seq::empty())
    } else {
        match export_rec_error(b, p) {
            Some(e) => Err(e),
            None => cons(p, export_walk(b, export_end(b, p), (k - 1) as nat)),
        }
    }
}

/// What the Export component body gives: the record starts, or the error.
pub open spec fn export_result(b: Seq<u8>) -> Result<Seq<int>, ParseError> {
    if b.len() == 0 {
        Err(ParseError::TooShort)
    } else if b[0] > MAX_EXPORTED_CLASSES_PER_PACKAGE {
        Err(ParseError::TooManyExportedClasses)
    } else {
        export_walk(b, 1, b[0] as nat)
    }
}

/// `dst` holds the `n` big-endian u16 values of `src` from `from`, then zeros.
pub open spec fn u16s_then_zero(dst: Seq<u16>, src: Seq<u8>, from: int, n: int) -> bool {
    &&& forall|j: int| 0 <= j < n ==> #[trigger] dst[j] == u16_at(src, from + 2 * j)
    &&& forall|j: int| n <= j < dst.len() ==> #[trigger] dst[j] == 0
}

/// `x` is the export record at `p`.
pub open spec fn export_decodes(x: ExportInfo, b: Seq<u8>, p: int) -> bool {
    &&& x.class_offset == u16_at(b, p)
    &&& x.static_field_count == b[p + 2] && x.static_method_count == b[p + 3]
    &&& u16s_then_zero(x.static_field_offsets@, b, p + 4, b[p + 2] as int)
    &&& u16s_then_zero(x.static_method_offsets@, b, p + 4 + 2 * b[p + 2], b[p + 3] as int)
}

/// `arr` and `n` are what the Export component body `b` decodes to.
pub open spec fn exports_decode(b: Seq<u8>, arr: Seq<Option<ExportInfo>>, n: u8) -> bool {
    &&& export_result(b) is Ok
    &&& n == b[0] && export_result(b)->Ok_0.len() == n
    &&& forall|i: int|
        0 <= i < n ==> (#[trigger] arr[i]) is Some && export_decodes(
            arr[i]->0,
            b,
            export_result(b)->Ok_0[i],
        )
    &&& forall|i: int| n <= i < arr.len() ==> #[trigger] arr[i] is None
}

/// Read `n` big-endian u16 values of `body` from `from` into a zeroed array.
fn read_u16s(body: &[u8], from: usize, n: usize) -> (r: [u16; 16])
    requires
        n <= 16,
        from + 2 * n <= body@.len(),
    ensures
        u16s_then_zero(r@, body@, from as int, n as int),
{
    let mut out = [0u16; 16];
    let mut j: usize = 0;
    while j < n
        invariant
            n <= 16,
            from + 2 * n <= body.len(),
            j <= n,
            out@.len() == 16,
            forall|k: int| 0 <= k < j ==> #[trigger] out@[k] == u16_at(body@, from + 2 * k),
            forall|k: int| j <= k < 16 ==> #[trigger] out@[k] == 0,
        decreases n - j,
    {
        out[j] = read_be16(body[from + 2 * j], body[from + 2 * j + 1]);
        j = j + 1;
    }
    out
}

/// Parse the Export component body: a class count, then per class its offset, its
/// static field and static method counts, and their offsets.
fn parse_export_component(body: &[u8]) -> (r: Result<
    ([Option<ExportInfo>; MAX_EXPORTED_CLASSES_PER_PACKAGE], u8),
    ParseError,
>)
    ensures
        match r {
            Ok((a, n)) => exports_decode(body@, a@, n),
            Err(e) => export_result(body@) == Err::<Seq<int>, ParseError>(e),
        },
{
    if body.len() == 0 {
        return Err(ParseError::TooShort);
    }
    let count = body[0];
    if count as usize > MAX_EXPORTED_CLASSES_PER_PACKAGE {
        return Err(ParseError::TooManyExportedClasses);
    }
    let mut pos: usize = 1;
    let mut exports: [Option<ExportInfo>; MAX_EXPORTED_CLASSES_PER_PACKAGE] = [None;
    MAX_EXPORTED_CLASSES_PER_PACKAGE];
    let mut i: u8 = 0;
    let ghost mut starts: Seq<int> = Seq::empty();
    while i < count
        invariant
            count == body@[0],
            count <= MAX_EXPORTED_CLASSES_PER_PACKAGE,
            i <= count,
            pos <= body.len(),
            starts.len() == i,
            export_result(body@) == prepend(starts, export_walk(body@, pos as int, (count - i) as nat)),
            forall|k: int|
                0 <= k < i ==> (#[trigger] exports@[k]) is Some && export_decodes(
                    exports@[k]->0,
                    body@,
                    starts[k],
                ),
            forall|k: int|
                i <= k < MAX_EXPORTED_CLASSES_PER_PACKAGE ==> #[trigger] exports@[k] is None,
        decreases count - i,
    {
        if body.len() - pos < 4 {
            return Err(ParseError::TooShort);
        }
        let class_offset = read_be16(body[pos], body[pos + 1]);
        let static_field_count = body[pos + 2];
        let static_method_count = body[pos + 3];
        if static_field_count as usize > MAX_EXPORTED_FIELDS_PER_CLASS {
            return Err(ParseError::TooManyExportedFields);
        }
        if static_method_count as usize > MAX_EXPORTED_METHODS_PER_CLASS {
            return Err(ParseError::TooManyExportedMethods);
        }
        let nf = static_field_count as usize;
        let nm = static_method_count as usize;
        if body.len() - pos - 4 < 2 * (nf + nm) {
            return Err(ParseError::TooShort);
        }
        let static_field_offsets = read_u16s(body, pos + 4, nf);
        let static_method_offsets = read_u16s(body, pos + 4 + 2 * nf, nm);
        exports[i as usize] = Some(
            ExportInfo {
                class_offset,
                static_field_count,
                static_method_count,
                static_field_offsets,
                static_method_offsets,
            },
        );
        proof {
            lemma_prepend_cons(
                starts,
                pos as int,
                export_walk(body@, pos + 4 + 2 * (nf + nm), (count - i - 1) as nat),
            );
            starts = starts.push(pos as int);
        }
        pos = pos + 4 + 2 * (nf + nm);
        i = i + 1;
    }
    proof {
        lemma_prepend_empty(starts);
    }
    Ok((exports, count))
}


// ---------------------------------------------------------------- Class component

/// Where the `m` implemented-interface entries from `q` end (class ref, count, that
/// many indices each), or the framing error.
pub open spec fn iface_walk(b: Seq<u8>, q: int, m: nat) -> Result<int, ParseError>
    decreases m,
{
    if m == 0 {
        Ok(q)
    } else if b.len() < q + 3 {
        Err(ParseError::TooShort)
    } else if b.len() < q + 3 + b[q + 2] {
        Err(ParseError::TooShort)
    } else {
        iface_walk(b, q + 3 + b[q + 2], (m - 1) as nat)
    }
}

/// Where the `class_info` record at `p` ends, or the error: the fixed 10-byte header,
/// the public and package virtual method tables, the implemented interfaces.
pub open spec fn class_rec(b: Seq<u8>, p: int) -> Result<int, ParseError> {
    if b.len() < p + 10 {
        Err(ParseError::TooShort)
    } else if b[p] >= 128 {
        Err(ParseError::ClassInterfaceNotSupported)
    } else if b.len() < p + 10 + 2 * b[p + 7] {
        Err(ParseError::TooShort)
    } else if b.len() < p + 10 + 2 * b[p + 7] + 2 * b[p + 9] {
        Err(ParseError::TooShort)
    } else {
        iface_walk(b, p + 10 + 2 * b[p + 7] + 2 * b[p + 9], (b[p] % 16) as nat)
    }
}

/// The starts of the class records from `p` to the end of `b` (`k` read before), or
/// the first error.
pub open spec fn class_walk(b: Seq<u8>, p: int, k: nat) -> Result<Seq<int>, ParseError>
    decreases b.len() - p,
{
    if p < 0 || p >= b.len() {
        Ok(Seq::empty())
    } else if k >= MAX_CLASSES_PER_PACKAGE {
        Err(ParseError::TooManyClasses)
    } else {
        match class_rec(b, p) {
            Err(e) => Err(e),
            Ok(next) => if next <= p || next > b.len() {
                Ok(Seq::empty())
            } else {
                cons(p, class_walk(b, next, k + 1))
            },
        }
    }
}

/// `c` is the class record at `p`.
pub open spec fn class_decodes(c: ClassInfo, b: Seq<u8>, p: int) -> bool {
    &&& c.component_offset == p
    &&& c.super_class_ref == decode_class_ref_spec(b[p + 1], b[p + 2])
    &&& c.declared_instance_size == b[p + 3] && c.first_reference_token == b[p + 4]
    &&& c.reference_count == b[p + 5]
    &&& c.public_method_table_base == b[p + 6] && c.public_method_table_count == b[p + 7]
    &&& c.package_method_table_base == b[p + 8] && c.package_method_table_count == b[p + 9]
    &&& c.interface_count == b[p] % 16
}

/// `arr` and `n` are what the Class component body `b` decodes to.
pub open spec fn classes_decode(b: Seq<u8>, arr: Seq<Option<ClassInfo>>, n: u8) -> bool {
    &&& class_walk(b, 0, 0) is Ok
    &&& class_walk(b, 0, 0)->Ok_0.len() == n
    &&& forall|i: int|
        0 <= i < n ==> (#[trigger] arr[i]) is Some && class_decodes(
            arr[i]->0,
            b,
            class_walk(b, 0, 0)->Ok_0[i],
        )
    &&& forall|i: int| n <= i < arr.len() ==> #[trigger] arr[i] is None
}

proof fn lemma_iface_walk_grows(b: Seq<u8>, q: int, m: nat)
    ensures
        iface_walk(b, q, m) is Ok ==> q <= iface_walk(b, q, m)->Ok_0 <= if m == 0 {
            q
        } else {
            b.len() as int
        },
    decreases m,
{
    if m > 0 && b.len() >= q + 3 + b[q + 2] {
        lemma_iface_walk_grows(b, q + 3 + b[q + 2], (m - 1) as nat);
    }
}

/// Skip `m` implemented-interface entries from `q`.
fn skip_interfaces(body: &[u8], q: usize, m: u8) -> (r: Result<usize, ParseError>)
    requires
        q <= body@.len(),
    ensures
        match r {
            Ok(e) => iface_walk(body@, q as int, m as nat) == Ok::<int, ParseError>(e as int),
            Err(e) => iface_walk(body@, q as int, m as nat) == Err::<int, ParseError>(e),
        },
{
    let mut pos = q;
    let mut j: u8 = 0;
    while j < m
        invariant
            j <= m,
            pos <= body.len(),
            iface_walk(body@, q as int, m as nat) == iface_walk(body@, pos as int, (m - j) as nat),
        decreases m - j,
    {
        if body.len() - pos < 3 {
            return Err(ParseError::TooShort);
        }
        let inner = body[pos + 2] as usize;
        if body.len() - pos - 3 < inner {
            return Err(ParseError::TooShort);
        }
        pos = pos + 3 + inner;
        j = j + 1;
    }
    Ok(pos)
}

/// Parse the Class component body: `class_info` records up to the end of the body,
/// each a 10-byte header, two virtual method tables and its implemented interfaces.
/// An `interface_info` record is refused.
fn parse_class_component(body: &[u8]) -> (r: Result<
    ([Option<ClassInfo>; MAX_CLASSES_PER_PACKAGE], u8),
    ParseError,
>)
    requires
        body@.len() <= u16::MAX,
    ensures
        match r {
            Ok((a, n)) => classes_decode(body@, a@, n),
            Err(e) => class_walk(body@, 0, 0) == Err::<Seq<int>, ParseError>(e),
        },
{
    let mut pos: usize = 0;
    let mut classes: [Option<ClassInfo>; MAX_CLASSES_PER_PACKAGE] = [None;
    MAX_CLASSES_PER_PACKAGE];
    let mut count: u8 = 0;
    let ghost mut starts: Seq<int> = Seq::empty();
    while pos < body.len()
        invariant
            body@.len() <= u16::MAX,
            pos <= body.len(),
            count <= MAX_CLASSES_PER_PACKAGE,
            starts.len() == count,
            class_walk(body@, 0, 0) == prepend(starts, class_walk(body@, pos as int, count as nat)),
            forall|k: int|
                0 <= k < count ==> (#[trigger] classes@[k]) is Some && class_decodes(
                    classes@[k]->0,
                    body@,
                    starts[k],
                ),
            forall|k: int| count <= k < MAX_CLASSES_PER_PACKAGE ==> #[trigger] classes@[k] is None,
        decreases body.len() - pos,
    {
        if count as usize >= MAX_CLASSES_PER_PACKAGE {
            return Err(ParseError::TooManyClasses);
        }
        if body.len() - pos < 10 {
            return Err(ParseError::TooShort);
        }
        let bitfield = body[pos];
        if bitfield >= 0x80 {
            return Err(ParseError::ClassInterfaceNotSupported);
        }
        let interface_count = bitfield % 16;
        let super_class_ref = decode_class_ref_3([body[pos + 1], body[pos + 2], 0]);
        let public_method_table_count = body[pos + 7];
        let package_method_table_count = body[pos + 9];
        let pub_bytes = public_method_table_count as usize * 2;
        if body.len() - pos - 10 < pub_bytes {
            return Err(ParseError::TooShort);
        }
        let pkg_bytes = package_method_table_count as usize * 2;
        if body.len() - pos - 10 - pub_bytes < pkg_bytes {
            return Err(ParseError::TooShort);
        }
        let next = skip_interfaces(body, pos + 10 + pub_bytes + pkg_bytes, interface_count)?;
        proof {
            lemma_iface_walk_grows(body@, pos + 10 + pub_bytes + pkg_bytes, interface_count as nat);
        }
        classes[count as usize] = Some(
            ClassInfo {
                component_offset: pos as u16,
                super_class_ref,
                declared_instance_size: body[pos + 3],
                first_reference_token: body[pos + 4],
                reference_count: body[pos + 5],
                public_method_table_base: body[pos + 6],
                public_method_table_count,
                package_method_table_base: body[pos + 8],
                package_method_table_count,
                interface_count,
            },
        );
        proof {
            lemma_prepend_cons(starts, pos as int, class_walk(body@, next as int, (count + 1) as nat));
            starts = starts.push(pos as int);
        }
        pos = next;
        count = count + 1;
    }
    proof {
        lemma_prepend_empty(starts);
    }
    Ok((classes, count))
}

// ---------------------------------------------------------------- Descriptor component

/// The `(method_offset, bytecode_count)` pairs of `m` method descriptors from `p`
/// appended to `acc`, with the position after them, or the error.
pub open spec fn desc_methods(b: Seq<u8>, p: int, m: nat, acc: Seq<(u16, u16)>) -> Result<
    (int, Seq<(u16, u16)>),
    ParseError,
>
    decreases m,
{
    if m == 0 {
        Ok((p, acc))
    } else if acc.len() >= MAX_METHODS {
        Err(ParseError::TooManyMethods)
    } else if b.len() < p + 12 {
        Err(ParseError::TooShort)
    } else {
        desc_methods(b, p + 12, (m - 1) as nat, acc.push((u16_at(b, p + 2), u16_at(b, p + 6))))
    }
}

/// The method pairs of `c` class descriptors from `p` appended to `acc`, or the error.
pub open spec fn desc_classes(b: Seq<u8>, p: int, c: nat, acc: Seq<(u16, u16)>) -> Result<
    Seq<(u16, u16)>,
    ParseError,
>
    decreases c,
{
    if c == 0 {
        Ok(acc)
    } else if b.len() < p + 9 {
        Err(ParseError::TooShort)
    } else if b.len() < p + 9 + 2 * b[p + 4] {
        Err(ParseError::TooShort)
    } else if b.len() < p + 9 + 2 * b[p + 4] + 5 * u16_at(b, p + 5) {
        Err(ParseError::TooShort)
    } else {
        match desc_methods(
            b,
            p + 9 + 2 * b[p + 4] + 5 * u16_at(b, p + 5),
            u16_at(b, p + 7) as nat,
            acc,
        ) {
            Err(e) => Err(e),
            Ok((q, acc2)) => desc_classes(b, q, (c - 1) as nat, acc2),
        }
    }
}

/// What the Descriptor component body gives: the method pairs, or the error.
pub open spec fn desc_result(b: Seq<u8>) -> Result<Seq<(u16, u16)>, ParseError> {
    if b.len() == 0 {
        Err(ParseError::TooShort)
    } else {
        desc_classes(b, 1, b[0] as nat, Seq::empty())
    }
}

/// Collect the `(method_offset, bytecode_count)` pairs of the Descriptor component's
/// method descriptors, class by class: a 9-byte class header, its interfaces (2 bytes
/// each), its field descriptors (5 bytes each) and its method descriptors (12 bytes
/// each).
fn parse_descriptor_method_offsets(body: &[u8]) -> (r: Result<
    ([(u16, u16); MAX_METHODS], u8),
    ParseError,
>)
    ensures
        match r {
            Ok((offs, n)) => n <= MAX_METHODS && desc_result(body@) == Ok::<
                Seq<(u16, u16)>,
                ParseError,
            >(offs@.subrange(0, n as int)) && forall|i: int|
                n <= i < MAX_METHODS ==> #[trigger] offs@[i] == (0u16, 0u16),
            Err(e) => desc_result(body@) == Err::<Seq<(u16, u16)>, ParseError>(e),
        },
{
    if body.len() == 0 {
        return Err(ParseError::TooShort);
    }
    let class_count = body[0];
    let mut pos: usize = 1;
    let mut offsets: [(u16, u16); MAX_METHODS] = [(0u16, 0u16); MAX_METHODS];
    let mut total: usize = 0;
    let mut c: u8 = 0;
    assert(offsets@.subrange(0, 0) =~= Seq::<(u16, u16)>::empty());
    while c < class_count
        invariant
            body@.len() > 0,
            class_count == body@[0],
            c <= class_count,
            pos <= body.len(),
            total <= MAX_METHODS,
            desc_result(body@) == desc_classes(
                body@,
                pos as int,
                (class_count - c) as nat,
                offsets@.subrange(0, total as int),
            ),
            forall|i: int| total <= i < MAX_METHODS ==> #[trigger] offsets@[i] == (0u16, 0u16),
        decreases class_count - c,
    {
        if body.len() - pos < 9 {
            return Err(ParseError::TooShort);
        }
        let interface_count = body[pos + 4] as usize;
        let field_count = read_be16(body[pos + 5], body[pos + 6]) as usize;
        let method_count = read_be16(body[pos + 7], body[pos + 8]);
        if body.len() - pos - 9 < interface_count * 2 {
            return Err(ParseError::TooShort);
        }
        if body.len() - pos - 9 - interface_count * 2 < field_count * 5 {
            return Err(ParseError::TooShort);
        }
        let ghost class_pos = pos as int;
        let ghost acc0 = offsets@.subrange(0, total as int);
        pos = pos + 9 + interface_count * 2 + field_count * 5;
        let ghost q0 = pos as int;
        let mut j: u16 = 0;
        while j < method_count
            invariant
                c < class_count,
                class_pos + 9 <= body@.len(),
                method_count == u16_at(body@, class_pos + 7),
                q0 == class_pos + 9 + 2 * body@[class_pos + 4] + 5 * u16_at(body@, class_pos + 5),
                q0 <= body@.len(),
                desc_result(body@) == desc_classes(
                    body@,
                    class_pos,
                    (class_count - c) as nat,
                    acc0,
                ),
                j <= method_count,
                pos <= body.len(),
                total <= MAX_METHODS,
                desc_methods(body@, q0, method_count as nat, acc0) == desc_methods(
                    body@,
                    pos as int,
                    (method_count - j) as nat,
                    offsets@.subrange(0, total as int),
                ),
                forall|i: int| total <= i < MAX_METHODS ==> #[trigger] offsets@[i] == (0u16, 0u16),
            decreases method_count - j,
        {
            if total >= MAX_METHODS {
                return Err(ParseError::TooManyMethods);
            }
            if body.len() - pos < 12 {
                return Err(ParseError::TooShort);
            }
            let method_offset = read_be16(body[pos + 2], body[pos + 3]);
            let bytecode_count = read_be16(body[pos + 6], body[pos + 7]);
            let ghost before = offsets@.subrange(0, total as int);
            offsets[total] = (method_offset, bytecode_count);
            assert(offsets@.subrange(0, total + 1) =~= before.push((method_offset, bytecode_count)));
            total = total + 1;
            pos = pos + 12;
            j = j + 1;
        }
        c = c + 1;
    }
    Ok((offsets, total as u8))
}


// ---------------------------------------------------------------- The whole file

/// The error a result carries, if any.
pub open spec fn err_of<T>(r: Result<T, ParseError>) -> Option<ParseError> {
    match r {
        Ok(_) => None,
        Err(e) => Some(e),
    }
}

/// Where the component whose tag byte is at `p` ends.
pub open spec fn comp_end(d: Seq<u8>, p: int) -> int {
    p + 3 + u16_at(d, p + 1)
}

/// The body of the component whose tag byte is at `p`.
pub open spec fn comp_body(d: Seq<u8>, p: int) -> Seq<u8> {
    d.subrange(p + 3, comp_end(d, p))
}

/// The problem with a component body of tag `t`, for the components decoded as they
/// are met (Method and Descriptor are decoded after the walk; unknown tags are
/// skipped).
#[verifier::opaque]
pub open spec fn body_error(t: u8, b: Seq<u8>) -> Option<ParseError> {
    if t == tag::HEADER {
        err_of(header_result(b))
    } else if t == tag::CONSTANT_POOL {
        err_of(cp_result(b))
    } else if t == tag::APPLET {
        err_of(applet_result(b))
    } else if t == tag::IMPORT {
        err_of(import_result(b))
    } else if t == tag::EXPORT {
        err_of(export_result(b))
    } else if t == tag::REFERENCE_LOCATION {
        err_of(ref_loc_result(b))
    } else if t == tag::STATIC_FIELD {
        err_of(static_field_result(b))
    } else if t == tag::CLASS {
        err_of(class_walk(b, 0, 0))
    } else {
        None
    }
}

/// The starts of the components from `p` to the end of `d`, or the first framing or
/// component error.
pub open spec fn comp_walk(d: Seq<u8>, p: int) -> Result<Seq<int>, ParseError>
    decreases d.len() - p,
{
    if p < 0 || p >= d.len() {
        Ok(Seq::empty())
    } else if d.len() < p + 3 {
        Err(ParseError::TooShort)
    } else if d.len() < comp_end(d, p) {
        Err(ParseError::TooShort)
    } else {
        match body_error(d[p], comp_body(d, p)) {
            Some(e) => Err(e),
            None => cons(p, comp_walk(d, comp_end(d, p))),
        }
    }
}

/// The start of the last component in `cs` whose tag is `t`.
pub open spec fn last_tag(d: Seq<u8>, cs: Seq<int>, t: u8) -> Option<int>
    decreases cs.len(),
{
    if cs.len() == 0 {
        None
    } else if d[cs.last()] == t {
        Some(cs.last())
    } else {
        last_tag(d, cs.drop_last(), t)
    }
}

proof fn lemma_last_tag_push(d: Seq<u8>, cs: Seq<int>, p: int, t: u8)
    ensures
        last_tag(d, cs.push(p), t) == (if d[p] == t {
            Some(p)
        } else {
            last_tag(d, cs, t)
        }),
{
    assert(cs.push(p).drop_last() =~= cs);
}

/// The method pairs the last Descriptor component gives (none without one).
pub open spec fn file_pairs(d: Seq<u8>, cs: Seq<int>) -> Result<Seq<(u16, u16)>, ParseError> {
    match last_tag(d, cs, tag::DESCRIPTOR) {
        Some(p) => desc_result(comp_body(d, p)),
        None => Ok(Seq::empty()),
    }
}

/// What parsing the component-tagged file `d` reports, if anything goes wrong: a
/// framing or component error, a missing Method component, a Descriptor or Method
/// error.
pub open spec fn parse_error(d: Seq<u8>) -> Option<ParseError> {
    match comp_walk(d, 0) {
        Err(e) => Some(e),
        Ok(cs) => match last_tag(d, cs, tag::METHOD) {
            None => Some(ParseError::TooShort),
            Some(mp) => match file_pairs(d, cs) {
                Err(e) => Some(e),
                Ok(ps) => parse_methods_error(comp_body(d, mp), ps),
            },
        },
    }
}

/// The package AID as the Header component at `last` gives it (empty without one).
#[verifier::opaque]
pub open spec fn header_ok(d: Seq<u8>, last: Option<int>, aid: Seq<u8>, n: u8) -> bool {
    match last {
        Some(p) => header_result(comp_body(d, p)) == Ok::<u8, ParseError>(n) && copied_then_zero(
            aid,
            comp_body(d, p),
            10,
            n as int,
        ),
        None => n == 0 && copied_then_zero(aid, Seq::empty(), 0, 0),
    }
}

/// The constant pool as the Constant Pool component at `last` gives it.
#[verifier::opaque]
pub open spec fn cp_ok(d: Seq<u8>, last: Option<int>, cp: Seq<CpInfo>, n: u16) -> bool {
    match last {
        Some(p) => cp_result(comp_body(d, p)) == Ok::<u16, ParseError>(n) && cp_decodes(
            cp,
            comp_body(d, p),
            n as int,
        ),
        None => n == 0 && cp_decodes(cp, Seq::empty(), 0),
    }
}

/// The applets as the Applet component at `last` gives them.
#[verifier::opaque]
pub open spec fn applets_ok(d: Seq<u8>, last: Option<int>, a: Seq<Option<AppletInfo>>, n: u8) -> bool {
    match last {
        Some(p) => applets_decode(comp_body(d, p), a, n),
        None => n == 0 && forall|i: int| 0 <= i < a.len() ==> #[trigger] a[i] is None,
    }
}

/// The imports as the Import component at `last` gives them.
#[verifier::opaque]
pub open spec fn imports_ok(d: Seq<u8>, last: Option<int>, a: Seq<Option<ImportInfo>>, n: u8) -> bool {
    match last {
        Some(p) => imports_decode(comp_body(d, p), a, n),
        None => n == 0 && forall|i: int| 0 <= i < a.len() ==> #[trigger] a[i] is None,
    }
}

/// The exports as the Export component at `last` gives them.
#[verifier::opaque]
pub open spec fn exports_ok(d: Seq<u8>, last: Option<int>, a: Seq<Option<ExportInfo>>, n: u8) -> bool {
    match last {
        Some(p) => exports_decode(comp_body(d, p), a, n),
        None => n == 0 && forall|i: int| 0 <= i < a.len() ==> #[trigger] a[i] is None,
    }
}

/// The classes as the Class component at `last` gives them.
#[verifier::opaque]
pub open spec fn classes_ok(d: Seq<u8>, last: Option<int>, a: Seq<Option<ClassInfo>>, n: u8) -> bool {
    match last {
        Some(p) => classes_decode(comp_body(d, p), a, n),
        None => n == 0 && forall|i: int| 0 <= i < a.len() ==> #[trigger] a[i] is None,
    }
}

/// The reference-location deltas as the Reference Location component at `last` gives
/// them.
#[verifier::opaque]
pub open spec fn ref_loc_ok(
    d: Seq<u8>,
    last: Option<int>,
    d1: Seq<u8>,
    n1: u16,
    d2: Seq<u8>,
    n2: u16,
) -> bool {
    match last {
        Some(p) => ref_loc_result(comp_body(d, p)) == Ok::<(u16, u16), ParseError>((n1, n2))
            && copied_then_zero(d1, comp_body(d, p), 2, n1 as int) && copied_then_zero(
            d2,
            comp_body(d, p),
            4 + n1,
            n2 as int,
        ),
        None => n1 == 0 && n2 == 0 && copied_then_zero(d1, Seq::empty(), 0, 0) && copied_then_zero(
            d2,
            Seq::empty(),
            0,
            0,
        ),
    }
}

/// The static field sizes as the `StaticField` component at `last` gives them.
#[verifier::opaque]
pub open spec fn static_ok(d: Seq<u8>, last: Option<int>, image: u16, refs: u16) -> bool {
    match last {
        Some(p) => static_field_result(comp_body(d, p)) == Ok::<(u16, u16), ParseError>(
            (image, refs),
        ),
        None => image == 0 && refs == 0,
    }
}

/// `r` is the body range of the component at `last`, if any.
pub open spec fn range_matches(d: Seq<u8>, last: Option<int>, r: Option<(usize, usize)>) -> bool {
    match last {
        None => r is None,
        Some(p) => r matches Some((a, b)) && 0 <= p && a == p + 3 && b == comp_end(d, p) && b
            <= d.len(),
    }
}

/// `pkg` is the package the component-tagged file `d` decodes to (when
/// `parse_error(d)` is `None`): each table comes from the last component of its tag.
pub open spec fn parse_decodes(d: Seq<u8>, pkg: Package) -> bool {
    let cs = comp_walk(d, 0)->Ok_0;
    &&& header_ok(d, last_tag(d, cs, tag::HEADER), pkg.aid@, pkg.aid_len)
    &&& methods_decode(
        comp_body(d, last_tag(d, cs, tag::METHOD)->0),
        file_pairs(d, cs)->Ok_0,
        pkg.methods@,
        pkg.method_offsets@,
        pkg.method_count,
    )
    &&& cp_ok(d, last_tag(d, cs, tag::CONSTANT_POOL), pkg.constant_pool@, pkg.cp_count)
    &&& applets_ok(d, last_tag(d, cs, tag::APPLET), pkg.applets@, pkg.applet_count)
    &&& imports_ok(d, last_tag(d, cs, tag::IMPORT), pkg.imports@, pkg.import_count)
    &&& exports_ok(d, last_tag(d, cs, tag::EXPORT), pkg.exports@, pkg.export_count)
    &&& ref_loc_ok(
        d,
        last_tag(d, cs, tag::REFERENCE_LOCATION),
        pkg.ref_loc_byte_deltas@,
        pkg.ref_loc_byte_count,
        pkg.ref_loc_byte2_deltas@,
        pkg.ref_loc_byte2_count,
    )
    &&& static_ok(
        d,
        last_tag(d, cs, tag::STATIC_FIELD),
        pkg.static_field_image_size,
        pkg.static_reference_count,
    )
    &&& classes_ok(d, last_tag(d, cs, tag::CLASS), pkg.classes@, pkg.class_count)
}

/// What parsing the component-tagged file `d` gives: `r` is `Ok` exactly when
/// [`parse_error`] is `None`, with the package [`parse_decodes`] describes.
pub open spec fn parse_result(d: Seq<u8>, r: Result<Package, ParseError>) -> bool {
    match r {
        Ok(pkg) => parse_error(d) is None && parse_decodes(d, pkg),
        Err(e) => parse_error(d) == Some(e),
    }
}

/// Every table count of a parsed package stays within its table, and every method's
/// bytecode within its buffer.
pub open spec fn within_limits(p: Package) -> bool {
    &&& p.aid_len <= MAX_AID_LEN
    &&& p.method_count <= MAX_METHODS
    &&& p.cp_count <= MAX_CP_ENTRIES
    &&& p.applet_count <= MAX_APPLETS_PER_PACKAGE
    &&& p.import_count <= MAX_IMPORTS_PER_PACKAGE
    &&& p.export_count <= MAX_EXPORTED_CLASSES_PER_PACKAGE
    &&& p.ref_loc_byte_count <= MAX_REF_LOC_BYTE_INDICES
    &&& p.ref_loc_byte2_count <= MAX_REF_LOC_BYTE2_INDICES
    &&& forall|i: int|
        0 <= i < MAX_METHODS ==> (#[trigger] p.methods@[i] matches Some(m) ==> m.bytecode_len
            <= MAX_BYTECODE)
}

proof fn lemma_decoded_limits(d: Seq<u8>, pkg: Package)
    requires
        parse_decodes(d, pkg),
    ensures
        pkg.aid_len <= MAX_AID_LEN,
        pkg.cp_count <= MAX_CP_ENTRIES,
        pkg.applet_count <= MAX_APPLETS_PER_PACKAGE,
        pkg.import_count <= MAX_IMPORTS_PER_PACKAGE,
        pkg.export_count <= MAX_EXPORTED_CLASSES_PER_PACKAGE,
        pkg.ref_loc_byte_count <= MAX_REF_LOC_BYTE_INDICES,
        pkg.ref_loc_byte2_count <= MAX_REF_LOC_BYTE2_INDICES,
{
    reveal(header_ok);
    reveal(cp_ok);
    reveal(applets_ok);
    reveal(imports_ok);
    reveal(exports_ok);
    reveal(ref_loc_ok);
}

/// The tables decoded so far while walking the components.
struct Partial {
    aid: [u8; MAX_AID_LEN],
    aid_len: u8,
    method_range: Option<(usize, usize)>,
    descriptor_range: Option<(usize, usize)>,
    constant_pool: [CpInfo; MAX_CP_ENTRIES],
    cp_count: u16,
    applets: [Option<AppletInfo>; MAX_APPLETS_PER_PACKAGE],
    applet_count: u8,
    imports: [Option<ImportInfo>; MAX_IMPORTS_PER_PACKAGE],
    import_count: u8,
    exports: [Option<ExportInfo>; MAX_EXPORTED_CLASSES_PER_PACKAGE],
    export_count: u8,
    ref_loc_byte_deltas: [u8; MAX_REF_LOC_BYTE_INDICES],
    ref_loc_byte_count: u16,
    ref_loc_byte2_deltas: [u8; MAX_REF_LOC_BYTE2_INDICES],
    ref_loc_byte2_count: u16,
    static_field_image_size: u16,
    static_reference_count: u16,
    classes: [Option<ClassInfo>; MAX_CLASSES_PER_PACKAGE],
    class_count: u8,
}

/// `s` holds what the components starting at `cs` give.
spec fn partial_ok(d: Seq<u8>, cs: Seq<int>, s: Partial) -> bool {
    &&& range_matches(d, last_tag(d, cs, tag::METHOD), s.method_range)
    &&& range_matches(d, last_tag(d, cs, tag::DESCRIPTOR), s.descriptor_range)
    &&& header_ok(d, last_tag(d, cs, tag::HEADER), s.aid@, s.aid_len)
    &&& cp_ok(d, last_tag(d, cs, tag::CONSTANT_POOL), s.constant_pool@, s.cp_count)
    &&& applets_ok(d, last_tag(d, cs, tag::APPLET), s.applets@, s.applet_count)
    &&& imports_ok(d, last_tag(d, cs, tag::IMPORT), s.imports@, s.import_count)
    &&& exports_ok(d, last_tag(d, cs, tag::EXPORT), s.exports@, s.export_count)
    &&& ref_loc_ok(
        d,
        last_tag(d, cs, tag::REFERENCE_LOCATION),
        s.ref_loc_byte_deltas@,
        s.ref_loc_byte_count,
        s.ref_loc_byte2_deltas@,
        s.ref_loc_byte2_count,
    )
    &&& static_ok(
        d,
        last_tag(d, cs, tag::STATIC_FIELD),
        s.static_field_image_size,
        s.static_reference_count,
    )
    &&& classes_ok(d, last_tag(d, cs, tag::CLASS), s.classes@, s.class_count)
}

proof fn lemma_push_all_tags(d: Seq<u8>, cs: Seq<int>, p: int)
    ensures
        forall|t: u8| #[trigger] last_tag(d, cs.push(p), t) == (if d[p] == t {
            Some(p)
        } else {
            last_tag(d, cs, t)
        }),
{
    assert forall|t: u8| #[trigger] last_tag(d, cs.push(p), t) == (if d[p] == t {
        Some(p)
    } else {
        last_tag(d, cs, t)
    }) by {
        lemma_last_tag_push(d, cs, p, t);
    }
}

proof fn lemma_comp_walk_step(d: Seq<u8>, p: int)
    requires
        0 <= p < d.len(),
        p + 3 <= d.len(),
        comp_end(d, p) <= d.len(),
    ensures
        comp_walk(d, p) == (match body_error(d[p], comp_body(d, p)) {
            Some(e) => Err(e),
            None => cons(p, comp_walk(d, comp_end(d, p))),
        }),
{
}

/// Decode the component whose tag byte is at `p` (body `d[start..end]`) into `s`.
fn apply_component(
    s: &mut Partial,
    d: &[u8],
    start: usize,
    end: usize,
    Ghost(cs): Ghost<Seq<int>>,
    Ghost(p): Ghost<int>,
) -> (r: Result<(), ParseError>)
    requires
        partial_ok(d@, cs, *old(s)),
        0 <= p,
        start == p + 3,
        end == comp_end(d@, p),
        end <= d@.len(),
    ensures
        match r {
            Ok(()) => body_error(d@[p], comp_body(d@, p)) is None && partial_ok(
                d@,
                cs.push(p),
                *final(s),
            ),
            Err(e) => body_error(d@[p], comp_body(d@, p)) == Some(e),
        },
{
    let component_tag = d[start - 3];
    let body = slice_subrange(d, start, end);
    assert(body@ == comp_body(d@, p));
    proof {
        lemma_push_all_tags(d@, cs, p);
        reveal(body_error);
    }
    if component_tag == tag::HEADER {
        let (a, n) = parse_header(body)?;
        s.aid = a;
        s.aid_len = n;
        proof {
            reveal(header_ok);
        }
    } else if component_tag == tag::CONSTANT_POOL {
        let (c, n) = parse_constant_pool(body)?;
        s.constant_pool = c;
        s.cp_count = n;
        proof {
            reveal(cp_ok);
        }
    } else if component_tag == tag::APPLET {
        let (a, n) = parse_applet_component(body)?;
        s.applets = a;
        s.applet_count = n;
        proof {
            reveal(applets_ok);
        }
    } else if component_tag == tag::IMPORT {
        let (a, n) = parse_import_component(body)?;
        s.imports = a;
        s.import_count = n;
        proof {
            reveal(imports_ok);
        }
    } else if component_tag == tag::EXPORT {
        let (a, n) = parse_export_component(body)?;
        s.exports = a;
        s.export_count = n;
        proof {
            reveal(exports_ok);
        }
    } else if component_tag == tag::REFERENCE_LOCATION {
        let (b1, n1, b2, n2) = parse_ref_location_component(body)?;
        s.ref_loc_byte_deltas = b1;
        s.ref_loc_byte_count = n1;
        s.ref_loc_byte2_deltas = b2;
        s.ref_loc_byte2_count = n2;
        proof {
            reveal(ref_loc_ok);
        }
    } else if component_tag == tag::STATIC_FIELD {
        let (image, refs) = parse_static_field_component(body)?;
        s.static_field_image_size = image;
        s.static_reference_count = refs;
        proof {
            reveal(static_ok);
        }
    } else if component_tag == tag::CLASS {
        let (c, n) = parse_class_component(body)?;
        s.classes = c;
        s.class_count = n;
        proof {
            reveal(classes_ok);
        }
    } else if component_tag == tag::METHOD {
        s.method_range = Some((start, end));
    } else if component_tag == tag::DESCRIPTOR {
        s.descriptor_range = Some((start, end));
    }
    Ok(())
}

/// Decode the Method component under the Descriptor's method pairs and assemble the
/// package from what the walk over the components gathered.
fn finish(s: Partial, d: &[u8], Ghost(cs): Ghost<Seq<int>>) -> (r: Result<Package, ParseError>)
    requires
        partial_ok(d@, cs, s),
        comp_walk(d@, 0) == Ok::<Seq<int>, ParseError>(cs),
    ensures
        parse_result(d@, r),
        r matches Ok(p) ==> within_limits(p),
{
    let (mstart, mend) = match s.method_range {
        Some(r) => r,
        None => {
            return Err(ParseError::TooShort);
        },
    };
    let mut offsets: [(u16, u16); MAX_METHODS] = [(0u16, 0u16); MAX_METHODS];
    let mut count: u8 = 0;
    if let Some((dstart, dend)) = s.descriptor_range {
        match parse_descriptor_method_offsets(slice_subrange(d, dstart, dend)) {
            Ok((o, n)) => {
                offsets = o;
                count = n;
            },
            Err(e) => {
                assert(file_pairs(d@, cs) == Err::<Seq<(u16, u16)>, ParseError>(e));
                return Err(e);
            },
        }
    } else {
        assert(offsets@.subrange(0, 0) =~= Seq::<(u16, u16)>::empty());
    }
    assert(file_pairs(d@, cs) == Ok::<Seq<(u16, u16)>, ParseError>(
        offsets@.subrange(0, count as int),
    ));
    let pairs = slice_subrange(offsets.as_slice(), 0, count as usize);
    let (methods, method_offsets, method_count) = match parse_methods(
        slice_subrange(d, mstart, mend),
        pairs,
    ) {
        Ok(t) => t,
        Err(e) => {
            return Err(e);
        },
    };
    let pkg = Package {
        aid: s.aid,
        aid_len: s.aid_len,
        methods,
        method_count,
        method_offsets,
        constant_pool: s.constant_pool,
        cp_count: s.cp_count,
        applets: s.applets,
        applet_count: s.applet_count,
        imports: s.imports,
        import_count: s.import_count,
        exports: s.exports,
        export_count: s.export_count,
        ref_loc_byte_deltas: s.ref_loc_byte_deltas,
        ref_loc_byte_count: s.ref_loc_byte_count,
        ref_loc_byte2_deltas: s.ref_loc_byte2_deltas,
        ref_loc_byte2_count: s.ref_loc_byte2_count,
        static_field_image_size: s.static_field_image_size,
        static_reference_count: s.static_reference_count,
        classes: s.classes,
        class_count: s.class_count,
    };
    proof {
        if parse_decodes(d@, pkg) {
            lemma_decoded_limits(d@, pkg);
        }
    }
    Ok(pkg)
}

/// Parse a component-tagged CAP file into a [`Package`]: walk the components
/// (`tag | size | body`), decoding each known one as it is met (the last occurrence of
/// a tag wins), then decode the Method component under the Descriptor's method pairs.
/// A file without a Method component is refused as `TooShort`.
pub fn parse(data: &[u8]) -> (r: Result<Package, ParseError>)
    ensures
        parse_result(data@, r),
        r matches Ok(p) ==> within_limits(p),
{
    let d = data;
    let mut pos: usize = 0;
    let unused = CpInfo::unused();
    let mut s = Partial {
        aid: [0u8; MAX_AID_LEN],
        aid_len: 0,
        method_range: None,
        descriptor_range: None,
        constant_pool: [unused; MAX_CP_ENTRIES],
        cp_count: 0,
        applets: [None; MAX_APPLETS_PER_PACKAGE],
        applet_count: 0,
        imports: [None; MAX_IMPORTS_PER_PACKAGE],
        import_count: 0,
        exports: [None; MAX_EXPORTED_CLASSES_PER_PACKAGE],
        export_count: 0,
        ref_loc_byte_deltas: [0u8; MAX_REF_LOC_BYTE_INDICES],
        ref_loc_byte_count: 0,
        ref_loc_byte2_deltas: [0u8; MAX_REF_LOC_BYTE2_INDICES],
        ref_loc_byte2_count: 0,
        static_field_image_size: 0,
        static_reference_count: 0,
        classes: [None; MAX_CLASSES_PER_PACKAGE],
        class_count: 0,
    };
    let ghost mut cs: Seq<int> = Seq::empty();
    proof {
        reveal(header_ok);
        reveal(cp_ok);
        reveal(applets_ok);
        reveal(imports_ok);
        reveal(exports_ok);
        reveal(ref_loc_ok);
        reveal(static_ok);
        reveal(classes_ok);
    }
    while pos < d.len()
        invariant
            d@ == data@,
            pos <= d.len(),
            comp_walk(d@, 0) == prepend(cs, comp_walk(d@, pos as int)),
            partial_ok(d@, cs, s),
        decreases d.len() - pos,
    {
        if d.len() - pos < 3 {
            assert(comp_walk(d@, pos as int) == Err::<Seq<int>, ParseError>(ParseError::TooShort));
            assert(comp_walk(d@, 0) == Err::<Seq<int>, ParseError>(ParseError::TooShort));
            assert(parse_error(d@) == Some(ParseError::TooShort));
            return Err(ParseError::TooShort);
        }
        let size = read_be16(d[pos + 1], d[pos + 2]) as usize;
        if d.len() - pos - 3 < size {
            assert(comp_walk(d@, pos as int) == Err::<Seq<int>, ParseError>(ParseError::TooShort));
            assert(comp_walk(d@, 0) == Err::<Seq<int>, ParseError>(ParseError::TooShort));
            assert(parse_error(d@) == Some(ParseError::TooShort));
            return Err(ParseError::TooShort);
        }
        let start = pos + 3;
        let end = start + size;
        let ghost p = pos as int;
        let applied = apply_component(&mut s, d, start, end, Ghost(cs), Ghost(p));
        proof {
            lemma_comp_walk_step(d@, p);
        }
        if let Err(e) = applied {
            assert(comp_walk(d@, p) == Err::<Seq<int>, ParseError>(e));
            assert(comp_walk(d@, 0) == Err::<Seq<int>, ParseError>(e));
            assert(parse_error(d@) == Some(e));
            return Err(e);
        }
        proof {
            lemma_prepend_cons(cs, p, comp_walk(d@, end as int));
            cs = cs.push(p);
        }
        pos = end;
    }
    proof {
        lemma_prepend_empty(cs);
        assert(comp_walk(d@, pos as int) == Ok::<Seq<int>, ParseError>(Seq::empty()));
        assert(comp_walk(d@, 0) == Ok::<Seq<int>, ParseError>(cs));
    }
    finish(s, d, Ghost(cs))
}

} // verus!
