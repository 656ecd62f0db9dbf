//! Fixed-size object heap.
//!
//! A bump allocator over a `[u8; HEAP_SIZE]` backing array. Every object
//! starts with a 4-byte header (owner context, kind tag, payload size as
//! u16 LE); arrays carry a further 2-byte LE element count. Offset 0 is the
//! null reference. Objects are never freed. Every field and array access is
//! checked against the firewall before anything else about the object.
use vstd::prelude::*;
use crate::bytes::{be16, be32, hi8, le16, lemma_split_join16, lo8, high_byte, low_byte, read_be16, read_be32, read_le16};
use crate::firewall::{check_access, SecurityException};

verus! {

/// Size of the object header in the heap.
pub const HEADER_SIZE: usize = 4;

/// Size of the array length prefix (after the header).
pub const ARRAY_LENGTH_PREFIX: usize = 2;

/// Object handle: a byte offset into the heap. Zero is the null reference.
#[derive(Debug, Clone, Copy, PartialEq, Eq, Structural)]
pub struct ObjRef(pub u16);

impl ObjRef {
    /// The null reference (no object).
    pub fn null() -> (r: ObjRef)
        ensures
            r.0 == 0,
    {
        ObjRef(0)
    }

    /// Whether this reference is null.
    pub fn is_null(self) -> (r: bool)
        ensures
            r == (self.0 == 0),
    {
        self.0 == 0
    }
}

/// Type tag stored in the object header.
#[derive(Debug, Clone, Copy, PartialEq, Eq, Structural)]
pub enum ObjectKind {
    /// Class instance with fields.
    Instance,
    /// Byte array (`byte[]`).
    ByteArray,
    /// Short array (`short[]`).
    ShortArray,
}

/// The header byte that encodes a kind.
pub open spec fn kind_tag(kind: ObjectKind) -> u8 {
    match kind {
        ObjectKind::Instance => 0,
        ObjectKind::ByteArray => 1,
        ObjectKind::ShortArray => 2,
    }
}

/// The kind that a header byte encodes, if any.
pub open spec fn kind_of_tag(v: u8) -> Option<ObjectKind> {
    if v == 0 {
        Some(ObjectKind::Instance)
    } else if v == 1 {
        Some(ObjectKind::ByteArray)
    } else if v == 2 {
        Some(ObjectKind::ShortArray)
    } else {
        None
    }
}

impl ObjectKind {
    /// Convert from raw byte, returning `None` for unknown tags.
    fn from_u8(v: u8) -> (r: Option<ObjectKind>)
        ensures
            r == kind_of_tag(v),
    {
        match v {
            0 => Some(ObjectKind::Instance),
            1 => Some(ObjectKind::ByteArray),
            2 => Some(ObjectKind::ShortArray),
            _ => None,
        }
    }

    fn tag(self) -> (r: u8)
        ensures
            r == kind_tag(self),
    {
        match self {
            ObjectKind::Instance => 0,
            ObjectKind::ByteArray => 1,
            ObjectKind::ShortArray => 2,
        }
    }
}

/// Why an access to an object or array was refused.
#[derive(Debug, Clone, Copy, PartialEq, Eq, Structural)]
pub enum AccessError {
    /// The reference is null or does not name an allocated header.
    NullRef,
    /// The index or field lies outside the object.
    OutOfBounds,
    /// The object is of another kind than the access needs.
    TypeMismatch,
    /// The firewall denied the access.
    Security(SecurityException),
}

/// Fixed-size object heap with arena allocation.
pub struct ObjectHeap<const HEAP_SIZE: usize> {
    /// Backing store for all objects.
    data: [u8; HEAP_SIZE],
    /// Next free byte offset (bump allocator).
    free: u16,
}

/// The bytes a heap snapshot consists of: the free pointer (u16 LE), then the allocated bytes.
pub open spec fn heap_image(bytes: Seq<u8>, free: nat) -> Seq<u8> {
    seq![lo8(free as u16), hi8(free as u16)] + bytes.subrange(0, free as int)
}

impl<const HEAP_SIZE: usize> ObjectHeap<HEAP_SIZE> {
    /// The backing bytes.
    pub closed spec fn bytes(&self) -> Seq<u8> {
        self.data@
    }

    /// The free pointer: every byte at or beyond it is unallocated.
    pub closed spec fn free_ptr(&self) -> nat {
        self.free as nat
    }

    /// Well-formedness: the backing store has `HEAP_SIZE` bytes, offset 0 stays reserved
    /// for the null reference, and the free pointer lies within the store (a fresh
    /// zero-sized heap keeps its reserved null byte).
    pub open spec fn wf(&self) -> bool {
        &&& self.bytes().len() == HEAP_SIZE
        &&& self.free_ptr() >= 1
        &&& (self.free_ptr() <= HEAP_SIZE || self.free_ptr() == 1)
        &&& self.free_ptr() <= u16::MAX
    }

    /// The backing store always holds exactly `HEAP_SIZE` bytes.
    pub proof fn lemma_bytes_len(&self)
        ensures
            self.bytes().len() == HEAP_SIZE,
    {
    }

    /// Whether `obj` names a header that lies within the allocated region.
    pub open spec fn header_ok(&self, obj: ObjRef) -> bool {
        obj.0 != 0 && obj.0 as int + HEADER_SIZE <= self.free_ptr()
    }

    pub open spec fn spec_owner_of(&self, obj: ObjRef) -> Option<u8> {
        if self.header_ok(obj) {
            Some(self.bytes()[obj.0 as int])
        } else {
            None
        }
    }

    pub open spec fn spec_kind_of(&self, obj: ObjRef) -> Option<ObjectKind> {
        if self.header_ok(obj) {
            kind_of_tag(self.bytes()[obj.0 + 1])
        } else {
            None
        }
    }

    pub open spec fn spec_array_length(&self, obj: ObjRef) -> Option<u16> {
        match self.spec_kind_of(obj) {
            Some(ObjectKind::ByteArray) | Some(ObjectKind::ShortArray) => {
                if obj.0 as int + HEADER_SIZE + 1 < self.bytes().len() {
                    Some(le16(self.bytes()[obj.0 + 4], self.bytes()[obj.0 + 5]))
                } else {
                    None
                }
            },
            _ => None,
        }
    }

    /// Owner, firewall and kind checks that every access makes, in that order.
    pub open spec fn spec_object_check(&self, obj: ObjRef, ctx: u8, kind: ObjectKind) -> Result<
        (),
        AccessError,
    > {
        match self.spec_owner_of(obj) {
            None => Err(AccessError::NullRef),
            Some(owner) => if owner != ctx {
                Err(AccessError::Security(SecurityException))
            } else if self.spec_kind_of(obj) != Some(kind) {
                Err(AccessError::TypeMismatch)
            } else {
                Ok(())
            },
        }
    }

    /// Byte offset of element `index` of an array of `kind` with elements of `elem` bytes,
    /// or why the access is refused.
    pub open spec fn spec_element(
        &self,
        obj: ObjRef,
        index: u16,
        ctx: u8,
        kind: ObjectKind,
        elem: int,
    ) -> Result<int, AccessError> {
        match self.spec_object_check(obj, ctx, kind) {
            Err(e) => Err(e),
            Ok(_) => {
                let len = match self.spec_array_length(obj) {
                    Some(l) => l,
                    None => 0,
                };
                let off = obj.0 + HEADER_SIZE + ARRAY_LENGTH_PREFIX + index * elem;
                if index >= len || off + elem > self.bytes().len() {
                    Err(AccessError::OutOfBounds)
                } else {
                    Ok(off)
                }
            },
        }
    }

    /// The field size an instance's header records (u16 LE after owner and kind).
    pub open spec fn field_size(&self, obj: ObjRef) -> u16 {
        le16(self.bytes()[obj.0 + 2], self.bytes()[obj.0 + 3])
    }

    /// Byte offset of a `size`-byte field at `field_offset` within an instance: the
    /// field must lie within the instance's own fields (and the allocated region).
    pub open spec fn spec_field(&self, obj: ObjRef, field_offset: u16, ctx: u8, size: int) -> Result<
        int,
        AccessError,
    > {
        match self.spec_object_check(obj, ctx, ObjectKind::Instance) {
            Err(e) => Err(e),
            Ok(_) => {
                let off = obj.0 + HEADER_SIZE + field_offset;
                if field_offset + size > self.field_size(obj) || off + size > self.free_ptr() {
                    Err(AccessError::OutOfBounds)
                } else {
                    Ok(off)
                }
            },
        }
    }

    /// The byte at `off`.
    pub open spec fn byte_at(&self, off: int) -> u8 {
        self.bytes()[off]
    }

    /// The big-endian 16-bit value at `off`.
    pub open spec fn be16_at(&self, off: int) -> u16 {
        be16(self.bytes()[off], self.bytes()[off + 1])
    }

    /// The big-endian 32-bit value at `off`, as a signed int.
    pub open spec fn be32_at(&self, off: int) -> i32 {
        be32(self.bytes()[off], self.bytes()[off + 1], self.bytes()[off + 2], self.bytes()[off + 3]) as i32
    }

    /// A failed access leaves the old-style API's answer: `Err` for a firewall denial,
    /// `Ok(None)` for any other refusal.
    pub open spec fn legacy<T>(r: Result<T, AccessError>) -> Result<Option<T>, SecurityException> {
        match r {
            Ok(v) => Ok(Some(v)),
            Err(AccessError::Security(e)) => Err(e),
            Err(_) => Ok(None),
        }
    }

    /// A heap whose allocated bytes are `bytes` up to the free pointer.
    pub open spec fn same_outside(&self, other: &Self, lo: int, hi: int) -> bool {
        &&& other.free_ptr() == self.free_ptr()
        &&& other.bytes().len() == self.bytes().len()
        &&& forall|i: int| 0 <= i < self.bytes().len() && !(lo <= i < hi) ==> #[trigger] other.bytes()[i] == self.bytes()[i]
    }

    /// What allocating an array for `ctx` did: on `Some`, a `kind` header with `length`
    /// elements and `bytes` zeroed payload bytes at the old free pointer, everything
    /// below it untouched; on `None` (exactly when it does not fit), nothing.
    pub open spec fn alloc_outcome(
        old: Self,
        new: Self,
        ctx: u8,
        kind: ObjectKind,
        length: u16,
        bytes: int,
        r: Option<ObjRef>,
    ) -> bool {
        &&& match r {
            None => new == old,
            Some(obj) => {
                &&& obj.0 == old.free_ptr()
                &&& new.free_ptr() == old.free_ptr() + HEADER_SIZE + ARRAY_LENGTH_PREFIX + bytes
                &&& new.byte_at(obj.0 as int) == ctx
                &&& new.byte_at(obj.0 + 1) == kind_tag(kind)
                &&& le16(new.bytes()[obj.0 + 2], new.bytes()[obj.0 + 3]) == ARRAY_LENGTH_PREFIX + bytes
                &&& le16(new.bytes()[obj.0 + 4], new.bytes()[obj.0 + 5]) == length
                &&& forall|i: int|
                    obj.0 + HEADER_SIZE + ARRAY_LENGTH_PREFIX <= i < new.free_ptr()
                        ==> #[trigger] new.bytes()[i] == 0
                &&& forall|i: int| 0 <= i < old.free_ptr() ==> #[trigger] new.bytes()[i] == old.bytes()[i]
            },
        }
        &&& (r is None <==> (old.free_ptr() + HEADER_SIZE + ARRAY_LENGTH_PREFIX + bytes > HEAP_SIZE
            || old.free_ptr() + HEADER_SIZE + ARRAY_LENGTH_PREFIX + bytes > u16::MAX))
    }

    /// What allocating an instance with `field_bytes` field bytes for `ctx` did: on
    /// `Some`, an instance header and zeroed fields at the old free pointer, everything
    /// below it untouched; on `None` (exactly when it does not fit), nothing.
    pub open spec fn instance_outcome(
        old: Self,
        new: Self,
        ctx: u8,
        field_bytes: u16,
        r: Option<ObjRef>,
    ) -> bool {
        &&& match r {
            None => new == old,
            Some(obj) => {
                &&& obj.0 == old.free_ptr()
                &&& new.free_ptr() == old.free_ptr() + HEADER_SIZE + field_bytes
                &&& new.byte_at(obj.0 as int) == ctx
                &&& new.byte_at(obj.0 + 1) == kind_tag(ObjectKind::Instance)
                &&& le16(new.bytes()[obj.0 + 2], new.bytes()[obj.0 + 3]) == field_bytes
                &&& forall|i: int|
                    obj.0 + HEADER_SIZE <= i < new.free_ptr() ==> #[trigger] new.bytes()[i] == 0
                &&& forall|i: int| 0 <= i < old.free_ptr() ==> #[trigger] new.bytes()[i] == old.bytes()[i]
            },
        }
        &&& (r is None <==> (old.free_ptr() + HEADER_SIZE + field_bytes > HEAP_SIZE
            || old.free_ptr() + HEADER_SIZE + field_bytes > u16::MAX))
    }

    /// Where an array with `bytes` payload bytes would be allocated: at the free
    /// pointer, or nowhere when it does not fit.
    pub open spec fn array_alloc_at(&self, bytes: int) -> Option<ObjRef> {
        if self.free_ptr() + HEADER_SIZE + ARRAY_LENGTH_PREFIX + bytes > HEAP_SIZE || self.free_ptr()
            + HEADER_SIZE + ARRAY_LENGTH_PREFIX + bytes > u16::MAX {
            None
        } else {
            Some(ObjRef(self.free_ptr() as u16))
        }
    }

    /// Create an empty heap. Offset 0 is reserved for the null reference.
    pub fn new() -> (h: Self)
        ensures
            h.wf(),
            h.free_ptr() == 1,
            forall|i: int| 0 <= i < HEAP_SIZE ==> #[trigger] h.bytes()[i] == 0,
    {
        ObjectHeap { data: [0u8; HEAP_SIZE], free: 1 }
    }

    /// Total heap capacity in bytes.
    pub fn capacity(&self) -> (r: usize)
        ensures
            r == HEAP_SIZE,
    {
        HEAP_SIZE
    }

    /// Bytes currently allocated (including the null sentinel).
    pub fn used(&self) -> (r: usize)
        ensures
            r == self.free_ptr(),
    {
        self.free as usize
    }

    /// Bytes remaining for new allocations.
    pub fn remaining(&self) -> (r: usize)
        requires
            self.free_ptr() <= HEAP_SIZE,
        ensures
            r == HEAP_SIZE - self.free_ptr(),
    {
        HEAP_SIZE - self.free as usize
    }

    /// Bump-allocate `size` bytes. Returns the start offset or `None` if full.
    fn bump_alloc(&mut self, size: usize) -> (r: Option<usize>)
        requires
            old(self).wf(),
        ensures
            final(self).wf(),
            final(self).bytes() == old(self).bytes(),
            r is None ==> *final(self) == *old(self),
            match r {
                Some(off) => off == old(self).free_ptr() && final(self).free_ptr() == off + size
                    && off + size <= HEAP_SIZE,
                None => final(self).free_ptr() == old(self).free_ptr() && (old(self).free_ptr()
                    + size > HEAP_SIZE || old(self).free_ptr() + size > u16::MAX),
            },
    {
        let offset = self.free as usize;
        let new_free = match offset.checked_add(size) {
            Some(v) => v,
            None => return None,
        };
        if new_free > HEAP_SIZE {
            return None;
        }
        if new_free > 65535 {
            return None;
        }
        self.free = new_free as u16;
        Some(offset)
    }

    /// Zero the bytes in `[start, end)`.
    fn zero_fill(&mut self, start: usize, end: usize)
        requires
            start <= end <= HEAP_SIZE,
            old(self).bytes().len() == HEAP_SIZE,
        ensures
            final(self).free_ptr() == old(self).free_ptr(),
            final(self).bytes().len() == HEAP_SIZE,
            forall|i: int| start <= i < end ==> #[trigger] final(self).bytes()[i] == 0,
            forall|i: int|
                0 <= i < HEAP_SIZE && !(start <= i < end) ==> #[trigger] final(self).bytes()[i]
                    == old(self).bytes()[i],
    {
        let mut i = start;
        while i < end
            invariant
                start <= i <= end <= HEAP_SIZE,
                self.free == old(self).free,
                self.data@.len() == HEAP_SIZE,
                forall|k: int| start <= k < i ==> #[trigger] self.data@[k] == 0,
                forall|k: int|
                    0 <= k < HEAP_SIZE && !(start <= k < i) ==> #[trigger] self.data@[k] == old(
                        self,
                    ).data@[k],
            decreases end - i,
        {
            self.data[i] = 0;
            i = i + 1;
        }
    }

    /// Write a 4-byte object header at the given offset.
    fn write_header(&mut self, offset: usize, owner: u8, kind: ObjectKind, payload_size: u16)
        requires
            offset + HEADER_SIZE <= HEAP_SIZE,
            old(self).bytes().len() == HEAP_SIZE,
        ensures
            final(self).free_ptr() == old(self).free_ptr(),
            final(self).bytes() == old(self).bytes().update(offset as int, owner).update(
                offset + 1,
                kind_tag(kind),
            ).update(offset + 2, lo8(payload_size)).update(offset + 3, hi8(payload_size)),
    {
        self.data[offset] = owner;
        self.data[offset + 1] = kind.tag();
        self.data[offset + 2] = low_byte(payload_size);
        self.data[offset + 3] = high_byte(payload_size);
    }

    /// Allocate a class instance with `field_bytes` of zeroed field storage.
    ///
    /// Returns `None` if the heap is full.
    pub fn alloc_instance(&mut self, owner_context: u8, field_bytes: u16) -> (r: Option<ObjRef>)
        requires
            old(self).wf(),
        ensures
            final(self).wf(),
            Self::instance_outcome(*old(self), *final(self), owner_context, field_bytes, r),
    {
        let total = HEADER_SIZE + field_bytes as usize;
        let offset = match self.bump_alloc(total) {
            Some(o) => o,
            None => return None,
        };
        self.write_header(offset, owner_context, ObjectKind::Instance, field_bytes);
        let field_start = offset + HEADER_SIZE;
        self.zero_fill(field_start, field_start + field_bytes as usize);
        proof {
            lemma_split_join16(field_bytes);
        }
        Some(ObjRef(offset as u16))
    }

    /// Allocate a byte array of `length` zeroed elements.
    ///
    /// Returns `None` if the heap is full.
    pub fn alloc_byte_array(&mut self, owner_context: u8, length: u16) -> (r: Option<ObjRef>)
        requires
            old(self).wf(),
        ensures
            final(self).wf(),
            match r {
                None => *final(self) == *old(self),
                Some(obj) => {
                    &&& obj.0 == old(self).free_ptr()
                    &&& final(self).free_ptr() == old(self).free_ptr() + HEADER_SIZE
                        + ARRAY_LENGTH_PREFIX + length
                    &&& final(self).byte_at(obj.0 as int) == owner_context
                    &&& final(self).byte_at(obj.0 + 1) == kind_tag(ObjectKind::ByteArray)
                    &&& le16(final(self).bytes()[obj.0 + 2], final(self).bytes()[obj.0 + 3])
                        == ARRAY_LENGTH_PREFIX + length
                    &&& le16(final(self).bytes()[obj.0 + 4], final(self).bytes()[obj.0 + 5])
                        == length
                    &&& forall|i: int|
                        obj.0 + HEADER_SIZE + ARRAY_LENGTH_PREFIX <= i < final(self).free_ptr()
                            ==> #[trigger] final(self).bytes()[i] == 0
                    &&& forall|i: int|
                        0 <= i < old(self).free_ptr() ==> #[trigger] final(self).bytes()[i] == old(self).bytes()[i]
                },
            },
            r is None <==> (old(self).free_ptr() + HEADER_SIZE + ARRAY_LENGTH_PREFIX + length
                > HEAP_SIZE || old(self).free_ptr() + HEADER_SIZE + ARRAY_LENGTH_PREFIX + length
                > u16::MAX),
    {
        let payload = ARRAY_LENGTH_PREFIX + length as usize;
        let total = HEADER_SIZE + payload;
        let offset = match self.bump_alloc(total) {
            Some(o) => o,
            None => return None,
        };
        self.write_header(offset, owner_context, ObjectKind::ByteArray, payload as u16);
        let len_off = offset + HEADER_SIZE;
        self.data[len_off] = low_byte(length);
        self.data[len_off + 1] = high_byte(length);
        let elem_start = len_off + ARRAY_LENGTH_PREFIX;
        self.zero_fill(elem_start, elem_start + length as usize);
        proof {
            lemma_split_join16(length);
        }
        Some(ObjRef(offset as u16))
    }

    /// Allocate a short array of `length` zeroed elements.
    ///
    /// Returns `None` if the heap is full.
    pub fn alloc_short_array(&mut self, owner_context: u8, length: u16) -> (r: Option<ObjRef>)
        requires
            old(self).wf(),
        ensures
            final(self).wf(),
            match r {
                None => *final(self) == *old(self),
                Some(obj) => {
                    &&& obj.0 == old(self).free_ptr()
                    &&& final(self).free_ptr() == old(self).free_ptr() + HEADER_SIZE
                        + ARRAY_LENGTH_PREFIX + 2 * length
                    &&& final(self).byte_at(obj.0 as int) == owner_context
                    &&& final(self).byte_at(obj.0 + 1) == kind_tag(ObjectKind::ShortArray)
                    &&& le16(final(self).bytes()[obj.0 + 2], final(self).bytes()[obj.0 + 3])
                        == ARRAY_LENGTH_PREFIX + 2 * length
                    &&& le16(final(self).bytes()[obj.0 + 4], final(self).bytes()[obj.0 + 5])
                        == length
                    &&& forall|i: int|
                        obj.0 + HEADER_SIZE + ARRAY_LENGTH_PREFIX <= i < final(self).free_ptr()
                            ==> #[trigger] final(self).bytes()[i] == 0
                    &&& forall|i: int|
                        0 <= i < old(self).free_ptr() ==> #[trigger] final(self).bytes()[i] == old(self).bytes()[i]
                },
            },
            r is None <==> (old(self).free_ptr() + HEADER_SIZE + ARRAY_LENGTH_PREFIX + 2 * length
                > HEAP_SIZE || old(self).free_ptr() + HEADER_SIZE + ARRAY_LENGTH_PREFIX + 2
                * length > u16::MAX),
    {
        let byte_len = (length as usize) * 2;
        let payload = ARRAY_LENGTH_PREFIX + byte_len;
        let total = HEADER_SIZE + payload;
        let offset = match self.bump_alloc(total) {
            Some(o) => o,
            None => return None,
        };
        self.write_header(offset, owner_context, ObjectKind::ShortArray, payload as u16);
        let len_off = offset + HEADER_SIZE;
        self.data[len_off] = low_byte(length);
        self.data[len_off + 1] = high_byte(length);
        let elem_start = len_off + ARRAY_LENGTH_PREFIX;
        self.zero_fill(elem_start, elem_start + byte_len);
        proof {
            lemma_split_join16(length);
        }
        Some(ObjRef(offset as u16))
    }

    /// Get the owner context of an object; `None` for null or unallocated references.
    pub fn owner_of(&self, obj: ObjRef) -> (r: Option<u8>)
        requires
            self.wf(),
        ensures
            r == self.spec_owner_of(obj),
    {
        if obj.is_null() {
            return None;
        }
        let off = obj.0 as usize;
        if off + HEADER_SIZE > self.free as usize {
            return None;
        }
        Some(self.data[off])
    }

    /// Get the type tag of an object.
    pub fn kind_of(&self, obj: ObjRef) -> (r: Option<ObjectKind>)
        requires
            self.wf(),
        ensures
            r == self.spec_kind_of(obj),
    {
        if obj.is_null() {
            return None;
        }
        let off = obj.0 as usize;
        if off + HEADER_SIZE > self.free as usize {
            return None;
        }
        ObjectKind::from_u8(self.data[off + 1])
    }

    /// Get the element count of an array object; `None` for instances and null references.
    pub fn array_length(&self, obj: ObjRef) -> (r: Option<u16>)
        requires
            self.wf(),
        ensures
            r == self.spec_array_length(obj),
    {
        let kind = match self.kind_of(obj) {
            Some(k) => k,
            None => return None,
        };
        match kind {
            ObjectKind::ByteArray | ObjectKind::ShortArray => {
                let off = obj.0 as usize + HEADER_SIZE;
                if off + 1 >= HEAP_SIZE {
                    return None;
                }
                Some(read_le16(self.data[off], self.data[off + 1]))
            },
            ObjectKind::Instance => None,
        }
    }

    fn object_check(&self, obj: ObjRef, ctx: u8, kind: ObjectKind) -> (r: Result<(), AccessError>)
        requires
            self.wf(),
        ensures
            r == self.spec_object_check(obj, ctx, kind),
    {
        let owner = match self.owner_of(obj) {
            Some(o) => o,
            None => return Err(AccessError::NullRef),
        };
        if let Err(e) = check_access(ctx, owner) {
            return Err(AccessError::Security(e));
        }
        match self.kind_of(obj) {
            Some(k) => {
                if k == kind {
                    Ok(())
                } else {
                    Err(AccessError::TypeMismatch)
                }
            },
            None => Err(AccessError::TypeMismatch),
        }
    }

    /// Byte offset of an array element after all checks, or why the access is refused.
    fn element(&self, obj: ObjRef, index: u16, ctx: u8, kind: ObjectKind, elem: usize) -> (r:
        Result<usize, AccessError>)
        requires
            self.wf(),
            elem == 1 || elem == 2,
        ensures
            match r {
                Ok(off) => self.spec_element(obj, index, ctx, kind, elem as int) == Ok::<
                    int,
                    AccessError,
                >(off as int),
                Err(e) => self.spec_element(obj, index, ctx, kind, elem as int) == Err::<
                    int,
                    AccessError,
                >(e),
            },
    {
        self.object_check(obj, ctx, kind)?;
        let length = match self.array_length(obj) {
            Some(l) => l,
            None => 0,
        };
        let off = obj.0 as usize + HEADER_SIZE + ARRAY_LENGTH_PREFIX + (index as usize) * elem;
        if index >= length || off + elem > HEAP_SIZE {
            return Err(AccessError::OutOfBounds);
        }
        Ok(off)
    }

    /// Byte offset of an instance field after all checks, or why the access is refused.
    fn field(&self, obj: ObjRef, field_offset: u16, ctx: u8, size: usize) -> (r: Result<
        usize,
        AccessError,
    >)
        requires
            self.wf(),
            1 <= size <= 4,
        ensures
            match r {
                Ok(off) => self.spec_field(obj, field_offset, ctx, size as int) == Ok::<
                    int,
                    AccessError,
                >(off as int) && off + size <= HEAP_SIZE,
                Err(e) => self.spec_field(obj, field_offset, ctx, size as int) == Err::<
                    int,
                    AccessError,
                >(e),
            },
    {
        self.object_check(obj, ctx, ObjectKind::Instance)?;
        let base = obj.0 as usize;
        let fsize = read_le16(self.data[base + 2], self.data[base + 3]);
        let off = base + HEADER_SIZE + field_offset as usize;
        if field_offset as usize + size > fsize as usize || off + size > self.free as usize {
            return Err(AccessError::OutOfBounds);
        }
        Ok(off)
    }

    /// Read element `index` of a byte array, with the refusal reason on failure.
    pub fn baload_checked(&self, obj: ObjRef, index: u16, current_context: u8) -> (r: Result<
        u8,
        AccessError,
    >)
        requires
            self.wf(),
        ensures
            match self.spec_element(obj, index, current_context, ObjectKind::ByteArray, 1) {
                Ok(off) => r == Ok::<u8, AccessError>(self.byte_at(off)),
                Err(e) => r == Err::<u8, AccessError>(e),
            },
    {
        let off = self.element(obj, index, current_context, ObjectKind::ByteArray, 1)?;
        Ok(self.data[off])
    }

    /// Write element `index` of a byte array, with the refusal reason on failure.
    pub fn bastore_checked(&mut self, obj: ObjRef, index: u16, value: u8, current_context: u8) -> (r:
        Result<(), AccessError>)
        requires
            old(self).wf(),
        ensures
            final(self).wf(),
            match old(self).spec_element(obj, index, current_context, ObjectKind::ByteArray, 1) {
                Ok(off) => r is Ok && final(self).free_ptr() == old(self).free_ptr()
                    && final(self).bytes() == old(self).bytes().update(off, value),
                Err(e) => r == Err::<(), AccessError>(e) && *final(self) == *old(self),
            },
    {
        let off = self.element(obj, index, current_context, ObjectKind::ByteArray, 1)?;
        self.data[off] = value;
        Ok(())
    }

    /// Read element `index` of a short array (big-endian), with the refusal reason on failure.
    pub fn saload_checked(&self, obj: ObjRef, index: u16, current_context: u8) -> (r: Result<
        i16,
        AccessError,
    >)
        requires
            self.wf(),
        ensures
            match self.spec_element(obj, index, current_context, ObjectKind::ShortArray, 2) {
                Ok(off) => r == Ok::<i16, AccessError>(self.be16_at(off) as i16),
                Err(e) => r == Err::<i16, AccessError>(e),
            },
    {
        let off = self.element(obj, index, current_context, ObjectKind::ShortArray, 2)?;
        let v = read_be16(self.data[off], self.data[off + 1]);
        Ok(v as i16)
    }

    /// Write element `index` of a short array (big-endian), with the refusal reason on failure.
    pub fn sastore_checked(&mut self, obj: ObjRef, index: u16, value: i16, current_context: u8) -> (r:
        Result<(), AccessError>)
        requires
            old(self).wf(),
        ensures
            final(self).wf(),
            match old(self).spec_element(obj, index, current_context, ObjectKind::ShortArray, 2) {
                Ok(off) => r is Ok && final(self).free_ptr() == old(self).free_ptr()
                    && final(self).bytes() == old(self).bytes().update(off, hi8(value as u16)).update(
                    off + 1,
                    lo8(value as u16),
                ),
                Err(e) => r == Err::<(), AccessError>(e) && *final(self) == *old(self),
            },
    {
        let off = self.element(obj, index, current_context, ObjectKind::ShortArray, 2)?;
        let bits = value as u16;
        self.data[off] = high_byte(bits);
        self.data[off + 1] = low_byte(bits);
        Ok(())
    }

    /// Read a byte from a byte array, checking the firewall.
    ///
    /// `Err(SecurityException)` if the current context does not own the array; `Ok(None)`
    /// for a null reference, another kind of object, or an index out of bounds.
    pub fn baload(&self, obj: ObjRef, index: u16, current_context: u8) -> (r: Result<
        Option<u8>,
        SecurityException,
    >)
        requires
            self.wf(),
        ensures
            r == Self::legacy(
                match self.spec_element(obj, index, current_context, ObjectKind::ByteArray, 1) {
                    Ok(off) => Ok::<u8, AccessError>(self.byte_at(off)),
                    Err(e) => Err(e),
                },
            ),
    {
        match self.baload_checked(obj, index, current_context) {
            Ok(v) => Ok(Some(v)),
            Err(AccessError::Security(e)) => Err(e),
            Err(_) => Ok(None),
        }
    }

    /// Write a byte to a byte array, checking the firewall.
    ///
    /// `Err(SecurityException)` for a cross-context access; `Ok(false)` for a null
    /// reference, another kind of object, or an index out of bounds.
    pub fn bastore(&mut self, obj: ObjRef, index: u16, value: u8, current_context: u8) -> (r: Result<
        bool,
        SecurityException,
    >)
        requires
            old(self).wf(),
        ensures
            final(self).wf(),
            match old(self).spec_element(obj, index, current_context, ObjectKind::ByteArray, 1) {
                Ok(off) => r == Ok::<bool, SecurityException>(true) && final(self).free_ptr() == old(self).free_ptr() && final(self).bytes() == old(self).bytes().update(off, value),
                Err(AccessError::Security(e)) => r == Err::<bool, SecurityException>(e) && *final(self) == *old(self),
                Err(_) => r == Ok::<bool, SecurityException>(false) && *final(self) == *old(self),
            },
    {
        match self.bastore_checked(obj, index, value, current_context) {
            Ok(()) => Ok(true),
            Err(AccessError::Security(e)) => Err(e),
            Err(_) => Ok(false),
        }
    }

    /// Read a short from a short array, checking the firewall.
    pub fn saload(&self, obj: ObjRef, index: u16, current_context: u8) -> (r: Result<
        Option<i16>,
        SecurityException,
    >)
        requires
            self.wf(),
        ensures
            r == Self::legacy(
                match self.spec_element(obj, index, current_context, ObjectKind::ShortArray, 2) {
                    Ok(off) => Ok::<i16, AccessError>(self.be16_at(off) as i16),
                    Err(e) => Err(e),
                },
            ),
    {
        match self.saload_checked(obj, index, current_context) {
            Ok(v) => Ok(Some(v)),
            Err(AccessError::Security(e)) => Err(e),
            Err(_) => Ok(None),
        }
    }

    /// Write a short to a short array, checking the firewall.
    pub fn sastore(&mut self, obj: ObjRef, index: u16, value: i16, current_context: u8) -> (r:
        Result<bool, SecurityException>)
        requires
            old(self).wf(),
        ensures
            final(self).wf(),
            match old(self).spec_element(obj, index, current_context, ObjectKind::ShortArray, 2) {
                Ok(off) => r == Ok::<bool, SecurityException>(true) && final(self).free_ptr() == old(self).free_ptr() && final(self).bytes() == old(self).bytes().update(
                    off,
                    hi8(value as u16),
                ).update(off + 1, lo8(value as u16)),
                Err(AccessError::Security(e)) => r == Err::<bool, SecurityException>(e) && *final(self) == *old(self),
                Err(_) => r == Ok::<bool, SecurityException>(false) && *final(self) == *old(self),
            },
    {
        match self.sastore_checked(obj, index, value, current_context) {
            Ok(()) => Ok(true),
            Err(AccessError::Security(e)) => Err(e),
            Err(_) => Ok(false),
        }
    }

    /// Read a byte field of an instance, with the refusal reason on failure.
    pub fn getfield_b_checked(&self, obj: ObjRef, field_offset: u16, current_context: u8) -> (r:
        Result<u8, AccessError>)
        requires
            self.wf(),
        ensures
            match self.spec_field(obj, field_offset, current_context, 1) {
                Ok(off) => r == Ok::<u8, AccessError>(self.byte_at(off)),
                Err(e) => r == Err::<u8, AccessError>(e),
            },
    {
        let off = self.field(obj, field_offset, current_context, 1)?;
        Ok(self.data[off])
    }

    /// Write a byte field of an instance, with the refusal reason on failure.
    pub fn putfield_b_checked(&mut self, obj: ObjRef, field_offset: u16, value: u8, current_context: u8) -> (r:
        Result<(), AccessError>)
        requires
            old(self).wf(),
        ensures
            final(self).wf(),
            match old(self).spec_field(obj, field_offset, current_context, 1) {
                Ok(off) => r is Ok && final(self).free_ptr() == old(self).free_ptr()
                    && final(self).bytes() == old(self).bytes().update(off, value),
                Err(e) => r == Err::<(), AccessError>(e) && *final(self) == *old(self),
            },
    {
        let off = self.field(obj, field_offset, current_context, 1)?;
        self.data[off] = value;
        Ok(())
    }

    /// Read a big-endian short field of an instance.
    pub fn getfield_s(&self, obj: ObjRef, field_offset: u16, current_context: u8) -> (r: Result<
        i16,
        AccessError,
    >)
        requires
            self.wf(),
        ensures
            match self.spec_field(obj, field_offset, current_context, 2) {
                Ok(off) => r == Ok::<i16, AccessError>(self.be16_at(off) as i16),
                Err(e) => r == Err::<i16, AccessError>(e),
            },
    {
        let off = self.field(obj, field_offset, current_context, 2)?;
        let v = read_be16(self.data[off], self.data[off + 1]);
        Ok(v as i16)
    }

    /// Write a big-endian short field of an instance.
    pub fn putfield_s(&mut self, obj: ObjRef, field_offset: u16, value: i16, current_context: u8) -> (r:
        Result<(), AccessError>)
        requires
            old(self).wf(),
        ensures
            final(self).wf(),
            match old(self).spec_field(obj, field_offset, current_context, 2) {
                Ok(off) => r is Ok && final(self).free_ptr() == old(self).free_ptr()
                    && final(self).bytes() == old(self).bytes().update(off, hi8(value as u16)).update(
                    off + 1,
                    lo8(value as u16),
                ),
                Err(e) => r == Err::<(), AccessError>(e) && *final(self) == *old(self),
            },
    {
        let off = self.field(obj, field_offset, current_context, 2)?;
        let bits = value as u16;
        self.data[off] = high_byte(bits);
        self.data[off + 1] = low_byte(bits);
        Ok(())
    }

    /// Read a reference field (an unsigned big-endian short) of an instance.
    pub fn getfield_a(&self, obj: ObjRef, field_offset: u16, current_context: u8) -> (r: Result<
        u16,
        AccessError,
    >)
        requires
            self.wf(),
        ensures
            match self.spec_field(obj, field_offset, current_context, 2) {
                Ok(off) => r == Ok::<u16, AccessError>(self.be16_at(off)),
                Err(e) => r == Err::<u16, AccessError>(e),
            },
    {
        let off = self.field(obj, field_offset, current_context, 2)?;
        Ok(read_be16(self.data[off], self.data[off + 1]))
    }

    /// Write a reference field (an unsigned big-endian short) of an instance.
    pub fn putfield_a(&mut self, obj: ObjRef, field_offset: u16, value: u16, current_context: u8) -> (r:
        Result<(), AccessError>)
        requires
            old(self).wf(),
        ensures
            final(self).wf(),
            match old(self).spec_field(obj, field_offset, current_context, 2) {
                Ok(off) => r is Ok && final(self).free_ptr() == old(self).free_ptr()
                    && final(self).bytes() == old(self).bytes().update(off, hi8(value)).update(
                    off + 1,
                    lo8(value),
                ),
                Err(e) => r == Err::<(), AccessError>(e) && *final(self) == *old(self),
            },
    {
        let off = self.field(obj, field_offset, current_context, 2)?;
        self.data[off] = high_byte(value);
        self.data[off + 1] = low_byte(value);
        Ok(())
    }

    /// Read a big-endian int field of an instance.
    pub fn getfield_i(&self, obj: ObjRef, field_offset: u16, current_context: u8) -> (r: Result<
        i32,
        AccessError,
    >)
        requires
            self.wf(),
        ensures
            match self.spec_field(obj, field_offset, current_context, 4) {
                Ok(off) => r == Ok::<i32, AccessError>(self.be32_at(off)),
                Err(e) => r == Err::<i32, AccessError>(e),
            },
    {
        let off = self.field(obj, field_offset, current_context, 4)?;
        let v = read_be32(self.data[off], self.data[off + 1], self.data[off + 2], self.data[off + 3]);
        Ok(v as i32)
    }

    /// Write a big-endian int field of an instance.
    pub fn putfield_i(&mut self, obj: ObjRef, field_offset: u16, value: i32, current_context: u8) -> (r:
        Result<(), AccessError>)
        requires
            old(self).wf(),
        ensures
            final(self).wf(),
            match old(self).spec_field(obj, field_offset, current_context, 4) {
                Ok(off) => r is Ok && final(self).free_ptr() == old(self).free_ptr()
                    && final(self).be32_at(off) == value
                    && final(self).same_outside(old(self), off, off + 4),
                Err(e) => r == Err::<(), AccessError>(e) && *final(self) == *old(self),
            },
    {
        let off = self.field(obj, field_offset, current_context, 4)?;
        let bits = value as u32;
        let b0 = (bits / 16777216) as u8;
        let b1 = ((bits / 65536) % 256) as u8;
        let b2 = ((bits / 256) % 256) as u8;
        let b3 = (bits % 256) as u8;
        self.data[off] = b0;
        self.data[off + 1] = b1;
        self.data[off + 2] = b2;
        self.data[off + 3] = b3;
        proof {
            assert(b0 as int * 16777216 + b1 as int * 65536 + b2 as int * 256 + b3 as int
                == bits as int);
            assert((bits as i32) == value) by (bit_vector)
                requires
                    bits == value as u32,
            ;
        }
        Ok(())
    }

    /// Read a field byte from an instance object, checking the firewall.
    ///
    /// `Err(SecurityException)` for a cross-context access; `Ok(None)` for a null
    /// reference, an array, or a field beyond the allocated region.
    pub fn getfield_b(&self, obj: ObjRef, field_offset: u16, current_context: u8) -> (r: Result<
        Option<u8>,
        SecurityException,
    >)
        requires
            self.wf(),
        ensures
            r == Self::legacy(
                match self.spec_field(obj, field_offset, current_context, 1) {
                    Ok(off) => Ok::<u8, AccessError>(self.byte_at(off)),
                    Err(e) => Err(e),
                },
            ),
    {
        match self.getfield_b_checked(obj, field_offset, current_context) {
            Ok(v) => Ok(Some(v)),
            Err(AccessError::Security(e)) => Err(e),
            Err(_) => Ok(None),
        }
    }

    /// Write a field byte to an instance object, checking the firewall.
    pub fn putfield_b(&mut self, obj: ObjRef, field_offset: u16, value: u8, current_context: u8) -> (r:
        Result<bool, SecurityException>)
        requires
            old(self).wf(),
        ensures
            final(self).wf(),
            match old(self).spec_field(obj, field_offset, current_context, 1) {
                Ok(off) => r == Ok::<bool, SecurityException>(true) && final(self).free_ptr() == old(self).free_ptr() && final(self).bytes() == old(self).bytes().update(off, value),
                Err(AccessError::Security(e)) => r == Err::<bool, SecurityException>(e) && *final(self) == *old(self),
                Err(_) => r == Ok::<bool, SecurityException>(false) && *final(self) == *old(self),
            },
    {
        match self.putfield_b_checked(obj, field_offset, value, current_context) {
            Ok(()) => Ok(true),
            Err(AccessError::Security(e)) => Err(e),
            Err(_) => Ok(false),
        }
    }

    /// Read an allocated heap byte by absolute offset (no firewall: for the journal).
    pub fn raw_read(&self, offset: usize) -> (r: Option<u8>)
        requires
            self.wf(),
        ensures
            r == (if offset < self.free_ptr() && offset < HEAP_SIZE {
                Some(self.byte_at(offset as int))
            } else {
                None
            }),
    {
        if offset < self.free as usize && offset < HEAP_SIZE {
            Some(self.data[offset])
        } else {
            None
        }
    }

    /// Overwrite an allocated heap byte by absolute offset (no firewall: for the journal).
    /// Offsets beyond the allocated region are ignored.
    pub fn raw_write(&mut self, offset: usize, value: u8)
        requires
            old(self).wf(),
        ensures
            final(self).wf(),
            final(self).free_ptr() == old(self).free_ptr(),
            final(self).bytes() == (if offset < old(self).free_ptr() && offset < HEAP_SIZE {
                old(self).bytes().update(offset as int, value)
            } else {
                old(self).bytes()
            }),
    {
        if offset < self.free as usize && offset < HEAP_SIZE {
            self.data[offset] = value;
        }
    }

    /// Absolute byte offset of element `index` of an array whose elements are `elem_size`
    /// bytes, or `None` for non-arrays and indices out of bounds (no firewall check).
    pub fn array_element_offset(&self, obj: ObjRef, index: u16, elem_size: usize) -> (r: Option<
        usize,
    >)
        requires
            self.wf(),
            elem_size <= 4,
        ensures
            match r {
                Some(off) => {
                    &&& self.spec_array_length(obj) is Some
                    &&& index < self.spec_array_length(obj)->0
                    &&& off == obj.0 + HEADER_SIZE + ARRAY_LENGTH_PREFIX + index * elem_size
                    &&& off + elem_size <= HEAP_SIZE
                },
                None => self.spec_array_length(obj) is None || index >= self.spec_array_length(
                    obj,
                )->0 || obj.0 + HEADER_SIZE + ARRAY_LENGTH_PREFIX + index * elem_size
                    + elem_size > HEAP_SIZE,
            },
    {
        let length = match self.array_length(obj) {
            Some(l) => l,
            None => return None,
        };
        if index >= length {
            return None;
        }
        assert((index as usize) * elem_size <= 65535 * 4) by (nonlinear_arith)
            requires
                elem_size <= 4,
        ;
        let off = obj.0 as usize + HEADER_SIZE + ARRAY_LENGTH_PREFIX + (index as usize) * elem_size;
        if off + elem_size > HEAP_SIZE {
            return None;
        }
        Some(off)
    }

    /// Snapshot size: free pointer (2 bytes) + heap data up to `free`.
    pub fn snapshot_size(&self) -> (r: usize)
        ensures
            r == 2 + self.free_ptr(),
    {
        2 + self.free as usize
    }

    /// Maximum possible snapshot size for this heap size.
    pub fn max_snapshot_size() -> (r: usize)
        requires
            HEAP_SIZE + 2 <= usize::MAX,
        ensures
            r == 2 + HEAP_SIZE,
    {
        2 + HEAP_SIZE
    }

    /// Save the heap into `buf`: the free pointer (u16 LE), then the allocated bytes.
    /// Returns the bytes written, or 0 when `buf` is too small (and then writes nothing).
    pub fn save_state(&self, buf: &mut [u8]) -> (r: usize)
        requires
            self.wf(),
            self.free_ptr() <= HEAP_SIZE,
        ensures
            final(buf)@.len() == old(buf)@.len(),
            old(buf)@.len() < 2 + self.free_ptr() ==> r == 0 && final(buf)@ == old(buf)@,
            old(buf)@.len() >= 2 + self.free_ptr() ==> r == 2 + self.free_ptr()
                && final(buf)@ == heap_image(self.bytes(), self.free_ptr()) + old(buf)@.subrange(
                r as int,
                old(buf)@.len() as int,
            ),
    {
        let needed = 2 + self.free as usize;
        if buf.len() < needed {
            return 0;
        }
        buf[0] = low_byte(self.free);
        buf[1] = high_byte(self.free);
        let f = self.free as usize;
        let mut i: usize = 0;
        while i < f
            invariant
                self.wf(),
                self.free_ptr() <= HEAP_SIZE,
                f == self.free_ptr(),
                i <= f,
                buf@.len() == old(buf)@.len(),
                buf@.len() >= 2 + f,
                buf@[0] == lo8(self.free as u16),
                buf@[1] == hi8(self.free as u16),
                forall|k: int| 0 <= k < i ==> #[trigger] buf@[2 + k] == self.bytes()[k],
                forall|k: int| 2 + f <= k < buf@.len() ==> #[trigger] buf@[k] == old(buf)@[k],
            decreases f - i,
        {
            buf[2 + i] = self.data[i];
            i = i + 1;
        }
        proof {
            let head = heap_image(self.bytes(), self.free_ptr());
            let img = head + old(buf)@.subrange(needed as int, old(buf)@.len() as int);
            assert(head.len() == needed);
            assert forall|k: int| 0 <= k < buf@.len() implies #[trigger] buf@[k] == img[k] by {
                if k < 2 {
                } else if k < 2 + f {
                    assert(buf@[2 + (k - 2)] == self.bytes()[k - 2]);
                    assert(head[k] == self.bytes().subrange(0, f as int)[k - 2]);
                } else {
                    assert(img[k] == old(buf)@.subrange(needed as int, old(buf)@.len() as int)[k - needed]);
                }
            }
            assert(buf@ =~= img);
        }
        needed
    }

    /// Restore the heap from a buffer written by [`Self::save_state`].
    ///
    /// Fails (and changes nothing) when the buffer is shorter than its own free
    /// pointer claims, or claims more than `HEAP_SIZE` bytes. Bytes beyond the restored
    /// free pointer are zeroed.
    pub fn restore_state(&mut self, buf: &[u8]) -> (r: bool)
        requires
            old(self).wf(),
        ensures
            final(self).wf(),
            r == (buf@.len() >= 2 && 1 <= le16(buf@[0], buf@[1]) <= HEAP_SIZE && buf@.len() >= 2
                + le16(buf@[0], buf@[1])),
            !r ==> *final(self) == *old(self),
            r ==> final(self).free_ptr() == le16(buf@[0], buf@[1]) && (forall|i: int|
                0 <= i < final(self).free_ptr() ==> #[trigger] final(self).bytes()[i] == buf@[2
                    + i]) && (forall|i: int|
                final(self).free_ptr() <= i < HEAP_SIZE ==> #[trigger] final(self).bytes()[i] == 0),
    {
        if buf.len() < 2 {
            return false;
        }
        let free = read_le16(buf[0], buf[1]);
        if free == 0 || free as usize > HEAP_SIZE || buf.len() < 2 + free as usize {
            return false;
        }
        let f = free as usize;
        let mut i: usize = 0;
        while i < HEAP_SIZE
            invariant
                f <= HEAP_SIZE,
                buf@.len() >= 2 + f,
                2 + f <= buf.len(),
                i <= HEAP_SIZE,
                self.data@.len() == HEAP_SIZE,
                forall|k: int| 0 <= k < i && k < f ==> #[trigger] self.data@[k] == buf@[2 + k],
                forall|k: int| 0 <= k < i && k >= f ==> #[trigger] self.data@[k] == 0,
            decreases HEAP_SIZE - i,
        {
            if i < f {
                self.data[i] = buf[2 + i];
            } else {
                self.data[i] = 0;
            }
            i = i + 1;
        }
        self.free = free;
        true
    }
}

/// Allocation never disturbs what is already allocated, and a fresh byte array reads
/// as zeros from its owner's context.
pub proof fn lemma_fresh_byte_array_reads_zero<const H: usize>(
    h: ObjectHeap<H>,
    obj: ObjRef,
    owner: u8,
    length: u16,
    index: u16,
)
    requires
        h.wf(),
        h.header_ok(obj),
        h.byte_at(obj.0 as int) == owner,
        h.byte_at(obj.0 + 1) == kind_tag(ObjectKind::ByteArray),
        le16(h.bytes()[obj.0 + 4], h.bytes()[obj.0 + 5]) == length,
        obj.0 + HEADER_SIZE + ARRAY_LENGTH_PREFIX + length == h.free_ptr(),
        forall|i: int|
            obj.0 + HEADER_SIZE + ARRAY_LENGTH_PREFIX <= i < h.free_ptr() ==> #[trigger] h.bytes()[i]
                == 0,
        index < length,
    ensures
        h.spec_element(obj, index, owner, ObjectKind::ByteArray, 1) == Ok::<int, AccessError>(
            obj.0 + HEADER_SIZE + ARRAY_LENGTH_PREFIX + index,
        ),
        h.byte_at(obj.0 + HEADER_SIZE + ARRAY_LENGTH_PREFIX + index) == 0,
{
}

/// Read after write: a byte stored into an array element is what a later load of the
/// same element gives back, and no other element changes.
pub proof fn lemma_bastore_then_baload<const H: usize>(
    before: ObjectHeap<H>,
    after: ObjectHeap<H>,
    obj: ObjRef,
    index: u16,
    other: u16,
    value: u8,
    ctx: u8,
)
    requires
        before.wf(),
        after.wf(),
        before.spec_element(obj, index, ctx, ObjectKind::ByteArray, 1) is Ok,
        after.free_ptr() == before.free_ptr(),
        after.bytes() == before.bytes().update(
            before.spec_element(obj, index, ctx, ObjectKind::ByteArray, 1)->Ok_0,
            value,
        ),
    ensures
        after.spec_element(obj, index, ctx, ObjectKind::ByteArray, 1) == before.spec_element(
            obj,
            index,
            ctx,
            ObjectKind::ByteArray,
            1,
        ),
        after.byte_at(after.spec_element(obj, index, ctx, ObjectKind::ByteArray, 1)->Ok_0) == value,
        other != index ==> after.spec_element(obj, other, ctx, ObjectKind::ByteArray, 1)
            == before.spec_element(obj, other, ctx, ObjectKind::ByteArray, 1),
        other != index && before.spec_element(obj, other, ctx, ObjectKind::ByteArray, 1) is Ok
            ==> after.byte_at(after.spec_element(obj, other, ctx, ObjectKind::ByteArray, 1)->Ok_0)
            == before.byte_at(before.spec_element(obj, other, ctx, ObjectKind::ByteArray, 1)->Ok_0),
{
}

/// The firewall: no access to an object from a context other than its owner's ever
/// succeeds, whatever the access.
pub proof fn lemma_foreign_context_denied<const H: usize>(
    h: ObjectHeap<H>,
    obj: ObjRef,
    ctx: u8,
    kind: ObjectKind,
    index: u16,
    elem: int,
    size: int,
)
    requires
        h.wf(),
        h.spec_owner_of(obj) is Some,
        h.spec_owner_of(obj)->0 != ctx,
    ensures
        h.spec_element(obj, index, ctx, kind, elem) == Err::<int, AccessError>(
            AccessError::Security(SecurityException),
        ),
        h.spec_field(obj, index, ctx, size) == Err::<int, AccessError>(
            AccessError::Security(SecurityException),
        ),
{
}

/// An accepted field access lies wholly within the instance's own fields, so a field
/// write never reaches the header or a neighbouring object.
pub proof fn lemma_field_within_instance<const H: usize>(
    h: ObjectHeap<H>,
    obj: ObjRef,
    field_offset: u16,
    ctx: u8,
    size: int,
)
    requires
        h.wf(),
        h.spec_field(obj, field_offset, ctx, size) is Ok,
    ensures
        obj.0 + HEADER_SIZE <= h.spec_field(obj, field_offset, ctx, size)->Ok_0,
        h.spec_field(obj, field_offset, ctx, size)->Ok_0 + size <= obj.0 + HEADER_SIZE + h.field_size(obj),
        h.spec_kind_of(obj) == Some(ObjectKind::Instance),
        h.spec_owner_of(obj) == Some(ctx),
{
}

/// A short stored into a short array reads back as the same value.
pub proof fn lemma_short_roundtrip(v: i16)
    ensures
        (be16(hi8(v as u16), lo8(v as u16)) as i16) == v,
{
    lemma_split_join16(v as u16);
    assert(((v as u16) as i16) == v) by (bit_vector);
}

/// Restoring what `save_state` wrote reproduces the heap: the same free pointer and the
/// same allocated bytes.
pub proof fn lemma_snapshot_roundtrip<const H: usize>(
    saved: ObjectHeap<H>,
    restored: ObjectHeap<H>,
    buf: Seq<u8>,
)
    requires
        saved.wf(),
        restored.wf(),
        saved.free_ptr() <= H,
        buf.len() >= 2 + saved.free_ptr(),
        buf.subrange(0, 2 + saved.free_ptr() as int) == heap_image(saved.bytes(), saved.free_ptr()),
        restored.free_ptr() == le16(buf[0], buf[1]),
        forall|i: int| 0 <= i < restored.free_ptr() ==> #[trigger] restored.bytes()[i] == buf[2 + i],
    ensures
        restored.free_ptr() == saved.free_ptr(),
        forall|i: int| 0 <= i < saved.free_ptr() ==> #[trigger] restored.bytes()[i] == saved.bytes()[i],
{
    let n = 2 + saved.free_ptr();
    assert(buf[0] == buf.subrange(0, n as int)[0]);
    assert(buf[1] == buf.subrange(0, n as int)[1]);
    assert(heap_image(saved.bytes(), saved.free_ptr())[0] == lo8(saved.free_ptr() as u16));
    assert(heap_image(saved.bytes(), saved.free_ptr())[1] == hi8(saved.free_ptr() as u16));
    lemma_split_join16(saved.free_ptr() as u16);
    assert(restored.free_ptr() == saved.free_ptr());
    assert forall|i: int| 0 <= i < saved.free_ptr() implies #[trigger] restored.bytes()[i] == saved.bytes()[i] by {
        assert(buf[2 + i] == buf.subrange(0, n as int)[2 + i]);
        assert(heap_image(saved.bytes(), saved.free_ptr())[2 + i] == saved.bytes().subrange(0, saved.free_ptr() as int)[i]);
    }
}

} // verus!
