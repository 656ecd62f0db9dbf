//! CAP file model and parsers.
//!
//! A loaded package is a [`Package`]: its AID, its methods with their
//! bytecode, and the tables the component-tagged CAP format carries
//! (constant pool, applets, imports, exports, reference locations, classes).
//!
//! Two input formats yield the same structure: the standard
//! component-tagged CAP file (see [`components`]) and a flat blob (see
//! [`parse_cap_blob`]) made of the magic `0xDECAFFED`, the AID, a method
//! count and one record per method.
use vstd::prelude::*;
use vstd::slice::slice_subrange;
use crate::bytes::{be16, read_be16};

pub mod blob;
pub mod components;
pub mod cp_tag;
pub mod snapshot;
pub mod roundtrip;

pub use blob::{build_cap_blob, parse_cap_blob};

verus! {

/// Maximum AID length per ISO 7816-4 (5-16 bytes).
pub const MAX_AID_LEN: usize = 16;

/// Maximum methods per package.
pub const MAX_METHODS: usize = 32;

/// Maximum bytecode size per method.
pub const MAX_BYTECODE: usize = 256;

/// CAP file magic number.
pub const CAP_MAGIC: u32 = 0xDECA_FFED;

/// Method flag: static method.
pub const METHOD_FLAG_STATIC: u8 = 0x08;

/// Maximum exception table entries per method.
pub const MAX_EXCEPTIONS: usize = 8;

/// Maximum Constant Pool entries the runtime tracks per package.
pub const MAX_CP_ENTRIES: usize = 64;

/// Maximum applets advertised by a single CAP package.
pub const MAX_APPLETS_PER_PACKAGE: usize = 4;

/// Maximum packages a single CAP can import.
pub const MAX_IMPORTS_PER_PACKAGE: usize = 8;

/// Maximum classes that a single package can export.
pub const MAX_EXPORTED_CLASSES_PER_PACKAGE: usize = 4;

/// Maximum static fields a single exported class can publish.
pub const MAX_EXPORTED_FIELDS_PER_CLASS: usize = 16;

/// Maximum static methods a single exported class can publish.
pub const MAX_EXPORTED_METHODS_PER_CLASS: usize = 16;

/// Maximum 1-byte CP-token reference locations the runtime tracks.
pub const MAX_REF_LOC_BYTE_INDICES: usize = 128;

/// Maximum 2-byte CP-token reference locations the runtime tracks.
pub const MAX_REF_LOC_BYTE2_INDICES: usize = 64;

/// Maximum classes the Class component of one package may declare.
pub const MAX_CLASSES_PER_PACKAGE: usize = 8;

/// One entry in the Export component (JCVM 3.2 § 6.13).
#[derive(Clone, Copy, Debug, PartialEq, Eq)]
pub struct ExportInfo {
    /// Offset into the Class component naming the exported class.
    pub class_offset: u16,
    /// Number of valid entries in `static_field_offsets`.
    pub static_field_count: u8,
    /// Number of valid entries in `static_method_offsets`.
    pub static_method_count: u8,
    /// Offsets of exported static fields, indexed by the importer's token.
    pub static_field_offsets: [u16; MAX_EXPORTED_FIELDS_PER_CLASS],
    /// Offsets of exported static methods, indexed by the importer's token.
    pub static_method_offsets: [u16; MAX_EXPORTED_METHODS_PER_CLASS],
}

impl ExportInfo {
    /// Create an empty export info.
    pub fn empty() -> (r: Self)
        ensures
            r.class_offset == 0,
            r.static_field_count == 0,
            r.static_method_count == 0,
            forall|i: int| 0 <= i < MAX_EXPORTED_FIELDS_PER_CLASS ==> #[trigger] r.static_field_offsets@[i] == 0,
            forall|i: int| 0 <= i < MAX_EXPORTED_METHODS_PER_CLASS ==> #[trigger] r.static_method_offsets@[i] == 0,
    {
        ExportInfo {
            class_offset: 0,
            static_field_count: 0,
            static_method_count: 0,
            static_field_offsets: [0u16; MAX_EXPORTED_FIELDS_PER_CLASS],
            static_method_offsets: [0u16; MAX_EXPORTED_METHODS_PER_CLASS],
        }
    }

    /// Look up an exported static-field offset by its token; `None` past the count.
    pub fn static_field_offset(&self, token: u8) -> (r: Option<u16>)
        ensures
            r == (if token < self.static_field_count && token < MAX_EXPORTED_FIELDS_PER_CLASS {
                Some(self.static_field_offsets@[token as int])
            } else {
                None
            }),
    {
        let idx = token as usize;
        if (token as u16) < (self.static_field_count as u16) && idx < MAX_EXPORTED_FIELDS_PER_CLASS {
            Some(self.static_field_offsets[idx])
        } else {
            None
        }
    }

    /// Look up an exported static-method offset by its token; `None` past the count.
    pub fn static_method_offset(&self, token: u8) -> (r: Option<u16>)
        ensures
            r == (if token < self.static_method_count && token < MAX_EXPORTED_METHODS_PER_CLASS {
                Some(self.static_method_offsets@[token as int])
            } else {
                None
            }),
    {
        let idx = token as usize;
        if (token as u16) < (self.static_method_count as u16) && idx
            < MAX_EXPORTED_METHODS_PER_CLASS {
            Some(self.static_method_offsets[idx])
        } else {
            None
        }
    }
}

/// One imported-package entry in the Import component (JCVM 3.2 § 6.7).
#[derive(Clone, Copy, Debug, PartialEq, Eq)]
pub struct ImportInfo {
    /// Imported package's minor version.
    pub minor_version: u8,
    /// Imported package's major version.
    pub major_version: u8,
    /// Imported package AID.
    pub aid: [u8; MAX_AID_LEN],
    /// Number of valid bytes in `aid`.
    pub aid_len: u8,
}

impl ImportInfo {
    /// Create an empty import info.
    pub fn empty() -> (r: Self)
        ensures
            r.minor_version == 0,
            r.major_version == 0,
            r.aid_len == 0,
            forall|i: int| 0 <= i < MAX_AID_LEN ==> #[trigger] r.aid@[i] == 0,
    {
        ImportInfo { minor_version: 0, major_version: 0, aid: [0u8; MAX_AID_LEN], aid_len: 0 }
    }

    /// This import's AID as a slice.
    pub fn aid_slice(&self) -> (r: &[u8])
        requires
            self.aid_len <= MAX_AID_LEN,
        ensures
            r@ == self.aid@.subrange(0, self.aid_len as int),
    {
        slice_subrange(self.aid.as_slice(), 0, self.aid_len as usize)
    }
}

/// Whether the first `len` bytes of `stored` are exactly `aid`.
pub open spec fn aid_equals(stored: Seq<u8>, len: u8, aid: Seq<u8>) -> bool {
    aid.len() == len && len <= MAX_AID_LEN && stored.subrange(0, len as int) == aid
}

/// An AID matches a stored AID of `len` bytes exactly when it has `len` bytes (at most
/// 16) and each of them equals the stored byte at the same place: every byte counts,
/// not only a prefix such as the RID.
pub proof fn lemma_aid_equals(stored: Seq<u8>, len: u8, aid: Seq<u8>)
    requires
        stored.len() == MAX_AID_LEN,
    ensures
        aid_equals(stored, len, aid) <==> (aid.len() == len && len <= MAX_AID_LEN && forall|i: int|
            0 <= i < len ==> #[trigger] aid[i] == stored[i]),
{
    if aid.len() == len && len <= MAX_AID_LEN && forall|i: int| 0 <= i < len ==> #[trigger] aid[i] == stored[i] {
        assert(stored.subrange(0, len as int) =~= aid);
    }
    if aid_equals(stored, len, aid) {
        assert forall|i: int| 0 <= i < len implies #[trigger] aid[i] == stored[i] by {
            assert(stored.subrange(0, len as int)[i] == stored[i]);
        }
    }
}

/// Compare a stored AID prefix with a slice, byte by byte.
fn prefix_equals(stored: &[u8; MAX_AID_LEN], len: usize, aid: &[u8]) -> (r: bool)
    requires
        len <= MAX_AID_LEN,
        aid@.len() == len,
    ensures
        r == (stored@.subrange(0, len as int) == aid@),
{
    let mut i: usize = 0;
    while i < len
        invariant
            i <= len <= MAX_AID_LEN,
            aid@.len() == len,
            forall|k: int| 0 <= k < i ==> stored@[k] == aid@[k],
        decreases len - i,
    {
        if stored[i] != aid[i] {
            assert(stored@.subrange(0, len as int)[i as int] != aid@[i as int]);
            return false;
        }
        i = i + 1;
    }
    assert(stored@.subrange(0, len as int) =~= aid@);
    true
}

/// One applet's entry in the Applet component (JCVM 3.2 § 6.5).
#[derive(Clone, Copy, Debug, PartialEq, Eq)]
pub struct AppletInfo {
    /// Applet AID.
    pub aid: [u8; MAX_AID_LEN],
    /// Number of valid bytes in `aid`.
    pub aid_len: u8,
    /// Offset of the applet's `install` method inside the Method component body.
    pub install_method_offset: u16,
}

impl AppletInfo {
    /// Create an empty applet info (zero AID, zero offset).
    pub fn empty() -> (r: Self)
        ensures
            r.aid_len == 0,
            r.install_method_offset == 0,
            forall|i: int| 0 <= i < MAX_AID_LEN ==> #[trigger] r.aid@[i] == 0,
    {
        AppletInfo { aid: [0u8; MAX_AID_LEN], aid_len: 0, install_method_offset: 0 }
    }

    /// This applet's AID as a slice.
    pub fn aid_slice(&self) -> (r: &[u8])
        requires
            self.aid_len <= MAX_AID_LEN,
        ensures
            r@ == self.aid@.subrange(0, self.aid_len as int),
    {
        slice_subrange(self.aid.as_slice(), 0, self.aid_len as usize)
    }

    /// Whether this applet's AID is exactly `aid`.
    pub fn aid_matches(&self, aid: &[u8]) -> (r: bool)
        requires
            aid@.len() != self.aid_len || self.aid_len <= MAX_AID_LEN,
        ensures
            r == aid_equals(self.aid@, self.aid_len, aid@),
    {
        let len = self.aid_len as usize;
        aid.len() == len && prefix_equals(&self.aid, len, aid)
    }
}

/// A class reference: an offset into this package's Class component, or a token pair
/// into another package's Export table (JCVM 3.2 § 6.8.1).
#[derive(Clone, Copy, Debug, PartialEq, Eq, Structural)]
pub enum ClassRef {
    /// Offset into this package's Class component.
    Internal(u16),
    /// External: token-pair into another package's Export table.
    External {
        /// Index into the Import component identifying the package.
        package_token: u8,
        /// Index into that package's Export table identifying the class.
        class_token: u8,
    },
}

/// A static field or static method reference (JCVM 3.2 § 6.8.5 / § 6.8.6).
#[derive(Clone, Copy, Debug, PartialEq, Eq, Structural)]
pub enum StaticRef {
    /// Internal offset into this package's `StaticField` / Method component.
    Internal(u16),
    /// External: token-triple into another package.
    External {
        /// Index into the Import component identifying the package.
        package_token: u8,
        /// Index into that package's Export table identifying the class.
        class_token: u8,
        /// Index into the class's static-field or static-method table.
        token: u8,
    },
}

/// Whether the top bit of a byte is set.
pub open spec fn high_bit(b: u8) -> bool {
    b >= 128
}

/// Decode a class reference from the first two bytes of a CP entry payload: the top
/// bit of the first byte selects the external token-pair form.
pub open spec fn decode_class_ref_spec(b0: u8, b1: u8) -> ClassRef {
    if high_bit(b0) {
        ClassRef::External { package_token: (b0 - 128) as u8, class_token: b1 }
    } else {
        ClassRef::Internal(be16(b0, b1))
    }
}

/// Decode a static reference from a 3-byte CP entry payload.
pub open spec fn decode_static_ref_spec(b0: u8, b1: u8, b2: u8) -> StaticRef {
    if high_bit(b0) {
        StaticRef::External { package_token: (b0 - 128) as u8, class_token: b1, token: b2 }
    } else {
        StaticRef::Internal(be16(b1, b2))
    }
}

/// Decode a 2-byte class reference held in the first two bytes of `info`.
pub fn decode_class_ref_3(info: [u8; 3]) -> (r: ClassRef)
    ensures
        r == decode_class_ref_spec(info@[0], info@[1]),
{
    if info[0] >= 128 {
        ClassRef::External { package_token: info[0] - 128, class_token: info[1] }
    } else {
        ClassRef::Internal(read_be16(info[0], info[1]))
    }
}

/// A Constant Pool entry as it appears on disk: a tag and 3 payload bytes.
#[derive(Clone, Copy, Debug, PartialEq, Eq)]
pub struct CpInfo {
    /// Entry tag per [`cp_tag`]. `0` indicates an unused slot.
    pub tag: u8,
    /// 3-byte payload, interpretation depends on `tag`.
    pub info: [u8; 3],
}

impl CpInfo {
    /// An unused (all-zero) entry.
    pub fn unused() -> (r: Self)
        ensures
            r.tag == 0,
            r.info@ == seq![0u8, 0u8, 0u8],
    {
        let r = CpInfo { tag: 0, info: [0u8; 3] };
        assert(r.info@ =~= seq![0u8, 0u8, 0u8]);
        r
    }

    fn decode_class_ref(info: [u8; 3]) -> (r: ClassRef)
        ensures
            r == decode_class_ref_spec(info@[0], info@[1]),
    {
        decode_class_ref_3(info)
    }

    fn decode_static_ref(info: [u8; 3]) -> (r: StaticRef)
        ensures
            r == decode_static_ref_spec(info@[0], info@[1], info@[2]),
    {
        if info[0] >= 128 {
            StaticRef::External { package_token: info[0] - 128, class_token: info[1], token: info[2] }
        } else {
            StaticRef::Internal(read_be16(info[1], info[2]))
        }
    }

    /// Decode this entry as a Classref; `None` for any other tag.
    pub fn as_classref(&self) -> (r: Option<ClassRef>)
        ensures
            r == (if self.tag == cp_tag::CLASSREF {
                Some(decode_class_ref_spec(self.info@[0], self.info@[1]))
            } else {
                None
            }),
    {
        if self.tag == cp_tag::CLASSREF {
            Some(Self::decode_class_ref(self.info))
        } else {
            None
        }
    }

    /// Decode this entry as an `InstanceFieldref`: `(class, field_token)`.
    pub fn as_instance_fieldref(&self) -> (r: Option<(ClassRef, u8)>)
        ensures
            r == (if self.tag == cp_tag::INSTANCE_FIELDREF {
                Some((decode_class_ref_spec(self.info@[0], self.info@[1]), self.info@[2]))
            } else {
                None
            }),
    {
        if self.tag == cp_tag::INSTANCE_FIELDREF {
            Some((Self::decode_class_ref(self.info), self.info[2]))
        } else {
            None
        }
    }

    /// Decode this entry as a `VirtualMethodref`: `(class, method_token, is_private)`,
    /// the top bit of the token byte marking a package-private target.
    pub fn as_virtual_methodref(&self) -> (r: Option<(ClassRef, u8, bool)>)
        ensures
            r == (if self.tag == cp_tag::VIRTUAL_METHODREF {
                Some(
                    (
                        decode_class_ref_spec(self.info@[0], self.info@[1]),
                        (self.info@[2] % 128) as u8,
                        high_bit(self.info@[2]),
                    ),
                )
            } else {
                None
            }),
    {
        if self.tag == cp_tag::VIRTUAL_METHODREF {
            let class = Self::decode_class_ref(self.info);
            let token_byte = self.info[2];
            Some((class, token_byte % 128, token_byte >= 128))
        } else {
            None
        }
    }

    /// Decode this entry as a `SuperMethodref`: `(class, method_token)`.
    pub fn as_super_methodref(&self) -> (r: Option<(ClassRef, u8)>)
        ensures
            r == (if self.tag == cp_tag::SUPER_METHODREF {
                Some((decode_class_ref_spec(self.info@[0], self.info@[1]), self.info@[2]))
            } else {
                None
            }),
    {
        if self.tag == cp_tag::SUPER_METHODREF {
            Some((Self::decode_class_ref(self.info), self.info[2]))
        } else {
            None
        }
    }

    /// Decode this entry as a `StaticFieldref`.
    pub fn as_static_fieldref(&self) -> (r: Option<StaticRef>)
        ensures
            r == (if self.tag == cp_tag::STATIC_FIELDREF {
                Some(decode_static_ref_spec(self.info@[0], self.info@[1], self.info@[2]))
            } else {
                None
            }),
    {
        if self.tag == cp_tag::STATIC_FIELDREF {
            Some(Self::decode_static_ref(self.info))
        } else {
            None
        }
    }

    /// Decode this entry as a `StaticMethodref`.
    pub fn as_static_methodref(&self) -> (r: Option<StaticRef>)
        ensures
            r == (if self.tag == cp_tag::STATIC_METHODREF {
                Some(decode_static_ref_spec(self.info@[0], self.info@[1], self.info@[2]))
            } else {
                None
            }),
    {
        if self.tag == cp_tag::STATIC_METHODREF {
            Some(Self::decode_static_ref(self.info))
        } else {
            None
        }
    }
}

/// An entry in a method's exception handler table.
#[derive(Clone, Copy, Debug, PartialEq, Eq, Structural)]
pub struct ExceptionEntry {
    /// Start of the try region (inclusive).
    pub start_pc: u16,
    /// End of the try region (exclusive).
    pub end_pc: u16,
    /// PC of the handler code.
    pub handler_pc: u16,
    /// Catch type (0 = catch-all).
    pub catch_type: u16,
}

/// Information about a single method in a package.
#[derive(Clone, Copy, Debug)]
pub struct MethodInfo {
    /// Method flags (bit 3 = static).
    pub flags: u8,
    /// Maximum operand stack depth (in 16-bit words).
    pub max_stack: u8,
    /// Number of arguments.
    pub nargs: u8,
    /// Maximum local variables (including arguments).
    pub max_locals: u8,
    /// Bytecode buffer.
    pub bytecode: [u8; MAX_BYTECODE],
    /// Actual bytecode length.
    pub bytecode_len: u16,
    /// Exception handler table.
    pub exception_table: [Option<ExceptionEntry>; MAX_EXCEPTIONS],
    /// Descriptor-component method offset (for cross-validation).
    pub descriptor_offset: u16,
    /// Class-component method offset (for cross-validation).
    pub class_offset: u16,
}

impl MethodInfo {
    /// Create an empty method info.
    pub fn empty() -> (r: Self)
        ensures
            r.flags == 0 && r.max_stack == 0 && r.nargs == 0 && r.max_locals == 0,
            r.bytecode_len == 0,
            r.descriptor_offset == 0 && r.class_offset == 0,
            forall|i: int| 0 <= i < MAX_BYTECODE ==> #[trigger] r.bytecode@[i] == 0,
            forall|i: int| 0 <= i < MAX_EXCEPTIONS ==> #[trigger] r.exception_table@[i] is None,
    {
        MethodInfo {
            flags: 0,
            max_stack: 0,
            nargs: 0,
            max_locals: 0,
            bytecode: [0u8; MAX_BYTECODE],
            bytecode_len: 0,
            exception_table: [None; MAX_EXCEPTIONS],
            descriptor_offset: 0,
            class_offset: 0,
        }
    }

    /// Whether this method is static (flag bit 3).
    pub fn is_static(&self) -> (r: bool)
        ensures
            r == ((self.flags / 8) % 2 == 1),
    {
        (self.flags / 8) % 2 == 1
    }
}

/// One class record of the Class component (JCVM 3.2 § 6.9), fixed header only.
#[derive(Clone, Copy, Debug, PartialEq, Eq, Structural)]
pub struct ClassInfo {
    /// Offset of this record within the Class component body.
    pub component_offset: u16,
    /// Superclass reference.
    pub super_class_ref: ClassRef,
    /// Declared instance size.
    pub declared_instance_size: u8,
    /// First reference token.
    pub first_reference_token: u8,
    /// Reference count.
    pub reference_count: u8,
    /// Public virtual method table base.
    pub public_method_table_base: u8,
    /// Public virtual method table count.
    pub public_method_table_count: u8,
    /// Package virtual method table base.
    pub package_method_table_base: u8,
    /// Package virtual method table count.
    pub package_method_table_count: u8,
    /// Number of implemented interfaces.
    pub interface_count: u8,
}

/// A loaded CAP package.
#[derive(Clone, Copy, Debug)]
pub struct Package {
    /// Application Identifier.
    pub aid: [u8; MAX_AID_LEN],
    /// AID length.
    pub aid_len: u8,
    /// Methods in this package.
    pub methods: [Option<MethodInfo>; MAX_METHODS],
    /// Number of methods loaded.
    pub method_count: u8,
    /// Each method's byte offset within the Method component body.
    pub method_offsets: [u16; MAX_METHODS],
    /// Constant Pool entries, in raw 4-byte form.
    pub constant_pool: [CpInfo; MAX_CP_ENTRIES],
    /// Number of valid Constant Pool entries.
    pub cp_count: u16,
    /// Applet entries.
    pub applets: [Option<AppletInfo>; MAX_APPLETS_PER_PACKAGE],
    /// Number of valid applet entries.
    pub applet_count: u8,
    /// Imported-package entries.
    pub imports: [Option<ImportInfo>; MAX_IMPORTS_PER_PACKAGE],
    /// Number of valid import entries.
    pub import_count: u8,
    /// Exported-class entries.
    pub exports: [Option<ExportInfo>; MAX_EXPORTED_CLASSES_PER_PACKAGE],
    /// Number of valid export entries.
    pub export_count: u8,
    /// Delta-encoded byte offsets of 1-byte CP tokens (JCVM 3.2 § 6.12).
    pub ref_loc_byte_deltas: [u8; MAX_REF_LOC_BYTE_INDICES],
    /// Number of valid entries in `ref_loc_byte_deltas`.
    pub ref_loc_byte_count: u16,
    /// Delta-encoded byte offsets of 2-byte CP tokens.
    pub ref_loc_byte2_deltas: [u8; MAX_REF_LOC_BYTE2_INDICES],
    /// Number of valid entries in `ref_loc_byte2_deltas`.
    pub ref_loc_byte2_count: u16,
    /// `image_size` of the `StaticField` component.
    pub static_field_image_size: u16,
    /// `reference_count` of the `StaticField` component.
    pub static_reference_count: u16,
    /// Class records of the Class component.
    pub classes: [Option<ClassInfo>; MAX_CLASSES_PER_PACKAGE],
    /// Number of valid class records.
    pub class_count: u8,
}

/// Whether a package is empty: no AID, no methods, no tables.
pub open spec fn is_empty_package(p: Package) -> bool {
    &&& p.aid_len == 0
    &&& forall|i: int| 0 <= i < MAX_AID_LEN ==> #[trigger] p.aid@[i] == 0
    &&& p.method_count == 0
    &&& forall|i: int| 0 <= i < MAX_METHODS ==> #[trigger] p.methods@[i] is None
    &&& has_empty_tables(p)
}

/// Whether a package carries none of the component tables (its AID and methods aside).
pub open spec fn has_empty_tables(p: Package) -> bool {
    &&& forall|i: int| 0 <= i < MAX_METHODS ==> #[trigger] p.method_offsets@[i] == 0
    &&& p.cp_count == 0
    &&& forall|i: int| 0 <= i < MAX_CP_ENTRIES ==> (#[trigger] p.constant_pool@[i]).tag == 0
        && p.constant_pool@[i].info@ == seq![0u8, 0u8, 0u8]
    &&& p.applet_count == 0
    &&& forall|i: int| 0 <= i < MAX_APPLETS_PER_PACKAGE ==> #[trigger] p.applets@[i] is None
    &&& p.import_count == 0
    &&& forall|i: int| 0 <= i < MAX_IMPORTS_PER_PACKAGE ==> #[trigger] p.imports@[i] is None
    &&& p.export_count == 0
    &&& forall|i: int|
        0 <= i < MAX_EXPORTED_CLASSES_PER_PACKAGE ==> #[trigger] p.exports@[i] is None
    &&& p.ref_loc_byte_count == 0
    &&& forall|i: int| 0 <= i < MAX_REF_LOC_BYTE_INDICES ==> #[trigger] p.ref_loc_byte_deltas@[i] == 0
    &&& p.ref_loc_byte2_count == 0
    &&& forall|i: int|
        0 <= i < MAX_REF_LOC_BYTE2_INDICES ==> #[trigger] p.ref_loc_byte2_deltas@[i] == 0
    &&& p.static_field_image_size == 0
    &&& p.static_reference_count == 0
    &&& p.class_count == 0
    &&& forall|i: int| 0 <= i < MAX_CLASSES_PER_PACKAGE ==> #[trigger] p.classes@[i] is None
}

/// The first slot below `bound` (and below `count`) that holds a method beginning at
/// component offset `offset`.
pub open spec fn method_at_offset(p: Package, offset: u16, i: int) -> bool {
    0 <= i < p.method_count && i < MAX_METHODS && p.method_offsets@[i] == offset
        && p.methods@[i] is Some
}

impl Package {
    /// Create an empty package.
    pub fn empty() -> (r: Self)
        ensures
            is_empty_package(r),
    {
        let cp = CpInfo::unused();
        Package {
            aid: [0u8; MAX_AID_LEN],
            aid_len: 0,
            methods: [None; MAX_METHODS],
            method_count: 0,
            method_offsets: [0u16; MAX_METHODS],
            constant_pool: [cp; MAX_CP_ENTRIES],
            cp_count: 0,
            applets: [None; MAX_APPLETS_PER_PACKAGE],
            applet_count: 0,
            imports: [None; MAX_IMPORTS_PER_PACKAGE],
            import_count: 0,
            exports: [None; MAX_EXPORTED_CLASSES_PER_PACKAGE],
            export_count: 0,
            ref_loc_byte_deltas: [0u8; MAX_REF_LOC_BYTE_INDICES],
            ref_loc_byte_count: 0,
            ref_loc_byte2_deltas: [0u8; MAX_REF_LOC_BYTE2_INDICES],
            ref_loc_byte2_count: 0,
            static_field_image_size: 0,
            static_reference_count: 0,
            classes: [None; MAX_CLASSES_PER_PACKAGE],
            class_count: 0,
        }
    }

    /// Whether this package's AID is exactly `aid`.
    pub fn aid_matches(&self, aid: &[u8]) -> (r: bool)
        requires
            aid@.len() != self.aid_len || self.aid_len <= MAX_AID_LEN,
        ensures
            r == aid_equals(self.aid@, self.aid_len, aid@),
    {
        let len = self.aid_len as usize;
        if aid.len() != len {
            return false;
        }
        prefix_equals(&self.aid, len, aid)
    }

    /// The AID as a slice.
    pub fn aid_slice(&self) -> (r: &[u8])
        requires
            self.aid_len <= MAX_AID_LEN,
        ensures
            r@ == self.aid@.subrange(0, self.aid_len as int),
    {
        slice_subrange(self.aid.as_slice(), 0, self.aid_len as usize)
    }

    /// Look up a method by index.
    pub fn method(&self, index: u8) -> (r: Option<&MethodInfo>)
        ensures
            r is Some <==> (index < MAX_METHODS && self.methods@[index as int] is Some),
            r is Some ==> *r->0 == self.methods@[index as int]->0,
    {
        if (index as usize) < MAX_METHODS {
            match &self.methods[index as usize] {
                Some(m) => Some(m),
                None => None,
            }
        } else {
            None
        }
    }

    /// Look up a Constant Pool entry; `None` at or past `cp_count`.
    pub fn cp_entry(&self, index: u16) -> (r: Option<&CpInfo>)
        ensures
            r is Some <==> (index < self.cp_count && index < MAX_CP_ENTRIES),
            r is Some ==> *r->0 == self.constant_pool@[index as int],
    {
        let idx = index as usize;
        if index < self.cp_count && idx < MAX_CP_ENTRIES {
            Some(&self.constant_pool[idx])
        } else {
            None
        }
    }

    /// Look up an applet by index; `None` at or past `applet_count`.
    pub fn applet(&self, index: u8) -> (r: Option<&AppletInfo>)
        ensures
            r is Some <==> (index < self.applet_count && index < MAX_APPLETS_PER_PACKAGE
                && self.applets@[index as int] is Some),
            r is Some ==> *r->0 == self.applets@[index as int]->0,
    {
        let idx = index as usize;
        if (index as u16) < (self.applet_count as u16) && idx < MAX_APPLETS_PER_PACKAGE {
            match &self.applets[idx] {
                Some(a) => Some(a),
                None => None,
            }
        } else {
            None
        }
    }

    /// Look up an applet by AID: the first slot (in slot order) whose AID matches. A slot
    /// whose AID length equals the query's must hold at most 16 AID bytes.
    pub fn applet_by_aid(&self, aid: &[u8]) -> (r: Option<&AppletInfo>)
        requires
            forall|i: int|
                0 <= i < MAX_APPLETS_PER_PACKAGE && #[trigger] self.applets@[i] is Some
                    && self.applets@[i]->0.aid_len == aid@.len() ==> self.applets@[i]->0.aid_len
                    <= MAX_AID_LEN,
        ensures
            match r {
                Some(a) => exists|i: int|
                    0 <= i < MAX_APPLETS_PER_PACKAGE && #[trigger] self.applets@[i] == Some(*a)
                        && aid_equals(a.aid@, a.aid_len, aid@) && forall|j: int|
                        0 <= j < i ==> !(self.applets@[j] is Some && aid_equals(
                            self.applets@[j]->0.aid@,
                            self.applets@[j]->0.aid_len,
                            aid@,
                        )),
                None => forall|i: int|
                    0 <= i < MAX_APPLETS_PER_PACKAGE ==> !(#[trigger] self.applets@[i] is Some
                        && aid_equals(self.applets@[i]->0.aid@, self.applets@[i]->0.aid_len, aid@)),
            },
    {
        let mut i: usize = 0;
        while i < MAX_APPLETS_PER_PACKAGE
            invariant
                i <= MAX_APPLETS_PER_PACKAGE,
                forall|j: int|
                    0 <= j < MAX_APPLETS_PER_PACKAGE && #[trigger] self.applets@[j] is Some
                        && self.applets@[j]->0.aid_len == aid@.len() ==> self.applets@[j]->0.aid_len
                        <= MAX_AID_LEN,
                forall|j: int|
                    0 <= j < i ==> !(#[trigger] self.applets@[j] is Some && aid_equals(
                        self.applets@[j]->0.aid@,
                        self.applets@[j]->0.aid_len,
                        aid@,
                    )),
            decreases MAX_APPLETS_PER_PACKAGE - i,
        {
            if let Some(info) = &self.applets[i] {
                if info.aid_matches(aid) {
                    return Some(info);
                }
            }
            i = i + 1;
        }
        None
    }

    /// Resolve a Method-component byte offset to a method index: the first index below
    /// `method_count` holding a method that begins at `offset`.
    pub fn method_index_by_component_offset(&self, offset: u16) -> (r: Option<u8>)
        ensures
            match r {
                Some(i) => method_at_offset(*self, offset, i as int) && forall|j: int|
                    0 <= j < i ==> !method_at_offset(*self, offset, j),
                None => forall|j: int| 0 <= j < 256 ==> !method_at_offset(*self, offset, j),
            },
    {
        let mut i: u8 = 0;
        while i < self.method_count
            invariant
                i <= self.method_count,
                forall|j: int| 0 <= j < i ==> !method_at_offset(*self, offset, j),
            decreases self.method_count - i,
        {
            let idx = i as usize;
            if idx >= MAX_METHODS {
                return None;
            }
            if self.method_offsets[idx] == offset && self.methods[idx].is_some() {
                return Some(i);
            }
            i = i + 1;
        }
        None
    }

    /// Look up an imported package by `package_token`; `None` at or past `import_count`.
    pub fn import(&self, package_token: u8) -> (r: Option<&ImportInfo>)
        ensures
            r is Some <==> (package_token < self.import_count && package_token
                < MAX_IMPORTS_PER_PACKAGE && self.imports@[package_token as int] is Some),
            r is Some ==> *r->0 == self.imports@[package_token as int]->0,
    {
        let idx = package_token as usize;
        if (package_token as u16) < (self.import_count as u16) && idx < MAX_IMPORTS_PER_PACKAGE {
            match &self.imports[idx] {
                Some(a) => Some(a),
                None => None,
            }
        } else {
            None
        }
    }

    /// Look up an exported class by `class_token`; `None` at or past `export_count`.
    pub fn export(&self, class_token: u8) -> (r: Option<&ExportInfo>)
        ensures
            r is Some <==> (class_token < self.export_count && class_token
                < MAX_EXPORTED_CLASSES_PER_PACKAGE && self.exports@[class_token as int] is Some),
            r is Some ==> *r->0 == self.exports@[class_token as int]->0,
    {
        let idx = class_token as usize;
        if (class_token as u16) < (self.export_count as u16) && idx
            < MAX_EXPORTED_CLASSES_PER_PACKAGE {
            match &self.exports[idx] {
                Some(a) => Some(a),
                None => None,
            }
        } else {
            None
        }
    }

    /// Look up a class record by index; `None` at or past `class_count`.
    pub fn class(&self, index: u8) -> (r: Option<&ClassInfo>)
        ensures
            r is Some <==> (index < self.class_count && index < MAX_CLASSES_PER_PACKAGE
                && self.classes@[index as int] is Some),
            r is Some ==> *r->0 == self.classes@[index as int]->0,
    {
        let idx = index as usize;
        if (index as u16) < (self.class_count as u16) && idx < MAX_CLASSES_PER_PACKAGE {
            match &self.classes[idx] {
                Some(a) => Some(a),
                None => None,
            }
        } else {
            None
        }
    }

    /// Look up a class record by its offset within the Class component: the first
    /// record below `class_count` at that offset.
    pub fn class_by_component_offset(&self, offset: u16) -> (r: Option<&ClassInfo>)
        ensures
            match r {
                Some(c) => exists|i: int|
                    0 <= i < self.class_count && i < MAX_CLASSES_PER_PACKAGE
                        && #[trigger] self.classes@[i] == Some(*c) && c.component_offset == offset,
                None => forall|i: int|
                    0 <= i < self.class_count && i < MAX_CLASSES_PER_PACKAGE ==> !(
                    #[trigger] self.classes@[i] is Some && self.classes@[i]->0.component_offset
                        == offset),
            },
    {
        let mut i: usize = 0;
        while i < self.class_count as usize && i < MAX_CLASSES_PER_PACKAGE
            invariant
                i <= MAX_CLASSES_PER_PACKAGE,
                forall|j: int|
                    0 <= j < i ==> !(#[trigger] self.classes@[j] is Some
                        && self.classes@[j]->0.component_offset == offset),
            decreases MAX_CLASSES_PER_PACKAGE - i,
        {
            if let Some(c) = &self.classes[i] {
                if c.component_offset == offset {
                    return Some(c);
                }
            }
            i = i + 1;
        }
        None
    }

    /// The valid 1-byte-token reference-location deltas.
    pub fn ref_loc_byte_deltas(&self) -> (r: &[u8])
        ensures
            r@ == self.ref_loc_byte_deltas@.subrange(
                0,
                vstd::math::min(self.ref_loc_byte_count as int, MAX_REF_LOC_BYTE_INDICES as int),
            ),
    {
        let n = if (self.ref_loc_byte_count as usize) < MAX_REF_LOC_BYTE_INDICES {
            self.ref_loc_byte_count as usize
        } else {
            MAX_REF_LOC_BYTE_INDICES
        };
        slice_subrange(self.ref_loc_byte_deltas.as_slice(), 0, n)
    }

    /// The valid 2-byte-token reference-location deltas.
    pub fn ref_loc_byte2_deltas(&self) -> (r: &[u8])
        ensures
            r@ == self.ref_loc_byte2_deltas@.subrange(
                0,
                vstd::math::min(self.ref_loc_byte2_count as int, MAX_REF_LOC_BYTE2_INDICES as int),
            ),
    {
        let n = if (self.ref_loc_byte2_count as usize) < MAX_REF_LOC_BYTE2_INDICES {
            self.ref_loc_byte2_count as usize
        } else {
            MAX_REF_LOC_BYTE2_INDICES
        };
        slice_subrange(self.ref_loc_byte2_deltas.as_slice(), 0, n)
    }
}

/// Error returned when CAP parsing fails.
#[derive(Debug, Clone, Copy, PartialEq, Eq, Structural)]
pub enum ParseError {
    /// Buffer too short to contain the expected data.
    TooShort,
    /// Magic number mismatch (expected `0xDECAFFED`).
    BadMagic,
    /// AID length exceeds maximum (16 bytes).
    AidTooLong,
    /// Too many methods (exceeds `MAX_METHODS`).
    TooManyMethods,
    /// Method bytecode exceeds `MAX_BYTECODE`.
    BytecodeTooLong,
    /// Exception handler range outside the method bytecode.
    InvalidExceptionHandler,
    /// Descriptor and Class component method offsets do not match.
    OffsetMismatch,
    /// Too many exception table entries.
    TooManyExceptions,
    /// Constant Pool count exceeds `MAX_CP_ENTRIES`.
    TooManyConstantPoolEntries,
    /// Constant Pool entry has an unknown tag.
    UnknownConstantPoolTag,
    /// Applet component declares more applets than `MAX_APPLETS_PER_PACKAGE`.
    TooManyApplets,
    /// Import component declares more imports than `MAX_IMPORTS_PER_PACKAGE`.
    TooManyImports,
    /// Export component declares more classes than `MAX_EXPORTED_CLASSES_PER_PACKAGE`.
    TooManyExportedClasses,
    /// One exported class names more static fields than `MAX_EXPORTED_FIELDS_PER_CLASS`.
    TooManyExportedFields,
    /// One exported class names more static methods than `MAX_EXPORTED_METHODS_PER_CLASS`.
    TooManyExportedMethods,
    /// `RefLocation` byte-index list exceeds `MAX_REF_LOC_BYTE_INDICES`.
    TooManyRefLocByteIndices,
    /// `RefLocation` byte2-index list exceeds `MAX_REF_LOC_BYTE2_INDICES`.
    TooManyRefLocByte2Indices,
    /// Class component declares more classes than `MAX_CLASSES_PER_PACKAGE`.
    TooManyClasses,
    /// Class component holds an `interface_info` record.
    ClassInterfaceNotSupported,
    /// `StaticField` component carries array initialisers.
    StaticFieldArrayInitsUnsupported,
    /// `StaticField` component carries non-default values.
    StaticFieldNonDefaultValuesUnsupported,
}

/// Parse a CAP file into a [`Package`], detecting the format from the first byte:
/// the Header component tag selects the component-tagged parser, anything else the
/// blob parser.
pub fn parse_cap(data: &[u8]) -> (r: Result<Package, ParseError>)
    ensures
        data@.len() > 0 && data@[0] == components::tag::HEADER ==> components::parse_result(
            data@,
            r,
        ),
        !(data@.len() > 0 && data@[0] == components::tag::HEADER) ==> blob::blob_result(data@, r),
        r matches Ok(p) ==> components::within_limits(p),
{
    if data.len() > 0 && data[0] == components::tag::HEADER {
        components::parse(data)
    } else {
        parse_cap_blob(data)
    }
}

} // verus!
