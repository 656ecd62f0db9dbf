//! Constant Pool entry tags (JCVM 3.2 § 6.8, Table 6-7).
use vstd::prelude::*;

verus! {

/// Classref -- reference to a class.
pub const CLASSREF: u8 = 1;
/// `InstanceFieldref` -- reference to an instance field.
pub const INSTANCE_FIELDREF: u8 = 2;
/// `VirtualMethodref` -- reference to a virtual method.
pub const VIRTUAL_METHODREF: u8 = 3;
/// `SuperMethodref` -- reference to a method invoked via `invokespecial` super.
pub const SUPER_METHODREF: u8 = 4;
/// `StaticFieldref` -- reference to a static field.
pub const STATIC_FIELDREF: u8 = 5;
/// `StaticMethodref` -- reference to a static method.
pub const STATIC_METHODREF: u8 = 6;

} // verus!
