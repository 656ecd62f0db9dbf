//! Component tag constants (JCVM 3.2 § 6.2).
use vstd::prelude::*;

verus! {

/// Header component (always tag 1, always first).
pub const HEADER: u8 = 1;
/// Directory component.
pub const DIRECTORY: u8 = 2;
/// Applet component.
pub const APPLET: u8 = 3;
/// Import component.
pub const IMPORT: u8 = 4;
/// Constant Pool component.
pub const CONSTANT_POOL: u8 = 5;
/// Class component.
pub const CLASS: u8 = 6;
/// Method component.
pub const METHOD: u8 = 7;
/// Static Field component.
pub const STATIC_FIELD: u8 = 8;
/// Reference Location component.
pub const REFERENCE_LOCATION: u8 = 9;
/// Export component.
pub const EXPORT: u8 = 10;
/// Descriptor component.
pub const DESCRIPTOR: u8 = 11;
/// Debug component (optional).
pub const DEBUG: u8 = 12;
/// Static Resources component.
pub const STATIC_RESOURCES: u8 = 13;

} // verus!
