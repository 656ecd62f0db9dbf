//! Class identifiers of the `javacard.framework` API.
use vstd::prelude::*;

verus! {

/// `javacard.framework.Applet`
pub const APPLET: u8 = 0x01;
/// `javacard.framework.APDU`
pub const APDU: u8 = 0x02;
/// `javacard.framework.Util`
pub const UTIL: u8 = 0x03;
/// `javacard.framework.ISO7816`
pub const ISO7816: u8 = 0x04;
/// `javacard.framework.ISOException`
pub const ISO_EXCEPTION: u8 = 0x05;
/// `javacard.framework.JCSystem`
pub const JC_SYSTEM: u8 = 0x06;
/// `javacard.framework.OwnerPIN`
pub const OWNER_PIN: u8 = 0x07;

} // verus!
