//! Method identifiers within each framework class.
use vstd::prelude::*;

verus! {

/// `Applet.register()`
pub const REGISTER: u8 = 0x01;
/// `Applet.selectingApplet()`
pub const SELECTING_APPLET: u8 = 0x02;
/// `APDU.getBuffer()`
pub const GET_BUFFER: u8 = 0x01;
/// `APDU.setIncomingAndReceive()`
pub const SET_INCOMING_AND_RECEIVE: u8 = 0x02;
/// `APDU.setOutgoing()`
pub const SET_OUTGOING: u8 = 0x03;
/// `APDU.setOutgoingLength(short)`
pub const SET_OUTGOING_LENGTH: u8 = 0x04;
/// `APDU.sendBytes(short, short)`
pub const SEND_BYTES: u8 = 0x05;
/// `APDU.setOutgoingAndSend(short, short)`
pub const SET_OUTGOING_AND_SEND: u8 = 0x06;
/// `APDU.receiveBytes(short)`
pub const RECEIVE_BYTES: u8 = 0x07;
/// `APDU.sendBytesLong(byte[], short, short)`
pub const SEND_BYTES_LONG: u8 = 0x08;
/// `Util.arrayCopy(byte[], short, byte[], short, short)`
pub const ARRAY_COPY: u8 = 0x01;
/// `Util.arrayCopyNonAtomic(byte[], short, byte[], short, short)`
pub const ARRAY_COPY_NON_ATOMIC: u8 = 0x02;
/// `Util.arrayCompare(byte[], short, byte[], short, short)`
pub const ARRAY_COMPARE: u8 = 0x03;
/// `Util.makeShort(byte, byte)`
pub const MAKE_SHORT: u8 = 0x04;
/// `Util.getShort(byte[], short)`
pub const GET_SHORT: u8 = 0x05;
/// `Util.setShort(byte[], short, short)`
pub const SET_SHORT: u8 = 0x06;
/// `ISOException.throwIt(short)`
pub const THROW_IT: u8 = 0x01;
/// `JCSystem.beginTransaction()`
pub const BEGIN_TRANSACTION: u8 = 0x01;
/// `JCSystem.commitTransaction()`
pub const COMMIT_TRANSACTION: u8 = 0x02;
/// `JCSystem.abortTransaction()`
pub const ABORT_TRANSACTION: u8 = 0x03;
/// `JCSystem.makeTransientByteArray(short, byte)`
pub const MAKE_TRANSIENT_BYTE_ARRAY: u8 = 0x04;
/// `JCSystem.makeTransientShortArray(short, byte)`
pub const MAKE_TRANSIENT_SHORT_ARRAY: u8 = 0x05;

} // verus!
