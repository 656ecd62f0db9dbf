//! Bytecode opcode constants and the interpreter's result type.
//!
//! Values follow the `JavaCard` VM bytecode table; a few entries of this
//! runtime's table are laid out differently from the published one (local
//! stores, the byte-sized static accessors), and the table below is the
//! one the interpreter dispatches on.
use vstd::prelude::*;

verus! {

pub const NOP: u8 = 0x00;
pub const ACONST_NULL: u8 = 0x01;
pub const SCONST_M1: u8 = 0x02;
pub const SCONST_0: u8 = 0x03;
pub const SCONST_1: u8 = 0x04;
pub const SCONST_2: u8 = 0x05;
pub const SCONST_3: u8 = 0x06;
pub const SCONST_4: u8 = 0x07;
pub const SCONST_5: u8 = 0x08;
pub const ICONST_M1: u8 = 0x09;
pub const ICONST_0: u8 = 0x0A;
pub const ICONST_1: u8 = 0x0B;
pub const ICONST_2: u8 = 0x0C;
pub const ICONST_3: u8 = 0x0D;
pub const ICONST_4: u8 = 0x0E;
pub const ICONST_5: u8 = 0x0F;
pub const BSPUSH: u8 = 0x10;
pub const SSPUSH: u8 = 0x11;
/// `sipush` is an alias of `sspush` in this table.
pub const SIPUSH: u8 = 0x11;
pub const IIPUSH: u8 = 0x14;
pub const ALOAD: u8 = 0x15;
pub const SLOAD: u8 = 0x16;
pub const ILOAD: u8 = 0x17;
pub const ALOAD_0: u8 = 0x18;
pub const ALOAD_1: u8 = 0x19;
pub const ALOAD_2: u8 = 0x1A;
pub const ALOAD_3: u8 = 0x1B;
pub const SLOAD_0: u8 = 0x1C;
pub const SLOAD_1: u8 = 0x1D;
pub const SLOAD_2: u8 = 0x1E;
pub const SLOAD_3: u8 = 0x1F;
pub const ILOAD_0: u8 = 0x20;
pub const ILOAD_1: u8 = 0x21;
pub const ILOAD_2: u8 = 0x22;
pub const ILOAD_3: u8 = 0x23;
pub const AALOAD: u8 = 0x24;
pub const BALOAD: u8 = 0x25;
pub const SALOAD: u8 = 0x26;
pub const IALOAD: u8 = 0x27;
pub const SSTORE: u8 = 0x28;
pub const ASTORE: u8 = 0x29;
pub const ASTORE_0: u8 = 0x2A;
pub const SSTORE_0: u8 = 0x2B;
pub const SSTORE_1: u8 = 0x2C;
pub const SSTORE_2: u8 = 0x2D;
pub const SSTORE_3: u8 = 0x2E;
pub const ISTORE: u8 = 0x2F;
pub const ISTORE_0: u8 = 0x33;
pub const ISTORE_1: u8 = 0x34;
pub const ISTORE_2: u8 = 0x35;
pub const ISTORE_3: u8 = 0x36;
pub const AASTORE: u8 = 0x37;
pub const BASTORE: u8 = 0x38;
pub const SASTORE: u8 = 0x39;
pub const IASTORE: u8 = 0x3A;
pub const POP: u8 = 0x3B;
pub const POP2: u8 = 0x3C;
pub const DUP: u8 = 0x3D;
pub const DUP2: u8 = 0x3E;
pub const SWAP: u8 = 0x3F;
pub const SADD: u8 = 0x41;
pub const IADD: u8 = 0x42;
pub const SSUB: u8 = 0x43;
pub const ISUB: u8 = 0x44;
pub const SMUL: u8 = 0x45;
pub const IMUL: u8 = 0x46;
pub const SDIV: u8 = 0x47;
pub const IDIV: u8 = 0x48;
pub const SREM: u8 = 0x49;
pub const IREM: u8 = 0x4A;
pub const SNEG: u8 = 0x4B;
pub const INEG: u8 = 0x4C;
pub const SSHL: u8 = 0x4D;
pub const ISHL: u8 = 0x4E;
pub const SSHR: u8 = 0x4F;
pub const ISHR: u8 = 0x50;
pub const SUSHR: u8 = 0x51;
pub const IUSHR: u8 = 0x52;
pub const SAND: u8 = 0x53;
pub const IAND: u8 = 0x54;
pub const SOR: u8 = 0x55;
pub const IOR: u8 = 0x56;
pub const SXOR: u8 = 0x57;
pub const IXOR: u8 = 0x58;
pub const SINC: u8 = 0x59;
pub const IINC: u8 = 0x5A;
pub const S2B: u8 = 0x5B;
pub const S2I: u8 = 0x5C;
pub const I2B: u8 = 0x5D;
pub const I2S: u8 = 0x5E;
pub const ICMP: u8 = 0x5F;
pub const IFEQ: u8 = 0x60;
pub const IFNE: u8 = 0x61;
pub const IFLT: u8 = 0x62;
pub const IFGE: u8 = 0x63;
pub const IFGT: u8 = 0x64;
pub const IFLE: u8 = 0x65;
pub const IFNULL: u8 = 0x66;
pub const IFNONNULL: u8 = 0x67;
pub const IF_ACMPEQ: u8 = 0x68;
pub const IF_ACMPNE: u8 = 0x69;
pub const IF_SCMPEQ: u8 = 0x6A;
pub const IF_SCMPNE: u8 = 0x6B;
pub const IF_SCMPLT: u8 = 0x6C;
pub const IF_SCMPGE: u8 = 0x6D;
pub const IF_SCMPGT: u8 = 0x6E;
pub const IF_SCMPLE: u8 = 0x6F;
pub const GOTO: u8 = 0x70;
pub const STABLESWITCH: u8 = 0x73;
pub const ITABLESWITCH: u8 = 0x74;
pub const SLOOKUPSWITCH: u8 = 0x75;
pub const ILOOKUPSWITCH: u8 = 0x76;
pub const ARETURN: u8 = 0x77;
pub const SRETURN: u8 = 0x78;
pub const IRETURN: u8 = 0x79;
pub const RETURN: u8 = 0x7A;
pub const GETSTATIC_A: u8 = 0x7B;
pub const GETSTATIC_S: u8 = 0x7D;
pub const GETSTATIC_I: u8 = 0x7E;
pub const PUTSTATIC_A: u8 = 0x7F;
pub const PUTSTATIC_S: u8 = 0x81;
pub const PUTSTATIC_I: u8 = 0x82;
pub const GETFIELD_A: u8 = 0x83;
pub const GETFIELD_B: u8 = 0x84;
pub const GETFIELD_S: u8 = 0x85;
pub const GETFIELD_I: u8 = 0x86;
pub const PUTFIELD_A: u8 = 0x87;
pub const PUTFIELD_B: u8 = 0x88;
pub const PUTFIELD_S: u8 = 0x89;
pub const PUTFIELD_I: u8 = 0x8A;
pub const INVOKEVIRTUAL: u8 = 0x8B;
pub const INVOKESPECIAL: u8 = 0x8C;
pub const INVOKESTATIC: u8 = 0x8D;
pub const INVOKEINTERFACE: u8 = 0x8E;
pub const NEW: u8 = 0x8F;
pub const NEWARRAY: u8 = 0x90;
pub const ANEWARRAY: u8 = 0x91;
pub const ARRAYLENGTH: u8 = 0x92;
pub const ATHROW: u8 = 0x93;
pub const CHECKCAST: u8 = 0x94;
pub const INSTANCEOF: u8 = 0x95;
pub const IFEQ_W: u8 = 0x98;
pub const IFNE_W: u8 = 0x99;
pub const IFLT_W: u8 = 0x9A;
pub const IFGE_W: u8 = 0x9B;
pub const IFGT_W: u8 = 0x9C;
pub const IFLE_W: u8 = 0x9D;
pub const IFNULL_W: u8 = 0x9E;
pub const IFNONNULL_W: u8 = 0x9F;
pub const IF_ACMPEQ_W: u8 = 0xA0;
pub const IF_ACMPNE_W: u8 = 0xA1;
pub const IF_SCMPEQ_W: u8 = 0xA2;
pub const IF_SCMPNE_W: u8 = 0xA3;
pub const IF_SCMPLT_W: u8 = 0xA4;
pub const IF_SCMPGE_W: u8 = 0xA5;
pub const IF_SCMPGT_W: u8 = 0xA6;
pub const IF_SCMPLE_W: u8 = 0xA7;
pub const GOTO_W: u8 = 0xA8;
pub const GETSTATIC_B: u8 = 0xB3;
pub const PUTSTATIC_B: u8 = 0xB5;

/// Result of executing a method.
#[derive(Debug, Clone, Copy, PartialEq, Eq, Structural)]
pub enum ExecResult {
    /// Method returned void.
    ReturnVoid,
    /// Method returned a short value.
    ReturnShort(i16),
    /// Method returned an int value (32-bit).
    ReturnInt(i32),
    /// Method returned a reference.
    ReturnRef(u16),
    /// Arithmetic exception (division by zero).
    ArithmeticException,
    /// Null pointer exception.
    NullPointerException,
    /// Array index out of bounds.
    ArrayIndexOutOfBounds,
    /// Array type mismatch (e.g. `saload` on `byte[]`).
    ArrayStoreException,
    /// Security exception (firewall violation).
    SecurityException,
    /// Stack overflow.
    StackOverflow,
    /// Stack underflow.
    StackUnderflow,
    /// Invalid or unimplemented opcode.
    InvalidOpcode(u8),
    /// Ran past end of bytecode.
    EndOfBytecode,
    /// Call frame overflow (too-deep call chain).
    FrameOverflow,
    /// Call frame underflow (return without caller).
    FrameUnderflow,
    /// Heap full (allocation failed).
    HeapFull,
    /// Invalid method reference.
    InvalidMethod,
    /// Execution limit exceeded (infinite loop guard).
    ExecutionLimit,
    /// Uncaught exception thrown by `athrow`.
    UncaughtException(u16),
    /// Negative array size.
    NegativeArraySize,
}

} // verus!
