//! A deterministic, snapshotable `JavaCard` virtual machine: CAP package
//! parsing, an object heap guarded by the applet firewall, a transaction
//! journal, an event ring buffer and the bytecode interpreter.
pub mod firewall;
pub mod frame;
pub mod opcodes;
pub mod bytes;
pub mod heap;
pub mod transaction;
pub mod ring_buffer;
pub mod cap;
pub mod vm;
pub mod native;
pub mod hypervisor;
pub mod snapshot;

pub use hypervisor::{Hypervisor, NullHypervisor};
pub use ring_buffer::{Event, RingBuffer};
pub use vm::JcVM;
pub use vm::applet::{AppletResult, JcVMApplet};
