//! A debugger bridge for an emulated CPU.
//!
//! A debugger extension inspects and patches the emulated machine through a
//! narrow set of operations, and asks to be called when execution reaches
//! chosen addresses:
//!
//! - `registers`: the register file, with lookup by name;
//! - `memory`: the address space, with byte-range access under a permission
//!   mask;
//! - `hooks`: address-triggered hooks and the calls they are owed;
//! - `session`: the operations offered to the debugger and the table that a
//!   session starts with.

pub mod hooks;
pub mod memory;
pub mod registers;
pub mod session;
