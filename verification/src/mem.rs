//! Memory and bank switching.

pub mod access;
pub mod banks;
pub mod const_slice;
pub mod memory;
pub mod ram_state;

pub use ram_state::RamState;
pub use const_slice::ConstSlice;
pub use memory::{Memory, Reset, ResetKind};
pub use access::{Read, Write};
pub use banks::{BankAccess, Banks, Error};
pub use banks::BanksParts;
