//! Memory, bank switching and localized text lookup for a NES emulator.

pub mod localization;
pub mod mem;
pub mod text;
