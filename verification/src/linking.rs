pub mod elf;
pub mod relocate;
