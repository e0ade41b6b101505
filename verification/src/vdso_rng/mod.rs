//! Finding the kernel's `getrandom` in the vDSO.
//!
//! The kernel maps a small shared object, the vDSO, into every process and gives
//! its address in the auxiliary vector. [`auxv`] walks that vector. [`image`] is
//! the memory that the object lies in, [`elf`] the records in it, and [`vdso`] the
//! way from the object's header to the address of a versioned symbol.

pub mod auxv;
pub mod constants;
pub mod elf;
pub mod image;
pub mod laws;
pub mod vdso;

pub use auxv::{Auxv, AuxvEntry, AuxvIter};
pub use image::{ByteOrder, Image};
pub use vdso::get_function_and_page_size;
