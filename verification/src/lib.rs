//! Verified core of the ncore tools: the `newc` cpio archive codec, kernel
//! symbol resolution for module loading, and the decision logic of the
//! fmac control interface.

pub mod cpio;
pub mod cpio_laws;
pub mod cpio_message;
pub mod ctl;
pub mod elf_io;
pub mod error;
pub mod event;
pub mod fdscan;
pub mod ffi;
pub mod hex;
pub mod ksyms;
pub mod module;
pub mod text;
