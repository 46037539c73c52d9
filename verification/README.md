# ncore

The core of the ncore tools, with contracts that Verus proves.  The calls
into the `elf` crate (`src/elf_io.rs`) and `std::str::from_utf8`
(`src/text.rs`) are trusted: their contracts are believed, not proved.

- `src/cpio.rs`, `src/cpio_laws.rs`, `src/cpio_message.rs`: the `newc`
  cpio archive format — reading an archive into its entries, writing
  entries into an archive, the texts of reading errors — and the proofs
  that reading what was written gives the entries back and that a cut
  archive is rejected.
- `src/hex.rs`, `src/text.rs`: hexadecimal fields and byte-level text.
- `src/ksyms.rs`: kernel symbol names in normal form and the symbol table
  of `/proc/kallsyms`.
- `src/module.rs`, `src/elf_io.rs`: binding a kernel module's undefined
  symbols to kernel addresses (the ELF file is read with the `elf` crate).
- `src/ctl.rs`, `src/event.rs`, `src/fdscan.rs`, `src/ffi.rs`,
  `src/error.rs`: the decisions of the fmac control interface.

`app/` holds what talks to the system: the exported C and JNI entry
points, `ioctl`/`prctl`, the event descriptor, logging, and reading and
loading kernel modules.
