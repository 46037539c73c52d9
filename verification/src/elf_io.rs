//! The calls into the `elf` crate that reading a kernel module makes.
//!
//! Every handle of this module remembers the bytes of the ELF file it was
//! read from, and that is its view: the `elf` crate reads deterministically,
//! so what a call on a handle answers is a function of those bytes (and of
//! the call's other arguments), which the names below stand for.
//!
//! `ElfBytes` and `SymbolTable` are generic over the crate's traits
//! `EndianParse` and `ParseAt`, which Verus does not take as bounds of a
//! type declaration; each is held in a private field of an opaque struct.

use vstd::prelude::*;

use elf::endian::NativeEndian;
use elf::parse::ParseError;
use elf::string_table::StringTable;
use elf::symbol::SymbolTable;
use elf::ElfBytes;

verus! {

#[verifier::external_type_specification]
#[verifier::external_body]
pub struct ExParseError(ParseError);

#[verifier::external_type_specification]
#[verifier::external_body]
pub struct ExStringTable<'data>(StringTable<'data>);

#[verifier::external_body]
struct ParsedElf<'a> {
    file: ElfBytes<'a, NativeEndian>,
}

#[verifier::external_body]
struct ParsedSymbols<'a> {
    table: SymbolTable<'a, NativeEndian>,
}

/// An ELF file parsed by `elf::ElfBytes` in the target's byte order.
pub struct ElfFile<'a> {
    parsed: ParsedElf<'a>,
    data: &'a [u8],
}

/// The `.symtab` of an [`ElfFile`].
pub struct ElfSymbolTable<'a> {
    parsed: ParsedSymbols<'a>,
    data: &'a [u8],
}

/// The string table that the `.symtab` of an [`ElfFile`] links to.
pub struct ElfStringTable<'a> {
    table: StringTable<'a>,
    data: &'a [u8],
}

impl<'a> View for ElfFile<'a> {
    type V = Seq<u8>;

    closed spec fn view(&self) -> Seq<u8> {
        self.data@
    }
}

impl<'a> View for ElfSymbolTable<'a> {
    type V = Seq<u8>;

    closed spec fn view(&self) -> Seq<u8> {
        self.data@
    }
}

impl<'a> View for ElfStringTable<'a> {
    type V = Seq<u8>;

    closed spec fn view(&self) -> Seq<u8> {
        self.data@
    }
}

/// The fields of a symbol table entry that module loading reads.
#[derive(Clone, Copy, Debug)]
pub struct ElfSymbolEntry {
    /// `st_shndx`: the index of the section the symbol is defined in.
    pub shndx: u16,
    /// `st_name`: the offset of the symbol's name in the string table.
    pub name_offset: u32,
}

/// Whether `ElfBytes::<NativeEndian>::minimal_parse` accepts the bytes
/// `file`: an ELF header in the target's byte order whose section and
/// segment tables lie within the file.
pub uninterp spec fn elf_parses(file: Seq<u8>) -> bool;

/// What `ElfBytes::symbol_table` answers for the ELF file `file`:
/// `Ok(true)` when it finds a symbol table, `Ok(false)` when there is none,
/// `Err(())` when it reports an error.
pub uninterp spec fn elf_symbol_table_found(file: Seq<u8>) -> Result<bool, ()>;

/// What `ElfBytes::section_header_by_name(name)` answers for the ELF file
/// `file`, a header given by its `(sh_offset, sh_entsize)`; `Err(())` when
/// it reports an error.
pub uninterp spec fn elf_section_by_name(file: Seq<u8>, name: Seq<char>) -> Result<
    Option<(u64, u64)>,
    (),
>;

/// The entries, in order, that `SymbolTable::iter` yields for the symbol
/// table of the ELF file `file`, each as `(st_shndx, st_name)`.
pub uninterp spec fn elf_symtab_entries(file: Seq<u8>) -> Seq<(u16, u32)>;

/// What `StringTable::get(offset)` answers on the string table of the
/// symbol table of the ELF file `file`; `Err(())` when it reports an error.
pub uninterp spec fn elf_symtab_string(file: Seq<u8>, offset: usize) -> Result<Seq<char>, ()>;

/// `ElfBytes::<NativeEndian>::minimal_parse(data)`: reads the ELF file
/// header of `data` and locates its section and segment tables.  Whether it
/// succeeds is `elf_parses` of the bytes; the handle it gives remembers
/// them.
#[verifier::external_body]
pub(crate) fn elf_minimal_parse<'a>(data: &'a [u8]) -> (r: Result<ElfFile<'a>, ParseError>)
    ensures
        r is Ok <==> elf_parses(data@),
        r matches Ok(f) ==> f@ == data@,
{
    match ElfBytes::<NativeEndian>::minimal_parse(data) {
        Ok(file) => Ok(ElfFile { parsed: ParsedElf { file }, data }),
        Err(e) => Err(e),
    }
}

/// `ElfBytes::symbol_table`: the file's `.symtab` (the first section of
/// type `SHT_SYMTAB`) with the string table its `sh_link` names, `None`
/// when the file has no section headers or no such section.  The outcome
/// is `elf_symbol_table_found` of the file; the tables remember the file.
#[verifier::external_body]
pub(crate) fn elf_symbol_table<'a>(f: &ElfFile<'a>) -> (r: Result<
    Option<(ElfSymbolTable<'a>, ElfStringTable<'a>)>,
    ParseError,
>)
    ensures
        match r {
            Ok(Some(tables)) => elf_symbol_table_found(f@) == Ok::<bool, ()>(true) && tables.0@
                == f@ && tables.1@ == f@,
            Ok(None) => elf_symbol_table_found(f@) == Ok::<bool, ()>(false),
            Err(_) => elf_symbol_table_found(f@) is Err,
        },
{
    match f.parsed.file.symbol_table() {
        Ok(Some((table, strings))) => Ok(Some((
            ElfSymbolTable { parsed: ParsedSymbols { table }, data: f.data },
            ElfStringTable { table: strings, data: f.data },
        ))),
        Ok(None) => Ok(None),
        Err(e) => Err(e),
    }
}

/// `ElfBytes::section_header_by_name(name)`: the header of the first
/// section whose name is `name`, given by its `sh_offset` and `sh_entsize`.
/// The outcome is `elf_section_by_name` of the file and `name`.
#[verifier::external_body]
pub(crate) fn elf_section_header_by_name(f: &ElfFile, name: &str) -> (r: Result<
    Option<(u64, u64)>,
    ParseError,
>)
    ensures
        match r {
            Ok(h) => elf_section_by_name(f@, name@) == Ok::<Option<(u64, u64)>, ()>(h),
            Err(_) => elf_section_by_name(f@, name@) is Err,
        },
{
    match f.parsed.file.section_header_by_name(name) {
        Ok(Some(h)) => Ok(Some((h.sh_offset, h.sh_entsize))),
        Ok(None) => Ok(None),
        Err(e) => Err(e),
    }
}

/// `SymbolTable::iter`: the entries of the table in order, each reduced to
/// its `st_shndx` and `st_name`; they are `elf_symtab_entries` of the file.
#[verifier::external_body]
pub(crate) fn elf_symbol_entries(t: &ElfSymbolTable) -> (r: Vec<ElfSymbolEntry>)
    ensures
        r@.map_values(|e: ElfSymbolEntry| (e.shndx, e.name_offset)) == elf_symtab_entries(t@),
{
    t.parsed.table.iter().map(|s| ElfSymbolEntry { shndx: s.st_shndx, name_offset: s.st_name }).collect()
}

/// `StringTable::get(offset)`: the NUL-terminated UTF-8 string at
/// `offset`; the outcome is `elf_symtab_string` of the file and `offset`.
#[verifier::external_body]
pub(crate) fn elf_strtab_get<'a>(t: &ElfStringTable<'a>, offset: usize) -> (r: Result<
    &'a str,
    ParseError,
>)
    ensures
        match r {
            Ok(s) => elf_symtab_string(t@, offset) == Ok::<Seq<char>, ()>(s@),
            Err(_) => elf_symtab_string(t@, offset) is Err,
        },
{
    t.table.get(offset)
}

/// The text that `ParseError`'s `Display` gives for `e`.  Nothing is
/// stated of it: the error has no plain value to state it over.
#[verifier::external_body]
pub(crate) fn elf_error_text(e: &ParseError) -> String {
    format!("{}", e)
}

} // verus!
