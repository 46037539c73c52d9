use ncore::ksyms::{hex_to_u64, normalize_symbol, parse_kallsyms_content, parse_kallsyms_line};
use ncore::module::{
    apply_symbol_patches, plan_symbol_patches, prepare_module, read_undefined_symbols,
    undefined_symbol_entries, LoadError, SymbolPatch, UndefinedSymbol,
};
use ncore::elf_io::ElfSymbolEntry;

#[test]
fn normalize_symbol_cuts_at_first_suffix() {
    assert_eq!(normalize_symbol("foo$bar"), "foo");
    assert_eq!(normalize_symbol("foo.llvm.12345"), "foo");
    assert_eq!(normalize_symbol("a.llvm.x$y"), "a");
    assert_eq!(normalize_symbol("a$b.llvm.c"), "a");
    assert_eq!(normalize_symbol("plain_name"), "plain_name");
    assert_eq!(normalize_symbol("x.llvm"), "x.llvm");
    assert_eq!(normalize_symbol("$lead"), "");
    assert_eq!(normalize_symbol("ünï$cöde"), "ünï");
    assert_eq!(normalize_symbol(""), "");
}

#[test]
fn normalize_symbol_is_idempotent() {
    for s in ["foo$bar", "a.llvm.b", "x", "p.llvm.q.llvm.r", "$$"] {
        let once = normalize_symbol(s);
        assert_eq!(normalize_symbol(&once), once);
    }
}

#[test]
fn hex_to_u64_reads_addresses() {
    assert_eq!(hex_to_u64("ffffffff81000000"), Some(0xffffffff81000000));
    assert_eq!(hex_to_u64("0000000000000000"), Some(0));
    assert_eq!(hex_to_u64("+10"), Some(16));
    assert_eq!(hex_to_u64("FFFFFFFFFFFFFFFF"), Some(u64::MAX));
    assert_eq!(hex_to_u64("10000000000000000"), None);
    assert_eq!(hex_to_u64(""), None);
    assert_eq!(hex_to_u64("g1"), None);
    assert_eq!(hex_to_u64(" 1"), None);
}

#[test]
fn kallsyms_lines_need_three_tokens_and_a_hex_address() {
    let k = parse_kallsyms_line(b"ffffffff81000000 T _text").unwrap();
    assert_eq!(k.name, b"_text");
    assert_eq!(k.addr, 0xffffffff81000000);
    let k = parse_kallsyms_line(b"  0010\tt\tfoo$x  [mod]\r").unwrap();
    assert_eq!(k.name, b"foo");
    assert_eq!(k.addr, 0x10);
    assert!(parse_kallsyms_line(b"ffff T").is_none());
    assert!(parse_kallsyms_line(b"zzzz T name").is_none());
    assert!(parse_kallsyms_line(b"").is_none());
    // U+3000 IDEOGRAPHIC SPACE separates tokens, as char::is_whitespace says
    let k = parse_kallsyms_line("1\u{3000}T\u{3000}name".as_bytes()).unwrap();
    assert_eq!(k.name, b"name");
}

#[test]
fn kallsyms_table_keeps_the_last_occurrence() {
    let t = parse_kallsyms_content(
        "0000000000001000 T foo\n\
         bad line\n\
         0000000000002000 t bar.llvm.77\n\
         0000000000003000 t foo$dup\n",
    );
    assert_eq!(t.entries.len(), 3);
    assert_eq!(t.get(b"foo"), Some(0x3000));
    assert_eq!(t.get(b"bar"), Some(0x2000));
    assert_eq!(t.get(b"baz"), None);
}

#[test]
fn undefined_symbol_entries_selects_undefined_named_symbols() {
    let syms = [
        ElfSymbolEntry { shndx: 0, name_offset: 0 },
        ElfSymbolEntry { shndx: 0, name_offset: 5 },
        ElfSymbolEntry { shndx: 1, name_offset: 9 },
        ElfSymbolEntry { shndx: 0, name_offset: 12 },
    ];
    let v = undefined_symbol_entries(&syms, 1000, 24).ok().unwrap();
    assert_eq!(v, vec![(1024, 5), (1072, 12)]);
    assert!(matches!(
        undefined_symbol_entries(&syms, usize::MAX - 10, 24),
        Err(LoadError::SymbolOffsetOverflow(1))
    ));
}

#[test]
fn plan_symbol_patches_reports_every_missing_symbol() {
    let t = parse_kallsyms_content("00000000000000aa T have\n");
    let us = vec![
        UndefinedSymbol { offset: 24, name: "have$1".to_string() },
        UndefinedSymbol { offset: 48, name: "gone.llvm.2".to_string() },
        UndefinedSymbol { offset: 72, name: "also_gone".to_string() },
    ];
    match plan_symbol_patches(&us, &t) {
        Err(LoadError::MissingSymbols(names)) => assert_eq!(names, vec!["gone", "also_gone"]),
        _ => panic!("expected MissingSymbols"),
    }
    let ps = plan_symbol_patches(&us[..1], &t).ok().unwrap();
    assert_eq!(ps.len(), 1);
    assert_eq!((ps[0].offset, ps[0].addr), (24, 0xaa));
}

#[test]
fn apply_symbol_patches_rewrites_index_and_value() {
    let mut data = vec![0x11u8; 72];
    let ps = [SymbolPatch { offset: 24, addr: 0x0102030405060708, name: "a".to_string() }];
    assert!(apply_symbol_patches(&mut data, &ps).is_ok());
    let mut want = vec![0x11u8; 72];
    want[30] = 0xf1;
    want[31] = 0xff;
    want[32..40].copy_from_slice(&0x0102030405060708u64.to_le_bytes());
    assert_eq!(data, want);
}

#[test]
fn apply_symbol_patches_stops_at_an_entry_outside_the_file() {
    let mut data = vec![0u8; 48];
    let ps = [
        SymbolPatch { offset: 0, addr: 1, name: "a".to_string() },
        SymbolPatch { offset: 30, addr: 2, name: "b".to_string() },
    ];
    assert!(matches!(apply_symbol_patches(&mut data, &ps), Err(LoadError::OffsetOutOfBounds(30))));
    assert_eq!(&data[6..9], &[0xf1, 0xff, 1]);
    assert_eq!(&data[30..48], &[0u8; 18]);
}

fn put16(v: &mut Vec<u8>, x: u16) {
    v.extend_from_slice(&x.to_le_bytes());
}
fn put32(v: &mut Vec<u8>, x: u32) {
    v.extend_from_slice(&x.to_le_bytes());
}
fn put64(v: &mut Vec<u8>, x: u64) {
    v.extend_from_slice(&x.to_le_bytes());
}

fn section_header(v: &mut Vec<u8>, name: u32, ty: u32, off: u64, size: u64, link: u32, info: u32, entsize: u64) {
    put32(v, name);
    put32(v, ty);
    put64(v, 0);
    put64(v, 0);
    put64(v, off);
    put64(v, size);
    put32(v, link);
    put32(v, info);
    put64(v, if ty == 2 { 8 } else { 1 });
    put64(v, entsize);
}

fn symbol(v: &mut Vec<u8>, name: u32, shndx: u16) {
    put32(v, name);
    v.push(0x10);
    v.push(0);
    put16(v, shndx);
    put64(v, 0);
    put64(v, 0);
}

/// A relocatable ELF64 file with the symbols: (null), `foo$x` undefined,
/// `bar` defined in section 1, `baz.llvm.9` undefined.
fn module_image() -> (Vec<u8>, usize) {
    module_image_with(2, 24, 11, 1, 9)
}

/// `module_image` with the symbol table section's type and entry size,
/// the name offset of its last symbol, and the name offsets of the symbol
/// and string table sections given.
fn module_image_with(symtab_type: u32, entsize: u64, last_name: u32, symtab_name: u32, strtab_name: u32) -> (Vec<u8>, usize) {
    let strtab = b"\0foo$x\0bar\0baz.llvm.9\0";
    let shstrtab = b"\0.symtab\0.strtab\0.shstrtab\0";
    let symtab_off = 64usize;
    let mut body = Vec::new();
    symbol(&mut body, 0, 0);
    symbol(&mut body, 1, 0);
    symbol(&mut body, 7, 1);
    symbol(&mut body, last_name, 0);
    let symtab_size = body.len();
    let strtab_off = symtab_off + symtab_size;
    body.extend_from_slice(strtab);
    let shstrtab_off = symtab_off + body.len();
    body.extend_from_slice(shstrtab);
    while (64 + body.len()) % 8 != 0 {
        body.push(0);
    }
    let shoff = 64 + body.len();
    let mut f = Vec::new();
    f.extend_from_slice(&[0x7f, b'E', b'L', b'F', 2, 1, 1, 0, 0, 0, 0, 0, 0, 0, 0, 0]);
    put16(&mut f, 1);
    put16(&mut f, 0x3e);
    put32(&mut f, 1);
    put64(&mut f, 0);
    put64(&mut f, 0);
    put64(&mut f, shoff as u64);
    put32(&mut f, 0);
    put16(&mut f, 64);
    put16(&mut f, 0);
    put16(&mut f, 0);
    put16(&mut f, 64);
    put16(&mut f, 4);
    put16(&mut f, 3);
    f.extend_from_slice(&body);
    section_header(&mut f, 0, 0, 0, 0, 0, 0, 0);
    section_header(&mut f, symtab_name, symtab_type, symtab_off as u64, symtab_size as u64, 2, 1, entsize);
    section_header(&mut f, strtab_name, 3, strtab_off as u64, strtab.len() as u64, 0, 0, 0);
    section_header(&mut f, 17, 3, shstrtab_off as u64, shstrtab.len() as u64, 0, 0, 0);
    (f, symtab_off)
}

#[test]
fn read_undefined_symbols_finds_the_undefined_named_entries() {
    let (image, symtab_off) = module_image();
    let us = read_undefined_symbols(&image).ok().unwrap();
    assert_eq!(us.len(), 2);
    assert_eq!((us[0].offset, us[0].name.as_str()), (symtab_off + 24, "foo$x"));
    assert_eq!((us[1].offset, us[1].name.as_str()), (symtab_off + 72, "baz.llvm.9"));
}

#[test]
fn read_undefined_symbols_rejects_what_is_no_elf() {
    assert!(matches!(read_undefined_symbols(b"not an elf file at all"), Err(LoadError::ElfParse(_))));
}

#[test]
fn prepare_module_binds_undefined_symbols() {
    let (mut image, symtab_off) = module_image();
    let ksyms = parse_kallsyms_content("ffffffff00001000 T foo\nffffffff00002000 t baz\n");
    let made = prepare_module(&mut image, &ksyms).ok().unwrap();
    assert_eq!(made.len(), 2);
    assert_eq!((made[0].name.as_str(), made[0].offset, made[0].addr), ("foo", symtab_off + 24, 0xffffffff00001000));
    assert_eq!((made[1].name.as_str(), made[1].offset, made[1].addr), ("baz", symtab_off + 72, 0xffffffff00002000));
    let e1 = symtab_off + 24;
    assert_eq!(&image[e1 + 6..e1 + 8], &[0xf1, 0xff]);
    assert_eq!(&image[e1 + 8..e1 + 16], &0xffffffff00001000u64.to_le_bytes());
    let e3 = symtab_off + 72;
    assert_eq!(&image[e3 + 8..e3 + 16], &0xffffffff00002000u64.to_le_bytes());
    let e2 = symtab_off + 48;
    assert_eq!(&image[e2 + 6..e2 + 8], &[1, 0]);
}

#[test]
fn prepare_module_leaves_the_file_alone_when_symbols_are_missing() {
    let (mut image, _) = module_image();
    let before = image.clone();
    let ksyms = parse_kallsyms_content("ffffffff00001000 T foo\n");
    match prepare_module(&mut image, &ksyms) {
        Err(LoadError::MissingSymbols(names)) => assert_eq!(names, vec!["baz"]),
        _ => panic!("expected MissingSymbols"),
    }
    assert_eq!(image, before);
}

#[test]
fn read_undefined_symbols_needs_a_symbol_table() {
    let (image, _) = module_image_with(3, 24, 11, 1, 9);
    assert!(matches!(read_undefined_symbols(&image), Err(LoadError::NoSymbolTable)));
}

#[test]
fn read_undefined_symbols_reports_a_bad_symbol_table() {
    let (image, _) = module_image_with(2, 16, 11, 1, 9);
    assert!(matches!(read_undefined_symbols(&image), Err(LoadError::SymbolTable(_))));
}

#[test]
fn read_undefined_symbols_needs_a_section_named_symtab() {
    let (image, _) = module_image_with(2, 24, 11, 9, 9);
    assert!(matches!(read_undefined_symbols(&image), Err(LoadError::NoSymtabSection)));
}

#[test]
fn read_undefined_symbols_needs_24_byte_entries_in_symtab() {
    let (image, _) = module_image_with(2, 24, 11, 9, 1);
    assert!(matches!(read_undefined_symbols(&image), Err(LoadError::BadSymbolEntrySize(0))));
}

#[test]
fn read_undefined_symbols_reports_an_unreadable_name() {
    let (image, _) = module_image_with(2, 24, 200, 1, 9);
    assert!(matches!(read_undefined_symbols(&image), Err(LoadError::SymbolName(_))));
}

#[test]
fn load_error_messages() {
    assert_eq!(LoadError::NoSymbolTable.message(), "no symbol table found");
    assert_eq!(LoadError::NoSymtabSection.message(), ".symtab section not found");
    assert_eq!(LoadError::BadSymbolEntrySize(16).message(), "unexpected Elf64_Sym size: 16");
    assert_eq!(LoadError::SymbolOffsetOverflow(7).message(), "symbol 7 offset overflows");
    assert_eq!(LoadError::OffsetOutOfBounds(4096).message(), "symbol offset 4096 out of bounds");
    assert_eq!(
        LoadError::MissingSymbols(vec!["foo".to_string(), "bar".to_string(), "baz".to_string()]).message(),
        "missing symbols: foo, bar, baz"
    );
    assert_eq!(LoadError::MissingSymbols(vec!["only".to_string()]).message(), "missing symbols: only");
    match read_undefined_symbols(b"not an elf file at all") {
        Err(e) => assert!(e.message().starts_with("failed to parse ELF: ") && e.message().len() > 21),
        Ok(_) => panic!("expected an error"),
    }
}
