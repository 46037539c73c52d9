//! Binding a kernel module's undefined symbols to kernel addresses before
//! it is loaded: each undefined symbol of the module's `.symtab` is looked
//! up, by its normal name, among the kernel's symbols, and its entry is
//! rewritten into an absolute symbol (`st_shndx = SHN_ABS`,
//! `st_value = address`).

use vstd::prelude::*;
use vstd::utf8::*;

use elf::parse::ParseError;

use crate::elf_io::{
    ElfSymbolEntry, elf_minimal_parse, elf_parses, elf_section_by_name, elf_section_header_by_name,
    elf_strtab_get, elf_symbol_entries, elf_symbol_table, elf_symbol_table_found,
    elf_symtab_entries, elf_symtab_string,
};
use crate::cpio_message::{decimal_string, decimal_text};
use crate::elf_io::elf_error_text;
use crate::ksyms::{KernelSymbols, lookup, normalize_symbol, spec_normalize};

verus! {

/// `SHN_UNDEF`: the section index of an undefined symbol.
pub const SHN_UNDEF: u16 = 0;

/// The size of an `Elf64_Sym` entry.
pub const ELF64_SYM_SIZE: usize = 24;

/// Why a module could not be prepared for loading.
#[derive(Debug)]
pub enum LoadError {
    /// The file is no ELF file the `elf` crate can read.
    ElfParse(ParseError),
    /// The symbol table could not be read.
    SymbolTable(ParseError),
    /// The file has no symbol table.
    NoSymbolTable,
    /// The section headers could not be searched for `.symtab`.
    SymtabSection(ParseError),
    /// No section is named `.symtab`.
    NoSymtabSection,
    /// The entries of `.symtab` are not 24 bytes long.
    BadSymbolEntrySize(usize),
    /// The offset of the entry of symbol `index` does not fit a `usize`.
    SymbolOffsetOverflow(usize),
    /// The name of an undefined symbol could not be read.
    SymbolName(ParseError),
    /// These undefined symbols (in normal form) are not kernel symbols.
    MissingSymbols(Vec<String>),
    /// The symbol entry at this offset lies outside the file.
    OffsetOutOfBounds(usize),
}

/// An undefined symbol of a module: where its entry starts in the file,
/// and its name as the string table gives it.
#[derive(Debug)]
pub struct UndefinedSymbol {
    pub offset: usize,
    pub name: String,
}

/// A rewrite of one symbol entry: the entry at `offset` becomes an
/// absolute symbol with value `addr`; `name` is the symbol's normal name.
#[derive(Debug)]
pub struct SymbolPatch {
    pub offset: usize,
    pub addr: u64,
    pub name: String,
}

/// The entries of a symbol table that name an undefined symbol: section
/// index `SHN_UNDEF` and a name other than the empty one at offset 0.
pub open spec fn is_undefined_named(e: ElfSymbolEntry) -> bool {
    e.shndx == 0 && e.name_offset != 0
}

/// For the undefined named symbols of `syms`, in order: the offset of the
/// entry (`base + index * entsize`) and the offset of its name.
pub open spec fn undefined_entries(syms: Seq<ElfSymbolEntry>, base: int, entsize: int) -> Seq<(int, u32)>
    decreases syms.len(),
{
    if syms.len() == 0 {
        Seq::empty()
    } else {
        let rest = undefined_entries(syms.drop_last(), base, entsize);
        let e = syms.last();
        if is_undefined_named(e) {
            rest.push((base + (syms.len() - 1) * entsize, e.name_offset))
        } else {
            rest
        }
    }
}

/// `p` is the entry offset and name offset of a symbol of `syms` whose
/// section index is `SHN_UNDEF` (0) and whose name offset is not 0.
pub open spec fn undefined_import(syms: Seq<ElfSymbolEntry>, base: int, entsize: int, p: (int, u32)) -> bool {
    exists|k: int|
        0 <= k < syms.len() && (#[trigger] syms[k]).shndx == 0 && syms[k].name_offset != 0 && p
            == (base + k * entsize, syms[k].name_offset)
}

/// The entries that `undefined_entries` selects are exactly the symbols
/// whose section index is `SHN_UNDEF` (0) and whose name offset is not 0:
/// each selected pair is the entry offset `base + index * entsize` and name
/// offset of such a symbol, and each such symbol is selected.  A symbol
/// defined in a section, or absolute (`SHN_ABS`) as a file symbol is, is
/// never selected.
pub proof fn law_undefined_entries_select_exactly(
    syms: Seq<ElfSymbolEntry>,
    base: int,
    entsize: int,
)
    ensures
        forall|j: int|
            0 <= j < undefined_entries(syms, base, entsize).len() ==> undefined_import(
                syms,
                base,
                entsize,
                #[trigger] undefined_entries(syms, base, entsize)[j],
            ),
        forall|k: int|
            0 <= k < syms.len() && #[trigger] syms[k].shndx == 0 && syms[k].name_offset != 0
                ==> undefined_entries(syms, base, entsize).contains(
                (base + k * entsize, syms[k].name_offset),
            ),
    decreases syms.len(),
{
    if syms.len() > 0 {
        let n = syms.len() - 1;
        let front = syms.drop_last();
        let rest = undefined_entries(front, base, entsize);
        let ue = undefined_entries(syms, base, entsize);
        law_undefined_entries_select_exactly(front, base, entsize);
        assert forall|j: int| 0 <= j < ue.len() implies undefined_import(
            syms,
            base,
            entsize,
            #[trigger] ue[j],
        ) by {
            if j < rest.len() {
                assert(ue[j] == rest[j]);
                assert(undefined_import(front, base, entsize, rest[j]));
                let k = choose|k: int|
                    0 <= k < front.len() && (#[trigger] front[k]).shndx == 0
                        && front[k].name_offset != 0 && rest[j] == (
                        base + k * entsize,
                        front[k].name_offset,
                    );
                assert(front[k] == syms[k]);
            } else {
                assert(ue[j] == (base + n * entsize, syms[n].name_offset));
                assert(syms[n].shndx == 0);
            }
        }
        assert forall|k: int|
            0 <= k < syms.len() && #[trigger] syms[k].shndx == 0 && syms[k].name_offset != 0
                implies ue.contains((base + k * entsize, syms[k].name_offset)) by {
            if k < n {
                assert(front[k] == syms[k]);
                assert(front[k].shndx == 0);
                let j = choose|j: int|
                    0 <= j < rest.len() && rest[j] == (base + k * entsize, front[k].name_offset);
                assert(ue[j] == rest[j]);
            } else {
                assert(ue[ue.len() - 1] == (base + k * entsize, syms[k].name_offset));
            }
        }
    } else {
        assert(undefined_entries(syms, base, entsize).len() == 0);
    }
}

/// The index of the first undefined named symbol of `syms`, from index `k`
/// on, whose entry offset `base + index * entsize` exceeds `usize::MAX`.
pub open spec fn first_overflow(syms: Seq<ElfSymbolEntry>, base: int, entsize: int, k: int) -> Option<
    int,
>
    decreases syms.len() - k,
{
    if k < 0 || k >= syms.len() {
        None
    } else if is_undefined_named(syms[k]) && base + k * entsize > usize::MAX {
        Some(k)
    } else {
        first_overflow(syms, base, entsize, k + 1)
    }
}

/// The undefined named symbols of `syms`, in order, with the offsets of
/// their entries, `base + index * entsize`; `Err(SymbolOffsetOverflow(i))`
/// for the first such symbol `i` whose offset does not fit a `usize`.
pub fn undefined_symbol_entries(syms: &[ElfSymbolEntry], base: usize, entsize: usize) -> (r: Result<
    Vec<(usize, u32)>,
    LoadError,
>)
    ensures
        match first_overflow(syms@, base as int, entsize as int, 0) {
            None => r matches Ok(v) && v@.map_values(|p: (usize, u32)| (p.0 as int, p.1))
                == undefined_entries(syms@, base as int, entsize as int),
            Some(i) => r matches Err(LoadError::SymbolOffsetOverflow(j)) && j == i,
        },
{
    let ghost first = first_overflow(syms@, base as int, entsize as int, 0);
    let mut out: Vec<(usize, u32)> = Vec::new();
    assert(syms@.take(0) =~= Seq::<ElfSymbolEntry>::empty());
    let mut i: usize = 0;
    while i < syms.len()
        invariant
            i <= syms@.len(),
            first == first_overflow(syms@, base as int, entsize as int, 0),
            first == first_overflow(syms@, base as int, entsize as int, i as int),
            out@.map_values(|p: (usize, u32)| (p.0 as int, p.1)) == undefined_entries(
                syms@.take(i as int),
                base as int,
                entsize as int,
            ),
        decreases syms@.len() - i,
    {
        let e = syms[i];
        let ghost prev = out@.map_values(|p: (usize, u32)| (p.0 as int, p.1));
        assert(syms@.take(i as int + 1).drop_last() =~= syms@.take(i as int));
        if e.shndx == SHN_UNDEF && e.name_offset != 0 {
            let off = match i.checked_mul(entsize) {
                Some(m) => m.checked_add(base),
                None => None,
            };
            match off {
                Some(o) => {
                    out.push((o, e.name_offset));
                    assert(out@.map_values(|p: (usize, u32)| (p.0 as int, p.1)) =~= prev.push(
                        (o as int, e.name_offset),
                    ));
                },
                None => {
                    assert(base + i * entsize > usize::MAX) by (nonlinear_arith)
                        requires
                            (i * entsize > usize::MAX) || (i * entsize <= usize::MAX && i
                                * entsize + base > usize::MAX);
                    assert(first_overflow(syms@, base as int, entsize as int, i as int) == Some(
                        i as int,
                    ));
                    return Err(LoadError::SymbolOffsetOverflow(i));
                },
            }
        }
        i = i + 1;
    }
    assert(syms@.take(i as int) =~= syms@);
    Ok(out)
}

/// The normal form of a symbol name, as bytes.
pub open spec fn normal_name(name: Seq<char>) -> Seq<u8> {
    spec_normalize(encode_utf8(name))
}

/// The plain value of a list of undefined symbols: entry offsets and names.
pub open spec fn undefined_view(us: Seq<UndefinedSymbol>) -> Seq<(int, Seq<char>)> {
    us.map_values(|u: UndefinedSymbol| (u.offset as int, u.name@))
}

/// The normal names, in order, of the symbols of `us` that the kernel
/// symbols `recs` do not hold.
pub open spec fn missing_names(us: Seq<(int, Seq<char>)>, recs: Seq<(Seq<u8>, u64)>) -> Seq<
    Seq<char>,
>
    decreases us.len(),
{
    if us.len() == 0 {
        Seq::empty()
    } else {
        let rest = missing_names(us.drop_last(), recs);
        let n = normal_name(us.last().1);
        if lookup(recs, n) is None {
            rest.push(decode_utf8(n))
        } else {
            rest
        }
    }
}

/// For the symbols of `us` that the kernel symbols `recs` hold, in order:
/// the entry offset and the kernel address.
pub open spec fn patches_for(us: Seq<(int, Seq<char>)>, recs: Seq<(Seq<u8>, u64)>) -> Seq<
    (int, u64),
>
    decreases us.len(),
{
    if us.len() == 0 {
        Seq::empty()
    } else {
        let rest = patches_for(us.drop_last(), recs);
        match lookup(recs, normal_name(us.last().1)) {
            Some(a) => rest.push((us.last().0, a)),
            None => rest,
        }
    }
}

/// The plain value of a list of patches.
pub open spec fn patches_view(ps: Seq<SymbolPatch>) -> Seq<(int, u64)> {
    ps.map_values(|p: SymbolPatch| (p.offset as int, p.addr))
}

/// The normal names, in order, of the symbols of `us` that the kernel
/// symbols `recs` hold.
pub open spec fn bound_names(us: Seq<(int, Seq<char>)>, recs: Seq<(Seq<u8>, u64)>) -> Seq<
    Seq<char>,
>
    decreases us.len(),
{
    if us.len() == 0 {
        Seq::empty()
    } else {
        let rest = bound_names(us.drop_last(), recs);
        let n = normal_name(us.last().1);
        if lookup(recs, n) is Some {
            rest.push(decode_utf8(n))
        } else {
            rest
        }
    }
}

/// The names of a list of patches.
pub open spec fn patch_names_view(ps: Seq<SymbolPatch>) -> Seq<Seq<char>> {
    ps.map_values(|p: SymbolPatch| p.name@)
}

/// The plain value of a list of names.
pub open spec fn names_view(ns: Seq<String>) -> Seq<Seq<char>> {
    ns.map_values(|n: String| n@)
}

/// Looks up every undefined symbol, by its normal name, among the kernel
/// symbols: the patches for all of them, or, when some are not kernel
/// symbols, the normal names of those.
pub fn plan_symbol_patches(undefined: &[UndefinedSymbol], ksyms: &KernelSymbols) -> (r: Result<
    Vec<SymbolPatch>,
    LoadError,
>)
    ensures
        match r {
            Ok(ps) => missing_names(undefined_view(undefined@), ksyms.records()).len() == 0
                && patches_view(ps@) == patches_for(undefined_view(undefined@), ksyms.records())
                && patch_names_view(ps@) == bound_names(undefined_view(undefined@), ksyms.records()),
            Err(LoadError::MissingSymbols(names)) => missing_names(
                undefined_view(undefined@),
                ksyms.records(),
            ).len() > 0 && names_view(names@) == missing_names(
                undefined_view(undefined@),
                ksyms.records(),
            ),
            Err(_) => false,
        },
{
    let ghost recs = ksyms.records();
    let mut patches: Vec<SymbolPatch> = Vec::new();
    let mut missing: Vec<String> = Vec::new();
    let mut i: usize = 0;
    while i < undefined.len()
        invariant
            i <= undefined@.len(),
            recs == ksyms.records(),
            patches_view(patches@) == patches_for(undefined_view(undefined@).take(i as int), recs),
            patch_names_view(patches@) == bound_names(undefined_view(undefined@).take(i as int), recs),
            names_view(missing@) == missing_names(undefined_view(undefined@).take(i as int), recs),
        decreases undefined@.len() - i,
    {
        let u = &undefined[i];
        let ghost us = undefined_view(undefined@).take(i as int + 1);
        assert(us.drop_last() =~= undefined_view(undefined@).take(i as int));
        assert(us.last() == (u.offset as int, u.name@));
        let name = normalize_symbol(u.name.as_str());
        let ghost pv = patches_view(patches@);
        let ghost nv = patch_names_view(patches@);
        let ghost mv = names_view(missing@);
        match ksyms.get(name.as_str().as_bytes()) {
            Some(addr) => {
                proof {
                    encode_utf8_decode_utf8(name@);
                }
                let ghost n = name@;
                patches.push(SymbolPatch { offset: u.offset, addr, name });
                assert(patches_view(patches@) =~= pv.push((u.offset as int, addr)));
                assert(patch_names_view(patches@) =~= nv.push(n));
            },
            None => {
                proof {
                    encode_utf8_decode_utf8(name@);
                }
                missing.push(name);
                assert(names_view(missing@) =~= mv.push(decode_utf8(normal_name(u.name@))));
            },
        }
        i = i + 1;
    }
    assert(undefined_view(undefined@).take(i as int) =~= undefined_view(undefined@));
    if missing.len() > 0 {
        return Err(LoadError::MissingSymbols(missing));
    }
    Ok(patches)
}

/// Byte `k` (from the least significant) of `addr`: `addr.to_le_bytes()[k]`.
pub open spec fn le_byte(addr: u64, k: int) -> u8 {
    ((addr >> ((8 * k) as u64)) & 0xff) as u8
}

/// `d` with the symbol entry at `off` made absolute with value `addr`:
/// bytes 6..8 (`st_shndx`) hold `SHN_ABS` (0xfff1, little-endian) and bytes 8..16 (`st_value`)
/// hold `addr`, little-endian; every other byte is kept.
pub open spec fn patch_entry(d: Seq<u8>, off: int, addr: u64) -> Seq<u8> {
    Seq::new(
        d.len(),
        |j: int|
            if j == off + 6 {
                0xf1u8
            } else if j == off + 7 {
                0xffu8
            } else if off + 8 <= j < off + 16 {
                le_byte(addr, j - off - 8)
            } else {
                d[j]
            },
    )
}

/// `d` with the patches `ps` made, in order.
pub open spec fn apply_patches(d: Seq<u8>, ps: Seq<(int, u64)>) -> Seq<u8>
    decreases ps.len(),
{
    if ps.len() == 0 {
        d
    } else {
        patch_entry(apply_patches(d, ps.drop_last()), ps.last().0, ps.last().1)
    }
}

/// The first patch from `k` on whose entry does not lie whole within
/// `len` bytes, or `ps.len()` when there is none.
pub open spec fn first_out_of_bounds(len: int, ps: Seq<(int, u64)>, k: int) -> int
    decreases ps.len() - k,
{
    if k < 0 || k >= ps.len() {
        ps.len() as int
    } else if ps[k].0 + 24 > len {
        k
    } else {
        first_out_of_bounds(len, ps, k + 1)
    }
}

proof fn lemma_first_out_of_bounds_le(len: int, ps: Seq<(int, u64)>, k: int)
    requires
        0 <= k,
    ensures
        first_out_of_bounds(len, ps, k) <= ps.len(),
        k <= ps.len() ==> k <= first_out_of_bounds(len, ps, k),
    decreases ps.len() - k,
{
    if k < ps.len() {
        lemma_first_out_of_bounds_le(len, ps, k + 1);
    }
}

/// Makes the patches, in order.  A patch whose 24-byte entry does not lie
/// within `data` stops the work with `OffsetOutOfBounds`, the patches
/// before it made.
pub fn apply_symbol_patches(data: &mut Vec<u8>, patches: &[SymbolPatch]) -> (r: Result<
    (),
    LoadError,
>)
    ensures
        final(data)@.len() == old(data)@.len(),
        r is Err ==> r->Err_0 is OffsetOutOfBounds,
        ({
            let ps = patches_view(patches@);
            let k = first_out_of_bounds(old(data)@.len() as int, ps, 0);
            &&& k == ps.len() ==> r is Ok && final(data)@ == apply_patches(old(data)@, ps)
            &&& k < ps.len() ==> (r matches Err(LoadError::OffsetOutOfBounds(o)) && o == ps[k].0
                && final(data)@ == apply_patches(old(data)@, ps.take(k)))
        }),
{
    let ghost ps = patches_view(patches@);
    let ghost start = data@;
    let len = data.len();
    let mut i: usize = 0;
    assert(ps.take(0) =~= Seq::<(int, u64)>::empty());
    while i < patches.len()
        invariant
            i <= patches@.len(),
            ps == patches_view(patches@),
            start == old(data)@,
            len == start.len(),
            data@.len() == len,
            data@ == apply_patches(start, ps.take(i as int)),
            first_out_of_bounds(len as int, ps, 0) == first_out_of_bounds(len as int, ps, i as int),
        decreases patches@.len() - i,
    {
        let p = &patches[i];
        assert(ps[i as int] == (p.offset as int, p.addr));
        if p.offset > len || len - p.offset < 24 {
            assert(first_out_of_bounds(len as int, ps, i as int) == i as int);
            return Err(LoadError::OffsetOutOfBounds(p.offset));
        }
        let ghost before = data@;
        let off = p.offset;
        data.set(off + 6, 0xf1);
        data.set(off + 7, 0xff);
        let mut k: usize = 0;
        while k < 8
            invariant
                k <= 8,
                off + 24 <= len,
                data@.len() == len,
                before.len() == len,
                forall|j: int|
                    0 <= j < len ==> #[trigger] data@[j] == if j == off + 6 {
                        0xf1u8
                    } else if j == off + 7 {
                        0xffu8
                    } else if off + 8 <= j < off + 8 + k {
                        le_byte(p.addr, j - off - 8)
                    } else {
                        before[j]
                    },
            decreases 8 - k,
        {
            let shift: u64 = 8 * k as u64;
            let byte = ((p.addr >> shift) & 0xff) as u8;
            data.set(off + 8 + k, byte);
            k = k + 1;
        }
        assert(first_out_of_bounds(len as int, ps, i as int) == first_out_of_bounds(
            len as int,
            ps,
            i as int + 1,
        ));
        let ghost next = ps.take(i as int + 1);
        assert(next.drop_last() =~= ps.take(i as int));
        assert(data@ =~= patch_entry(before, off as int, p.addr));
        i = i + 1;
    }
    assert(ps.take(i as int) =~= ps);
    Ok(())
}

/// Every undefined symbol is either bound or reported missing: the
/// patches and the missing names together number the symbols.
pub proof fn law_every_symbol_bound_or_missing(us: Seq<(int, Seq<char>)>, recs: Seq<(Seq<u8>, u64)>)
    ensures
        patches_for(us, recs).len() + missing_names(us, recs).len() == us.len(),
    decreases us.len(),
{
    if us.len() > 0 {
        law_every_symbol_bound_or_missing(us.drop_last(), recs);
    }
}

/// A patch changes the bytes of its entry's `st_shndx` and `st_value`
/// fields (bytes 6 to 16 of the entry) and no other byte.
pub open spec fn in_patched_field(ps: Seq<(int, u64)>, j: int) -> bool {
    exists|k: int| 0 <= k < ps.len() && #[trigger] ps[k].0 + 6 <= j < ps[k].0 + 16
}

/// Patching keeps the length of the file and every byte outside the
/// `st_shndx` and `st_value` fields of the patched entries.
pub proof fn law_patches_touch_only_patched_fields(d: Seq<u8>, ps: Seq<(int, u64)>, j: int)
    requires
        0 <= j < d.len(),
        !in_patched_field(ps, j),
    ensures
        apply_patches(d, ps).len() == d.len(),
        apply_patches(d, ps)[j] == d[j],
    decreases ps.len(),
{
    if ps.len() > 0 {
        assert(!in_patched_field(ps.drop_last(), j)) by {
            if in_patched_field(ps.drop_last(), j) {
                let k = choose|k: int|
                    0 <= k < ps.drop_last().len() && #[trigger] ps.drop_last()[k].0 + 6 <= j
                        < ps.drop_last()[k].0 + 16;
                assert(ps[k] == ps.drop_last()[k]);
            }
        }
        law_patches_touch_only_patched_fields(d, ps.drop_last(), j);
        let last = ps.last();
        assert(!(last.0 + 6 <= j < last.0 + 16)) by {
            if last.0 + 6 <= j < last.0 + 16 {
                assert(0 <= ps.len() - 1 < ps.len() && ps[ps.len() - 1].0 + 6 <= j < ps[ps.len() - 1].0 + 16);
            }
        }
    }
}

proof fn lemma_apply_patches_len(d: Seq<u8>, ps: Seq<(int, u64)>)
    ensures
        apply_patches(d, ps).len() == d.len(),
    decreases ps.len(),
{
    if ps.len() > 0 {
        lemma_apply_patches_len(d, ps.drop_last());
    }
}

/// The entry at `off` of `d` is an absolute symbol with value `addr`: its
/// `st_shndx` bytes hold `SHN_ABS` and its `st_value` bytes hold `addr`,
/// little-endian.
pub open spec fn entry_is_absolute(d: Seq<u8>, off: int, addr: u64) -> bool {
    &&& d[off + 6] == 0xf1u8
    &&& d[off + 7] == 0xffu8
    &&& forall|b: int| 0 <= b < 8 ==> #[trigger] d[off + 8 + b] == le_byte(addr, b)
}

/// After the patches are made, the entry of each patch is an absolute
/// symbol with the patch's address, as long as no other patch writes into
/// its `st_shndx` and `st_value` fields.
pub proof fn law_patched_entries_read_back(d: Seq<u8>, ps: Seq<(int, u64)>, k: int)
    requires
        0 <= k < ps.len(),
        0 <= ps[k].0,
        ps[k].0 + 16 <= d.len(),
        forall|i: int|
            0 <= i < ps.len() && i != k ==> #[trigger] ps[i].0 + 16 <= ps[k].0 + 6 || ps[k].0 + 16
                <= ps[i].0 + 6,
    ensures
        apply_patches(d, ps).len() == d.len(),
        entry_is_absolute(apply_patches(d, ps), ps[k].0, ps[k].1),
    decreases ps.len(),
{
    lemma_apply_patches_len(d, ps);
    let last = ps.len() - 1;
    let inner = apply_patches(d, ps.drop_last());
    lemma_apply_patches_len(d, ps.drop_last());
    if k < last {
        assert forall|i: int|
            0 <= i < ps.drop_last().len() && i != k implies #[trigger] ps.drop_last()[i].0 + 16
            <= ps.drop_last()[k].0 + 6 || ps.drop_last()[k].0 + 16 <= ps.drop_last()[i].0 + 6 by {
            assert(ps.drop_last()[i] == ps[i]);
        }
        law_patched_entries_read_back(d, ps.drop_last(), k);
        assert(ps.drop_last()[k] == ps[k]);
        assert(ps[last].0 + 16 <= ps[k].0 + 6 || ps[k].0 + 16 <= ps[last].0 + 6);
        assert forall|b: int| 0 <= b < 8 implies #[trigger] apply_patches(d, ps)[ps[k].0 + 8 + b]
            == le_byte(ps[k].1, b) by {
            assert(inner[ps[k].0 + 8 + b] == le_byte(ps[k].1, b));
        }
    }
}

/// How reading the undefined symbols of a module fails, by kind: the
/// variants of [`LoadError`] that `read_undefined_symbols` gives, without
/// the `elf` crate's error values.
pub enum ReadFailure {
    ElfParse,
    SymbolTable,
    NoSymbolTable,
    SymtabSection,
    NoSymtabSection,
    BadSymbolEntrySize(usize),
    SymbolOffsetOverflow(usize),
    SymbolName,
}

/// `e` is an error of the kind `f`.
pub open spec fn failure_is(e: LoadError, f: ReadFailure) -> bool {
    match f {
        ReadFailure::ElfParse => e is ElfParse,
        ReadFailure::SymbolTable => e is SymbolTable,
        ReadFailure::NoSymbolTable => e is NoSymbolTable,
        ReadFailure::SymtabSection => e is SymtabSection,
        ReadFailure::NoSymtabSection => e is NoSymtabSection,
        ReadFailure::BadSymbolEntrySize(n) => e matches LoadError::BadSymbolEntrySize(m) && m == n,
        ReadFailure::SymbolOffsetOverflow(i) => e matches LoadError::SymbolOffsetOverflow(j) && j
            == i,
        ReadFailure::SymbolName => e is SymbolName,
    }
}

/// The symbol table entries `s` as [`ElfSymbolEntry`] values.
pub open spec fn entries_of(s: Seq<(u16, u32)>) -> Seq<ElfSymbolEntry> {
    s.map_values(|p: (u16, u32)| ElfSymbolEntry { shndx: p.0, name_offset: p.1 })
}

/// The entries `es` (entry offset, name offset) with their names read
/// from the string table of the symbol table of `file`, in order; `None`
/// when a name cannot be read.
pub open spec fn read_names(file: Seq<u8>, es: Seq<(int, u32)>) -> Option<Seq<(int, Seq<char>)>>
    decreases es.len(),
{
    if es.len() == 0 {
        Some(Seq::empty())
    } else {
        match read_names(file, es.drop_last()) {
            None => None,
            Some(prev) => match elf_symtab_string(file, es.last().1 as usize) {
                Ok(name) => Some(prev.push((es.last().0, name))),
                Err(_) => None,
            },
        }
    }
}

/// The undefined named symbols of the ELF file `file`, by entry offset
/// and name, or how reading them fails: the file must parse, have a symbol
/// table and a section named `.symtab` whose entries are 24 bytes long,
/// every undefined named symbol's entry offset must fit a `usize`, and
/// every such symbol's name must be readable.
pub open spec fn undefined_symbols_of(file: Seq<u8>) -> Result<Seq<(int, Seq<char>)>, ReadFailure> {
    if !elf_parses(file) {
        Err(ReadFailure::ElfParse)
    } else {
        match elf_symbol_table_found(file) {
            Err(_) => Err(ReadFailure::SymbolTable),
            Ok(false) => Err(ReadFailure::NoSymbolTable),
            Ok(true) => match elf_section_by_name(file, ".symtab"@) {
                Err(_) => Err(ReadFailure::SymtabSection),
                Ok(None) => Err(ReadFailure::NoSymtabSection),
                Ok(Some(header)) => {
                    let base = header.0 as usize;
                    let entsize = header.1 as usize;
                    if entsize != ELF64_SYM_SIZE {
                        Err(ReadFailure::BadSymbolEntrySize(entsize))
                    } else {
                        let syms = entries_of(elf_symtab_entries(file));
                        match first_overflow(syms, base as int, entsize as int, 0) {
                            Some(i) => Err(ReadFailure::SymbolOffsetOverflow(i as usize)),
                            None => match read_names(
                                file,
                                undefined_entries(syms, base as int, entsize as int),
                            ) {
                                Some(us) => Ok(us),
                                None => Err(ReadFailure::SymbolName),
                            },
                        }
                    }
                },
            },
        }
    }
}

proof fn lemma_read_names_stays_none(file: Seq<u8>, es: Seq<(int, u32)>, j: int, k: int)
    requires
        0 <= j <= k <= es.len(),
        read_names(file, es.take(j)) is None,
    ensures
        read_names(file, es.take(k)) is None,
    decreases k - j,
{
    if j < k {
        lemma_read_names_stays_none(file, es, j, k - 1);
        assert(es.take(k).drop_last() =~= es.take(k - 1));
    }
}

/// Reads the undefined named symbols of the module `data`: the file is
/// parsed, its symbol table and the `.symtab` section header are found,
/// the entries must be 24 bytes long, and the name of each undefined named
/// symbol is read from the symbol table's string table; the outcome is
/// `undefined_symbols_of(data)`.
pub fn read_undefined_symbols(data: &[u8]) -> (r: Result<Vec<UndefinedSymbol>, LoadError>)
    ensures
        match undefined_symbols_of(data@) {
            Ok(us) => r matches Ok(v) && undefined_view(v@) == us,
            Err(f) => r matches Err(e) && failure_is(e, f),
        },
{
    let file = match elf_minimal_parse(data) {
        Ok(f) => f,
        Err(e) => {
            return Err(LoadError::ElfParse(e));
        },
    };
    let (symtab, strtab) = match elf_symbol_table(&file) {
        Ok(Some(tables)) => tables,
        Ok(None) => {
            return Err(LoadError::NoSymbolTable);
        },
        Err(e) => {
            return Err(LoadError::SymbolTable(e));
        },
    };
    let header = match elf_section_header_by_name(&file, ".symtab") {
        Ok(Some(h)) => h,
        Ok(None) => {
            return Err(LoadError::NoSymtabSection);
        },
        Err(e) => {
            return Err(LoadError::SymtabSection(e));
        },
    };
    let base = header.0 as usize;
    let entry_size = header.1 as usize;
    if entry_size != ELF64_SYM_SIZE {
        return Err(LoadError::BadSymbolEntrySize(entry_size));
    }
    let syms = elf_symbol_entries(&symtab);
    let ghost all = entries_of(elf_symtab_entries(data@));
    assert(syms@ =~= all);
    let entries = match undefined_symbol_entries(syms.as_slice(), base, entry_size) {
        Ok(v) => v,
        Err(e) => {
            return Err(e);
        },
    };
    let ghost es = entries@.map_values(|p: (usize, u32)| (p.0 as int, p.1));
    let ghost outcome = match read_names(data@, es) {
        Some(us) => Ok(us),
        None => Err(ReadFailure::SymbolName),
    };
    assert(undefined_symbols_of(data@) == outcome);
    let mut out: Vec<UndefinedSymbol> = Vec::new();
    let mut i: usize = 0;
    assert(es.take(0) =~= Seq::<(int, u32)>::empty());
    assert(undefined_view(out@) =~= Seq::<(int, Seq<char>)>::empty());
    while i < entries.len()
        invariant
            i <= entries@.len(),
            es == entries@.map_values(|p: (usize, u32)| (p.0 as int, p.1)),
            strtab@ == data@,
            undefined_symbols_of(data@) == outcome,
            outcome == match read_names(data@, es) {
                Some(us) => Ok(us),
                None => Err(ReadFailure::SymbolName),
            },
            read_names(data@, es.take(i as int)) == Some(undefined_view(out@)),
        decreases entries@.len() - i,
    {
        let (off, name_offset) = entries[i];
        assert(es.take(i as int + 1).drop_last() =~= es.take(i as int));
        assert(es.take(i as int + 1).last() == (off as int, name_offset));
        let name = match elf_strtab_get(&strtab, name_offset as usize) {
            Ok(n) => n,
            Err(e) => {
                proof {
                    lemma_read_names_stays_none(data@, es, i as int + 1, es.len() as int);
                    assert(es.take(es.len() as int) =~= es);
                }
                return Err(LoadError::SymbolName(e));
            },
        };
        let ghost prev = undefined_view(out@);
        out.push(UndefinedSymbol { offset: off, name: name.to_owned() });
        assert(undefined_view(out@) =~= prev.push((off as int, name@)));
        i = i + 1;
    }
    assert(es.take(i as int) =~= es);
    Ok(out)
}

/// Binds the undefined symbols of the module `data` to the kernel's
/// addresses, rewriting their entries in place: `read_undefined_symbols`,
/// then `plan_symbol_patches`, then `apply_symbol_patches`; on success,
/// the patches made, in order.  When reading or planning fails, `data` is
/// unchanged.
pub fn prepare_module(data: &mut Vec<u8>, ksyms: &KernelSymbols) -> (r: Result<
    Vec<SymbolPatch>,
    LoadError,
>)
    ensures
        final(data)@.len() == old(data)@.len(),
        match undefined_symbols_of(old(data)@) {
            Err(f) => r matches Err(e) && failure_is(e, f) && final(data)@ == old(data)@,
            Ok(us) => {
                let recs = ksyms.records();
                let missing = missing_names(us, recs);
                let ps = patches_for(us, recs);
                let k = first_out_of_bounds(old(data)@.len() as int, ps, 0);
                if missing.len() > 0 {
                    &&& r matches Err(LoadError::MissingSymbols(names)) && names_view(names@)
                        == missing
                    &&& final(data)@ == old(data)@
                } else if k == ps.len() {
                    &&& r matches Ok(made) && patches_view(made@) == ps && patch_names_view(made@)
                        == bound_names(us, recs)
                    &&& final(data)@ == apply_patches(old(data)@, ps)
                } else {
                    &&& r matches Err(LoadError::OffsetOutOfBounds(o)) && o == ps[k].0
                    &&& final(data)@ == apply_patches(old(data)@, ps.take(k))
                }
            },
        },
{
    let undefined = match read_undefined_symbols(data.as_slice()) {
        Ok(u) => u,
        Err(e) => {
            return Err(e);
        },
    };
    let ghost us = undefined_view(undefined@);
    assert(undefined_symbols_of(old(data)@) == Ok::<Seq<(int, Seq<char>)>, ReadFailure>(us));
    let patches = match plan_symbol_patches(undefined.as_slice(), ksyms) {
        Ok(p) => p,
        Err(e) => {
            return Err(e);
        },
    };
    let ghost ps = patches_for(us, ksyms.records());
    assert(missing_names(us, ksyms.records()).len() == 0);
    assert(patches_view(patches@) == ps);
    let r = apply_symbol_patches(data, patches.as_slice());
    proof {
        let k = first_out_of_bounds(old(data)@.len() as int, ps, 0);
        lemma_first_out_of_bounds_le(old(data)@.len() as int, ps, 0);
        if k == ps.len() {
            assert(r is Ok && final(data)@ == apply_patches(old(data)@, ps));
        } else {
            assert(r matches Err(LoadError::OffsetOutOfBounds(o)) && o == ps[k].0);
        }
    }
    match r {
        Ok(()) => Ok(patches),
        Err(e) => Err(e),
    }
}

/// The entries of `s` lie in order, each offset at least `gap` past the
/// one before.
pub open spec fn spaced<A>(s: Seq<(int, A)>, gap: int) -> bool {
    forall|i: int, j: int| #![trigger s[i], s[j]] 0 <= i < j < s.len() ==> s[i].0 + gap <= s[j].0
}

/// Every offset of `s` lies in `lo..=hi`.
pub open spec fn offsets_within<A>(s: Seq<(int, A)>, lo: int, hi: int) -> bool {
    forall|i: int| 0 <= i < s.len() ==> lo <= #[trigger] s[i].0 <= hi
}

proof fn lemma_undefined_entries_spaced(syms: Seq<ElfSymbolEntry>, base: int, entsize: int)
    requires
        base >= 0,
        entsize >= 0,
    ensures
        spaced(undefined_entries(syms, base, entsize), entsize),
        offsets_within(
            undefined_entries(syms, base, entsize),
            base,
            base + (syms.len() - 1) * entsize,
        ),
    decreases syms.len(),
{
    if syms.len() > 0 {
        let n = syms.len() - 1;
        let rest = undefined_entries(syms.drop_last(), base, entsize);
        lemma_undefined_entries_spaced(syms.drop_last(), base, entsize);
        assert((n - 1) * entsize + entsize == n * entsize && 0 <= (n - 1) * entsize + entsize
            && (n - 1) * entsize <= n * entsize) by (nonlinear_arith)
            requires
                n >= 0,
                entsize >= 0,
        ;
        if n == 0 {
            assert(rest.len() == 0);
        }
    }
}

proof fn lemma_read_names_offsets(file: Seq<u8>, es: Seq<(int, u32)>)
    requires
        read_names(file, es) is Some,
    ensures
        read_names(file, es)->Some_0.len() == es.len(),
        forall|i: int| 0 <= i < es.len() ==> #[trigger] read_names(file, es)->Some_0[i].0 == es[i].0,
    decreases es.len(),
{
    if es.len() > 0 {
        lemma_read_names_offsets(file, es.drop_last());
    }
}

proof fn lemma_all_bound(us: Seq<(int, Seq<char>)>, recs: Seq<(Seq<u8>, u64)>)
    requires
        missing_names(us, recs).len() == 0,
    ensures
        patches_for(us, recs).len() == us.len(),
        forall|i: int| 0 <= i < us.len() ==> #[trigger] lookup(recs, normal_name(us[i].1)) is Some,
        forall|i: int|
            0 <= i < us.len() ==> #[trigger] patches_for(us, recs)[i] == (
                us[i].0,
                lookup(recs, normal_name(us[i].1))->Some_0,
            ),
    decreases us.len(),
{
    if us.len() > 0 {
        let n = us.len() - 1;
        assert(lookup(recs, normal_name(us.last().1)) is Some);
        lemma_all_bound(us.drop_last(), recs);
        let rest = patches_for(us.drop_last(), recs);
        assert forall|i: int| 0 <= i < us.len() implies #[trigger] lookup(
            recs,
            normal_name(us[i].1),
        ) is Some by {
            if i < n {
                assert(us.drop_last()[i] == us[i]);
            }
        }
        assert forall|i: int| 0 <= i < us.len() implies #[trigger] patches_for(us, recs)[i] == (
            us[i].0,
            lookup(recs, normal_name(us[i].1))->Some_0,
        ) by {
            if i < n {
                assert(us.drop_last()[i] == us[i]);
                assert(patches_for(us, recs)[i] == rest[i]);
            }
        }
    }
}

proof fn lemma_in_bounds(len: int, ps: Seq<(int, u64)>, j: int, k: int)
    requires
        0 <= j <= k < ps.len(),
        first_out_of_bounds(len, ps, j) == ps.len(),
    ensures
        ps[k].0 + 24 <= len,
    decreases k - j,
{
    if j < k {
        lemma_in_bounds(len, ps, j + 1, k);
    }
}

/// Once a module has been prepared, every one of its undefined symbols is,
/// in the patched file, an absolute symbol whose value is the kernel's
/// address for the symbol's normal name.
pub proof fn law_prepared_symbols_read_back(file: Seq<u8>, recs: Seq<(Seq<u8>, u64)>, i: int)
    requires
        undefined_symbols_of(file) is Ok,
        missing_names(undefined_symbols_of(file)->Ok_0, recs).len() == 0,
        first_out_of_bounds(file.len() as int, patches_for(undefined_symbols_of(file)->Ok_0, recs), 0)
            == patches_for(undefined_symbols_of(file)->Ok_0, recs).len(),
        0 <= i < undefined_symbols_of(file)->Ok_0.len(),
    ensures
        ({
            let us = undefined_symbols_of(file)->Ok_0;
            lookup(recs, normal_name(us[i].1)) matches Some(addr) && entry_is_absolute(
                apply_patches(file, patches_for(us, recs)),
                us[i].0,
                addr,
            )
        }),
{
    let us = undefined_symbols_of(file)->Ok_0;
    let ps = patches_for(us, recs);
    let header = elf_section_by_name(file, ".symtab"@)->Ok_0->Some_0;
    let base = header.0 as usize;
    let syms = entries_of(elf_symtab_entries(file));
    let es = undefined_entries(syms, base as int, 24);
    assert(read_names(file, es) == Some(us));
    lemma_undefined_entries_spaced(syms, base as int, 24);
    lemma_read_names_offsets(file, es);
    lemma_all_bound(us, recs);
    lemma_in_bounds(file.len() as int, ps, 0, i);
    assert forall|j: int|
        0 <= j < ps.len() && j != i implies #[trigger] ps[j].0 + 16 <= ps[i].0 + 6 || ps[i].0 + 16
        <= ps[j].0 + 6 by {
        assert(ps[j].0 == es[j].0 && ps[i].0 == es[i].0);
        if j < i {
            assert(es[j].0 + 24 <= es[i].0);
        } else {
            assert(es[i].0 + 24 <= es[j].0);
        }
    }
    assert(ps[i].0 == es[i].0 && 0 <= es[i].0);
    law_patched_entries_read_back(file, ps, i);
}

/// The names `ns` joined with `", "` between them.
pub open spec fn join_names(ns: Seq<Seq<char>>) -> Seq<char>
    decreases ns.len(),
{
    if ns.len() == 0 {
        Seq::empty()
    } else if ns.len() == 1 {
        ns[0]
    } else {
        join_names(ns.drop_last()) + ", "@ + ns.last()
    }
}

/// The text of a module loading error.  For the errors that carry an
/// error of the `elf` crate, the text is a fixed lead followed by that
/// error's own text.
pub open spec fn load_error_text(e: LoadError, m: Seq<char>) -> bool {
    match e {
        LoadError::ElfParse(_) => exists|t: Seq<char>| m == #[trigger] ("failed to parse ELF: "@ + t),
        LoadError::SymbolTable(_) => exists|t: Seq<char>|
            m == #[trigger] ("failed to get symbol table: "@ + t),
        LoadError::NoSymbolTable => m == "no symbol table found"@,
        LoadError::SymtabSection(_) => exists|t: Seq<char>|
            m == #[trigger] ("failed to find .symtab section: "@ + t),
        LoadError::NoSymtabSection => m == ".symtab section not found"@,
        LoadError::BadSymbolEntrySize(n) => m == "unexpected Elf64_Sym size: "@ + decimal_text(
            n as nat,
        ),
        LoadError::SymbolOffsetOverflow(i) => m == "symbol "@ + decimal_text(i as nat)
            + " offset overflows"@,
        LoadError::SymbolName(_) => exists|t: Seq<char>|
            m == #[trigger] ("failed to get symbol name: "@ + t),
        LoadError::MissingSymbols(names) => m == "missing symbols: "@ + join_names(
            names_view(names@),
        ),
        LoadError::OffsetOutOfBounds(o) => m == "symbol offset "@ + decimal_text(o as nat)
            + " out of bounds"@,
    }
}

impl LoadError {
    /// The text of the error: what loading a module reports.
    pub fn message(&self) -> (m: String)
        ensures
            load_error_text(*self, m@),
    {
        match self {
            LoadError::ElfParse(e) => {
                let mut m = String::from_str("failed to parse ELF: ");
                let t = elf_error_text(e);
                m.append(t.as_str());
                assert(m@ == "failed to parse ELF: "@ + t@);
                m
            },
            LoadError::SymbolTable(e) => {
                let mut m = String::from_str("failed to get symbol table: ");
                let t = elf_error_text(e);
                m.append(t.as_str());
                assert(m@ == "failed to get symbol table: "@ + t@);
                m
            },
            LoadError::NoSymbolTable => String::from_str("no symbol table found"),
            LoadError::SymtabSection(e) => {
                let mut m = String::from_str("failed to find .symtab section: ");
                let t = elf_error_text(e);
                m.append(t.as_str());
                assert(m@ == "failed to find .symtab section: "@ + t@);
                m
            },
            LoadError::NoSymtabSection => String::from_str(".symtab section not found"),
            LoadError::BadSymbolEntrySize(n) => {
                let mut m = String::from_str("unexpected Elf64_Sym size: ");
                let d = decimal_string(*n);
                m.append(d.as_str());
                m
            },
            LoadError::SymbolOffsetOverflow(i) => {
                let mut m = String::from_str("symbol ");
                let d = decimal_string(*i);
                m.append(d.as_str());
                m.append(" offset overflows");
                m
            },
            LoadError::SymbolName(e) => {
                let mut m = String::from_str("failed to get symbol name: ");
                let t = elf_error_text(e);
                m.append(t.as_str());
                assert(m@ == "failed to get symbol name: "@ + t@);
                m
            },
            LoadError::MissingSymbols(names) => {
                let mut m = String::from_str("missing symbols: ");
                let ghost lead = m@;
                let mut i: usize = 0;
                while i < names.len()
                    invariant
                        i <= names@.len(),
                        lead == "missing symbols: "@,
                        m@ == lead + join_names(names_view(names@).take(i as int)),
                    decreases names@.len() - i,
                {
                    let ghost before = names_view(names@).take(i as int);
                    let ghost after = names_view(names@).take(i as int + 1);
                    assert(after.drop_last() =~= before);
                    assert(after.last() == names@[i as int]@);
                    if i > 0 {
                        m.append(", ");
                    }
                    m.append(names[i].as_str());
                    assert(i == 0 ==> before =~= Seq::<Seq<char>>::empty());
                    assert(m@ =~= lead + join_names(after));
                    i = i + 1;
                }
                assert(names_view(names@).take(i as int) =~= names_view(names@));
                m
            },
            LoadError::OffsetOutOfBounds(o) => {
                let mut m = String::from_str("symbol offset ");
                let d = decimal_string(*o);
                m.append(d.as_str());
                m.append(" out of bounds");
                m
            },
        }
    }
}

} // verus!
