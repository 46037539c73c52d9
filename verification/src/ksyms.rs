//! Kernel symbol names: the normal form that module loading matches on,
//! and the symbol table read from `/proc/kallsyms`.

use vstd::prelude::*;
use vstd::utf8::*;

use crate::hex::{parse_radix16_u64, radix16_u64};
use crate::text::{bytes_eq, str_from_utf8};

verus! {

/// `p` stands in `b` at index `j`.
pub open spec fn matches_at(b: Seq<u8>, p: Seq<u8>, j: int) -> bool {
    0 <= j && j + p.len() <= b.len() && b.subrange(j, j + p.len()) == p
}

/// The first index at or after `i` where `p` stands in `b`, as
/// `str::find` reports it for a pattern's bytes.
pub open spec fn find_from(b: Seq<u8>, p: Seq<u8>, i: int) -> Option<int>
    decreases b.len() + 1 - i,
{
    if i < 0 || i + p.len() > b.len() {
        None
    } else if b.subrange(i, i + p.len()) == p {
        Some(i)
    } else {
        find_from(b, p, i + 1)
    }
}

pub proof fn lemma_find_from(b: Seq<u8>, p: Seq<u8>, i: int)
    requires
        0 <= i,
    ensures
        match find_from(b, p, i) {
            Some(m) => i <= m && matches_at(b, p, m) && forall|j: int|
                i <= j < m ==> !#[trigger] matches_at(b, p, j),
            None => forall|j: int| i <= j ==> !#[trigger] matches_at(b, p, j),
        },
    decreases b.len() + 1 - i,
{
    if i + p.len() > b.len() {
    } else if b.subrange(i, i + p.len()) == p {
    } else {
        lemma_find_from(b, p, i + 1);
    }
}

/// `$`
pub open spec fn dollar() -> Seq<u8> {
    seq![0x24u8]
}

/// `.llvm.`
pub open spec fn llvm_suffix() -> Seq<u8> {
    seq![0x2eu8, 0x6c, 0x6c, 0x76, 0x6d, 0x2e]
}

/// Where a symbol name is cut: at its first `$` or its first `.llvm.`,
/// whichever comes first, or nowhere.
pub open spec fn symbol_cut(b: Seq<u8>) -> Option<int> {
    match (find_from(b, dollar(), 0), find_from(b, llvm_suffix(), 0)) {
        (Some(d), Some(l)) => Some(if d <= l { d } else { l }),
        (Some(d), None) => Some(d),
        (None, Some(l)) => Some(l),
        (None, None) => None,
    }
}

/// The normal form of a symbol name's bytes: the name up to its cut.
pub open spec fn spec_normalize(b: Seq<u8>) -> Seq<u8> {
    match symbol_cut(b) {
        Some(p) => b.take(p),
        None => b,
    }
}

fn find_bytes(b: &[u8], p: &[u8]) -> (r: Option<usize>)
    requires
        p@.len() > 0,
    ensures
        match r {
            Some(i) => find_from(b@, p@, 0) == Some(i as int),
            None => find_from(b@, p@, 0) is None,
        },
{
    let blen = b.len();
    let plen = p.len();
    if plen > blen {
        assert(find_from(b@, p@, 0) is None);
        return None;
    }
    let mut i: usize = 0;
    while i <= blen - plen
        invariant
            0 < plen <= blen,
            blen == b@.len(),
            plen == p@.len(),
            i <= blen - plen + 1,
            find_from(b@, p@, 0) == find_from(b@, p@, i as int),
        decreases blen - plen + 1 - i,
    {
        let window = vstd::slice::slice_subrange(b, i, i + plen);
        if bytes_eq(window, p) {
            return Some(i);
        }
        i = i + 1;
    }
    None
}

fn dollar_bytes() -> (v: Vec<u8>)
    ensures
        v@ == dollar(),
{
    let mut v: Vec<u8> = Vec::new();
    v.push(0x24);
    assert(v@ =~= dollar());
    v
}

fn llvm_bytes() -> (v: Vec<u8>)
    ensures
        v@ == llvm_suffix(),
{
    let mut v: Vec<u8> = Vec::new();
    v.push(0x2e);
    v.push(0x6c);
    v.push(0x6c);
    v.push(0x76);
    v.push(0x6d);
    v.push(0x2e);
    assert(v@ =~= llvm_suffix());
    v
}

/// The length of the normal form of the symbol name `b`.
pub fn normalized_len(b: &[u8]) -> (n: usize)
    ensures
        n <= b@.len(),
        spec_normalize(b@) == b@.take(n as int),
        n < b@.len() ==> find_from(b@, dollar(), 0) == Some(n as int) || find_from(
            b@,
            llvm_suffix(),
            0,
        ) == Some(n as int),
{
    let d = find_bytes(b, dollar_bytes().as_slice());
    let l = find_bytes(b, llvm_bytes().as_slice());
    proof {
        lemma_find_from(b@, dollar(), 0);
        lemma_find_from(b@, llvm_suffix(), 0);
    }
    let cut = match (d, l) {
        (Some(d), Some(l)) => if d <= l {
            d
        } else {
            l
        },
        (Some(d), None) => d,
        (None, Some(l)) => l,
        (None, None) => b.len(),
    };
    assert(b@.take(b@.len() as int) =~= b@);
    cut
}

/// Cuts a symbol name at its first `$` or `.llvm.`, whichever comes
/// first: the suffixes that the compiler adds to local and LTO-renamed
/// symbols.  A name with neither is returned whole.
pub fn normalize_symbol(sym: &str) -> (r: String)
    ensures
        encode_utf8(r@) == spec_normalize(encode_utf8(sym@)),
{
    let b = sym.as_bytes();
    let n = normalized_len(b);
    let ghost bs = b@;
    proof {
        encode_utf8_valid_utf8(sym@);
        encode_utf8_decode_utf8(sym@);
        is_char_boundary_start_end_of_seq(bs);
        if n < bs.len() {
            lemma_find_from(bs, dollar(), 0);
            lemma_find_from(bs, llvm_suffix(), 0);
            assert(bs[n as int] == 0x24 || bs[n as int] == 0x2e) by {
                if find_from(bs, dollar(), 0) == Some(n as int) {
                    assert(matches_at(bs, dollar(), n as int));
                    assert(bs.subrange(n as int, n + 1)[0] == bs[n as int]);
                } else {
                    assert(matches_at(bs, llvm_suffix(), n as int));
                    assert(bs.subrange(n as int, n + 6)[0] == bs[n as int]);
                }
            }
            is_char_boundary_iff_not_is_continuation_byte(bs, n as int);
        }
        valid_utf8_split(bs, n as int);
        assert(bs.subrange(0, n as int) =~= bs.take(n as int));
    }
    let prefix = vstd::slice::slice_subrange(b, 0, n);
    match str_from_utf8(prefix) {
        Some(t) => {
            proof {
                decode_utf8_encode_utf8(prefix@);
            }
            t.to_owned()
        },
        None => {
            assert(false);
            String::new()
        },
    }
}

proof fn lemma_no_match_before_cut(b: Seq<u8>, p: Seq<u8>, c: int)
    requires
        p.len() > 0,
        0 <= c <= b.len(),
        match find_from(b, p, 0) {
            Some(m) => c <= m,
            None => true,
        },
    ensures
        find_from(b.take(c), p, 0) is None,
{
    lemma_find_from(b, p, 0);
    lemma_find_from(b.take(c), p, 0);
    if let Some(j) = find_from(b.take(c), p, 0) {
        assert(b.subrange(j, j + p.len()) =~= b.take(c).subrange(j, j + p.len()));
        assert(matches_at(b, p, j));
    }
}

/// A normal symbol name is its own normal form: cutting twice cuts no
/// more than cutting once.
pub proof fn law_normalize_idempotent(b: Seq<u8>)
    ensures
        spec_normalize(spec_normalize(b)) == spec_normalize(b),
{
    lemma_find_from(b, dollar(), 0);
    lemma_find_from(b, llvm_suffix(), 0);
    match symbol_cut(b) {
        Some(c) => {
            lemma_no_match_before_cut(b, dollar(), c);
            lemma_no_match_before_cut(b, llvm_suffix(), c);
        },
        None => {},
    }
}

/// A name in normal form holds neither `$` nor `.llvm.`.
pub proof fn law_normal_name_has_no_suffix(b: Seq<u8>)
    ensures
        find_from(spec_normalize(b), dollar(), 0) is None,
        find_from(spec_normalize(b), llvm_suffix(), 0) is None,
{
    lemma_find_from(b, dollar(), 0);
    lemma_find_from(b, llvm_suffix(), 0);
    match symbol_cut(b) {
        Some(c) => {
            lemma_no_match_before_cut(b, dollar(), c);
            lemma_no_match_before_cut(b, llvm_suffix(), c);
        },
        None => {},
    }
}

/// Reads a kernel address written in hexadecimal, as
/// `u64::from_str_radix(s, 16).ok()` does.
pub fn hex_to_u64(s: &str) -> (r: Option<u64>)
    ensures
        r == radix16_u64(encode_utf8(s@)),
{
    parse_radix16_u64(s.as_bytes())
}

/// The three-byte UTF-8 encodings of Unicode `White_Space` characters:
/// U+1680, U+2000 to U+200A, U+2028, U+2029, U+202F, U+205F, U+3000.
pub open spec fn is_ws3(x: u8, y: u8, z: u8) -> bool {
    ||| (x == 0xe1 && y == 0x9a && z == 0x80)
    ||| (x == 0xe2 && y == 0x80 && ((0x80 <= z <= 0x8a) || z == 0xa8 || z == 0xa9 || z == 0xaf))
    ||| (x == 0xe2 && y == 0x81 && z == 0x9f)
    ||| (x == 0xe3 && y == 0x80 && z == 0x80)
}

/// The length of the UTF-8 encoding of a whitespace character (Unicode
/// `White_Space`, what `char::is_whitespace` accepts) that starts at `i`,
/// or 0 when none does.  In UTF-8 text every such encoding starts at a
/// character boundary, so this reads the text's characters.
pub open spec fn ws_len(b: Seq<u8>, i: int) -> int {
    if i < 0 || i >= b.len() {
        0
    } else if (0x09 <= b[i] <= 0x0d) || b[i] == 0x20 {
        1
    } else if b[i] == 0xc2 && i + 1 < b.len() && (b[i + 1] == 0x85 || b[i + 1] == 0xa0) {
        2
    } else if i + 2 < b.len() && is_ws3(b[i], b[i + 1], b[i + 2]) {
        3
    } else {
        0
    }
}

/// The first index at or after `i` where no whitespace starts.
pub open spec fn skip_ws(b: Seq<u8>, i: int) -> int
    decreases b.len() + 1 - i,
{
    if i < 0 || i >= b.len() || ws_len(b, i) == 0 {
        i
    } else {
        skip_ws(b, i + ws_len(b, i))
    }
}

/// The end of the token that starts at `i`: the first index at or after
/// `i` where whitespace starts, or the end.
pub open spec fn token_end(b: Seq<u8>, i: int) -> int
    decreases b.len() + 1 - i,
{
    if i < 0 || i >= b.len() || ws_len(b, i) != 0 {
        i
    } else {
        token_end(b, i + 1)
    }
}

/// The symbol that one line of `/proc/kallsyms` defines: its first token
/// is the address in hexadecimal, its second the type, its third the name,
/// which is taken in normal form.  A line with fewer than three tokens, or
/// whose first token is no hexadecimal `u64`, defines none.
pub open spec fn kallsyms_line(line: Seq<u8>) -> Option<(Seq<u8>, u64)> {
    let i0 = skip_ws(line, 0);
    let e0 = token_end(line, i0);
    let i1 = skip_ws(line, e0);
    let e1 = token_end(line, i1);
    let i2 = skip_ws(line, e1);
    let e2 = token_end(line, i2);
    if i0 >= line.len() {
        None
    } else {
        match radix16_u64(line.subrange(i0, e0)) {
            None => None,
            Some(addr) => if i1 >= line.len() || i2 >= line.len() {
                None
            } else {
                Some((spec_normalize(line.subrange(i2, e2)), addr))
            },
        }
    }
}

/// `b` is a run of printable ASCII bytes (no space, no control byte).
pub open spec fn printable(b: Seq<u8>) -> bool {
    forall|k: int| 0 <= k < b.len() ==> 0x21 <= #[trigger] b[k] <= 0x7e
}

proof fn lemma_token_run(b: Seq<u8>, i: int, j: int)
    requires
        0 <= i <= j <= b.len(),
        forall|k: int| i <= k < j ==> 0x21 <= #[trigger] b[k] <= 0x7e,
        j == b.len() || b[j] == 0x20,
    ensures
        token_end(b, i) == j,
    decreases j - i,
{
    if i < j {
        assert(0x21 <= b[i] <= 0x7e);
        lemma_token_run(b, i + 1, j);
    }
}

/// A line `addr type name`, its tokens printable and separated by single
/// spaces, defines the symbol `name` (in normal form) at the address that
/// `addr` reads as in hexadecimal, whatever its type token is: every
/// symbol type counts, text, data, bss, read-only or weak.
pub proof fn law_kallsyms_line_any_type(addr: Seq<u8>, ty: Seq<u8>, name: Seq<u8>)
    requires
        addr.len() > 0,
        ty.len() > 0,
        name.len() > 0,
        printable(addr),
        printable(ty),
        printable(name),
    ensures
        kallsyms_line(addr + seq![0x20u8] + ty + seq![0x20u8] + name) == match radix16_u64(addr) {
            Some(v) => Some((spec_normalize(name), v)),
            None => None::<(Seq<u8>, u64)>,
        },
{
    let line = addr + seq![0x20u8] + ty + seq![0x20u8] + name;
    let a = addr.len() as int;
    let t = a + 1 + ty.len();
    assert forall|k: int| 0 <= k < a implies 0x21 <= #[trigger] line[k] <= 0x7e by {
        assert(line[k] == addr[k]);
    }
    assert forall|k: int| a + 1 <= k < t implies 0x21 <= #[trigger] line[k] <= 0x7e by {
        assert(line[k] == ty[k - a - 1]);
    }
    assert forall|k: int| t + 1 <= k < line.len() implies 0x21 <= #[trigger] line[k] <= 0x7e by {
        assert(line[k] == name[k - t - 1]);
    }
    assert(line[a] == 0x20 && line[t] == 0x20);
    lemma_token_run(line, 0, a);
    lemma_token_run(line, a + 1, t);
    lemma_token_run(line, t + 1, line.len() as int);
    assert(ws_len(line, 0) == 0);
    assert(skip_ws(line, 0) == 0);
    assert(ws_len(line, a) == 1);
    assert(ws_len(line, a + 1) == 0);
    assert(skip_ws(line, a + 1) == a + 1);
    assert(skip_ws(line, a) == a + 1);
    assert(ws_len(line, t) == 1);
    assert(ws_len(line, t + 1) == 0);
    assert(skip_ws(line, t + 1) == t + 1);
    assert(skip_ws(line, t) == t + 1);
    assert(line.subrange(0, a) =~= addr);
    assert(line.subrange(t + 1, line.len() as int) =~= name);
}

/// The end of the line that starts at `i`: the next `\n`, or the end.
pub open spec fn line_end(b: Seq<u8>, i: int) -> int
    decreases b.len() + 1 - i,
{
    if i < 0 || i >= b.len() || b[i] == 0x0a {
        i
    } else {
        line_end(b, i + 1)
    }
}

pub proof fn lemma_line_end(b: Seq<u8>, i: int)
    requires
        0 <= i <= b.len(),
    ensures
        i <= line_end(b, i) <= b.len(),
    decreases b.len() + 1 - i,
{
    if i < b.len() && b[i] != 0x0a {
        lemma_line_end(b, i + 1);
    }
}

/// The symbols that the lines of `b` from index `i` on define, in order.
pub open spec fn records_from(b: Seq<u8>, i: int) -> Seq<(Seq<u8>, u64)>
    decreases b.len() + 1 - i,
{
    if i < 0 || i >= b.len() {
        Seq::empty()
    } else {
        let e = line_end(b, i);
        proof {
            lemma_line_end(b, i);
        }
        let rest = records_from(b, e + 1);
        match kallsyms_line(b.subrange(i, e)) {
            Some(r) => seq![r] + rest,
            None => rest,
        }
    }
}

/// The address that a table of symbols, filled in order with a later
/// entry replacing an earlier one of the same name, holds for `name`.
pub open spec fn lookup(recs: Seq<(Seq<u8>, u64)>, name: Seq<u8>) -> Option<u64>
    decreases recs.len(),
{
    if recs.len() == 0 {
        None
    } else if recs.last().0 == name {
        Some(recs.last().1)
    } else {
        lookup(recs.drop_last(), name)
    }
}

/// A later line for a name gives that name its address and leaves every
/// other name's address as it was.
pub proof fn law_lookup_after_line(recs: Seq<(Seq<u8>, u64)>, name: Seq<u8>, addr: u64, other: Seq<u8>)
    ensures
        lookup(recs.push((name, addr)), name) == Some(addr),
        other != name ==> lookup(recs.push((name, addr)), other) == lookup(recs, other),
{
    assert(recs.push((name, addr)).drop_last() =~= recs);
}

/// One symbol line of `/proc/kallsyms`: its name in normal form and its
/// address.
#[derive(Debug)]
pub struct KernelSymbol {
    pub name: Vec<u8>,
    pub addr: u64,
}

/// The kernel's symbols in the order of `/proc/kallsyms`; a name may
/// occur more than once, and then the last occurrence is the one that
/// counts.
#[derive(Debug)]
pub struct KernelSymbols {
    pub entries: Vec<KernelSymbol>,
}

impl KernelSymbols {
    pub open spec fn records(&self) -> Seq<(Seq<u8>, u64)> {
        self.entries@.map_values(|e: KernelSymbol| (e.name@, e.addr))
    }

    /// The address of the symbol `name` (in normal form), if the kernel
    /// has one: that of its last occurrence.
    pub fn get(&self, name: &[u8]) -> (r: Option<u64>)
        ensures
            r == lookup(self.records(), name@),
    {
        let mut i = self.entries.len();
        assert(self.records().take(i as int) =~= self.records());
        while i > 0
            invariant
                i <= self.entries@.len(),
                lookup(self.records(), name@) == lookup(self.records().take(i as int), name@),
            decreases i,
        {
            let ghost recs = self.records().take(i as int);
            assert(recs.drop_last() =~= self.records().take(i - 1));
            let e = &self.entries[i - 1];
            if bytes_eq(e.name.as_slice(), name) {
                return Some(e.addr);
            }
            i = i - 1;
        }
        assert(self.records().take(0) =~= Seq::<(Seq<u8>, u64)>::empty());
        None
    }
}

fn ws_len_exec(b: &[u8], i: usize) -> (n: usize)
    requires
        i < b@.len(),
    ensures
        n == ws_len(b@, i as int),
{
    let x = b[i];
    if (0x09 <= x && x <= 0x0d) || x == 0x20 {
        1
    } else if x == 0xc2 && i + 1 < b.len() && (b[i + 1] == 0x85 || b[i + 1] == 0xa0) {
        2
    } else if b.len() - i > 2 && ((x == 0xe1 && b[i + 1] == 0x9a && b[i + 2] == 0x80) || (x
        == 0xe2 && b[i + 1] == 0x80 && ((0x80 <= b[i + 2] && b[i + 2] <= 0x8a) || b[i + 2] == 0xa8
        || b[i + 2] == 0xa9 || b[i + 2] == 0xaf)) || (x == 0xe2 && b[i + 1] == 0x81 && b[i + 2]
        == 0x9f) || (x == 0xe3 && b[i + 1] == 0x80 && b[i + 2] == 0x80)) {
        3
    } else {
        0
    }
}

fn skip_ws_exec(b: &[u8], i: usize) -> (r: usize)
    requires
        i <= b@.len(),
    ensures
        r == skip_ws(b@, i as int),
        i <= r <= b@.len(),
{
    let mut j = i;
    while j < b.len()
        invariant
            i <= j <= b@.len(),
            skip_ws(b@, i as int) == skip_ws(b@, j as int),
        decreases b@.len() - j,
    {
        let n = ws_len_exec(b, j);
        if n == 0 {
            return j;
        }
        j = j + n;
    }
    j
}

fn token_end_exec(b: &[u8], i: usize) -> (r: usize)
    requires
        i <= b@.len(),
    ensures
        r == token_end(b@, i as int),
        i <= r <= b@.len(),
{
    let mut j = i;
    while j < b.len()
        invariant
            i <= j <= b@.len(),
            token_end(b@, i as int) == token_end(b@, j as int),
        decreases b@.len() - j,
    {
        if ws_len_exec(b, j) != 0 {
            return j;
        }
        j = j + 1;
    }
    j
}

fn normalize_bytes(b: &[u8]) -> (r: Vec<u8>)
    ensures
        r@ == spec_normalize(b@),
{
    let n = normalized_len(b);
    vstd::slice::slice_to_vec(vstd::slice::slice_subrange(b, 0, n))
}

/// The symbol that one line of `/proc/kallsyms` defines, if any.
pub fn parse_kallsyms_line(line: &[u8]) -> (r: Option<KernelSymbol>)
    ensures
        match r {
            Some(k) => kallsyms_line(line@) == Some((k.name@, k.addr)),
            None => kallsyms_line(line@) is None,
        },
{
    let len = line.len();
    let i0 = skip_ws_exec(line, 0);
    let e0 = token_end_exec(line, i0);
    let i1 = skip_ws_exec(line, e0);
    let e1 = token_end_exec(line, i1);
    let i2 = skip_ws_exec(line, e1);
    let e2 = token_end_exec(line, i2);
    if i0 >= len {
        return None;
    }
    let addr = match parse_radix16_u64(vstd::slice::slice_subrange(line, i0, e0)) {
        Some(a) => a,
        None => {
            return None;
        },
    };
    if i1 >= len || i2 >= len {
        return None;
    }
    let name = normalize_bytes(vstd::slice::slice_subrange(line, i2, e2));
    Some(KernelSymbol { name, addr })
}

/// The symbols of the text of `/proc/kallsyms`, line by line (lines end
/// at `\n`; tokens are separated by whitespace), in order.
pub fn parse_kallsyms_content(content: &str) -> (r: KernelSymbols)
    ensures
        r.records() == records_from(encode_utf8(content@), 0),
{
    let b = content.as_bytes();
    let len = b.len();
    let mut entries: Vec<KernelSymbol> = Vec::new();
    let mut i: usize = 0;
    while i < len
        invariant
            len == b@.len(),
            i <= len,
            records_from(b@, 0) == entries@.map_values(|e: KernelSymbol| (e.name@, e.addr))
                + records_from(b@, i as int),
        decreases len - i,
    {
        let mut e = i;
        while e < len && b[e] != 0x0a
            invariant
                i <= e <= len,
                len == b@.len(),
                line_end(b@, i as int) == line_end(b@, e as int),
            decreases len - e,
        {
            e = e + 1;
        }
        let ghost old_view = entries@.map_values(|e: KernelSymbol| (e.name@, e.addr));
        match parse_kallsyms_line(vstd::slice::slice_subrange(b, i, e)) {
            Some(k) => {
                let ghost rec = (k.name@, k.addr);
                entries.push(k);
                assert(entries@.map_values(|e: KernelSymbol| (e.name@, e.addr)) =~= old_view.push(
                    rec,
                ));
                assert(old_view.push(rec) + records_from(b@, e + 1) =~= old_view + (seq![rec]
                    + records_from(b@, e + 1)));
            },
            None => {},
        }
        if e == len {
            i = len;
        } else {
            i = e + 1;
        }
    }
    assert(records_from(b@, i as int) =~= Seq::<(Seq<u8>, u64)>::empty());
    assert(entries@.map_values(|e: KernelSymbol| (e.name@, e.addr)) + Seq::<(Seq<u8>, u64)>::empty()
        =~= entries@.map_values(|e: KernelSymbol| (e.name@, e.addr)));
    KernelSymbols { entries }
}

} // verus!
