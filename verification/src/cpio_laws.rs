//! What writing and reading an archive promise together.

use vstd::prelude::*;
use vstd::utf8::*;

use crate::cpio::{
    CpioEntryView, empty_name_reached, entries_bytes, entry_bytes, entry_fits, entry_header,
    field_at, has_magic, header_fields, magic_newc, name_text, parse_from, prepend, spec_align4,
    spec_hex32, spec_parse_cpio, spec_write_cpio, trailer_name, archive_body,
};
use crate::hex::{hex8, hex8_upper, lemma_hex8_roundtrip, lemma_hex8_upper_roundtrip};
use crate::text::zeros;

verus! {

/// Bytes below 0x80 are well-formed UTF-8.
pub proof fn lemma_ascii_valid_utf8(s: Seq<u8>)
    requires
        forall|i: int| 0 <= i < s.len() ==> #[trigger] s[i] < 0x80,
    ensures
        valid_utf8(s),
    decreases s.len(),
{
    if s.len() > 0 {
        let b = s[0];
        assert(b & 0x7f <= 0x7f) by (bit_vector);
        assert(valid_first_scalar(s));
        let rest = pop_first_scalar(s);
        assert(rest =~= s.drop_first());
        assert forall|i: int| 0 <= i < rest.len() implies #[trigger] rest[i] < 0x80 by {
            assert(rest[i] == s[i + 1]);
        }
        lemma_ascii_valid_utf8(rest);
    }
}

/// A header field written as eight hexadecimal digits reads back as the
/// number written.
pub proof fn lemma_hex8_field(v: u32)
    ensures
        spec_hex32(hex8(v)) == Ok::<u32, crate::cpio::CpioErrorView>(v),
{
    lemma_hex8_roundtrip(v);
    let s = hex8(v);
    assert forall|i: int| 0 <= i < s.len() implies #[trigger] s[i] < 0x80 by {
        assert(crate::hex::is_hex_digit(s[i]));
    }
    lemma_ascii_valid_utf8(s);
}

/// A header field reads back as the number written, whether its eight
/// hexadecimal digits were written in lowercase (`{:08x}`) or in
/// uppercase (`{:08X}`).
pub proof fn law_hex32_reads_both_cases(v: u32)
    ensures
        spec_hex32(hex8(v)) == Ok::<u32, crate::cpio::CpioErrorView>(v),
        spec_hex32(hex8_upper(v)) == Ok::<u32, crate::cpio::CpioErrorView>(v),
{
    lemma_hex8_field(v);
    lemma_hex8_upper_roundtrip(v);
    let s = hex8_upper(v);
    assert forall|i: int| 0 <= i < s.len() implies #[trigger] s[i] < 0x80 by {
        assert(crate::hex::is_hex_digit(s[i]));
    }
    lemma_ascii_valid_utf8(s);
}

/// A window of a window of `d` is a window of `d`.
pub proof fn lemma_window(d: Seq<u8>, pos: int, e: Seq<u8>, a: int, b: int)
    requires
        0 <= pos,
        pos + e.len() <= d.len(),
        d.subrange(pos, pos + e.len()) == e,
        0 <= a <= b <= e.len(),
    ensures
        d.subrange(pos + a, pos + b) == e.subrange(a, b),
{
    assert(d.subrange(pos + a, pos + b) =~= e.subrange(a, b)) by {
        assert forall|i: int| 0 <= i < b - a implies d.subrange(pos + a, pos + b)[i] == e.subrange(
            a,
            b,
        )[i] by {
            assert(d.subrange(pos, pos + e.len())[a + i] == d[pos + a + i]);
        }
    }
}

/// `spec_align4` of a multiple of 4 plus `n`.
pub proof fn lemma_align4_shift(pos: int, n: int)
    requires
        pos % 4 == 0,
        n >= 0,
    ensures
        spec_align4(pos + n) == pos + spec_align4(n),
        spec_align4(n) % 4 == 0,
        n <= spec_align4(n) < n + 4,
{
    assert(spec_align4(pos + n) == pos + spec_align4(n)) by (nonlinear_arith)
        requires pos % 4 == 0, n >= 0;
    assert(spec_align4(n) % 4 == 0 && n <= spec_align4(n) < n + 4) by (nonlinear_arith)
        requires n >= 0;
}

/// Where the parts of one written member stand.
pub proof fn lemma_entry_layout(
    ino: u32,
    name: Seq<u8>,
    mode: u32,
    uid: u32,
    gid: u32,
    data: Seq<u8>,
)
    ensures
        ({
            let e = entry_bytes(ino, name, mode, uid, gid, data);
            let namesize: int = name.len() + 1int;
            let a = spec_align4(110 + namesize);
            &&& a >= 110 + namesize
            &&& e.len() == a + spec_align4(data.len() as int)
            &&& e.len() % 4 == 0
            &&& e.subrange(0, 6) == magic_newc()
            &&& e.subrange(14, 22) == hex8(mode)
            &&& e.subrange(22, 30) == hex8(uid)
            &&& e.subrange(30, 38) == hex8(gid)
            &&& e.subrange(54, 62) == hex8(data.len() as u32)
            &&& e.subrange(94, 102) == hex8(namesize as u32)
            &&& e.subrange(110, 110 + name.len() as int) == name
            &&& e.subrange(a, a + data.len() as int) == data
        }),
{
    let e = entry_bytes(ino, name, mode, uid, gid, data);
    let namesize: int = name.len() + 1int;
    let filesize = data.len() as int;
    let h = entry_header(ino, mode, uid, gid, filesize as u32, namesize as u32);
    lemma_align4_shift(0, 110 + namesize);
    lemma_align4_shift(0, filesize);
    let a = spec_align4(110 + namesize);
    assert(h.len() == 110);
    let z1 = zeros((a - (110 + namesize)) as nat);
    let z2 = zeros((spec_align4(filesize) - filesize) as nat);
    assert(e == h + name + seq![0u8] + z1 + data + z2);
    assert(e.subrange(0, 6) =~= magic_newc());
    assert(e.subrange(14, 22) =~= hex8(mode));
    assert(e.subrange(22, 30) =~= hex8(uid));
    assert(e.subrange(30, 38) =~= hex8(gid));
    assert(e.subrange(54, 62) =~= hex8(filesize as u32));
    assert(e.subrange(94, 102) =~= hex8(namesize as u32));
    assert(e.subrange(110, 110 + name.len() as int) =~= name);
    assert(e.subrange(a, a + data.len() as int) =~= data);
}

/// The member that `write_cpio` writes for the entry `ev` with inode `ino`.
pub open spec fn member(ino: u32, ev: CpioEntryView) -> Seq<u8> {
    entry_bytes(ino, encode_utf8(ev.name), ev.mode, ev.uid, ev.gid, ev.data)
}

/// The text of a string's UTF-8 bytes is the string.
pub proof fn lemma_name_text_encode(name: Seq<char>)
    ensures
        name_text(encode_utf8(name)) == name,
{
    encode_utf8_valid_utf8(name);
    encode_utf8_decode_utf8(name);
}

#[verifier::opaque]
/// Where reading from `pos` ends: just after the data of the `TRAILER!!!`
/// member when it is reached; `pos` itself where the member at `pos`
/// cannot be read.
pub open spec fn read_end(d: Seq<u8>, pos: int) -> int
    decreases d.len() + 4 - pos,
{
    if pos + 110 > d.len() || !has_magic(d, pos) {
        pos
    } else {
        match header_fields(d, pos) {
            Err(_) => pos,
            Ok(h) => {
                let name_end = pos + 110 + h.namesize;
                if name_end > d.len() {
                    pos
                } else {
                    let data_end = spec_align4(name_end) + h.filesize;
                    if data_end > d.len() {
                        pos
                    } else if d.subrange(pos + 110, name_end - 1) == trailer_name() {
                        data_end
                    } else {
                        read_end(d, spec_align4(data_end))
                    }
                }
            },
        }
    }
}

/// Reading a written member at `pos` gives back its entry and goes on
/// right after it.
#[verifier::spinoff_prover]
#[verifier::rlimit(40)]
pub proof fn lemma_parse_member(d: Seq<u8>, pos: int, ino: u32, ev: CpioEntryView)
    requires
        0 <= pos,
        pos % 4 == 0,
        entry_fits(ev),
        encode_utf8(ev.name) != trailer_name(),
        pos + member(ino, ev).len() <= d.len(),
        d.subrange(pos, pos + member(ino, ev).len()) == member(ino, ev),
    ensures
        member(ino, ev).len() % 4 == 0,
        parse_from(d, pos) == prepend(seq![ev], parse_from(d, pos + member(ino, ev).len())),
        empty_name_reached(d, pos) == empty_name_reached(d, pos + member(ino, ev).len()),
        read_end(d, pos) == read_end(d, pos + member(ino, ev).len()),
{
    reveal(parse_from);
    reveal(empty_name_reached);
    reveal(read_end);
    let nb = encode_utf8(ev.name);
    let e = member(ino, ev);
    let namesize: int = nb.len() + 1int;
    let filesize: int = ev.data.len() as int;
    lemma_entry_layout(ino, nb, ev.mode, ev.uid, ev.gid, ev.data);
    let a = spec_align4(110 + namesize);
    lemma_window(d, pos, e, 0, 6);
    lemma_window(d, pos, e, 14, 22);
    lemma_window(d, pos, e, 22, 30);
    lemma_window(d, pos, e, 30, 38);
    lemma_window(d, pos, e, 54, 62);
    lemma_window(d, pos, e, 94, 102);
    lemma_window(d, pos, e, 110, 110 + nb.len() as int);
    lemma_window(d, pos, e, a, a + filesize);
    lemma_hex8_field(ev.mode);
    lemma_hex8_field(ev.uid);
    lemma_hex8_field(ev.gid);
    lemma_hex8_field(filesize as u32);
    lemma_hex8_field(namesize as u32);
    assert(field_at(d, pos, 14) == Ok::<u32, crate::cpio::CpioErrorView>(ev.mode));
    assert(field_at(d, pos, 22) == Ok::<u32, crate::cpio::CpioErrorView>(ev.uid));
    assert(field_at(d, pos, 30) == Ok::<u32, crate::cpio::CpioErrorView>(ev.gid));
    assert(field_at(d, pos, 54) == Ok::<u32, crate::cpio::CpioErrorView>(filesize as u32));
    assert(field_at(d, pos, 94) == Ok::<u32, crate::cpio::CpioErrorView>(namesize as u32));
    assert(has_magic(d, pos));
    let h = header_fields(d, pos)->Ok_0;
    assert(header_fields(d, pos) is Ok);
    assert(h.namesize == namesize && h.filesize == filesize);
    lemma_align4_shift(pos, 110 + namesize);
    lemma_align4_shift(pos + a, filesize);
    lemma_align4_shift(0, 110 + namesize);
    lemma_name_text_encode(ev.name);
    let name = d.subrange(pos + 110, pos + 110 + namesize - 1);
    assert(name == nb);
    let got = CpioEntryView {
        name: name_text(name),
        mode: h.mode,
        uid: h.uid,
        gid: h.gid,
        data: d.subrange(pos + a, pos + a + filesize),
    };
    assert(got == ev);
}

/// The member that ends an archive.
pub open spec fn trailer_member() -> Seq<u8> {
    entry_bytes(0, trailer_name(), 0, 0, 0, Seq::empty())
}

/// Reading the trailer member ends the archive.
pub proof fn lemma_parse_trailer(d: Seq<u8>, pos: int)
    requires
        0 <= pos,
        pos + trailer_member().len() <= d.len(),
        d.subrange(pos, pos + trailer_member().len()) == trailer_member(),
    ensures
        parse_from(d, pos) == Ok::<Seq<CpioEntryView>, crate::cpio::CpioErrorView>(Seq::empty()),
        !empty_name_reached(d, pos),
        pos % 4 == 0 ==> read_end(d, pos) == pos + trailer_member().len(),
{
    reveal(parse_from);
    reveal(empty_name_reached);
    reveal(read_end);
    let e = trailer_member();
    let nb = trailer_name();
    lemma_entry_layout(0, nb, 0, 0, 0, Seq::empty());
    let a = spec_align4(121);
    lemma_window(d, pos, e, 0, 6);
    lemma_window(d, pos, e, 14, 22);
    lemma_window(d, pos, e, 22, 30);
    lemma_window(d, pos, e, 30, 38);
    lemma_window(d, pos, e, 54, 62);
    lemma_window(d, pos, e, 94, 102);
    lemma_window(d, pos, e, 110, 120);
    lemma_hex8_field(0);
    lemma_hex8_field(11);
    assert(has_magic(d, pos));
    assert(header_fields(d, pos) is Ok);
    let h = header_fields(d, pos)->Ok_0;
    assert(h.namesize == 11 && h.filesize == 0);
    assert(d.subrange(pos + 110, pos + 110 + 11 - 1) == nb);
    assert(spec_align4(pos + 121) <= pos + 124) by (nonlinear_arith);
    if pos % 4 == 0 {
        lemma_align4_shift(pos, 121);
        lemma_align4_shift(0, 121);
    }
}

/// The members of `es` are `4`-aligned in length.
pub proof fn lemma_entries_len(es: Seq<CpioEntryView>, first_ino: int)
    ensures
        entries_bytes(es, first_ino).len() % 4 == 0,
    decreases es.len(),
{
    if es.len() > 0 {
        lemma_entries_len(es.drop_last(), first_ino);
        let e = es.last();
        lemma_entry_layout(
            (first_ino + es.len() - 1) as u32,
            encode_utf8(e.name),
            e.mode,
            e.uid,
            e.gid,
            e.data,
        );
    }
}

/// The members of the first `j` entries come first.
pub proof fn lemma_entries_prefix(es: Seq<CpioEntryView>, first_ino: int, j: int)
    requires
        0 <= j <= es.len(),
    ensures
        entries_bytes(es.take(j), first_ino).len() <= entries_bytes(es, first_ino).len(),
        entries_bytes(es, first_ino).subrange(0, entries_bytes(es.take(j), first_ino).len() as int)
            == entries_bytes(es.take(j), first_ino),
    decreases es.len(),
{
    if j == es.len() {
        assert(es.take(j) =~= es);
        assert(entries_bytes(es, first_ino).subrange(0, entries_bytes(es, first_ino).len() as int)
            =~= entries_bytes(es, first_ino));
    } else {
        lemma_entries_prefix(es.drop_last(), first_ino, j);
        assert(es.drop_last().take(j) =~= es.take(j));
        let whole = entries_bytes(es, first_ino);
        let front = entries_bytes(es.drop_last(), first_ino);
        let part = entries_bytes(es.take(j), first_ino);
        assert(whole.subrange(0, part.len() as int) =~= front.subrange(0, part.len() as int));
    }
}

/// The member of entry `k` stands, whole, where the members before it end.
proof fn lemma_member_window(es: Seq<CpioEntryView>, k: int)
    requires
        0 <= k < es.len(),
        es.len() + 300 <= u32::MAX,
    ensures
        ({
            let d = spec_write_cpio(es);
            let off = entries_bytes(es.take(k), 300).len() as int;
            let m = member((300 + k) as u32, es[k]);
            &&& off % 4 == 0
            &&& off + m.len() == entries_bytes(es.take(k + 1), 300).len()
            &&& off + m.len() <= d.len()
            &&& d.subrange(off, off + m.len()) == m
        }),
{
    let d = spec_write_cpio(es);
    let all = entries_bytes(es, 300);
    assert(d.subrange(0, all.len() as int) =~= all);
    let off = entries_bytes(es.take(k), 300).len() as int;
    lemma_entries_len(es.take(k), 300);
    lemma_entries_prefix(es, 300, k + 1);
    let next = es.take(k + 1);
    assert(next.drop_last() =~= es.take(k));
    assert(next.last() == es[k]);
    let m = member((300 + k) as u32, es[k]);
    let nb = entries_bytes(next, 300);
    assert(nb == entries_bytes(es.take(k), 300) + m);
    assert(d.subrange(off, off + m.len()) =~= m) by {
        assert forall|i: int| 0 <= i < m.len() implies d.subrange(off, off + m.len())[i]
            == m[i] by {
            assert(nb[off + i] == m[i]);
            assert(all.subrange(0, nb.len() as int)[off + i] == nb[off + i]);
        }
    }
}

/// The trailer member follows the members of all the entries.
proof fn lemma_trailer_window(es: Seq<CpioEntryView>)
    ensures
        ({
            let d = spec_write_cpio(es);
            let off = entries_bytes(es.take(es.len() as int), 300).len() as int;
            &&& off + trailer_member().len() <= d.len()
            &&& d.subrange(off, off + trailer_member().len()) == trailer_member()
        }),
{
    let d = spec_write_cpio(es);
    let all = entries_bytes(es, 300);
    let t = trailer_member();
    assert(es.take(es.len() as int) =~= es);
    assert(d.subrange(all.len() as int, (all.len() + t.len()) as int) =~= t);
}

/// The members of entry `k` on read back as the entries from `k` on.
proof fn lemma_parse_members(es: Seq<CpioEntryView>, k: int)
    requires
        0 <= k <= es.len(),
        es.len() + 300 <= u32::MAX,
        forall|i: int| 0 <= i < es.len() ==> entry_fits(#[trigger] es[i]),
        forall|i: int| 0 <= i < es.len() ==> encode_utf8(#[trigger] es[i].name) != trailer_name(),
    ensures
        parse_from(spec_write_cpio(es), entries_bytes(es.take(k), 300).len() as int) == Ok::<
            Seq<CpioEntryView>,
            crate::cpio::CpioErrorView,
        >(es.skip(k)),
        !empty_name_reached(spec_write_cpio(es), entries_bytes(es.take(k), 300).len() as int),
        read_end(spec_write_cpio(es), entries_bytes(es.take(k), 300).len() as int)
            == archive_body(es).len(),
    decreases es.len() - k,
{
    let d = spec_write_cpio(es);
    let off = entries_bytes(es.take(k), 300).len() as int;
    if k == es.len() {
        lemma_trailer_window(es);
        lemma_entries_len(es.take(k), 300);
        lemma_parse_trailer(d, off);
        assert(es.take(k) =~= es);
        assert(es.skip(k) =~= Seq::<CpioEntryView>::empty());
    } else {
        lemma_parse_members(es, k + 1);
        lemma_member_window(es, k);
        assert(entry_fits(es[k]));
        assert(encode_utf8(es[k].name) != trailer_name());
        lemma_parse_member(d, off, (300 + k) as u32, es[k]);
        assert(seq![es[k]] + es.skip(k + 1) =~= es.skip(k));
    }
}

/// Reading what `write_cpio` wrote gives back the entries written, in
/// order, when each entry's name (with its NUL) and data fit the header's
/// 32-bit size fields, no entry is named `TRAILER!!!`, and the inode
/// numbers, counted from 300, fit 32 bits.  Such an archive never holds an
/// entry with an empty name field.
pub proof fn law_write_then_parse(es: Seq<CpioEntryView>)
    requires
        es.len() + 300 <= u32::MAX,
        forall|i: int| 0 <= i < es.len() ==> entry_fits(#[trigger] es[i]),
        forall|i: int| 0 <= i < es.len() ==> encode_utf8(#[trigger] es[i].name) != trailer_name(),
    ensures
        spec_parse_cpio(spec_write_cpio(es)) == Ok::<
            Seq<CpioEntryView>,
            crate::cpio::CpioErrorView,
        >(es),
        !empty_name_reached(spec_write_cpio(es), 0),
{
    lemma_parse_members(es, 0);
    assert(es.take(0) =~= Seq::<CpioEntryView>::empty());
    assert(es.skip(0) =~= es);
}

/// Reading from `pos` gives the same when bytes are appended to an
/// archive that reads without error: reading stops at the trailer and never
/// looks past it.
pub proof fn lemma_parse_ignores_suffix(d: Seq<u8>, extra: Seq<u8>, pos: int)
    requires
        0 <= pos,
        parse_from(d, pos) is Ok,
        !empty_name_reached(d, pos),
    ensures
        parse_from(d + extra, pos) == parse_from(d, pos),
        !empty_name_reached(d + extra, pos),
    decreases d.len() + 4 - pos,
{
    reveal(parse_from);
    reveal(empty_name_reached);
    let e = d + extra;
    assert(pos + 110 <= d.len());
    assert(e.subrange(pos, pos + 6) =~= d.subrange(pos, pos + 6));
    assert(e.subrange(pos + 14, pos + 22) =~= d.subrange(pos + 14, pos + 22));
    assert(e.subrange(pos + 22, pos + 30) =~= d.subrange(pos + 22, pos + 30));
    assert(e.subrange(pos + 30, pos + 38) =~= d.subrange(pos + 30, pos + 38));
    assert(e.subrange(pos + 54, pos + 62) =~= d.subrange(pos + 54, pos + 62));
    assert(e.subrange(pos + 94, pos + 102) =~= d.subrange(pos + 94, pos + 102));
    assert(header_fields(e, pos) == header_fields(d, pos));
    let h = header_fields(d, pos)->Ok_0;
    let name_end = pos + 110 + h.namesize;
    assert(name_end <= d.len());
    assert(h.namesize > 0);
    assert(e.subrange(pos + 110, name_end - 1) =~= d.subrange(pos + 110, name_end - 1));
    let data_start = spec_align4(name_end);
    let data_end = data_start + h.filesize;
    assert(data_end <= d.len());
    assert(e.subrange(data_start, data_end) =~= d.subrange(data_start, data_end));
    if d.subrange(pos + 110, name_end - 1) != trailer_name() {
        lemma_align4_shift(0, data_end);
        lemma_parse_ignores_suffix(d, extra, spec_align4(data_end));
    }
}

/// Bytes after an archive that reads without error change nothing: the
/// archive followed by any bytes reads as the archive.
pub proof fn law_parse_ignores_trailing_bytes(d: Seq<u8>, extra: Seq<u8>)
    requires
        spec_parse_cpio(d) is Ok,
        !empty_name_reached(d, 0),
    ensures
        spec_parse_cpio(d + extra) == spec_parse_cpio(d),
        !empty_name_reached(d + extra, 0),
{
    lemma_parse_ignores_suffix(d, extra, 0);
}

/// Reading the first `k` bytes of an archive that reads without error:
/// cut before the end of the trailer member's data, it reads as an error;
/// cut at or after it, it reads as the whole archive.
pub proof fn lemma_parse_prefix(d: Seq<u8>, pos: int, k: int)
    requires
        0 <= pos,
        0 <= k <= d.len(),
        parse_from(d, pos) is Ok,
        !empty_name_reached(d, pos),
    ensures
        pos < read_end(d, pos) <= d.len(),
        !empty_name_reached(d.take(k), pos),
        k >= read_end(d, pos) ==> parse_from(d.take(k), pos) == parse_from(d, pos),
        k < read_end(d, pos) ==> parse_from(d.take(k), pos) is Err,
    decreases d.len() + 4 - pos,
{
    reveal(parse_from);
    reveal(empty_name_reached);
    reveal(read_end);
    let p = d.take(k);
    assert(pos + 110 <= d.len() && has_magic(d, pos));
    let h = header_fields(d, pos)->Ok_0;
    assert(h.namesize > 0);
    let name_end = pos + 110 + h.namesize;
    let data_start = spec_align4(name_end);
    let data_end = data_start + h.filesize;
    lemma_align4_shift(0, name_end);
    lemma_align4_shift(0, data_end);
    assert(name_end <= d.len() && data_end <= d.len());
    let name = d.subrange(pos + 110, name_end - 1);
    let next = spec_align4(data_end);
    if name != trailer_name() {
        lemma_parse_prefix(d, next, k);
    }
    if k >= pos + 110 {
        assert(p.subrange(pos, pos + 6) =~= d.subrange(pos, pos + 6));
        assert(p.subrange(pos + 14, pos + 22) =~= d.subrange(pos + 14, pos + 22));
        assert(p.subrange(pos + 22, pos + 30) =~= d.subrange(pos + 22, pos + 30));
        assert(p.subrange(pos + 30, pos + 38) =~= d.subrange(pos + 30, pos + 38));
        assert(p.subrange(pos + 54, pos + 62) =~= d.subrange(pos + 54, pos + 62));
        assert(p.subrange(pos + 94, pos + 102) =~= d.subrange(pos + 94, pos + 102));
        assert(has_magic(p, pos));
        assert(header_fields(p, pos) == header_fields(d, pos));
        if name_end <= k {
            assert(p.subrange(pos + 110, name_end - 1) =~= name);
            if data_end <= k {
                assert(p.subrange(data_start, data_end) =~= d.subrange(data_start, data_end));
            }
        }
    }
}

/// An archive that `write_cpio` wrote for entries as in
/// `law_write_then_parse`, cut to its first `k` bytes: cut anywhere before
/// the end of its `TRAILER!!!` member, it reads as an error and never as a
/// shorter list of entries; cut at or after it, it reads as the entries
/// written.  No cut holds an entry with an empty name field.
pub proof fn law_cut_archive_is_rejected(es: Seq<CpioEntryView>, k: int)
    requires
        es.len() + 300 <= u32::MAX,
        forall|i: int| 0 <= i < es.len() ==> entry_fits(#[trigger] es[i]),
        forall|i: int| 0 <= i < es.len() ==> encode_utf8(#[trigger] es[i].name) != trailer_name(),
        0 <= k <= spec_write_cpio(es).len(),
    ensures
        k < archive_body(es).len() ==> spec_parse_cpio(spec_write_cpio(es).take(k)) is Err,
        k >= archive_body(es).len() ==> spec_parse_cpio(spec_write_cpio(es).take(k)) == Ok::<
            Seq<CpioEntryView>,
            crate::cpio::CpioErrorView,
        >(es),
        !empty_name_reached(spec_write_cpio(es).take(k), 0),
{
    let d = spec_write_cpio(es);
    law_write_then_parse(es);
    lemma_parse_members(es, 0);
    assert(es.take(0) =~= Seq::<CpioEntryView>::empty());
    lemma_parse_prefix(d, 0, k);
}

} // verus!
