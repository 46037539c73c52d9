//! The `newc` cpio archive format (magic `070701` / `070702`): reading an
//! archive into its entries and writing entries into an archive.

use vstd::prelude::*;
use vstd::utf8::*;

use crate::hex::{hex8, push_hex8, parse_radix16_u64, radix16_value};
use crate::text::{push_slice, push_zeros, str_from_utf8, zeros};

verus! {

/// One file of a cpio archive.
#[derive(Debug)]
pub struct CpioEntry {
    pub name: String,
    pub mode: u32,
    pub uid: u32,
    pub gid: u32,
    pub data: Vec<u8>,
}

/// The plain value of a [`CpioEntry`].
pub struct CpioEntryView {
    pub name: Seq<char>,
    pub mode: u32,
    pub uid: u32,
    pub gid: u32,
    pub data: Seq<u8>,
}

impl View for CpioEntry {
    type V = CpioEntryView;

    open spec fn view(&self) -> CpioEntryView {
        CpioEntryView {
            name: self.name@,
            mode: self.mode,
            uid: self.uid,
            gid: self.gid,
            data: self.data@,
        }
    }
}

/// Why an archive could not be read.
#[derive(Debug)]
pub enum CpioError {
    /// Fewer than 110 header bytes are left at `offset`.
    Truncated { offset: usize },
    /// The header at `offset` starts with neither `070701` nor `070702`.
    BadMagic { offset: usize },
    /// A header field is not UTF-8.
    NonUtf8Field,
    /// A header field is not a hexadecimal `u32`.
    InvalidHex { field: String },
    /// The name of the entry whose header is at `offset` runs past the end.
    NameOutOfBounds { offset: usize },
    /// The data of the entry named `name` runs past the end.
    DataOutOfBounds { name: String },
}

/// The plain value of a [`CpioError`].
pub enum CpioErrorView {
    Truncated { offset: int },
    BadMagic { offset: int },
    NonUtf8Field,
    InvalidHex { field: Seq<char> },
    NameOutOfBounds { offset: int },
    DataOutOfBounds { name: Seq<char> },
}

impl View for CpioError {
    type V = CpioErrorView;

    open spec fn view(&self) -> CpioErrorView {
        match self {
            CpioError::Truncated { offset } => CpioErrorView::Truncated { offset: *offset as int },
            CpioError::BadMagic { offset } => CpioErrorView::BadMagic { offset: *offset as int },
            CpioError::NonUtf8Field => CpioErrorView::NonUtf8Field,
            CpioError::InvalidHex { field } => CpioErrorView::InvalidHex { field: field@ },
            CpioError::NameOutOfBounds { offset } => CpioErrorView::NameOutOfBounds {
                offset: *offset as int,
            },
            CpioError::DataOutOfBounds { name } => CpioErrorView::DataOutOfBounds { name: name@ },
        }
    }
}

/// The plain value of a result that may carry a [`CpioError`].
pub open spec fn result_view<T>(r: Result<T, CpioError>) -> Result<T, CpioErrorView> {
    match r {
        Ok(v) => Ok(v),
        Err(e) => Err(e@),
    }
}

/// The least multiple of 4 that is at least `n`.
pub open spec fn spec_align4(n: int) -> int {
    ((n + 3) / 4) * 4
}

/// Rounds `n` up to the next multiple of 4.
pub fn align4(n: usize) -> (r: usize)
    requires
        n <= usize::MAX - 3,
    ensures
        r == spec_align4(n as int),
        r % 4 == 0,
        n <= r < n + 4,
{
    let m: usize = n + 3;
    let r = m & !3usize;
    assert(m & !3usize == (m / 4) * 4 && (m & !3usize) % 4 == 0 && m - 3 <= (m & !3usize) <= m)
        by (bit_vector);
    r
}

/// The value of a header field: `hex32` of the field's bytes.
pub open spec fn spec_hex32(s: Seq<u8>) -> Result<u32, CpioErrorView> {
    if !valid_utf8(s) {
        Err(CpioErrorView::NonUtf8Field)
    } else {
        match radix16_value(s) {
            Some(v) => if v <= u32::MAX {
                Ok(v as u32)
            } else {
                Err(CpioErrorView::InvalidHex { field: decode_utf8(s) })
            },
            None => Err(CpioErrorView::InvalidHex { field: decode_utf8(s) }),
        }
    }
}

/// Reads a header field: UTF-8 text holding a hexadecimal number, as
/// `u32::from_str_radix(_, 16)` reads it (an optional `+`, then digits).
pub fn hex32(s: &[u8]) -> (r: Result<u32, CpioError>)
    ensures
        result_view(r) == spec_hex32(s@),
{
    match str_from_utf8(s) {
        None => Err(CpioError::NonUtf8Field),
        Some(text) => match parse_radix16_u64(s) {
            Some(v) => if v <= 0xffff_ffffu64 {
                Ok(v as u32)
            } else {
                Err(CpioError::InvalidHex { field: text.to_owned() })
            },
            None => Err(CpioError::InvalidHex { field: text.to_owned() }),
        },
    }
}

/// The magic that `write_cpio_entry` writes, `070701`.
pub open spec fn magic_newc() -> Seq<u8> {
    seq![0x30u8, 0x37, 0x30, 0x37, 0x30, 0x31]
}

/// The magic of the `newc` format with checksums, `070702`.
pub open spec fn magic_crc() -> Seq<u8> {
    seq![0x30u8, 0x37, 0x30, 0x37, 0x30, 0x32]
}

/// The name of the entry that ends an archive, `TRAILER!!!`.
pub open spec fn trailer_name() -> Seq<u8> {
    seq![0x54u8, 0x52, 0x41, 0x49, 0x4c, 0x45, 0x52, 0x21, 0x21, 0x21]
}

/// The 110-byte header of an entry, with the given inode number, mode,
/// owner, group, data size and name size (the name's bytes and its NUL);
/// the link count is 1 and every other field is 0.
pub open spec fn entry_header(
    ino: u32,
    mode: u32,
    uid: u32,
    gid: u32,
    filesize: u32,
    namesize: u32,
) -> Seq<u8> {
    magic_newc() + hex8(ino) + hex8(mode) + hex8(uid) + hex8(gid) + hex8(1) + hex8(0) + hex8(
        filesize,
    ) + hex8(0) + hex8(0) + hex8(0) + hex8(0) + hex8(namesize) + hex8(0)
}

/// One archive member: header, name, NUL, zeros up to a multiple of 4,
/// data, zeros up to a multiple of 4.
pub open spec fn entry_bytes(
    ino: u32,
    name: Seq<u8>,
    mode: u32,
    uid: u32,
    gid: u32,
    data: Seq<u8>,
) -> Seq<u8> {
    let namesize: int = name.len() + 1int;
    let filesize: int = data.len() as int;
    entry_header(ino, mode, uid, gid, filesize as u32, namesize as u32) + name + seq![0u8]
        + zeros((spec_align4(110 + namesize) - (110 + namesize)) as nat) + data + zeros(
        (spec_align4(filesize) - filesize) as nat,
    )
}

fn push_magic_newc(out: &mut Vec<u8>)
    ensures
        final(out)@ == old(out)@ + magic_newc(),
{
    out.push(0x30);
    out.push(0x37);
    out.push(0x30);
    out.push(0x37);
    out.push(0x30);
    out.push(0x31);
    assert(final(out)@ =~= old(out)@ + magic_newc());
}

fn write_entry_bytes(
    out: &mut Vec<u8>,
    ino: u32,
    name: &[u8],
    mode: u32,
    uid: u32,
    gid: u32,
    data: &[u8],
)
    requires
        name@.len() + 114 <= usize::MAX,
        data@.len() + 3 <= usize::MAX,
    ensures
        final(out)@ == old(out)@ + entry_bytes(ino, name@, mode, uid, gid, data@),
{
    let namesize = name.len() + 1;
    let filesize = data.len();
    let ghost start = out@;
    push_magic_newc(out);
    push_hex8(out, ino);
    push_hex8(out, mode);
    push_hex8(out, uid);
    push_hex8(out, gid);
    push_hex8(out, 1);
    push_hex8(out, 0);
    push_hex8(out, filesize as u32);
    push_hex8(out, 0);
    push_hex8(out, 0);
    push_hex8(out, 0);
    push_hex8(out, 0);
    push_hex8(out, namesize as u32);
    push_hex8(out, 0);
    assert(out@ =~= start + entry_header(ino, mode, uid, gid, filesize as u32, namesize as u32));
    push_slice(out, name);
    out.push(0u8);
    let after_name = 110 + namesize;
    let pad = align4(after_name) - after_name;
    push_zeros(out, pad);
    push_slice(out, data);
    let pad = align4(filesize) - filesize;
    push_zeros(out, pad);
    assert(out@ =~= start + entry_bytes(ino, name@, mode, uid, gid, data@));
}

/// Appends one archive member for the file `name` with contents `data`.
pub fn write_cpio_entry(
    out: &mut Vec<u8>,
    ino: u32,
    name: &str,
    mode: u32,
    uid: u32,
    gid: u32,
    data: &[u8],
)
    requires
        encode_utf8(name@).len() + 114 <= usize::MAX,
        data@.len() + 3 <= usize::MAX,
    ensures
        final(out)@ == old(out)@ + entry_bytes(ino, encode_utf8(name@), mode, uid, gid, data@),
        final(out)@.len() == old(out)@.len() + spec_align4(111 + encode_utf8(name@).len() as int)
            + spec_align4(data@.len() as int),
        (final(out)@.len() - old(out)@.len()) % 4 == 0,
{
    write_entry_bytes(out, ino, name.as_bytes(), mode, uid, gid, data);
    proof {
        crate::cpio_laws::lemma_entry_layout(ino, encode_utf8(name@), mode, uid, gid, data@);
    }
}

/// The members for `es`, numbered with inodes from `first_ino` on.
pub open spec fn entries_bytes(es: Seq<CpioEntryView>, first_ino: int) -> Seq<u8>
    decreases es.len(),
{
    if es.len() == 0 {
        Seq::empty()
    } else {
        let e = es.last();
        entries_bytes(es.drop_last(), first_ino) + entry_bytes(
            (first_ino + es.len() - 1) as u32,
            encode_utf8(e.name),
            e.mode,
            e.uid,
            e.gid,
            e.data,
        )
    }
}

/// The number of zero bytes that bring a length of `n` to a multiple of 512.
pub open spec fn pad512(n: int) -> int {
    if n % 512 != 0 {
        512 - n % 512
    } else {
        0
    }
}

/// The archive body: one member per entry, inodes from 300 on, then the
/// `TRAILER!!!` member with inode 0 and no data.
pub open spec fn archive_body(es: Seq<CpioEntryView>) -> Seq<u8> {
    entries_bytes(es, 300) + entry_bytes(0, trailer_name(), 0, 0, 0, Seq::empty())
}

/// What `write_cpio` writes for `es`: the body, then zeros up to a
/// multiple of 512 bytes.
pub open spec fn spec_write_cpio(es: Seq<CpioEntryView>) -> Seq<u8> {
    archive_body(es) + zeros(pad512(archive_body(es).len() as int) as nat)
}

/// The sizes of an entry let it be written: its name with the NUL and its
/// data each fit the header's 32-bit size fields.
pub open spec fn entry_fits(e: CpioEntryView) -> bool {
    &&& encode_utf8(e.name).len() + 1 <= u32::MAX
    &&& e.data.len() <= u32::MAX
}

/// The sizes that writing an entry needs in memory.
pub open spec fn entry_addressable(e: CpioEntryView) -> bool {
    &&& encode_utf8(e.name).len() + 114 <= usize::MAX
    &&& e.data.len() + 3 <= usize::MAX
}

/// Writes a `newc` archive holding `entries`, in order, followed by the
/// `TRAILER!!!` entry, padded with zeros to a multiple of 512 bytes.
pub fn write_cpio(entries: &[CpioEntry]) -> (r: Result<Vec<u8>, CpioError>)
    requires
        entries@.len() + 300 <= u32::MAX,
        forall|i: int| 0 <= i < entries@.len() ==> entry_addressable(#[trigger] entries@[i]@),
    ensures
        r matches Ok(out) && out@ == spec_write_cpio(entries_view(entries@)),
        r matches Ok(out) && out@.len() % 512 == 0,
{
    let mut out: Vec<u8> = Vec::new();
    let mut ino: u32 = 300;
    let mut i: usize = 0;
    while i < entries.len()
        invariant
            i <= entries@.len(),
            entries@.len() + 300 <= u32::MAX,
            ino == 300 + i,
            forall|j: int| 0 <= j < entries@.len() ==> entry_addressable(#[trigger] entries@[j]@),
            out@ == entries_bytes(entries_view(entries@).take(i as int), 300),
        decreases entries@.len() - i,
    {
        let entry = &entries[i];
        assert(entry_addressable(entries@[i as int]@));
        write_cpio_entry(
            &mut out,
            ino,
            entry.name.as_str(),
            entry.mode,
            entry.uid,
            entry.gid,
            entry.data.as_slice(),
        );
        let ghost es = entries_view(entries@).take(i as int + 1);
        assert(es.drop_last() =~= entries_view(entries@).take(i as int));
        assert(es.last() == entries@[i as int]@);
        ino = ino + 1;
        i = i + 1;
    }
    assert(entries_view(entries@).take(i as int) =~= entries_view(entries@));
    let mut trailer: Vec<u8> = Vec::new();
    trailer.push(0x54);
    trailer.push(0x52);
    trailer.push(0x41);
    trailer.push(0x49);
    trailer.push(0x4c);
    trailer.push(0x45);
    trailer.push(0x52);
    trailer.push(0x21);
    trailer.push(0x21);
    trailer.push(0x21);
    assert(trailer@ =~= trailer_name());
    let empty: Vec<u8> = Vec::new();
    write_entry_bytes(&mut out, 0, trailer.as_slice(), 0, 0, 0, empty.as_slice());
    let ghost body = out@;
    let rem = out.len() % 512;
    if rem != 0 {
        push_zeros(&mut out, 512 - rem);
    } else {
        assert(zeros(0) =~= Seq::<u8>::empty());
        assert(out@ =~= body + zeros(0));
    }
    Ok(out)
}

/// The numeric fields of an entry header that reading uses.
#[derive(Debug)]
pub struct HeaderFields {
    pub mode: u32,
    pub uid: u32,
    pub gid: u32,
    pub filesize: u32,
    pub namesize: u32,
}

/// The 8-byte header field at offset `lo` of the header at `pos`.
pub open spec fn field_at(d: Seq<u8>, pos: int, lo: int) -> Result<u32, CpioErrorView> {
    spec_hex32(d.subrange(pos + lo, pos + lo + 8))
}

/// The fields mode, uid, gid, filesize and namesize of the header at
/// `pos`, read in that order; the first that fails gives the error.
pub open spec fn header_fields(d: Seq<u8>, pos: int) -> Result<HeaderFields, CpioErrorView> {
    match field_at(d, pos, 14) {
        Err(e) => Err(e),
        Ok(mode) => match field_at(d, pos, 22) {
            Err(e) => Err(e),
            Ok(uid) => match field_at(d, pos, 30) {
                Err(e) => Err(e),
                Ok(gid) => match field_at(d, pos, 54) {
                    Err(e) => Err(e),
                    Ok(filesize) => match field_at(d, pos, 94) {
                        Err(e) => Err(e),
                        Ok(namesize) => Ok(HeaderFields { mode, uid, gid, filesize, namesize }),
                    },
                },
            },
        },
    }
}

/// The header at `pos` starts with `070701` or `070702`.
pub open spec fn has_magic(d: Seq<u8>, pos: int) -> bool {
    let m = d.subrange(pos, pos + 6);
    m == magic_newc() || m == magic_crc()
}

/// The name of an entry as text: its bytes decoded, or empty when they
/// are not UTF-8.
pub open spec fn name_text(b: Seq<u8>) -> Seq<char> {
    if valid_utf8(b) {
        decode_utf8(b)
    } else {
        Seq::empty()
    }
}

/// `Ok(es + rest)` where `r` is `Ok(rest)`; the error of `r` otherwise.
pub open spec fn prepend(
    es: Seq<CpioEntryView>,
    r: Result<Seq<CpioEntryView>, CpioErrorView>,
) -> Result<Seq<CpioEntryView>, CpioErrorView> {
    match r {
        Ok(rest) => Ok(es + rest),
        Err(e) => Err(e),
    }
}

#[verifier::opaque]
/// The entries of the archive `d` from the header at `pos` on, up to the
/// `TRAILER!!!` entry, or the first error met on the way.
pub open spec fn parse_from(d: Seq<u8>, pos: int) -> Result<Seq<CpioEntryView>, CpioErrorView>
    decreases d.len() + 4 - pos,
{
    if pos + 110 > d.len() {
        Err(CpioErrorView::Truncated { offset: pos })
    } else if !has_magic(d, pos) {
        Err(CpioErrorView::BadMagic { offset: pos })
    } else {
        match header_fields(d, pos) {
            Err(e) => Err(e),
            Ok(h) => {
                let name_start = pos + 110;
                let name_end = name_start + h.namesize;
                if name_end > d.len() {
                    Err(CpioErrorView::NameOutOfBounds { offset: pos })
                } else {
                    let name = d.subrange(name_start, name_end - 1);
                    let data_start = spec_align4(name_end);
                    let data_end = data_start + h.filesize;
                    if data_end > d.len() {
                        Err(CpioErrorView::DataOutOfBounds { name: name_text(name) })
                    } else if name == trailer_name() {
                        Ok(Seq::empty())
                    } else {
                        prepend(
                            seq![
                                CpioEntryView {
                                    name: name_text(name),
                                    mode: h.mode,
                                    uid: h.uid,
                                    gid: h.gid,
                                    data: d.subrange(data_start, data_end),
                                },
                            ],
                            parse_from(d, spec_align4(data_end)),
                        )
                    }
                }
            },
        }
    }
}

/// What `parse_cpio` gives for the archive `d`.
pub open spec fn spec_parse_cpio(d: Seq<u8>) -> Result<Seq<CpioEntryView>, CpioErrorView> {
    parse_from(d, 0)
}

#[verifier::opaque]
/// Reading from `pos` on meets an entry whose header passes every check
/// and gives a name size of 0 (the name, which holds its NUL, cannot be
/// empty; reading such an entry has no defined outcome).
pub open spec fn empty_name_reached(d: Seq<u8>, pos: int) -> bool
    decreases d.len() + 4 - pos,
{
    if pos + 110 > d.len() || !has_magic(d, pos) {
        false
    } else {
        match header_fields(d, pos) {
            Err(e) => false,
            Ok(h) => {
                let name_end = pos + 110 + h.namesize;
                if h.namesize == 0 {
                    true
                } else if name_end > d.len() {
                    false
                } else {
                    let name = d.subrange(pos + 110, name_end - 1);
                    let data_end = spec_align4(name_end) + h.filesize;
                    if data_end > d.len() || name == trailer_name() {
                        false
                    } else {
                        empty_name_reached(d, spec_align4(data_end))
                    }
                }
            },
        }
    }
}

/// The plain values of a sequence of entries.
pub open spec fn entries_view(s: Seq<CpioEntry>) -> Seq<CpioEntryView> {
    s.map_values(|e: CpioEntry| e@)
}

proof fn lemma_prepend_assoc(
    a: Seq<CpioEntryView>,
    b: Seq<CpioEntryView>,
    r: Result<Seq<CpioEntryView>, CpioErrorView>,
)
    ensures
        prepend(a, prepend(b, r)) == prepend(a + b, r),
{
    if let Ok(rest) = r {
        assert(a + (b + rest) =~= (a + b) + rest);
    }
}

fn has_magic_exec(data: &[u8], pos: usize) -> (r: bool)
    requires
        pos + 110 <= data@.len(),
    ensures
        r == has_magic(data@, pos as int),
{
    let ghost m = data@.subrange(pos as int, pos + 6);
    let r = data[pos] == 0x30 && data[pos + 1] == 0x37 && data[pos + 2] == 0x30 && data[pos + 3]
        == 0x37 && data[pos + 4] == 0x30 && (data[pos + 5] == 0x31 || data[pos + 5] == 0x32);
    assert(r ==> m =~= magic_newc() || m =~= magic_crc());
    assert(m == magic_newc() ==> m[0] == 0x30 && m[1] == 0x37 && m[2] == 0x30 && m[3] == 0x37
        && m[4] == 0x30 && m[5] == 0x31);
    assert(m == magic_crc() ==> m[5] == 0x32 && m[0] == 0x30 && m[1] == 0x37 && m[2] == 0x30
        && m[3] == 0x37 && m[4] == 0x30);
    r
}

fn is_trailer(name: &[u8]) -> (r: bool)
    ensures
        r == (name@ == trailer_name()),
{
    let ghost t = trailer_name();
    let r = name.len() == 10 && name[0] == 0x54 && name[1] == 0x52 && name[2] == 0x41 && name[3]
        == 0x49 && name[4] == 0x4c && name[5] == 0x45 && name[6] == 0x52 && name[7] == 0x21
        && name[8] == 0x21 && name[9] == 0x21;
    assert(r ==> name@ =~= t);
    assert(name@ == t ==> name@.len() == 10 && name@[0] == t[0] && name@[1] == t[1] && name@[2]
        == t[2] && name@[3] == t[3] && name@[4] == t[4] && name@[5] == t[5] && name@[6] == t[6]
        && name@[7] == t[7] && name@[8] == t[8] && name@[9] == t[9]);
    r
}

fn header_field(data: &[u8], pos: usize, lo: usize) -> (r: Result<u32, CpioError>)
    requires
        pos + 110 <= data@.len() <= usize::MAX,
        lo + 8 <= 110,
    ensures
        result_view(r) == field_at(data@, pos as int, lo as int),
{
    hex32(vstd::slice::slice_subrange(data, pos + lo, pos + lo + 8))
}

fn read_header(data: &[u8], pos: usize) -> (r: Result<HeaderFields, CpioError>)
    requires
        pos + 110 <= data@.len() <= usize::MAX,
    ensures
        result_view(r) == header_fields(data@, pos as int),
{
    let mode = header_field(data, pos, 14)?;
    let uid = header_field(data, pos, 22)?;
    let gid = header_field(data, pos, 30)?;
    let filesize = header_field(data, pos, 54)?;
    let namesize = header_field(data, pos, 94)?;
    Ok(HeaderFields { mode, uid, gid, filesize, namesize })
}

fn name_string(b: &[u8]) -> (s: String)
    ensures
        s@ == name_text(b@),
{
    match str_from_utf8(b) {
        Some(t) => t.to_owned(),
        None => String::new(),
    }
}

/// Whether reading `data` would meet an entry whose header gives a name
/// size of 0, the input that `parse_cpio` does not take: a caller holding
/// unknown bytes tests this first.
pub fn reaches_empty_name(data: &[u8]) -> (r: bool)
    requires
        data@.len() + 3 <= usize::MAX,
    ensures
        r == empty_name_reached(data@, 0),
{
    let ghost d = data@;
    let len = data.len();
    let mut pos: usize = 0;
    loop
        invariant
            d == data@,
            len == d.len(),
            len + 3 <= usize::MAX,
            pos <= len + 3,
            empty_name_reached(d, 0) == empty_name_reached(d, pos as int),
        decreases len + 4 - pos,
    {
        proof {
            reveal(empty_name_reached);
        }
        if len < 110 || pos > len - 110 {
            return false;
        }
        if !has_magic_exec(data, pos) {
            return false;
        }
        let h = match read_header(data, pos) {
            Ok(h) => h,
            Err(_) => {
                return false;
            },
        };
        if h.namesize == 0 {
            return true;
        }
        let name_start = pos + 110;
        if h.namesize as usize > len - name_start {
            return false;
        }
        let name_end = name_start + h.namesize as usize;
        let data_start = align4(name_end);
        if data_start > len || h.filesize as usize > len - data_start {
            return false;
        }
        let data_end = data_start + h.filesize as usize;
        if is_trailer(vstd::slice::slice_subrange(data, name_start, name_end - 1)) {
            return false;
        }
        pos = align4(data_end);
    }
}

/// Reads the entries of a `newc` archive, up to its `TRAILER!!!` entry;
/// what follows the trailer is not read.
pub fn parse_cpio(data: &[u8]) -> (r: Result<Vec<CpioEntry>, CpioError>)
    requires
        data@.len() + 3 <= usize::MAX,
        !empty_name_reached(data@, 0),
    ensures
        match r {
            Ok(es) => spec_parse_cpio(data@) == Ok::<_, CpioErrorView>(entries_view(es@)),
            Err(e) => spec_parse_cpio(data@) == Err::<Seq<CpioEntryView>, _>(e@),
        },
{
    let ghost d = data@;
    let len = data.len();
    reveal(parse_from);
    reveal(empty_name_reached);
    let mut entries: Vec<CpioEntry> = Vec::new();
    let mut pos: usize = 0;
    assert(prepend(entries_view(entries@), parse_from(d, 0)) == parse_from(d, 0)) by {
        if let Ok(rest) = parse_from(d, 0) {
            assert(entries_view(entries@) + rest =~= rest);
        }
    }
    loop
        invariant
            d == data@,
            len == d.len(),
            len + 3 <= usize::MAX,
            pos <= len + 3,
            spec_parse_cpio(d) == prepend(entries_view(entries@), parse_from(d, pos as int)),
            !empty_name_reached(d, pos as int),
        decreases len + 4 - pos,
    {
        proof {
            reveal(parse_from);
            reveal(empty_name_reached);
        }
        if len < 110 || pos > len - 110 {
            return Err(CpioError::Truncated { offset: pos });
        }
        if !has_magic_exec(data, pos) {
            return Err(CpioError::BadMagic { offset: pos });
        }
        let h = match read_header(data, pos) {
            Ok(h) => h,
            Err(e) => {
                return Err(e);
            },
        };
        let name_start = pos + 110;
        if h.namesize as usize > len - name_start {
            return Err(CpioError::NameOutOfBounds { offset: pos });
        }
        let name_end = name_start + h.namesize as usize;
        let name_bytes = vstd::slice::slice_subrange(data, name_start, name_end - 1);
        let name = name_string(name_bytes);
        let data_start = align4(name_end);
        if data_start > len || h.filesize as usize > len - data_start {
            return Err(CpioError::DataOutOfBounds { name });
        }
        let data_end = data_start + h.filesize as usize;
        if is_trailer(name_bytes) {
            assert(entries_view(entries@) + Seq::<CpioEntryView>::empty() =~= entries_view(
                entries@,
            ));
            return Ok(entries);
        }
        let contents = vstd::slice::slice_to_vec(vstd::slice::slice_subrange(data, data_start, data_end));
        let entry = CpioEntry { name, mode: h.mode, uid: h.uid, gid: h.gid, data: contents };
        let ghost old_entries = entries@;
        let ghost ev = entry@;
        entries.push(entry);
        proof {
            lemma_prepend_assoc(entries_view(old_entries), seq![ev], parse_from(d, spec_align4(data_end as int)));
            assert(entries_view(entries@) =~= entries_view(old_entries) + seq![ev]);
        }
        pos = align4(data_end);
    }
}

} // verus!
