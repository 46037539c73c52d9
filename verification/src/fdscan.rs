//! Finding the descriptor that the kernel side installed in this process:
//! among the entries of `/proc/self/fd`, the first whose name is a
//! descriptor number and whose link target holds a given text.

use vstd::prelude::*;
use vstd::utf8::*;

use crate::cpio_message::decimal;
use crate::error::Error;
use crate::ksyms::{find_from, lemma_find_from};
use crate::text::bytes_eq;

verus! {

/// An entry of `/proc/self/fd` as the caller read it: its name and the
/// target of its link, each `None` when it is not UTF-8 or (for the
/// target) could not be read.
#[derive(Debug)]
pub struct FdEntry {
    pub name: Option<String>,
    pub link: Option<String>,
}

/// `b` is an ASCII decimal digit.
pub open spec fn is_dec_digit(b: u8) -> bool {
    0x30 <= b <= 0x39
}

/// The number written by the decimal digits `s`.
pub open spec fn dec_value(s: Seq<u8>) -> int
    decreases s.len(),
{
    if s.len() == 0 {
        0
    } else {
        dec_value(s.drop_last()) * 10 + (s.last() - 0x30)
    }
}

/// The digits of a signed number: `s` without one leading `+` or `-`.
pub open spec fn signed_digits(s: Seq<u8>) -> Seq<u8> {
    if s.len() > 0 && (s[0] == 0x2b || s[0] == 0x2d) {
        s.drop_first()
    } else {
        s
    }
}

pub open spec fn all_dec_digits(d: Seq<u8>) -> bool {
    forall|i: int| 0 <= i < d.len() ==> #[trigger] is_dec_digit(d[i])
}

/// What `i32::from_str` (that is, `i32::from_str_radix(_, 10)`) reads
/// from `s`: an optional `+` or `-`, then one or more decimal digits,
/// whose signed value lies in the range of `i32`.
pub open spec fn spec_parse_i32(s: Seq<u8>) -> Option<i32> {
    let neg = s.len() > 0 && s[0] == 0x2d;
    let d = signed_digits(s);
    if d.len() == 0 || !all_dec_digits(d) {
        None
    } else {
        let v = if neg {
            -dec_value(d)
        } else {
            dec_value(d)
        };
        if i32::MIN <= v <= i32::MAX {
            Some(v as i32)
        } else {
            None
        }
    }
}

proof fn lemma_dec_value_prefix(s: Seq<u8>, k: int)
    requires
        0 <= k <= s.len(),
        forall|i: int| 0 <= i < s.len() ==> #[trigger] is_dec_digit(s[i]),
    ensures
        0 <= dec_value(s.take(k)) <= dec_value(s),
    decreases s.len(),
{
    if k < s.len() {
        lemma_dec_value_prefix(s.drop_last(), k);
        lemma_dec_value_prefix(s.drop_last(), s.len() - 1);
        assert(s.drop_last().take(s.len() - 1) =~= s.drop_last());
        assert(s.drop_last().take(k) =~= s.take(k));
        assert(is_dec_digit(s[s.len() - 1]));
    } else {
        assert(s.take(k) =~= s);
        if s.len() > 0 {
            lemma_dec_value_prefix(s.drop_last(), s.len() - 1);
            assert(s.drop_last().take(s.len() - 1) =~= s.drop_last());
            assert(is_dec_digit(s[s.len() - 1]));
        }
    }
}

/// Reads a descriptor number as `RawFd::from_str` does.
pub fn parse_i32(s: &[u8]) -> (r: Option<i32>)
    ensures
        r == spec_parse_i32(s@),
{
    let len = s.len();
    let neg = len > 0 && s[0] == 0x2d;
    let start: usize = if len > 0 && (s[0] == 0x2b || s[0] == 0x2d) {
        1
    } else {
        0
    };
    let ghost d = s@.subrange(start as int, len as int);
    assert(d =~= signed_digits(s@));
    if start == len {
        return None;
    }
    let mut acc: i64 = 0;
    let mut i: usize = start;
    assert(d.take(0) =~= Seq::<u8>::empty());
    while i < len
        invariant
            start <= i <= len,
            len == s@.len(),
            d == s@.subrange(start as int, len as int),
            d == signed_digits(s@),
            neg == (len > 0 && s@[0] == 0x2d),
            acc == dec_value(d.take(i - start)),
            0 <= acc <= 0x8000_0000,
            forall|j: int| 0 <= j < i - start ==> #[trigger] is_dec_digit(d[j]),
        decreases len - i,
    {
        let b = s[i];
        assert(d[i - start] == b);
        if b < 0x30 || b > 0x39 {
            assert(!is_dec_digit(d[i - start]));
            assert(!all_dec_digits(d));
            return None;
        }
        let ghost next = d.take(i - start + 1);
        assert(next.drop_last() =~= d.take(i - start));
        acc = acc * 10 + (b - 0x30) as i64;
        i = i + 1;
        if acc > 0x8000_0000 {
            proof {
                if all_dec_digits(d) {
                    lemma_dec_value_prefix(d, i - start);
                }
            }
            return None;
        }
    }
    assert(d.take(len - start) =~= d);
    let v: i64 = if neg {
        -acc
    } else {
        acc
    };
    if v < -0x8000_0000 || v > 0x7fff_ffff {
        return None;
    }
    Some(v as i32)
}

/// `hay` holds `needle`, as `str::contains` decides it for their bytes.
pub open spec fn contains_bytes(hay: Seq<u8>, needle: Seq<u8>) -> bool {
    find_from(hay, needle, 0) is Some
}

/// Whether the bytes `needle` stand somewhere in `hay`.
pub fn contains(hay: &[u8], needle: &[u8]) -> (r: bool)
    ensures
        r == contains_bytes(hay@, needle@),
{
    let hlen = hay.len();
    let nlen = needle.len();
    if nlen > hlen {
        return false;
    }
    let mut i: usize = 0;
    while i <= hlen - nlen
        invariant
            nlen <= hlen,
            hlen == hay@.len(),
            nlen == needle@.len(),
            i <= hlen - nlen + 1,
            find_from(hay@, needle@, 0) == find_from(hay@, needle@, i as int),
        decreases hlen - nlen + 1 - i,
    {
        if bytes_eq(vstd::slice::slice_subrange(hay, i, i + nlen), needle) {
            return true;
        }
        if i == hlen - nlen {
            assert(find_from(hay@, needle@, i as int + 1) is None);
            return false;
        }
        i = i + 1;
    }
    false
}

/// The descriptor that an entry names, when its link target holds
/// `target`.
pub open spec fn entry_fd(name: Option<Seq<char>>, link: Option<Seq<char>>, target: Seq<char>) -> Option<i32> {
    match (name, link) {
        (Some(n), Some(l)) => match spec_parse_i32(encode_utf8(n)) {
            Some(fd) => if contains_bytes(encode_utf8(l), encode_utf8(target)) {
                Some(fd)
            } else {
                None
            },
            None => None,
        },
        _ => None,
    }
}

/// The first of `es` that names a descriptor linked to `target`.
pub open spec fn first_fd(es: Seq<(Option<Seq<char>>, Option<Seq<char>>)>, target: Seq<char>) -> Option<i32>
    decreases es.len(),
{
    if es.len() == 0 {
        None
    } else {
        match entry_fd(es[0].0, es[0].1, target) {
            Some(fd) => Some(fd),
            None => first_fd(es.drop_first(), target),
        }
    }
}

pub open spec fn opt_view(o: Option<String>) -> Option<Seq<char>> {
    match o {
        Some(s) => Some(s@),
        None => None,
    }
}

/// The plain value of the entries of a directory listing.
pub open spec fn fd_entries_view(es: Seq<FdEntry>) -> Seq<(Option<Seq<char>>, Option<Seq<char>>)> {
    es.map_values(|e: FdEntry| (opt_view(e.name), opt_view(e.link)))
}

/// The number of the first entry of `entries` (in the order they were
/// listed) whose name reads as a descriptor number and whose link target
/// holds `target`; `FdNotFound(target)` when there is none.
pub fn find_fd_by_link(entries: &[FdEntry], target: &'static str) -> (r: Result<i32, Error>)
    ensures
        match first_fd(fd_entries_view(entries@), target@) {
            Some(fd) => r == Ok::<i32, Error>(fd),
            None => r == Err::<i32, Error>(Error::FdNotFound(target)),
        },
{
    let ghost all = fd_entries_view(entries@);
    let mut i: usize = 0;
    assert(all.skip(0) =~= all);
    while i < entries.len()
        invariant
            i <= entries@.len(),
            all == fd_entries_view(entries@),
            first_fd(all, target@) == first_fd(all.skip(i as int), target@),
        decreases entries@.len() - i,
    {
        let e = &entries[i];
        let ghost rest = all.skip(i as int);
        assert(rest[0] == (opt_view(e.name), opt_view(e.link)));
        assert(rest.drop_first() =~= all.skip(i as int + 1));
        match (&e.name, &e.link) {
            (Some(n), Some(l)) => match parse_i32(n.as_str().as_bytes()) {
                Some(fd) => {
                    if contains(l.as_str().as_bytes(), target.as_bytes()) {
                        return Ok(fd);
                    }
                },
                None => {},
            },
            _ => {},
        }
        i = i + 1;
    }
    assert(all.skip(i as int) =~= Seq::<(Option<Seq<char>>, Option<Seq<char>>)>::empty());
    Err(Error::FdNotFound(target))
}

proof fn lemma_decimal_digits(n: nat)
    ensures
        decimal(n).len() >= 1,
        all_dec_digits(decimal(n)),
        dec_value(decimal(n)) == n,
    decreases n,
{
    let s = decimal(n);
    if n < 10 {
        assert(s.drop_last() =~= Seq::<u8>::empty());
        assert(s.last() == (0x30 + n) as u8);
        assert(s.last() as int == 0x30 + n);
        assert(dec_value(s) == dec_value(s.drop_last()) * 10 + (s.last() - 0x30));
    } else {
        lemma_decimal_digits(n / 10);
        assert(s.drop_last() =~= decimal(n / 10));
        assert(s.last() == (0x30 + n % 10) as u8);
        assert(n == (n / 10) * 10 + n % 10);
        assert(s.last() as int == 0x30 + n % 10);
        assert(dec_value(s) == dec_value(s.drop_last()) * 10 + (s.last() - 0x30));
        assert forall|i: int| 0 <= i < s.len() implies #[trigger] is_dec_digit(s[i]) by {
            if i < s.len() - 1 {
                assert(s[i] == decimal(n / 10)[i]);
            }
        }
    }
}

/// A descriptor number written in decimal, as `/proc/self/fd` names an
/// entry, reads back as that number.
pub proof fn law_parse_i32_reads_decimal(n: nat)
    requires
        n <= i32::MAX,
    ensures
        spec_parse_i32(decimal(n)) == Some(n as i32),
{
    lemma_decimal_digits(n);
    assert(is_dec_digit(decimal(n)[0]));
}

/// The descriptor found is the number that the entry's name gives in
/// decimal: when no entry before entry `i` names a descriptor linked to
/// `target`, and entry `i` is named `n` in decimal with a link holding
/// `target`, the descriptor found is `n`.
pub proof fn law_fd_found_is_decimal_name(
    es: Seq<(Option<Seq<char>>, Option<Seq<char>>)>,
    target: Seq<char>,
    i: int,
    n: nat,
)
    requires
        0 <= i < es.len(),
        n <= i32::MAX,
        es[i].0 matches Some(name) && encode_utf8(name) == decimal(n),
        es[i].1 matches Some(link) && contains_bytes(encode_utf8(link), encode_utf8(target)),
        first_fd(es.take(i), target) is None,
    ensures
        first_fd(es, target) == Some(n as i32),
    decreases i,
{
    if i == 0 {
        law_parse_i32_reads_decimal(n);
    } else {
        let t = es.take(i);
        assert(t[0] == es[0]);
        assert(t.drop_first() =~= es.drop_first().take(i - 1));
        assert(es.drop_first()[i - 1] == es[i]);
        law_fd_found_is_decimal_name(es.drop_first(), target, i - 1, n);
    }
}

/// A descriptor is found only through an entry that names it in decimal
/// and whose link holds `target`.
pub proof fn law_found_fd_is_linked(es: Seq<(Option<Seq<char>>, Option<Seq<char>>)>, target: Seq<char>)
    requires
        first_fd(es, target) is Some,
    ensures
        exists|i: int|
            #![trigger es[i]]
            0 <= i < es.len() && (es[i].0 matches Some(name) && spec_parse_i32(encode_utf8(name))
                == first_fd(es, target)) && (es[i].1 matches Some(link) && contains_bytes(
                encode_utf8(link),
                encode_utf8(target),
            )),
    decreases es.len(),
{
    if entry_fd(es[0].0, es[0].1, target) is None {
        law_found_fd_is_linked(es.drop_first(), target);
        let i = choose|i: int|
            #![trigger es.drop_first()[i]]
            0 <= i < es.drop_first().len() && (es.drop_first()[i].0 matches Some(name)
                && spec_parse_i32(encode_utf8(name)) == first_fd(es.drop_first(), target)) && (
            es.drop_first()[i].1 matches Some(link) && contains_bytes(
                encode_utf8(link),
                encode_utf8(target),
            ));
        assert(es[i + 1] == es.drop_first()[i]);
    } else {
        assert(es[0].0 is Some && es[0].1 is Some);
    }
}

} // verus!
