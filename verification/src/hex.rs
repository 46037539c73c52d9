//! Hexadecimal digits: parsing with the rules of `from_str_radix(_, 16)`
//! and fixed-width lowercase formatting.

use vstd::prelude::*;

verus! {

/// `b` is an ASCII hexadecimal digit (`0-9`, `a-f`, `A-F`).
pub open spec fn is_hex_digit(b: u8) -> bool {
    (0x30 <= b <= 0x39) || (0x61 <= b <= 0x66) || (0x41 <= b <= 0x46)
}

/// The value of a hexadecimal digit.
pub open spec fn hex_digit_value(b: u8) -> nat {
    if b <= 0x39 {
        (b - 0x30) as nat
    } else if b >= 0x61 {
        (b - 0x61 + 10) as nat
    } else {
        (b - 0x41 + 10) as nat
    }
}

pub open spec fn all_hex_digits(s: Seq<u8>) -> bool {
    forall|i: int| 0 <= i < s.len() ==> #[trigger] is_hex_digit(s[i])
}

/// The number written by the digits `s`, most significant digit first.
pub open spec fn hex_value(s: Seq<u8>) -> nat
    decreases s.len(),
{
    if s.len() == 0 {
        0
    } else {
        hex_value(s.drop_last()) * 16 + hex_digit_value(s.last())
    }
}

/// The digits that `from_str_radix(_, 16)` reads for an unsigned type:
/// one leading `+` is skipped.
pub open spec fn radix16_digits(s: Seq<u8>) -> Seq<u8> {
    if s.len() > 0 && s[0] == 0x2b {
        s.drop_first()
    } else {
        s
    }
}

/// The number that `from_str_radix(_, 16)` reads from `s`, before any
/// bound of the target type: `None` when the digits are empty or hold a
/// byte that is no hexadecimal digit.
pub open spec fn radix16_value(s: Seq<u8>) -> Option<nat> {
    let d = radix16_digits(s);
    if d.len() > 0 && all_hex_digits(d) {
        Some(hex_value(d))
    } else {
        None
    }
}

/// What `u64::from_str_radix(s, 16).ok()` gives for the bytes `s`.
pub open spec fn radix16_u64(s: Seq<u8>) -> Option<u64> {
    match radix16_value(s) {
        Some(v) => if v <= u64::MAX {
            Some(v as u64)
        } else {
            None
        },
        None => None,
    }
}

/// A longer run of digits never has a smaller value.
pub proof fn lemma_hex_value_prefix(s: Seq<u8>, k: int)
    requires
        0 <= k <= s.len(),
    ensures
        hex_value(s.take(k)) <= hex_value(s),
    decreases s.len(),
{
    if k < s.len() {
        lemma_hex_value_prefix(s.drop_last(), k);
        assert(s.drop_last().take(k) =~= s.take(k));
    } else {
        assert(s.take(k) =~= s);
    }
}

pub(crate) fn is_hex_digit_exec(b: u8) -> (r: bool)
    ensures
        r == is_hex_digit(b),
{
    (0x30 <= b && b <= 0x39) || (0x61 <= b && b <= 0x66) || (0x41 <= b && b <= 0x46)
}

pub(crate) fn hex_digit_value_exec(b: u8) -> (r: u64)
    requires
        is_hex_digit(b),
    ensures
        r == hex_digit_value(b),
        r < 16,
{
    if b <= 0x39 {
        (b - 0x30) as u64
    } else if b >= 0x61 {
        (b - 0x61 + 10) as u64
    } else {
        (b - 0x41 + 10) as u64
    }
}

/// Reads `s` as `u64::from_str_radix(s, 16)` does: an optional `+`, then
/// one or more hexadecimal digits whose value fits in a `u64`.
pub fn parse_radix16_u64(s: &[u8]) -> (r: Option<u64>)
    ensures
        r == radix16_u64(s@),
{
    let len = s.len();
    let start: usize = if len > 0 && s[0] == 0x2b {
        1
    } else {
        0
    };
    let ghost d = radix16_digits(s@);
    assert(d =~= s@.subrange(start as int, len as int));
    if start == len {
        return None;
    }
    let mut acc: u64 = 0;
    let mut i: usize = start;
    assert(s@.subrange(start as int, i as int) =~= d.take(0));
    while i < len
        invariant
            start <= i <= len,
            len == s@.len(),
            d == s@.subrange(start as int, len as int),
            d == radix16_digits(s@),
            d.len() > 0,
            acc as nat == hex_value(d.take(i - start)),
            all_hex_digits(d.take(i - start)),
        decreases len - i,
    {
        let b = s[i];
        assert(d[i - start] == b);
        if !is_hex_digit_exec(b) {
            assert(!is_hex_digit(d[i - start]));
            assert(!all_hex_digits(d));
            return None;
        }
        let dv = hex_digit_value_exec(b);
        let ghost next = d.take(i - start + 1);
        assert(next.drop_last() =~= d.take(i - start));
        assert(next.last() == b);
        if acc >= 0x1000_0000_0000_0000u64 {
            assert(hex_value(next) > u64::MAX);
            proof {
                if all_hex_digits(d) {
                    lemma_hex_value_prefix(d, (i - start + 1) as int);
                }
            }
            return None;
        }
        acc = acc * 16 + dv;
        i = i + 1;
        assert(all_hex_digits(next)) by {
            assert forall|j: int| 0 <= j < next.len() implies #[trigger] is_hex_digit(next[j]) by {
                if j < next.len() - 1 {
                    assert(next[j] == d.take(i - 1 - start)[j]);
                }
            }
        }
    }
    assert(d.take(len - start) =~= d);
    Some(acc)
}

/// The lowercase ASCII digit for a value below 16.
pub open spec fn hex_char(v: nat) -> u8 {
    if v < 10 {
        (0x30 + v) as u8
    } else {
        (0x61 + v - 10) as u8
    }
}

/// The `k`-th four-bit group of `v`, counted from the most significant.
pub open spec fn nibble(v: u32, k: int) -> nat {
    ((v >> ((28 - 4 * k) as u32)) & 0xf) as nat
}

/// `v` as eight lowercase hexadecimal digits, as `format!("{:08x}", v)`
/// writes it.
pub open spec fn hex8(v: u32) -> Seq<u8> {
    Seq::new(8, |k: int| hex_char(nibble(v, k)))
}

/// The uppercase hexadecimal digit for `v < 16`.
pub open spec fn hex_char_upper(v: nat) -> u8 {
    if v < 10 {
        (0x30 + v) as u8
    } else {
        (0x41 + v - 10) as u8
    }
}

/// `v` as eight uppercase hexadecimal digits, as `format!("{:08X}", v)`
/// writes it.
pub open spec fn hex8_upper(v: u32) -> Seq<u8> {
    Seq::new(8, |k: int| hex_char_upper(nibble(v, k)))
}

pub proof fn lemma_hex_value_step(s: Seq<u8>, k: int)
    requires
        0 <= k < s.len(),
    ensures
        hex_value(s.take(k + 1)) == hex_value(s.take(k)) * 16 + hex_digit_value(s[k]),
{
    assert(s.take(k + 1).drop_last() =~= s.take(k));
}

pub proof fn lemma_hex_char(n: nat)
    requires
        n < 16,
    ensures
        is_hex_digit(hex_char(n)),
        hex_digit_value(hex_char(n)) == n,
        hex_char(n) != 0x2b,
{
}

proof fn lemma_nibble_bound(v: u32, k: int)
    requires
        0 <= k < 8,
    ensures
        nibble(v, k) < 16,
{
    assert(((v >> 28u32) & 0xf) < 16 && ((v >> 24u32) & 0xf) < 16 && ((v >> 20u32) & 0xf) < 16
        && ((v >> 16u32) & 0xf) < 16 && ((v >> 12u32) & 0xf) < 16 && ((v >> 8u32) & 0xf) < 16
        && ((v >> 4u32) & 0xf) < 16 && ((v >> 0u32) & 0xf) < 16) by (bit_vector);
    if k == 0 {} else if k == 1 {} else if k == 2 {} else if k == 3 {} else if k == 4 {
    } else if k == 5 {} else if k == 6 {} else {}
}

/// Eight digits whose values are the nibbles of `v`, most significant
/// first, read back as `v`.
proof fn lemma_nibble_digits(v: u32, s: Seq<u8>)
    requires
        s.len() == 8,
        forall|k: int| 0 <= k < 8 ==> is_hex_digit(#[trigger] s[k]) && hex_digit_value(s[k])
            == nibble(v, k),
    ensures
        all_hex_digits(s),
        radix16_digits(s) == s,
        radix16_value(s) == Some(v as nat),
{
    let n0 = nibble(v, 0);
    let n1 = nibble(v, 1);
    let n2 = nibble(v, 2);
    let n3 = nibble(v, 3);
    let n4 = nibble(v, 4);
    let n5 = nibble(v, 5);
    let n6 = nibble(v, 6);
    let n7 = nibble(v, 7);
    lemma_hex_value_step(s, 0);
    lemma_hex_value_step(s, 1);
    lemma_hex_value_step(s, 2);
    lemma_hex_value_step(s, 3);
    lemma_hex_value_step(s, 4);
    lemma_hex_value_step(s, 5);
    lemma_hex_value_step(s, 6);
    lemma_hex_value_step(s, 7);
    assert(s.take(0) =~= Seq::<u8>::empty());
    assert(hex_value(s.take(8)) == ((((((n0 * 16 + n1) * 16 + n2) * 16 + n3) * 16 + n4) * 16 + n5)
        * 16 + n6) * 16 + n7);
    assert(v as int == ((((((((v >> 28u32) & 0xf) * 16 + ((v >> 24u32) & 0xf)) * 16 + ((v >> 20u32)
        & 0xf)) * 16 + ((v >> 16u32) & 0xf)) * 16 + ((v >> 12u32) & 0xf)) * 16 + ((v >> 8u32)
        & 0xf)) * 16 + ((v >> 4u32) & 0xf)) * 16 + ((v >> 0u32) & 0xf)) by (bit_vector);
    assert(s.take(8) =~= s);
    assert(is_hex_digit(s[0]));
    assert(s[0] != 0x2b);
}

/// The eight digits of `hex8(v)` read back as `v`.
pub proof fn lemma_hex8_roundtrip(v: u32)
    ensures
        hex8(v).len() == 8,
        all_hex_digits(hex8(v)),
        radix16_digits(hex8(v)) == hex8(v),
        radix16_value(hex8(v)) == Some(v as nat),
{
    let s = hex8(v);
    assert forall|k: int| 0 <= k < 8 implies #[trigger] is_hex_digit(s[k]) && hex_digit_value(s[k])
        == nibble(v, k) by {
        lemma_nibble_bound(v, k);
        lemma_hex_char(nibble(v, k));
    }
    lemma_nibble_digits(v, s);
}

/// The eight digits of `hex8_upper(v)` read back as `v`.
pub proof fn lemma_hex8_upper_roundtrip(v: u32)
    ensures
        hex8_upper(v).len() == 8,
        all_hex_digits(hex8_upper(v)),
        radix16_digits(hex8_upper(v)) == hex8_upper(v),
        radix16_value(hex8_upper(v)) == Some(v as nat),
{
    let s = hex8_upper(v);
    assert forall|k: int| 0 <= k < 8 implies #[trigger] is_hex_digit(s[k]) && hex_digit_value(s[k])
        == nibble(v, k) by {
        lemma_nibble_bound(v, k);
    }
    lemma_nibble_digits(v, s);
}

fn hex_char_exec(n: u32) -> (r: u8)
    requires
        n < 16,
    ensures
        r == hex_char(n as nat),
{
    if n < 10 {
        (0x30 + n) as u8
    } else {
        (0x61 + n - 10) as u8
    }
}

/// Appends `format!("{:08x}", v)` to `out`.
pub fn push_hex8(out: &mut Vec<u8>, v: u32)
    ensures
        final(out)@ == old(out)@ + hex8(v),
{
    let ghost start = out@;
    let mut k: u32 = 0;
    while k < 8
        invariant
            k <= 8,
            out@ == start + hex8(v).take(k as int),
        decreases 8 - k,
    {
        let shift: u32 = 28 - 4 * k;
        let n = (v >> shift) & 0xf;
        assert(n < 16) by (bit_vector)
            requires n == (v >> shift) & 0xf;
        out.push(hex_char_exec(n));
        assert(hex8(v).take(k as int + 1) =~= hex8(v).take(k as int).push(hex_char(nibble(v, k as int))));
        k = k + 1;
    }
    assert(hex8(v).take(8) =~= hex8(v));
}

} // verus!
