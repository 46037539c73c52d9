//! The text of a [`CpioError`], as the archive reader reports it.

use vstd::prelude::*;
use vstd::utf8::*;

use crate::cpio::{CpioError, CpioErrorView};
use crate::cpio_laws::lemma_ascii_valid_utf8;
use crate::hex::{
    hex_digit_value, hex_digit_value_exec, is_hex_digit, is_hex_digit_exec, radix16_digits,
};
use crate::text::str_from_utf8;

verus! {

/// The decimal digits of `n`, as `format!("{}", n)` writes them.
pub open spec fn decimal(n: nat) -> Seq<u8>
    decreases n,
{
    if n < 10 {
        seq![(0x30 + n) as u8]
    } else {
        decimal(n / 10).push((0x30 + n % 10) as u8)
    }
}

/// `n` in decimal, as text.
pub open spec fn decimal_text(n: nat) -> Seq<char> {
    decode_utf8(decimal(n))
}

/// Reading the hexadecimal digits `d` from index `i` on, with the value
/// `acc` read so far, into a `u32`: whether a digit makes the value too
/// large before any byte that is no digit is met.
pub open spec fn overflows_first(d: Seq<u8>, i: int, acc: nat) -> bool
    decreases d.len() - i,
{
    if i < 0 || i >= d.len() || !is_hex_digit(d[i]) {
        false
    } else if acc * 16 + hex_digit_value(d[i]) > u32::MAX {
        true
    } else {
        overflows_first(d, i + 1, acc * 16 + hex_digit_value(d[i]))
    }
}

/// Why `u32::from_str_radix(s, 16)` rejects `s`, as its error reads: an
/// empty text; a value too large, when a digit overflows the `u32` before
/// any byte that is no digit; a byte that is no digit otherwise.
pub open spec fn radix16_reason(s: Seq<u8>) -> Seq<char> {
    if s.len() == 0 {
        "cannot parse integer from empty string"@
    } else if overflows_first(radix16_digits(s), 0, 0) {
        "number too large to fit in target type"@
    } else {
        "invalid digit found in string"@
    }
}

/// The text of an archive reading error.
pub open spec fn error_message(e: CpioErrorView) -> Seq<char> {
    match e {
        CpioErrorView::Truncated { offset } => "cpio truncated at offset "@ + decimal_text(
            offset as nat,
        ),
        CpioErrorView::BadMagic { offset } => "invalid cpio magic at offset "@ + decimal_text(
            offset as nat,
        ),
        CpioErrorView::NonUtf8Field => "non-utf8 cpio field"@,
        CpioErrorView::InvalidHex { field } => "hex32 parse '"@ + field + "': "@ + radix16_reason(
            encode_utf8(field),
        ),
        CpioErrorView::NameOutOfBounds { offset } => "cpio name out of bounds at offset "@
            + decimal_text(offset as nat),
        CpioErrorView::DataOutOfBounds { name } => "cpio data out of bounds for entry '"@ + name
            + "'"@,
    }
}

fn decimal_bytes(n: usize) -> (v: Vec<u8>)
    ensures
        v@ == decimal(n as nat),
        forall|i: int| 0 <= i < v@.len() ==> #[trigger] v@[i] < 0x80,
    decreases n,
{
    if n < 10 {
        let mut v: Vec<u8> = Vec::new();
        v.push((0x30 + n) as u8);
        assert(v@ =~= decimal(n as nat));
        v
    } else {
        let mut v = decimal_bytes(n / 10);
        v.push((0x30 + n % 10) as u8);
        v
    }
}

pub(crate) fn decimal_string(n: usize) -> (s: String)
    ensures
        s@ == decimal_text(n as nat),
{
    let b = decimal_bytes(n);
    proof {
        lemma_ascii_valid_utf8(b@);
    }
    match str_from_utf8(b.as_slice()) {
        Some(t) => t.to_owned(),
        None => String::new(),
    }
}

fn radix16_overflows(s: &[u8]) -> (r: bool)
    ensures
        r == overflows_first(radix16_digits(s@), 0, 0),
{
    let start: usize = if s.len() > 0 && s[0] == 0x2b {
        1
    } else {
        0
    };
    let ghost d = radix16_digits(s@);
    assert(d =~= s@.subrange(start as int, s@.len() as int));
    let mut i: usize = start;
    let mut acc: u64 = 0;
    while i < s.len()
        invariant
            start <= i <= s@.len(),
            d == s@.subrange(start as int, s@.len() as int),
            d == radix16_digits(s@),
            acc <= u32::MAX,
            overflows_first(d, 0, 0) == overflows_first(d, i - start, acc as nat),
        decreases s@.len() - i,
    {
        let b = s[i];
        assert(d[i - start] == b);
        if !is_hex_digit_exec(b) {
            return false;
        }
        let next = acc * 16 + hex_digit_value_exec(b);
        if next > 0xffff_ffffu64 {
            return true;
        }
        acc = next;
        i = i + 1;
    }
    false
}

fn radix16_reason_string(s: &[u8]) -> (r: String)
    ensures
        r@ == radix16_reason(s@),
{
    if s.len() == 0 {
        String::from_str("cannot parse integer from empty string")
    } else if radix16_overflows(s) {
        String::from_str("number too large to fit in target type")
    } else {
        String::from_str("invalid digit found in string")
    }
}

impl CpioError {
    /// The text of the error: what the archive reader reports.
    pub fn message(&self) -> (m: String)
        ensures
            m@ == error_message(self@),
    {
        match self {
            CpioError::Truncated { offset } => {
                let mut m = String::from_str("cpio truncated at offset ");
                let n = decimal_string(*offset);
                m.append(n.as_str());
                m
            },
            CpioError::BadMagic { offset } => {
                let mut m = String::from_str("invalid cpio magic at offset ");
                let n = decimal_string(*offset);
                m.append(n.as_str());
                m
            },
            CpioError::NonUtf8Field => String::from_str("non-utf8 cpio field"),
            CpioError::InvalidHex { field } => {
                let mut m = String::from_str("hex32 parse '");
                m.append(field.as_str());
                m.append("': ");
                let reason = radix16_reason_string(field.as_str().as_bytes());
                m.append(reason.as_str());
                m
            },
            CpioError::NameOutOfBounds { offset } => {
                let mut m = String::from_str("cpio name out of bounds at offset ");
                let n = decimal_string(*offset);
                m.append(n.as_str());
                m
            },
            CpioError::DataOutOfBounds { name } => {
                let mut m = String::from_str("cpio data out of bounds for entry '");
                m.append(name.as_str());
                m.append("'");
                m
            },
        }
    }
}

} // verus!
