//! Byte-level text helpers shared by the decimal, date, gateway and
//! validation modules. All formatting is done on ASCII byte vectors and
//! turned into `String`s at the very edge.

use vstd::prelude::*;
use vstd::string::StringSliceAdditionalSpecFns;

verus! {

/// ASCII code points used throughout the formatting and parsing code.
pub open spec fn is_digit_byte(b: u8) -> bool {
    48 <= b <= 57
}

pub open spec fn all_digit_bytes(s: Seq<u8>) -> bool {
    forall|i: int| 0 <= i < s.len() ==> is_digit_byte(#[trigger] s[i])
}

/// The decimal digit string of a non-negative integer, as ASCII bytes.
pub open spec fn dec_digits_of(n: nat) -> Seq<u8>
    decreases n,
{
    if n < 10 {
        seq![(n + 48) as u8]
    } else {
        dec_digits_of(n / 10) + seq![(n % 10 + 48) as u8]
    }
}

/// The decimal digit string of an integer, with a leading minus sign when
/// it is negative.
pub open spec fn int_bytes(i: int) -> Seq<u8> {
    if i < 0 {
        seq![45u8] + dec_digits_of((-i) as nat)
    } else {
        dec_digits_of(i as nat)
    }
}

pub proof fn lemma_dec_digits_are_digits(n: nat)
    ensures
        all_digit_bytes(dec_digits_of(n)),
        dec_digits_of(n).len() >= 1,
    decreases n,
{
    if n >= 10 {
        lemma_dec_digits_are_digits(n / 10);
    }
}

pub proof fn lemma_int_bytes_ascii(i: int)
    ensures
        forall|k: int| 0 <= k < int_bytes(i).len() ==> #[trigger] int_bytes(i)[k] < 128,
{
    if i < 0 {
        lemma_dec_digits_are_digits((-i) as nat);
    } else {
        lemma_dec_digits_are_digits(i as nat);
    }
}

/// Appends the decimal digits of `n` to `out`.
pub fn push_decimal_digits(n: u64, out: &mut Vec<u8>)
    ensures
        final(out)@ == old(out)@ + dec_digits_of(n as nat),
    decreases n,
{
    if n < 10 {
        out.push((n as u8) + 48);
        assert(out@ =~= old(out)@ + dec_digits_of(n as nat));
    } else {
        push_decimal_digits(n / 10, out);
        out.push((n % 10) as u8 + 48);
        assert(out@ =~= old(out)@ + dec_digits_of(n as nat));
    }
}

/// Appends the decimal digits of `n`, sign included, to `out`.
pub fn push_int_bytes(n: i64, out: &mut Vec<u8>)
    ensures
        final(out)@ == old(out)@ + int_bytes(n as int),
{
    let wide: i128 = n as i128;
    if wide < 0 {
        out.push(45);
        push_decimal_digits((-wide) as u64, out);
        assert(out@ =~= old(out)@ + int_bytes(n as int));
    } else {
        push_decimal_digits(wide as u64, out);
    }
}

/// The UTF-8 bytes of a character sequence: how a `String` field looks
/// on the wire.
pub open spec fn chars_bytes(s: Seq<char>) -> Seq<u8> {
    vstd::utf8::encode_utf8(s)
}

/// The characters of an ASCII byte sequence.
pub open spec fn ascii_view(bytes: Seq<u8>) -> Seq<char> {
    bytes.map_values(|b: u8| b as char)
}

pub open spec fn ascii_bytes(bytes: Seq<u8>) -> bool {
    forall|i: int| 0 <= i < bytes.len() ==> #[trigger] bytes[i] < 128
}

/// An ASCII byte sequence read back as characters encodes to the same
/// bytes.
pub proof fn lemma_ascii_encode(bytes: Seq<u8>)
    requires
        ascii_bytes(bytes),
    ensures
        vstd::utf8::encode_utf8(ascii_view(bytes)) == bytes,
    decreases bytes.len(),
{
    if bytes.len() > 0 {
        lemma_ascii_encode(bytes.drop_first());
        assert(ascii_view(bytes).drop_first() =~= ascii_view(bytes.drop_first()));
        assert(ascii_view(bytes)[0] == bytes[0] as char);
        assert((bytes[0] as char) as u32 == bytes[0] as u32);
        let b0 = bytes[0];
        assert((b0 as u32) & 0x7F == b0 as u32) by (bit_vector)
            requires
                b0 < 128,
        ;
        assert(vstd::utf8::encode_scalar(ascii_view(bytes)[0] as u32) =~= seq![bytes[0]]);
        assert(vstd::utf8::encode_utf8(ascii_view(bytes)) =~= bytes);
    } else {
        assert(vstd::utf8::encode_utf8(ascii_view(bytes)) =~= bytes);
    }
}

/// Relies on `String::from_utf8`: a vector of bytes below 128 is valid
/// UTF-8 and decodes to the string whose characters are exactly those
/// bytes.
#[verifier::external_body]
pub fn ascii_string(v: Vec<u8>) -> (s: String)
    requires
        ascii_bytes(v@),
    ensures
        s@ == ascii_view(v@),
{
    String::from_utf8(v).unwrap()
}

/// The decimal rendering of an integer, as the remote service expects it
/// in paths and query strings.
pub fn int_string(n: i64) -> (s: String)
    ensures
        s@ == ascii_view(int_bytes(n as int)),
{
    let mut out: Vec<u8> = Vec::new();
    push_int_bytes(n, &mut out);
    proof {
        lemma_int_bytes_ascii(n as int);
    }
    ascii_string(out)
}

/// The rendering of a boolean, as the remote service expects it.
pub open spec fn bool_bytes(b: bool) -> Seq<u8> {
    if b {
        seq![116u8, 114u8, 117u8, 101u8]
    } else {
        seq![102u8, 97u8, 108u8, 115u8, 101u8]
    }
}

pub fn bool_string(b: bool) -> (s: String)
    ensures
        s@ == ascii_view(bool_bytes(b)),
{
    let mut out: Vec<u8> = Vec::new();
    if b {
        out.push(116);
        out.push(114);
        out.push(117);
        out.push(101);
    } else {
        out.push(102);
        out.push(97);
        out.push(108);
        out.push(115);
        out.push(101);
    }
    assert(out@ =~= bool_bytes(b));
    ascii_string(out)
}

} // verus!
