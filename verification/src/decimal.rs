//! Exact decimal numbers, the client-side stand-in for the wire format's
//! arbitrary-precision money and quantity fields.
//!
//! A value is sign * digits * 10^-scale, held as ASCII digit bytes. The
//! canonical rendering and the literal parser are inverse to one another,
//! which is what the adapter's round-trip law rests on.

use vstd::prelude::*;
use vstd::string::StringSliceAdditionalSpecFns;

use crate::ApiError;
use crate::text::{
    all_digit_bytes, ascii_bytes, ascii_string, ascii_view, is_digit_byte,
};

verus! {

/// An exact decimal: the digit bytes of the unscaled value, and how many
/// of them fall behind the decimal point.
#[derive(Debug, Clone, PartialEq, Eq)]
pub struct Decimal {
    pub negative: bool,
    pub digits: Vec<u8>,
    pub scale: usize,
}

/// Well-formed decimals carry at least one ASCII digit, no redundant
/// leading zero, and never a negative zero.
pub open spec fn dec_wf(d: Decimal) -> bool {
    &&& d.digits@.len() >= 1
    &&& all_digit_bytes(d.digits@)
    &&& (d.digits@[0] == 48 ==> d.digits@.len() == 1)
    &&& (d.negative ==> d.digits@[0] != 48)
}

pub open spec fn zero_bytes(n: nat) -> Seq<u8> {
    Seq::new(n, |i: int| 48u8)
}

/// The canonical rendering of a decimal: sign, integer part, and, when
/// the scale is positive, a point followed by exactly `scale` digits.
pub open spec fn dec_bytes(d: Decimal) -> Seq<u8> {
    let sign: Seq<u8> = if d.negative {
        seq![45u8]
    } else {
        Seq::<u8>::empty()
    };
    let n = d.digits@.len() as int;
    let sc = d.scale as int;
    if sc == 0 {
        sign + d.digits@
    } else if n > sc {
        sign + d.digits@.take(n - sc) + seq![46u8] + d.digits@.skip(n - sc)
    } else {
        sign + seq![48u8, 46u8] + zero_bytes((sc - n) as nat) + d.digits@
    }
}

/// Length of an optional leading sign.
pub open spec fn sign_len(s: Seq<u8>) -> int {
    if s.len() > 0 && (s[0] == 43 || s[0] == 45) {
        1
    } else {
        0
    }
}

pub open spec fn has_minus(s: Seq<u8>) -> bool {
    s.len() > 0 && s[0] == 45
}

/// Index of the first point, or -1 when there is none.
pub open spec fn find_dot(t: Seq<u8>) -> int
    decreases t.len(),
{
    if t.len() == 0 {
        -1
    } else if t[0] == 46 {
        0
    } else {
        let r = find_dot(t.drop_first());
        if r < 0 {
            -1
        } else {
            r + 1
        }
    }
}

/// Drops leading zeros, keeping at least one digit.
pub open spec fn strip_zeros(s: Seq<u8>) -> Seq<u8>
    decreases s.len(),
{
    if s.len() > 1 && s[0] == 48 {
        strip_zeros(s.drop_first())
    } else {
        s
    }
}

/// A decimal literal: an optional sign, then digits, optionally a point
/// with at least one digit on each side. Nothing else - in particular no
/// currency symbols, exponents or blanks.
pub open spec fn is_unsigned_dec_lit(t: Seq<u8>) -> bool {
    let k = find_dot(t);
    if k < 0 {
        t.len() > 0 && all_digit_bytes(t)
    } else {
        &&& k >= 1
        &&& k <= t.len() - 2
        &&& all_digit_bytes(t.take(k))
        &&& all_digit_bytes(t.skip(k + 1))
    }
}

pub open spec fn is_dec_lit(s: Seq<u8>) -> bool {
    is_unsigned_dec_lit(s.skip(sign_len(s)))
}

/// What a decimal literal denotes: sign, stripped digit bytes, scale.
pub open spec fn spec_parse_dec(s: Seq<u8>) -> Option<(bool, Seq<u8>, int)> {
    if !is_dec_lit(s) {
        None
    } else {
        let t = s.skip(sign_len(s));
        let k = find_dot(t);
        let raw = if k < 0 {
            t
        } else {
            t.take(k) + t.skip(k + 1)
        };
        let ds = strip_zeros(raw);
        let sc: int = if k < 0 {
            0
        } else {
            t.len() - k - 1
        };
        let neg = has_minus(s) && ds != seq![48u8];
        Some((neg, ds, sc))
    }
}

impl Decimal {
    /// A fresh copy with the same fields.
    pub fn duplicate(&self) -> (r: Decimal)
        ensures
            r.negative == self.negative,
            r.digits@ == self.digits@,
            r.scale == self.scale,
    {
        let mut ds: Vec<u8> = Vec::new();
        let mut i: usize = 0;
        while i < self.digits.len()
            invariant
                i <= self.digits@.len(),
                ds@ == self.digits@.take(i as int),
            decreases self.digits@.len() - i,
        {
            ds.push(self.digits[i]);
            i += 1;
            assert(ds@ =~= self.digits@.take(i as int));
        }
        assert(ds@ =~= self.digits@);
        Decimal { negative: self.negative, digits: ds, scale: self.scale }
    }
}

/// Renders a decimal in its canonical literal form.
pub fn format_decimal(d: &Decimal) -> (s: String)
    requires
        dec_wf(*d),
    ensures
        s@ == ascii_view(dec_bytes(*d)),
{
    let mut out: Vec<u8> = Vec::new();
    if d.negative {
        out.push(45);
    }
    let ghost sign: Seq<u8> = if d.negative { seq![45u8] } else { Seq::<u8>::empty() };
    assert(out@ =~= sign);
    let n = d.digits.len();
    if d.scale == 0 {
        let mut i: usize = 0;
        while i < n
            invariant
                i <= n,
                n == d.digits@.len(),
                out@ == sign + d.digits@.take(i as int),
                dec_wf(*d),
            decreases n - i,
        {
            out.push(d.digits[i]);
            i += 1;
            assert(out@ =~= sign + d.digits@.take(i as int));
        }
        assert(out@ =~= dec_bytes(*d));
    } else if n > d.scale {
        let cut = n - d.scale;
        let mut i: usize = 0;
        while i < cut
            invariant
                i <= cut,
                cut <= n,
                n == d.digits@.len(),
                out@ == sign + d.digits@.take(i as int),
                dec_wf(*d),
            decreases cut - i,
        {
            out.push(d.digits[i]);
            i += 1;
            assert(out@ =~= sign + d.digits@.take(i as int));
        }
        out.push(46);
        let ghost head: Seq<u8> = sign + d.digits@.take(cut as int) + seq![46u8];
        assert(out@ =~= head);
        let mut j: usize = cut;
        while j < n
            invariant
                cut <= j <= n,
                n == d.digits@.len(),
                out@ == head + d.digits@.subrange(cut as int, j as int),
                dec_wf(*d),
            decreases n - j,
        {
            out.push(d.digits[j]);
            j += 1;
            assert(out@ =~= head + d.digits@.subrange(cut as int, j as int));
        }
        assert(d.digits@.subrange(cut as int, n as int) =~= d.digits@.skip(cut as int));
        assert(out@ =~= dec_bytes(*d));
    } else {
        out.push(48);
        out.push(46);
        let pad = d.scale - n;
        let ghost head: Seq<u8> = sign + seq![48u8, 46u8];
        assert(out@ =~= head + zero_bytes(0));
        let mut p: usize = 0;
        while p < pad
            invariant
                p <= pad,
                out@ == head + zero_bytes(p as nat),
            decreases pad - p,
        {
            out.push(48);
            p += 1;
            assert(out@ =~= head + zero_bytes(p as nat));
        }
        let ghost head2: Seq<u8> = head + zero_bytes(pad as nat);
        let mut i: usize = 0;
        while i < n
            invariant
                i <= n,
                n == d.digits@.len(),
                out@ == head2 + d.digits@.take(i as int),
                dec_wf(*d),
            decreases n - i,
        {
            out.push(d.digits[i]);
            i += 1;
            assert(out@ =~= head2 + d.digits@.take(i as int));
        }
        assert(out@ =~= dec_bytes(*d));
    }
    proof {
        lemma_dec_bytes_ascii(*d);
    }
    ascii_string(out)
}

pub proof fn lemma_dec_bytes_ascii(d: Decimal)
    requires
        dec_wf(d),
    ensures
        ascii_bytes(dec_bytes(d)),
{
}

/// Parses a decimal literal; any other string is a `Parse` error.
#[verifier::loop_isolation(false)]
#[verifier::rlimit(60)]
pub fn parse_decimal(s: &str) -> (r: Result<Decimal, ApiError>)
    ensures
        r is Ok <==> is_dec_lit(s.spec_bytes()),
        r matches Ok(d) ==> dec_wf(d) && Some((d.negative, d.digits@, d.scale as int))
            == spec_parse_dec(s.spec_bytes()),
        r is Err ==> r == Err::<Decimal, ApiError>(ApiError::Parse),
{
    let bytes = s.as_bytes();
    let n = bytes.len();
    let ghost sb: Seq<u8> = s.spec_bytes();
    let start: usize = if n > 0 && (bytes[0] == 43 || bytes[0] == 45) {
        1
    } else {
        0
    };
    assert(start as int == sign_len(sb));
    let neg0 = n > 0 && bytes[0] == 45;
    let ghost t: Seq<u8> = sb.skip(start as int);

    // locate the first point
    let mut k: usize = start;
    while k < n && bytes[k] != 46
        invariant
            start <= k <= n,
            n == sb.len(),
            bytes@ == sb,
            forall|j: int| start <= j < k ==> sb[j] != 46,
        decreases n - k,
    {
        k += 1;
    }
    proof {
        lemma_find_dot_at(t, k - start as int);
    }
    let has_dot = k < n;

    // the integer part must be at least one digit
    if k == start {
        return Err(ApiError::Parse);
    }
    let mut i: usize = start;
    while i < k
        invariant
            start <= i <= k <= n,
            n == sb.len(),
            bytes@ == sb,
            forall|j: int| start <= j < i ==> is_digit_byte(#[trigger] sb[j]),
        decreases k - i,
    {
        if bytes[i] < 48 || bytes[i] > 57 {
            proof {
                assert(t[i - start as int] == sb[i as int]);
                assert(!is_digit_byte(t[i - start as int]));
                if has_dot {
                    assert(t.take(k - start as int)[i - start as int] == t[i - start as int]);
                    assert(!all_digit_bytes(t.take(k - start as int)));
                } else {
                    assert(!all_digit_bytes(t));
                }
            }
            return Err(ApiError::Parse);
        }
        i += 1;
    }
    if has_dot {
        if k + 1 == n {
            return Err(ApiError::Parse);
        }
        let mut j: usize = k + 1;
        while j < n
            invariant
                k + 1 <= j <= n,
                n == sb.len(),
                bytes@ == sb,
                forall|m: int| k + 1 <= m < j ==> is_digit_byte(#[trigger] sb[m]),
            decreases n - j,
        {
            if bytes[j] < 48 || bytes[j] > 57 {
                proof {
                    assert(t[j - start as int] == sb[j as int]);
                    assert(!is_digit_byte(t[j - start as int]));
                    assert(t.skip(k - start as int + 1)[j - k - 1] == t[j - start as int]);
                    assert(!all_digit_bytes(t.skip(k - start as int + 1)));
                }
                return Err(ApiError::Parse);
            }
            j += 1;
        }
    }
    proof {
        if has_dot {
            assert forall|j: int| 0 <= j < t.take(k - start as int).len()
                implies is_digit_byte(#[trigger] t.take(k - start as int)[j]) by {
                assert(t.take(k - start as int)[j] == sb[j + start]);
            }
            assert forall|j: int| 0 <= j < t.skip(k - start as int + 1).len()
                implies is_digit_byte(#[trigger] t.skip(k - start as int + 1)[j]) by {
                assert(t.skip(k - start as int + 1)[j] == sb[j + k + 1]);
            }
        } else {
            assert forall|j: int| 0 <= j < t.len() implies is_digit_byte(#[trigger] t[j]) by {
                assert(t[j] == sb[j + start]);
            }
        }
        assert(is_dec_lit(sb));
    }

    // collect the digit bytes on both sides of the point
    let mut raw: Vec<u8> = Vec::new();
    let mut i2: usize = start;
    while i2 < k
        invariant
            start <= i2 <= k <= n,
            n == sb.len(),
            bytes@ == sb,
            raw@ == sb.subrange(start as int, i2 as int),
        decreases k - i2,
    {
        raw.push(bytes[i2]);
        i2 += 1;
        assert(raw@ =~= sb.subrange(start as int, i2 as int));
    }
    if has_dot {
        let mut j2: usize = k + 1;
        while j2 < n
            invariant
                k + 1 <= j2 <= n,
                k < n,
                start <= k,
                n == sb.len(),
                bytes@ == sb,
                raw@ == sb.subrange(start as int, k as int) + sb.subrange(k + 1, j2 as int),
            decreases n - j2,
        {
            raw.push(bytes[j2]);
            j2 += 1;
            assert(raw@ =~= sb.subrange(start as int, k as int) + sb.subrange(k + 1, j2 as int));
        }
    }
    let ghost kk: int = k - start as int;
    proof {
        if has_dot {
            assert(t.take(kk) =~= sb.subrange(start as int, k as int));
            assert(t.skip(kk + 1) =~= sb.subrange(k + 1, n as int));
            assert(raw@ =~= t.take(kk) + t.skip(kk + 1));
        } else {
            assert(raw@ =~= t);
        }
    }

    // drop redundant leading zeros
    let rn = raw.len();
    let mut z: usize = 0;
    while z + 1 < rn && raw[z] == 48
        invariant
            z < rn || z == 0,
            rn == raw@.len(),
            forall|j: int| 0 <= j < z ==> raw@[j] == 48,
        decreases rn - z,
    {
        z += 1;
    }
    proof {
        lemma_strip_zeros_at(raw@, z as int);
    }
    let mut digits: Vec<u8> = Vec::new();
    let mut m: usize = z;
    while m < rn
        invariant
            z <= m <= rn,
            rn == raw@.len(),
            digits@ == raw@.subrange(z as int, m as int),
        decreases rn - m,
    {
        digits.push(raw[m]);
        m += 1;
        assert(digits@ =~= raw@.subrange(z as int, m as int));
    }
    assert(digits@ =~= raw@.skip(z as int));
    let is_zero = digits.len() == 1 && digits[0] == 48;
    let scale: usize = if has_dot {
        n - k - 1
    } else {
        0
    };
    let d = Decimal { negative: neg0 && !is_zero, digits, scale };
    proof {
        assert(strip_zeros(raw@) == raw@.skip(z as int));
        assert(d.digits@ == strip_zeros(raw@));
        if is_zero {
            assert(d.digits@ =~= seq![48u8]);
        } else {
            assert(d.digits@ != seq![48u8]);
        }
        assert((d.negative, d.digits@, d.scale as int)
            == spec_parse_dec(sb)->Some_0);
    }
    Ok(d)
}


/// The canonical rendering of a well-formed decimal is a decimal literal,
/// and parsing it yields the decimal back: the adapter's round-trip law
/// for every money and quantity field.
pub proof fn lemma_dec_round_trip(d: Decimal)
    requires
        dec_wf(d),
    ensures
        is_dec_lit(dec_bytes(d)),
        spec_parse_dec(dec_bytes(d)) == Some((d.negative, d.digits@, d.scale as int)),
{
    let s = dec_bytes(d);
    let n = d.digits@.len() as int;
    let sc = d.scale as int;
    let sign: Seq<u8> = if d.negative { seq![45u8] } else { Seq::<u8>::empty() };
    let body: Seq<u8> = if sc == 0 {
        d.digits@
    } else if n > sc {
        d.digits@.take(n - sc) + seq![46u8] + d.digits@.skip(n - sc)
    } else {
        seq![48u8, 46u8] + zero_bytes((sc - n) as nat) + d.digits@
    };
    assert(s =~= sign + body);
    assert(body.len() > 0);
    assert(body[0] == 48 || is_digit_byte(body[0]));
    assert(sign_len(s) == if d.negative { 1int } else { 0int });
    assert(has_minus(s) == d.negative);
    let t = s.skip(sign_len(s));
    assert(t =~= body);

    if sc == 0 {
        lemma_find_dot_at(t, t.len() as int);
        assert(find_dot(t) == -1);
        lemma_strip_zeros_at(t, 0);
        assert(t.skip(0) =~= t);
        assert(strip_zeros(t) == t);
        assert(is_dec_lit(s));
        if d.negative {
            assert(t[0] != 48);
            assert(t != seq![48u8]);
        }
        assert(spec_parse_dec(s) == Some((d.negative, d.digits@, d.scale as int)));
    } else if n > sc {
        let a = d.digits@.take(n - sc);
        let b = d.digits@.skip(n - sc);
        assert(forall|j: int| 0 <= j < n - sc ==> t[j] == d.digits@[j] && is_digit_byte(t[j]));
        assert(t[n - sc] == 46);
        lemma_find_dot_at(t, n - sc);
        assert(find_dot(t) == n - sc);
        assert(t.take(n - sc) =~= a);
        assert(t.skip(n - sc + 1) =~= b);
        let raw = t.take(n - sc) + t.skip(n - sc + 1);
        assert(raw =~= d.digits@);
        lemma_strip_zeros_at(raw, 0);
        assert(raw.skip(0) =~= raw);
        assert(strip_zeros(raw) == d.digits@);
        assert(t.len() - (n - sc) - 1 == sc);
        assert(is_dec_lit(s));
        if d.negative {
            assert(d.digits@ != seq![48u8]);
        }
        assert(spec_parse_dec(s) == Some((d.negative, d.digits@, d.scale as int)));
    } else {
        let pad = (sc - n) as nat;
        assert(t[0] == 48 && t[0] != 46);
        assert(t[1] == 46);
        lemma_find_dot_at(t, 1);
        assert(find_dot(t) == 1);
        assert(t.len() == sc + 2);
        assert(t.take(1) =~= seq![48u8]);
        assert(all_digit_bytes(t.take(1)));
        let tail = zero_bytes(pad) + d.digits@;
        assert(t.skip(2) =~= tail);
        assert forall|j: int| 0 <= j < tail.len() implies is_digit_byte(#[trigger] tail[j]) by {
            if j < pad {
                assert(tail[j] == 48);
            } else {
                assert(tail[j] == d.digits@[j - pad]);
            }
        }
        let raw = t.take(1) + t.skip(2);
        assert(raw =~= zero_bytes(pad + 1) + d.digits@);
        assert(forall|j: int| 0 <= j < pad + 1 ==> raw[j] == 48);
        assert(raw.len() == sc + 1);
        if n > 1 {
            assert(raw[pad as int + 1] == d.digits@[0]);
            assert(d.digits@[0] != 48);
        }
        lemma_strip_zeros_at(raw, pad as int + 1);
        assert(raw.skip(pad as int + 1) =~= d.digits@);
        assert(strip_zeros(raw) == d.digits@);
        assert(t.len() - 1 - 1 == sc);
        assert(is_dec_lit(s));
        if d.negative {
            assert(d.digits@ != seq![48u8]);
        }
        assert(spec_parse_dec(s) == Some((d.negative, d.digits@, d.scale as int)));
    }
}

/// A scan that stops at the first point computes `find_dot`.
pub(crate) proof fn lemma_find_dot_at(t: Seq<u8>, k: int)
    requires
        0 <= k <= t.len(),
        forall|j: int| 0 <= j < k ==> t[j] != 46,
        k < t.len() ==> t[k] == 46,
    ensures
        find_dot(t) == if k == t.len() {
            -1int
        } else {
            k
        },
    decreases k,
{
    if t.len() == 0 {
    } else if k == 0 {
    } else {
        lemma_find_dot_at(t.drop_first(), k - 1);
    }
}

/// A scan that stops at the first byte that is not a zero (or at the last
/// byte) computes `strip_zeros`.
proof fn lemma_strip_zeros_at(t: Seq<u8>, z: int)
    requires
        0 <= z,
        t.len() > 0 ==> z < t.len(),
        t.len() == 0 ==> z == 0,
        forall|j: int| 0 <= j < z ==> t[j] == 48,
        z + 1 < t.len() ==> t[z] != 48,
    ensures
        strip_zeros(t) == t.skip(z),
    decreases z,
{
    if z == 0 {
        assert(t.skip(0) =~= t);
    } else {
        lemma_strip_zeros_at(t.drop_first(), z - 1);
        assert(t.drop_first().skip(z - 1) =~= t.skip(z));
    }
}

} // verus!
