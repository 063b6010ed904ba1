//! Syntax rules for supplier contact fields: a standard email shape, and
//! North-American phone numbers with optional country code, separators
//! and extension. An empty field means absence and is always accepted;
//! the supplier save gate additionally rejects a supplier with neither
//! contact present.

use vstd::prelude::*;
use vstd::string::StringSliceAdditionalSpecFns;

use crate::ApiError;
use crate::adapter::{supplier_wire_rel, AppSupplier};
use crate::models::Supplier;
use crate::text::is_digit_byte;

verus! {

pub open spec fn is_alpha_byte(b: u8) -> bool {
    (65 <= b <= 90) || (97 <= b <= 122)
}

pub open spec fn is_alnum_byte(b: u8) -> bool {
    is_alpha_byte(b) || is_digit_byte(b)
}

/// Characters allowed before the at sign: letters, digits, `._%+-`.
pub open spec fn is_local_byte(b: u8) -> bool {
    is_alnum_byte(b) || b == 46 || b == 95 || b == 37 || b == 43 || b == 45
}

/// Characters allowed in the domain before the final dot: letters,
/// digits, `.` and `-`.
pub open spec fn is_domain_byte(b: u8) -> bool {
    is_alnum_byte(b) || b == 46 || b == 45
}

/// A split of `s` into local part, `@`, domain, final dot and a top
/// level domain of at least two letters.
pub open spec fn email_split(s: Seq<u8>, a: int, d: int) -> bool {
    &&& 1 <= a
    &&& a + 2 <= d
    &&& d + 3 <= s.len()
    &&& s[a] == 64
    &&& s[d] == 46
    &&& (forall|i: int| 0 <= i < a ==> is_local_byte(#[trigger] s[i]))
    &&& (forall|i: int| a < i < d ==> is_domain_byte(#[trigger] s[i]))
    &&& (forall|i: int| d < i < s.len() ==> is_alpha_byte(#[trigger] s[i]))
}

pub open spec fn valid_email(s: Seq<u8>) -> bool {
    exists|a: int, d: int| email_split(s, a, d)
}

/// Recognizes the email shape. The at sign must be the first one, the
/// final dot the last, so the scan is deterministic.
#[verifier::loop_isolation(false)]
pub fn email_matches(bytes: &[u8]) -> (r: bool)
    ensures
        r == valid_email(bytes@),
{
    let n = bytes.len();
    let ghost s: Seq<u8> = bytes@;

    // the first at sign; every valid split must sit on it
    let mut a: usize = 0;
    while a < n && bytes[a] != 64
        invariant
            a <= n,
            forall|i: int| 0 <= i < a ==> s[i] != 64,
        decreases n - a,
    {
        a += 1;
    }
    if a == n || a == 0 {
        proof {
            assert forall|aa: int, dd: int| !email_split(s, aa, dd) by {
                if email_split(s, aa, dd) {
                    assert(s[aa] == 64);
                    if aa < a {
                    } else if aa > a && a < n {
                        assert(is_local_byte(s[a as int]));
                    }
                }
            }
        }
        return false;
    }
    let mut i: usize = 0;
    while i < a
        invariant
            i <= a,
            forall|j: int| 0 <= j < i ==> is_local_byte(#[trigger] s[j]),
        decreases a - i,
    {
        let b = bytes[i];
        if !((65 <= b && b <= 90) || (97 <= b && b <= 122) || (48 <= b && b <= 57) || b == 46
            || b == 95 || b == 37 || b == 43 || b == 45) {
            proof {
                assert(!is_local_byte(s[i as int]));
                assert forall|aa: int, dd: int| !email_split(s, aa, dd) by {
                    if email_split(s, aa, dd) {
                        if aa > i {
                            assert(is_local_byte(s[i as int]));
                        } else {
                            assert(s[aa] == 64 && aa < a);
                        }
                    }
                }
            }
            return false;
        }
        i += 1;
    }
    // the last dot after the at sign; every valid split must sit on it
    let mut d: usize = n;
    let mut scan: usize = n;
    while scan > a + 1
        invariant
            a + 1 <= scan <= n,
            a < n,
            d == n || (scan <= d < n && s[d as int] == 46),
            d == n ==> forall|i: int| scan <= i < n ==> s[i] != 46,
            d < n ==> forall|i: int| d < i < n ==> s[i] != 46,
        decreases scan,
    {
        scan -= 1;
        if bytes[scan] == 46 && d == n {
            d = scan;
        }
    }
    proof {
        assert forall|aa: int, dd: int| email_split(s, aa, dd) implies aa == a && dd == d by {
            assert(s[aa] == 64);
            if aa > a {
                assert(is_local_byte(s[a as int]));
                assert(false);
            }
            if aa < a {
                assert(s[aa] != 64);
                assert(false);
            }
            assert(s[dd] == 46);
            if d == n {
                assert(false);
            }
            if dd > d {
                assert(s[dd] != 46);
                assert(false);
            }
            if dd < d {
                assert(is_alpha_byte(s[d as int]));
                assert(false);
            }
        }
    }
    if d == n {
        return false;
    }
    if d - a < 2 {
        return false;
    }
    if n - d < 3 {
        return false;
    }
    let mut j: usize = a + 1;
    while j < d
        invariant
            a + 1 <= j <= d,
            d < n,
            forall|m: int| a < m < j ==> is_domain_byte(#[trigger] s[m]),
        decreases d - j,
    {
        let b = bytes[j];
        if !((65 <= b && b <= 90) || (97 <= b && b <= 122) || (48 <= b && b <= 57) || b == 46
            || b == 45) {
            proof {
                assert(!is_domain_byte(s[j as int]));
            }
            return false;
        }
        j += 1;
    }
    let mut t: usize = d + 1;
    while t < n
        invariant
            d + 1 <= t <= n,
            forall|m: int| d < m < t ==> is_alpha_byte(#[trigger] s[m]),
        decreases n - t,
    {
        let b = bytes[t];
        if !((65 <= b && b <= 90) || (97 <= b && b <= 122)) {
            proof {
                assert(!is_alpha_byte(s[t as int]));
            }
            return false;
        }
        t += 1;
    }
    proof {
        assert(email_split(s, a as int, d as int));
    }
    true
}

/// An email field is acceptable when absent or well-formed.
pub fn validate_email(input_str: &str) -> (r: bool)
    ensures
        r == (input_str.spec_bytes().len() == 0 || valid_email(input_str.spec_bytes())),
{
    let bytes = input_str.as_bytes();
    if bytes.len() == 0 {
        return true;
    }
    email_matches(bytes)
}

// ---------------------------------------------------------------------
// Phone numbers

pub open spec fn is_space_byte(b: u8) -> bool {
    b == 32 || b == 9 || b == 10 || b == 13 || b == 12 || b == 11
}

pub open spec fn is_sep_byte(b: u8) -> bool {
    b == 46 || b == 45
}

/// A North-American area code: first digit 2-9, and not ending in 11
/// unless the middle digit is 1 with a third digit other than 1.
pub open spec fn is_area_code(a0: u8, a1: u8, a2: u8) -> bool {
    &&& 50 <= a0 <= 57
    &&& {
        ||| (a1 == 49 && (a2 == 48 || 50 <= a2 <= 57))
        ||| ((a1 == 48 || 50 <= a1 <= 56) && a2 == 49)
        ||| ((a1 == 48 || 50 <= a1 <= 56) && (a2 == 48 || 50 <= a2 <= 57))
    }
}

pub open spec fn spec_skip_spaces(s: Seq<u8>, i: int) -> int
    decreases s.len() - i,
{
    if 0 <= i < s.len() && is_space_byte(s[i]) {
        spec_skip_spaces(s, i + 1)
    } else {
        i
    }
}

/// Blanks, then at most one `.` or `-`, then blanks.
pub open spec fn spec_opt_sep(s: Seq<u8>, i: int) -> int {
    let j = spec_skip_spaces(s, i);
    if 0 <= j < s.len() && is_sep_byte(s[j]) {
        spec_skip_spaces(s, j + 1)
    } else {
        j
    }
}

pub open spec fn digits_run(s: Seq<u8>, i: int, n: int) -> bool {
    &&& 0 <= i
    &&& i + n <= s.len()
    &&& forall|k: int| i <= k < i + n ==> is_digit_byte(#[trigger] s[k])
}

/// Index after the optional `+1` country prefix, or -1 when a `+` is
/// not followed by a `1`.
pub open spec fn spec_country_end(s: Seq<u8>) -> int {
    if s.len() > 0 && s[0] == 43 {
        if s.len() > 1 && s[1] == 49 {
            spec_opt_sep(s, 2)
        } else {
            -1
        }
    } else if s.len() > 0 && s[0] == 49 {
        spec_opt_sep(s, 1)
    } else {
        0
    }
}

/// Index after the area code starting at `i`, parenthesized or bare, or
/// -1 when there is none.
pub open spec fn spec_area_end(s: Seq<u8>, i: int) -> int {
    if 0 <= i < s.len() && s[i] == 40 {
        let j = spec_skip_spaces(s, i + 1);
        if j + 3 <= s.len() && digits_run(s, j, 3) && is_area_code(s[j], s[j + 1], s[j + 2]) {
            let k = spec_skip_spaces(s, j + 3);
            if k < s.len() && s[k] == 41 {
                k + 1
            } else {
                -1
            }
        } else {
            -1
        }
    } else if digits_run(s, i, 3) && 0 <= i && is_area_code(s[i], s[i + 1], s[i + 2]) {
        i + 3
    } else {
        -1
    }
}

/// Blanks, then digits reaching the end of the string.
pub open spec fn spec_digits_tail(s: Seq<u8>, i: int) -> bool {
    let j = spec_skip_spaces(s, i);
    j < s.len() && (forall|k: int| j <= k < s.len() ==> is_digit_byte(#[trigger] s[k]))
}

/// An extension suffix: `#`, `x`, `ext` or `extension` (the word forms
/// with an optional dot), then the extension digits.
pub open spec fn spec_ext_tail(s: Seq<u8>, i: int) -> bool {
    let j = spec_skip_spaces(s, i);
    if j < s.len() && s[j] == 35 {
        spec_digits_tail(s, j + 1)
    } else if j + 9 <= s.len() && s[j] == 101 && s[j + 1] == 120 && s[j + 2] == 116 && s[j + 3]
        == 101 && s[j + 4] == 110 && s[j + 5] == 115 && s[j + 6] == 105 && s[j + 7] == 111 && s[j
        + 8] == 110 {
        spec_digits_tail(s, j + 9)
    } else if j + 3 <= s.len() && s[j] == 101 && s[j + 1] == 120 && s[j + 2] == 116 {
        if j + 3 < s.len() && s[j + 3] == 46 {
            spec_digits_tail(s, j + 4)
        } else {
            spec_digits_tail(s, j + 3)
        }
    } else if j < s.len() && s[j] == 120 {
        if j + 1 < s.len() && s[j + 1] == 46 {
            spec_digits_tail(s, j + 2)
        } else {
            spec_digits_tail(s, j + 1)
        }
    } else {
        false
    }
}

/// The phone shape: optional `+1` country code, a required area code,
/// a three-digit exchange, four more digits, and an optional extension,
/// with blanks and single `.`/`-` separators between the groups.
pub open spec fn valid_phone(s: Seq<u8>) -> bool {
    let i0 = spec_country_end(s);
    if i0 < 0 {
        false
    } else {
        let i1 = spec_area_end(s, i0);
        if i1 < 0 {
            false
        } else {
            let i2 = spec_opt_sep(s, i1);
            if !digits_run(s, i2, 3) {
                false
            } else {
                let i3 = spec_opt_sep(s, i2 + 3);
                if !digits_run(s, i3, 4) {
                    false
                } else if i3 + 4 == s.len() {
                    true
                } else {
                    spec_ext_tail(s, i3 + 4)
                }
            }
        }
    }
}

fn skip_spaces(bytes: &[u8], i: usize) -> (r: usize)
    requires
        i <= bytes@.len(),
    ensures
        r == spec_skip_spaces(bytes@, i as int),
        i <= r <= bytes@.len(),
    decreases bytes@.len() - i,
{
    if i < bytes.len() {
        let b = bytes[i];
        if b == 32 || b == 9 || b == 10 || b == 13 || b == 12 || b == 11 {
            return skip_spaces(bytes, i + 1);
        }
    }
    i
}

fn opt_sep(bytes: &[u8], i: usize) -> (r: usize)
    requires
        i <= bytes@.len(),
    ensures
        r == spec_opt_sep(bytes@, i as int),
        i <= r <= bytes@.len(),
{
    let j = skip_spaces(bytes, i);
    if j < bytes.len() && (bytes[j] == 46 || bytes[j] == 45) {
        skip_spaces(bytes, j + 1)
    } else {
        j
    }
}

#[verifier::loop_isolation(false)]
fn check_digits(bytes: &[u8], i: usize, n: usize) -> (r: bool)
    ensures
        r == digits_run(bytes@, i as int, n as int),
{
    if i > bytes.len() || n > bytes.len() - i {
        return false;
    }
    let mut k: usize = i;
    while k < i + n
        invariant
            i <= k <= i + n,
            i + n <= bytes@.len(),
            forall|m: int| i <= m < k ==> is_digit_byte(#[trigger] bytes@[m]),
        decreases i + n - k,
    {
        let b = bytes[k];
        if b < 48 || b > 57 {
            proof {
                assert(!is_digit_byte(bytes@[k as int]));
            }
            return false;
        }
        k += 1;
    }
    true
}

fn area_code_at(bytes: &[u8], i: usize) -> (r: bool)
    requires
        i + 3 <= bytes@.len(),
    ensures
        r == is_area_code(bytes@[i as int], bytes@[i as int + 1], bytes@[i as int + 2]),
{
    let a0 = bytes[i];
    let a1 = bytes[i + 1];
    let a2 = bytes[i + 2];
    (50 <= a0 && a0 <= 57) && ((a1 == 49 && (a2 == 48 || (50 <= a2 && a2 <= 57))) || ((a1 == 48
        || (50 <= a1 && a1 <= 56)) && a2 == 49) || ((a1 == 48 || (50 <= a1 && a1 <= 56)) && (a2
        == 48 || (50 <= a2 && a2 <= 57))))
}

#[verifier::loop_isolation(false)]
fn digits_tail_at(bytes: &[u8], i: usize) -> (r: bool)
    requires
        i <= bytes@.len(),
    ensures
        r == spec_digits_tail(bytes@, i as int),
{
    let j = skip_spaces(bytes, i);
    if j >= bytes.len() {
        return false;
    }
    let n = bytes.len();
    let mut k: usize = j;
    while k < n
        invariant
            j <= k <= n,
            n == bytes@.len(),
            forall|m: int| j <= m < k ==> is_digit_byte(#[trigger] bytes@[m]),
        decreases n - k,
    {
        let b = bytes[k];
        if b < 48 || b > 57 {
            proof {
                assert(!is_digit_byte(bytes@[k as int]));
            }
            return false;
        }
        k += 1;
    }
    true
}

fn ext_tail_at(bytes: &[u8], i: usize) -> (r: bool)
    requires
        i <= bytes@.len(),
    ensures
        r == spec_ext_tail(bytes@, i as int),
{
    let j = skip_spaces(bytes, i);
    let n = bytes.len();
    if j < n && bytes[j] == 35 {
        return digits_tail_at(bytes, j + 1);
    }
    if n - j >= 9 && bytes[j] == 101 && bytes[j + 1] == 120 && bytes[j + 2] == 116 && bytes[j + 3]
        == 101 && bytes[j + 4] == 110 && bytes[j + 5] == 115 && bytes[j + 6] == 105 && bytes[j
        + 7] == 111 && bytes[j + 8] == 110 {
        return digits_tail_at(bytes, j + 9);
    }
    if n - j >= 3 && bytes[j] == 101 && bytes[j + 1] == 120 && bytes[j + 2] == 116 {
        if n - j > 3 && bytes[j + 3] == 46 {
            return digits_tail_at(bytes, j + 4);
        }
        return digits_tail_at(bytes, j + 3);
    }
    if j < n && bytes[j] == 120 {
        if j + 1 < n && bytes[j + 1] == 46 {
            return digits_tail_at(bytes, j + 2);
        }
        return digits_tail_at(bytes, j + 1);
    }
    false
}

/// Recognizes the phone shape.
pub fn phone_matches(bytes: &[u8]) -> (r: bool)
    ensures
        r == valid_phone(bytes@),
{
    let n = bytes.len();
    // country code
    let i0: usize = if n > 0 && bytes[0] == 43 {
        if n > 1 && bytes[1] == 49 {
            opt_sep(bytes, 2)
        } else {
            return false;
        }
    } else if n > 0 && bytes[0] == 49 {
        opt_sep(bytes, 1)
    } else {
        0
    };
    // area code
    let i1: usize = if i0 < n && bytes[i0] == 40 {
        let j = skip_spaces(bytes, i0 + 1);
        if n - j >= 3 && check_digits(bytes, j, 3) && area_code_at(bytes, j) {
            let k = skip_spaces(bytes, j + 3);
            if k < n && bytes[k] == 41 {
                k + 1
            } else {
                return false;
            }
        } else {
            return false;
        }
    } else {
        if check_digits(bytes, i0, 3) && area_code_at(bytes, i0) {
            i0 + 3
        } else {
            proof {
                if digits_run(bytes@, i0 as int, 3) {
                    assert(i0 + 3 <= n);
                }
            }
            return false;
        }
    };
    // exchange
    let i2 = opt_sep(bytes, i1);
    if !check_digits(bytes, i2, 3) {
        return false;
    }
    // line number
    let i3 = opt_sep(bytes, i2 + 3);
    if !check_digits(bytes, i3, 4) {
        return false;
    }
    if i3 + 4 == n {
        return true;
    }
    ext_tail_at(bytes, i3 + 4)
}

/// A phone field is acceptable when absent or well-formed.
pub fn validate_phone_number(input_str: &str) -> (r: bool)
    ensures
        r == (input_str.spec_bytes().len() == 0 || valid_phone(input_str.spec_bytes())),
{
    let bytes = input_str.as_bytes();
    if bytes.len() == 0 {
        return true;
    }
    phone_matches(bytes)
}

// ---------------------------------------------------------------------
// The supplier save gate

/// A supplier save is allowed when each present contact field is valid
/// and at least one of them is present.
pub open spec fn supplier_contact_ok(phone: Seq<u8>, email: Seq<u8>) -> bool {
    &&& (phone.len() > 0 ==> valid_phone(phone))
    &&& (email.len() > 0 ==> valid_email(email))
    &&& !(phone.len() == 0 && email.len() == 0)
}

/// Gates a supplier save: checks the contact fields, then converts to
/// the wire shape. Rejection is uniform, without saying which field
/// failed.
pub fn supplier_for_save(supplier: &AppSupplier) -> (r: Result<Supplier, ApiError>)
    ensures
        r is Ok <==> supplier_contact_ok(
            crate::text::chars_bytes(supplier.phone_number@),
            crate::text::chars_bytes(supplier.email@),
        ),
        r matches Ok(w) ==> supplier_wire_rel(*supplier, w),
        r is Err ==> r == Err::<Supplier, ApiError>(ApiError::Validation),
{
    let phone = supplier.phone_number.as_str();
    let email = supplier.email.as_str();
    let phone_empty = phone.as_bytes().len() == 0;
    let email_empty = email.as_bytes().len() == 0;
    if phone_empty && email_empty {
        return Err(ApiError::Validation);
    }
    if !phone_empty && !phone_matches(phone.as_bytes()) {
        return Err(ApiError::Validation);
    }
    if !email_empty && !email_matches(email.as_bytes()) {
        return Err(ApiError::Validation);
    }
    match supplier.to_supplier() {
        Ok(w) => Ok(w),
        Err(e) => Err(ApiError::Validation),
    }
}

} // verus!
