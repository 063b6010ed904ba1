//! The ranking engine: orders name records by fuzzy similarity to a
//! search string, best first, with a stable descending sort - records
//! with equal scores keep their original relative order.
//!
//! Scores come from a trigram comparison and are carried as the bit
//! patterns of floats in [0, 1]; on that range the bit order is the
//! numeric order, so sorting on `u32` keys is sorting on scores, and no
//! not-a-number value can ever enter the sort.
//!
//! A product search string that reads as a number is taken for a barcode
//! and ranked against the UPC instead of the name.

use vstd::prelude::*;
use vstd::string::StringSliceAdditionalSpecFns;

use crate::decimal::{find_dot, lemma_find_dot_at, sign_len};
use crate::text::{all_digit_bytes, chars_bytes, is_digit_byte};

verus! {

/// The bit pattern of a similarity score of 1.0, the largest score the
/// comparison can produce.
pub open spec fn top_score() -> u32 {
    0x3F800000
}

/// The similarity score (as float bits) that the trigram comparison
/// assigns to a query and a target; a pure function of the two strings.
pub uninterp spec fn similarity_bits(query: Seq<char>, target: Seq<char>) -> u32;

/// Whether the trigram decomposition of `s` - padded with two blanks in
/// front and one behind - contains a blank-only trigram. Only such
/// targets can score against an empty query.
pub open spec fn padded_at(s: Seq<char>, i: int) -> char {
    if i < 2 {
        ' '
    } else if i - 2 < s.len() {
        s[i - 2]
    } else {
        ' '
    }
}

pub open spec fn has_triple_space(s: Seq<char>) -> bool {
    exists|i: int|
        0 <= i < s.len() + 1 && #[trigger] padded_at(s, i) == ' ' && padded_at(s, i + 1) == ' '
            && padded_at(s, i + 2) == ' '
}

/// Relies on `rust_fuzzy_search::fuzzy_compare`: a pure function of the
/// two strings that counts shared trigrams and crops the ratio into
/// [0.0, 1.0], so its bits never exceed those of 1.0; equal strings
/// share every trigram and score exactly 1.0 (their trigram count, at
/// most one beyond the length, stays exact as a float below 2^24); an
/// empty query has the single all-blank trigram, which a target without
/// one cannot match, for a score of 0.0.
#[verifier::external_body]
fn fuzzy_score_bits(query: &str, target: &str) -> (r: u32)
    ensures
        r == similarity_bits(query@, target@),
        r <= 0x3F800000,
        query@ == target@ && query@.len() < 0x1000000 ==> r == 0x3F800000,
        query@.len() == 0 && !has_triple_space(target@) ==> r == 0,
{
    rust_fuzzy_search::fuzzy_compare(query, target).to_bits()
}

// ---------------------------------------------------------------------
// The stable descending sort, specified by insertion

/// Inserts behind every entry whose score is at least as good: later
/// arrivals with equal scores stay behind earlier ones.
pub open spec fn insert_desc<T>(s: Seq<(u32, T)>, x: (u32, T)) -> Seq<(u32, T)>
    decreases s.len(),
{
    if s.len() == 0 {
        seq![x]
    } else if s[0].0 >= x.0 {
        seq![s[0]] + insert_desc(s.drop_first(), x)
    } else {
        seq![x] + s
    }
}

/// The stable descending sort of a scored sequence.
pub open spec fn sort_desc<T>(s: Seq<(u32, T)>) -> Seq<(u32, T)>
    decreases s.len(),
{
    if s.len() == 0 {
        Seq::<(u32, T)>::empty()
    } else {
        insert_desc(sort_desc(s.drop_last()), s.last())
    }
}

/// Inserting at the first index whose score is worse is what
/// `insert_desc` computes.
proof fn lemma_insert_at<T>(s: Seq<(u32, T)>, x: (u32, T), j: int)
    requires
        0 <= j <= s.len(),
        forall|i: int| 0 <= i < j ==> (#[trigger] s[i]).0 >= x.0,
        j < s.len() ==> s[j].0 < x.0,
    ensures
        insert_desc(s, x) == s.take(j) + seq![x] + s.skip(j),
    decreases j,
{
    if j == 0 {
        if s.len() == 0 {
            assert(insert_desc(s, x) =~= s.take(0) + seq![x] + s.skip(0));
        } else {
            assert(insert_desc(s, x) =~= s.take(0) + seq![x] + s.skip(0));
        }
    } else {
        lemma_insert_at(s.drop_first(), x, j - 1);
        assert(s.drop_first().take(j - 1) =~= s.take(j).drop_first());
        assert(s.drop_first().skip(j - 1) =~= s.skip(j));
        assert(insert_desc(s, x) =~= s.take(j) + seq![x] + s.skip(j));
    }
}

/// With every score at least as good as the new one, insertion appends.
proof fn lemma_insert_all_ge<T>(s: Seq<(u32, T)>, x: (u32, T))
    requires
        forall|i: int| 0 <= i < s.len() ==> (#[trigger] s[i]).0 >= x.0,
    ensures
        insert_desc(s, x) == s + seq![x],
    decreases s.len(),
{
    if s.len() == 0 {
        assert(insert_desc(s, x) =~= s + seq![x]);
    } else {
        lemma_insert_all_ge(s.drop_first(), x);
        assert(insert_desc(s, x) =~= s + seq![x]);
    }
}

/// When all scores tie, the sort is the identity: the stability law.
pub proof fn lemma_sort_ties_keep_order<T>(s: Seq<(u32, T)>)
    requires
        forall|i: int, j: int|
            0 <= i < s.len() && 0 <= j < s.len() ==> (#[trigger] s[i]).0 == (#[trigger] s[j]).0,
    ensures
        sort_desc(s) == s,
    decreases s.len(),
{
    if s.len() > 0 {
        lemma_sort_ties_keep_order(s.drop_last());
        lemma_insert_all_ge(s.drop_last(), s.last());
        assert(sort_desc(s) =~= s);
    }
}

proof fn lemma_insert_len<T>(s: Seq<(u32, T)>, x: (u32, T))
    ensures
        insert_desc(s, x).len() == s.len() + 1,
    decreases s.len(),
{
    if s.len() > 0 && s[0].0 >= x.0 {
        lemma_insert_len(s.drop_first(), x);
    }
}

/// The sort keeps the length, and the head of the result is one of the
/// entries, with a score no worse than any entry's.
pub proof fn lemma_sort_first_max<T>(s: Seq<(u32, T)>)
    requires
        s.len() > 0,
    ensures
        sort_desc(s).len() == s.len(),
        forall|i: int| 0 <= i < s.len() ==> sort_desc(s)[0].0 >= (#[trigger] s[i]).0,
        exists|i: int| 0 <= i < s.len() && sort_desc(s)[0] == s[i],
    decreases s.len(),
{
    let t = sort_desc(s.drop_last());
    lemma_insert_len(t, s.last());
    if s.len() == 1 {
        assert(sort_desc(s)[0] == s[0]);
    } else {
        lemma_sort_first_max(s.drop_last());
        assert(forall|i: int|
            0 <= i < s.len() - 1 ==> (#[trigger] s[i]).0 == s.drop_last()[i].0);
        if t[0].0 >= s.last().0 {
            assert(sort_desc(s)[0] == t[0]);
            let w = choose|i: int| 0 <= i < s.drop_last().len() && t[0] == s.drop_last()[i];
            assert(sort_desc(s)[0] == s[w]);
        } else {
            assert(sort_desc(s)[0] == s.last());
            assert(sort_desc(s)[0] == s[s.len() - 1]);
        }
    }
}


/// Ties break by original order: the head of the sorted sequence is the
/// earliest record whose score no other record beats.
pub proof fn lemma_sort_head_is_first_best<T>(s: Seq<(u32, T)>)
    requires
        s.len() > 0,
    ensures
        exists|f: int|
            0 <= f < s.len() && sort_desc(s)[0] == s[f] && (forall|j: int|
                0 <= j < f ==> (#[trigger] s[j]).0 < s[f].0) && (forall|j: int|
                0 <= j < s.len() ==> (#[trigger] s[j]).0 <= s[f].0),
    decreases s.len(),
{
    let t = sort_desc(s.drop_last());
    lemma_insert_len(t, s.last());
    if s.len() == 1 {
        let f: int = 0;
        assert(sort_desc(s)[0] == s[f] && (forall|j: int|
            0 <= j < f ==> (#[trigger] s[j]).0 < s[f].0) && (forall|j: int|
            0 <= j < s.len() ==> (#[trigger] s[j]).0 <= s[f].0));
    } else {
        lemma_sort_head_is_first_best(s.drop_last());
        lemma_sort_first_max(s.drop_last());
        let f0 = choose|f: int|
            0 <= f < s.drop_last().len() && t[0] == s.drop_last()[f] && (forall|j: int|
                0 <= j < f ==> (#[trigger] s.drop_last()[j]).0 < s.drop_last()[f].0) && (forall|
                j: int,
            |
                0 <= j < s.drop_last().len() ==> (#[trigger] s.drop_last()[j]).0
                    <= s.drop_last()[f].0);
        assert(forall|j: int| 0 <= j < s.len() - 1 ==> s.drop_last()[j] == (#[trigger] s[j]));
        if t[0].0 >= s.last().0 {
            assert(sort_desc(s)[0] == t[0]);
            let f = f0;
            assert(sort_desc(s)[0] == s[f] && (forall|j: int|
                0 <= j < f ==> (#[trigger] s[j]).0 < s[f].0) && (forall|j: int|
                0 <= j < s.len() ==> (#[trigger] s[j]).0 <= s[f].0));
        } else {
            assert(sort_desc(s)[0] == s.last());
            let f = s.len() - 1;
            assert(forall|j: int| 0 <= j < f ==> (#[trigger] s[j]).0 <= t[0].0);
            assert(sort_desc(s)[0] == s[f] && (forall|j: int|
                0 <= j < f ==> (#[trigger] s[j]).0 < s[f].0) && (forall|j: int|
                0 <= j < s.len() ==> (#[trigger] s[j]).0 <= s[f].0));
        }
    }
}

/// Inserts a scored record in front of the first strictly worse one.
#[verifier::loop_isolation(false)]
fn insert_scored<T>(out: &mut Vec<(u32, T)>, x: (u32, T))
    ensures
        final(out)@ == insert_desc(old(out)@, x),
{
    let n = out.len();
    let key = x.0;
    let mut j: usize = 0;
    while j < n && out[j].0 >= key
        invariant
            j <= n,
            forall|i: int| 0 <= i < j ==> (#[trigger] out@[i]).0 >= key,
        decreases n - j,
    {
        j += 1;
    }
    proof {
        lemma_insert_at(out@, x, j as int);
    }
    out.insert(j, x);
    assert(out@ =~= old(out)@.take(j as int) + seq![x] + old(out)@.skip(j as int));
}

/// The stable descending sort of a scored list.
#[verifier::loop_isolation(false)]
fn sort_scored<T>(items: Vec<(u32, T)>) -> (r: Vec<(u32, T)>)
    ensures
        r@ == sort_desc(items@),
{
    let ghost all: Seq<(u32, T)> = items@;
    let mut src = items;
    let mut out: Vec<(u32, T)> = Vec::new();
    while src.len() > 0
        invariant
            src@.len() <= all.len(),
            src@ == all.skip(all.len() - src@.len()),
            out@ == sort_desc(all.take(all.len() - src@.len())),
        decreases src@.len(),
    {
        let ghost i: int = all.len() - src@.len();
        let x = src.remove(0);
        proof {
            assert(src@ =~= all.skip(i + 1));
            assert(all.take(i + 1).drop_last() =~= all.take(i));
            assert(all.take(i + 1).last() == x);
        }
        insert_scored(&mut out, x);
    }
    assert(all.take(all.len() as int) =~= all);
    out
}



// ---------------------------------------------------------------------
// Numeric searches

/// Case folding for the special number words.
pub open spec fn lower_byte(b: u8) -> u8 {
    if 65 <= b <= 90 {
        (b + 32) as u8
    } else {
        b
    }
}

/// `inf`, `infinity` or `nan`, in any letter case.
pub open spec fn is_special_float(t: Seq<u8>) -> bool {
    ||| (t.len() == 3 && lower_byte(t[0]) == 105 && lower_byte(t[1]) == 110 && lower_byte(t[2])
        == 102)
    ||| (t.len() == 8 && lower_byte(t[0]) == 105 && lower_byte(t[1]) == 110 && lower_byte(t[2])
        == 102 && lower_byte(t[3]) == 105 && lower_byte(t[4]) == 110 && lower_byte(t[5]) == 105
        && lower_byte(t[6]) == 116 && lower_byte(t[7]) == 121)
    ||| (t.len() == 3 && lower_byte(t[0]) == 110 && lower_byte(t[1]) == 97 && lower_byte(t[2])
        == 110)
}

/// Digits with at most one point, and at least one digit overall.
pub open spec fn is_mantissa(m: Seq<u8>) -> bool {
    let k = find_dot(m);
    if k < 0 {
        m.len() > 0 && all_digit_bytes(m)
    } else {
        all_digit_bytes(m.take(k)) && all_digit_bytes(m.skip(k + 1)) && m.len() > 1
    }
}

/// An exponent body: an optional sign, then at least one digit.
pub open spec fn is_exp_part(x: Seq<u8>) -> bool {
    let y = x.skip(sign_len(x));
    y.len() > 0 && all_digit_bytes(y)
}

/// Index of the first exponent marker `e`/`E`, or -1 when there is none.
pub open spec fn find_exp(t: Seq<u8>) -> int
    decreases t.len(),
{
    if t.len() == 0 {
        -1
    } else if t[0] == 101 || t[0] == 69 {
        0
    } else {
        let r = find_exp(t.drop_first());
        if r < 0 {
            -1
        } else {
            r + 1
        }
    }
}

/// The number shape the standard float parser accepts: an optional
/// sign, then one of the special words, or a mantissa with an optional
/// exponent.
pub open spec fn is_float_lit(s: Seq<u8>) -> bool {
    let t = s.skip(sign_len(s));
    if is_special_float(t) {
        true
    } else {
        let e = find_exp(t);
        if e < 0 {
            is_mantissa(t)
        } else {
            is_mantissa(t.take(e)) && is_exp_part(t.skip(e + 1))
        }
    }
}

/// A scan that stops at the first exponent marker computes `find_exp`.
proof fn lemma_find_exp_at(t: Seq<u8>, k: int)
    requires
        0 <= k <= t.len(),
        forall|j: int| 0 <= j < k ==> t[j] != 101 && t[j] != 69,
        k < t.len() ==> t[k] == 101 || t[k] == 69,
    ensures
        find_exp(t) == if k == t.len() {
            -1int
        } else {
            k
        },
    decreases k,
{
    if t.len() == 0 {
    } else if k == 0 {
    } else {
        lemma_find_exp_at(t.drop_first(), k - 1);
    }
}

fn lower_b(b: u8) -> (r: u8)
    ensures
        r == lower_byte(b),
{
    if 65 <= b && b <= 90 {
        b + 32
    } else {
        b
    }
}

#[verifier::loop_isolation(false)]
fn digits_between(bytes: &[u8], lo: usize, hi: usize) -> (r: bool)
    requires
        lo <= hi <= bytes@.len(),
    ensures
        r == all_digit_bytes(bytes@.subrange(lo as int, hi as int)),
{
    let mut i: usize = lo;
    while i < hi
        invariant
            lo <= i <= hi,
            forall|j: int| lo <= j < i ==> is_digit_byte(#[trigger] bytes@[j]),
        decreases hi - i,
    {
        let b = bytes[i];
        if b < 48 || b > 57 {
            proof {
                assert(bytes@.subrange(lo as int, hi as int)[i - lo] == bytes@[i as int]);
                assert(!all_digit_bytes(bytes@.subrange(lo as int, hi as int)));
            }
            return false;
        }
        i += 1;
    }
    proof {
        assert forall|j: int| 0 <= j < hi - lo implies is_digit_byte(
            #[trigger] bytes@.subrange(lo as int, hi as int)[j],
        ) by {
            assert(bytes@.subrange(lo as int, hi as int)[j] == bytes@[j + lo]);
        }
    }
    true
}

#[verifier::loop_isolation(false)]
fn special_float_at(bytes: &[u8], start: usize) -> (r: bool)
    requires
        start <= bytes@.len(),
    ensures
        r == is_special_float(bytes@.skip(start as int)),
{
    let n = bytes.len();
    let len = n - start;
    let ghost t: Seq<u8> = bytes@.skip(start as int);
    assert(forall|j: int| 0 <= j < t.len() ==> t[j] == bytes@[start + j]);
    if len == 3 {
        let a = lower_b(bytes[start]);
        let b = lower_b(bytes[start + 1]);
        let c = lower_b(bytes[start + 2]);
        (a == 105 && b == 110 && c == 102) || (a == 110 && b == 97 && c == 110)
    } else if len == 8 {
        lower_b(bytes[start]) == 105 && lower_b(bytes[start + 1]) == 110 && lower_b(
            bytes[start + 2],
        ) == 102 && lower_b(bytes[start + 3]) == 105 && lower_b(bytes[start + 4]) == 110
            && lower_b(bytes[start + 5]) == 105 && lower_b(bytes[start + 6]) == 116 && lower_b(
            bytes[start + 7],
        ) == 121
    } else {
        false
    }
}

/// Recognizes a search string the standard float parser would accept -
/// the rule by which a product search is taken for a barcode.
#[verifier::loop_isolation(false)]
pub fn is_numeric_search(search: &str) -> (r: bool)
    ensures
        r == is_float_lit(search.spec_bytes()),
{
    let bytes = search.as_bytes();
    let n = bytes.len();
    let ghost sb: Seq<u8> = search.spec_bytes();
    let start: usize = if n > 0 && (bytes[0] == 43 || bytes[0] == 45) {
        1
    } else {
        0
    };
    assert(start as int == sign_len(sb));
    let ghost t: Seq<u8> = sb.skip(start as int);
    assert(forall|j: int| 0 <= j < t.len() ==> t[j] == sb[start + j]);
    if special_float_at(bytes, start) {
        return true;
    }
    // the first exponent marker
    let mut e: usize = start;
    while e < n && bytes[e] != 101 && bytes[e] != 69
        invariant
            start <= e <= n,
            forall|j: int| start <= j < e ==> sb[j] != 101 && sb[j] != 69,
        decreases n - e,
    {
        e += 1;
    }
    proof {
        lemma_find_exp_at(t, e - start as int);
    }
    let has_exp = e < n;
    // the mantissa: digits with at most one point
    let ghost m: Seq<u8> = t.take(e - start as int);
    assert(m =~= sb.subrange(start as int, e as int));
    let mut k: usize = start;
    while k < e && bytes[k] != 46
        invariant
            start <= k <= e,
            forall|j: int| start <= j < k ==> sb[j] != 46,
        decreases e - k,
    {
        k += 1;
    }
    proof {
        lemma_find_dot_at(m, k - start as int);
    }
    let mantissa_ok: bool = if k == e {
        e > start && digits_between(bytes, start, e)
    } else {
        proof {
            assert(m.take(k - start as int) =~= sb.subrange(start as int, k as int));
            assert(m.skip(k - start as int + 1) =~= sb.subrange(k + 1, e as int));
        }
        e - start > 1 && digits_between(bytes, start, k) && digits_between(bytes, k + 1, e)
    };
    assert(mantissa_ok == is_mantissa(m));
    if !mantissa_ok {
        return false;
    }
    if !has_exp {
        assert(m =~= t);
        return true;
    }
    // the exponent body: an optional sign, then digits
    let ghost x: Seq<u8> = t.skip(e - start as int + 1);
    assert(x =~= sb.subrange(e + 1, n as int));
    let xs: usize = if e + 1 < n && (bytes[e + 1] == 43 || bytes[e + 1] == 45) {
        e + 2
    } else {
        e + 1
    };
    proof {
        assert(xs - e - 1 == sign_len(x));
        assert(x.skip(sign_len(x)) =~= sb.subrange(xs as int, n as int));
    }
    n > xs && digits_between(bytes, xs, n)
}

// ---------------------------------------------------------------------
// Name records and the public ranking entry points

#[derive(Clone, Debug, PartialEq, Eq)]
pub struct ProductName {
    pub name: String,
    pub upc: String,
    pub id: i32,
}

#[derive(Clone, Debug, PartialEq, Eq)]
pub struct BrandName {
    pub name: String,
    pub id: i32,
}

#[derive(Clone, Debug, PartialEq, Eq)]
pub struct SupplierName {
    pub name: String,
    pub id: i32,
}

#[derive(Clone, Debug, PartialEq, Eq)]
pub struct CategoryName {
    pub name: String,
    pub id: i32,
}

pub open spec fn seconds_of<T>(s: Seq<(u32, T)>) -> Seq<T> {
    s.map_values(|p: (u32, T)| p.1)
}

/// Drops the score keys, keeping the sorted records.
#[verifier::loop_isolation(false)]
fn extract_records<T>(sorted: Vec<(u32, T)>) -> (r: Vec<T>)
    ensures
        r@ == seconds_of(sorted@),
{
    let ghost all: Seq<(u32, T)> = sorted@;
    let mut src = sorted;
    let mut out: Vec<T> = Vec::new();
    while src.len() > 0
        invariant
            src@.len() <= all.len(),
            src@ == all.skip(all.len() - src@.len()),
            out@ == seconds_of(all.take(all.len() - src@.len())),
        decreases src@.len(),
    {
        let ghost i: int = all.len() - src@.len();
        let x = src.remove(0);
        proof {
            assert(src@ =~= all.skip(i + 1));
        }
        out.push(x.1);
        assert(out@ =~= seconds_of(all.take(i + 1)));
    }
    assert(all.take(all.len() as int) =~= all);
    out
}


/// All scores zero: ranking leaves the order unchanged.
proof fn lemma_rank_all_zero<T>(sc: Seq<(u32, T)>)
    requires
        forall|j: int| 0 <= j < sc.len() ==> (#[trigger] sc[j]).0 == 0,
    ensures
        sort_desc(sc) == sc,
{
    lemma_sort_ties_keep_order(sc);
}

/// Some record carries the top score and none exceeds it: the head of
/// the ranking carries the top score.
proof fn lemma_rank_top_hit<T>(sc: Seq<(u32, T)>, i0: int)
    requires
        0 <= i0 < sc.len(),
        sc[i0].0 == top_score(),
        forall|j: int| 0 <= j < sc.len() ==> (#[trigger] sc[j]).0 <= top_score(),
    ensures
        sort_desc(sc).len() == sc.len(),
        sort_desc(sc)[0].0 == top_score(),
        exists|w: int| 0 <= w < sc.len() && sort_desc(sc)[0] == sc[w],
{
    lemma_sort_first_max(sc);
}

pub open spec fn category_scored(items: Seq<CategoryName>, q: Seq<char>) -> Seq<
    (u32, CategoryName),
> {
    items.map_values(|c: CategoryName| (similarity_bits(q, c.name@), c))
}

/// Orders category names by similarity to the search string, best
/// first. An empty search leaves the order unchanged; a search equal to
/// some name puts a top-scoring record first.
#[verifier::loop_isolation(false)]
pub fn sort_categories(category_names: Vec<CategoryName>, search: &str) -> (r: Vec<CategoryName>)
    ensures
        r@ == seconds_of(sort_desc(category_scored(category_names@, search@))),
        search@.len() == 0 && (forall|i: int|
            0 <= i < category_names@.len() ==> !has_triple_space(
                (#[trigger] category_names@[i]).name@,
            )) ==> r@ == category_names@,
        search@.len() < 0x1000000 && (exists|i: int|
            0 <= i < category_names@.len() && (#[trigger] category_names@[i]).name@
                == search@) ==> r@.len() > 0 && similarity_bits(search@, r@[0].name@)
            == top_score(),
{
    let ghost all: Seq<CategoryName> = category_names@;
    let ghost q: Seq<char> = search@;
    let mut src = category_names;
    let mut scored: Vec<(u32, CategoryName)> = Vec::new();
    while src.len() > 0
        invariant
            src@.len() <= all.len(),
            src@ == all.skip(all.len() - src@.len()),
            scored@ == category_scored(all.take(all.len() - src@.len()), q),
            forall|j: int| 0 <= j < scored@.len() ==> (#[trigger] scored@[j]).0 <= top_score(),
            forall|j: int|
                0 <= j < scored@.len() && q.len() == 0 && !has_triple_space(all[j].name@) ==> (
                #[trigger] scored@[j]).0 == 0,
            forall|j: int|
                0 <= j < scored@.len() && all[j].name@ == q && q.len() < 0x1000000 ==> (
                #[trigger] scored@[j]).0 == top_score(),
        decreases src@.len(),
    {
        let ghost i: int = all.len() - src@.len();
        let c = src.remove(0);
        proof {
            assert(src@ =~= all.skip(i + 1));
            assert(c == all[i]);
        }
        let score = fuzzy_score_bits(search, c.name.as_str());
        scored.push((score, c));
        assert(scored@ =~= category_scored(all.take(i + 1), q));
    }
    assert(all.take(all.len() as int) =~= all);
    let ghost sc: Seq<(u32, CategoryName)> = scored@;
    let sorted = sort_scored(scored);
    let out = extract_records(sorted);
    proof {
        if q.len() == 0 && (forall|i: int|
            0 <= i < all.len() ==> !has_triple_space((#[trigger] all[i]).name@)) {
            assert(forall|j: int| 0 <= j < sc.len() ==> (#[trigger] sc[j]).0 == 0);
            lemma_rank_all_zero(sc);
            assert(out@ =~= all);
        }
        if q.len() < 0x1000000 && (exists|i: int|
            0 <= i < all.len() && (#[trigger] all[i]).name@ == q) {
            let i0 = choose|i: int| 0 <= i < all.len() && (#[trigger] all[i]).name@ == q;
            assert(sc[i0].0 == top_score());
            lemma_rank_top_hit(sc, i0);
            let w = choose|i: int| 0 <= i < sc.len() && sort_desc(sc)[0] == sc[i];
            assert(out@[0] == sort_desc(sc)[0].1 && sort_desc(sc)[0].1 == all[w]);
            assert(similarity_bits(q, out@[0].name@) == sc[w].0);
        }
    }
    out
}

pub open spec fn brand_scored(items: Seq<BrandName>, q: Seq<char>) -> Seq<(u32, BrandName)> {
    items.map_values(|c: BrandName| (similarity_bits(q, c.name@), c))
}

/// Orders brand names by similarity to the search string, best first.
#[verifier::loop_isolation(false)]
pub fn sort_brands(brand_names: Vec<BrandName>, search: &str) -> (r: Vec<BrandName>)
    ensures
        r@ == seconds_of(sort_desc(brand_scored(brand_names@, search@))),
        search@.len() == 0 && (forall|i: int|
            0 <= i < brand_names@.len() ==> !has_triple_space(
                (#[trigger] brand_names@[i]).name@,
            )) ==> r@ == brand_names@,
        search@.len() < 0x1000000 && (exists|i: int|
            0 <= i < brand_names@.len() && (#[trigger] brand_names@[i]).name@ == search@)
            ==> r@.len() > 0 && similarity_bits(search@, r@[0].name@) == top_score(),
{
    let ghost all: Seq<BrandName> = brand_names@;
    let ghost q: Seq<char> = search@;
    let mut src = brand_names;
    let mut scored: Vec<(u32, BrandName)> = Vec::new();
    while src.len() > 0
        invariant
            src@.len() <= all.len(),
            src@ == all.skip(all.len() - src@.len()),
            scored@ == brand_scored(all.take(all.len() - src@.len()), q),
            forall|j: int| 0 <= j < scored@.len() ==> (#[trigger] scored@[j]).0 <= top_score(),
            forall|j: int|
                0 <= j < scored@.len() && q.len() == 0 && !has_triple_space(all[j].name@) ==> (
                #[trigger] scored@[j]).0 == 0,
            forall|j: int|
                0 <= j < scored@.len() && all[j].name@ == q && q.len() < 0x1000000 ==> (
                #[trigger] scored@[j]).0 == top_score(),
        decreases src@.len(),
    {
        let ghost i: int = all.len() - src@.len();
        let c = src.remove(0);
        proof {
            assert(src@ =~= all.skip(i + 1));
            assert(c == all[i]);
        }
        let score = fuzzy_score_bits(search, c.name.as_str());
        scored.push((score, c));
        assert(scored@ =~= brand_scored(all.take(i + 1), q));
    }
    assert(all.take(all.len() as int) =~= all);
    let ghost sc: Seq<(u32, BrandName)> = scored@;
    let sorted = sort_scored(scored);
    let out = extract_records(sorted);
    proof {
        if q.len() == 0 && (forall|i: int|
            0 <= i < all.len() ==> !has_triple_space((#[trigger] all[i]).name@)) {
            assert(forall|j: int| 0 <= j < sc.len() ==> (#[trigger] sc[j]).0 == 0);
            lemma_rank_all_zero(sc);
            assert(out@ =~= all);
        }
        if q.len() < 0x1000000 && (exists|i: int|
            0 <= i < all.len() && (#[trigger] all[i]).name@ == q) {
            let i0 = choose|i: int| 0 <= i < all.len() && (#[trigger] all[i]).name@ == q;
            assert(sc[i0].0 == top_score());
            lemma_rank_top_hit(sc, i0);
            let w = choose|i: int| 0 <= i < sc.len() && sort_desc(sc)[0] == sc[i];
            assert(out@[0] == sort_desc(sc)[0].1 && sort_desc(sc)[0].1 == all[w]);
            assert(similarity_bits(q, out@[0].name@) == sc[w].0);
        }
    }
    out
}

pub open spec fn supplier_scored(items: Seq<SupplierName>, q: Seq<char>) -> Seq<
    (u32, SupplierName),
> {
    items.map_values(|c: SupplierName| (similarity_bits(q, c.name@), c))
}

/// Orders supplier names by similarity to the search string, best first.
#[verifier::loop_isolation(false)]
pub fn sort_suppliers(supplier_names: Vec<SupplierName>, search: &str) -> (r: Vec<SupplierName>)
    ensures
        r@ == seconds_of(sort_desc(supplier_scored(supplier_names@, search@))),
        search@.len() == 0 && (forall|i: int|
            0 <= i < supplier_names@.len() ==> !has_triple_space(
                (#[trigger] supplier_names@[i]).name@,
            )) ==> r@ == supplier_names@,
        search@.len() < 0x1000000 && (exists|i: int|
            0 <= i < supplier_names@.len() && (#[trigger] supplier_names@[i]).name@
                == search@) ==> r@.len() > 0 && similarity_bits(search@, r@[0].name@)
            == top_score(),
{
    let ghost all: Seq<SupplierName> = supplier_names@;
    let ghost q: Seq<char> = search@;
    let mut src = supplier_names;
    let mut scored: Vec<(u32, SupplierName)> = Vec::new();
    while src.len() > 0
        invariant
            src@.len() <= all.len(),
            src@ == all.skip(all.len() - src@.len()),
            scored@ == supplier_scored(all.take(all.len() - src@.len()), q),
            forall|j: int| 0 <= j < scored@.len() ==> (#[trigger] scored@[j]).0 <= top_score(),
            forall|j: int|
                0 <= j < scored@.len() && q.len() == 0 && !has_triple_space(all[j].name@) ==> (
                #[trigger] scored@[j]).0 == 0,
            forall|j: int|
                0 <= j < scored@.len() && all[j].name@ == q && q.len() < 0x1000000 ==> (
                #[trigger] scored@[j]).0 == top_score(),
        decreases src@.len(),
    {
        let ghost i: int = all.len() - src@.len();
        let c = src.remove(0);
        proof {
            assert(src@ =~= all.skip(i + 1));
            assert(c == all[i]);
        }
        let score = fuzzy_score_bits(search, c.name.as_str());
        scored.push((score, c));
        assert(scored@ =~= supplier_scored(all.take(i + 1), q));
    }
    assert(all.take(all.len() as int) =~= all);
    let ghost sc: Seq<(u32, SupplierName)> = scored@;
    let sorted = sort_scored(scored);
    let out = extract_records(sorted);
    proof {
        if q.len() == 0 && (forall|i: int|
            0 <= i < all.len() ==> !has_triple_space((#[trigger] all[i]).name@)) {
            assert(forall|j: int| 0 <= j < sc.len() ==> (#[trigger] sc[j]).0 == 0);
            lemma_rank_all_zero(sc);
            assert(out@ =~= all);
        }
        if q.len() < 0x1000000 && (exists|i: int|
            0 <= i < all.len() && (#[trigger] all[i]).name@ == q) {
            let i0 = choose|i: int| 0 <= i < all.len() && (#[trigger] all[i]).name@ == q;
            assert(sc[i0].0 == top_score());
            lemma_rank_top_hit(sc, i0);
            let w = choose|i: int| 0 <= i < sc.len() && sort_desc(sc)[0] == sc[i];
            assert(out@[0] == sort_desc(sc)[0].1 && sort_desc(sc)[0].1 == all[w]);
            assert(similarity_bits(q, out@[0].name@) == sc[w].0);
        }
    }
    out
}

/// A search string that reads as a plain decimal number is taken for a
/// barcode, and products are ranked against the UPC instead of the name.
pub open spec fn product_scored(items: Seq<ProductName>, q: Seq<char>) -> Seq<
    (u32, ProductName),
> {
    if is_float_lit(chars_bytes(q)) {
        items.map_values(|c: ProductName| (similarity_bits(q, c.upc@), c))
    } else {
        items.map_values(|c: ProductName| (similarity_bits(q, c.name@), c))
    }
}

/// Orders product names by similarity to the search string, best first;
/// numeric searches rank against the UPC.
#[verifier::loop_isolation(false)]
pub fn sort_products(product_names: Vec<ProductName>, search: &str) -> (r: Vec<ProductName>)
    ensures
        r@ == seconds_of(sort_desc(product_scored(product_names@, search@))),
        search@.len() == 0 && (forall|i: int|
            0 <= i < product_names@.len() ==> !has_triple_space(
                (#[trigger] product_names@[i]).name@,
            )) ==> r@ == product_names@,
        !is_float_lit(chars_bytes(search@)) && search@.len() < 0x1000000 && (exists|i: int|
            0 <= i < product_names@.len() && (#[trigger] product_names@[i]).name@
                == search@) ==> r@.len() > 0 && similarity_bits(search@, r@[0].name@)
            == top_score(),
{
    let numeric = is_numeric_search(search);
    let ghost all: Seq<ProductName> = product_names@;
    let ghost q: Seq<char> = search@;
    let mut src = product_names;
    let mut scored: Vec<(u32, ProductName)> = Vec::new();
    while src.len() > 0
        invariant
            numeric == is_float_lit(chars_bytes(q)),
            src@.len() <= all.len(),
            src@ == all.skip(all.len() - src@.len()),
            scored@ == product_scored(all.take(all.len() - src@.len()), q),
            forall|j: int| 0 <= j < scored@.len() ==> (#[trigger] scored@[j]).0 <= top_score(),
            forall|j: int|
                0 <= j < scored@.len() && q.len() == 0 && !has_triple_space(all[j].name@) ==> (
                #[trigger] scored@[j]).0 == 0,
            forall|j: int|
                0 <= j < scored@.len() && !numeric && all[j].name@ == q && q.len() < 0x1000000
                    ==> (#[trigger] scored@[j]).0 == top_score(),
        decreases src@.len(),
    {
        let ghost i: int = all.len() - src@.len();
        let c = src.remove(0);
        proof {
            assert(src@ =~= all.skip(i + 1));
            assert(c == all[i]);
        }
        let score = if numeric {
            fuzzy_score_bits(search, c.upc.as_str())
        } else {
            fuzzy_score_bits(search, c.name.as_str())
        };
        proof {
            if q.len() == 0 {
                assert(!numeric);
            }
        }
        scored.push((score, c));
        assert(scored@ =~= product_scored(all.take(i + 1), q));
    }
    assert(all.take(all.len() as int) =~= all);
    let ghost sc: Seq<(u32, ProductName)> = scored@;
    let sorted = sort_scored(scored);
    let out = extract_records(sorted);
    proof {
        if q.len() == 0 && (forall|i: int|
            0 <= i < all.len() ==> !has_triple_space((#[trigger] all[i]).name@)) {
            assert(forall|j: int| 0 <= j < sc.len() ==> (#[trigger] sc[j]).0 == 0);
            lemma_rank_all_zero(sc);
            assert(out@ =~= all);
        }
        if !numeric && q.len() < 0x1000000 && (exists|i: int|
            0 <= i < all.len() && (#[trigger] all[i]).name@ == q) {
            let i0 = choose|i: int| 0 <= i < all.len() && (#[trigger] all[i]).name@ == q;
            assert(sc[i0].0 == top_score());
            lemma_rank_top_hit(sc, i0);
            let w = choose|i: int| 0 <= i < sc.len() && sort_desc(sc)[0] == sc[i];
            assert(out@[0] == sort_desc(sc)[0].1 && sort_desc(sc)[0].1 == all[w]);
            assert(similarity_bits(q, out@[0].name@) == sc[w].0);
        }
    }
    out
}

} // verus!
