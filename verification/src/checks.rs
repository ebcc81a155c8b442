//! Checks on identifiers, addresses and calendar dates, made by the `uuid`,
//! `url` and `jiff` crates.
use vstd::prelude::*;
use crate::text::{chars_of, contains_str, is_hex, is_lower, push_range};

verus! {

// ---------------------------------------------------------------------------
// UUIDs
// ---------------------------------------------------------------------------

/// Whether `s` is a UUID in hyphenated form: 36 hexadecimal digits and
/// hyphens, the hyphens exactly at positions 8, 13, 18 and 23.
pub open spec fn hyphenated(s: Seq<char>) -> bool {
    &&& s.len() == 36
    &&& forall|i: int|
        0 <= i < 36 ==> if i == 8 || i == 13 || i == 18 || i == 23 {
            s[i] == '-'
        } else {
            is_hex(#[trigger] s[i])
        }
}

/// Whether `c` equals the ASCII character `l` up to ASCII case (`l` lowercase).
pub open spec fn ascii_ci_eq(c: char, l: char) -> bool {
    c == l || (is_lower(l) && c as int == l as int - 32)
}

/// The URN prefix `urn:uuid:`, compared without regard to ASCII case.
pub open spec fn urn_prefix(s: Seq<char>) -> bool {
    &&& s.len() == 9
    &&& ascii_ci_eq(s[0], 'u') && ascii_ci_eq(s[1], 'r') && ascii_ci_eq(s[2], 'n')
    &&& s[3] == ':'
    &&& ascii_ci_eq(s[4], 'u') && ascii_ci_eq(s[5], 'u') && ascii_ci_eq(s[6], 'i')
    &&& ascii_ci_eq(s[7], 'd')
    &&& s[8] == ':'
}

/// Whether `s` is text that `Uuid::parse_str` accepts: 32 hexadecimal digits,
/// the hyphenated form, the hyphenated form in braces, or the hyphenated form
/// behind `urn:uuid:`.
pub open spec fn uuid_text(s: Seq<char>) -> bool {
    ||| s.len() == 32 && forall|i: int| 0 <= i < 32 ==> is_hex(#[trigger] s[i])
    ||| hyphenated(s)
    ||| s.len() == 38 && s[0] == '{' && s[37] == '}' && hyphenated(s.subrange(1, 37))
    ||| s.len() == 45 && urn_prefix(s.take(9)) && hyphenated(s.skip(9))
}

/// Calls `uuid::Uuid::parse_str` and reports whether it succeeded. The parser
/// accepts exactly the four textual forms of `uuid_text` (it works on the
/// UTF-8 bytes; every accepted form is ASCII, so bytes and characters agree).
#[verifier::external_body]
pub(crate) fn uuid_parses(s: &str) -> (r: bool)
    ensures
        r == uuid_text(s@),
{
    uuid::Uuid::parse_str(s).is_ok()
}

/// Calls `uuid::Uuid::new_v4` and formats the result with `Display`, which
/// writes the hyphenated form in lowercase. The value is random: nothing is
/// said of which UUID comes back.
#[verifier::external_body]
pub(crate) fn new_uuid() -> (r: String)
    ensures
        hyphenated(r@),
        forall|i: int| 0 <= i < 36 ==> !('A' <= #[trigger] r@[i] <= 'Z'),
{
    uuid::Uuid::new_v4().to_string()
}

/// The lowercase hexadecimal digit for `d` (0 to 15).
pub open spec fn hex_char(d: nat) -> char {
    if d == 0 { '0' } else if d == 1 { '1' } else if d == 2 { '2' } else if d == 3 { '3' }
    else if d == 4 { '4' } else if d == 5 { '5' } else if d == 6 { '6' } else if d == 7 { '7' }
    else if d == 8 { '8' } else if d == 9 { '9' } else if d == 10 { 'a' } else if d == 11 { 'b' }
    else if d == 12 { 'c' } else if d == 13 { 'd' } else if d == 14 { 'e' } else { 'f' }
}

/// The last `w` hexadecimal digits of `k`, most significant first.
pub open spec fn hex_digits(k: nat, w: nat) -> Seq<char>
    decreases w,
{
    if w == 0 {
        Seq::empty()
    } else {
        hex_digits(k / 16, (w - 1) as nat).push(hex_char(k % 16))
    }
}

/// 16 to the power `w`.
pub open spec fn pow16(w: nat) -> nat
    decreases w,
{
    if w == 0 {
        1
    } else {
        16 * pow16((w - 1) as nat)
    }
}

/// The UUID made of the first 19 characters of `base` (three groups and
/// their hyphens) followed by the 16 hexadecimal digits of `k` as the last
/// two groups.
pub open spec fn bumped_uuid(base: Seq<char>, k: nat) -> Seq<char> {
    let d = hex_digits(k, 16);
    base.take(19) + d.take(4) + seq!['-'] + d.skip(4)
}

proof fn lemma_hex_digits(k: nat, w: nat)
    ensures
        hex_digits(k, w).len() == w,
        forall|i: int| 0 <= i < w ==> is_hex(#[trigger] hex_digits(k, w)[i]),
    decreases w,
{
    if w > 0 {
        lemma_hex_digits(k / 16, (w - 1) as nat);
        let p = hex_digits(k / 16, (w - 1) as nat);
        assert forall|i: int| 0 <= i < w implies is_hex(#[trigger] hex_digits(k, w)[i]) by {
            if i < w - 1 {
                assert(hex_digits(k, w)[i] == p[i]);
            }
        }
    }
}

/// Numbers below `16^w` have distinct `w`-digit hexadecimal forms.
proof fn lemma_hex_digits_injective(a: nat, b: nat, w: nat)
    requires
        a < pow16(w),
        b < pow16(w),
        hex_digits(a, w) == hex_digits(b, w),
    ensures
        a == b,
    decreases w,
{
    if w == 0 {
    } else {
        let pa = hex_digits(a / 16, (w - 1) as nat);
        let pb = hex_digits(b / 16, (w - 1) as nat);
        assert(hex_digits(a, w).last() == hex_char(a % 16));
        assert(hex_digits(b, w).last() == hex_char(b % 16));
        assert(a % 16 == b % 16);
        assert(hex_digits(a, w).drop_last() =~= pa);
        assert(hex_digits(b, w).drop_last() =~= pb);
        let p = pow16((w - 1) as nat);
        assert(a / 16 < p) by (nonlinear_arith)
            requires
                a < 16 * p,
        ;
        assert(b / 16 < p) by (nonlinear_arith)
            requires
                b < 16 * p,
        ;
        lemma_hex_digits_injective(a / 16, b / 16, (w - 1) as nat);
    }
}

/// Distinct numbers give distinct bumped UUIDs, and each is hyphenated.
proof fn lemma_bumped(base: Seq<char>, a: nat, b: nat)
    requires
        hyphenated(base),
        a < pow16(16),
        b < pow16(16),
    ensures
        hyphenated(bumped_uuid(base, a)),
        bumped_uuid(base, a) == bumped_uuid(base, b) ==> a == b,
{
    lemma_hex_digits(a, 16);
    lemma_hex_digits(b, 16);
    let da = hex_digits(a, 16);
    let db = hex_digits(b, 16);
    let ca = bumped_uuid(base, a);
    let cb = bumped_uuid(base, b);
    assert(ca.len() == 36);
    assert forall|i: int| 0 <= i < 36 implies (if i == 8 || i == 13 || i == 18 || i == 23 {
        ca[i] == '-'
    } else {
        is_hex(#[trigger] ca[i])
    }) by {
        if i < 19 {
            assert(ca[i] == base[i]);
        } else if i < 23 {
            assert(ca[i] == da[i - 19]);
        } else if i > 23 {
            assert(ca[i] == da[i - 20]);
        }
    }
    if ca == cb {
        assert forall|i: int| 0 <= i < 16 implies da[i] == db[i] by {
            if i < 4 {
                assert(ca[19 + i] == da[i]);
                assert(cb[19 + i] == db[i]);
            } else {
                assert(ca[20 + i] == da[i]);
                assert(cb[20 + i] == db[i]);
            }
        }
        assert(da =~= db);
        lemma_hex_digits_injective(a, b, 16);
    }
}

/// `n + 1` distinct items cannot all be among `n` items.
proof fn lemma_pigeonhole(cands: Seq<Seq<char>>, taken: Seq<Seq<char>>)
    requires
        cands.no_duplicates(),
        forall|k: int| 0 <= k < cands.len() ==> taken.contains(#[trigger] cands[k]),
    ensures
        cands.len() <= taken.len(),
{
    broadcast use vstd::seq_lib::seq_to_set_is_finite;
    cands.unique_seq_to_set();
    taken.lemma_cardinality_of_set();
    assert forall|x: Seq<char>| cands.to_set().contains(x) implies taken.to_set().contains(x) by {
        let k = choose|k: int| 0 <= k < cands.len() && cands[k] == x;
        assert(taken.contains(cands[k]));
    }
    vstd::set_lib::lemma_len_subset(cands.to_set(), taken.to_set());
}

fn hex_char_of(d: usize) -> (c: char)
    requires
        d < 16,
    ensures
        c == hex_char(d as nat),
{
    if d == 0 { '0' } else if d == 1 { '1' } else if d == 2 { '2' } else if d == 3 { '3' }
    else if d == 4 { '4' } else if d == 5 { '5' } else if d == 6 { '6' } else if d == 7 { '7' }
    else if d == 8 { '8' } else if d == 9 { '9' } else if d == 10 { 'a' } else if d == 11 { 'b' }
    else if d == 12 { 'c' } else if d == 13 { 'd' } else if d == 14 { 'e' } else { 'f' }
}

/// Append the last `w` hexadecimal digits of `k`.
fn push_hex(s: &mut String, k: usize, w: usize)
    ensures
        final(s)@ == old(s)@ + hex_digits(k as nat, w as nat),
    decreases w,
{
    if w > 0 {
        push_hex(s, k / 16, w - 1);
        s.push(hex_char_of(k % 16));
        assert(hex_digits(k as nat, w as nat) == hex_digits((k / 16) as nat, (w - 1) as nat).push(
            hex_char((k % 16) as nat),
        ));
        assert(final(s)@ =~= old(s)@ + hex_digits(k as nat, w as nat)) by {
            assert(s@ =~= old(s)@ + hex_digits(k as nat, w as nat));
        }
    } else {
        assert(s@ =~= old(s)@ + hex_digits(k as nat, w as nat));
    }
}

/// The bumped UUID for `k` from the characters `base` of a hyphenated UUID.
fn bumped_text(base: &Vec<char>, k: usize) -> (r: String)
    requires
        base@.len() == 36,
    ensures
        r@ == bumped_uuid(base@, k as nat),
{
    let mut d = String::new();
    push_hex(&mut d, k, 16);
    proof {
        lemma_hex_digits(k as nat, 16);
    }
    let dv = chars_of(d.as_str());
    let mut r = String::new();
    push_range(&mut r, base.as_slice(), 0, 19);
    push_range(&mut r, dv.as_slice(), 0, 4);
    r.push('-');
    push_range(&mut r, dv.as_slice(), 4, 16);
    assert(r@ =~= bumped_uuid(base@, k as nat));
    r
}

/// A hyphenated UUID that `taken` does not hold: a random one, or, should it
/// be taken already, the first of its bumped forms (last two groups counting
/// up from zero) that is not. Among `n` taken IDs at most `n` bumped forms can
/// be taken, so one of the first `n + 1` is free.
pub(crate) fn fresh_uuid(taken: &Vec<String>) -> (r: String)
    ensures
        hyphenated(r@),
        !taken.deep_view().contains(r@),
{
    let drawn = new_uuid();
    if !contains_str(taken, drawn.as_str()) {
        return drawn;
    }
    let base = chars_of(drawn.as_str());
    let ghost tv = taken.deep_view();
    assert(pow16(16) == 0x1_0000_0000_0000_0000) by {
        reveal_with_fuel(pow16, 17);
    }
    let n: usize = taken.len();
    assert(tv.len() == n);
    let mut k: usize = 0;
    loop
        invariant
            tv.len() == n,
            base@ == drawn@,
            hyphenated(base@),
            pow16(16) == 0x1_0000_0000_0000_0000,
            tv == taken.deep_view(),
            k <= tv.len(),
            forall|j: int| 0 <= j < k ==> tv.contains(#[trigger] bumped_uuid(base@, j as nat)),
        decreases tv.len() - k,
    {
        let c = bumped_text(&base, k);
        proof {
            lemma_bumped(base@, k as nat, k as nat);
        }
        if !contains_str(taken, c.as_str()) {
            return c;
        }
        proof {
            let cands = Seq::new((k + 1) as nat, |j: int| bumped_uuid(base@, j as nat));
            assert forall|a: int, b: int| 0 <= a < cands.len() && 0 <= b < cands.len() && a != b implies cands[a]
                != cands[b] by {
                lemma_bumped(base@, a as nat, b as nat);
            }
            assert forall|j: int| 0 <= j < cands.len() implies tv.contains(#[trigger] cands[j]) by {
                if j < k {
                    assert(tv.contains(bumped_uuid(base@, j as nat)));
                }
            }
            lemma_pigeonhole(cands, tv);
            assert(cands.len() == k + 1);
        }
        k = k + 1;
    }
}

/// Every hyphenated UUID is accepted by the parser.
pub proof fn lemma_hyphenated_parses(s: Seq<char>)
    requires
        hyphenated(s),
    ensures
        uuid_text(s),
{
}

// ---------------------------------------------------------------------------
// URLs
// ---------------------------------------------------------------------------

/// Whether `url::Url::parse` accepts `s` (the WHATWG URL parser; it depends
/// on the text alone).
pub uninterp spec fn spec_url_valid(s: Seq<char>) -> bool;

/// Calls `url::Url::parse` and reports whether it succeeded.
#[verifier::external_body]
pub(crate) fn url_parses(s: &str) -> (r: bool)
    ensures
        r == spec_url_valid(s@),
{
    url::Url::parse(s).is_ok()
}

// ---------------------------------------------------------------------------
// Calendar dates
// ---------------------------------------------------------------------------

/// Whether `year` is a leap year in the proleptic Gregorian calendar.
pub open spec fn leap_year(year: int) -> bool {
    year % 4 == 0 && (year % 100 != 0 || year % 400 == 0)
}

/// The number of days in `month` (1-12) of `year`.
pub open spec fn days_in_month(year: int, month: int) -> int {
    if month == 2 {
        if leap_year(year) {
            29
        } else {
            28
        }
    } else if month == 4 || month == 6 || month == 9 || month == 11 {
        30
    } else {
        31
    }
}

/// Whether `jiff::civil::Date::new` accepts the components: year in
/// -9999..=9999, month in 1..=12 and day from 1 to the length of the month.
pub open spec fn civil_date_ok(year: int, month: int, day: int) -> bool {
    &&& -9999 <= year <= 9999
    &&& 1 <= month <= 12
    &&& 1 <= day <= days_in_month(year, month)
}

/// Calls `jiff::civil::Date::new` and reports whether it succeeded; its
/// documentation lists exactly the conditions of `civil_date_ok`.
#[verifier::external_body]
pub(crate) fn civil_date_exists(year: i16, month: i8, day: i8) -> (r: bool)
    ensures
        r == civil_date_ok(year as int, month as int, day as int),
{
    jiff::civil::Date::new(year, month, day).is_ok()
}

/// The year as `i16`, wrapping as an `as i16` cast does.
pub open spec fn wrapped_year(y: u16) -> int {
    if y <= 32767 {
        y as int
    } else {
        y as int - 65536
    }
}

/// Whether a parsed year, month and day name a day that exists, the year
/// taken as a signed 16-bit number.
pub fn day_exists(year: u16, month: u8, day: u8) -> (r: bool)
    requires
        month <= 12,
        day <= 31,
    ensures
        r == civil_date_ok(wrapped_year(year), month as int, day as int),
{
    let y: i16 = if year <= 32767 {
        year as i16
    } else {
        (year as i32 - 65536) as i16
    };
    civil_date_exists(y, month as i8, day as i8)
}

} // verus!
