//! Decimal numbers written as text, as GPS coordinates are stored.
//!
//! A coordinate is kept as the decimal text that a chronicle file holds
//! (an optional `-`, digits, and an optional `.` followed by digits).
//! Text of any other shape (such as `NaN` or `inf`) is carried through
//! unchanged and is never a valid coordinate.
use vstd::prelude::*;
use crate::text::{
    all_digits, char_is_digit, chars_of, digit_char, digit_value, digits_value, is_digit, split_chars,
    split_on,
    str_eq,
};

verus! {

/// Sign, integer digits and fraction digits of a decimal, when `s` is one.
pub open spec fn decimal_parts(s: Seq<char>) -> Option<(bool, Seq<char>, Seq<char>)> {
    let neg = s.len() > 0 && s[0] == '-';
    let body = if neg {
        s.drop_first()
    } else {
        s
    };
    let parts = split_on(body, '.');
    if parts.len() == 1 && parts[0].len() > 0 && all_digits(parts[0]) {
        Some((neg, parts[0], Seq::empty()))
    } else if parts.len() == 2 && parts[0].len() > 0 && all_digits(parts[0]) && parts[1].len() > 0
        && all_digits(parts[1]) {
        Some((neg, parts[0], parts[1]))
    } else {
        None
    }
}

/// Every character of `s` is `0`.
pub open spec fn all_zero(s: Seq<char>) -> bool {
    forall|i: int| 0 <= i < s.len() ==> #[trigger] s[i] == '0'
}

/// The decimal `s` lies in `[-limit, limit]`.
pub open spec fn within(s: Seq<char>, limit: nat) -> bool {
    match decimal_parts(s) {
        Some((_, int_digits, frac)) => digits_value(int_digits) < limit || (digits_value(int_digits)
            == limit && all_zero(frac)),
        None => false,
    }
}

/// `s` without leading `0`s.
pub open spec fn strip_leading_zeros(s: Seq<char>) -> Seq<char>
    decreases s.len(),
{
    if s.len() > 0 && s[0] == '0' {
        strip_leading_zeros(s.drop_first())
    } else {
        s
    }
}

/// `s` without trailing `0`s.
pub open spec fn strip_trailing_zeros(s: Seq<char>) -> Seq<char>
    decreases s.len(),
{
    if s.len() > 0 && s.last() == '0' {
        strip_trailing_zeros(s.drop_last())
    } else {
        s
    }
}

/// The canonical form of a decimal's value: whether it is negative (zero is
/// not), its integer digits without leading zeros and its fraction digits
/// without trailing zeros. Two decimals have the same value exactly when
/// their canonical forms agree.
pub open spec fn canonical(parts: (bool, Seq<char>, Seq<char>)) -> (bool, Seq<char>, Seq<char>) {
    let i = strip_leading_zeros(parts.1);
    let f = strip_trailing_zeros(parts.2);
    (parts.0 && !(i.len() == 0 && f.len() == 0), i, f)
}

/// Whether two coordinate values are equal as numbers: decimals compare by
/// value (so `0` equals `-0`), the infinities equal themselves, and any other
/// text equals nothing.
pub open spec fn same_value(a: Seq<char>, b: Seq<char>) -> bool {
    match (decimal_parts(a), decimal_parts(b)) {
        (Some(pa), Some(pb)) => canonical(pa) == canonical(pb),
        (None, None) => a == b && (a == "inf"@ || a == "-inf"@),
        _ => false,
    }
}

/// Executable form of a decimal's parts.
pub struct DecimalParts {
    pub negative: bool,
    pub int_digits: Vec<char>,
    pub frac_digits: Vec<char>,
}

/// Split `s` into sign, integer digits and fraction digits, if it is a decimal.
pub fn parse_decimal(s: &str) -> (r: Option<DecimalParts>)
    ensures
        match decimal_parts(s@) {
            Some(p) => r matches Some(d) && d.negative == p.0 && d.int_digits@ == p.1
                && d.frac_digits@ == p.2,
            None => r is None,
        },
{
    let v = chars_of(s);
    let neg = v.len() > 0 && v[0] == '-';
    let mut body: Vec<char> = Vec::new();
    let start: usize = if neg {
        1
    } else {
        0
    };
    let mut i = start;
    while i < v.len()
        invariant
            start <= i <= v.len(),
            body@ == v@.subrange(start as int, i as int),
        decreases v.len() - i,
    {
        body.push(v[i]);
        i += 1;
        assert(body@ =~= v@.subrange(start as int, i as int));
    }
    assert(body@ =~= (if neg {
        s@.drop_first()
    } else {
        s@
    }));
    let parts = split_chars(&body, '.');
    proof {
        assert(parts.deep_view().len() == parts@.len());
    }
    if parts.len() == 1 {
        assert(parts@[0].deep_view() =~= parts@[0]@);
        if parts[0].len() > 0 && all_digit_chars(&parts[0]) {
            let d = DecimalParts { negative: neg, int_digits: copy_chars(&parts[0]), frac_digits: Vec::new() };
            assert(d.frac_digits@ =~= Seq::<char>::empty());
            return Some(d);
        }
        return None;
    }
    if parts.len() == 2 {
        assert(parts@[0].deep_view() =~= parts@[0]@);
        assert(parts@[1].deep_view() =~= parts@[1]@);
        if parts[0].len() > 0 && all_digit_chars(&parts[0]) && parts[1].len() > 0
            && all_digit_chars(&parts[1]) {
            return Some(
                DecimalParts {
                    negative: neg,
                    int_digits: copy_chars(&parts[0]),
                    frac_digits: copy_chars(&parts[1]),
                },
            );
        }
    }
    None
}

/// A copy of a character vector.
pub fn copy_chars(v: &Vec<char>) -> (r: Vec<char>)
    ensures
        r@ == v@,
{
    let mut r: Vec<char> = Vec::new();
    let mut i: usize = 0;
    while i < v.len()
        invariant
            i <= v.len(),
            r@ == v@.take(i as int),
        decreases v.len() - i,
    {
        r.push(v[i]);
        i += 1;
        assert(r@ =~= v@.take(i as int));
    }
    assert(v@.take(v.len() as int) =~= v@);
    r
}

/// Whether every character is an ASCII digit.
pub fn all_digit_chars(v: &Vec<char>) -> (r: bool)
    ensures
        r == all_digits(v@),
{
    let mut i: usize = 0;
    while i < v.len()
        invariant
            i <= v.len(),
            forall|j: int| 0 <= j < i ==> is_digit(#[trigger] v@[j]),
        decreases v.len() - i,
    {
        if !char_is_digit(v[i]) {
            return false;
        }
        i += 1;
    }
    true
}

/// Whether every character is `0`.
pub fn all_zero_chars(v: &Vec<char>) -> (r: bool)
    ensures
        r == all_zero(v@),
{
    let mut i: usize = 0;
    while i < v.len()
        invariant
            i <= v.len(),
            forall|j: int| 0 <= j < i ==> #[trigger] v@[j] == '0',
        decreases v.len() - i,
    {
        if v[i] != '0' {
            return false;
        }
        i += 1;
    }
    true
}

proof fn lemma_digits_value_step(s: Seq<char>, i: int)
    requires
        0 <= i < s.len(),
    ensures
        digits_value(s.take(i + 1)) == digits_value(s.take(i)) * 10 + digit_value(s[i]),
{
    assert(s.take(i + 1).drop_last() =~= s.take(i));
}

/// The value of a digit string, or `cap` when it is at least `cap`.
pub fn capped_value(v: &Vec<char>, cap: u32) -> (r: u32)
    requires
        all_digits(v@),
        cap < 0x1000_0000,
    ensures
        r == (if digits_value(v@) < cap {
            digits_value(v@)
        } else {
            cap as nat
        }),
{
    let mut value: u32 = 0;
    let mut i: usize = 0;
    assert(v@.take(0) =~= Seq::<char>::empty());
    while i < v.len()
        invariant
            i <= v.len(),
            all_digits(v@),
            cap < 0x1000_0000,
            value <= cap,
            value == (if digits_value(v@.take(i as int)) < cap {
                digits_value(v@.take(i as int))
            } else {
                cap as nat
            }),
        decreases v.len() - i,
    {
        proof {
            lemma_digits_value_step(v@, i as int);
            assert(is_digit(v@[i as int]));
        }
        let d = (v[i] as u32) - ('0' as u32);
        if value < cap {
            let next = value * 10 + d;
            value = if next > cap {
                cap
            } else {
                next
            };
        }
        i += 1;
    }
    assert(v@.take(v.len() as int) =~= v@);
    value
}

/// Whether the decimal text `s` lies within `[-limit, limit]`.
pub fn is_within(s: &str, limit: u32) -> (r: bool)
    requires
        limit < 0x0100_0000,
    ensures
        r == within(s@, limit as nat),
{
    match parse_decimal(s) {
        None => false,
        Some(d) => {
            let v = capped_value(&d.int_digits, limit + 1);
            if v < limit {
                true
            } else if v == limit {
                all_zero_chars(&d.frac_digits)
            } else {
                false
            }
        },
    }
}

/// The characters of `v` from the first one that is not `0`.
pub fn strip_leading_zero_chars(v: &Vec<char>) -> (r: Vec<char>)
    ensures
        r@ == strip_leading_zeros(v@),
{
    let mut a: usize = 0;
    assert(v@.subrange(0, v@.len() as int) =~= v@);
    while a < v.len() && v[a] == '0'
        invariant
            a <= v.len(),
            strip_leading_zeros(v@) == strip_leading_zeros(v@.subrange(a as int, v@.len() as int)),
        decreases v.len() - a,
    {
        let ghost t = v@.subrange(a as int, v@.len() as int);
        assert(t.drop_first() =~= v@.subrange(a + 1, v@.len() as int));
        a += 1;
    }
    let mut r: Vec<char> = Vec::new();
    let mut i = a;
    while i < v.len()
        invariant
            a <= i <= v.len(),
            r@ == v@.subrange(a as int, i as int),
        decreases v.len() - i,
    {
        r.push(v[i]);
        i += 1;
        assert(r@ =~= v@.subrange(a as int, i as int));
    }
    r
}

/// The characters of `v` up to and including the last one that is not `0`.
pub fn strip_trailing_zero_chars(v: &Vec<char>) -> (r: Vec<char>)
    ensures
        r@ == strip_trailing_zeros(v@),
{
    let mut b: usize = v.len();
    assert(v@.subrange(0, v@.len() as int) =~= v@);
    while b > 0 && v[b - 1] == '0'
        invariant
            b <= v.len(),
            strip_trailing_zeros(v@) == strip_trailing_zeros(v@.subrange(0, b as int)),
        decreases b,
    {
        let ghost t = v@.subrange(0, b as int);
        assert(t.drop_last() =~= v@.subrange(0, b - 1));
        b -= 1;
    }
    let mut r: Vec<char> = Vec::new();
    let mut i: usize = 0;
    while i < b
        invariant
            i <= b <= v.len(),
            r@ == v@.subrange(0, i as int),
        decreases b - i,
    {
        r.push(v[i]);
        i += 1;
        assert(r@ =~= v@.subrange(0, i as int));
    }
    r
}

/// Character-wise equality of two vectors.
pub fn chars_eq(a: &Vec<char>, b: &Vec<char>) -> (r: bool)
    ensures
        r == (a@ == b@),
{
    if a.len() != b.len() {
        return false;
    }
    let mut i: usize = 0;
    while i < a.len()
        invariant
            a.len() == b.len(),
            i <= a.len(),
            forall|j: int| 0 <= j < i ==> a@[j] == b@[j],
        decreases a.len() - i,
    {
        if a[i] != b[i] {
            return false;
        }
        i += 1;
    }
    assert(a@ =~= b@);
    true
}

/// Whether two coordinate texts denote the same number.
pub fn values_equal(a: &str, b: &str) -> (r: bool)
    ensures
        r == same_value(a@, b@),
{
    match (parse_decimal(a), parse_decimal(b)) {
        (Some(pa), Some(pb)) => {
            let ia = strip_leading_zero_chars(&pa.int_digits);
            let fa = strip_trailing_zero_chars(&pa.frac_digits);
            let ib = strip_leading_zero_chars(&pb.int_digits);
            let fb = strip_trailing_zero_chars(&pb.frac_digits);
            let na = pa.negative && !(ia.len() == 0 && fa.len() == 0);
            let nb = pb.negative && !(ib.len() == 0 && fb.len() == 0);
            na == nb && chars_eq(&ia, &ib) && chars_eq(&fa, &fb)
        },
        (None, None) => {
            let inf = str_eq(a, "inf");
            let neg_inf = str_eq(a, "-inf");
            str_eq(a, b) && (inf || neg_inf)
        },
        _ => false,
    }
}

} // verus!

verus! {

// ---------------------------------------------------------------------------
// Rounding to four decimal places
// ---------------------------------------------------------------------------

/// `n` copies of `0`.
pub open spec fn zeros(n: nat) -> Seq<char> {
    Seq::new(n, |i: int| '0')
}

/// Exactly four fraction digits: `f` cut after the fourth, or padded with `0`s.
pub open spec fn four_digits(f: Seq<char>) -> Seq<char> {
    if f.len() >= 4 {
        f.take(4)
    } else {
        f + zeros((4 - f.len()) as nat)
    }
}

/// Whether a digit is odd.
pub open spec fn odd_digit(c: char) -> bool {
    digit_value(c) % 2 == 1
}

/// Whether cutting the fraction `f` after four digits must round up: the
/// rest exceeds half a unit, or is exactly half and the kept digit is odd
/// (ties go to the even neighbour).
pub open spec fn rounds_up(f: Seq<char>) -> bool {
    f.len() > 4 && (f[4] > '5' || (f[4] == '5' && (!all_zero(f.skip(5)) || odd_digit(f[3]))))
}

/// The digit after `c` (`0`..`8` to `1`..`9`).
pub open spec fn next_digit(c: char) -> char {
    digit_char(digit_value(c) + 1)
}

/// One more than the number written by the digit string `d`.
pub open spec fn increment(d: Seq<char>) -> Seq<char>
    decreases d.len(),
{
    if d.len() == 0 {
        seq!['1']
    } else if d.last() == '9' {
        increment(d.drop_last()).push('0')
    } else {
        d.drop_last().push(next_digit(d.last()))
    }
}

/// Integer digits for display: without leading zeros, but at least `0`.
pub open spec fn int_text(d: Seq<char>) -> Seq<char> {
    let t = strip_leading_zeros(d);
    if t.len() == 0 {
        seq!['0']
    } else {
        t
    }
}

/// The text of the number `s` rounded to four decimal places, rounding the
/// decimal written in `s` itself with ties to even; text that is not a
/// decimal is returned unchanged. This is what `{:.4}` prints for the
/// floating-point number read from `s` except where `s` lies exactly halfway
/// between two four-decimal values (such as `47.00005`): there the float's
/// binary value falls to one side of the half, and `{:.4}` rounds towards
/// that side, which this text-only rounding does not know.
pub open spec fn round4(s: Seq<char>) -> Seq<char> {
    match decimal_parts(s) {
        None => s,
        Some((neg, int_digits, frac)) => {
            let kept = int_digits + four_digits(frac);
            let digits = if rounds_up(frac) {
                increment(kept)
            } else {
                kept
            };
            let n = digits.len();
            (if neg {
                seq!['-']
            } else {
                Seq::empty()
            }) + int_text(digits.take(n - 4)) + seq!['.'] + digits.skip(n - 4)
        },
    }
}

proof fn lemma_increment_len(d: Seq<char>)
    ensures
        increment(d).len() >= d.len(),
    decreases d.len(),
{
    if d.len() > 0 && d.last() == '9' {
        lemma_increment_len(d.drop_last());
    }
}

proof fn lemma_increment_nines(d: Seq<char>, j: int)
    requires
        0 <= j <= d.len(),
        forall|k: int| j <= k < d.len() ==> #[trigger] d[k] == '9',
    ensures
        increment(d) == increment(d.take(j)) + zeros((d.len() - j) as nat),
    decreases d.len() - j,
{
    if j == d.len() {
        assert(d.take(j) =~= d);
        assert(increment(d) + zeros(0) =~= increment(d));
    } else {
        assert(d.last() == '9');
        lemma_increment_nines(d.drop_last(), j);
        assert(d.drop_last().take(j) =~= d.take(j));
        assert(increment(d.take(j)) + zeros((d.len() - 1 - j) as nat) + seq!['0'] =~= increment(
            d.take(j),
        ) + zeros((d.len() - j) as nat));
    }
}

/// Add one to the number written by the digit string `d`.
fn increment_digits(d: &mut Vec<char>)
    requires
        all_digits(old(d)@),
    ensures
        final(d)@ == increment(old(d)@),
{
    let ghost orig = d@;
    let mut j = d.len();
    while j > 0 && d[j - 1] == '9'
        invariant
            j <= d.len(),
            d.len() == orig.len(),
            forall|k: int| j <= k < orig.len() ==> #[trigger] orig[k] == '9',
            d@ == orig.take(j as int) + zeros((orig.len() - j) as nat),
        decreases j,
    {
        assert(d@[j - 1] == orig[j - 1]);
        d.set(j - 1, '0');
        j -= 1;
        assert(d@ =~= orig.take(j as int) + zeros((orig.len() - j) as nat));
    }
    proof {
        lemma_increment_nines(orig, j as int);
    }
    if j == 0 {
        d.insert(0, '1');
        assert(d@ =~= seq!['1'] + zeros(orig.len()));
        assert(orig.take(0) =~= Seq::<char>::empty());
    } else {
        let c = d[j - 1];
        assert(c == orig[j - 1]);
        assert(crate::text::is_digit(orig[j - 1]));
        let v = (c as u32 - '0' as u32) as usize;
        let n = crate::text::digit_to_char(v + 1);
        d.set(j - 1, n);
        assert(orig.take(j as int).drop_last() =~= orig.take(j - 1));
        assert(d@ =~= orig.take(j - 1).push(n) + zeros((orig.len() - j) as nat));
    }
}

/// The number `s` rounded to four decimal places, as text; text that is
/// not a decimal is returned unchanged.
pub fn round4_text(s: &str) -> (r: String)
    ensures
        r@ == round4(s@),
{
    let parsed = parse_decimal(s);
    match parsed {
        None => crate::text::own(s),
        Some(p) => {
            let mut digits = copy_chars(&p.int_digits);
            let mut k: usize = 0;
            while k < 4
                invariant
                    k <= 4,
                    digits@ == p.int_digits@ + four_digits(p.frac_digits@).take(k as int),
                decreases 4 - k,
            {
                let c = if k < p.frac_digits.len() {
                    p.frac_digits[k]
                } else {
                    '0'
                };
                assert(c == four_digits(p.frac_digits@)[k as int]);
                digits.push(c);
                k += 1;
                assert(digits@ =~= p.int_digits@ + four_digits(p.frac_digits@).take(k as int));
            }
            assert(four_digits(p.frac_digits@).take(4) =~= four_digits(p.frac_digits@));
            let f = &p.frac_digits;
            let up = f.len() > 4 && (f[4] > '5' || (f[4] == '5' && (!all_zero_chars(&tail_from(f, 5)) || {
                let v = (f[3] as u32 - '0' as u32);
                v % 2 == 1
            })));
            proof {
                if f.len() > 4 {
                    assert(crate::text::is_digit(f@[3]));
                }
            }
            assert(up == rounds_up(p.frac_digits@));
            assert(all_digits(digits@)) by {
                assert forall|i: int| 0 <= i < digits@.len() implies crate::text::is_digit(
                    #[trigger] digits@[i],
                ) by {
                    if i >= p.int_digits@.len() {
                        let q = i - p.int_digits@.len();
                        if q < p.frac_digits@.len() {
                            assert(digits@[i] == p.frac_digits@[q]);
                        }
                    }
                }
            }
            if up {
                increment_digits(&mut digits);
            }
            proof {
                lemma_increment_len(p.int_digits@ + four_digits(p.frac_digits@));
            }
            let n = digits.len();
            let mut r = String::new();
            if p.negative {
                r.push('-');
            }
            let head = strip_leading_zero_chars(&tail_to(&digits, n - 4));
            if head.len() == 0 {
                r.push('0');
            } else {
                crate::text::push_range(&mut r, head.as_slice(), 0, head.len());
                assert(head@.subrange(0, head@.len() as int) =~= head@);
            }
            r.push('.');
            crate::text::push_range(&mut r, digits.as_slice(), n - 4, n);
            assert(digits@.subrange(n - 4, n as int) =~= digits@.skip(n - 4));
            assert(r@ =~= round4(s@));
            r
        },
    }
}

/// `v[from..]`.
fn tail_from(v: &Vec<char>, from: usize) -> (r: Vec<char>)
    requires
        from <= v@.len(),
    ensures
        r@ == v@.skip(from as int),
{
    let mut r: Vec<char> = Vec::new();
    let mut i = from;
    while i < v.len()
        invariant
            from <= i <= v.len(),
            r@ == v@.subrange(from as int, i as int),
        decreases v.len() - i,
    {
        r.push(v[i]);
        i += 1;
        assert(r@ =~= v@.subrange(from as int, i as int));
    }
    r
}

/// `v[..to]`.
fn tail_to(v: &Vec<char>, to: usize) -> (r: Vec<char>)
    requires
        to <= v@.len(),
    ensures
        r@ == v@.take(to as int),
{
    let mut r: Vec<char> = Vec::new();
    let mut i: usize = 0;
    while i < to
        invariant
            i <= to <= v.len(),
            r@ == v@.take(i as int),
        decreases to - i,
    {
        r.push(v[i]);
        i += 1;
        assert(r@ =~= v@.take(i as int));
    }
    r
}

} // verus!
