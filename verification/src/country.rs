//! Country and place-name matching, as used to check GPS coordinates
//! against the country and place a chronicle stores.
use vstd::prelude::*;
use crate::text::{
    char_is_alphanumeric, char_is_whitespace, chars_of, lemma_split_on_nonempty, matches_at,
    occurs_at, own, replace_chars_with, spec_is_alphanumeric, spec_is_whitespace,
    spec_to_lowercase, spec_to_uppercase, str_eq, string_from_chars, to_lowercase, to_uppercase,
    trim, trim_bounds, trim_str,
};

verus! {

// ---------------------------------------------------------------------------
// Whole-word containment
// ---------------------------------------------------------------------------

/// `needle` occurs in `hay` at `i`, not as part of a longer alphanumeric run.
pub open spec fn word_at(hay: Seq<char>, needle: Seq<char>, i: int) -> bool {
    &&& occurs_at(hay, needle, i)
    &&& (i == 0 || !spec_is_alphanumeric(hay[i - 1]))
    &&& (i + needle.len() == hay.len() || !spec_is_alphanumeric(hay[i + needle.len()]))
}

/// `needle` is non-empty and occurs in `hay` on word boundaries.
pub open spec fn has_word(hay: Seq<char>, needle: Seq<char>) -> bool {
    needle.len() > 0 && exists|i: int| word_at(hay, needle, i)
}

fn word_in(h: &Vec<char>, n: &Vec<char>) -> (r: bool)
    ensures
        r == has_word(h@, n@),
{
    if n.len() == 0 {
        return false;
    }
    if n.len() > h.len() {
        assert forall|i: int| !word_at(h@, n@, i) by {}
        return false;
    }
    let last = h.len() - n.len();
    let mut i: usize = 0;
    while i <= last
        invariant
            last == h.len() - n.len(),
            last < h.len(),
            n.len() > 0,
            i <= last + 1,
            forall|j: int| 0 <= j < i ==> !word_at(h@, n@, j),
        decreases last + 1 - i,
    {
        if matches_at(h, n, i) {
            let before_ok = i == 0 || !char_is_alphanumeric(h[i - 1]);
            let after_ok = i + n.len() == h.len() || !char_is_alphanumeric(h[i + n.len()]);
            if before_ok && after_ok {
                assert(word_at(h@, n@, i as int));
                return true;
            }
        }
        i += 1;
    }
    assert forall|j: int| !word_at(h@, n@, j) by {
        if 0 <= j && j < i {
        }
    }
    false
}

/// Check if `needle` occurs in `haystack` on word boundaries, i.e. not as
/// part of a longer alphanumeric run, so that short strings such as ISO
/// codes do not match inside unrelated names ("CH" in "China").
pub fn contains_word(haystack: &str, needle: &str) -> (r: bool)
    ensures
        r == has_word(haystack@, needle@),
{
    let h = chars_of(haystack);
    let n = chars_of(needle);
    word_in(&h, &n)
}

/// The number of bytes a character takes in UTF-8.
pub open spec fn char_width(c: char) -> nat {
    if (c as u32) < 0x80 {
        1
    } else if (c as u32) < 0x800 {
        2
    } else if (c as u32) < 0x10000 {
        3
    } else {
        4
    }
}

/// The length of a string in UTF-8 bytes (what `str::len` reports).
pub open spec fn utf8_len(s: Seq<char>) -> nat
    decreases s.len(),
{
    if s.len() == 0 {
        0
    } else {
        utf8_len(s.drop_last()) + char_width(s.last())
    }
}

/// The UTF-8 length of `v`, or `cap` if that is smaller.
fn utf8_len_capped(v: &Vec<char>, cap: usize) -> (r: usize)
    requires
        cap < 0x1000_0000,
    ensures
        r == (if utf8_len(v@) < cap {
            utf8_len(v@)
        } else {
            cap as nat
        }),
{
    let mut total: usize = 0;
    let mut i: usize = 0;
    assert(v@.take(0) =~= Seq::<char>::empty());
    while i < v.len()
        invariant
            i <= v.len(),
            cap < 0x1000_0000,
            total <= cap,
            total == (if utf8_len(v@.take(i as int)) < cap {
                utf8_len(v@.take(i as int))
            } else {
                cap as nat
            }),
        decreases v.len() - i,
    {
        assert(v@.take(i + 1).drop_last() =~= v@.take(i as int));
        let c = v[i] as u32;
        let w: usize = if c < 0x80 {
            1
        } else if c < 0x800 {
            2
        } else if c < 0x10000 {
            3
        } else {
            4
        };
        if total < cap {
            total = if total + w > cap {
                cap
            } else {
                total + w
            };
        }
        i += 1;
    }
    assert(v@.take(v.len() as int) =~= v@);
    total
}

// ---------------------------------------------------------------------------
// Country designations
// ---------------------------------------------------------------------------

/// Number of entries in [`alias_pair`]'s table.
pub const ALIAS_PAIRS: usize = 104;

/// Native-language and colloquial country names, keyed by ISO 3166-1
/// alpha-2 code, in the order they are consulted: what Nominatim returns for
/// local places ("Schweiz", "日本") and names the ISO list does not know
/// ("UK", "USA", "Holland").
pub open spec fn alias_pair(i: usize) -> (Seq<char>, Seq<char>) {
    match i {
        0 => ("CH"@, "switzerland"@),
        1 => ("CH"@, "schweiz"@),
        2 => ("CH"@, "suisse"@),
        3 => ("CH"@, "svizzera"@),
        4 => ("CH"@, "svizra"@),
        5 => ("DE"@, "germany"@),
        6 => ("DE"@, "deutschland"@),
        7 => ("AT"@, "austria"@),
        8 => ("AT"@, "österreich"@),
        9 => ("AT"@, "oesterreich"@),
        10 => ("FR"@, "france"@),
        11 => ("IT"@, "italy"@),
        12 => ("IT"@, "italia"@),
        13 => ("ES"@, "spain"@),
        14 => ("ES"@, "españa"@),
        15 => ("ES"@, "espana"@),
        16 => ("PT"@, "portugal"@),
        17 => ("GB"@, "united kingdom"@),
        18 => ("GB"@, "uk"@),
        19 => ("GB"@, "great britain"@),
        20 => ("GB"@, "england"@),
        21 => ("US"@, "united states"@),
        22 => ("US"@, "usa"@),
        23 => ("US"@, "america"@),
        24 => ("CA"@, "canada"@),
        25 => ("AU"@, "australia"@),
        26 => ("NZ"@, "new zealand"@),
        27 => ("JP"@, "japan"@),
        28 => ("JP"@, "日本"@),
        29 => ("JP"@, "nippon"@),
        30 => ("JP"@, "nihon"@),
        31 => ("CN"@, "china"@),
        32 => ("CN"@, "中国"@),
        33 => ("CN"@, "zhongguo"@),
        34 => ("KR"@, "south korea"@),
        35 => ("KR"@, "korea"@),
        36 => ("KR"@, "대한민국"@),
        37 => ("KR"@, "한국"@),
        38 => ("IN"@, "india"@),
        39 => ("BR"@, "brazil"@),
        40 => ("BR"@, "brasil"@),
        41 => ("MX"@, "mexico"@),
        42 => ("MX"@, "méxico"@),
        43 => ("AR"@, "argentina"@),
        44 => ("NL"@, "netherlands"@),
        45 => ("NL"@, "holland"@),
        46 => ("NL"@, "nederland"@),
        47 => ("BE"@, "belgium"@),
        48 => ("BE"@, "belgique"@),
        49 => ("BE"@, "belgië"@),
        50 => ("BE"@, "belgie"@),
        51 => ("PL"@, "poland"@),
        52 => ("PL"@, "polska"@),
        53 => ("CZ"@, "czech republic"@),
        54 => ("CZ"@, "czechia"@),
        55 => ("CZ"@, "česko"@),
        56 => ("CZ"@, "cesko"@),
        57 => ("SE"@, "sweden"@),
        58 => ("SE"@, "sverige"@),
        59 => ("NO"@, "norway"@),
        60 => ("NO"@, "norge"@),
        61 => ("DK"@, "denmark"@),
        62 => ("DK"@, "danmark"@),
        63 => ("FI"@, "finland"@),
        64 => ("FI"@, "suomi"@),
        65 => ("RU"@, "russia"@),
        66 => ("RU"@, "россия"@),
        67 => ("RU"@, "rossiya"@),
        68 => ("GR"@, "greece"@),
        69 => ("GR"@, "ελλάδα"@),
        70 => ("GR"@, "ellada"@),
        71 => ("TR"@, "turkey"@),
        72 => ("TR"@, "türkiye"@),
        73 => ("TR"@, "turkiye"@),
        74 => ("IE"@, "ireland"@),
        75 => ("IE"@, "éire"@),
        76 => ("IE"@, "eire"@),
        77 => ("ZA"@, "south africa"@),
        78 => ("EG"@, "egypt"@),
        79 => ("EG"@, "مصر"@),
        80 => ("IL"@, "israel"@),
        81 => ("IL"@, "ישראל"@),
        82 => ("AE"@, "united arab emirates"@),
        83 => ("AE"@, "uae"@),
        84 => ("SG"@, "singapore"@),
        85 => ("TH"@, "thailand"@),
        86 => ("TH"@, "ประเทศไทย"@),
        87 => ("VN"@, "vietnam"@),
        88 => ("VN"@, "việt nam"@),
        89 => ("ID"@, "indonesia"@),
        90 => ("MY"@, "malaysia"@),
        91 => ("PH"@, "philippines"@),
        92 => ("UA"@, "ukraine"@),
        93 => ("UA"@, "україна"@),
        94 => ("UA"@, "ukraina"@),
        95 => ("HR"@, "croatia"@),
        96 => ("HR"@, "hrvatska"@),
        97 => ("EE"@, "estonia"@),
        98 => ("EE"@, "eesti"@),
        99 => ("HU"@, "hungary"@),
        100 => ("HU"@, "magyarország"@),
        101 => ("HU"@, "magyarorszag"@),
        102 => ("RO"@, "romania"@),
        103 => ("RO"@, "românia"@),
        _ => (Seq::empty(), Seq::empty()),
    }
}

/// Entry `i` of the alias table.
fn alias_entry(i: usize) -> (r: (&'static str, &'static str))
    requires
        i < ALIAS_PAIRS,
    ensures
        (r.0@, r.1@) == alias_pair(i),
{
    match i {
        0 => ("CH", "switzerland"),
        1 => ("CH", "schweiz"),
        2 => ("CH", "suisse"),
        3 => ("CH", "svizzera"),
        4 => ("CH", "svizra"),
        5 => ("DE", "germany"),
        6 => ("DE", "deutschland"),
        7 => ("AT", "austria"),
        8 => ("AT", "österreich"),
        9 => ("AT", "oesterreich"),
        10 => ("FR", "france"),
        11 => ("IT", "italy"),
        12 => ("IT", "italia"),
        13 => ("ES", "spain"),
        14 => ("ES", "españa"),
        15 => ("ES", "espana"),
        16 => ("PT", "portugal"),
        17 => ("GB", "united kingdom"),
        18 => ("GB", "uk"),
        19 => ("GB", "great britain"),
        20 => ("GB", "england"),
        21 => ("US", "united states"),
        22 => ("US", "usa"),
        23 => ("US", "america"),
        24 => ("CA", "canada"),
        25 => ("AU", "australia"),
        26 => ("NZ", "new zealand"),
        27 => ("JP", "japan"),
        28 => ("JP", "日本"),
        29 => ("JP", "nippon"),
        30 => ("JP", "nihon"),
        31 => ("CN", "china"),
        32 => ("CN", "中国"),
        33 => ("CN", "zhongguo"),
        34 => ("KR", "south korea"),
        35 => ("KR", "korea"),
        36 => ("KR", "대한민국"),
        37 => ("KR", "한국"),
        38 => ("IN", "india"),
        39 => ("BR", "brazil"),
        40 => ("BR", "brasil"),
        41 => ("MX", "mexico"),
        42 => ("MX", "méxico"),
        43 => ("AR", "argentina"),
        44 => ("NL", "netherlands"),
        45 => ("NL", "holland"),
        46 => ("NL", "nederland"),
        47 => ("BE", "belgium"),
        48 => ("BE", "belgique"),
        49 => ("BE", "belgië"),
        50 => ("BE", "belgie"),
        51 => ("PL", "poland"),
        52 => ("PL", "polska"),
        53 => ("CZ", "czech republic"),
        54 => ("CZ", "czechia"),
        55 => ("CZ", "česko"),
        56 => ("CZ", "cesko"),
        57 => ("SE", "sweden"),
        58 => ("SE", "sverige"),
        59 => ("NO", "norway"),
        60 => ("NO", "norge"),
        61 => ("DK", "denmark"),
        62 => ("DK", "danmark"),
        63 => ("FI", "finland"),
        64 => ("FI", "suomi"),
        65 => ("RU", "russia"),
        66 => ("RU", "россия"),
        67 => ("RU", "rossiya"),
        68 => ("GR", "greece"),
        69 => ("GR", "ελλάδα"),
        70 => ("GR", "ellada"),
        71 => ("TR", "turkey"),
        72 => ("TR", "türkiye"),
        73 => ("TR", "turkiye"),
        74 => ("IE", "ireland"),
        75 => ("IE", "éire"),
        76 => ("IE", "eire"),
        77 => ("ZA", "south africa"),
        78 => ("EG", "egypt"),
        79 => ("EG", "مصر"),
        80 => ("IL", "israel"),
        81 => ("IL", "ישראל"),
        82 => ("AE", "united arab emirates"),
        83 => ("AE", "uae"),
        84 => ("SG", "singapore"),
        85 => ("TH", "thailand"),
        86 => ("TH", "ประเทศไทย"),
        87 => ("VN", "vietnam"),
        88 => ("VN", "việt nam"),
        89 => ("ID", "indonesia"),
        90 => ("MY", "malaysia"),
        91 => ("PH", "philippines"),
        92 => ("UA", "ukraine"),
        93 => ("UA", "україна"),
        94 => ("UA", "ukraina"),
        95 => ("HR", "croatia"),
        96 => ("HR", "hrvatska"),
        97 => ("EE", "estonia"),
        98 => ("EE", "eesti"),
        99 => ("HU", "hungary"),
        100 => ("HU", "magyarország"),
        101 => ("HU", "magyarorszag"),
        102 => ("RO", "romania"),
        103 => ("RO", "românia"),
        _ => ("", ""),
    }
}

/// The ISO 3166-1 entry at a position of `rust_iso3166::ALL`: its English
/// short name and its alpha-2 code.
pub uninterp spec fn iso_country(i: int) -> (Seq<char>, Seq<char>);

/// The alpha-2 code of the country `rust_iso3166::from_alpha2` finds for a
/// code, if any.
pub uninterp spec fn iso_alpha2_lookup(code: Seq<char>) -> Option<Seq<char>>;

/// The alpha-2 code of the country `rust_iso3166::from_alpha3` finds for a
/// code, if any.
pub uninterp spec fn iso_alpha3_lookup(code: Seq<char>) -> Option<Seq<char>>;

/// Number of entries in `rust_iso3166::ALL`.
pub const ISO_COUNTRIES: usize = 249;

/// Reads `rust_iso3166::ALL.len()`; the crate's table lists 249 countries.
#[verifier::external_body]
fn iso_country_total() -> (n: usize)
    ensures
        n == ISO_COUNTRIES,
{
    rust_iso3166::ALL.len()
}

/// Reads entry `i` of `rust_iso3166::ALL` (name and alpha-2 code), named by
/// `iso_country`.
#[verifier::external_body]
fn iso_country_at(i: usize) -> (r: (String, String))
    requires
        i < ISO_COUNTRIES,
    ensures
        (r.0@, r.1@) == iso_country(i as int),
{
    let c = &rust_iso3166::ALL[i];
    (c.name.to_string(), c.alpha2.to_string())
}

/// Calls `rust_iso3166::from_alpha2` and keeps the alpha-2 code of the
/// country found; the result is named by `iso_alpha2_lookup`.
#[verifier::external_body]
fn iso_from_alpha2(code: &str) -> (r: Option<String>)
    ensures
        r.deep_view() == iso_alpha2_lookup(code@),
{
    rust_iso3166::from_alpha2(code).map(|c| c.alpha2.to_string())
}

/// Calls `rust_iso3166::from_alpha3` and keeps the alpha-2 code of the
/// country found; the result is named by `iso_alpha3_lookup`.
#[verifier::external_body]
fn iso_from_alpha3(code: &str) -> (r: Option<String>)
    ensures
        r.deep_view() == iso_alpha3_lookup(code@),
{
    rust_iso3166::from_alpha3(code).map(|c| c.alpha2.to_string())
}

/// The code of the first alias (among the first `n`) equal to `lower`.
pub open spec fn alias_exact(lower: Seq<char>, n: int) -> Option<Seq<char>>
    decreases n,
{
    if n <= 0 {
        None
    } else {
        match alias_exact(lower, n - 1) {
            Some(c) => Some(c),
            None => if alias_pair((n - 1) as usize).1 == lower {
                Some(alias_pair((n - 1) as usize).0)
            } else {
                None
            },
        }
    }
}

/// The code of the first ISO country (among the first `n`) whose
/// lowercased name equals `lower`.
pub open spec fn iso_name_exact(lower: Seq<char>, n: int) -> Option<Seq<char>>
    decreases n,
{
    if n <= 0 {
        None
    } else {
        match iso_name_exact(lower, n - 1) {
            Some(c) => Some(c),
            None => if spec_to_lowercase(iso_country(n - 1).0) == lower {
                Some(iso_country(n - 1).1)
            } else {
                None
            },
        }
    }
}

/// The alpha-2 code of a string that *is* a country designation: an
/// alpha-2 or alpha-3 code (any case), an alias, or an official ISO name,
/// exactly (ignoring surrounding whitespace and case).
pub open spec fn country_code_exact_spec(s: Seq<char>) -> Option<Seq<char>> {
    let t = trim(s);
    let lower = spec_to_lowercase(t);
    match code_lookup(t) {
        Some(c) => Some(c),
        None => if alias_exact(lower, ALIAS_PAIRS as int) is Some {
            alias_exact(lower, ALIAS_PAIRS as int)
        } else {
            iso_name_exact(lower, ISO_COUNTRIES as int)
        },
    }
}

/// The country a two-byte alpha-2 or three-byte alpha-3 code (any case)
/// names, if any.
pub open spec fn code_lookup(t: Seq<char>) -> Option<Seq<char>> {
    let upper = spec_to_uppercase(t);
    if utf8_len(t) == 2 && iso_alpha2_lookup(upper) is Some {
        iso_alpha2_lookup(upper)
    } else if utf8_len(t) == 3 && iso_alpha3_lookup(upper) is Some {
        iso_alpha3_lookup(upper)
    } else {
        None
    }
}

/// The code of the first ISO country (among the first `n`) whose lowercased
/// name contains `lower`, or is contained in it, as whole words.
pub open spec fn iso_name_containing(lower: Seq<char>, n: int) -> Option<Seq<char>>
    decreases n,
{
    if n <= 0 {
        None
    } else {
        match iso_name_containing(lower, n - 1) {
            Some(c) => Some(c),
            None => {
                let official = spec_to_lowercase(iso_country(n - 1).0);
                if has_word(official, lower) || has_word(lower, official) {
                    Some(iso_country(n - 1).1)
                } else {
                    None
                }
            },
        }
    }
}

/// The code of the first alias (among the first `n`) that contains
/// `lower`, or is contained in it, as whole words.
pub open spec fn alias_containing(lower: Seq<char>, n: int) -> Option<Seq<char>>
    decreases n,
{
    if n <= 0 {
        None
    } else {
        match alias_containing(lower, n - 1) {
            Some(c) => Some(c),
            None => {
                let name = alias_pair((n - 1) as usize).1;
                if has_word(lower, name) || has_word(name, lower) {
                    Some(alias_pair((n - 1) as usize).0)
                } else {
                    None
                }
            },
        }
    }
}

/// The alpha-2 code of a country string, resolved leniently: exactly, or
/// else by whole-word containment in either direction, official names
/// before aliases.
pub open spec fn country_code_of_spec(s: Seq<char>) -> Option<Seq<char>> {
    match country_code_exact_spec(s) {
        Some(c) => Some(c),
        None => {
            let lower = spec_to_lowercase(trim(s));
            match iso_name_containing(lower, ISO_COUNTRIES as int) {
                Some(c) => Some(c),
                None => alias_containing(lower, ALIAS_PAIRS as int),
            }
        },
    }
}

/// Resolve a string that *is* a country designation (a code, an alias, or
/// an official ISO name) to its alpha-2 code.
pub fn country_code_exact(s: &str) -> (r: Option<String>)
    ensures
        r.deep_view() == country_code_exact_spec(s@),
{
    let trimmed = trim_str(s);
    let t = trimmed.as_str();
    let upper = to_uppercase(t);
    let width = utf8_len_capped(&chars_of(t), 4);
    if width == 2 {
        let found = iso_from_alpha2(upper.as_str());
        if found.is_some() {
            return found;
        }
    }
    if width == 3 {
        let found = iso_from_alpha3(upper.as_str());
        if found.is_some() {
            return found;
        }
    }
    let lower = to_lowercase(t);
    let mut i: usize = 0;
    while i < ALIAS_PAIRS
        invariant
            i <= ALIAS_PAIRS,
            lower@ == spec_to_lowercase(trim(s@)),
            alias_exact(lower@, i as int) is None,
            code_lookup(trim(s@)) is None,
        decreases ALIAS_PAIRS - i,
    {
        let (code, name) = alias_entry(i);
        if str_eq(name, lower.as_str()) {
            let r = Some(own(code));
            proof {
                lemma_alias_exact_monotone(lower@, (i + 1) as int, ALIAS_PAIRS as int);
            }
            assert(r.deep_view() == alias_exact(lower@, ALIAS_PAIRS as int));
            return r;
        }
        i += 1;
    }
    let total = iso_country_total();
    let mut k: usize = 0;
    while k < total
        invariant
            total == ISO_COUNTRIES,
            k <= total,
            lower@ == spec_to_lowercase(trim(s@)),
            iso_name_exact(lower@, k as int) is None,
            alias_exact(lower@, ALIAS_PAIRS as int) is None,
            code_lookup(trim(s@)) is None,
        decreases total - k,
    {
        let (name, alpha2) = iso_country_at(k);
        let name_lower = to_lowercase(name.as_str());
        if str_eq(name_lower.as_str(), lower.as_str()) {
            proof {
                lemma_iso_name_exact_monotone(lower@, (k + 1) as int, ISO_COUNTRIES as int);
            }
            return Some(alpha2);
        }
        k += 1;
    }
    None
}

proof fn lemma_alias_exact_monotone(lower: Seq<char>, m: int, n: int)
    requires
        0 <= m <= n,
        alias_exact(lower, m) is Some,
    ensures
        alias_exact(lower, n) == alias_exact(lower, m),
    decreases n - m,
{
    if m < n {
        lemma_alias_exact_monotone(lower, m, n - 1);
    }
}

proof fn lemma_iso_name_exact_monotone(lower: Seq<char>, m: int, n: int)
    requires
        0 <= m <= n,
        iso_name_exact(lower, m) is Some,
    ensures
        iso_name_exact(lower, n) == iso_name_exact(lower, m),
    decreases n - m,
{
    if m < n {
        lemma_iso_name_exact_monotone(lower, m, n - 1);
    }
}

proof fn lemma_iso_name_containing_monotone(lower: Seq<char>, m: int, n: int)
    requires
        0 <= m <= n,
        iso_name_containing(lower, m) is Some,
    ensures
        iso_name_containing(lower, n) == iso_name_containing(lower, m),
    decreases n - m,
{
    if m < n {
        lemma_iso_name_containing_monotone(lower, m, n - 1);
    }
}

proof fn lemma_alias_containing_monotone(lower: Seq<char>, m: int, n: int)
    requires
        0 <= m <= n,
        alias_containing(lower, m) is Some,
    ensures
        alias_containing(lower, n) == alias_containing(lower, m),
    decreases n - m,
{
    if m < n {
        lemma_alias_containing_monotone(lower, m, n - 1);
    }
}

/// Resolve a country string to its ISO 3166-1 alpha-2 code, leniently:
/// exactly, or else by whole-word containment in either direction
/// ("United States" in "United States of America", "Schweiz" in
/// "Schweiz/Suisse/Svizzera/Svizra"); official names win before aliases.
pub fn country_code_of(s: &str) -> (r: Option<String>)
    ensures
        r.deep_view() == country_code_of_spec(s@),
{
    let exact = country_code_exact(s);
    if exact.is_some() {
        return exact;
    }
    let trimmed = trim_str(s);
    let lower = to_lowercase(trimmed.as_str());
    let lv = chars_of(lower.as_str());
    let total = iso_country_total();
    let mut k: usize = 0;
    while k < total
        invariant
            total == ISO_COUNTRIES,
            k <= total,
            lv@ == lower@,
            lower@ == spec_to_lowercase(trim(s@)),
            iso_name_containing(lower@, k as int) is None,
            country_code_exact_spec(s@) is None,
        decreases total - k,
    {
        let (name, alpha2) = iso_country_at(k);
        let official = to_lowercase(name.as_str());
        let ov = chars_of(official.as_str());
        if word_in(&ov, &lv) || word_in(&lv, &ov) {
            proof {
                lemma_iso_name_containing_monotone(lower@, (k + 1) as int, ISO_COUNTRIES as int);
            }
            return Some(alpha2);
        }
        k += 1;
    }
    let mut i: usize = 0;
    while i < ALIAS_PAIRS
        invariant
            i <= ALIAS_PAIRS,
            lv@ == lower@,
            lower@ == spec_to_lowercase(trim(s@)),
            iso_name_containing(lower@, ISO_COUNTRIES as int) is None,
            alias_containing(lower@, i as int) is None,
            country_code_exact_spec(s@) is None,
        decreases ALIAS_PAIRS - i,
    {
        let (code, name) = alias_entry(i);
        let nv = chars_of(name);
        if word_in(&lv, &nv) || word_in(&nv, &lv) {
            proof {
                lemma_alias_containing_monotone(lower@, (i + 1) as int, ALIAS_PAIRS as int);
            }
            return Some(own(code));
        }
        i += 1;
    }
    None
}

// ---------------------------------------------------------------------------
// Fuzzy matching
// ---------------------------------------------------------------------------

/// Lowercased, with `-` and `_` as spaces, and trimmed.
pub open spec fn normalized(s: Seq<char>) -> Seq<char> {
    trim(replace_chars_with(spec_to_lowercase(s), seq!['-', '_'], ' '))
}

/// Whether two place or country names match: equal after normalization;
/// or both exact country designations of the same country (different
/// countries never match); or both resolving leniently to the same country;
/// or one contains the other as whole words.
pub open spec fn names_match(a: Seq<char>, b: Seq<char>) -> bool {
    let na = normalized(a);
    let nb = normalized(b);
    if na == nb {
        true
    } else if country_code_exact_spec(a) is Some && country_code_exact_spec(b) is Some {
        country_code_exact_spec(a) == country_code_exact_spec(b)
    } else if country_code_of_spec(a) is Some && country_code_of_spec(a) == country_code_of_spec(b) {
        true
    } else {
        has_word(na, nb) || has_word(nb, na)
    }
}

fn normalize(s: &str) -> (r: Vec<char>)
    ensures
        r@ == normalized(s@),
{
    let lower = to_lowercase(s);
    let v = chars_of(lower.as_str());
    let mut w: Vec<char> = Vec::new();
    let mut i: usize = 0;
    while i < v.len()
        invariant
            i <= v.len(),
            w@ == replace_chars_with(v@.take(i as int), seq!['-', '_'], ' '),
        decreases v.len() - i,
    {
        let c = v[i];
        let d = if c == '-' || c == '_' {
            ' '
        } else {
            c
        };
        proof {
            assert(v@.take(i + 1).drop_last() =~= v@.take(i as int));
            assert(seq!['-', '_'].contains(c) <==> (c == '-' || c == '_')) by {
                if c == '-' {
                    assert(seq!['-', '_'][0] == '-');
                }
                if c == '_' {
                    assert(seq!['-', '_'][1] == '_');
                }
            }
        }
        w.push(d);
        i += 1;
    }
    assert(v@.take(v.len() as int) =~= v@);
    let (a, b) = trim_bounds(&w);
    let mut r: Vec<char> = Vec::new();
    let mut k = a;
    while k < b
        invariant
            a <= k <= b <= w.len(),
            r@ == w@.subrange(a as int, k as int),
        decreases b - k,
    {
        r.push(w[k]);
        k += 1;
        assert(r@ =~= w@.subrange(a as int, k as int));
    }
    r
}

/// Check if two strings match (case-insensitive, with some normalization).
/// Also handles ISO 3166-1 country codes and country name variants in the
/// languages the alias table covers.
pub fn fuzzy_match(a: &str, b: &str) -> (r: bool)
    ensures
        r == names_match(a@, b@),
{
    let na = normalize(a);
    let nb = normalize(b);
    if crate::decimal::chars_eq(&na, &nb) {
        return true;
    }
    let ea = country_code_exact(a);
    let eb = country_code_exact(b);
    if let (Some(ca), Some(cb)) = (&ea, &eb) {
        return str_eq(ca.as_str(), cb.as_str());
    }
    let oa = country_code_of(a);
    let ob = country_code_of(b);
    if let (Some(ca), Some(cb)) = (&oa, &ob) {
        if str_eq(ca.as_str(), cb.as_str()) {
            return true;
        }
    }
    word_in(&na, &nb) || word_in(&nb, &na)
}

/// `fuzzy_match` does not depend on the order of its arguments, and every
/// string matches itself.
pub proof fn lemma_names_match_symmetric(a: Seq<char>, b: Seq<char>)
    ensures
        names_match(a, b) == names_match(b, a),
        names_match(a, a),
{
}

/// The Nominatim search query for a stored location: `"place, country"`,
/// or just the country.
pub open spec fn query_text(country: Seq<char>, place: Option<Seq<char>>) -> Seq<char> {
    match place {
        Some(p) => p + ", "@ + country,
        None => country,
    }
}

/// Build the Nominatim search query for a stored location.
pub fn suggestion_query(country: &str, place: Option<&str>) -> (r: String)
    ensures
        r@ == query_text(country@, match place {
            Some(p) => Some(p@),
            None => None,
        }),
{
    match place {
        Some(p) => {
            let mut r = own(p);
            r.append(", ");
            r.append(country);
            r
        },
        None => own(country),
    }
}

} // verus!
