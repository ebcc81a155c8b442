//! Date parsing with uncertainty support.
//!
//! Supports ISO 8601 dates with optional `?` suffix for uncertainty:
//! - `1987` - year only
//! - `1987-03` - year and month
//! - `1987-03-03` - full date
//! - `1987?` - uncertain year
//! - `1987-03?` - uncertain month
use vstd::prelude::*;
use crate::text::{chars_of, lex_compare, lex_order, parse_bounded, parse_unsigned, split_chars, split_on};

verus! {

/// Error type for date parsing; each variant carries the offending text.
#[derive(Debug)]
pub enum DateError {
    InvalidFormat(String),
    InvalidYear(String),
    InvalidMonth(String),
    InvalidDay(String),
}

/// View of a [`DateError`].
pub enum DateErrorView {
    InvalidFormat(Seq<char>),
    InvalidYear(Seq<char>),
    InvalidMonth(Seq<char>),
    InvalidDay(Seq<char>),
}

impl View for DateError {
    type V = DateErrorView;

    open spec fn view(&self) -> DateErrorView {
        match self {
            DateError::InvalidFormat(s) => DateErrorView::InvalidFormat(s@),
            DateError::InvalidYear(s) => DateErrorView::InvalidYear(s@),
            DateError::InvalidMonth(s) => DateErrorView::InvalidMonth(s@),
            DateError::InvalidDay(s) => DateErrorView::InvalidDay(s@),
        }
    }
}

/// The human-readable description of a date error.
pub open spec fn date_error_message(e: DateErrorView) -> Seq<char> {
    match e {
        DateErrorView::InvalidFormat(s) => "invalid date format: "@ + s,
        DateErrorView::InvalidYear(s) => "invalid year: "@ + s,
        DateErrorView::InvalidMonth(s) => "invalid month: "@ + s,
        DateErrorView::InvalidDay(s) => "invalid day: "@ + s,
    }
}

impl DateError {
    /// The human-readable description of this error.
    pub fn message(&self) -> (r: String)
        ensures
            r@ == date_error_message(self@),
    {
        let (mut m, s) = match self {
            DateError::InvalidFormat(s) => (String::from_str("invalid date format: "), s),
            DateError::InvalidYear(s) => (String::from_str("invalid year: "), s),
            DateError::InvalidMonth(s) => (String::from_str("invalid month: "), s),
            DateError::InvalidDay(s) => (String::from_str("invalid day: "), s),
        };
        m.append(s.as_str());
        m
    }

    fn copy(&self) -> (r: Self)
        ensures
            r@ == self@,
    {
        match self {
            DateError::InvalidFormat(s) => DateError::InvalidFormat(s.clone()),
            DateError::InvalidYear(s) => DateError::InvalidYear(s.clone()),
            DateError::InvalidMonth(s) => DateError::InvalidMonth(s.clone()),
            DateError::InvalidDay(s) => DateError::InvalidDay(s.clone()),
        }
    }
}

impl Clone for DateError {
    fn clone(&self) -> (r: Self)
        ensures
            r@ == self@,
    {
        self.copy()
    }
}

/// A parsed chronicle date with optional uncertainty.
///
/// The derived `Ord` compares the fields in declaration order (year, month,
/// day, uncertainty, text), absent components first. For dates that
/// [`ChronicleDate::parse`] returns (year present, month and day from 1 up)
/// this is the chronological order; on hand-built values it can differ from
/// it. [`ChronicleDate::order`] gives the chronological order ([`date_order`])
/// for every value.
#[derive(Debug, PartialEq, Eq, PartialOrd, Ord)]
pub struct ChronicleDate {
    /// Year (if parseable)
    pub year: Option<u16>,
    /// Month (1-12, if present)
    pub month: Option<u8>,
    /// Day (1-31, if present)
    pub day: Option<u8>,
    /// Whether the date is uncertain (ends with ?)
    pub uncertain: bool,
    /// Original date string
    pub raw: String,
}

/// View of a [`ChronicleDate`].
pub struct DateView {
    pub year: Option<u16>,
    pub month: Option<u8>,
    pub day: Option<u8>,
    pub uncertain: bool,
    pub raw: Seq<char>,
}

impl View for ChronicleDate {
    type V = DateView;

    open spec fn view(&self) -> DateView {
        DateView {
            year: self.year,
            month: self.month,
            day: self.day,
            uncertain: self.uncertain,
            raw: self.raw@,
        }
    }
}

impl Clone for ChronicleDate {
    fn clone(&self) -> (r: Self)
        ensures
            r@ == self@,
    {
        ChronicleDate {
            year: self.year,
            month: self.month,
            day: self.day,
            uncertain: self.uncertain,
            raw: self.raw.clone(),
        }
    }
}

/// The year a date component denotes, if it is one.
pub open spec fn year_of(p: Seq<char>) -> Option<u16> {
    match parse_unsigned(p) {
        Some(n) => if n <= 0xffff {
            Some(n as u16)
        } else {
            None
        },
        None => None,
    }
}

/// The month a date component denotes, if it is one (1-12).
pub open spec fn month_of(p: Seq<char>) -> Option<u8> {
    match parse_unsigned(p) {
        Some(n) => if 1 <= n <= 12 {
            Some(n as u8)
        } else {
            None
        },
        None => None,
    }
}

/// The day a date component denotes, if it is one (1-31).
pub open spec fn day_of(p: Seq<char>) -> Option<u8> {
    match parse_unsigned(p) {
        Some(n) => if 1 <= n <= 31 {
            Some(n as u8)
        } else {
            None
        },
        None => None,
    }
}

/// Whether `s` carries the uncertainty marker `?`.
pub open spec fn marked_uncertain(s: Seq<char>) -> bool {
    s.len() > 0 && s.last() == '?'
}

/// `s` without its uncertainty marker.
pub open spec fn date_body(s: Seq<char>) -> Seq<char> {
    if marked_uncertain(s) {
        s.drop_last()
    } else {
        s
    }
}

/// What parsing a date string gives: one to three `-`-separated components
/// (year, month, day), checked in that order.
pub open spec fn parse_date(s: Seq<char>) -> Result<DateView, DateErrorView> {
    let uncertain = marked_uncertain(s);
    let parts = split_on(date_body(s), '-');
    if parts.len() < 1 || parts.len() > 3 {
        Err(DateErrorView::InvalidFormat(s))
    } else if year_of(parts[0]) is None {
        Err(DateErrorView::InvalidYear(parts[0]))
    } else if parts.len() >= 2 && month_of(parts[1]) is None {
        Err(DateErrorView::InvalidMonth(parts[1]))
    } else if parts.len() == 3 && day_of(parts[2]) is None {
        Err(DateErrorView::InvalidDay(parts[2]))
    } else {
        Ok(
            DateView {
                year: year_of(parts[0]),
                month: if parts.len() >= 2 {
                    month_of(parts[1])
                } else {
                    None
                },
                day: if parts.len() == 3 {
                    day_of(parts[2])
                } else {
                    None
                },
                uncertain,
                raw: s,
            },
        )
    }
}

/// Whether a date string parses.
pub open spec fn date_parses(s: Seq<char>) -> bool {
    parse_date(s) is Ok
}

/// The year of a date string, if it parses.
pub open spec fn parsed_year(s: Seq<char>) -> Option<u16> {
    match parse_date(s) {
        Ok(d) => d.year,
        Err(_) => None,
    }
}

/// Sort key of a date: (year, month, day) with 0 for missing components.
pub open spec fn sort_key_of(d: DateView) -> (u16, u8, u8) {
    (
        match d.year {
            Some(y) => y,
            None => 0,
        },
        match d.month {
            Some(m) => m,
            None => 0,
        },
        match d.day {
            Some(x) => x,
            None => 0,
        },
    )
}

/// Three-way comparison of two integers.
pub open spec fn sign(x: int) -> int {
    if x < 0 {
        -1
    } else if x > 0 {
        1
    } else {
        0
    }
}

/// The first of two comparison results that is not a tie.
pub open spec fn then(first: int, second: int) -> int {
    if first != 0 {
        first
    } else {
        second
    }
}

/// Three-way comparison of optional numbers, `None` first.
pub open spec fn opt_order(a: Option<int>, b: Option<int>) -> int {
    match (a, b) {
        (None, None) => 0,
        (None, Some(_)) => -1,
        (Some(_), None) => 1,
        (Some(x), Some(y)) => sign(x - y),
    }
}

pub open spec fn opt16(a: Option<u16>) -> Option<int> {
    match a {
        Some(x) => Some(x as int),
        None => None,
    }
}

pub open spec fn opt8(a: Option<u8>) -> Option<int> {
    match a {
        Some(x) => Some(x as int),
        None => None,
    }
}

/// Chronological order of dates (negative, zero or positive): by sort key,
/// then by year, month and day as given, certainty (certain first) and the
/// original text, so that only equal dates tie.
pub open spec fn date_order(a: DateView, b: DateView) -> int {
    let ka = sort_key_of(a);
    let kb = sort_key_of(b);
    then(
        sign(ka.0 - kb.0),
        then(
            sign(ka.1 - kb.1),
            then(
                sign(ka.2 - kb.2),
                then(
                    opt_order(opt16(a.year), opt16(b.year)),
                    then(
                        opt_order(opt8(a.month), opt8(b.month)),
                        then(
                            opt_order(opt8(a.day), opt8(b.day)),
                            then(sign((a.uncertain as int) - (b.uncertain as int)), lex_order(a.raw, b.raw)),
                        ),
                    ),
                ),
            ),
        ),
    )
}

/// Order of date strings: parseable dates chronologically, before all
/// unparseable ones, which tie with each other.
pub open spec fn date_str_order(a: Seq<char>, b: Seq<char>) -> int {
    match (parse_date(a), parse_date(b)) {
        (Ok(da), Ok(db)) => date_order(da, db),
        (Ok(_), Err(_)) => -1,
        (Err(_), Ok(_)) => 1,
        (Err(_), Err(_)) => 0,
    }
}

/// Parsing a date keeps its text, and the `?` marker decides certainty.
pub proof fn lemma_parse_keeps_text(s: Seq<char>)
    ensures
        parse_date(s) matches Ok(d) ==> d.raw == s && d.uncertain == marked_uncertain(s) && d.year
            is Some,
{
}

/// `date_order` is a total order on date views: antisymmetric, reflexive,
/// transitive, and it ties only equal dates.
pub proof fn lemma_date_order(a: DateView, b: DateView, c: DateView)
    ensures
        -1 <= date_order(a, b) <= 1,
        date_order(a, b) == -date_order(b, a),
        date_order(a, b) == 0 <==> a == b,
        date_order(a, b) <= 0 && date_order(b, c) <= 0 ==> date_order(a, c) <= 0,
{
    crate::text::lemma_lex_order_range(a.raw, b.raw);
    crate::text::lemma_lex_order_range(b.raw, c.raw);
    crate::text::lemma_lex_order_range(a.raw, c.raw);
    if date_order(a, b) <= 0 && date_order(b, c) <= 0 {
        if lex_order(a.raw, b.raw) <= 0 && lex_order(b.raw, c.raw) <= 0 {
            crate::text::lemma_lex_order_trans(a.raw, b.raw, c.raw);
        }
    }
}

/// `date_str_order` is a total preorder on strings: antisymmetric,
/// reflexive and transitive; unparseable strings come after all dates.
pub proof fn lemma_date_str_order(a: Seq<char>, b: Seq<char>, c: Seq<char>)
    ensures
        -1 <= date_str_order(a, b) <= 1,
        date_str_order(a, b) == -date_str_order(b, a),
        date_str_order(a, a) == 0,
        date_str_order(a, b) <= 0 && date_str_order(b, c) <= 0 ==> date_str_order(a, c) <= 0,
        date_parses(a) && !date_parses(b) ==> date_str_order(a, b) < 0,
        date_parses(a) && date_parses(b) ==> (date_str_order(a, b) == 0 <==> a == b),
{
    match (parse_date(a), parse_date(b), parse_date(c)) {
        (Ok(da), Ok(db), Ok(dc)) => {
            lemma_date_order(da, db, dc);
        },
        _ => {},
    }
    match parse_date(a) {
        Ok(da) => {
            lemma_date_order(da, da, da);
            match parse_date(b) {
                Ok(db) => {
                    lemma_date_order(da, db, db);
                },
                _ => {},
            }
        },
        _ => {},
    }
}

fn copy_range(v: &Vec<char>, from: usize, to: usize) -> (r: String)
    requires
        from <= to <= v@.len(),
    ensures
        r@ == v@.subrange(from as int, to as int),
{
    let mut r = String::new();
    crate::text::push_range(&mut r, v.as_slice(), from, to);
    r
}

fn copy_all(v: &Vec<char>) -> (r: String)
    ensures
        r@ == v@,
{
    let r = copy_range(v, 0, v.len());
    assert(r@ =~= v@);
    r
}

fn parse_year(s: &Vec<char>) -> (r: Result<u16, DateError>)
    ensures
        match year_of(s@) {
            Some(y) => r == Ok::<u16, DateError>(y),
            None => r matches Err(e) && e@ == DateErrorView::InvalidYear(s@),
        },
{
    match parse_bounded(s, 0xffff) {
        Some(n) => Ok(n as u16),
        None => Err(DateError::InvalidYear(copy_all(s))),
    }
}

fn parse_month(s: &Vec<char>) -> (r: Result<u8, DateError>)
    ensures
        match month_of(s@) {
            Some(m) => r == Ok::<u8, DateError>(m),
            None => r matches Err(e) && e@ == DateErrorView::InvalidMonth(s@),
        },
{
    match parse_bounded(s, 0xff) {
        Some(n) => if 1 <= n && n <= 12 {
            Ok(n as u8)
        } else {
            Err(DateError::InvalidMonth(copy_all(s)))
        },
        None => Err(DateError::InvalidMonth(copy_all(s))),
    }
}

fn parse_day(s: &Vec<char>) -> (r: Result<u8, DateError>)
    ensures
        match day_of(s@) {
            Some(d) => r == Ok::<u8, DateError>(d),
            None => r matches Err(e) && e@ == DateErrorView::InvalidDay(s@),
        },
{
    match parse_bounded(s, 0xff) {
        Some(n) => if 1 <= n && n <= 31 {
            Ok(n as u8)
        } else {
            Err(DateError::InvalidDay(copy_all(s)))
        },
        None => Err(DateError::InvalidDay(copy_all(s))),
    }
}

impl ChronicleDate {
    /// Parse a date string.
    pub fn parse(s: &str) -> (r: Result<ChronicleDate, DateError>)
        ensures
            match parse_date(s@) {
                Ok(d) => r matches Ok(x) && x@ == d,
                Err(e) => r matches Err(x) && x@ == e,
            },
    {
        let v = chars_of(s);
        let uncertain = v.len() > 0 && v[v.len() - 1] == '?';
        let end: usize = if uncertain {
            v.len() - 1
        } else {
            v.len()
        };
        let mut body: Vec<char> = Vec::new();
        let mut i: usize = 0;
        while i < end
            invariant
                i <= end <= v.len(),
                body@ == v@.subrange(0, i as int),
            decreases end - i,
        {
            body.push(v[i]);
            i += 1;
            assert(body@ =~= v@.subrange(0, i as int));
        }
        assert(body@ =~= date_body(s@));
        let parts = split_chars(&body, '-');
        proof {
            crate::text::lemma_split_on_nonempty(body@, '-');
            assert(parts.deep_view().len() == parts@.len());
        }
        if parts.len() > 3 {
            return Err(DateError::InvalidFormat(copy_all(&v)));
        }
        proof {
            assert forall|k: int| 0 <= k < parts@.len() implies parts@[k]@ == parts.deep_view()[k] by {
                assert(parts@[k].deep_view() =~= parts@[k]@);
            }
        }
        let year = match parse_year(&parts[0]) {
            Ok(y) => y,
            Err(e) => return Err(e),
        };
        let month = if parts.len() >= 2 {
            match parse_month(&parts[1]) {
                Ok(m) => Some(m),
                Err(e) => return Err(e),
            }
        } else {
            None
        };
        let day = if parts.len() == 3 {
            match parse_day(&parts[2]) {
                Ok(d) => Some(d),
                Err(e) => return Err(e),
            }
        } else {
            None
        };
        let raw = copy_range(&v, 0, v.len());
        assert(raw@ =~= s@);
        Ok(ChronicleDate { year: Some(year), month, day, uncertain, raw })
    }

    /// Returns true if this date has full precision (year, month, day).
    pub fn is_complete(&self) -> (r: bool)
        ensures
            r == (self.year is Some && self.month is Some && self.day is Some),
    {
        self.year.is_some() && self.month.is_some() && self.day.is_some()
    }

    /// Returns the sort key for ordering dates chronologically:
    /// (year, month, day) with 0 for missing components.
    pub fn sort_key(&self) -> (r: (u16, u8, u8))
        ensures
            r == sort_key_of(self@),
    {
        (
            match self.year {
                Some(y) => y,
                None => 0,
            },
            match self.month {
                Some(m) => m,
                None => 0,
            },
            match self.day {
                Some(d) => d,
                None => 0,
            },
        )
    }

    /// The original text of the date.
    pub fn to_string(&self) -> (r: String)
        ensures
            r@ == self@.raw,
    {
        self.raw.clone()
    }

    /// Chronological comparison with another date (negative, zero or
    /// positive), as [`date_order`] states.
    pub fn order(&self, other: &ChronicleDate) -> (r: i8)
        ensures
            r == date_order(self@, other@),
    {
        let ka = self.sort_key();
        let kb = other.sort_key();
        if ka.0 != kb.0 {
            return if ka.0 < kb.0 { -1 } else { 1 };
        }
        if ka.1 != kb.1 {
            return if ka.1 < kb.1 { -1 } else { 1 };
        }
        if ka.2 != kb.2 {
            return if ka.2 < kb.2 { -1 } else { 1 };
        }
        let o = opt_u16_order(self.year, other.year);
        if o != 0 {
            return o;
        }
        let o = opt_u8_order(self.month, other.month);
        if o != 0 {
            return o;
        }
        let o = opt_u8_order(self.day, other.day);
        if o != 0 {
            return o;
        }
        if self.uncertain != other.uncertain {
            return if !self.uncertain { -1 } else { 1 };
        }
        let ra = chars_of(self.raw.as_str());
        let rb = chars_of(other.raw.as_str());
        lex_compare(&ra, &rb)
    }
}

fn opt_u16_order(a: Option<u16>, b: Option<u16>) -> (r: i8)
    ensures
        r == opt_order(opt16(a), opt16(b)),
{
    match (a, b) {
        (None, None) => 0,
        (None, Some(_)) => -1,
        (Some(_), None) => 1,
        (Some(x), Some(y)) => if x < y {
            -1
        } else if x > y {
            1
        } else {
            0
        },
    }
}

fn opt_u8_order(a: Option<u8>, b: Option<u8>) -> (r: i8)
    ensures
        r == opt_order(opt8(a), opt8(b)),
{
    match (a, b) {
        (None, None) => 0,
        (None, Some(_)) => -1,
        (Some(_), None) => 1,
        (Some(x), Some(y)) => if x < y {
            -1
        } else if x > y {
            1
        } else {
            0
        },
    }
}

/// Order two date strings (negative, zero or positive): parseable dates
/// chronologically, then all unparseable ones, which tie.
pub fn date_strings_order(a: &str, b: &str) -> (r: i8)
    ensures
        r == date_str_order(a@, b@),
{
    match (ChronicleDate::parse(a), ChronicleDate::parse(b)) {
        (Ok(da), Ok(db)) => da.order(&db),
        (Ok(_), Err(_)) => -1,
        (Err(_), Ok(_)) => 1,
        (Err(_), Err(_)) => 0,
    }
}


impl std::str::FromStr for ChronicleDate {
    type Err = DateError;

    /// Parse a date string, as [`ChronicleDate::parse`] does.
    fn from_str(s: &str) -> (r: Result<ChronicleDate, DateError>)
        ensures
            match parse_date(s@) {
                Ok(d) => r matches Ok(x) && x@ == d,
                Err(e) => r matches Err(x) && x@ == e,
            },
    {
        ChronicleDate::parse(s)
    }
}

} // verus!
