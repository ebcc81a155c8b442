//! Validation of chronicles.
//!
//! `validate_chronicle` reports every issue of a chronicle, in a fixed order:
//! the schema version, then categories, persons, facts, and finally shared
//! facts whose copies have drifted apart. Its contract gives the exact list.
use vstd::prelude::*;
use crate::checks::{
    civil_date_ok, day_exists, fresh_uuid, hyphenated, spec_url_valid, url_parses, uuid_parses,
    uuid_text, wrapped_year, lemma_hyphenated_parses,
};
use crate::date::{date_error_message, parse_date, ChronicleDate};
use crate::format::{truncate_text, truncated};
use crate::lists::{concat, lemma_all_add, lemma_concat_all, lemma_concat_empty, lemma_concat_contains};
use crate::model::{
    coordinates_valid, fact_references, has_category, has_person, person_index, same_opt_location,
    lemma_person_index, locations_equal, Attachment, AttachmentView, CategoryView, Chronicle,
    ChronicleView, Fact, FactView, Person, PersonView,
};
use crate::text::{
    char_is_digit, char_is_ascii_alnum, char_is_lower, chars_of, decimal, decimal2, is_ascii_alnum,
    is_blank, is_digit, is_lower, own, push_decimal, push_decimal2, split_chars, split_on,
    str_eq, str_is_blank, contains_str,
};

verus! {

// ---------------------------------------------------------------------------
// Issues and results
// ---------------------------------------------------------------------------

/// Type of validation issue.
#[derive(Debug, Clone, Copy, PartialEq, Eq, Structural)]
pub enum IssueType {
    EmptyUuid,
    InvalidUuid,
    DuplicateUuid,
    DuplicatePersonId,
    DuplicateCategoryId,
    UnknownCategory,
    InvalidDate,
    UnknownPersonRef,
    EmptyCountry,
    InvalidCoordinates,
    InvalidMimeType,
    InvalidUrl,
    InvalidId,
    ImplausibleDate,
    EmptyName,
    UnknownVersion,
    DivergedSharedFact,
}

/// Whether an issue type is an error (the rest are warnings): duplicated
/// UUIDs, person IDs and category IDs.
pub open spec fn issue_is_error(t: IssueType) -> bool {
    t is DuplicateUuid || t is DuplicatePersonId || t is DuplicateCategoryId
}

impl IssueType {
    /// Returns whether this issue type is an error (vs warning).
    pub fn is_error(&self) -> (r: bool)
        ensures
            r == issue_is_error(*self),
    {
        match self {
            IssueType::DuplicateUuid | IssueType::DuplicatePersonId
            | IssueType::DuplicateCategoryId => true,
            _ => false,
        }
    }
}

/// A validation issue found in a chronicle.
#[derive(Debug)]
pub struct ValidationIssue {
    /// Person ID where the issue was found
    pub person_id: String,
    /// Fact ID (if applicable)
    pub fact_id: Option<String>,
    /// Human-readable description of the issue
    pub message: String,
    /// Issue type for programmatic handling
    pub issue_type: IssueType,
}

/// View of a [`ValidationIssue`].
pub struct IssueView {
    pub person_id: Seq<char>,
    pub fact_id: Option<Seq<char>>,
    pub message: Seq<char>,
    pub issue_type: IssueType,
}

impl View for ValidationIssue {
    type V = IssueView;

    open spec fn view(&self) -> IssueView {
        IssueView {
            person_id: self.person_id@,
            fact_id: self.fact_id.deep_view(),
            message: self.message@,
            issue_type: self.issue_type,
        }
    }
}

impl DeepView for ValidationIssue {
    type V = IssueView;

    open spec fn deep_view(&self) -> IssueView {
        self@
    }
}

impl Clone for ValidationIssue {
    fn clone(&self) -> (r: Self)
        ensures
            r@ == self@,
    {
        ValidationIssue {
            person_id: self.person_id.clone(),
            fact_id: crate::text::own_opt(&self.fact_id),
            message: self.message.clone(),
            issue_type: self.issue_type,
        }
    }
}

/// Result of validating a chronicle.
#[derive(Debug)]
pub struct ValidationResult {
    /// Warning-level issues
    pub warnings: Vec<ValidationIssue>,
    /// Error-level issues
    pub errors: Vec<ValidationIssue>,
    /// Facts that need UUID correction (person_id, fact_id)
    pub needs_correction: Vec<(String, String)>,
    /// Total number of persons
    pub person_count: usize,
    /// Total number of facts
    pub fact_count: usize,
}

/// View of a [`ValidationResult`].
pub struct ResultView {
    pub warnings: Seq<IssueView>,
    pub errors: Seq<IssueView>,
    pub needs_correction: Seq<(Seq<char>, Seq<char>)>,
    pub person_count: nat,
    pub fact_count: nat,
}

impl View for ValidationResult {
    type V = ResultView;

    open spec fn view(&self) -> ResultView {
        ResultView {
            warnings: self.warnings.deep_view(),
            errors: self.errors.deep_view(),
            needs_correction: self.needs_correction.deep_view(),
            person_count: self.person_count as nat,
            fact_count: self.fact_count as nat,
        }
    }
}

impl Default for ValidationResult {
    fn default() -> (r: Self)
        ensures
            r@ == (ResultView {
                warnings: Seq::empty(),
                errors: Seq::empty(),
                needs_correction: Seq::empty(),
                person_count: 0,
                fact_count: 0,
            }),
    {
        let r = ValidationResult {
            warnings: Vec::new(),
            errors: Vec::new(),
            needs_correction: Vec::new(),
            person_count: 0,
            fact_count: 0,
        };
        assert(r.warnings.deep_view() =~= Seq::<IssueView>::empty());
        assert(r.errors.deep_view() =~= Seq::<IssueView>::empty());
        assert(r.needs_correction.deep_view() =~= Seq::<(Seq<char>, Seq<char>)>::empty());
        r
    }
}

impl ValidationResult {
    /// Returns true if there are no errors or warnings.
    pub fn is_valid(&self) -> (r: bool)
        ensures
            r == (self@.errors.len() == 0 && self@.warnings.len() == 0),
    {
        self.errors.len() == 0 && self.warnings.len() == 0
    }

    /// Returns true if there are no errors (warnings are acceptable).
    pub fn has_no_errors(&self) -> (r: bool)
        ensures
            r == (self@.errors.len() == 0),
    {
        self.errors.len() == 0
    }
}

// ---------------------------------------------------------------------------
// Identifier and MIME type checks
// ---------------------------------------------------------------------------

/// A character allowed after the first in person and category IDs.
pub open spec fn id_char(c: char) -> bool {
    is_lower(c) || is_digit(c) || c == '-' || c == '_'
}

/// Whether `s` matches the schema pattern `^[a-z][a-z0-9_-]*$`.
pub open spec fn valid_id(s: Seq<char>) -> bool {
    &&& s.len() >= 1
    &&& is_lower(s[0])
    &&& forall|i: int| 1 <= i < s.len() ==> id_char(#[trigger] s[i])
}

/// Check if an ID matches the schema pattern `^[a-z][a-z0-9_-]*$`
/// (used for person and category IDs).
pub fn is_valid_id(s: &str) -> (r: bool)
    ensures
        r == valid_id(s@),
{
    let v = chars_of(s);
    if v.len() == 0 || !char_is_lower(v[0]) {
        return false;
    }
    let mut i: usize = 1;
    while i < v.len()
        invariant
            v@ == s@,
            1 <= i <= v.len(),
            forall|j: int| 1 <= j < i ==> id_char(#[trigger] v@[j]),
        decreases v.len() - i,
    {
        let c = v[i];
        if !(char_is_lower(c) || char_is_digit(c) || c == '-' || c == '_') {
            return false;
        }
        i += 1;
    }
    true
}

/// A character allowed in either half of a MIME type.
pub open spec fn mime_char(c: char) -> bool {
    is_ascii_alnum(c) || c == '-' || c == '+' || c == '.'
}

/// A non-empty run of MIME characters.
pub open spec fn mime_part(p: Seq<char>) -> bool {
    p.len() > 0 && forall|i: int| 0 <= i < p.len() ==> mime_char(#[trigger] p[i])
}

/// Whether `s` has the form `type/subtype`: exactly one `/`, with a non-empty
/// run of letters, digits, `-`, `+` and `.` on either side.
pub open spec fn valid_mime_type(s: Seq<char>) -> bool {
    let parts = split_on(s, '/');
    parts.len() == 2 && mime_part(parts[0]) && mime_part(parts[1])
}

fn is_mime_part(p: &Vec<char>) -> (r: bool)
    ensures
        r == mime_part(p@),
{
    if p.len() == 0 {
        return false;
    }
    let mut i: usize = 0;
    while i < p.len()
        invariant
            i <= p.len(),
            forall|j: int| 0 <= j < i ==> mime_char(#[trigger] p@[j]),
        decreases p.len() - i,
    {
        let c = p[i];
        if !(char_is_ascii_alnum(c) || c == '-' || c == '+' || c == '.') {
            return false;
        }
        i += 1;
    }
    true
}

/// Check if a string is a valid MIME type (basic format: type/subtype).
pub fn is_valid_mime_type(s: &str) -> (r: bool)
    ensures
        r == valid_mime_type(s@),
{
    let v = chars_of(s);
    let parts = split_chars(&v, '/');
    proof {
        assert(parts.deep_view().len() == parts@.len());
    }
    if parts.len() != 2 {
        return false;
    }
    proof {
        assert(parts.deep_view()[0] == parts@[0]@);
        assert(parts.deep_view()[1] == parts@[1]@);
    }
    is_mime_part(&parts[0]) && is_mime_part(&parts[1])
}


// ---------------------------------------------------------------------------
// What validation reports
// ---------------------------------------------------------------------------

/// An issue that concerns no particular person or fact.
pub open spec fn general_issue(message: Seq<char>, t: IssueType) -> IssueView {
    IssueView { person_id: Seq::empty(), fact_id: None, message, issue_type: t }
}

/// An issue about a person.
pub open spec fn person_issue(pid: Seq<char>, message: Seq<char>, t: IssueType) -> IssueView {
    IssueView { person_id: pid, fact_id: None, message, issue_type: t }
}

/// An issue about fact `f` of the person with ID `pid`.
pub open spec fn fact_issue(pid: Seq<char>, f: FactView, message: Seq<char>, t: IssueType) -> IssueView {
    IssueView { person_id: pid, fact_id: Some(f.id), message, issue_type: t }
}

/// `i` alone if `cond` holds, else nothing.
pub open spec fn one_if(cond: bool, i: IssueView) -> Seq<IssueView> {
    if cond {
        seq![i]
    } else {
        Seq::empty()
    }
}

/// The warning about a schema version other than 1.0.
pub open spec fn version_warnings(c: ChronicleView) -> Seq<IssueView> {
    one_if(
        c.version != "1.0"@,
        general_issue(
            "Unknown schema version '"@ + c.version + "' (this kinsaga validates version 1.0)"@,
            IssueType::UnknownVersion,
        ),
    )
}

/// Whether category `i` repeats the ID of an earlier category.
pub open spec fn category_repeated(cs: Seq<CategoryView>, i: int) -> bool {
    exists|j: int| 0 <= j < i && #[trigger] cs[j].id == cs[i].id
}

/// The errors about category `i`.
pub open spec fn category_errors_fn(cs: Seq<CategoryView>) -> spec_fn(int) -> Seq<IssueView> {
    |i: int|
        one_if(
            category_repeated(cs, i),
            general_issue(
                "Duplicate category ID '"@ + cs[i].id + "'"@,
                IssueType::DuplicateCategoryId,
            ),
        )
}

/// The warnings about category `i`: a malformed ID, an empty label.
pub open spec fn category_warnings_fn(cs: Seq<CategoryView>) -> spec_fn(int) -> Seq<IssueView> {
    |i: int|
        one_if(
            !valid_id(cs[i].id),
            general_issue(
                "Category ID '"@ + cs[i].id
                    + "' doesn't match the schema pattern ^[a-z][a-z0-9_-]*$"@,
                IssueType::InvalidId,
            ),
        ) + one_if(
            is_blank(cs[i].label),
            general_issue("Category '"@ + cs[i].id + "' has an empty label"@, IssueType::EmptyName),
        )
}

/// Whether person `i` repeats the ID of an earlier person.
pub open spec fn person_repeated(ps: Seq<PersonView>, i: int) -> bool {
    exists|j: int| 0 <= j < i && #[trigger] ps[j].id == ps[i].id
}

/// The errors about person `i`.
pub open spec fn person_errors_fn(ps: Seq<PersonView>) -> spec_fn(int) -> Seq<IssueView> {
    |i: int|
        one_if(
            person_repeated(ps, i),
            person_issue(
                ps[i].id,
                "Duplicate person ID '"@ + ps[i].id + "'"@,
                IssueType::DuplicatePersonId,
            ),
        )
}

/// The warnings about person `i`: a malformed ID, an empty name.
pub open spec fn person_warnings_fn(ps: Seq<PersonView>) -> spec_fn(int) -> Seq<IssueView> {
    |i: int|
        one_if(
            !valid_id(ps[i].id),
            person_issue(
                ps[i].id,
                "Person ID '"@ + ps[i].id + "' doesn't match the schema pattern ^[a-z][a-z0-9_-]*$"@,
                IssueType::InvalidId,
            ),
        ) + one_if(
            is_blank(ps[i].name),
            person_issue(ps[i].id, "Person '"@ + ps[i].id + "' has an empty name"@, IssueType::EmptyName),
        )
}

/// The fact IDs of a person, in order.
pub open spec fn fact_ids(p: PersonView) -> Seq<Seq<char>> {
    p.facts.map_values(|f: FactView| f.id)
}

/// The fact IDs of person `q`.
pub open spec fn fact_ids_fn(ps: Seq<PersonView>) -> spec_fn(int) -> Seq<Seq<char>> {
    |q: int| fact_ids(ps[q])
}

/// The IDs of all facts before fact `k` of person `p`, in document order.
pub open spec fn ids_before(ps: Seq<PersonView>, p: int, k: int) -> Seq<Seq<char>> {
    concat(p as nat, fact_ids_fn(ps)) + fact_ids(ps[p]).take(k)
}

/// What is wrong with the UUID of fact `k` of person `p`, if anything: it is
/// empty, malformed, or a valid UUID that an earlier fact already has.
pub open spec fn uuid_issue_type(ps: Seq<PersonView>, p: int, k: int) -> Option<IssueType> {
    let id = ps[p].facts[k].id;
    if id.len() == 0 {
        Some(IssueType::EmptyUuid)
    } else if !uuid_text(id) {
        Some(IssueType::InvalidUuid)
    } else if ids_before(ps, p, k).contains(id) {
        Some(IssueType::DuplicateUuid)
    } else {
        None
    }
}

/// A fact's text shortened for messages.
pub open spec fn fact_label(f: FactView) -> Seq<char> {
    truncated(f.text, 30)
}

/// The message for a UUID issue of type `t` on fact `f`.
pub open spec fn uuid_message(f: FactView, t: IssueType) -> Seq<char> {
    if t is EmptyUuid {
        "Empty UUID for fact '"@ + fact_label(f) + "'"@
    } else if t is InvalidUuid {
        "Invalid UUID format '"@ + f.id + "' for fact '"@ + fact_label(f) + "'"@
    } else {
        "Duplicate UUID '"@ + f.id + "' for fact '"@ + fact_label(f) + "'"@
    }
}

/// The UUID issue of a fact as a list, if it is an error exactly when
/// `error` holds.
pub open spec fn uuid_issues(ps: Seq<PersonView>, p: int, k: int, error: bool) -> Seq<IssueView> {
    match uuid_issue_type(ps, p, k) {
        Some(t) => one_if(
            issue_is_error(t) == error,
            fact_issue(ps[p].id, ps[p].facts[k], uuid_message(ps[p].facts[k], t), t),
        ),
        None => Seq::empty(),
    }
}

/// The warning about a fact's date: one that does not parse, or a complete
/// date whose day does not exist.
pub open spec fn date_warnings(pid: Seq<char>, f: FactView) -> Seq<IssueView> {
    match parse_date(f.date) {
        Err(e) => seq![
            fact_issue(
                pid,
                f,
                "Invalid date '"@ + f.date + "' - "@ + date_error_message(e),
                IssueType::InvalidDate,
            ),
        ],
        Ok(d) => match (d.year, d.month, d.day) {
            (Some(y), Some(m), Some(day)) => one_if(
                !civil_date_ok(wrapped_year(y), m as int, day as int),
                fact_issue(
                    pid,
                    f,
                    "Implausible date '"@ + f.date + "' - day "@ + decimal(day as nat)
                        + " does not exist in "@ + decimal(y as nat) + "-"@ + decimal2(m as nat),
                    IssueType::ImplausibleDate,
                ),
            ),
            _ => Seq::empty(),
        },
    }
}

/// The warning about reference `k` of a fact's `with` list `w`.
pub open spec fn ref_warnings_fn(ps: Seq<PersonView>, pid: Seq<char>, f: FactView, w: Seq<Seq<char>>) -> spec_fn(int) -> Seq<IssueView> {
    |k: int|
        one_if(
            !has_person(ps, w[k]),
            fact_issue(pid, f, "Unknown person reference '"@ + w[k] + "'"@, IssueType::UnknownPersonRef),
        )
}

/// The warnings about a fact's references to unknown persons.
pub open spec fn ref_warnings(ps: Seq<PersonView>, pid: Seq<char>, f: FactView) -> Seq<IssueView> {
    match f.with {
        Some(w) => concat(w.len(), ref_warnings_fn(ps, pid, f, w)),
        None => Seq::empty(),
    }
}

/// The warnings about a fact's location: an empty country, coordinates out of
/// range.
pub open spec fn location_warnings(pid: Seq<char>, f: FactView) -> Seq<IssueView> {
    match f.location {
        Some(l) => one_if(
            is_blank(l.country),
            fact_issue(pid, f, "Empty country in location"@, IssueType::EmptyCountry),
        ) + match l.coordinates {
            Some(co) => one_if(
                !coordinates_valid(co),
                fact_issue(
                    pid,
                    f,
                    "Invalid GPS coordinates (lat: "@ + co.lat + ", lon: "@ + co.lon
                        + "). Valid ranges: lat -90..90, lon -180..180"@,
                    IssueType::InvalidCoordinates,
                ),
            ),
            None => Seq::empty(),
        },
        None => Seq::empty(),
    }
}

/// The warnings about attachment `k` of fact `f`: an unparseable URL, a
/// malformed MIME type.
pub open spec fn attachment_warnings_fn(pid: Seq<char>, f: FactView) -> spec_fn(int) -> Seq<IssueView> {
    |k: int|
        one_if(
            !spec_url_valid(f.attachments[k].url),
            fact_issue(
                pid,
                f,
                "Attachment "@ + decimal((k + 1) as nat) + ": invalid URL '"@ + f.attachments[k].url
                    + "' (must include a scheme, e.g. file://, https://)"@,
                IssueType::InvalidUrl,
            ),
        ) + match f.attachments[k].content_type {
            Some(ct) => one_if(
                !valid_mime_type(ct),
                fact_issue(
                    pid,
                    f,
                    "Attachment "@ + decimal((k + 1) as nat) + ": invalid MIME type '"@ + ct
                        + "' (expected format: type/subtype)"@,
                    IssueType::InvalidMimeType,
                ),
            ),
            None => Seq::empty(),
        }
}

/// The warnings about the contents of fact `f` of the person with ID `pid`:
/// its category, date, references, location and attachments, in that order.
pub open spec fn content_warnings(c: ChronicleView, pid: Seq<char>, f: FactView) -> Seq<IssueView> {
    one_if(
        !has_category(c.categories, f.category),
        fact_issue(pid, f, "Unknown category '"@ + f.category + "'"@, IssueType::UnknownCategory),
    ) + date_warnings(pid, f) + ref_warnings(c.persons, pid, f) + location_warnings(pid, f)
        + concat(f.attachments.len(), attachment_warnings_fn(pid, f))
}

/// The warnings about fact `k` of person `p`, in the order they are checked.
pub open spec fn fact_warnings(c: ChronicleView, p: int, k: int) -> Seq<IssueView> {
    uuid_issues(c.persons, p, k, false) + content_warnings(c, c.persons[p].id, c.persons[p].facts[k])
}

/// The (person ID, fact ID) pair of fact `k` of person `p` if its UUID needs
/// replacing.
pub open spec fn fact_corrections(ps: Seq<PersonView>, p: int, k: int) -> Seq<(Seq<char>, Seq<char>)> {
    if uuid_issue_type(ps, p, k) is Some {
        seq![(ps[p].id, ps[p].facts[k].id)]
    } else {
        Seq::empty()
    }
}

pub open spec fn fact_warnings_fn(c: ChronicleView, p: int) -> spec_fn(int) -> Seq<IssueView> {
    |k: int| fact_warnings(c, p, k)
}

pub open spec fn fact_errors_fn(ps: Seq<PersonView>, p: int) -> spec_fn(int) -> Seq<IssueView> {
    |k: int| uuid_issues(ps, p, k, true)
}

pub open spec fn fact_corrections_fn(ps: Seq<PersonView>, p: int) -> spec_fn(int) -> Seq<(Seq<char>, Seq<char>)> {
    |k: int| fact_corrections(ps, p, k)
}

pub open spec fn all_fact_warnings_fn(c: ChronicleView) -> spec_fn(int) -> Seq<IssueView> {
    |p: int| concat(c.persons[p].facts.len(), fact_warnings_fn(c, p))
}

pub open spec fn all_fact_errors_fn(ps: Seq<PersonView>) -> spec_fn(int) -> Seq<IssueView> {
    |p: int| concat(ps[p].facts.len(), fact_errors_fn(ps, p))
}

pub open spec fn all_corrections_fn(ps: Seq<PersonView>) -> spec_fn(int) -> Seq<(Seq<char>, Seq<char>)> {
    |p: int| concat(ps[p].facts.len(), fact_corrections_fn(ps, p))
}

/// The total number of facts over all persons.
pub open spec fn fact_total(ps: Seq<PersonView>) -> nat
    decreases ps.len(),
{
    if ps.len() == 0 {
        0
    } else {
        fact_total(ps.drop_last()) + ps.last().facts.len()
    }
}


// ---------------------------------------------------------------------------
// Building issues
// ---------------------------------------------------------------------------

fn push_issue(v: &mut Vec<ValidationIssue>, i: ValidationIssue)
    ensures
        final(v).deep_view() == old(v).deep_view().push(i@),
{
    let ghost before = v.deep_view();
    let ghost iv = i@;
    v.push(i);
    assert(v.deep_view() =~= before.push(iv));
}

fn append_issues(v: &mut Vec<ValidationIssue>, w: Vec<ValidationIssue>)
    ensures
        final(v).deep_view() == old(v).deep_view() + w.deep_view(),
{
    let mut w = w;
    let ghost a = v.deep_view();
    let ghost b = w.deep_view();
    v.append(&mut w);
    assert(v.deep_view() =~= a + b);
}

fn new_general_issue(message: String, t: IssueType) -> (r: ValidationIssue)
    ensures
        r@ == general_issue(message@, t),
{
    ValidationIssue { person_id: String::new(), fact_id: None, message, issue_type: t }
}

fn new_person_issue(pid: &str, message: String, t: IssueType) -> (r: ValidationIssue)
    ensures
        r@ == person_issue(pid@, message@, t),
{
    ValidationIssue { person_id: own(pid), fact_id: None, message, issue_type: t }
}

fn new_fact_issue(pid: &str, f: &Fact, message: String, t: IssueType) -> (r: ValidationIssue)
    ensures
        r@ == fact_issue(pid@, f@, message@, t),
{
    ValidationIssue {
        person_id: own(pid),
        fact_id: Some(f.id.clone()),
        message,
        issue_type: t,
    }
}

/// `a`, `x` and `b` joined.
fn around(a: &str, x: &str, b: &str) -> (r: String)
    ensures
        r@ == a@ + x@ + b@,
{
    let mut r = String::from_str(a);
    r.append(x);
    r.append(b);
    r
}

// ---------------------------------------------------------------------------
// Checking one fact
// ---------------------------------------------------------------------------

fn uuid_check(c: &Chronicle, p: usize, k: usize, seen: &Vec<String>) -> (r: Option<IssueType>)
    requires
        p < c.persons.len(),
        k < c.persons@[p as int].facts.len(),
        seen.deep_view() == ids_before(c@.persons, p as int, k as int),
    ensures
        r == uuid_issue_type(c@.persons, p as int, k as int),
{
    let f = &c.persons[p].facts[k];
    assert(c@.persons[p as int].facts[k as int] == f@);
    if f.id.as_str().is_empty() {
        Some(IssueType::EmptyUuid)
    } else if !uuid_parses(f.id.as_str()) {
        Some(IssueType::InvalidUuid)
    } else if contains_str(seen, f.id.as_str()) {
        Some(IssueType::DuplicateUuid)
    } else {
        None
    }
}

fn uuid_message_text(f: &Fact, t: IssueType) -> (r: String)
    ensures
        r@ == uuid_message(f@, t),
{
    let label = truncate_text(f.text.as_str(), 30);
    match t {
        IssueType::EmptyUuid => around("Empty UUID for fact '", label.as_str(), "'"),
        IssueType::InvalidUuid => {
            let mut r = around("Invalid UUID format '", f.id.as_str(), "' for fact '");
            r.append(label.as_str());
            r.append("'");
            r
        },
        _ => {
            let mut r = around("Duplicate UUID '", f.id.as_str(), "' for fact '");
            r.append(label.as_str());
            r.append("'");
            r
        },
    }
}

fn date_issues(pid: &str, f: &Fact) -> (r: Vec<ValidationIssue>)
    ensures
        r.deep_view() == date_warnings(pid@, f@),
{
    let mut r: Vec<ValidationIssue> = Vec::new();
    assert(r.deep_view() =~= Seq::<IssueView>::empty());
    match ChronicleDate::parse(f.date.as_str()) {
        Err(e) => {
            let mut m = around("Invalid date '", f.date.as_str(), "' - ");
            let em = e.message();
            m.append(em.as_str());
            push_issue(&mut r, new_fact_issue(pid, f, m, IssueType::InvalidDate));
        },
        Ok(d) => {
            if let (Some(y), Some(mo), Some(day)) = (d.year, d.month, d.day) {
                if !day_exists(y, mo, day) {
                    let mut m = around("Implausible date '", f.date.as_str(), "' - day ");
                    crate::text::push_decimal(&mut m, day as usize);
                    m.append(" does not exist in ");
                    crate::text::push_decimal(&mut m, y as usize);
                    m.append("-");
                    crate::text::push_decimal2(&mut m, mo as usize);
                    push_issue(&mut r, new_fact_issue(pid, f, m, IssueType::ImplausibleDate));
                }
            }
        },
    }
    r
}

fn ref_issues(c: &Chronicle, pid: &str, f: &Fact) -> (r: Vec<ValidationIssue>)
    ensures
        r.deep_view() == ref_warnings(c@.persons, pid@, f@),
{
    let mut r: Vec<ValidationIssue> = Vec::new();
    assert(r.deep_view() =~= Seq::<IssueView>::empty());
    match &f.with {
        None => {},
        Some(w) => {
            let ghost wv = w.deep_view();
            let ghost g = ref_warnings_fn(c@.persons, pid@, f@, wv);
            let mut k: usize = 0;
            while k < w.len()
                invariant
                    k <= w.len(),
                    wv == w.deep_view(),
                    f@.with == Some(wv),
                    g == ref_warnings_fn(c@.persons, pid@, f@, wv),
                    r.deep_view() == concat(k as nat, g),
                decreases w.len() - k,
            {
                let known = c.person_position(w[k].as_str()).is_some();
                proof {
                    lemma_person_index(c@.persons, wv[k as int]);
                    assert(w@[k as int]@ == wv[k as int]);
                }
                if !known {
                    let m = around("Unknown person reference '", w[k].as_str(), "'");
                    push_issue(&mut r, new_fact_issue(pid, f, m, IssueType::UnknownPersonRef));
                }
                k += 1;
                assert(r.deep_view() =~= concat(k as nat, g));
            }
        },
    }
    r
}

fn location_issues(pid: &str, f: &Fact) -> (r: Vec<ValidationIssue>)
    ensures
        r.deep_view() == location_warnings(pid@, f@),
{
    let mut r: Vec<ValidationIssue> = Vec::new();
    assert(r.deep_view() =~= Seq::<IssueView>::empty());
    if let Some(l) = &f.location {
        if str_is_blank(l.country.as_str()) {
            let m = String::from_str("Empty country in location");
            push_issue(&mut r, new_fact_issue(pid, f, m, IssueType::EmptyCountry));
        }
        if let Some(co) = &l.coordinates {
            if !co.is_valid() {
                let mut m = around("Invalid GPS coordinates (lat: ", co.lat.as_str(), ", lon: ");
                m.append(co.lon.as_str());
                m.append("). Valid ranges: lat -90..90, lon -180..180");
                push_issue(&mut r, new_fact_issue(pid, f, m, IssueType::InvalidCoordinates));
            }
        }
    }
    r
}

fn attachment_issues(pid: &str, f: &Fact) -> (r: Vec<ValidationIssue>)
    ensures
        r.deep_view() == concat(f@.attachments.len(), attachment_warnings_fn(pid@, f@)),
{
    let mut r: Vec<ValidationIssue> = Vec::new();
    let ghost g = attachment_warnings_fn(pid@, f@);
    let mut k: usize = 0;
    assert(r.deep_view() =~= concat(0, g));
    while k < f.attachments.len()
        invariant
            k <= f.attachments.len(),
            g == attachment_warnings_fn(pid@, f@),
            r.deep_view() == concat(k as nat, g),
        decreases f.attachments.len() - k,
    {
        let a = &f.attachments[k];
        assert(f@.attachments[k as int] == a@);
        let ghost before = r.deep_view();
        if !url_parses(a.url.as_str()) {
            let mut m = String::from_str("Attachment ");
            crate::text::push_decimal(&mut m, k + 1);
            m.append(": invalid URL '");
            m.append(a.url.as_str());
            m.append("' (must include a scheme, e.g. file://, https://)");
            push_issue(&mut r, new_fact_issue(pid, f, m, IssueType::InvalidUrl));
        }
        if let Some(ct) = &a.content_type {
            if !is_valid_mime_type(ct.as_str()) {
                let mut m = String::from_str("Attachment ");
                crate::text::push_decimal(&mut m, k + 1);
                m.append(": invalid MIME type '");
                m.append(ct.as_str());
                m.append("' (expected format: type/subtype)");
                push_issue(&mut r, new_fact_issue(pid, f, m, IssueType::InvalidMimeType));
            }
        }
        assert(r.deep_view() =~= before + g(k as int));
        k += 1;
    }
    r
}


fn check_fact(
    c: &Chronicle,
    p: usize,
    k: usize,
    seen: &Vec<String>,
    warnings: &mut Vec<ValidationIssue>,
    errors: &mut Vec<ValidationIssue>,
    corrections: &mut Vec<(String, String)>,
)
    requires
        p < c.persons.len(),
        k < c.persons@[p as int].facts.len(),
        seen.deep_view() == ids_before(c@.persons, p as int, k as int),
    ensures
        final(warnings).deep_view() == old(warnings).deep_view() + fact_warnings(c@, p as int, k as int),
        final(errors).deep_view() == old(errors).deep_view() + uuid_issues(c@.persons, p as int, k as int, true),
        final(corrections).deep_view() == old(corrections).deep_view() + fact_corrections(c@.persons, p as int, k as int),
{
    let person = &c.persons[p];
    let f = &person.facts[k];
    let pid = person.id.as_str();
    assert(c@.persons[p as int] == person@);
    assert(person@.facts[k as int] == f@);
    let ghost w0 = warnings.deep_view();
    let ghost e0 = errors.deep_view();
    let ghost c0 = corrections.deep_view();
    let status = uuid_check(c, p, k, seen);
    match status {
        Some(t) => {
            let m = uuid_message_text(f, t);
            let issue = new_fact_issue(pid, f, m, t);
            if t.is_error() {
                push_issue(errors, issue);
            } else {
                push_issue(warnings, issue);
            }
            corrections.push((own(pid), f.id.clone()));
            assert(corrections.deep_view() =~= c0 + fact_corrections(c@.persons, p as int, k as int));
        },
        None => {
            assert(corrections.deep_view() =~= c0 + fact_corrections(c@.persons, p as int, k as int));
        },
    }
    assert(errors.deep_view() =~= e0 + uuid_issues(c@.persons, p as int, k as int, true));
    let ghost w1 = warnings.deep_view();
    assert(w1 =~= w0 + uuid_issues(c@.persons, p as int, k as int, false));
    append_issues(warnings, content_issues(c, pid, f));
    assert(warnings.deep_view() =~= w0 + fact_warnings(c@, p as int, k as int));
}

fn content_issues(c: &Chronicle, pid: &str, f: &Fact) -> (r: Vec<ValidationIssue>)
    ensures
        r.deep_view() == content_warnings(c@, pid@, f@),
{
    let mut r: Vec<ValidationIssue> = Vec::new();
    assert(r.deep_view() =~= Seq::<IssueView>::empty());
    if !c.has_category(f.category.as_str()) {
        let m = around("Unknown category '", f.category.as_str(), "'");
        push_issue(&mut r, new_fact_issue(pid, f, m, IssueType::UnknownCategory));
    }
    let ghost r0 = r.deep_view();
    append_issues(&mut r, date_issues(pid, f));
    append_issues(&mut r, ref_issues(c, pid, f));
    append_issues(&mut r, location_issues(pid, f));
    append_issues(&mut r, attachment_issues(pid, f));
    r
}

fn category_seen(c: &Chronicle, i: usize) -> (r: bool)
    requires
        i < c.categories.len(),
    ensures
        r == category_repeated(c@.categories, i as int),
{
    let mut j: usize = 0;
    while j < i
        invariant
            i < c.categories.len(),
            j <= i,
            forall|q: int| 0 <= q < j ==> c@.categories[q].id != c@.categories[i as int].id,
        decreases i - j,
    {
        if str_eq(c.categories[j].id.as_str(), c.categories[i].id.as_str()) {
            assert(c@.categories[j as int].id == c@.categories[i as int].id);
            return true;
        }
        j += 1;
    }
    false
}

fn person_seen(c: &Chronicle, i: usize) -> (r: bool)
    requires
        i < c.persons.len(),
    ensures
        r == person_repeated(c@.persons, i as int),
{
    let mut j: usize = 0;
    while j < i
        invariant
            i < c.persons.len(),
            j <= i,
            forall|q: int| 0 <= q < j ==> c@.persons[q].id != c@.persons[i as int].id,
        decreases i - j,
    {
        if str_eq(c.persons[j].id.as_str(), c.persons[i].id.as_str()) {
            assert(c@.persons[j as int].id == c@.persons[i as int].id);
            return true;
        }
        j += 1;
    }
    false
}


// ---------------------------------------------------------------------------
// Drift between copies of shared facts
// ---------------------------------------------------------------------------

/// The number of persons a fact names in its `with` list.
pub open spec fn with_len(f: FactView) -> nat {
    match f.with {
        Some(w) => w.len(),
        None => 0,
    }
}

/// The (lower index, higher index, date) key that reference `k` of fact `f`
/// of person `i` raises: the person it names must exist (the first with that
/// ID) and differ from person `i`.
pub open spec fn event_key(ps: Seq<PersonView>, i: int, f: int, k: int) -> Option<(usize, usize, Seq<char>)> {
    let fact = ps[i].facts[f];
    match fact.with {
        Some(w) => match person_index(ps, w[k]) {
            Some(j) => if j == i {
                None
            } else if i < j {
                Some((i as usize, j as usize, fact.date))
            } else {
                Some((j as usize, i as usize, fact.date))
            },
            None => None,
        },
        None => None,
    }
}

/// The keys raised by the references of fact `f` of person `i`.
pub open spec fn fact_events(ps: Seq<PersonView>, i: int, f: int) -> Seq<Option<(usize, usize, Seq<char>)>> {
    Seq::new(with_len(ps[i].facts[f]), |k: int| event_key(ps, i, f, k))
}

pub open spec fn fact_events_fn(ps: Seq<PersonView>, i: int) -> spec_fn(int) -> Seq<Option<(usize, usize, Seq<char>)>> {
    |f: int| fact_events(ps, i, f)
}

pub open spec fn person_events_fn(ps: Seq<PersonView>) -> spec_fn(int) -> Seq<Option<(usize, usize, Seq<char>)>> {
    |i: int| concat(ps[i].facts.len(), fact_events_fn(ps, i))
}

/// The keys raised by the references before reference `k` of fact `f` of
/// person `i`, in document order.
pub open spec fn events_before(ps: Seq<PersonView>, i: int, f: int, k: int) -> Seq<Option<(usize, usize, Seq<char>)>> {
    concat(i as nat, person_events_fn(ps)) + concat(f as nat, fact_events_fn(ps, i)) + fact_events(ps, i, f).take(k)
}

/// The distinct keys of `s`, in the order of their first occurrence.
pub open spec fn first_keys(s: Seq<Option<(usize, usize, Seq<char>)>>) -> Seq<(usize, usize, Seq<char>)>
    decreases s.len(),
{
    if s.len() == 0 {
        Seq::empty()
    } else {
        extend_keys(first_keys(s.drop_last()), s.last())
    }
}

/// `keys` with `e` added at the end if it is a key not yet among them.
pub open spec fn extend_keys(keys: Seq<(usize, usize, Seq<char>)>, e: Option<(usize, usize, Seq<char>)>) -> Seq<(usize, usize, Seq<char>)> {
    match e {
        Some(key) => if keys.contains(key) {
            keys
        } else {
            keys.push(key)
        },
        None => keys,
    }
}

/// The facts of a person on `date` that name `other` in their `with` list.
pub open spec fn shared_side(facts: Seq<FactView>, date: Seq<char>, other: Seq<char>) -> Seq<FactView>
    decreases facts.len(),
{
    if facts.len() == 0 {
        Seq::empty()
    } else {
        let prev = shared_side(facts.drop_last(), date, other);
        let f = facts.last();
        if f.date == date && fact_references(f, other) {
            prev.push(f)
        } else {
            prev
        }
    }
}

/// Index of the first fact in `s` with text `t`.
pub open spec fn first_text(s: Seq<FactView>, t: Seq<char>) -> Option<int>
    decreases s.len(),
{
    if s.len() == 0 {
        None
    } else {
        match first_text(s.drop_last(), t) {
            Some(i) => Some(i),
            None => if s.last().text == t {
                Some(s.len() - 1)
            } else {
                None
            },
        }
    }
}

/// Which fields differ, as named in drift messages.
pub open spec fn differs_text(category: bool, location: bool) -> Seq<char> {
    if category && location {
        "category, location"@
    } else if category {
        "category"@
    } else {
        "location"@
    }
}

/// The warning for a copy `fb` (on person `pb_id`) of fact `fa` (on person
/// `pa_id`) with the same text, if their category or location differ.
pub open spec fn copy_drift(pa_id: Seq<char>, pb_id: Seq<char>, fa: FactView, fb: FactView) -> Seq<IssueView> {
    let category = fb.category != fa.category;
    let location = !same_opt_location(fb.location, fa.location);
    one_if(
        category || location,
        fact_issue(
            pa_id,
            fa,
            "Shared fact '"@ + fact_label(fa) + "' ("@ + fa.id + ") on "@ + fa.date
                + " differs from its copy on '"@ + pb_id + "' ("@ + fb.id + ") in "@
                + differs_text(category, location),
            IssueType::DivergedSharedFact,
        ),
    )
}

/// State of pairing facts by text: the warnings so far, the facts of the
/// first side left without a partner, and the facts of the second side not
/// yet taken.
pub struct PairState {
    pub warnings: Seq<IssueView>,
    pub unmatched: Seq<FactView>,
    pub rest: Seq<FactView>,
}

/// The pairing state after the first `n` facts of `a`: each takes the first
/// remaining fact of `b` with the same text, if there is one.
pub open spec fn pair_state(pa_id: Seq<char>, pb_id: Seq<char>, a: Seq<FactView>, b: Seq<FactView>, n: nat) -> PairState
    decreases n,
{
    if n == 0 {
        PairState { warnings: Seq::empty(), unmatched: Seq::empty(), rest: b }
    } else {
        let st = pair_state(pa_id, pb_id, a, b, (n - 1) as nat);
        let fa = a[n - 1];
        match first_text(st.rest, fa.text) {
            Some(pos) => PairState {
                warnings: st.warnings + copy_drift(pa_id, pb_id, fa, st.rest[pos]),
                unmatched: st.unmatched,
                rest: st.rest.remove(pos),
            },
            None => PairState { unmatched: st.unmatched.push(fa), ..st },
        }
    }
}

/// The warning for leftover pair `q` (`u[q]` with `r[q]`) if their
/// categories differ.
pub open spec fn leftover_fn(pa_id: Seq<char>, pb_id: Seq<char>, u: Seq<FactView>, r: Seq<FactView>) -> spec_fn(int) -> Seq<IssueView> {
    |q: int|
        one_if(
            u[q].category != r[q].category,
            fact_issue(
                pa_id,
                u[q],
                "Shared facts '"@ + fact_label(u[q]) + "' ("@ + u[q].id + ") and '"@
                    + fact_label(r[q]) + "' ('"@ + pb_id + "', "@ + r[q].id + ") on "@
                    + u[q].date + " differ in category ('"@ + u[q].category + "' vs '"@
                    + r[q].category + "')"@,
                IssueType::DivergedSharedFact,
            ),
        )
}

/// The smaller of two lengths.
pub open spec fn min_len(a: nat, b: nat) -> nat {
    if a <= b {
        a
    } else {
        b
    }
}

/// The drift warnings for the persons and date of `key`: copies paired by
/// text that differ in category or location, then leftovers paired in order
/// that differ in category.
pub open spec fn pair_warnings(ps: Seq<PersonView>, key: (usize, usize, Seq<char>)) -> Seq<IssueView> {
    let pa = ps[key.0 as int];
    let pb = ps[key.1 as int];
    let a = shared_side(pa.facts, key.2, pb.id);
    let b = shared_side(pb.facts, key.2, pa.id);
    let st = pair_state(pa.id, pb.id, a, b, a.len());
    st.warnings + concat(
        min_len(st.unmatched.len(), st.rest.len()),
        leftover_fn(pa.id, pb.id, st.unmatched, st.rest),
    )
}

pub open spec fn pair_fn(ps: Seq<PersonView>, keys: Seq<(usize, usize, Seq<char>)>) -> spec_fn(int) -> Seq<IssueView> {
    |q: int| pair_warnings(ps, keys[q])
}

/// The drift warnings of a chronicle: for each key, in the order in which
/// references first raise it, the warnings for its pair of persons and date.
pub open spec fn drift_warnings(ps: Seq<PersonView>) -> Seq<IssueView> {
    let keys = first_keys(concat(ps.len(), person_events_fn(ps)));
    concat(keys.len(), pair_fn(ps, keys))
}


/// `first_text` finds the first fact with the text, or reports that none has it.
pub proof fn lemma_first_text(s: Seq<FactView>, t: Seq<char>)
    ensures
        match first_text(s, t) {
            Some(i) => 0 <= i < s.len() && s[i].text == t && (forall|j: int|
                0 <= j < i ==> s[j].text != t),
            None => forall|j: int| 0 <= j < s.len() ==> s[j].text != t,
        },
    decreases s.len(),
{
    if s.len() > 0 {
        lemma_first_text(s.drop_last(), t);
        match first_text(s.drop_last(), t) {
            Some(i) => {
                assert forall|j: int| 0 <= j < i implies s[j].text != t by {
                    assert(s.drop_last()[j] == s[j]);
                }
                assert(s.drop_last()[i] == s[i]);
            },
            None => {
                assert forall|j: int| 0 <= j < s.len() - 1 implies s[j].text != t by {
                    assert(s.drop_last()[j] == s[j]);
                }
            },
        }
    }
}

fn fact_names(f: &Fact, other: &str) -> (r: bool)
    ensures
        r == fact_references(f@, other@),
{
    match &f.with {
        Some(w) => contains_str(w, other),
        None => false,
    }
}

fn side_of(facts: &Vec<Fact>, date: &str, other: &str) -> (r: Vec<Fact>)
    ensures
        r.deep_view() == shared_side(facts.deep_view(), date@, other@),
{
    let mut r: Vec<Fact> = Vec::new();
    let mut i: usize = 0;
    assert(facts.deep_view().take(0) =~= Seq::<FactView>::empty());
    assert(r.deep_view() =~= Seq::<FactView>::empty());
    while i < facts.len()
        invariant
            i <= facts.len(),
            r.deep_view() == shared_side(facts.deep_view().take(i as int), date@, other@),
        decreases facts.len() - i,
    {
        let f = &facts[i];
        let ghost before = r.deep_view();
        assert(facts.deep_view().take(i + 1).drop_last() =~= facts.deep_view().take(i as int));
        assert(facts.deep_view().take(i + 1).last() == f@);
        if str_eq(f.date.as_str(), date) && fact_names(f, other) {
            let g = f.clone();
            let ghost gv = g@;
            r.push(g);
            assert(r.deep_view() =~= before.push(gv));
        }
        i += 1;
    }
    assert(facts.deep_view().take(facts.len() as int) =~= facts.deep_view());
    r
}

fn text_position(v: &Vec<Fact>, t: &str) -> (r: Option<usize>)
    ensures
        match first_text(v.deep_view(), t@) {
            Some(i) => r matches Some(j) && j as int == i,
            None => r is None,
        },
        r matches Some(j) ==> j < v.len(),
{
    proof {
        lemma_first_text(v.deep_view(), t@);
    }
    let mut i: usize = 0;
    while i < v.len()
        invariant
            i <= v.len(),
            forall|j: int| 0 <= j < i ==> v.deep_view()[j].text != t@,
            match first_text(v.deep_view(), t@) {
                Some(i) => 0 <= i < v.deep_view().len() && v.deep_view()[i].text == t@ && (forall|j: int|
                    0 <= j < i ==> v.deep_view()[j].text != t@),
                None => forall|j: int| 0 <= j < v.deep_view().len() ==> v.deep_view()[j].text != t@,
            },
        decreases v.len() - i,
    {
        assert(v.deep_view()[i as int] == v@[i as int]@);
        if str_eq(v[i].text.as_str(), t) {
            return Some(i);
        }
        i += 1;
    }
    None
}

fn take_fact(v: &mut Vec<Fact>, i: usize) -> (r: Fact)
    requires
        i < old(v).len(),
    ensures
        r@ == old(v).deep_view()[i as int],
        final(v).deep_view() == old(v).deep_view().remove(i as int),
{
    let ghost before = v.deep_view();
    let r = v.remove(i);
    proof {
        before.remove_ensures(i as int);
        assert(v.deep_view() =~= before.remove(i as int)) by {
            assert forall|j: int| 0 <= j < v.deep_view().len() implies v.deep_view()[j]
                == before.remove(i as int)[j] by {
                if j < i {
                    assert(v@[j] == old(v)@[j]);
                } else {
                    assert(v@[j] == old(v)@[j + 1]);
                }
            }
        }
    }
    r
}

fn pair_issues(c: &Chronicle, lo: usize, hi: usize, date: &str) -> (r: Vec<ValidationIssue>)
    requires
        lo < c.persons.len(),
        hi < c.persons.len(),
    ensures
        r.deep_view() == pair_warnings(c@.persons, (lo, hi, date@)),
{
    let pa = &c.persons[lo];
    let pb = &c.persons[hi];
    assert(c@.persons[lo as int] == pa@);
    assert(c@.persons[hi as int] == pb@);
    let side_a = side_of(&pa.facts, date, pb.id.as_str());
    let mut side_b = side_of(&pb.facts, date, pa.id.as_str());
    let ghost av = side_a.deep_view();
    let ghost bv = side_b.deep_view();
    let mut r: Vec<ValidationIssue> = Vec::new();
    let mut unmatched: Vec<Fact> = Vec::new();
    assert(r.deep_view() =~= Seq::<IssueView>::empty());
    assert(unmatched.deep_view() =~= Seq::<FactView>::empty());
    let mut n: usize = 0;
    while n < side_a.len()
        invariant
            n <= side_a.len(),
            av == side_a.deep_view(),
            r.deep_view() == pair_state(pa@.id, pb@.id, av, bv, n as nat).warnings,
            unmatched.deep_view() == pair_state(pa@.id, pb@.id, av, bv, n as nat).unmatched,
            side_b.deep_view() == pair_state(pa@.id, pb@.id, av, bv, n as nat).rest,
        decreases side_a.len() - n,
    {
        let fa = &side_a[n];
        assert(av[n as int] == fa@);
        let ghost st = pair_state(pa@.id, pb@.id, av, bv, n as nat);
        match text_position(&side_b, fa.text.as_str()) {
            Some(pos) => {
                let fb = take_fact(&mut side_b, pos);
                let category = !str_eq(fb.category.as_str(), fa.category.as_str());
                let location = !locations_equal(&fb.location, &fa.location);
                if category || location {
                    let label = truncate_text(fa.text.as_str(), 30);
                    let mut m = around("Shared fact '", label.as_str(), "' (");
                    m.append(fa.id.as_str());
                    m.append(") on ");
                    m.append(fa.date.as_str());
                    m.append(" differs from its copy on '");
                    m.append(pb.id.as_str());
                    m.append("' (");
                    m.append(fb.id.as_str());
                    m.append(") in ");
                    if category && location {
                        m.append("category, location");
                    } else if category {
                        m.append("category");
                    } else {
                        m.append("location");
                    }
                    push_issue(&mut r, new_fact_issue(pa.id.as_str(), fa, m, IssueType::DivergedSharedFact));
                } else {
                    assert(r.deep_view() =~= st.warnings + Seq::<IssueView>::empty());
                }
            },
            None => {
                let g = fa.clone();
                let ghost before = unmatched.deep_view();
                let ghost gv = g@;
                unmatched.push(g);
                assert(unmatched.deep_view() =~= before.push(gv));
            },
        }
        n += 1;
    }
    let ghost st = pair_state(pa@.id, pb@.id, av, bv, av.len());
    let ghost g = leftover_fn(pa@.id, pb@.id, st.unmatched, st.rest);
    let m: usize = if unmatched.len() <= side_b.len() {
        unmatched.len()
    } else {
        side_b.len()
    };
    let ghost w0 = r.deep_view();
    let mut q: usize = 0;
    assert(w0 + concat(0, g) =~= w0);
    while q < m
        invariant
            q <= m,
            m as nat == min_len(st.unmatched.len(), st.rest.len()),
            unmatched.deep_view() == st.unmatched,
            side_b.deep_view() == st.rest,
            g == leftover_fn(pa@.id, pb@.id, st.unmatched, st.rest),
            r.deep_view() == w0 + concat(q as nat, g),
        decreases m - q,
    {
        let fa = &unmatched[q];
        let fb = &side_b[q];
        assert(st.unmatched[q as int] == fa@);
        assert(st.rest[q as int] == fb@);
        let ghost before = r.deep_view();
        if !str_eq(fa.category.as_str(), fb.category.as_str()) {
            let la = truncate_text(fa.text.as_str(), 30);
            let lb = truncate_text(fb.text.as_str(), 30);
            let mut msg = around("Shared facts '", la.as_str(), "' (");
            msg.append(fa.id.as_str());
            msg.append(") and '");
            msg.append(lb.as_str());
            msg.append("' ('");
            msg.append(pb.id.as_str());
            msg.append("', ");
            msg.append(fb.id.as_str());
            msg.append(") on ");
            msg.append(fa.date.as_str());
            msg.append(" differ in category ('");
            msg.append(fa.category.as_str());
            msg.append("' vs '");
            msg.append(fb.category.as_str());
            msg.append("')");
            push_issue(&mut r, new_fact_issue(pa.id.as_str(), fa, msg, IssueType::DivergedSharedFact));
        }
        assert(r.deep_view() =~= before + g(q as int));
        q += 1;
    }
    r
}

fn key_known(processed: &Vec<(usize, usize, String)>, lo: usize, hi: usize, date: &str) -> (r: bool)
    ensures
        r == processed.deep_view().contains((lo, hi, date@)),
{
    let mut i: usize = 0;
    while i < processed.len()
        invariant
            i <= processed.len(),
            forall|j: int| 0 <= j < i ==> processed.deep_view()[j] != (lo, hi, date@),
        decreases processed.len() - i,
    {
        let (a, b, d) = &processed[i];
        assert(processed.deep_view()[i as int] == (*a, *b, d@));
        if *a == lo && *b == hi && str_eq(d.as_str(), date) {
            return true;
        }
        i += 1;
    }
    false
}


fn process_event(
    c: &Chronicle,
    i: usize,
    f: usize,
    k: usize,
    processed: &mut Vec<(usize, usize, String)>,
    r: &mut Vec<ValidationIssue>,
)
    requires
        i < c.persons.len(),
        f < c.persons@[i as int].facts.len(),
        k < with_len(c@.persons[i as int].facts[f as int]),
        old(r).deep_view() == concat(
            old(processed).deep_view().len(),
            pair_fn(c@.persons, old(processed).deep_view()),
        ),
    ensures
        final(processed).deep_view() == extend_keys(
            old(processed).deep_view(),
            event_key(c@.persons, i as int, f as int, k as int),
        ),
        final(r).deep_view() == concat(
            final(processed).deep_view().len(),
            pair_fn(c@.persons, final(processed).deep_view()),
        ),
{
    let ghost ps = c@.persons;
    let fact = &c.persons[i].facts[f];
    assert(ps[i as int] == c.persons@[i as int]@);
    assert(ps[i as int].facts[f as int] == fact@);
    if let Some(w) = &fact.with {
        assert(w@[k as int]@ == w.deep_view()[k as int]);
        proof {
            lemma_person_index(ps, w.deep_view()[k as int]);
        }
        if let Some(j) = c.person_position(w[k].as_str()) {
            if j != i {
                let (lo, hi) = if i < j {
                    (i, j)
                } else {
                    (j, i)
                };
                if !key_known(processed, lo, hi, fact.date.as_str()) {
                    let ghost old_keys = processed.deep_view();
                    let ghost old_r = r.deep_view();
                    processed.push((lo, hi, fact.date.clone()));
                    let ghost new_keys = processed.deep_view();
                    assert(new_keys =~= old_keys.push((lo, hi, fact@.date)));
                    let more = pair_issues(c, lo, hi, fact.date.as_str());
                    append_issues(r, more);
                    proof {
                        crate::lists::lemma_concat_ext(
                            old_keys.len(),
                            pair_fn(ps, old_keys),
                            pair_fn(ps, new_keys),
                        );
                        assert(r.deep_view() =~= concat(new_keys.len(), pair_fn(ps, new_keys)));
                    }
                }
            }
        }
    }
}

fn drift_issues(c: &Chronicle) -> (r: Vec<ValidationIssue>)
    ensures
        r.deep_view() == drift_warnings(c@.persons),
{
    let ghost ps = c@.persons;
    let mut processed: Vec<(usize, usize, String)> = Vec::new();
    let mut r: Vec<ValidationIssue> = Vec::new();
    assert(processed.deep_view() =~= Seq::<(usize, usize, Seq<char>)>::empty());
    assert(r.deep_view() =~= Seq::<IssueView>::empty());
    let mut i: usize = 0;
    while i < c.persons.len()
        invariant
            i <= c.persons.len(),
            ps == c@.persons,
            processed.deep_view() == first_keys(concat(i as nat, person_events_fn(ps))),
            r.deep_view() == concat(processed.deep_view().len(), pair_fn(ps, processed.deep_view())),
        decreases c.persons.len() - i,
    {
        assert(events_before(ps, i as int, 0, 0) =~= concat(i as nat, person_events_fn(ps)));
        let mut f: usize = 0;
        while f < c.persons[i].facts.len()
            invariant
                i < c.persons.len(),
                f <= c.persons@[i as int].facts.len(),
                ps == c@.persons,
                processed.deep_view() == first_keys(events_before(ps, i as int, f as int, 0)),
                r.deep_view() == concat(processed.deep_view().len(), pair_fn(ps, processed.deep_view())),
            decreases c.persons@[i as int].facts.len() - f,
        {
            let fact = &c.persons[i].facts[f];
            assert(ps[i as int].facts[f as int] == fact@);
            let n: usize = match &fact.with {
                Some(w) => w.len(),
                None => 0,
            };
            let mut k: usize = 0;
            while k < n
                invariant
                    i < c.persons.len(),
                    f < c.persons@[i as int].facts.len(),
                    n == with_len(ps[i as int].facts[f as int]),
                    k <= n,
                    ps == c@.persons,
                    processed.deep_view() == first_keys(events_before(ps, i as int, f as int, k as int)),
                    r.deep_view() == concat(processed.deep_view().len(), pair_fn(ps, processed.deep_view())),
                decreases n - k,
            {
                let ghost before = events_before(ps, i as int, f as int, k as int);
                process_event(c, i, f, k, &mut processed, &mut r);
                assert(events_before(ps, i as int, f as int, k + 1) =~= before.push(
                    event_key(ps, i as int, f as int, k as int),
                ));
                assert(before.push(event_key(ps, i as int, f as int, k as int)).drop_last() =~= before);
                k += 1;
            }
            assert(events_before(ps, i as int, f + 1, 0) =~= events_before(ps, i as int, f as int, n as int));
            f += 1;
        }
        assert(concat((i + 1) as nat, person_events_fn(ps)) =~= events_before(
            ps,
            i as int,
            c.persons@[i as int].facts.len() as int,
            0,
        ));
        i += 1;
    }
    r
}


// ---------------------------------------------------------------------------
// The whole chronicle
// ---------------------------------------------------------------------------

/// What validating chronicle `c` reports. Warnings: the schema version, each
/// category (ID, label), each person (ID, name), each fact (UUID, category,
/// date, references, location, attachments), then drifted shared facts.
/// Errors: repeated category IDs, repeated person IDs, repeated fact UUIDs.
/// Facts whose UUID is empty, malformed or repeated need correction.
pub open spec fn validation_of(c: ChronicleView) -> ResultView {
    let cs = c.categories;
    let ps = c.persons;
    ResultView {
        warnings: version_warnings(c) + concat(cs.len(), category_warnings_fn(cs)) + concat(
            ps.len(),
            person_warnings_fn(ps),
        ) + concat(ps.len(), all_fact_warnings_fn(c)) + drift_warnings(ps),
        errors: concat(cs.len(), category_errors_fn(cs)) + concat(ps.len(), person_errors_fn(ps))
            + concat(ps.len(), all_fact_errors_fn(ps)),
        needs_correction: concat(ps.len(), all_corrections_fn(ps)),
        person_count: ps.len(),
        fact_count: fact_total(ps),
    }
}

pub proof fn lemma_fact_total_prefix(ps: Seq<PersonView>, i: int)
    requires
        0 <= i <= ps.len(),
    ensures
        fact_total(ps.take(i)) <= fact_total(ps),
    decreases ps.len() - i,
{
    if i < ps.len() {
        lemma_fact_total_prefix(ps, i + 1);
        assert(ps.take(i + 1).drop_last() =~= ps.take(i));
    } else {
        assert(ps.take(i) =~= ps);
    }
}

fn count_facts(c: &Chronicle) -> (r: usize)
    requires
        fact_total(c@.persons) <= usize::MAX,
    ensures
        r == fact_total(c@.persons),
{
    let ghost ps = c@.persons;
    let mut total: usize = 0;
    let mut i: usize = 0;
    assert(ps.take(0) =~= Seq::<PersonView>::empty());
    while i < c.persons.len()
        invariant
            i <= c.persons.len(),
            ps == c@.persons,
            fact_total(ps) <= usize::MAX,
            total == fact_total(ps.take(i as int)),
        decreases c.persons.len() - i,
    {
        proof {
            lemma_fact_total_prefix(ps, i + 1);
            assert(ps.take(i + 1).drop_last() =~= ps.take(i as int));
            assert(ps[i as int] == c.persons@[i as int]@);
        }
        total = total + c.persons[i].facts.len();
        i += 1;
    }
    assert(ps.take(c.persons.len() as int) =~= ps);
    total
}

/// Validate a chronicle and return all issues found.
pub fn validate_chronicle(chronicle: &Chronicle) -> (r: ValidationResult)
    requires
        fact_total(chronicle@.persons) <= usize::MAX,
    ensures
        r@ == validation_of(chronicle@),
{
    let c = chronicle;
    let ghost cv = c@;
    let ghost cs = cv.categories;
    let ghost ps = cv.persons;
    let mut warnings: Vec<ValidationIssue> = Vec::new();
    let mut errors: Vec<ValidationIssue> = Vec::new();
    let mut corrections: Vec<(String, String)> = Vec::new();
    assert(warnings.deep_view() =~= Seq::<IssueView>::empty());
    assert(errors.deep_view() =~= Seq::<IssueView>::empty());
    assert(corrections.deep_view() =~= Seq::<(Seq<char>, Seq<char>)>::empty());
    let person_count = c.persons.len();
    let fact_count = count_facts(c);

    proof {
        reveal_strlit("1.0");
    }
    if !str_eq(c.version.as_str(), "1.0") {
        let m = around("Unknown schema version '", c.version.as_str(), "' (this kinsaga validates version 1.0)");
        push_issue(&mut warnings, new_general_issue(m, IssueType::UnknownVersion));
    }
    assert(warnings.deep_view() =~= version_warnings(cv));

    // Categories
    let ghost w0 = warnings.deep_view();
    let mut i: usize = 0;
    while i < c.categories.len()
        invariant
            i <= c.categories.len(),
            cv == c@,
            cs == cv.categories,
            warnings.deep_view() == w0 + concat(i as nat, category_warnings_fn(cs)),
            errors.deep_view() == concat(i as nat, category_errors_fn(cs)),
        decreases c.categories.len() - i,
    {
        let cat = &c.categories[i];
        assert(cs[i as int] == cat@);
        let ghost wb = warnings.deep_view();
        let ghost eb = errors.deep_view();
        if category_seen(c, i) {
            let m = around("Duplicate category ID '", cat.id.as_str(), "'");
            push_issue(&mut errors, new_general_issue(m, IssueType::DuplicateCategoryId));
        }
        if !is_valid_id(cat.id.as_str()) {
            let m = around("Category ID '", cat.id.as_str(), "' doesn't match the schema pattern ^[a-z][a-z0-9_-]*$");
            push_issue(&mut warnings, new_general_issue(m, IssueType::InvalidId));
        }
        if str_is_blank(cat.label.as_str()) {
            let m = around("Category '", cat.id.as_str(), "' has an empty label");
            push_issue(&mut warnings, new_general_issue(m, IssueType::EmptyName));
        }
        assert(errors.deep_view() =~= eb + category_errors_fn(cs)(i as int));
        assert(warnings.deep_view() =~= wb + category_warnings_fn(cs)(i as int));
        i += 1;
    }

    // Persons
    let ghost w1 = warnings.deep_view();
    let ghost e1 = errors.deep_view();
    let mut i: usize = 0;
    while i < c.persons.len()
        invariant
            i <= c.persons.len(),
            cv == c@,
            ps == cv.persons,
            warnings.deep_view() == w1 + concat(i as nat, person_warnings_fn(ps)),
            errors.deep_view() == e1 + concat(i as nat, person_errors_fn(ps)),
        decreases c.persons.len() - i,
    {
        let person = &c.persons[i];
        assert(ps[i as int] == person@);
        let ghost wb = warnings.deep_view();
        let ghost eb = errors.deep_view();
        if person_seen(c, i) {
            let m = around("Duplicate person ID '", person.id.as_str(), "'");
            push_issue(&mut errors, new_person_issue(person.id.as_str(), m, IssueType::DuplicatePersonId));
        }
        if !is_valid_id(person.id.as_str()) {
            let m = around("Person ID '", person.id.as_str(), "' doesn't match the schema pattern ^[a-z][a-z0-9_-]*$");
            push_issue(&mut warnings, new_person_issue(person.id.as_str(), m, IssueType::InvalidId));
        }
        if str_is_blank(person.name.as_str()) {
            let m = around("Person '", person.id.as_str(), "' has an empty name");
            push_issue(&mut warnings, new_person_issue(person.id.as_str(), m, IssueType::EmptyName));
        }
        assert(errors.deep_view() =~= eb + person_errors_fn(ps)(i as int));
        assert(warnings.deep_view() =~= wb + person_warnings_fn(ps)(i as int));
        i += 1;
    }

    // Facts
    let ghost w2 = warnings.deep_view();
    let ghost e2 = errors.deep_view();
    let mut seen: Vec<String> = Vec::new();
    assert(seen.deep_view() =~= Seq::<Seq<char>>::empty());
    let mut p: usize = 0;
    while p < c.persons.len()
        invariant
            p <= c.persons.len(),
            cv == c@,
            ps == cv.persons,
            p < c.persons.len() ==> seen.deep_view() == ids_before(ps, p as int, 0),
            seen.deep_view() == concat(p as nat, fact_ids_fn(ps)),
            warnings.deep_view() == w2 + concat(p as nat, all_fact_warnings_fn(cv)),
            errors.deep_view() == e2 + concat(p as nat, all_fact_errors_fn(ps)),
            corrections.deep_view() == concat(p as nat, all_corrections_fn(ps)),
        decreases c.persons.len() - p,
    {
        let ghost wp = warnings.deep_view();
        let ghost ep = errors.deep_view();
        let ghost cp = corrections.deep_view();
        assert(ps[p as int] == c.persons@[p as int]@);
        let ghost before_ids = seen.deep_view();
        assert(fact_ids(ps[p as int]).take(0) =~= Seq::<Seq<char>>::empty());
        assert(seen.deep_view() =~= ids_before(ps, p as int, 0));
        let mut k: usize = 0;
        assert(wp =~= wp + concat(0, fact_warnings_fn(cv, p as int)));
        assert(ep =~= ep + concat(0, fact_errors_fn(ps, p as int)));
        assert(cp =~= cp + concat(0, fact_corrections_fn(ps, p as int)));
        while k < c.persons[p].facts.len()
            invariant
                p < c.persons.len(),
                k <= c.persons@[p as int].facts.len(),
                cv == c@,
                ps == cv.persons,
                before_ids == concat(p as nat, fact_ids_fn(ps)),
                seen.deep_view() == ids_before(ps, p as int, k as int),
                warnings.deep_view() == wp + concat(k as nat, fact_warnings_fn(cv, p as int)),
                errors.deep_view() == ep + concat(k as nat, fact_errors_fn(ps, p as int)),
                corrections.deep_view() == cp + concat(k as nat, fact_corrections_fn(ps, p as int)),
            decreases c.persons@[p as int].facts.len() - k,
        {
            check_fact(c, p, k, &seen, &mut warnings, &mut errors, &mut corrections);
            let ghost sb = seen.deep_view();
            let id = c.persons[p].facts[k].id.clone();
            assert(ps[p as int].facts[k as int] == c.persons@[p as int].facts@[k as int]@);
            seen.push(id);
            proof {
                assert(seen.deep_view() =~= sb.push(ps[p as int].facts[k as int].id));
                assert(fact_ids(ps[p as int]).take(k + 1) =~= fact_ids(ps[p as int]).take(k as int).push(
                    ps[p as int].facts[k as int].id,
                ));
                assert(seen.deep_view() =~= ids_before(ps, p as int, k + 1));
            }
            k += 1;
        }
        proof {
            assert(fact_ids(ps[p as int]).take(ps[p as int].facts.len() as int) =~= fact_ids(ps[p as int]));
            assert(seen.deep_view() =~= concat((p + 1) as nat, fact_ids_fn(ps)));
            if p + 1 < ps.len() {
                assert(fact_ids(ps[p + 1]).take(0) =~= Seq::<Seq<char>>::empty());
                assert(seen.deep_view() =~= ids_before(ps, p + 1, 0));
            }
        }
        p += 1;
    }

    let drift = drift_issues(c);
    append_issues(&mut warnings, drift);
    ValidationResult {
        warnings,
        errors,
        needs_correction: corrections,
        person_count,
        fact_count,
    }
}


// ---------------------------------------------------------------------------
// Correcting UUIDs
// ---------------------------------------------------------------------------

/// The IDs of all facts of `ps`, in document order.
pub open spec fn all_ids(ps: Seq<PersonView>) -> Seq<Seq<char>> {
    concat(ps.len(), fact_ids_fn(ps))
}

/// Whether `nf` is fact `of` (of the person with ID `pid`) after correction,
/// `prior` being the IDs of all facts before it once corrected and
/// `originals` the IDs of all facts before correction: a flagged fact gets a
/// fresh hyphenated UUID, held by no earlier corrected fact and by no fact
/// before correction, unless its ID is a valid UUID that no earlier fact has;
/// every other field, and every other ID, stays.
pub open spec fn fact_corrected(
    of: FactView,
    nf: FactView,
    pid: Seq<char>,
    corrections: Seq<(Seq<char>, Seq<char>)>,
    prior: Seq<Seq<char>>,
    originals: Seq<Seq<char>>,
) -> bool {
    &&& nf == FactView { id: nf.id, ..of }
    &&& if corrections.contains((pid, of.id)) && !(uuid_text(of.id) && !prior.contains(of.id)) {
        hyphenated(nf.id) && !prior.contains(nf.id) && !originals.contains(nf.id)
    } else {
        nf.id == of.id
    }
}

/// Whether chronicle `new` is `old` with the UUIDs named in `corrections`
/// replaced, facts taken in document order.
pub open spec fn uuids_corrected(
    old: ChronicleView,
    new: ChronicleView,
    corrections: Seq<(Seq<char>, Seq<char>)>,
) -> bool {
    &&& new == ChronicleView { persons: new.persons, ..old }
    &&& new.persons.len() == old.persons.len()
    &&& forall|p: int|
        0 <= p < old.persons.len() ==> {
            &&& (#[trigger] new.persons[p]).id == old.persons[p].id
            &&& new.persons[p].name == old.persons[p].name
            &&& new.persons[p].facts.len() == old.persons[p].facts.len()
        }
    &&& forall|p: int, k: int|
        0 <= p < old.persons.len() && 0 <= k < old.persons[p].facts.len() ==> fact_corrected(
            old.persons[p].facts[k],
            #[trigger] new.persons[p].facts[k],
            old.persons[p].id,
            corrections,
            ids_before(new.persons, p, k),
            all_ids(old.persons),
        )
}

fn is_flagged(corrections: &Vec<(String, String)>, pid: &str, fid: &str) -> (r: bool)
    ensures
        r == corrections.deep_view().contains((pid@, fid@)),
{
    let mut i: usize = 0;
    while i < corrections.len()
        invariant
            i <= corrections.len(),
            forall|j: int| 0 <= j < i ==> corrections.deep_view()[j] != (pid@, fid@),
        decreases corrections.len() - i,
    {
        let (a, b) = &corrections[i];
        assert(corrections.deep_view()[i as int] == (a@, b@));
        if str_eq(a.as_str(), pid) && str_eq(b.as_str(), fid) {
            return true;
        }
        i += 1;
    }
    false
}

/// The IDs of a list of facts.
pub open spec fn ids_of(facts: Seq<FactView>) -> Seq<Seq<char>> {
    facts.map_values(|f: FactView| f.id)
}

proof fn lemma_ids_before_same(a: Seq<PersonView>, b: Seq<PersonView>, q: int, k: int)
    requires
        0 <= q < a.len(),
        q < b.len(),
        forall|j: int| 0 <= j <= q ==> a[j] == b[j],
    ensures
        ids_before(a, q, k) == ids_before(b, q, k),
{
    crate::lists::lemma_concat_ext(q as nat, fact_ids_fn(a), fact_ids_fn(b));
}

fn correct_person(
    person: &Person,
    corrections: &Vec<(String, String)>,
    seen: &mut Vec<String>,
    pool: &mut Vec<String>,
    Ghost(originals): Ghost<Seq<Seq<char>>>,
) -> (r: Person)
    requires
        old(pool).deep_view() == originals + old(seen).deep_view(),
    ensures
        r@.id == person@.id,
        r@.name == person@.name,
        r@.facts.len() == person@.facts.len(),
        final(seen).deep_view() == old(seen).deep_view() + ids_of(r@.facts),
        final(pool).deep_view() == originals + final(seen).deep_view(),
        forall|k: int|
            0 <= k < person@.facts.len() ==> fact_corrected(
                person@.facts[k],
                #[trigger] r@.facts[k],
                person@.id,
                corrections.deep_view(),
                old(seen).deep_view() + ids_of(r@.facts).take(k),
                originals,
            ),
{
    let ghost base = seen.deep_view();
    let mut facts: Vec<Fact> = Vec::new();
    let mut k: usize = 0;
    assert(facts.deep_view() =~= Seq::<FactView>::empty());
    assert(ids_of(facts.deep_view()) =~= Seq::<Seq<char>>::empty());
    while k < person.facts.len()
        invariant
            k <= person.facts.len(),
            facts.deep_view().len() == k,
            seen.deep_view() == base + ids_of(facts.deep_view()),
            pool.deep_view() == originals + seen.deep_view(),
            forall|j: int|
                0 <= j < k ==> fact_corrected(
                    person@.facts[j],
                    #[trigger] facts.deep_view()[j],
                    person@.id,
                    corrections.deep_view(),
                    base + ids_of(facts.deep_view()).take(j),
                    originals,
                ),
        decreases person.facts.len() - k,
    {
        let fact = &person.facts[k];
        assert(person@.facts[k as int] == fact@);
        let flagged = is_flagged(corrections, person.id.as_str(), fact.id.as_str());
        let keeps = uuid_parses(fact.id.as_str()) && !contains_str(seen, fact.id.as_str());
        let ghost prior = seen.deep_view();
        let ghost pool0 = pool.deep_view();
        let id = if flagged && !keeps {
            let fresh = fresh_uuid(pool);
            proof {
                if prior.contains(fresh@) {
                    let y = choose|y: int| 0 <= y < prior.len() && prior[y] == fresh@;
                    assert(pool0[originals.len() + y] == fresh@);
                }
                if originals.contains(fresh@) {
                    let y = choose|y: int| 0 <= y < originals.len() && originals[y] == fresh@;
                    assert(pool0[y] == fresh@);
                }
            }
            fresh
        } else {
            fact.id.clone()
        };
        let mut g = fact.clone();
        g.id = id.clone();
        let ghost old_facts = facts.deep_view();
        let ghost gv = g@;
        let ghost idv = id@;
        assert(gv.id == idv);
        facts.push(g);
        let pid_copy = own(id.as_str());
        pool.push(pid_copy);
        proof {
            assert(pool.deep_view() =~= pool0.push(idv));
        }
        seen.push(id);
        proof {
            assert(seen.deep_view() =~= prior.push(idv));
            assert(pool.deep_view() =~= originals + seen.deep_view());
            assert(facts.deep_view() =~= old_facts.push(gv));
            assert(ids_of(facts.deep_view()) =~= ids_of(old_facts).push(gv.id));
            assert(seen.deep_view() =~= base + ids_of(facts.deep_view()));
            assert(ids_of(facts.deep_view()).take(k as int) =~= ids_of(old_facts));
            assert forall|j: int|
                0 <= j <= k implies fact_corrected(
                    person@.facts[j],
                    #[trigger] facts.deep_view()[j],
                    person@.id,
                    corrections.deep_view(),
                    base + ids_of(facts.deep_view()).take(j),
                    originals,
                ) by {
                if j < k {
                    assert(ids_of(facts.deep_view()).take(j) =~= ids_of(old_facts).take(j));
                    assert(facts.deep_view()[j] == old_facts[j]);
                } else {
                    assert(prior =~= base + ids_of(facts.deep_view()).take(j));
                }
            }
        }
        k += 1;
    }
    Person { id: person.id.clone(), name: person.name.clone(), facts }
}

/// Generate new UUIDs for facts with empty, invalid, or duplicate UUIDs.
///
/// Facts are processed in document order. For duplicate UUIDs, the first
/// occurrence keeps its original ID and only later occurrences are
/// regenerated, so stable references to the original fact survive.
pub fn correct_uuids(chronicle: Chronicle, corrections: &Vec<(String, String)>) -> (r: Chronicle)
    ensures
        uuids_corrected(chronicle@, r@, corrections.deep_view()),
{
    let ghost old_c = chronicle@;
    let mut pool = crate::merge::all_fact_ids(&chronicle);
    let ghost originals = pool.deep_view();
    assert(originals == all_ids(old_c.persons));
    let mut seen: Vec<String> = Vec::new();
    let mut persons: Vec<Person> = Vec::new();
    assert(seen.deep_view() =~= Seq::<Seq<char>>::empty());
    assert(persons.deep_view() =~= Seq::<PersonView>::empty());
    let mut p: usize = 0;
    while p < chronicle.persons.len()
        invariant
            p <= chronicle.persons.len(),
            old_c == chronicle@,
            persons.deep_view().len() == p,
            seen.deep_view() == concat(p as nat, fact_ids_fn(persons.deep_view())),
            originals == all_ids(old_c.persons),
            pool.deep_view() == originals + seen.deep_view(),
            forall|q: int|
                0 <= q < p ==> {
                    &&& (#[trigger] persons.deep_view()[q]).id == old_c.persons[q].id
                    &&& persons.deep_view()[q].name == old_c.persons[q].name
                    &&& persons.deep_view()[q].facts.len() == old_c.persons[q].facts.len()
                },
            forall|q: int, k: int|
                0 <= q < p && 0 <= k < old_c.persons[q].facts.len() ==> fact_corrected(
                    old_c.persons[q].facts[k],
                    #[trigger] persons.deep_view()[q].facts[k],
                    old_c.persons[q].id,
                    corrections.deep_view(),
                    ids_before(persons.deep_view(), q, k),
                    originals,
                ),
        decreases chronicle.persons.len() - p,
    {
        let person = &chronicle.persons[p];
        assert(old_c.persons[p as int] == person@);
        let ghost seen0 = seen.deep_view();
        let np = correct_person(person, corrections, &mut seen, &mut pool, Ghost(originals));
        let ghost old_ps = persons.deep_view();
        let ghost npv = np@;
        persons.push(np);
        proof {
            let ps = persons.deep_view();
            assert(ps =~= old_ps.push(npv));
            assert(fact_ids(npv) =~= ids_of(npv.facts));
            crate::lists::lemma_concat_ext(p as nat, fact_ids_fn(old_ps), fact_ids_fn(ps));
            assert(seen.deep_view() =~= concat((p + 1) as nat, fact_ids_fn(ps)));
            assert forall|q: int, k: int|
                0 <= q <= p && 0 <= k < old_c.persons[q].facts.len() implies fact_corrected(
                    old_c.persons[q].facts[k],
                    #[trigger] ps[q].facts[k],
                    old_c.persons[q].id,
                    corrections.deep_view(),
                    ids_before(ps, q, k),
                    originals,
                ) by {
                if q < p {
                    lemma_ids_before_same(ps, old_ps, q, k);
                    assert(ps[q] == old_ps[q]);
                } else {
                    assert(ps[q] == npv);
                    assert(fact_ids(npv).take(k) =~= ids_of(npv.facts).take(k));
                    assert(seen0 == concat(p as nat, fact_ids_fn(ps)));
                }
            }
        }
        p += 1;
    }
    let r = Chronicle {
        version: chronicle.version,
        title: chronicle.title,
        last_updated: chronicle.last_updated,
        categories: chronicle.categories,
        persons,
    };
    r
}


// ---------------------------------------------------------------------------
// Laws
// ---------------------------------------------------------------------------

/// Whether no category repeats an earlier category's ID, no person repeats an
/// earlier person's ID, and no fact carries a well-formed UUID that an
/// earlier fact already carries.
pub open spec fn ids_unique(c: ChronicleView) -> bool {
    &&& forall|i: int| 0 <= i < c.categories.len() ==> !category_repeated(c.categories, i)
    &&& forall|i: int| 0 <= i < c.persons.len() ==> !person_repeated(c.persons, i)
    &&& forall|p: int, k: int|
        0 <= p < c.persons.len() && 0 <= k < c.persons[p].facts.len() ==> (uuid_text(
            c.persons[p].facts[k].id,
        ) ==> !#[trigger] ids_before(c.persons, p, k).contains(c.persons[p].facts[k].id))
}

/// Validation reports no error exactly when category IDs, person IDs and the
/// well-formed fact UUIDs are each unique.
pub proof fn lemma_no_errors_iff_unique(c: ChronicleView)
    ensures
        validation_of(c).errors.len() == 0 <==> ids_unique(c),
{
    let cs = c.categories;
    let ps = c.persons;
    lemma_concat_empty(cs.len(), category_errors_fn(cs));
    lemma_concat_empty(ps.len(), person_errors_fn(ps));
    lemma_concat_empty(ps.len(), all_fact_errors_fn(ps));
    assert forall|p: int| 0 <= p < ps.len() implies #[trigger] all_fact_errors_fn(ps)(p).len() == 0
        <==> (forall|k: int| 0 <= k < ps[p].facts.len() ==> (uuid_text(ps[p].facts[k].id)
        ==> !#[trigger] ids_before(ps, p, k).contains(ps[p].facts[k].id))) by {
        lemma_concat_empty(ps[p].facts.len(), fact_errors_fn(ps, p));
        if all_fact_errors_fn(ps)(p).len() == 0 {
            assert forall|k: int| 0 <= k < ps[p].facts.len() && uuid_text(ps[p].facts[k].id)
                implies !#[trigger] ids_before(ps, p, k).contains(ps[p].facts[k].id) by {
                assert(fact_errors_fn(ps, p)(k).len() == 0);
            }
        }
        if forall|k: int| 0 <= k < ps[p].facts.len() ==> (uuid_text(ps[p].facts[k].id)
            ==> !#[trigger] ids_before(ps, p, k).contains(ps[p].facts[k].id)) {
            assert forall|k: int| 0 <= k < ps[p].facts.len() implies #[trigger] fact_errors_fn(ps, p)(
                k,
            ).len() == 0 by {
                assert(uuid_text(ps[p].facts[k].id) ==> !ids_before(ps, p, k).contains(
                    ps[p].facts[k].id,
                ));
            }
        }
    }
    if validation_of(c).errors.len() == 0 {
        assert forall|i: int| 0 <= i < cs.len() implies !category_repeated(cs, i) by {
            assert(category_errors_fn(cs)(i).len() == 0);
        }
        assert forall|i: int| 0 <= i < ps.len() implies !person_repeated(ps, i) by {
            assert(person_errors_fn(ps)(i).len() == 0);
        }
        assert forall|p: int, k: int|
            0 <= p < ps.len() && 0 <= k < ps[p].facts.len() && uuid_text(ps[p].facts[k].id)
            implies !#[trigger] ids_before(ps, p, k).contains(ps[p].facts[k].id) by {
            assert(all_fact_errors_fn(ps)(p).len() == 0);
        }
    }
    if ids_unique(c) {
        assert forall|i: int| 0 <= i < cs.len() implies #[trigger] category_errors_fn(cs)(i).len() == 0 by {
            assert(!category_repeated(cs, i));
        }
        assert forall|i: int| 0 <= i < ps.len() implies #[trigger] person_errors_fn(ps)(i).len() == 0 by {
            assert(!person_repeated(ps, i));
        }
        assert forall|p: int| 0 <= p < ps.len() implies #[trigger] all_fact_errors_fn(ps)(p).len() == 0 by {
            assert forall|k: int| 0 <= k < ps[p].facts.len() && uuid_text(ps[p].facts[k].id)
                implies !#[trigger] ids_before(ps, p, k).contains(ps[p].facts[k].id) by {}
        }
    }
}

/// A fact whose UUID is empty, malformed or repeated is listed for correction.
proof fn lemma_issue_listed(ps: Seq<PersonView>, p: int, k: int)
    requires
        0 <= p < ps.len(),
        0 <= k < ps[p].facts.len(),
        uuid_issue_type(ps, p, k) is Some,
    ensures
        concat(ps.len(), all_corrections_fn(ps)).contains((ps[p].id, ps[p].facts[k].id)),
{
    let x = (ps[p].id, ps[p].facts[k].id);
    assert(fact_corrections_fn(ps, p)(k)[0] == x);
    assert(fact_corrections_fn(ps, p)(k).contains(x));
    lemma_concat_contains(ps[p].facts.len(), fact_corrections_fn(ps, p), x);
    assert(all_corrections_fn(ps)(p).contains(x));
    lemma_concat_contains(ps.len(), all_corrections_fn(ps), x);
}

/// Correcting the UUIDs that validation lists leaves every fact with a UUID
/// that parses.
pub proof fn lemma_corrected_uuids_parse(old: ChronicleView, new: ChronicleView)
    requires
        uuids_corrected(old, new, validation_of(old).needs_correction),
    ensures
        forall|p: int, k: int|
            0 <= p < new.persons.len() && 0 <= k < new.persons[p].facts.len() ==> uuid_text(
                #[trigger] new.persons[p].facts[k].id,
            ),
{
    let ps = old.persons;
    assert forall|p: int, k: int|
        0 <= p < new.persons.len() && 0 <= k < new.persons[p].facts.len() implies uuid_text(
            #[trigger] new.persons[p].facts[k].id,
        ) by {
        let of = ps[p].facts[k];
        let nf = new.persons[p].facts[k];
        assert(fact_corrected(
            of,
            nf,
            ps[p].id,
            validation_of(old).needs_correction,
            ids_before(new.persons, p, k),
            all_ids(ps),
        ));
        if uuid_issue_type(ps, p, k) is Some {
            lemma_issue_listed(ps, p, k);
            if hyphenated(nf.id) {
                lemma_hyphenated_parses(nf.id);
            }
        }
    }
}


/// Every fact of `ps` carries an ID of `all_ids(ps)`.
pub(crate) proof fn lemma_in_all_ids(ps: Seq<PersonView>, p: int, k: int)
    requires
        0 <= p < ps.len(),
        0 <= k < ps[p].facts.len(),
    ensures
        all_ids(ps).contains(ps[p].facts[k].id),
{
    assert(fact_ids(ps[p])[k] == ps[p].facts[k].id);
    assert(fact_ids_fn(ps)(p).contains(ps[p].facts[k].id));
    lemma_concat_contains(ps.len(), fact_ids_fn(ps), ps[p].facts[k].id);
}

/// After correction, an ID that some fact had before correction occurs among
/// the corrected IDs before a position only where it occurred before it.
proof fn lemma_before_new_in_old(
    old: ChronicleView,
    new: ChronicleView,
    corrections: Seq<(Seq<char>, Seq<char>)>,
    x: Seq<char>,
    p: int,
    k: int,
)
    requires
        uuids_corrected(old, new, corrections),
        all_ids(old.persons).contains(x),
        0 <= p < old.persons.len(),
        0 <= k <= old.persons[p].facts.len(),
        ids_before(new.persons, p, k).contains(x),
    ensures
        ids_before(old.persons, p, k).contains(x),
{
    let ops = old.persons;
    let nps = new.persons;
    let a = concat(p as nat, fact_ids_fn(nps));
    let b = fact_ids(nps[p]).take(k);
    let y = choose|y: int| 0 <= y < (a + b).len() && (a + b)[y] == x;
    if y < a.len() {
        assert(a[y] == x);
        lemma_concat_contains(p as nat, fact_ids_fn(nps), x);
        let q = choose|q: int| 0 <= q < p && #[trigger] fact_ids_fn(nps)(q).contains(x);
        let j = choose|j: int| 0 <= j < fact_ids(nps[q]).len() && fact_ids(nps[q])[j] == x;
        assert(nps[q].facts[j].id == x);
        assert(fact_corrected(
            ops[q].facts[j],
            nps[q].facts[j],
            ops[q].id,
            corrections,
            ids_before(nps, q, j),
            all_ids(ops),
        ));
        assert(ops[q].facts[j].id == x);
        assert(fact_ids(ops[q])[j] == x);
        assert(fact_ids_fn(ops)(q).contains(x));
        lemma_concat_contains(p as nat, fact_ids_fn(ops), x);
        let c = concat(p as nat, fact_ids_fn(ops));
        let z = choose|z: int| 0 <= z < c.len() && c[z] == x;
        assert(ids_before(ops, p, k)[z] == x);
    } else {
        let j = y - a.len();
        assert(b[j] == x);
        assert(nps[p].facts[j].id == x);
        assert(fact_corrected(
            ops[p].facts[j],
            nps[p].facts[j],
            ops[p].id,
            corrections,
            ids_before(nps, p, j),
            all_ids(ops),
        ));
        assert(ops[p].facts[j].id == x);
        let c = concat(p as nat, fact_ids_fn(ops));
        assert(ids_before(ops, p, k)[c.len() + j] == x);
    }
}

/// Correcting the UUIDs that validation lists leaves no fact with an empty,
/// malformed or repeated UUID, so validation of the corrected chronicle
/// lists nothing more to correct.
pub proof fn lemma_corrected_uuids_clean(old: ChronicleView, new: ChronicleView)
    requires
        uuids_corrected(old, new, validation_of(old).needs_correction),
    ensures
        forall|p: int, k: int|
            0 <= p < new.persons.len() && 0 <= k < new.persons[p].facts.len() ==> #[trigger] uuid_issue_type(
                new.persons,
                p,
                k,
            ) is None,
        validation_of(new).needs_correction.len() == 0,
{
    let ops = old.persons;
    let nps = new.persons;
    let corr = validation_of(old).needs_correction;
    assert forall|p: int, k: int|
        0 <= p < nps.len() && 0 <= k < nps[p].facts.len() implies #[trigger] uuid_issue_type(nps, p, k) is None by {
        let of = ops[p].facts[k];
        let nf = nps[p].facts[k];
        let prior = ids_before(nps, p, k);
        assert(fact_corrected(of, nf, ops[p].id, corr, prior, all_ids(ops)));
        if corr.contains((ops[p].id, of.id)) && !(uuid_text(of.id) && !prior.contains(of.id)) {
            lemma_hyphenated_parses(nf.id);
        } else if corr.contains((ops[p].id, of.id)) {
        } else {
            if uuid_issue_type(ops, p, k) is Some {
                lemma_issue_listed(ops, p, k);
            }
            lemma_in_all_ids(ops, p, k);
            if prior.contains(of.id) {
                lemma_before_new_in_old(old, new, corr, of.id, p, k);
            }
        }
    }
    assert forall|p: int| 0 <= p < nps.len() implies #[trigger] all_corrections_fn(nps)(p).len() == 0 by {
        assert forall|k: int| 0 <= k < nps[p].facts.len() implies #[trigger] fact_corrections_fn(nps, p)(k).len()
            == 0 by {
            assert(uuid_issue_type(nps, p, k) is None);
        }
        lemma_concat_empty(nps[p].facts.len(), fact_corrections_fn(nps, p));
    }
    lemma_concat_empty(nps.len(), all_corrections_fn(nps));
}

/// Correcting a chronicle a second time changes nothing.
pub proof fn lemma_correct_twice(old: ChronicleView, new: ChronicleView, again: ChronicleView)
    requires
        uuids_corrected(old, new, validation_of(old).needs_correction),
        uuids_corrected(new, again, validation_of(new).needs_correction),
    ensures
        again == new,
{
    lemma_corrected_uuids_clean(old, new);
    let corr = validation_of(new).needs_correction;
    let nps = new.persons;
    let aps = again.persons;
    assert forall|p: int| 0 <= p < nps.len() implies #[trigger] aps[p] == nps[p] by {
        assert forall|k: int| 0 <= k < nps[p].facts.len() implies #[trigger] aps[p].facts[k] == nps[p].facts[k] by {
            assert(fact_corrected(
                nps[p].facts[k],
                aps[p].facts[k],
                nps[p].id,
                corr,
                ids_before(aps, p, k),
                all_ids(nps),
            ));
            assert(!corr.contains((nps[p].id, nps[p].facts[k].id)));
        }
        assert(aps[p].facts =~= nps[p].facts);
    }
    assert(aps =~= nps);
}


/// An issue of a warning kind.
pub open spec fn is_warning_issue(i: IssueView) -> bool {
    !issue_is_error(i.issue_type)
}

/// An issue of an error kind.
pub open spec fn is_error_issue(i: IssueView) -> bool {
    issue_is_error(i.issue_type)
}

/// An issue about copies of a shared fact that drifted apart.
pub open spec fn is_drift_issue(i: IssueView) -> bool {
    i.issue_type is DivergedSharedFact
}

proof fn lemma_pair_state_drift(pa_id: Seq<char>, pb_id: Seq<char>, a: Seq<FactView>, b: Seq<FactView>, n: nat)
    requires
        n <= a.len(),
    ensures
        forall|j: int|
            0 <= j < pair_state(pa_id, pb_id, a, b, n).warnings.len() ==> is_drift_issue(
                #[trigger] pair_state(pa_id, pb_id, a, b, n).warnings[j],
            ),
    decreases n,
{
    if n > 0 {
        lemma_pair_state_drift(pa_id, pb_id, a, b, (n - 1) as nat);
        let st = pair_state(pa_id, pb_id, a, b, (n - 1) as nat);
        let fa = a[n - 1];
        match first_text(st.rest, fa.text) {
            Some(pos) => {
                let d = copy_drift(pa_id, pb_id, fa, st.rest[pos]);
                assert forall|j: int| 0 <= j < d.len() implies is_drift_issue(#[trigger] d[j]) by {}
                lemma_all_add(st.warnings, d, |x: IssueView| is_drift_issue(x));
            },
            None => {},
        }
    }
}

/// Drift detection reports only `DivergedSharedFact` warnings.
proof fn lemma_drift_kinds(ps: Seq<PersonView>)
    ensures
        forall|j: int| 0 <= j < drift_warnings(ps).len() ==> is_drift_issue(#[trigger] drift_warnings(ps)[j]),
{
    let keys = first_keys(concat(ps.len(), person_events_fn(ps)));
    assert forall|q: int, j: int|
        0 <= q < keys.len() && 0 <= j < pair_fn(ps, keys)(q).len() implies is_drift_issue(
            #[trigger] pair_fn(ps, keys)(q)[j],
        ) by {
        let key = keys[q];
        let pa = ps[key.0 as int];
        let pb = ps[key.1 as int];
        let a = shared_side(pa.facts, key.2, pb.id);
        let b = shared_side(pb.facts, key.2, pa.id);
        let st = pair_state(pa.id, pb.id, a, b, a.len());
        lemma_pair_state_drift(pa.id, pb.id, a, b, a.len());
        let m = min_len(st.unmatched.len(), st.rest.len());
        let lf = leftover_fn(pa.id, pb.id, st.unmatched, st.rest);
        assert forall|i: int, k: int| 0 <= i < m && 0 <= k < lf(i).len() implies is_drift_issue(#[trigger] lf(i)[k]) by {}
        lemma_concat_all(m, lf, |x: IssueView| is_drift_issue(x));
        lemma_all_add(st.warnings, concat(m, lf), |x: IssueView| is_drift_issue(x));
        assert(pair_fn(ps, keys)(q) == st.warnings + concat(m, lf));
    }
    lemma_concat_all(keys.len(), pair_fn(ps, keys), |x: IssueView| is_drift_issue(x));
}

/// An issue about a fact's UUID: empty, malformed or repeated.
pub open spec fn is_uuid_issue(i: IssueView) -> bool {
    i.issue_type is EmptyUuid || i.issue_type is InvalidUuid || i.issue_type is DuplicateUuid
}

/// A warning that is not about a UUID.
pub open spec fn is_plain_warning(i: IssueView) -> bool {
    is_warning_issue(i) && !is_uuid_issue(i)
}

/// The warnings about the contents of a fact are of warning kinds other
/// than the UUID ones.
proof fn lemma_content_kinds(c: ChronicleView, pid: Seq<char>, f: FactView)
    ensures
        forall|j: int|
            0 <= j < content_warnings(c, pid, f).len() ==> is_plain_warning(#[trigger] content_warnings(c, pid, f)[j]),
{
    let ps = c.persons;
    let pred = |x: IssueView| is_plain_warning(x);
    let cat = one_if(
        !has_category(c.categories, f.category),
        fact_issue(pid, f, "Unknown category '"@ + f.category + "'"@, IssueType::UnknownCategory),
    );
    assert forall|j: int| 0 <= j < cat.len() implies is_plain_warning(#[trigger] cat[j]) by {}
    let dw = date_warnings(pid, f);
    assert forall|j: int| 0 <= j < dw.len() implies is_plain_warning(#[trigger] dw[j]) by {}
    let rw = ref_warnings(ps, pid, f);
    if let Some(w) = f.with {
        let rf = ref_warnings_fn(ps, pid, f, w);
        assert forall|i: int, j: int| 0 <= i < w.len() && 0 <= j < rf(i).len() implies is_plain_warning(
            #[trigger] rf(i)[j],
        ) by {}
        lemma_concat_all(w.len(), rf, pred);
    }
    assert forall|j: int| 0 <= j < rw.len() implies is_plain_warning(#[trigger] rw[j]) by {}
    let lw = location_warnings(pid, f);
    if let Some(l) = f.location {
        let a1 = one_if(is_blank(l.country), fact_issue(pid, f, "Empty country in location"@, IssueType::EmptyCountry));
        let a2 = match l.coordinates {
            Some(co) => one_if(
                !coordinates_valid(co),
                fact_issue(
                    pid,
                    f,
                    "Invalid GPS coordinates (lat: "@ + co.lat + ", lon: "@ + co.lon
                        + "). Valid ranges: lat -90..90, lon -180..180"@,
                    IssueType::InvalidCoordinates,
                ),
            ),
            None => Seq::empty(),
        };
        assert forall|j: int| 0 <= j < a1.len() implies is_plain_warning(#[trigger] a1[j]) by {}
        assert forall|j: int| 0 <= j < a2.len() implies is_plain_warning(#[trigger] a2[j]) by {}
        lemma_all_add(a1, a2, pred);
        assert(lw == a1 + a2);
    }
    assert forall|j: int| 0 <= j < lw.len() implies is_plain_warning(#[trigger] lw[j]) by {}
    let af = attachment_warnings_fn(pid, f);
    assert forall|i: int, j: int| 0 <= i < f.attachments.len() && 0 <= j < af(i).len() implies is_plain_warning(
        #[trigger] af(i)[j],
    ) by {
        let a1 = one_if(
            !spec_url_valid(f.attachments[i].url),
            fact_issue(
                pid,
                f,
                "Attachment "@ + decimal((i + 1) as nat) + ": invalid URL '"@ + f.attachments[i].url
                    + "' (must include a scheme, e.g. file://, https://)"@,
                IssueType::InvalidUrl,
            ),
        );
        let a2 = match f.attachments[i].content_type {
            Some(ct) => one_if(
                !valid_mime_type(ct),
                fact_issue(
                    pid,
                    f,
                    "Attachment "@ + decimal((i + 1) as nat) + ": invalid MIME type '"@ + ct
                        + "' (expected format: type/subtype)"@,
                    IssueType::InvalidMimeType,
                ),
            ),
            None => Seq::empty(),
        };
        assert forall|x: int| 0 <= x < a1.len() implies is_plain_warning(#[trigger] a1[x]) by {}
        assert forall|x: int| 0 <= x < a2.len() implies is_plain_warning(#[trigger] a2[x]) by {}
        lemma_all_add(a1, a2, pred);
        assert(af(i) == a1 + a2);
    }
    lemma_concat_all(f.attachments.len(), af, pred);
    let at = concat(f.attachments.len(), af);
    lemma_all_add(cat, dw, pred);
    lemma_all_add(cat + dw, rw, pred);
    lemma_all_add(cat + dw + rw, lw, pred);
    lemma_all_add(cat + dw + rw + lw, at, pred);
    assert(content_warnings(c, pid, f) == cat + dw + rw + lw + at);
}

/// The warnings about one fact are all of warning kinds.
proof fn lemma_fact_warning_kinds(c: ChronicleView, p: int, k: int)
    requires
        0 <= p < c.persons.len(),
        0 <= k < c.persons[p].facts.len(),
    ensures
        forall|j: int| 0 <= j < fact_warnings(c, p, k).len() ==> is_warning_issue(#[trigger] fact_warnings(c, p, k)[j]),
{
    let ps = c.persons;
    let pid = ps[p].id;
    let f = ps[p].facts[k];
    let u = uuid_issues(ps, p, k, false);
    assert forall|j: int| 0 <= j < u.len() implies is_warning_issue(#[trigger] u[j]) by {}
    lemma_content_kinds(c, pid, f);
    let cw = content_warnings(c, pid, f);
    assert forall|j: int| 0 <= j < cw.len() implies is_warning_issue(#[trigger] cw[j]) by {
        assert(is_plain_warning(cw[j]));
    }
    lemma_all_add(u, cw, |x: IssueView| is_warning_issue(x));
}

/// Validation counts every person and every fact; it reports only issues of
/// error kinds as errors and only issues of warning kinds as warnings, drift
/// detection adding only `DivergedSharedFact` warnings; and it lists for
/// correction, in document order, exactly the facts whose UUID is empty,
/// malformed or repeated.
pub proof fn lemma_validation_shape(c: ChronicleView)
    ensures
        validation_of(c).person_count == c.persons.len(),
        validation_of(c).fact_count == fact_total(c.persons),
        forall|j: int|
            0 <= j < validation_of(c).errors.len() ==> is_error_issue(#[trigger] validation_of(c).errors[j]),
        forall|j: int|
            0 <= j < validation_of(c).warnings.len() ==> is_warning_issue(#[trigger] validation_of(c).warnings[j]),
        forall|j: int| 0 <= j < drift_warnings(c.persons).len() ==> is_drift_issue(#[trigger] drift_warnings(c.persons)[j]),
        validation_of(c).needs_correction == concat(c.persons.len(), all_corrections_fn(c.persons)),
        forall|x: (Seq<char>, Seq<char>)|
            validation_of(c).needs_correction.contains(x) <==> exists|p: int, k: int|
                0 <= p < c.persons.len() && 0 <= k < c.persons[p].facts.len() && #[trigger] uuid_issue_type(
                    c.persons,
                    p,
                    k,
                ) is Some && x == (c.persons[p].id, c.persons[p].facts[k].id),
{
    let cs = c.categories;
    let ps = c.persons;
    let wp = |x: IssueView| is_warning_issue(x);
    let ep = |x: IssueView| is_error_issue(x);
    // warnings
    let vw = version_warnings(c);
    assert forall|j: int| 0 <= j < vw.len() implies is_warning_issue(#[trigger] vw[j]) by {}
    let cwf = category_warnings_fn(cs);
    assert forall|i: int, j: int| 0 <= i < cs.len() && 0 <= j < cwf(i).len() implies is_warning_issue(
        #[trigger] cwf(i)[j],
    ) by {
        let a1 = one_if(
            !valid_id(cs[i].id),
            general_issue(
                "Category ID '"@ + cs[i].id + "' doesn't match the schema pattern ^[a-z][a-z0-9_-]*$"@,
                IssueType::InvalidId,
            ),
        );
        let a2 = one_if(
            is_blank(cs[i].label),
            general_issue("Category '"@ + cs[i].id + "' has an empty label"@, IssueType::EmptyName),
        );
        assert forall|x: int| 0 <= x < a1.len() implies is_warning_issue(#[trigger] a1[x]) by {}
        assert forall|x: int| 0 <= x < a2.len() implies is_warning_issue(#[trigger] a2[x]) by {}
        lemma_all_add(a1, a2, wp);
        assert(cwf(i) == a1 + a2);
    }
    lemma_concat_all(cs.len(), cwf, wp);
    let pwf = person_warnings_fn(ps);
    assert forall|i: int, j: int| 0 <= i < ps.len() && 0 <= j < pwf(i).len() implies is_warning_issue(
        #[trigger] pwf(i)[j],
    ) by {
        let a1 = one_if(
            !valid_id(ps[i].id),
            person_issue(
                ps[i].id,
                "Person ID '"@ + ps[i].id + "' doesn't match the schema pattern ^[a-z][a-z0-9_-]*$"@,
                IssueType::InvalidId,
            ),
        );
        let a2 = one_if(
            is_blank(ps[i].name),
            person_issue(ps[i].id, "Person '"@ + ps[i].id + "' has an empty name"@, IssueType::EmptyName),
        );
        assert forall|x: int| 0 <= x < a1.len() implies is_warning_issue(#[trigger] a1[x]) by {}
        assert forall|x: int| 0 <= x < a2.len() implies is_warning_issue(#[trigger] a2[x]) by {}
        lemma_all_add(a1, a2, wp);
        assert(pwf(i) == a1 + a2);
    }
    lemma_concat_all(ps.len(), pwf, wp);
    let afw = all_fact_warnings_fn(c);
    assert forall|p: int, j: int| 0 <= p < ps.len() && 0 <= j < afw(p).len() implies is_warning_issue(
        #[trigger] afw(p)[j],
    ) by {
        let fw = fact_warnings_fn(c, p);
        assert forall|k: int, x: int| 0 <= k < ps[p].facts.len() && 0 <= x < fw(k).len() implies is_warning_issue(
            #[trigger] fw(k)[x],
        ) by {
            lemma_fact_warning_kinds(c, p, k);
            assert(fw(k) == fact_warnings(c, p, k));
        }
        lemma_concat_all(ps[p].facts.len(), fw, wp);
    }
    lemma_concat_all(ps.len(), afw, wp);
    lemma_drift_kinds(ps);
    let dw = drift_warnings(ps);
    assert forall|j: int| 0 <= j < dw.len() implies is_warning_issue(#[trigger] dw[j]) by {
        assert(is_drift_issue(dw[j]));
    }
    let w1 = concat(cs.len(), cwf);
    let w2 = concat(ps.len(), pwf);
    let w3 = concat(ps.len(), afw);
    lemma_all_add(vw, w1, wp);
    lemma_all_add(vw + w1, w2, wp);
    lemma_all_add(vw + w1 + w2, w3, wp);
    lemma_all_add(vw + w1 + w2 + w3, dw, wp);
    assert(validation_of(c).warnings == vw + w1 + w2 + w3 + dw);
    // errors
    let cef = category_errors_fn(cs);
    assert forall|i: int, j: int| 0 <= i < cs.len() && 0 <= j < cef(i).len() implies is_error_issue(
        #[trigger] cef(i)[j],
    ) by {}
    lemma_concat_all(cs.len(), cef, ep);
    let pef = person_errors_fn(ps);
    assert forall|i: int, j: int| 0 <= i < ps.len() && 0 <= j < pef(i).len() implies is_error_issue(
        #[trigger] pef(i)[j],
    ) by {}
    lemma_concat_all(ps.len(), pef, ep);
    let afe = all_fact_errors_fn(ps);
    assert forall|p: int, j: int| 0 <= p < ps.len() && 0 <= j < afe(p).len() implies is_error_issue(
        #[trigger] afe(p)[j],
    ) by {
        let fe = fact_errors_fn(ps, p);
        assert forall|k: int, x: int| 0 <= k < ps[p].facts.len() && 0 <= x < fe(k).len() implies is_error_issue(
            #[trigger] fe(k)[x],
        ) by {}
        lemma_concat_all(ps[p].facts.len(), fe, ep);
    }
    lemma_concat_all(ps.len(), afe, ep);
    let e1 = concat(cs.len(), cef);
    let e2 = concat(ps.len(), pef);
    let e3 = concat(ps.len(), afe);
    lemma_all_add(e1, e2, ep);
    lemma_all_add(e1 + e2, e3, ep);
    assert(validation_of(c).errors == e1 + e2 + e3);
    // corrections
    let nc = validation_of(c).needs_correction;
    assert forall|x: (Seq<char>, Seq<char>)| nc.contains(x) <==> exists|p: int, k: int|
        0 <= p < ps.len() && 0 <= k < ps[p].facts.len() && #[trigger] uuid_issue_type(ps, p, k) is Some && x == (
            ps[p].id,
            ps[p].facts[k].id,
        ) by {
        lemma_concat_contains(ps.len(), all_corrections_fn(ps), x);
        if nc.contains(x) {
            let p = choose|p: int| 0 <= p < ps.len() && #[trigger] all_corrections_fn(ps)(p).contains(x);
            lemma_concat_contains(ps[p].facts.len(), fact_corrections_fn(ps, p), x);
            let k = choose|k: int| 0 <= k < ps[p].facts.len() && #[trigger] fact_corrections_fn(ps, p)(k).contains(x);
            assert(uuid_issue_type(ps, p, k) is Some);
        }
        if exists|p: int, k: int|
            0 <= p < ps.len() && 0 <= k < ps[p].facts.len() && #[trigger] uuid_issue_type(ps, p, k) is Some && x == (
                ps[p].id,
                ps[p].facts[k].id,
            ) {
            let (p, k) = choose|p: int, k: int|
                0 <= p < ps.len() && 0 <= k < ps[p].facts.len() && #[trigger] uuid_issue_type(ps, p, k) is Some && x
                    == (ps[p].id, ps[p].facts[k].id);
            lemma_issue_listed(ps, p, k);
        }
    }
}


/// Whether `c` holds just two persons with distinct IDs, each with one fact,
/// the two facts on the same date and each naming the other person alone in
/// its `with` list: one shared event, recorded from both sides.
pub open spec fn mirrored_pair(c: ChronicleView) -> bool {
    let ps = c.persons;
    &&& ps.len() == 2
    &&& ps[0].id != ps[1].id
    &&& ps[0].facts.len() == 1
    &&& ps[1].facts.len() == 1
    &&& ps[0].facts[0].with == Some(seq![ps[1].id])
    &&& ps[1].facts[0].with == Some(seq![ps[0].id])
    &&& ps[0].facts[0].date == ps[1].facts[0].date
}

/// For one shared event recorded from both sides, drift detection warns of
/// nothing when the two texts differ but the categories agree, nor when
/// text, category and location all agree (attachments play no part); when
/// both text and category differ it gives one `DivergedSharedFact` warning,
/// on the first person's fact, naming the category difference.
pub proof fn lemma_mirrored_drift(c: ChronicleView)
    requires
        mirrored_pair(c),
    ensures
        ({
            let ps = c.persons;
            let fa = ps[0].facts[0];
            let fb = ps[1].facts[0];
            &&& fa.text != fb.text && fa.category == fb.category ==> drift_warnings(ps).len() == 0
            &&& fa.text == fb.text && fa.category == fb.category && same_opt_location(fb.location, fa.location)
                ==> drift_warnings(ps).len() == 0
            &&& fa.text != fb.text && fa.category != fb.category ==> drift_warnings(ps) == seq![
                fact_issue(
                    ps[0].id,
                    fa,
                    "Shared facts '"@ + fact_label(fa) + "' ("@ + fa.id + ") and '"@ + fact_label(fb) + "' ('"@
                        + ps[1].id + "', "@ + fb.id + ") on "@ + fa.date + " differ in category ('"@
                        + fa.category + "' vs '"@ + fb.category + "')"@,
                    IssueType::DivergedSharedFact,
                ),
            ]
        }),
{
    let ps = c.persons;
    let fa = ps[0].facts[0];
    let fb = ps[1].facts[0];
    let d = fa.date;
    // both references raise the key (0, 1, d)
    assert(ps.drop_last().drop_last().len() == 0);
    assert(ps.drop_last().last() == ps[0]);
    assert(person_index(ps.drop_last().drop_last(), ps[1].id) is None);
    assert(person_index(ps.drop_last().drop_last(), ps[0].id) is None);
    assert(person_index(ps.drop_last(), ps[1].id) is None);
    assert(person_index(ps, ps[1].id) == Some(1int));
    assert(person_index(ps.drop_last(), ps[0].id) == Some(0int));
    assert(person_index(ps, ps[0].id) == Some(0int));
    let key: (usize, usize, Seq<char>) = (0usize, 1usize, d);
    assert(event_key(ps, 0, 0, 0) == Some(key));
    assert(event_key(ps, 1, 0, 0) == Some(key));
    let e0 = fact_events(ps, 0, 0);
    let e1 = fact_events(ps, 1, 0);
    assert(e0 =~= seq![Some(key)]);
    assert(e1 =~= seq![Some(key)]);
    assert(fact_events_fn(ps, 0)(0) == e0);
    assert(fact_events_fn(ps, 1)(0) == e1);
    assert(concat(0, fact_events_fn(ps, 0)) =~= Seq::<Option<(usize, usize, Seq<char>)>>::empty());
    assert(concat(0, fact_events_fn(ps, 1)) =~= Seq::<Option<(usize, usize, Seq<char>)>>::empty());
    assert(concat(1, fact_events_fn(ps, 0)) =~= e0);
    assert(concat(1, fact_events_fn(ps, 1)) =~= e1);
    assert(person_events_fn(ps)(0) == e0);
    assert(person_events_fn(ps)(1) == e1);
    let evs = concat(2, person_events_fn(ps));
    assert(concat(0, person_events_fn(ps)) =~= Seq::<Option<(usize, usize, Seq<char>)>>::empty());
    assert(concat(1, person_events_fn(ps)) =~= e0);
    assert(evs =~= seq![Some(key), Some(key)]);
    assert(evs.drop_last() =~= seq![Some(key)]);
    assert(evs.drop_last().drop_last() =~= Seq::<Option<(usize, usize, Seq<char>)>>::empty());
    assert(first_keys(evs.drop_last().drop_last()) =~= Seq::<(usize, usize, Seq<char>)>::empty());
    assert(evs.drop_last().last() == Some(key));
    assert(!Seq::<(usize, usize, Seq<char>)>::empty().contains(key));
    assert(first_keys(evs.drop_last()) =~= seq![key]);
    assert(seq![key].contains(key)) by {
        assert(seq![key][0] == key);
    }
    let keys = first_keys(evs);
    assert(keys =~= seq![key]);
    assert(keys[0] == key);
    assert(pair_fn(ps, keys)(0) == pair_warnings(ps, key));
    assert(concat(0, pair_fn(ps, keys)) =~= Seq::<IssueView>::empty());
    assert(concat(1, pair_fn(ps, keys)) =~= pair_warnings(ps, key));
    // the two sides of the pair
    let pa = ps[0];
    let pb = ps[1];
    assert(seq![pb.id][0] == pb.id);
    assert(seq![pa.id][0] == pa.id);
    assert(fact_references(fa, pb.id));
    assert(fact_references(fb, pa.id));
    assert(pa.facts.drop_last().len() == 0);
    assert(pb.facts.drop_last().len() == 0);
    let a = shared_side(pa.facts, d, pb.id);
    let b = shared_side(pb.facts, d, pa.id);
    assert(shared_side(pa.facts.drop_last(), d, pb.id) =~= Seq::<FactView>::empty());
    assert(shared_side(pb.facts.drop_last(), d, pa.id) =~= Seq::<FactView>::empty());
    assert(pa.facts.last() == fa);
    assert(pb.facts.last() == fb);
    assert(a =~= seq![fa]);
    assert(b =~= seq![fb]);
    let st0 = pair_state(pa.id, pb.id, a, b, 0);
    let st = pair_state(pa.id, pb.id, a, b, 1);
    assert(st0.rest == b);
    assert(b.drop_last().len() == 0);
    assert(first_text(b.drop_last(), fa.text) is None);
    if fa.text == fb.text {
        assert(first_text(b, fa.text) == Some(0int));
        assert(st.rest =~= Seq::<FactView>::empty());
        assert(st.unmatched =~= Seq::<FactView>::empty());
        assert(st.warnings =~= copy_drift(pa.id, pb.id, fa, fb));
        assert(concat(0, leftover_fn(pa.id, pb.id, st.unmatched, st.rest)) =~= Seq::<IssueView>::empty());
    } else {
        assert(first_text(b, fa.text) is None);
        assert(st.unmatched =~= seq![fa]);
        assert(st.rest =~= seq![fb]);
        assert(st.warnings =~= Seq::<IssueView>::empty());
        let lf = leftover_fn(pa.id, pb.id, st.unmatched, st.rest);
        assert(concat(0, lf) =~= Seq::<IssueView>::empty());
        assert(concat(1, lf) =~= lf(0));
        assert(min_len(st.unmatched.len(), st.rest.len()) == 1);
        assert(st.unmatched[0] == fa);
        assert(st.rest[0] == fb);
    }
}


/// Validation reports a UUID issue only about a fact whose UUID has one.
proof fn lemma_uuid_issues_only_from_facts(c: ChronicleView)
    requires
        forall|p: int, k: int|
            0 <= p < c.persons.len() && 0 <= k < c.persons[p].facts.len() ==> #[trigger] uuid_issue_type(
                c.persons,
                p,
                k,
            ) is None,
    ensures
        forall|j: int| 0 <= j < validation_of(c).errors.len() ==> !is_uuid_issue(#[trigger] validation_of(c).errors[j]),
        forall|j: int|
            0 <= j < validation_of(c).warnings.len() ==> !is_uuid_issue(#[trigger] validation_of(c).warnings[j]),
{
    let cs = c.categories;
    let ps = c.persons;
    let np = |x: IssueView| !is_uuid_issue(x);
    let vw = version_warnings(c);
    assert forall|j: int| 0 <= j < vw.len() implies !is_uuid_issue(#[trigger] vw[j]) by {}
    let cwf = category_warnings_fn(cs);
    assert forall|i: int, j: int| 0 <= i < cs.len() && 0 <= j < cwf(i).len() implies !is_uuid_issue(
        #[trigger] cwf(i)[j],
    ) by {
        let a1 = one_if(
            !valid_id(cs[i].id),
            general_issue(
                "Category ID '"@ + cs[i].id + "' doesn't match the schema pattern ^[a-z][a-z0-9_-]*$"@,
                IssueType::InvalidId,
            ),
        );
        let a2 = one_if(
            is_blank(cs[i].label),
            general_issue("Category '"@ + cs[i].id + "' has an empty label"@, IssueType::EmptyName),
        );
        assert forall|x: int| 0 <= x < a1.len() implies !is_uuid_issue(#[trigger] a1[x]) by {}
        assert forall|x: int| 0 <= x < a2.len() implies !is_uuid_issue(#[trigger] a2[x]) by {}
        lemma_all_add(a1, a2, np);
        assert(cwf(i) == a1 + a2);
    }
    lemma_concat_all(cs.len(), cwf, np);
    let pwf = person_warnings_fn(ps);
    assert forall|i: int, j: int| 0 <= i < ps.len() && 0 <= j < pwf(i).len() implies !is_uuid_issue(
        #[trigger] pwf(i)[j],
    ) by {
        let a1 = one_if(
            !valid_id(ps[i].id),
            person_issue(
                ps[i].id,
                "Person ID '"@ + ps[i].id + "' doesn't match the schema pattern ^[a-z][a-z0-9_-]*$"@,
                IssueType::InvalidId,
            ),
        );
        let a2 = one_if(
            is_blank(ps[i].name),
            person_issue(ps[i].id, "Person '"@ + ps[i].id + "' has an empty name"@, IssueType::EmptyName),
        );
        assert forall|x: int| 0 <= x < a1.len() implies !is_uuid_issue(#[trigger] a1[x]) by {}
        assert forall|x: int| 0 <= x < a2.len() implies !is_uuid_issue(#[trigger] a2[x]) by {}
        lemma_all_add(a1, a2, np);
        assert(pwf(i) == a1 + a2);
    }
    lemma_concat_all(ps.len(), pwf, np);
    let afw = all_fact_warnings_fn(c);
    assert forall|p: int, j: int| 0 <= p < ps.len() && 0 <= j < afw(p).len() implies !is_uuid_issue(
        #[trigger] afw(p)[j],
    ) by {
        let fw = fact_warnings_fn(c, p);
        assert forall|k: int, x: int| 0 <= k < ps[p].facts.len() && 0 <= x < fw(k).len() implies !is_uuid_issue(
            #[trigger] fw(k)[x],
        ) by {
            assert(uuid_issue_type(ps, p, k) is None);
            let cw = content_warnings(c, ps[p].id, ps[p].facts[k]);
            lemma_content_kinds(c, ps[p].id, ps[p].facts[k]);
            assert(uuid_issues(ps, p, k, false) =~= Seq::<IssueView>::empty());
            assert(fw(k) =~= cw);
            assert(is_plain_warning(cw[x]));
        }
        lemma_concat_all(ps[p].facts.len(), fw, np);
    }
    lemma_concat_all(ps.len(), afw, np);
    lemma_drift_kinds(ps);
    let dw = drift_warnings(ps);
    assert forall|j: int| 0 <= j < dw.len() implies !is_uuid_issue(#[trigger] dw[j]) by {
        assert(is_drift_issue(dw[j]));
    }
    let w1 = concat(cs.len(), cwf);
    let w2 = concat(ps.len(), pwf);
    let w3 = concat(ps.len(), afw);
    lemma_all_add(vw, w1, np);
    lemma_all_add(vw + w1, w2, np);
    lemma_all_add(vw + w1 + w2, w3, np);
    lemma_all_add(vw + w1 + w2 + w3, dw, np);
    assert(validation_of(c).warnings == vw + w1 + w2 + w3 + dw);
    let cef = category_errors_fn(cs);
    assert forall|i: int, j: int| 0 <= i < cs.len() && 0 <= j < cef(i).len() implies !is_uuid_issue(
        #[trigger] cef(i)[j],
    ) by {}
    lemma_concat_all(cs.len(), cef, np);
    let pef = person_errors_fn(ps);
    assert forall|i: int, j: int| 0 <= i < ps.len() && 0 <= j < pef(i).len() implies !is_uuid_issue(
        #[trigger] pef(i)[j],
    ) by {}
    lemma_concat_all(ps.len(), pef, np);
    let afe = all_fact_errors_fn(ps);
    assert forall|p: int, j: int| 0 <= p < ps.len() && 0 <= j < afe(p).len() implies !is_uuid_issue(
        #[trigger] afe(p)[j],
    ) by {
        let fe = fact_errors_fn(ps, p);
        assert forall|k: int, x: int| 0 <= k < ps[p].facts.len() && 0 <= x < fe(k).len() implies !is_uuid_issue(
            #[trigger] fe(k)[x],
        ) by {
            assert(uuid_issue_type(ps, p, k) is None);
        }
        lemma_concat_all(ps[p].facts.len(), fe, np);
    }
    lemma_concat_all(ps.len(), afe, np);
    let e1 = concat(cs.len(), cef);
    let e2 = concat(ps.len(), pef);
    let e3 = concat(ps.len(), afe);
    lemma_all_add(e1, e2, np);
    lemma_all_add(e1 + e2, e3, np);
    assert(validation_of(c).errors == e1 + e2 + e3);
}

/// Validating a chronicle again after correcting the UUIDs that validation
/// listed reports no empty, malformed or repeated UUID, neither among the
/// errors nor among the warnings, and lists nothing more to correct. The
/// correction changes only IDs, and a fact keeps its ID exactly when it was
/// not listed, or its ID is a valid UUID that no earlier fact holds once
/// corrected.
pub proof fn lemma_revalidated_after_correction(old: ChronicleView, new: ChronicleView)
    requires
        uuids_corrected(old, new, validation_of(old).needs_correction),
    ensures
        forall|j: int| 0 <= j < validation_of(new).errors.len() ==> !is_uuid_issue(#[trigger] validation_of(new).errors[j]),
        forall|j: int|
            0 <= j < validation_of(new).warnings.len() ==> !is_uuid_issue(#[trigger] validation_of(new).warnings[j]),
        validation_of(new).needs_correction.len() == 0,
        new.categories == old.categories,
        new.persons.len() == old.persons.len(),
        forall|p: int, k: int|
            0 <= p < old.persons.len() && 0 <= k < old.persons[p].facts.len() ==> {
                let of = old.persons[p].facts[k];
                let nf = #[trigger] new.persons[p].facts[k];
                &&& nf == FactView { id: nf.id, ..of }
                &&& (nf.id == of.id <==> !(validation_of(old).needs_correction.contains((old.persons[p].id, of.id))
                    && !(uuid_text(of.id) && !ids_before(new.persons, p, k).contains(of.id))))
            },
{
    lemma_corrected_uuids_clean(old, new);
    lemma_uuid_issues_only_from_facts(new);
    let ops = old.persons;
    let nps = new.persons;
    assert forall|p: int, k: int| 0 <= p < ops.len() && 0 <= k < ops[p].facts.len() implies {
        let of = ops[p].facts[k];
        let nf = #[trigger] nps[p].facts[k];
        &&& nf == FactView { id: nf.id, ..of }
        &&& (nf.id == of.id <==> !(validation_of(old).needs_correction.contains((ops[p].id, of.id)) && !(uuid_text(
            of.id,
        ) && !ids_before(nps, p, k).contains(of.id))))
    } by {
        assert(fact_corrected(
            ops[p].facts[k],
            nps[p].facts[k],
            ops[p].id,
            validation_of(old).needs_correction,
            ids_before(nps, p, k),
            all_ids(ops),
        ));
        lemma_in_all_ids(ops, p, k);
    }
}

} // verus!
