//! Fact creation and manipulation operations.
use vstd::prelude::*;
use crate::checks::{fresh_uuid, hyphenated, spec_url_valid, url_parses};
use crate::date::{parse_date, date_error_message, ChronicleDate, DateError, DateErrorView};
use crate::model::{
    coordinates_valid, has_category, has_person, person_ids_of, category_ids_of, person_index,
    lemma_person_index, push_fact, clone_attachments, Attachment, AttachmentView, Chronicle,
    ChronicleView, Coordinates, Fact, FactView, Location, LocationView, Person, PersonView,
};
use crate::text::{contains_str, is_blank, own, own_opt, own_strs, str_eq, str_is_blank};
use crate::validate::{all_ids, is_valid_mime_type, valid_mime_type};
use crate::filter::{fact_matches, filter_facts, matching, FactFilter, FilterView};
use crate::lists::concat;
use crate::sort::{chronological_order, permuted, stably_sorted};

verus! {

// ---------------------------------------------------------------------------
// Errors
// ---------------------------------------------------------------------------

/// Error that can occur when adding or editing a fact.
///
/// Variants are structured so library consumers (TUI, web) can match on
/// the failure kind instead of parsing message strings.
#[derive(Debug)]
pub enum FactError {
    PersonNotFound { id: String, available: Vec<String> },
    WithPersonNotFound { id: String, available: Vec<String> },
    CategoryNotFound { id: String, available: Vec<String> },
    InvalidDate { date: String, source: DateError },
    EmptyCountry,
    /// Coordinates out of range, as decimal text.
    InvalidCoordinates { lat: String, lon: String },
    InvalidMimeType { mime: String },
    InvalidUrl { url: String },
    FactNotFound { id: String },
    /// The person a fact is added to is named in its own `with` list.
    SelfReference { id: String },
}

/// View of a [`FactError`].
pub enum FactErrorView {
    PersonNotFound { id: Seq<char>, available: Seq<Seq<char>> },
    WithPersonNotFound { id: Seq<char>, available: Seq<Seq<char>> },
    CategoryNotFound { id: Seq<char>, available: Seq<Seq<char>> },
    InvalidDate { date: Seq<char>, source: DateErrorView },
    EmptyCountry,
    InvalidCoordinates { lat: Seq<char>, lon: Seq<char> },
    InvalidMimeType { mime: Seq<char> },
    InvalidUrl { url: Seq<char> },
    FactNotFound { id: Seq<char> },
    SelfReference { id: Seq<char> },
}

impl View for FactError {
    type V = FactErrorView;

    open spec fn view(&self) -> FactErrorView {
        match self {
            FactError::PersonNotFound { id, available } => FactErrorView::PersonNotFound {
                id: id@,
                available: available.deep_view(),
            },
            FactError::WithPersonNotFound { id, available } => FactErrorView::WithPersonNotFound {
                id: id@,
                available: available.deep_view(),
            },
            FactError::CategoryNotFound { id, available } => FactErrorView::CategoryNotFound {
                id: id@,
                available: available.deep_view(),
            },
            FactError::InvalidDate { date, source } => FactErrorView::InvalidDate {
                date: date@,
                source: source@,
            },
            FactError::EmptyCountry => FactErrorView::EmptyCountry,
            FactError::InvalidCoordinates { lat, lon } => FactErrorView::InvalidCoordinates {
                lat: lat@,
                lon: lon@,
            },
            FactError::InvalidMimeType { mime } => FactErrorView::InvalidMimeType { mime: mime@ },
            FactError::InvalidUrl { url } => FactErrorView::InvalidUrl { url: url@ },
            FactError::FactNotFound { id } => FactErrorView::FactNotFound { id: id@ },
            FactError::SelfReference { id } => FactErrorView::SelfReference { id: id@ },
        }
    }
}

/// The items of `s` joined by `sep`.
pub open spec fn joined(s: Seq<Seq<char>>, sep: Seq<char>) -> Seq<char>
    decreases s.len(),
{
    if s.len() == 0 {
        Seq::empty()
    } else if s.len() == 1 {
        s[0]
    } else {
        joined(s.drop_last(), sep) + sep + s.last()
    }
}

/// The items of `v` joined by `sep`.
pub fn join_strs(v: &Vec<String>, sep: &str) -> (r: String)
    ensures
        r@ == joined(v.deep_view(), sep@),
{
    let mut r = String::new();
    let mut i: usize = 0;
    assert(v.deep_view().take(0) =~= Seq::<Seq<char>>::empty());
    while i < v.len()
        invariant
            i <= v.len(),
            r@ == joined(v.deep_view().take(i as int), sep@),
        decreases v.len() - i,
    {
        let ghost before = r@;
        assert(v.deep_view().take(i + 1).drop_last() =~= v.deep_view().take(i as int));
        assert(v.deep_view().take(i + 1).last() == v@[i as int]@);
        if i > 0 {
            r.append(sep);
        } else {
            assert(v.deep_view().take(1) =~= seq![v@[0]@]);
        }
        r.append(v[i].as_str());
        i += 1;
    }
    assert(v.deep_view().take(v.len() as int) =~= v.deep_view());
    r
}

/// The human-readable description of a fact error.
pub open spec fn fact_error_message(e: FactErrorView) -> Seq<char> {
    match e {
        FactErrorView::PersonNotFound { id, available } => "Person '"@ + id
            + "' not found. Available persons: "@ + joined(available, ", "@),
        FactErrorView::WithPersonNotFound { id, available } => "Person '"@ + id
            + "' in 'with' not found. Available persons: "@ + joined(available, ", "@),
        FactErrorView::CategoryNotFound { id, available } => "Category '"@ + id
            + "' not found. Available categories: "@ + joined(available, ", "@),
        FactErrorView::InvalidDate { date, source } => "Invalid date format '"@ + date + "': "@
            + date_error_message(source),
        FactErrorView::EmptyCountry => "Country cannot be empty"@,
        FactErrorView::InvalidCoordinates { lat, lon } => "Invalid GPS coordinates (lat: "@ + lat
            + ", lon: "@ + lon + "). Valid ranges: lat -90..90, lon -180..180"@,
        FactErrorView::InvalidMimeType { mime } => "Invalid MIME type '"@ + mime
            + "'. Expected format: type/subtype (e.g., image/jpeg)"@,
        FactErrorView::InvalidUrl { url } => "Invalid URL '"@ + url
            + "'. URLs must include a scheme (e.g., file://, https://, s3://)"@,
        FactErrorView::FactNotFound { id } => "Fact with UUID '"@ + id + "' not found"@,
        FactErrorView::SelfReference { id } => "Person '"@ + id + "' cannot be listed in their own 'with'"@,
    }
}

impl FactError {
    /// The human-readable description of this error.
    pub fn message(&self) -> (r: String)
        ensures
            r@ == fact_error_message(self@),
    {
        match self {
            FactError::PersonNotFound { id, available } => {
                let mut m = String::from_str("Person '");
                m.append(id.as_str());
                m.append("' not found. Available persons: ");
                let j = join_strs(available, ", ");
                m.append(j.as_str());
                m
            },
            FactError::WithPersonNotFound { id, available } => {
                let mut m = String::from_str("Person '");
                m.append(id.as_str());
                m.append("' in 'with' not found. Available persons: ");
                let j = join_strs(available, ", ");
                m.append(j.as_str());
                m
            },
            FactError::CategoryNotFound { id, available } => {
                let mut m = String::from_str("Category '");
                m.append(id.as_str());
                m.append("' not found. Available categories: ");
                let j = join_strs(available, ", ");
                m.append(j.as_str());
                m
            },
            FactError::InvalidDate { date, source } => {
                let mut m = String::from_str("Invalid date format '");
                m.append(date.as_str());
                m.append("': ");
                let s = source.message();
                m.append(s.as_str());
                m
            },
            FactError::EmptyCountry => String::from_str("Country cannot be empty"),
            FactError::InvalidCoordinates { lat, lon } => {
                let mut m = String::from_str("Invalid GPS coordinates (lat: ");
                m.append(lat.as_str());
                m.append(", lon: ");
                m.append(lon.as_str());
                m.append("). Valid ranges: lat -90..90, lon -180..180");
                m
            },
            FactError::InvalidMimeType { mime } => {
                let mut m = String::from_str("Invalid MIME type '");
                m.append(mime.as_str());
                m.append("'. Expected format: type/subtype (e.g., image/jpeg)");
                m
            },
            FactError::InvalidUrl { url } => {
                let mut m = String::from_str("Invalid URL '");
                m.append(url.as_str());
                m.append("'. URLs must include a scheme (e.g., file://, https://, s3://)");
                m
            },
            FactError::FactNotFound { id } => {
                let mut m = String::from_str("Fact with UUID '");
                m.append(id.as_str());
                m.append("' not found");
                m
            },
            FactError::SelfReference { id } => {
                let mut m = String::from_str("Person '");
                m.append(id.as_str());
                m.append("' cannot be listed in their own 'with'");
                m
            },
        }
    }
}

// ---------------------------------------------------------------------------
// Checks shared by adding and editing
// ---------------------------------------------------------------------------

/// The first ID in `w` that no person has.
pub open spec fn first_missing(ps: Seq<PersonView>, w: Seq<Seq<char>>) -> Option<Seq<char>>
    decreases w.len(),
{
    if w.len() == 0 {
        None
    } else if !has_person(ps, w[0]) {
        Some(w[0])
    } else {
        first_missing(ps, w.drop_first())
    }
}

/// What is wrong with a location, if anything: an empty country, then
/// coordinates out of range.
pub open spec fn location_error(l: LocationView) -> Option<FactErrorView> {
    if is_blank(l.country) {
        Some(FactErrorView::EmptyCountry)
    } else {
        match l.coordinates {
            Some(co) => if !coordinates_valid(co) {
                Some(FactErrorView::InvalidCoordinates { lat: co.lat, lon: co.lon })
            } else {
                None
            },
            None => None,
        }
    }
}

/// The first malformed content type among attachments.
pub open spec fn first_bad_mime(atts: Seq<AttachmentView>) -> Option<Seq<char>>
    decreases atts.len(),
{
    if atts.len() == 0 {
        None
    } else {
        match atts[0].content_type {
            Some(ct) => if !valid_mime_type(ct) {
                Some(ct)
            } else {
                first_bad_mime(atts.drop_first())
            },
            None => first_bad_mime(atts.drop_first()),
        }
    }
}

/// The IDs of all persons.
pub fn person_id_list(c: &Chronicle) -> (r: Vec<String>)
    ensures
        r.deep_view() == person_ids_of(c@.persons),
{
    let mut r: Vec<String> = Vec::new();
    let mut i: usize = 0;
    while i < c.persons.len()
        invariant
            i <= c.persons.len(),
            r.deep_view() =~= person_ids_of(c@.persons).take(i as int),
        decreases c.persons.len() - i,
    {
        let ghost before = r.deep_view();
        assert(c@.persons[i as int] == c.persons@[i as int]@);
        r.push(c.persons[i].id.clone());
        assert(r.deep_view() =~= before.push(c@.persons[i as int].id));
        i += 1;
    }
    assert(person_ids_of(c@.persons).take(c.persons.len() as int) =~= person_ids_of(c@.persons));
    r
}

/// The IDs of all categories.
pub fn category_id_list(c: &Chronicle) -> (r: Vec<String>)
    ensures
        r.deep_view() == category_ids_of(c@.categories),
{
    let mut r: Vec<String> = Vec::new();
    let mut i: usize = 0;
    while i < c.categories.len()
        invariant
            i <= c.categories.len(),
            r.deep_view() =~= category_ids_of(c@.categories).take(i as int),
        decreases c.categories.len() - i,
    {
        let ghost before = r.deep_view();
        assert(c@.categories[i as int] == c.categories@[i as int]@);
        r.push(c.categories[i].id.clone());
        assert(r.deep_view() =~= before.push(c@.categories[i as int].id));
        i += 1;
    }
    assert(category_ids_of(c@.categories).take(c.categories.len() as int) =~= category_ids_of(
        c@.categories,
    ));
    r
}

/// Position of the first ID in `w` that no person has.
fn missing_person(c: &Chronicle, w: &Vec<String>) -> (r: Option<usize>)
    ensures
        match first_missing(c@.persons, w.deep_view()) {
            Some(id) => r matches Some(k) && k < w.len() && w.deep_view()[k as int] == id,
            None => r is None,
        },
{
    let ghost wv = w.deep_view();
    let mut k: usize = 0;
    assert(wv.skip(0) =~= wv);
    while k < w.len()
        invariant
            k <= w.len(),
            wv == w.deep_view(),
            first_missing(c@.persons, wv) == first_missing(c@.persons, wv.skip(k as int)),
        decreases w.len() - k,
    {
        assert(wv.skip(k as int)[0] == wv[k as int]);
        assert(wv.skip(k as int).drop_first() =~= wv.skip(k + 1));
        assert(w@[k as int]@ == wv[k as int]);
        proof {
            lemma_person_index(c@.persons, wv[k as int]);
        }
        if c.person_position(w[k].as_str()).is_none() {
            return Some(k);
        }
        k += 1;
    }
    assert(wv.skip(k as int) =~= Seq::<Seq<char>>::empty());
    None
}

/// Check a location: the country must not be blank and the coordinates, if
/// any, must be in range.
fn check_location(l: &Location) -> (r: Result<(), FactError>)
    ensures
        match location_error(l@) {
            Some(e) => r matches Err(x) && x@ == e,
            None => r is Ok,
        },
{
    if str_is_blank(l.country.as_str()) {
        return Err(FactError::EmptyCountry);
    }
    if let Some(co) = &l.coordinates {
        if !co.is_valid() {
            return Err(FactError::InvalidCoordinates { lat: co.lat.clone(), lon: co.lon.clone() });
        }
    }
    Ok(())
}

/// Check the content types of attachments.
fn check_mime_types(atts: &Vec<Attachment>) -> (r: Result<(), FactError>)
    ensures
        match first_bad_mime(atts.deep_view()) {
            Some(m) => r matches Err(x) && x@ == (FactErrorView::InvalidMimeType { mime: m }),
            None => r is Ok,
        },
{
    let ghost av = atts.deep_view();
    let mut k: usize = 0;
    assert(av.skip(0) =~= av);
    while k < atts.len()
        invariant
            k <= atts.len(),
            av == atts.deep_view(),
            first_bad_mime(av) == first_bad_mime(av.skip(k as int)),
        decreases atts.len() - k,
    {
        assert(av.skip(k as int)[0] == av[k as int]);
        assert(av.skip(k as int).drop_first() =~= av.skip(k + 1));
        assert(atts@[k as int]@ == av[k as int]);
        if let Some(ct) = &atts[k].content_type {
            if !is_valid_mime_type(ct.as_str()) {
                return Err(FactError::InvalidMimeType { mime: ct.clone() });
            }
        }
        k += 1;
    }
    assert(av.skip(k as int) =~= Seq::<AttachmentView>::empty());
    Ok(())
}


// ---------------------------------------------------------------------------
// Adding facts
// ---------------------------------------------------------------------------

/// Options for adding a new fact.
#[derive(Debug)]
pub struct AddFactOptions {
    /// Date in ISO 8601 format
    pub date: String,
    /// Category ID
    pub category: String,
    /// Event description
    pub text: String,
    /// Other person IDs involved
    pub with: Option<Vec<String>>,
    /// Location where the event occurred
    pub location: Option<Location>,
    /// Attachments for this fact
    pub attachments: Vec<Attachment>,
    /// Whether to propagate to persons in `with`
    pub propagate: bool,
}

/// View of [`AddFactOptions`].
pub struct AddOptionsView {
    pub date: Seq<char>,
    pub category: Seq<char>,
    pub text: Seq<char>,
    pub with: Option<Seq<Seq<char>>>,
    pub location: Option<LocationView>,
    pub attachments: Seq<AttachmentView>,
    pub propagate: bool,
}

impl View for AddFactOptions {
    type V = AddOptionsView;

    open spec fn view(&self) -> AddOptionsView {
        AddOptionsView {
            date: self.date@,
            category: self.category@,
            text: self.text@,
            with: self.with.deep_view(),
            location: self.location.deep_view(),
            attachments: self.attachments.deep_view(),
            propagate: self.propagate,
        }
    }
}

impl Default for AddFactOptions {
    fn default() -> (r: Self)
        ensures
            r@ == (AddOptionsView {
                date: Seq::empty(),
                category: Seq::empty(),
                text: Seq::empty(),
                with: None,
                location: None,
                attachments: Seq::empty(),
                propagate: false,
            }),
    {
        let r = AddFactOptions {
            date: String::new(),
            category: String::new(),
            text: String::new(),
            with: None,
            location: None,
            attachments: Vec::new(),
            propagate: false,
        };
        assert(r.attachments.deep_view() =~= Seq::<AttachmentView>::empty());
        r
    }
}

/// Result of adding a fact.
#[derive(Debug)]
pub struct AddFactResult {
    /// Facts that were added: (person_id, person_name, fact_id)
    pub facts_added: Vec<(String, String, String)>,
}

impl View for AddFactResult {
    type V = Seq<(Seq<char>, Seq<char>, Seq<char>)>;

    open spec fn view(&self) -> Seq<(Seq<char>, Seq<char>, Seq<char>)> {
        self.facts_added.deep_view()
    }
}

/// Why adding a fact for person `pid` with options `o` fails, if it does:
/// checks in order of the person, the date, the category, the `with`
/// persons (all known, and not `pid` itself), the location and the
/// attachments' content types.
pub open spec fn add_error(c: ChronicleView, pid: Seq<char>, o: AddOptionsView) -> Option<FactErrorView> {
    if person_index(c.persons, pid) is None {
        Some(FactErrorView::PersonNotFound { id: pid, available: person_ids_of(c.persons) })
    } else if parse_date(o.date) is Err {
        Some(FactErrorView::InvalidDate { date: o.date, source: parse_date(o.date)->Err_0 })
    } else if !has_category(c.categories, o.category) {
        Some(FactErrorView::CategoryNotFound { id: o.category, available: category_ids_of(c.categories) })
    } else if o.with is Some && first_missing(c.persons, o.with->0) is Some {
        Some(
            FactErrorView::WithPersonNotFound {
                id: first_missing(c.persons, o.with->0)->0,
                available: person_ids_of(c.persons),
            },
        )
    } else if o.with is Some && (o.with->0).contains(pid) {
        Some(FactErrorView::SelfReference { id: pid })
    } else if o.location is Some && location_error(o.location->0) is Some {
        location_error(o.location->0)
    } else if first_bad_mime(o.attachments) is Some {
        Some(FactErrorView::InvalidMimeType { mime: first_bad_mime(o.attachments)->0 })
    } else {
        None
    }
}

/// `w` with every repeated item dropped, first occurrences kept in order.
pub open spec fn deduped(w: Seq<Seq<char>>) -> Seq<Seq<char>>
    decreases w.len(),
{
    if w.len() == 0 {
        Seq::empty()
    } else if w.drop_last().contains(w.last()) {
        deduped(w.drop_last())
    } else {
        deduped(w.drop_last()).push(w.last())
    }
}

/// The options as a fact is added with them: the `with` list de-duplicated.
pub open spec fn with_deduped(o: AddOptionsView) -> AddOptionsView {
    AddOptionsView {
        with: match o.with {
            Some(w) => Some(deduped(w)),
            None => None,
        },
        ..o
    }
}

/// The position of the first person with ID `id` (0 if there is none).
pub open spec fn index_of(ps: Seq<PersonView>, id: Seq<char>) -> int {
    match person_index(ps, id) {
        Some(i) => i,
        None => 0,
    }
}

/// The fact added for the person named in the call.
pub open spec fn main_fact(o: AddOptionsView, id: Seq<char>) -> FactView {
    FactView {
        id,
        date: o.date,
        category: o.category,
        text: o.text,
        with: o.with,
        location: o.location,
        attachments: o.attachments,
    }
}

/// `w` without the items equal to `t`.
pub open spec fn others(w: Seq<Seq<char>>, t: Seq<char>) -> Seq<Seq<char>>
    decreases w.len(),
{
    if w.len() == 0 {
        Seq::empty()
    } else if w.last() == t {
        others(w.drop_last(), t)
    } else {
        others(w.drop_last(), t).push(w.last())
    }
}

/// The copy added for person `t` of `with` list `w` when propagating a fact
/// of person `pid`: it names `pid` and the other persons of `w`.
pub open spec fn target_fact(o: AddOptionsView, pid: Seq<char>, w: Seq<Seq<char>>, t: Seq<char>, id: Seq<char>) -> FactView {
    FactView { with: Some(seq![pid] + others(w, t)), ..main_fact(o, id) }
}

/// The persons a fact is copied to: those of `with`, if propagating.
pub open spec fn targets(o: AddOptionsView) -> Seq<Seq<char>> {
    if o.propagate && o.with is Some {
        o.with->0
    } else {
        Seq::empty()
    }
}

/// `ps` after copying the fact to the first `n` targets, the copy for
/// target `q` carrying ID `ids[q + 1]`; `origin` locates the targets.
pub open spec fn propagate_into(
    ps: Seq<PersonView>,
    origin: Seq<PersonView>,
    o: AddOptionsView,
    pid: Seq<char>,
    ids: Seq<Seq<char>>,
    n: nat,
) -> Seq<PersonView>
    decreases n,
{
    if n == 0 {
        ps
    } else {
        let prev = propagate_into(ps, origin, o, pid, ids, (n - 1) as nat);
        let w = targets(o);
        let j = index_of(origin, w[n - 1]);
        prev.update(
            j,
            PersonView {
                facts: prev[j].facts.push(target_fact(o, pid, o.with->0, w[n - 1], ids[n as int])),
                ..prev[j]
            },
        )
    }
}

/// The fact IDs of the entries of an add result.
pub open spec fn added_ids(res: Seq<(Seq<char>, Seq<char>, Seq<char>)>) -> Seq<Seq<char>> {
    res.map_values(|t: (Seq<char>, Seq<char>, Seq<char>)| t.2)
}

/// Whether `new` and `res` are what adding a fact for `pid` with options `o`
/// to `old` gives: the fact on that person, then, when propagating, a copy on
/// each `with` person in order; each with a fresh hyphenated UUID, held by
/// no fact of `old` and by no fact added before it, that `res` lists with
/// the person's ID and name.
pub open spec fn fact_added(
    old: ChronicleView,
    pid: Seq<char>,
    o: AddOptionsView,
    res: Seq<(Seq<char>, Seq<char>, Seq<char>)>,
    new: ChronicleView,
) -> bool {
    let ps = old.persons;
    let i = index_of(ps, pid);
    let ts = targets(o);
    let ids = added_ids(res);
    &&& res.len() == ts.len() + 1
    &&& res[0] == (pid, ps[i].name, ids[0])
    &&& forall|q: int| 0 <= q < ts.len() ==> #[trigger] res[q + 1] == (ts[q], ps[index_of(ps, ts[q])].name, ids[q + 1])
    &&& forall|q: int| 0 <= q < res.len() ==> hyphenated(#[trigger] res[q].2)
    &&& forall|q: int| 0 <= q < res.len() ==> !(all_ids(ps) + ids.take(q)).contains(#[trigger] res[q].2)
    &&& new == ChronicleView {
        persons: propagate_into(
            ps.update(i, PersonView { facts: ps[i].facts.push(main_fact(o, ids[0])), ..ps[i] }),
            ps,
            o,
            pid,
            ids,
            ts.len(),
        ),
        ..old
    }
}

/// The items of `w` not equal to `t`, in order.
pub(crate) fn others_of(w: &Vec<String>, t: &str) -> (r: Vec<String>)
    ensures
        r.deep_view() == others(w.deep_view(), t@),
{
    let mut r: Vec<String> = Vec::new();
    let mut k: usize = 0;
    assert(w.deep_view().take(0) =~= Seq::<Seq<char>>::empty());
    assert(r.deep_view() =~= Seq::<Seq<char>>::empty());
    while k < w.len()
        invariant
            k <= w.len(),
            r.deep_view() == others(w.deep_view().take(k as int), t@),
        decreases w.len() - k,
    {
        let ghost before = r.deep_view();
        assert(w.deep_view().take(k + 1).drop_last() =~= w.deep_view().take(k as int));
        assert(w.deep_view().take(k + 1).last() == w@[k as int]@);
        if !str_eq(w[k].as_str(), t) {
            r.push(w[k].clone());
            assert(r.deep_view() =~= before.push(w@[k as int]@));
        }
        k += 1;
    }
    assert(w.deep_view().take(w.len() as int) =~= w.deep_view());
    r
}

fn copy_location(l: &Option<Location>) -> (r: Option<Location>)
    ensures
        r.deep_view() == l.deep_view(),
{
    match l {
        Some(x) => Some(x.clone()),
        None => None,
    }
}

fn copy_with(w: &Option<Vec<String>>) -> (r: Option<Vec<String>>)
    ensures
        r.deep_view() == w.deep_view(),
{
    match w {
        Some(x) => Some(own_strs(x)),
        None => None,
    }
}

/// Add a fact to a person's timeline.
///
/// If `options.propagate` is true, the fact will also be added to all persons
/// listed in `options.with`, with appropriate cross-references.
pub fn add_fact(chronicle: &mut Chronicle, person_id: &str, options: AddFactOptions) -> (r: Result<AddFactResult, FactError>)
    ensures
        match add_error(old(chronicle)@, person_id@, options@) {
            Some(e) => r matches Err(x) && x@ == e && final(chronicle)@ == old(chronicle)@,
            None => r matches Ok(res) && fact_added(
                old(chronicle)@,
                person_id@,
                with_deduped(options@),
                res@,
                final(chronicle)@,
            ),
        },
{
    let ghost c0 = chronicle@;
    let ghost ps = c0.persons;
    let ghost o = options@;
    proof {
        lemma_person_index(ps, person_id@);
    }
    let i = match chronicle.person_position(person_id) {
        Some(i) => i,
        None => {
            return Err(FactError::PersonNotFound { id: own(person_id), available: person_id_list(chronicle) });
        },
    };
    if let Err(source) = ChronicleDate::parse(options.date.as_str()) {
        return Err(FactError::InvalidDate { date: options.date.clone(), source });
    }
    if !chronicle.has_category(options.category.as_str()) {
        return Err(FactError::CategoryNotFound {
            id: options.category.clone(),
            available: category_id_list(chronicle),
        });
    }
    if let Some(w) = &options.with {
        if let Some(k) = missing_person(chronicle, w) {
            return Err(FactError::WithPersonNotFound { id: w[k].clone(), available: person_id_list(chronicle) });
        }
        if contains_str(w, person_id) {
            return Err(FactError::SelfReference { id: own(person_id) });
        }
    }
    if let Some(l) = &options.location {
        if let Err(e) = check_location(l) {
            return Err(e);
        }
    }
    if let Err(e) = check_mime_types(&options.attachments) {
        return Err(e);
    }
    assert(add_error(c0, person_id@, o) is None);
    proof {
        if o.with is Some {
            lemma_all_present(ps, o.with->0);
            lemma_deduped_in(o.with->0);
        }
    }

    // The fact is added with its 'with' list de-duplicated.
    let ghost o_in = o;
    let deduped_with = match &options.with {
        Some(w) => Some(dedup_strs(w)),
        None => None,
    };
    let mut options = options;
    options.with = deduped_with;
    let ghost o = options@;
    assert(o == with_deduped(o_in));

    // Where the copies go, looked up before anything changes.
    let empty: Vec<String> = Vec::new();
    let ts: &Vec<String> = if options.propagate {
        match &options.with {
            Some(w) => w,
            None => &empty,
        }
    } else {
        &empty
    };
    assert(ts.deep_view() =~= targets(o));
    let ghost tsv = targets(o);
    proof {
        if o.propagate && o.with is Some {
            assert forall|x: int| 0 <= x < (o.with->0).len() implies has_person(ps, #[trigger] (o.with->0)[x]) by {
                let w = o_in.with->0;
                assert(w.contains((o.with->0)[x]));
                let y = choose|y: int| 0 <= y < w.len() && w[y] == (o.with->0)[x];
                assert(has_person(ps, w[y]));
            }
        }
    }
    let mut js: Vec<usize> = Vec::new();
    let mut q: usize = 0;
    while q < ts.len()
        invariant
            q <= ts.len(),
            ps == chronicle@.persons,
            tsv == ts.deep_view(),
            forall|x: int| 0 <= x < tsv.len() ==> has_person(ps, #[trigger] tsv[x]),
            js@.len() == q,
            forall|x: int| 0 <= x < q ==> #[trigger] js@[x] as int == index_of(ps, tsv[x]) && js@[x] < ps.len(),
        decreases ts.len() - q,
    {
        assert(ts@[q as int]@ == tsv[q as int]);
        proof {
            lemma_person_index(ps, tsv[q as int]);
        }
        let j = match chronicle.person_position(ts[q].as_str()) {
            Some(j) => j,
            None => {
                assert(false);
                0
            },
        };
        js.push(j);
        q += 1;
    }

    let mut added: Vec<(String, String, String)> = Vec::new();
    let mut pool = crate::merge::all_fact_ids(chronicle);
    assert(pool.deep_view() == all_ids(ps));
    let id0 = fresh_uuid(&pool);
    let ghost pool0 = pool.deep_view();
    pool.push(own(id0.as_str()));
    assert(pool.deep_view() =~= pool0.push(id0@));
    let fact = Fact {
        id: id0.clone(),
        date: options.date.clone(),
        category: options.category.clone(),
        text: options.text.clone(),
        with: copy_with(&options.with),
        location: copy_location(&options.location),
        attachments: clone_attachments(&options.attachments),
    };
    assert(fact@ == main_fact(o, id0@));
    assert(ps[i as int] == chronicle.persons@[i as int]@);
    let ghost id0v = id0@;
    added.push((own(person_id), chronicle.persons[i].name.clone(), id0));
    push_fact(&mut chronicle.persons, i, fact);
    let ghost ps1 = chronicle@.persons;
    assert(ps1 == ps.update(i as int, PersonView { facts: ps[i as int].facts.push(main_fact(o, id0v)), ..ps[i as int] }));
    assert(added.deep_view()[0] == (person_id@, ps[i as int].name, id0v));
    assert(added_ids(added.deep_view()) =~= seq![id0v]);
    assert(added_ids(added.deep_view()).take(0) =~= Seq::<Seq<char>>::empty());
    assert(all_ids(ps) + Seq::<Seq<char>>::empty() =~= all_ids(ps));
    assert(forall|x: int| 0 <= x < ps.len() ==> #[trigger] ps1[x].name == ps[x].name);

    let mut q: usize = 0;
    while q < ts.len()
        invariant
            q <= ts.len(),
            tsv == ts.deep_view(),
            tsv == targets(o),
            o == options@,
            js@.len() == tsv.len(),
            forall|x: int| 0 <= x < tsv.len() ==> #[trigger] js@[x] as int == index_of(ps, tsv[x]) && js@[x] < ps.len(),
            chronicle@.persons.len() == ps.len(),
            chronicle@ == (ChronicleView { persons: chronicle@.persons, ..c0 }),
            added.deep_view().len() == q + 1,
            added.deep_view()[0] == (person_id@, ps[index_of(ps, person_id@)].name, added_ids(added.deep_view())[0]),
            forall|x: int| 0 <= x < q ==> #[trigger] added.deep_view()[x + 1] == (tsv[x], ps[index_of(ps, tsv[x])].name, added_ids(added.deep_view())[x + 1]),
            forall|x: int| 0 <= x <= q ==> hyphenated(#[trigger] added.deep_view()[x].2),
            pool.deep_view() == all_ids(ps) + added_ids(added.deep_view()),
            forall|x: int|
                0 <= x <= q ==> !(all_ids(ps) + added_ids(added.deep_view()).take(x)).contains(
                    #[trigger] added.deep_view()[x].2,
                ),
            chronicle@.persons == propagate_into(ps1, ps, o, person_id@, added_ids(added.deep_view()), q as nat),
            added.deep_view()[0].2 == id0v,
            index_of(ps, person_id@) == i,
            ps1.len() == ps.len(),
            forall|x: int| 0 <= x < ps.len() ==> #[trigger] ps1[x].name == ps[x].name,
            ps1 == ps.update(i as int, PersonView { facts: ps[i as int].facts.push(main_fact(o, id0v)), ..ps[i as int] }),
        decreases ts.len() - q,
    {
        let t = &ts[q];
        assert(ts@[q as int]@ == tsv[q as int]);
        let j = js[q];
        let w = match &options.with {
            Some(w) => w,
            None => {
                assert(false);
                &empty
            },
        };
        assert(o.with == Some(w.deep_view()));
        let mut tw: Vec<String> = Vec::new();
        tw.push(own(person_id));
        let rest = others_of(w, t.as_str());
        let ghost first = tw.deep_view();
        let ghost restv = rest.deep_view();
        let mut rest = rest;
        tw.append(&mut rest);
        assert(tw.deep_view() =~= seq![person_id@] + others(o.with->0, tsv[q as int]));
        let idq = fresh_uuid(&pool);
        let tf = Fact {
            id: idq.clone(),
            date: options.date.clone(),
            category: options.category.clone(),
            text: options.text.clone(),
            with: Some(tw),
            location: copy_location(&options.location),
            attachments: clone_attachments(&options.attachments),
        };
        assert(tf@ == target_fact(o, person_id@, o.with->0, tsv[q as int], idq@));
        assert(chronicle@.persons[j as int].name == ps[j as int].name) by {
            assert forall|x: int| 0 <= x < q implies 0 <= #[trigger] index_of(ps, targets(o)[x]) < ps1.len() by {
                assert(js@[x] as int == index_of(ps, tsv[x]));
            }
            lemma_propagate_keeps(ps1, ps, o, person_id@, added_ids(added.deep_view()), q as nat, j as int);
        }
        assert(chronicle@.persons[j as int] == chronicle.persons@[j as int]@);
        let ghost before_added = added.deep_view();
        let ghost poolb = pool.deep_view();
        pool.push(own(idq.as_str()));
        added.push((t.clone(), chronicle.persons[j].name.clone(), idq));
        let ghost ids = added_ids(added.deep_view());
        assert(added.deep_view() =~= before_added.push((tsv[q as int], ps[j as int].name, idq@)));
        proof {
            assert(ids =~= added_ids(before_added).push(idq@));
            assert(pool.deep_view() =~= poolb.push(idq@));
            assert(pool.deep_view() =~= all_ids(ps) + ids);
            assert(ids.take(q + 1) =~= added_ids(before_added));
            assert forall|x: int| 0 <= x <= q + 1 implies !(all_ids(ps) + ids.take(x)).contains(
                #[trigger] added.deep_view()[x].2,
            ) by {
                if x <= q {
                    assert(ids.take(x) =~= added_ids(before_added).take(x));
                    assert(added.deep_view()[x] == before_added[x]);
                } else {
                    assert(all_ids(ps) + ids.take(x) =~= poolb);
                }
            }
        }
        proof {
            lemma_propagate_prefix_ids(ps1, ps, o, person_id@, added_ids(before_added), ids, q as nat);
        }
        push_fact(&mut chronicle.persons, j, tf);
        q += 1;
    }
    Ok(AddFactResult { facts_added: added })
}

/// Every item of `deduped(w)` is an item of `w`.
proof fn lemma_deduped_in(w: Seq<Seq<char>>)
    ensures
        forall|x: int| 0 <= x < deduped(w).len() ==> w.contains(#[trigger] deduped(w)[x]),
    decreases w.len(),
{
    if w.len() > 0 {
        lemma_deduped_in(w.drop_last());
        let d = deduped(w.drop_last());
        assert forall|x: int| 0 <= x < deduped(w).len() implies w.contains(#[trigger] deduped(w)[x]) by {
            if x < d.len() {
                assert(deduped(w)[x] == d[x]);
                let y = choose|y: int| 0 <= y < w.drop_last().len() && w.drop_last()[y] == d[x];
                assert(w[y] == d[x]);
            } else {
                assert(deduped(w)[x] == w.last());
                assert(w[w.len() - 1] == w.last());
            }
        }
    }
}

/// `w` with repeated items dropped, first occurrences kept in order.
fn dedup_strs(w: &Vec<String>) -> (r: Vec<String>)
    ensures
        r.deep_view() == deduped(w.deep_view()),
{
    let ghost wv = w.deep_view();
    let mut r: Vec<String> = Vec::new();
    let mut k: usize = 0;
    assert(r.deep_view() =~= deduped(wv.take(0)));
    while k < w.len()
        invariant
            k <= w.len(),
            wv == w.deep_view(),
            r.deep_view() == deduped(wv.take(k as int)),
        decreases w.len() - k,
    {
        let mut seen = false;
        let mut j: usize = 0;
        while j < k
            invariant
                j <= k < w.len(),
                wv == w.deep_view(),
                seen == wv.take(j as int).contains(wv[k as int]),
            decreases k - j,
        {
            assert(w@[j as int]@ == wv[j as int]);
            assert(w@[k as int]@ == wv[k as int]);
            if str_eq(w[j].as_str(), w[k].as_str()) {
                seen = true;
            }
            proof {
                let t = wv.take(j as int);
                let t1 = wv.take(j + 1);
                assert(t1 =~= t.push(wv[j as int]));
                if t1.contains(wv[k as int]) && !t.contains(wv[k as int]) {
                    let y = choose|y: int| 0 <= y < t1.len() && t1[y] == wv[k as int];
                    assert(y == j);
                }
                if t.contains(wv[k as int]) {
                    let y = choose|y: int| 0 <= y < t.len() && t[y] == wv[k as int];
                    assert(t1[y] == wv[k as int]);
                }
                if wv[j as int] == wv[k as int] {
                    assert(t1[j as int] == wv[k as int]);
                }
            }
            j += 1;
        }
        assert(wv.take(k + 1).drop_last() =~= wv.take(k as int));
        assert(wv.take(k + 1).last() == wv[k as int]);
        assert(w@[k as int]@ == wv[k as int]);
        if !seen {
            let ghost before = r.deep_view();
            r.push(own(w[k].as_str()));
            assert(r.deep_view() =~= before.push(wv[k as int]));
        }
        k += 1;
    }
    assert(wv.take(w.len() as int) =~= wv);
    r
}

/// IDs that no person lacks can all be located.
proof fn lemma_all_present(ps: Seq<PersonView>, w: Seq<Seq<char>>)
    requires
        first_missing(ps, w) is None,
    ensures
        forall|x: int| 0 <= x < w.len() ==> has_person(ps, #[trigger] w[x]),
    decreases w.len(),
{
    if w.len() > 0 {
        lemma_all_present(ps, w.drop_first());
        assert forall|x: int| 0 <= x < w.len() implies has_person(ps, #[trigger] w[x]) by {
            if x > 0 {
                assert(w.drop_first()[x - 1] == w[x]);
            }
        }
    }
}

/// Copying facts keeps every person's ID and name.
proof fn lemma_propagate_keeps(
    ps: Seq<PersonView>,
    origin: Seq<PersonView>,
    o: AddOptionsView,
    pid: Seq<char>,
    ids: Seq<Seq<char>>,
    n: nat,
    j: int,
)
    requires
        0 <= j < ps.len(),
        n <= targets(o).len(),
        forall|x: int| 0 <= x < n ==> 0 <= #[trigger] index_of(origin, targets(o)[x]) < ps.len(),
    ensures
        propagate_into(ps, origin, o, pid, ids, n).len() == ps.len(),
        propagate_into(ps, origin, o, pid, ids, n)[j].name == ps[j].name,
        propagate_into(ps, origin, o, pid, ids, n)[j].id == ps[j].id,
    decreases n,
{
    if n > 0 {
        lemma_propagate_keeps(ps, origin, o, pid, ids, (n - 1) as nat, j);
        assert(0 <= index_of(origin, targets(o)[n - 1]) < ps.len());
    }
}

/// Copying to the first `n` targets uses only the IDs up to `n`.
proof fn lemma_propagate_prefix_ids(
    ps: Seq<PersonView>,
    origin: Seq<PersonView>,
    o: AddOptionsView,
    pid: Seq<char>,
    a: Seq<Seq<char>>,
    b: Seq<Seq<char>>,
    n: nat,
)
    requires
        a.len() > n,
        b.len() > n,
        forall|x: int| 0 <= x <= n ==> a[x] == b[x],
    ensures
        propagate_into(ps, origin, o, pid, a, n) == propagate_into(ps, origin, o, pid, b, n),
    decreases n,
{
    if n > 0 {
        lemma_propagate_prefix_ids(ps, origin, o, pid, a, b, (n - 1) as nat);
    }
}


// ---------------------------------------------------------------------------
// Building locations and attachments from command-line pieces
// ---------------------------------------------------------------------------

/// What `build_location` gives: no location without a country; otherwise the
/// country, the place, and the coordinates when both are given, which must
/// be in range.
pub open spec fn built_location(
    country: Option<Seq<char>>,
    place: Option<Seq<char>>,
    lat: Option<Seq<char>>,
    lon: Option<Seq<char>>,
) -> Result<Option<LocationView>, FactErrorView> {
    match country {
        None => Ok(None),
        Some(c) => {
            let base = LocationView { country: c, place, coordinates: None };
            match (lat, lon) {
                (Some(a), Some(b)) => {
                    let co = crate::model::CoordinatesView { lat: a, lon: b };
                    if coordinates_valid(co) {
                        Ok(Some(LocationView { coordinates: Some(co), ..base }))
                    } else {
                        Err(FactErrorView::InvalidCoordinates { lat: a, lon: b })
                    }
                },
                _ => Ok(Some(base)),
            }
        },
    }
}

/// A piece of a location that an edit leaves neither given nor known.
#[derive(Debug, Clone, Copy, PartialEq, Eq, Structural)]
pub enum MissingPiece {
    Country,
    Latitude,
    Longitude,
}

/// The pieces of the location an edit sets: each piece given, or else the
/// current location's; a latitude or a longitude given alone is completed
/// from the current coordinates. Without a country, or with one coordinate
/// given and the other not known, the edit names the missing piece.
pub open spec fn filled_location(
    current: Option<LocationView>,
    country: Option<Seq<char>>,
    place: Option<Seq<char>>,
    lat: Option<Seq<char>>,
    lon: Option<Seq<char>>,
) -> Result<(Seq<char>, Option<Seq<char>>, Option<Seq<char>>, Option<Seq<char>>), MissingPiece> {
    let cur_country = match current {
        Some(l) => Some(l.country),
        None => None,
    };
    let cur_place = match current {
        Some(l) => l.place,
        None => None,
    };
    let cur_coords = match current {
        Some(l) => l.coordinates,
        None => None,
    };
    let cur_lat = match cur_coords {
        Some(c) => Some(c.lat),
        None => None,
    };
    let cur_lon = match cur_coords {
        Some(c) => Some(c.lon),
        None => None,
    };
    let c = if country is Some { country } else { cur_country };
    let p = if place is Some { place } else { cur_place };
    if c is None {
        Err(MissingPiece::Country)
    } else if lat is Some || lon is Some {
        let a = if lat is Some { lat } else { cur_lat };
        let b = if lon is Some { lon } else { cur_lon };
        if a is None {
            Err(MissingPiece::Latitude)
        } else if b is None {
            Err(MissingPiece::Longitude)
        } else {
            Ok((c->0, p, a, b))
        }
    } else {
        Ok((c->0, p, cur_lat, cur_lon))
    }
}

fn or_else_own(given: Option<String>, current: Option<&String>) -> (r: Option<String>)
    ensures
        r.deep_view() == if given is Some {
            given.deep_view()
        } else {
            match current {
                Some(x) => Some(x@),
                None => None,
            }
        },
{
    match given {
        Some(g) => Some(g),
        None => match current {
            Some(x) => Some(x.clone()),
            None => None,
        },
    }
}

/// Fill the pieces of an edited location from the current location: every
/// piece not given keeps the current value; coordinates given in part are
/// completed from the current ones.
pub fn fill_location(
    current: &Option<Location>,
    country: Option<String>,
    place: Option<String>,
    lat: Option<String>,
    lon: Option<String>,
) -> (r: Result<(String, Option<String>, Option<String>, Option<String>), MissingPiece>)
    ensures
        match filled_location(current.deep_view(), country.deep_view(), place.deep_view(), lat.deep_view(), lon.deep_view()) {
            Ok((c, p, a, b)) => r matches Ok(x) && x.0@ == c && x.1.deep_view() == p && x.2.deep_view() == a
                && x.3.deep_view() == b,
            Err(e) => r == Err::<(String, Option<String>, Option<String>, Option<String>), MissingPiece>(e),
        },
{
    let cur_country: Option<&String> = match current {
        Some(l) => Some(&l.country),
        None => None,
    };
    let cur_place: Option<&String> = match current {
        Some(l) => match &l.place {
            Some(p) => Some(p),
            None => None,
        },
        None => None,
    };
    let (cur_lat, cur_lon): (Option<&String>, Option<&String>) = match current {
        Some(l) => match &l.coordinates {
            Some(c) => (Some(&c.lat), Some(&c.lon)),
            None => (None, None),
        },
        None => (None, None),
    };
    let lat_given = lat.is_some();
    let lon_given = lon.is_some();
    let c = or_else_own(country, cur_country);
    let p = or_else_own(place, cur_place);
    let c = match c {
        Some(c) => c,
        None => return Err(MissingPiece::Country),
    };
    if lat_given || lon_given {
        let a = or_else_own(lat, cur_lat);
        let b = or_else_own(lon, cur_lon);
        match (a, b) {
            (None, _) => Err(MissingPiece::Latitude),
            (Some(_), None) => Err(MissingPiece::Longitude),
            (Some(a), Some(b)) => Ok((c, p, Some(a), Some(b))),
        }
    } else {
        Ok((c, p, or_else_own(None, cur_lat), or_else_own(None, cur_lon)))
    }
}

/// Build a location from optional components; coordinates are decimal text.
pub fn build_location(
    country: Option<String>,
    place: Option<String>,
    lat: Option<String>,
    lon: Option<String>,
) -> (r: Result<Option<Location>, FactError>)
    ensures
        match built_location(country.deep_view(), place.deep_view(), lat.deep_view(), lon.deep_view()) {
            Ok(l) => r matches Ok(x) && x.deep_view() == l,
            Err(e) => r matches Err(x) && x@ == e,
        },
{
    match country {
        None => Ok(None),
        Some(country_name) => {
            let mut loc = Location { country: country_name, place, coordinates: None };
            if let (Some(lat_val), Some(lon_val)) = (lat, lon) {
                let coords = Coordinates { lat: lat_val, lon: lon_val };
                if !coords.is_valid() {
                    return Err(FactError::InvalidCoordinates { lat: coords.lat, lon: coords.lon });
                }
                loc.coordinates = Some(coords);
            }
            Ok(Some(loc))
        },
    }
}

/// The attachments built from the first `n` URLs, or the first error: each
/// URL must parse, and the content type, if given, must be well formed.
pub open spec fn built_attachments(
    urls: Seq<Seq<char>>,
    content_type: Option<Seq<char>>,
    title: Option<Seq<char>>,
    n: nat,
) -> Result<Seq<AttachmentView>, FactErrorView>
    decreases n,
{
    if n == 0 {
        Ok(Seq::empty())
    } else {
        match built_attachments(urls, content_type, title, (n - 1) as nat) {
            Err(e) => Err(e),
            Ok(atts) => {
                let u = urls[n - 1];
                if !spec_url_valid(u) {
                    Err(FactErrorView::InvalidUrl { url: u })
                } else if content_type is Some && !valid_mime_type(content_type->0) {
                    Err(FactErrorView::InvalidMimeType { mime: content_type->0 })
                } else {
                    Ok(atts.push(AttachmentView { url: u, content_type, title }))
                }
            },
        }
    }
}

/// Parse attachment URLs and build attachment objects.
pub fn build_attachments(
    urls: Option<Vec<String>>,
    content_type: Option<String>,
    title: Option<String>,
) -> (r: Result<Vec<Attachment>, FactError>)
    ensures
        match urls {
            None => r matches Ok(v) && v@.len() == 0,
            Some(u) => match built_attachments(u.deep_view(), content_type.deep_view(), title.deep_view(), u@.len()) {
                Ok(a) => r matches Ok(v) && v.deep_view() == a,
                Err(e) => r matches Err(x) && x@ == e,
            },
        },
{
    let url_strings = match urls {
        None => return Ok(Vec::new()),
        Some(u) => u,
    };
    let ghost uv = url_strings.deep_view();
    assert(uv.len() == url_strings@.len());
    let ghost ctv = content_type.deep_view();
    let ghost tv = title.deep_view();
    let mut attachments: Vec<Attachment> = Vec::new();
    assert(attachments.deep_view() =~= Seq::<AttachmentView>::empty());
    let mut k: usize = 0;
    while k < url_strings.len()
        invariant
            k <= url_strings.len(),
            uv == url_strings.deep_view(),
            urls matches Some(u) && u.deep_view() == uv && u@.len() == uv.len(),
            ctv == content_type.deep_view(),
            tv == title.deep_view(),
            built_attachments(uv, ctv, tv, k as nat) == Ok::<Seq<AttachmentView>, FactErrorView>(attachments.deep_view()),
        decreases url_strings.len() - k,
    {
        let u = &url_strings[k];
        assert(uv[k as int] == u@);
        if !url_parses(u.as_str()) {
            proof {
                lemma_built_error_stays(uv, ctv, tv, (k + 1) as nat, uv.len());
            }
            return Err(FactError::InvalidUrl { url: u.clone() });
        }
        if let Some(ct) = &content_type {
            if !is_valid_mime_type(ct.as_str()) {
                proof {
                    lemma_built_error_stays(uv, ctv, tv, (k + 1) as nat, uv.len());
                }
                return Err(FactError::InvalidMimeType { mime: ct.clone() });
            }
        }
        let a = Attachment { url: u.clone(), content_type: own_opt(&content_type), title: own_opt(&title) };
        let ghost before = attachments.deep_view();
        let ghost av = a@;
        attachments.push(a);
        assert(attachments.deep_view() =~= before.push(av));
        k += 1;
    }
    Ok(attachments)
}


/// Once building attachments fails, later URLs do not change the error.
proof fn lemma_built_error_stays(
    urls: Seq<Seq<char>>,
    content_type: Option<Seq<char>>,
    title: Option<Seq<char>>,
    m: nat,
    n: nat,
)
    requires
        m <= n,
        built_attachments(urls, content_type, title, m) is Err,
    ensures
        built_attachments(urls, content_type, title, n) == built_attachments(urls, content_type, title, m),
    decreases n - m,
{
    if m < n {
        lemma_built_error_stays(urls, content_type, title, m, (n - 1) as nat);
    }
}


// ---------------------------------------------------------------------------
// Finding facts by UUID
// ---------------------------------------------------------------------------

/// Index of the first fact in `facts` with ID `id`.
pub open spec fn first_id(facts: Seq<FactView>, id: Seq<char>) -> Option<int>
    decreases facts.len(),
{
    if facts.len() == 0 {
        None
    } else {
        match first_id(facts.drop_last(), id) {
            Some(i) => Some(i),
            None => if facts.last().id == id {
                Some(facts.len() - 1)
            } else {
                None
            },
        }
    }
}

/// Position (person, fact) of the first fact with ID `id` in document order.
pub open spec fn fact_position(ps: Seq<PersonView>, id: Seq<char>) -> Option<(int, int)>
    decreases ps.len(),
{
    if ps.len() == 0 {
        None
    } else {
        match fact_position(ps.drop_last(), id) {
            Some(x) => Some(x),
            None => match first_id(ps.last().facts, id) {
                Some(k) => Some((ps.len() - 1, k)),
                None => None,
            },
        }
    }
}

proof fn lemma_first_id(facts: Seq<FactView>, id: Seq<char>)
    ensures
        match first_id(facts, id) {
            Some(i) => 0 <= i < facts.len() && facts[i].id == id && (forall|j: int|
                0 <= j < i ==> facts[j].id != id),
            None => forall|j: int| 0 <= j < facts.len() ==> facts[j].id != id,
        },
    decreases facts.len(),
{
    if facts.len() > 0 {
        lemma_first_id(facts.drop_last(), id);
        match first_id(facts.drop_last(), id) {
            Some(i) => {
                assert forall|j: int| 0 <= j < i implies facts[j].id != id by {
                    assert(facts.drop_last()[j] == facts[j]);
                }
                assert(facts.drop_last()[i] == facts[i]);
            },
            None => {
                assert forall|j: int| 0 <= j < facts.len() - 1 implies facts[j].id != id by {
                    assert(facts.drop_last()[j] == facts[j]);
                }
            },
        }
    }
}

/// `fact_position` finds a fact with the ID, or reports that none has it.
pub proof fn lemma_fact_position(ps: Seq<PersonView>, id: Seq<char>)
    ensures
        match fact_position(ps, id) {
            Some((p, k)) => 0 <= p < ps.len() && 0 <= k < ps[p].facts.len() && ps[p].facts[k].id == id,
            None => forall|p: int, k: int|
                0 <= p < ps.len() && 0 <= k < ps[p].facts.len() ==> #[trigger] ps[p].facts[k].id != id,
        },
    decreases ps.len(),
{
    if ps.len() > 0 {
        lemma_fact_position(ps.drop_last(), id);
        lemma_first_id(ps.last().facts, id);
        match fact_position(ps.drop_last(), id) {
            Some((p, k)) => {
                assert(ps.drop_last()[p] == ps[p]);
            },
            None => {
                assert forall|p: int, k: int|
                    0 <= p < ps.len() - 1 && 0 <= k < ps[p].facts.len() implies #[trigger] ps[p].facts[k].id != id by {
                    assert(ps.drop_last()[p] == ps[p]);
                }
            },
        }
    }
}

/// Index of the first fact of `person` with ID `id`.
fn fact_index(person: &Person, id: &str) -> (r: Option<usize>)
    ensures
        match first_id(person@.facts, id@) {
            Some(i) => r == Some(i as usize),
            None => r is None,
        },
{
    proof {
        lemma_first_id(person@.facts, id@);
    }
    let mut k: usize = 0;
    while k < person.facts.len()
        invariant
            k <= person.facts.len(),
            forall|j: int| 0 <= j < k ==> person@.facts[j].id != id@,
            match first_id(person@.facts, id@) {
                Some(i) => 0 <= i < person@.facts.len() && person@.facts[i].id == id@ && (forall|j: int|
                    0 <= j < i ==> person@.facts[j].id != id@),
                None => forall|j: int| 0 <= j < person@.facts.len() ==> person@.facts[j].id != id@,
            },
        decreases person.facts.len() - k,
    {
        assert(person@.facts[k as int] == person.facts@[k as int]@);
        if str_eq(person.facts[k].id.as_str(), id) {
            return Some(k);
        }
        k += 1;
    }
    None
}

/// Find a fact by UUID across all persons: (person index, fact index) of
/// the first match in document order.
fn find_fact_by_id(c: &Chronicle, fact_id: &str) -> (r: Option<(usize, usize)>)
    ensures
        match fact_position(c@.persons, fact_id@) {
            Some((p, k)) => r == Some((p as usize, k as usize)),
            None => r is None,
        },
        r matches Some((p, k)) ==> p < c.persons.len() && k < c.persons@[p as int].facts.len(),
{
    let ghost ps = c@.persons;
    proof {
        lemma_fact_position(ps, fact_id@);
    }
    let mut p: usize = 0;
    assert(ps.take(0) =~= Seq::<PersonView>::empty());
    while p < c.persons.len()
        invariant
            p <= c.persons.len(),
            ps == c@.persons,
            fact_position(ps.take(p as int), fact_id@) is None,
        decreases c.persons.len() - p,
    {
        let person = &c.persons[p];
        assert(ps[p as int] == person@);
        assert(ps.take(p + 1).drop_last() =~= ps.take(p as int));
        assert(ps.take(p + 1).last() == person@);
        if let Some(k) = fact_index(person, fact_id) {
            proof {
                lemma_position_prefix(ps, fact_id@, p + 1);
                lemma_fact_position(ps, fact_id@);
                assert(person@.facts.len() == person.facts@.len());
            }
            return Some((p, k));
        }
        assert(first_id(person@.facts, fact_id@) is None);
        p += 1;
    }
    assert(ps.take(p as int) =~= ps);
    None
}

/// A position found in a prefix of the persons is the position in all.
proof fn lemma_position_prefix(ps: Seq<PersonView>, id: Seq<char>, n: int)
    requires
        0 <= n <= ps.len(),
        fact_position(ps.take(n), id) is Some,
    ensures
        fact_position(ps, id) == fact_position(ps.take(n), id),
    decreases ps.len() - n,
{
    if n < ps.len() {
        assert(ps.take(n + 1).drop_last() =~= ps.take(n));
        lemma_position_prefix(ps, id, n + 1);
    } else {
        assert(ps.take(n) =~= ps);
    }
}

// ---------------------------------------------------------------------------
// Editing facts
// ---------------------------------------------------------------------------

/// How to update the 'with' field.
#[derive(Debug)]
pub enum WithUpdate {
    /// Replace with new list of person IDs
    Replace(Vec<String>),
    /// Clear all 'with' references
    Clear,
}

/// How to update the location field.
#[derive(Debug)]
pub enum LocationUpdate {
    /// Set or replace the location
    SetTo(Location),
    /// Remove the location entirely
    Clear,
}

/// How to update attachments.
#[derive(Debug)]
pub enum AttachmentUpdate {
    /// Add new attachments
    Add(Vec<Attachment>),
    /// Remove attachments by URL
    Remove(Vec<String>),
    /// Clear all attachments
    Clear,
}

/// View of a [`WithUpdate`].
pub enum WithUpdateView {
    Replace(Seq<Seq<char>>),
    Clear,
}

/// View of a [`LocationUpdate`].
pub enum LocationUpdateView {
    SetTo(LocationView),
    Clear,
}

/// View of an [`AttachmentUpdate`].
pub enum AttachmentUpdateView {
    Add(Seq<AttachmentView>),
    Remove(Seq<Seq<char>>),
    Clear,
}

impl View for WithUpdate {
    type V = WithUpdateView;

    open spec fn view(&self) -> WithUpdateView {
        match self {
            WithUpdate::Replace(w) => WithUpdateView::Replace(w.deep_view()),
            WithUpdate::Clear => WithUpdateView::Clear,
        }
    }
}

impl DeepView for WithUpdate {
    type V = WithUpdateView;

    open spec fn deep_view(&self) -> WithUpdateView {
        self@
    }
}

impl View for LocationUpdate {
    type V = LocationUpdateView;

    open spec fn view(&self) -> LocationUpdateView {
        match self {
            LocationUpdate::SetTo(l) => LocationUpdateView::SetTo(l@),
            LocationUpdate::Clear => LocationUpdateView::Clear,
        }
    }
}

impl DeepView for LocationUpdate {
    type V = LocationUpdateView;

    open spec fn deep_view(&self) -> LocationUpdateView {
        self@
    }
}

impl View for AttachmentUpdate {
    type V = AttachmentUpdateView;

    open spec fn view(&self) -> AttachmentUpdateView {
        match self {
            AttachmentUpdate::Add(a) => AttachmentUpdateView::Add(a.deep_view()),
            AttachmentUpdate::Remove(u) => AttachmentUpdateView::Remove(u.deep_view()),
            AttachmentUpdate::Clear => AttachmentUpdateView::Clear,
        }
    }
}

impl DeepView for AttachmentUpdate {
    type V = AttachmentUpdateView;

    open spec fn deep_view(&self) -> AttachmentUpdateView {
        self@
    }
}

/// Options for editing an existing fact.
#[derive(Debug)]
pub struct EditFactOptions {
    /// New date (if Some, replaces existing)
    pub date: Option<String>,
    /// New category ID (if Some, replaces existing)
    pub category: Option<String>,
    /// New text (if Some, replaces existing)
    pub text: Option<String>,
    /// Update to 'with' field
    pub with: Option<WithUpdate>,
    /// Update to location
    pub location: Option<LocationUpdate>,
    /// Update to attachments
    pub attachments: Option<AttachmentUpdate>,
}

/// View of [`EditFactOptions`].
pub struct EditOptionsView {
    pub date: Option<Seq<char>>,
    pub category: Option<Seq<char>>,
    pub text: Option<Seq<char>>,
    pub with: Option<WithUpdateView>,
    pub location: Option<LocationUpdateView>,
    pub attachments: Option<AttachmentUpdateView>,
}

impl View for EditFactOptions {
    type V = EditOptionsView;

    open spec fn view(&self) -> EditOptionsView {
        EditOptionsView {
            date: self.date.deep_view(),
            category: self.category.deep_view(),
            text: self.text.deep_view(),
            with: self.with.deep_view(),
            location: self.location.deep_view(),
            attachments: self.attachments.deep_view(),
        }
    }
}

impl Default for EditFactOptions {
    fn default() -> (r: Self)
        ensures
            r@ == (EditOptionsView {
                date: None,
                category: None,
                text: None,
                with: None,
                location: None,
                attachments: None,
            }),
    {
        EditFactOptions { date: None, category: None, text: None, with: None, location: None, attachments: None }
    }
}

/// Result of editing a fact.
#[derive(Debug)]
pub struct EditFactResult {
    /// Person ID who owns the fact
    pub person_id: String,
    /// Person's display name
    pub person_name: String,
    /// The edited fact's ID
    pub fact_id: String,
}

/// Why editing the fact with ID `id` fails, if it does: checks in order of
/// the fact, the date, the category, the `with` persons, the location and
/// the added attachments' content types.
pub open spec fn edit_error(c: ChronicleView, id: Seq<char>, o: EditOptionsView) -> Option<FactErrorView> {
    if fact_position(c.persons, id) is None {
        Some(FactErrorView::FactNotFound { id })
    } else if o.date is Some && parse_date(o.date->0) is Err {
        Some(FactErrorView::InvalidDate { date: o.date->0, source: parse_date(o.date->0)->Err_0 })
    } else if o.category is Some && !has_category(c.categories, o.category->0) {
        Some(FactErrorView::CategoryNotFound { id: o.category->0, available: category_ids_of(c.categories) })
    } else if o.with matches Some(WithUpdateView::Replace(w)) && first_missing(c.persons, w) is Some {
        Some(
            FactErrorView::WithPersonNotFound {
                id: first_missing(c.persons, o.with->0->Replace_0)->0,
                available: person_ids_of(c.persons),
            },
        )
    } else if o.location matches Some(LocationUpdateView::SetTo(l)) && location_error(l) is Some {
        location_error(o.location->0->SetTo_0)
    } else if o.attachments matches Some(AttachmentUpdateView::Add(a)) && first_bad_mime(a) is Some {
        Some(FactErrorView::InvalidMimeType { mime: first_bad_mime(o.attachments->0->Add_0)->0 })
    } else {
        None
    }
}

/// The attachments whose URL is not in `urls`, in order.
pub open spec fn kept_attachments(atts: Seq<AttachmentView>, urls: Seq<Seq<char>>) -> Seq<AttachmentView>
    decreases atts.len(),
{
    if atts.len() == 0 {
        Seq::empty()
    } else if urls.contains(atts.last().url) {
        kept_attachments(atts.drop_last(), urls)
    } else {
        kept_attachments(atts.drop_last(), urls).push(atts.last())
    }
}

/// Removing attachments by URL drops exactly those whose URL is listed: the
/// attachments kept are the others, in their order; none kept has a listed
/// URL, and every attachment with an unlisted URL is kept.
pub proof fn lemma_removed_attachments(atts: Seq<AttachmentView>, urls: Seq<Seq<char>>)
    ensures
        kept_attachments(atts, urls) == atts.filter(|a: AttachmentView| !urls.contains(a.url)),
        forall|j: int|
            0 <= j < kept_attachments(atts, urls).len() ==> !urls.contains(
                (#[trigger] kept_attachments(atts, urls)[j]).url,
            ) && atts.contains(kept_attachments(atts, urls)[j]),
        forall|i: int|
            0 <= i < atts.len() && !urls.contains((#[trigger] atts[i]).url) ==> kept_attachments(atts, urls).contains(
                atts[i],
            ),
    decreases atts.len(),
{
    reveal(Seq::filter);
    let pred = |a: AttachmentView| !urls.contains(a.url);
    if atts.len() == 0 {
        assert(kept_attachments(atts, urls) =~= atts.filter(pred));
    } else {
        let d = atts.drop_last();
        lemma_removed_attachments(d, urls);
        assert(d.filter(pred) == kept_attachments(d, urls));
        assert(atts.filter(pred) == (if pred(atts.last()) {
            d.filter(pred).push(atts.last())
        } else {
            d.filter(pred)
        }));
        let prev = kept_attachments(d, urls);
        let k = kept_attachments(atts, urls);
        assert forall|j: int| 0 <= j < prev.len() implies atts.contains(prev[j]) by {
            let y = choose|y: int| 0 <= y < d.len() && d[y] == prev[j];
            assert(atts[y] == prev[j]);
        }
        assert(atts[atts.len() - 1] == atts.last());
        assert forall|j: int| 0 <= j < prev.len() implies k.contains(prev[j]) by {
            if !urls.contains(atts.last().url) {
                assert(k[j] == prev[j]);
            }
        }
        assert forall|i: int| 0 <= i < atts.len() && !urls.contains((#[trigger] atts[i]).url) implies k.contains(
            atts[i],
        ) by {
            if i < atts.len() - 1 {
                assert(d[i] == atts[i]);
                assert(prev.contains(d[i]));
                let y = choose|y: int| 0 <= y < prev.len() && prev[y] == d[i];
                assert(k.contains(prev[y]));
            } else {
                assert(k[prev.len() as int] == atts[i]);
            }
        }
    }
}

/// Editing a fact with `Remove(urls)` keeps, in order, the attachments whose
/// URL is not listed and drops those whose URL is; every other field is
/// handled as without an attachment update.
pub proof fn lemma_edit_removes_listed(f: FactView, o: EditOptionsView, urls: Seq<Seq<char>>)
    requires
        o.attachments == Some(AttachmentUpdateView::Remove(urls)),
    ensures
        edited(f, o).attachments == f.attachments.filter(|a: AttachmentView| !urls.contains(a.url)),
        forall|i: int|
            0 <= i < f.attachments.len() && !urls.contains((#[trigger] f.attachments[i]).url)
                ==> edited(f, o).attachments.contains(f.attachments[i]),
        forall|j: int|
            0 <= j < edited(f, o).attachments.len() ==> !urls.contains((#[trigger] edited(f, o).attachments[j]).url),
        edited(f, o) == (FactView { attachments: edited(f, o).attachments, ..edited(f, EditOptionsView { attachments: None, ..o }) }),
{
    lemma_removed_attachments(f.attachments, urls);
}

/// Fact `f` with the updates of `o` applied; an empty replacement `with`
/// list removes the field.
pub open spec fn edited(f: FactView, o: EditOptionsView) -> FactView {
    FactView {
        id: f.id,
        date: match o.date {
            Some(d) => d,
            None => f.date,
        },
        category: match o.category {
            Some(c) => c,
            None => f.category,
        },
        text: match o.text {
            Some(t) => t,
            None => f.text,
        },
        with: match o.with {
            Some(WithUpdateView::Replace(w)) => if w.len() == 0 {
                None
            } else {
                Some(w)
            },
            Some(WithUpdateView::Clear) => None,
            None => f.with,
        },
        location: match o.location {
            Some(LocationUpdateView::SetTo(l)) => Some(l),
            Some(LocationUpdateView::Clear) => None,
            None => f.location,
        },
        attachments: match o.attachments {
            Some(AttachmentUpdateView::Add(a)) => f.attachments + a,
            Some(AttachmentUpdateView::Remove(urls)) => kept_attachments(f.attachments, urls),
            Some(AttachmentUpdateView::Clear) => Seq::empty(),
            None => f.attachments,
        },
    }
}

/// `ps` with fact `k` of person `p` replaced by `f`.
pub open spec fn with_fact(ps: Seq<PersonView>, p: int, k: int, f: FactView) -> Seq<PersonView> {
    ps.update(p, PersonView { facts: ps[p].facts.update(k, f), ..ps[p] })
}

fn set_fact(persons: &mut Vec<Person>, p: usize, k: usize, fact: Fact)
    requires
        p < old(persons).len(),
        k < old(persons)@[p as int].facts.len(),
    ensures
        final(persons).deep_view() == with_fact(old(persons).deep_view(), p as int, k as int, fact@),
{
    let ghost before = persons.deep_view();
    let ghost fv = fact@;
    let ghost old_facts = persons@[p as int].facts.deep_view();
    persons[p].facts[k] = fact;
    assert(persons@[p as int].facts.deep_view() =~= old_facts.update(k as int, fv));
    assert(persons.deep_view() =~= with_fact(before, p as int, k as int, fv));
}

fn keep_attachments(atts: &Vec<Attachment>, urls: &Vec<String>) -> (r: Vec<Attachment>)
    ensures
        r.deep_view() == kept_attachments(atts.deep_view(), urls.deep_view()),
{
    let mut r: Vec<Attachment> = Vec::new();
    let mut k: usize = 0;
    assert(atts.deep_view().take(0) =~= Seq::<AttachmentView>::empty());
    assert(r.deep_view() =~= Seq::<AttachmentView>::empty());
    while k < atts.len()
        invariant
            k <= atts.len(),
            r.deep_view() == kept_attachments(atts.deep_view().take(k as int), urls.deep_view()),
        decreases atts.len() - k,
    {
        let ghost before = r.deep_view();
        assert(atts.deep_view().take(k + 1).drop_last() =~= atts.deep_view().take(k as int));
        assert(atts.deep_view().take(k + 1).last() == atts@[k as int]@);
        if !crate::text::contains_str(urls, atts[k].url.as_str()) {
            let a = atts[k].clone();
            let ghost av = a@;
            r.push(a);
            assert(r.deep_view() =~= before.push(av));
        }
        k += 1;
    }
    assert(atts.deep_view().take(atts.len() as int) =~= atts.deep_view());
    r
}

/// Edit an existing fact by UUID.
///
/// Finds the fact across all persons and applies the specified updates.
/// Only fields with Some values are modified.
pub fn edit_fact(chronicle: &mut Chronicle, fact_id: &str, options: EditFactOptions) -> (r: Result<EditFactResult, FactError>)
    ensures
        match edit_error(old(chronicle)@, fact_id@, options@) {
            Some(e) => r matches Err(x) && x@ == e && final(chronicle)@ == old(chronicle)@,
            None => {
                let (p, k) = fact_position(old(chronicle)@.persons, fact_id@)->0;
                let ps = old(chronicle)@.persons;
                &&& r matches Ok(res) && res.person_id@ == ps[p].id && res.person_name@ == ps[p].name
                    && res.fact_id@ == fact_id@
                &&& final(chronicle)@ == ChronicleView {
                    persons: with_fact(ps, p, k, edited(ps[p].facts[k], options@)),
                    ..old(chronicle)@
                }
            },
        },
{
    let ghost ps = chronicle@.persons;
    let ghost o = options@;
    proof {
        lemma_fact_position(ps, fact_id@);
    }
    let (p, k) = match find_fact_by_id(chronicle, fact_id) {
        Some(x) => x,
        None => return Err(FactError::FactNotFound { id: own(fact_id) }),
    };
    if let Some(date) = &options.date {
        if let Err(source) = ChronicleDate::parse(date.as_str()) {
            return Err(FactError::InvalidDate { date: date.clone(), source });
        }
    }
    if let Some(category) = &options.category {
        if !chronicle.has_category(category.as_str()) {
            return Err(FactError::CategoryNotFound { id: category.clone(), available: category_id_list(chronicle) });
        }
    }
    if let Some(WithUpdate::Replace(w)) = &options.with {
        if let Some(j) = missing_person(chronicle, w) {
            return Err(FactError::WithPersonNotFound { id: w[j].clone(), available: person_id_list(chronicle) });
        }
    }
    if let Some(LocationUpdate::SetTo(l)) = &options.location {
        if let Err(e) = check_location(l) {
            return Err(e);
        }
    }
    if let Some(AttachmentUpdate::Add(a)) = &options.attachments {
        if let Err(e) = check_mime_types(a) {
            return Err(e);
        }
    }
    assert(edit_error(chronicle@, fact_id@, o) is None);

    let person_id = chronicle.persons[p].id.clone();
    let person_name = chronicle.persons[p].name.clone();
    assert(ps[p as int] == chronicle.persons@[p as int]@);
    let old_fact = &chronicle.persons[p].facts[k];
    assert(ps[p as int].facts[k as int] == old_fact@);
    let mut f = old_fact.clone();
    let EditFactOptions { date, category, text, with, location, attachments } = options;
    if let Some(d) = date {
        f.date = d;
    }
    if let Some(c) = category {
        f.category = c;
    }
    if let Some(t) = text {
        f.text = t;
    }
    match with {
        Some(WithUpdate::Replace(ids)) => {
            f.with = if ids.len() == 0 {
                None
            } else {
                Some(ids)
            };
        },
        Some(WithUpdate::Clear) => {
            f.with = None;
        },
        None => {},
    }
    match location {
        Some(LocationUpdate::SetTo(l)) => {
            f.location = Some(l);
        },
        Some(LocationUpdate::Clear) => {
            f.location = None;
        },
        None => {},
    }
    match attachments {
        Some(AttachmentUpdate::Add(new_attachments)) => {
            let ghost a0 = f.attachments.deep_view();
            let ghost a1 = new_attachments.deep_view();
            let mut more = new_attachments;
            f.attachments.append(&mut more);
            assert(f.attachments.deep_view() =~= a0 + a1);
        },
        Some(AttachmentUpdate::Remove(urls)) => {
            f.attachments = keep_attachments(&f.attachments, &urls);
        },
        Some(AttachmentUpdate::Clear) => {
            f.attachments = Vec::new();
            assert(f.attachments.deep_view() =~= Seq::<AttachmentView>::empty());
        },
        None => {},
    }
    assert(f@ == edited(ps[p as int].facts[k as int], o));
    set_fact(&mut chronicle.persons, p, k, f);
    Ok(EditFactResult { person_id, person_name, fact_id: own(fact_id) })
}

// ---------------------------------------------------------------------------
// Removing facts
// ---------------------------------------------------------------------------

/// Result of removing a fact.
#[derive(Debug)]
pub struct RemoveFactResult {
    /// Person ID who owned the fact
    pub person_id: String,
    /// Person's display name
    pub person_name: String,
    /// The removed fact
    pub fact: Fact,
}

/// `ps` without fact `k` of person `p`.
pub open spec fn without_fact(ps: Seq<PersonView>, p: int, k: int) -> Seq<PersonView> {
    ps.update(p, PersonView { facts: ps[p].facts.remove(k), ..ps[p] })
}

/// Remove a fact by UUID: the first fact with that UUID in document order
/// (one copy of a shared fact; the others stay).
pub fn remove_fact(chronicle: &mut Chronicle, fact_id: &str) -> (r: Result<RemoveFactResult, FactError>)
    ensures
        match fact_position(old(chronicle)@.persons, fact_id@) {
            None => r matches Err(x) && x@ == (FactErrorView::FactNotFound { id: fact_id@ })
                && final(chronicle)@ == old(chronicle)@,
            Some((p, k)) => {
                let ps = old(chronicle)@.persons;
                &&& r matches Ok(res) && res.person_id@ == ps[p].id && res.person_name@ == ps[p].name
                    && res.fact@ == ps[p].facts[k]
                &&& final(chronicle)@ == ChronicleView { persons: without_fact(ps, p, k), ..old(chronicle)@ }
            },
        },
{
    let ghost ps = chronicle@.persons;
    proof {
        lemma_fact_position(ps, fact_id@);
    }
    let (p, k) = match find_fact_by_id(chronicle, fact_id) {
        Some(x) => x,
        None => return Err(FactError::FactNotFound { id: own(fact_id) }),
    };
    let person_id = chronicle.persons[p].id.clone();
    let person_name = chronicle.persons[p].name.clone();
    assert(ps[p as int] == chronicle.persons@[p as int]@);
    let ghost old_facts = chronicle.persons@[p as int].facts.deep_view();
    let fact = chronicle.persons[p].facts.remove(k);
    proof {
        old_facts.remove_ensures(k as int);
        assert(chronicle.persons@[p as int].facts.deep_view() =~= old_facts.remove(k as int)) by {
            let nf = chronicle.persons@[p as int].facts;
            assert forall|j: int| 0 <= j < nf.deep_view().len() implies nf.deep_view()[j] == old_facts.remove(k as int)[j] by {
                if j < k {
                    assert(nf@[j] == old(chronicle).persons@[p as int].facts@[j]);
                } else {
                    assert(nf@[j] == old(chronicle).persons@[p as int].facts@[j + 1]);
                }
            }
        }
        assert(chronicle@.persons =~= without_fact(ps, p as int, k as int));
    }
    Ok(RemoveFactResult { person_id, person_name, fact })
}


/// Removing a fact whose UUID no other fact carries leaves no fact with
/// that UUID in the chronicle.
pub proof fn lemma_remove_unique_fact(ps: Seq<PersonView>, id: Seq<char>, p: int, k: int)
    requires
        fact_position(ps, id) == Some((p, k)),
        forall|q: int, j: int|
            0 <= q < ps.len() && 0 <= j < ps[q].facts.len() && #[trigger] ps[q].facts[j].id == id ==> q == p && j
                == k,
    ensures
        fact_position(without_fact(ps, p, k), id) is None,
{
    lemma_fact_position(ps, id);
    let ps2 = without_fact(ps, p, k);
    lemma_fact_position(ps2, id);
    if let Some((q, j)) = fact_position(ps2, id) {
        if q == p {
            ps[p].facts.remove_ensures(k);
            if j < k {
                assert(ps[p].facts[j].id == id);
            } else {
                assert(ps[p].facts[j + 1].id == id);
            }
        } else {
            assert(ps2[q] == ps[q]);
            assert(ps[q].facts[j].id == id);
        }
    }
}


// ---------------------------------------------------------------------------
// Timelines
// ---------------------------------------------------------------------------

/// A fact with source information for timeline display.
#[derive(Debug)]
pub struct TimelineFact<'a> {
    /// The fact
    pub fact: &'a Fact,
    /// If shared from another person, their name
    pub shared_from: Option<&'a str>,
}

impl<'a> DeepView for TimelineFact<'a> {
    type V = (FactView, Option<Seq<char>>);

    open spec fn deep_view(&self) -> (FactView, Option<Seq<char>>) {
        (
            self.fact@,
            match self.shared_from {
                Some(s) => Some(s@),
                None => None,
            },
        )
    }
}

/// Whether some fact of `own` has the date, category and text of `f`.
pub open spec fn owned_like(own: Seq<FactView>, f: FactView) -> bool {
    exists|i: int|
        0 <= i < own.len() && #[trigger] own[i].date == f.date && own[i].category == f.category
            && own[i].text == f.text
}

/// The facts of `facts` shared with person `pid` (naming it in `with`) that
/// do not repeat one of `own` and that filter `flt` accepts.
pub open spec fn shared_facts(facts: Seq<FactView>, pid: Seq<char>, flt: FilterView, own: Seq<FactView>) -> Seq<FactView>
    decreases facts.len(),
{
    if facts.len() == 0 {
        Seq::empty()
    } else {
        let prev = shared_facts(facts.drop_last(), pid, flt, own);
        let f = facts.last();
        if crate::model::fact_references(f, pid) && !owned_like(own, f) && fact_matches(flt, f) {
            prev.push(f)
        } else {
            prev
        }
    }
}

/// Timeline entries for the facts that person `q` shares with `pid`.
pub open spec fn shared_entries_fn(ps: Seq<PersonView>, pid: Seq<char>, flt: FilterView, own: Seq<FactView>) -> spec_fn(int) -> Seq<(FactView, Option<Seq<char>>)> {
    |q: int|
        if ps[q].id == pid {
            Seq::empty()
        } else {
            shared_facts(ps[q].facts, pid, flt, own).map_values(|f: FactView| (f, Some(ps[q].name)))
        }
}

/// The entries of a person's timeline before sorting: the person's own facts
/// that the filter accepts, then, if asked, the facts other persons share
/// with them, person by person.
pub open spec fn timeline_entries(c: ChronicleView, pid: Seq<char>, flt: FilterView, include_shared: bool) -> Seq<(FactView, Option<Seq<char>>)> {
    match person_index(c.persons, pid) {
        None => Seq::empty(),
        Some(i) => {
            let own = matching(flt, c.persons[i].facts);
            own.map_values(|f: FactView| (f, None::<Seq<char>>)) + if include_shared {
                concat(c.persons.len(), shared_entries_fn(c.persons, pid, flt, own))
            } else {
                Seq::empty()
            }
        },
    }
}

/// The dates of timeline entries.
pub open spec fn entry_dates(s: Seq<(FactView, Option<Seq<char>>)>) -> Seq<Seq<char>> {
    s.map_values(|e: (FactView, Option<Seq<char>>)| e.0.date)
}

fn like_owned(own: &Vec<&Fact>, f: &Fact) -> (r: bool)
    ensures
        r == owned_like(own.deep_view(), f@),
{
    let mut i: usize = 0;
    while i < own.len()
        invariant
            i <= own.len(),
            forall|j: int|
                0 <= j < i ==> !(#[trigger] own.deep_view()[j].date == f@.date && own.deep_view()[j].category
                    == f@.category && own.deep_view()[j].text == f@.text),
        decreases own.len() - i,
    {
        let g = own[i];
        assert(own.deep_view()[i as int] == g@);
        if str_eq(g.date.as_str(), f.date.as_str()) && str_eq(g.category.as_str(), f.category.as_str())
            && str_eq(g.text.as_str(), f.text.as_str()) {
            assert(own.deep_view()[i as int].date == f@.date);
            return true;
        }
        i += 1;
    }
    false
}

/// Collect facts for a person's timeline, optionally including shared facts.
///
/// Returns facts sorted by date (unparseable dates last, ties in the order
/// above).
pub fn collect_timeline_facts<'a>(
    chronicle: &'a Chronicle,
    person_id: &str,
    filter: &FactFilter,
    include_shared: bool,
) -> (r: Vec<TimelineFact<'a>>)
    ensures
        exists|p: Seq<usize>|
            stably_sorted(entry_dates(timeline_entries(chronicle@, person_id@, filter@, include_shared)), p)
                && r.deep_view() == permuted(timeline_entries(chronicle@, person_id@, filter@, include_shared), p),
        forall|i: int| 0 <= i < r.len() ==> fact_matches(filter@, #[trigger] r.deep_view()[i].0),
{
    let ghost ps = chronicle@.persons;
    let ghost entries = timeline_entries(chronicle@, person_id@, filter@, include_shared);
    let mut all: Vec<TimelineFact<'a>> = Vec::new();
    proof {
        lemma_person_index(ps, person_id@);
    }
    match chronicle.person_position(person_id) {
        None => {
            assert(all.deep_view() =~= entries);
        },
        Some(pi) => {
            let person = &chronicle.persons[pi];
            assert(ps[pi as int] == person@);
            let own = filter_facts(person, filter);
            let ghost ownv = own.deep_view();
            let mut k: usize = 0;
            assert(all.deep_view() =~= ownv.map_values(|f: FactView| (f, None::<Seq<char>>)).take(0));
            while k < own.len()
                invariant
                    k <= own.len(),
                    ownv == own.deep_view(),
                    all.deep_view() =~= ownv.map_values(|f: FactView| (f, None::<Seq<char>>)).take(k as int),
                decreases own.len() - k,
            {
                let ghost ab = all.deep_view();
                all.push(TimelineFact { fact: own[k], shared_from: None });
                assert(all.deep_view() =~= ab.push((ownv[k as int], None::<Seq<char>>)));
                k += 1;
            }
            let ghost base = all.deep_view();
            assert(base =~= ownv.map_values(|f: FactView| (f, None::<Seq<char>>)));
            if include_shared {
                let ghost g = shared_entries_fn(ps, person_id@, filter@, ownv);
                let mut q: usize = 0;
                assert(base + concat(0, g) =~= base);
                while q < chronicle.persons.len()
                    invariant
                        q <= chronicle.persons.len(),
                        ps == chronicle@.persons,
                        ownv == own.deep_view(),
                        g == shared_entries_fn(ps, person_id@, filter@, ownv),
                        all.deep_view() == base + concat(q as nat, g),
                    decreases chronicle.persons.len() - q,
                {
                    let other = &chronicle.persons[q];
                    assert(ps[q as int] == other@);
                    let ghost a0 = all.deep_view();
                    if !str_eq(other.id.as_str(), person_id) {
                        let ghost fs = other@.facts;
                        let ghost name = other@.name;
                        let mut k: usize = 0;
                        assert(fs.take(0) =~= Seq::<FactView>::empty());
                        assert(a0 =~= a0 + shared_facts(fs.take(0), person_id@, filter@, ownv).map_values(|f: FactView| (f, Some(name))));
                        while k < other.facts.len()
                            invariant
                                k <= other.facts.len(),
                                fs == other@.facts,
                                name == other@.name,
                                ownv == own.deep_view(),
                                all.deep_view() == a0 + shared_facts(fs.take(k as int), person_id@, filter@, ownv).map_values(|f: FactView| (f, Some(name))),
                            decreases other.facts.len() - k,
                        {
                            let f = &other.facts[k];
                            assert(fs[k as int] == f@);
                            assert(fs.take(k + 1).drop_last() =~= fs.take(k as int));
                            assert(fs.take(k + 1).last() == f@);
                            let ghost ab = all.deep_view();
                            let ghost prev = shared_facts(fs.take(k as int), person_id@, filter@, ownv);
                            let is_shared = match &f.with {
                                Some(w) => crate::text::contains_str(w, person_id),
                                None => false,
                            };
                            if is_shared && !like_owned(&own, f) && filter.matches(f) {
                                all.push(TimelineFact { fact: f, shared_from: Some(other.name.as_str()) });
                                assert(all.deep_view() =~= ab.push((f@, Some(name))));
                                assert(prev.push(f@).map_values(|x: FactView| (x, Some(name))) =~= prev.map_values(|x: FactView| (x, Some(name))).push((f@, Some(name))));
                            }
                            k += 1;
                        }
                        assert(fs.take(other.facts.len() as int) =~= fs);
                    } else {
                        assert(a0 =~= a0 + g(q as int));
                    }
                    assert(all.deep_view() =~= a0 + g(q as int));
                    q += 1;
                }
            } else {
                assert(base =~= base + Seq::<(FactView, Option<Seq<char>>)>::empty());
            }
            assert(all.deep_view() =~= entries);
        },
    }
    // Sort by date, stable.
    let mut keys: Vec<String> = Vec::new();
    let mut k: usize = 0;
    while k < all.len()
        invariant
            k <= all.len(),
            all.deep_view() == entries,
            keys.deep_view() =~= entry_dates(entries).take(k as int),
        decreases all.len() - k,
    {
        let ghost kb = keys.deep_view();
        assert(all.deep_view()[k as int] == all@[k as int].deep_view());
        keys.push(all[k].fact.date.clone());
        assert(keys.deep_view() =~= kb.push(entries[k as int].0.date));
        k += 1;
    }
    assert(keys.deep_view() =~= entry_dates(entries));
    let p = chronological_order(&keys);
    let mut out: Vec<TimelineFact<'a>> = Vec::new();
    let mut i: usize = 0;
    while i < p.len()
        invariant
            i <= p.len(),
            all.deep_view() == entries,
            stably_sorted(entry_dates(entries), p@),
            out.deep_view() =~= permuted(entries, p@).take(i as int),
        decreases p.len() - i,
    {
        let ghost ob = out.deep_view();
        let j = p[i];
        assert(j < entries.len());
        let e = &all[j];
        assert(all.deep_view()[j as int] == e.deep_view());
        out.push(TimelineFact { fact: e.fact, shared_from: e.shared_from });
        assert(out.deep_view() =~= ob.push(entries[j as int]));
        i += 1;
    }
    assert(out.deep_view() =~= permuted(entries, p@));
    assert(stably_sorted(entry_dates(entries), p@) && out.deep_view() == permuted(entries, p@));
    proof {
        lemma_timeline_entries_match(chronicle@, person_id@, filter@, include_shared);
        assert forall|i: int| 0 <= i < out.len() implies fact_matches(filter@, #[trigger] out.deep_view()[i].0) by {
            assert(out.deep_view()[i] == entries[p@[i] as int]);
        }
    }
    out
}

/// The facts that `matching` keeps are facts of the list that the filter
/// accepts.
pub proof fn lemma_matching_accepted(flt: FilterView, facts: Seq<FactView>)
    ensures
        forall|j: int|
            0 <= j < matching(flt, facts).len() ==> fact_matches(flt, #[trigger] matching(flt, facts)[j])
                && facts.contains(matching(flt, facts)[j]),
    decreases facts.len(),
{
    if facts.len() > 0 {
        lemma_matching_accepted(flt, facts.drop_last());
        let prev = matching(flt, facts.drop_last());
        assert forall|j: int| 0 <= j < prev.len() implies facts.contains(prev[j]) by {
            let y = choose|y: int| 0 <= y < facts.drop_last().len() && facts.drop_last()[y] == prev[j];
            assert(facts[y] == prev[j]);
        }
        assert(facts[facts.len() - 1] == facts.last());
    }
}

/// The facts shared with a person that a timeline takes are ones the filter
/// accepts, that name the person and that repeat none of the person's own.
pub proof fn lemma_shared_facts_accepted(facts: Seq<FactView>, pid: Seq<char>, flt: FilterView, own: Seq<FactView>)
    ensures
        forall|j: int|
            0 <= j < shared_facts(facts, pid, flt, own).len() ==> {
                let f = #[trigger] shared_facts(facts, pid, flt, own)[j];
                &&& fact_matches(flt, f)
                &&& crate::model::fact_references(f, pid)
                &&& !owned_like(own, f)
            },
    decreases facts.len(),
{
    if facts.len() > 0 {
        lemma_shared_facts_accepted(facts.drop_last(), pid, flt, own);
    }
}

/// Every entry of a timeline, the person's own facts and the facts others
/// share with them alike, is a fact that the timeline's filter accepts;
/// every shared entry names the person and comes from another person.
pub proof fn lemma_timeline_entries_match(c: ChronicleView, pid: Seq<char>, flt: FilterView, include_shared: bool)
    ensures
        forall|j: int|
            0 <= j < timeline_entries(c, pid, flt, include_shared).len() ==> fact_matches(
                flt,
                (#[trigger] timeline_entries(c, pid, flt, include_shared)[j]).0,
            ),
        forall|j: int|
            0 <= j < timeline_entries(c, pid, flt, include_shared).len() && (#[trigger] timeline_entries(
                c,
                pid,
                flt,
                include_shared,
            )[j]).1 is Some ==> crate::model::fact_references(timeline_entries(c, pid, flt, include_shared)[j].0, pid),
{
    let ps = c.persons;
    let pred = |e: (FactView, Option<Seq<char>>)| fact_matches(flt, e.0) && (e.1 is Some ==> crate::model::fact_references(e.0, pid));
    match person_index(ps, pid) {
        None => {},
        Some(i) => {
            lemma_person_index(ps, pid);
            let own = matching(flt, ps[i].facts);
            lemma_matching_accepted(flt, ps[i].facts);
            let a = own.map_values(|f: FactView| (f, None::<Seq<char>>));
            assert forall|j: int| 0 <= j < a.len() implies #[trigger] pred(a[j]) by {
                assert(a[j].0 == own[j]);
            }
            let b = if include_shared {
                concat(ps.len(), shared_entries_fn(ps, pid, flt, own))
            } else {
                Seq::empty()
            };
            if include_shared {
                let g = shared_entries_fn(ps, pid, flt, own);
                assert forall|q: int, j: int| 0 <= q < ps.len() && 0 <= j < g(q).len() implies #[trigger] pred(g(q)[j]) by {
                    if ps[q].id != pid {
                        lemma_shared_facts_accepted(ps[q].facts, pid, flt, own);
                        let sh = shared_facts(ps[q].facts, pid, flt, own);
                        assert(g(q)[j].0 == sh[j]);
                    }
                }
                crate::lists::lemma_concat_all(ps.len(), g, pred);
            }
            assert forall|j: int| 0 <= j < b.len() implies #[trigger] pred(b[j]) by {}
            crate::lists::lemma_all_add(a, b, pred);
            assert(timeline_entries(c, pid, flt, include_shared) == a + b);
        },
    }
}


} // verus!
