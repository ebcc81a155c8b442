//! Data model for family chronicles.
//!
//! Each type has a view (`@`) that replaces strings by their character
//! sequences and vectors by sequences of views; contracts speak of views.
use vstd::prelude::*;
use crate::decimal::{is_within, same_value, values_equal, within};
use crate::text::{own, own_opt, own_strs, str_eq};

verus! {

// ---------------------------------------------------------------------------
// Views
// ---------------------------------------------------------------------------

/// View of [`Coordinates`].
pub struct CoordinatesView {
    pub lat: Seq<char>,
    pub lon: Seq<char>,
}

/// View of [`Location`].
pub struct LocationView {
    pub country: Seq<char>,
    pub place: Option<Seq<char>>,
    pub coordinates: Option<CoordinatesView>,
}

/// View of [`Attachment`].
pub struct AttachmentView {
    pub url: Seq<char>,
    pub content_type: Option<Seq<char>>,
    pub title: Option<Seq<char>>,
}

/// View of [`Fact`].
pub struct FactView {
    pub id: Seq<char>,
    pub date: Seq<char>,
    pub category: Seq<char>,
    pub text: Seq<char>,
    pub with: Option<Seq<Seq<char>>>,
    pub location: Option<LocationView>,
    pub attachments: Seq<AttachmentView>,
}

/// View of [`Person`].
pub struct PersonView {
    pub id: Seq<char>,
    pub name: Seq<char>,
    pub facts: Seq<FactView>,
}

/// View of [`Category`].
pub struct CategoryView {
    pub id: Seq<char>,
    pub label: Seq<char>,
    pub color: Option<Seq<char>>,
}

/// View of [`Chronicle`].
#[verifier::ext_equal]
pub struct ChronicleView {
    pub version: Seq<char>,
    pub title: Option<Seq<char>>,
    pub last_updated: Option<Seq<char>>,
    pub categories: Seq<CategoryView>,
    pub persons: Seq<PersonView>,
}

// ---------------------------------------------------------------------------
// Types
// ---------------------------------------------------------------------------

/// A family chronicle containing persons and their life events.
#[derive(Debug)]
pub struct Chronicle {
    /// Schema version (e.g., "1.0")
    pub version: String,
    /// Optional title for the chronicle
    pub title: Option<String>,
    /// Last updated timestamp (ISO 8601 UTC, e.g., "2025-12-26T14:30:00Z")
    pub last_updated: Option<String>,
    /// Available categories for facts
    pub categories: Vec<Category>,
    /// Persons in the chronicle
    pub persons: Vec<Person>,
}

/// A category for classifying facts.
#[derive(Debug)]
pub struct Category {
    /// Unique identifier (e.g., "education")
    pub id: String,
    /// Display label (e.g., "Education & Job")
    pub label: String,
    /// Optional color for display (e.g., "#4A90D9")
    pub color: Option<String>,
}

/// A person in the chronicle.
#[derive(Debug)]
pub struct Person {
    /// Unique identifier (e.g., "alice")
    pub id: String,
    /// Display name (e.g., "Alice Smith")
    pub name: String,
    /// Life events for this person
    pub facts: Vec<Fact>,
}

/// A life event or fact.
#[derive(Debug)]
pub struct Fact {
    /// Unique identifier (UUID)
    pub id: String,
    /// Date in ISO 8601 format, optionally with `?` suffix for uncertainty
    /// (e.g. "1987", "1987-03", "1987-03-03", "1987?")
    pub date: String,
    /// Category ID (references `Category.id`)
    pub category: String,
    /// Description of the event
    pub text: String,
    /// Optional list of other person IDs involved in this event
    pub with: Option<Vec<String>>,
    /// Optional location where the event occurred
    pub location: Option<Location>,
    /// Attachments (photos, documents, links)
    pub attachments: Vec<Attachment>,
}

/// GPS coordinates in degrees, each written as decimal text such as
/// `"48.8566"` or `"-0.5"`.
#[derive(Debug)]
pub struct Coordinates {
    /// Latitude (-90 to 90)
    pub lat: String,
    /// Longitude (-180 to 180)
    pub lon: String,
}

/// A geographic location.
#[derive(Debug)]
pub struct Location {
    /// Country name or ISO code (required)
    pub country: String,
    /// Optional place name (city, address, landmark, venue, etc.)
    pub place: Option<String>,
    /// Optional GPS coordinates
    pub coordinates: Option<Coordinates>,
}

/// An attachment (photo, document, link).
#[derive(Debug)]
pub struct Attachment {
    /// URL to the resource (file://, https://, s3://, etc.), stored as
    /// written: a malformed URL is a validation warning, not a load failure.
    pub url: String,
    /// Optional MIME content type (e.g., "image/jpeg", "application/pdf")
    pub content_type: Option<String>,
    /// Optional human-readable title/description
    pub title: Option<String>,
}

impl View for Coordinates {
    type V = CoordinatesView;

    open spec fn view(&self) -> CoordinatesView {
        CoordinatesView { lat: self.lat@, lon: self.lon@ }
    }
}

impl DeepView for Coordinates {
    type V = CoordinatesView;

    open spec fn deep_view(&self) -> CoordinatesView {
        self@
    }
}

impl View for Location {
    type V = LocationView;

    open spec fn view(&self) -> LocationView {
        LocationView {
            country: self.country@,
            place: self.place.deep_view(),
            coordinates: self.coordinates.deep_view(),
        }
    }
}

impl DeepView for Location {
    type V = LocationView;

    open spec fn deep_view(&self) -> LocationView {
        self@
    }
}

impl View for Attachment {
    type V = AttachmentView;

    open spec fn view(&self) -> AttachmentView {
        AttachmentView {
            url: self.url@,
            content_type: self.content_type.deep_view(),
            title: self.title.deep_view(),
        }
    }
}

impl DeepView for Attachment {
    type V = AttachmentView;

    open spec fn deep_view(&self) -> AttachmentView {
        self@
    }
}

impl View for Fact {
    type V = FactView;

    open spec fn view(&self) -> FactView {
        FactView {
            id: self.id@,
            date: self.date@,
            category: self.category@,
            text: self.text@,
            with: self.with.deep_view(),
            location: self.location.deep_view(),
            attachments: self.attachments.deep_view(),
        }
    }
}

impl DeepView for Fact {
    type V = FactView;

    open spec fn deep_view(&self) -> FactView {
        self@
    }
}

impl View for Person {
    type V = PersonView;

    open spec fn view(&self) -> PersonView {
        PersonView { id: self.id@, name: self.name@, facts: self.facts.deep_view() }
    }
}

impl DeepView for Person {
    type V = PersonView;

    open spec fn deep_view(&self) -> PersonView {
        self@
    }
}

impl View for Category {
    type V = CategoryView;

    open spec fn view(&self) -> CategoryView {
        CategoryView { id: self.id@, label: self.label@, color: self.color.deep_view() }
    }
}

impl DeepView for Category {
    type V = CategoryView;

    open spec fn deep_view(&self) -> CategoryView {
        self@
    }
}

impl View for Chronicle {
    type V = ChronicleView;

    open spec fn view(&self) -> ChronicleView {
        ChronicleView {
            version: self.version@,
            title: self.title.deep_view(),
            last_updated: self.last_updated.deep_view(),
            categories: self.categories.deep_view(),
            persons: self.persons.deep_view(),
        }
    }
}

// ---------------------------------------------------------------------------
// Spec-level queries
// ---------------------------------------------------------------------------

/// Whether coordinates lie in range (lat -90..=90, lon -180..=180).
pub open spec fn coordinates_valid(c: CoordinatesView) -> bool {
    within(c.lat, 90) && within(c.lon, 180)
}

/// Whether two locations are equal, coordinates compared as numbers.
pub open spec fn same_location(a: LocationView, b: LocationView) -> bool {
    &&& a.country == b.country
    &&& a.place == b.place
    &&& match (a.coordinates, b.coordinates) {
        (None, None) => true,
        (Some(ca), Some(cb)) => same_value(ca.lat, cb.lat) && same_value(ca.lon, cb.lon),
        _ => false,
    }
}

/// Whether two optional locations are equal.
pub open spec fn same_opt_location(a: Option<LocationView>, b: Option<LocationView>) -> bool {
    match (a, b) {
        (None, None) => true,
        (Some(x), Some(y)) => same_location(x, y),
        _ => false,
    }
}

/// Index of the first person with id `id`, if any.
pub open spec fn person_index(persons: Seq<PersonView>, id: Seq<char>) -> Option<int>
    decreases persons.len(),
{
    if persons.len() == 0 {
        None
    } else {
        match person_index(persons.drop_last(), id) {
            Some(i) => Some(i),
            None => if persons.last().id == id {
                Some(persons.len() - 1)
            } else {
                None
            },
        }
    }
}

/// `person_index` finds the first person with the id, or reports that none has it.
pub proof fn lemma_person_index(persons: Seq<PersonView>, id: Seq<char>)
    ensures
        match person_index(persons, id) {
            Some(i) => 0 <= i < persons.len() && persons[i].id == id && (forall|j: int|
                0 <= j < i ==> persons[j].id != id),
            None => forall|j: int| 0 <= j < persons.len() ==> persons[j].id != id,
        },
    decreases persons.len(),
{
    if persons.len() > 0 {
        lemma_person_index(persons.drop_last(), id);
        match person_index(persons.drop_last(), id) {
            Some(i) => {
                assert forall|j: int| 0 <= j < i implies persons[j].id != id by {
                    assert(persons.drop_last()[j] == persons[j]);
                }
                assert(persons.drop_last()[i] == persons[i]);
            },
            None => {
                assert forall|j: int| 0 <= j < persons.len() - 1 implies persons[j].id != id by {
                    assert(persons.drop_last()[j] == persons[j]);
                }
            },
        }
    }
}

/// Whether some person has id `id`.
pub open spec fn has_person(persons: Seq<PersonView>, id: Seq<char>) -> bool {
    exists|i: int| 0 <= i < persons.len() && persons[i].id == id
}

/// Whether some category has id `id`.
pub open spec fn has_category(categories: Seq<CategoryView>, id: Seq<char>) -> bool {
    exists|i: int| 0 <= i < categories.len() && categories[i].id == id
}

/// The ids of a list of persons.
pub open spec fn person_ids_of(persons: Seq<PersonView>) -> Seq<Seq<char>> {
    persons.map_values(|p: PersonView| p.id)
}

/// The ids of a list of categories.
pub open spec fn category_ids_of(categories: Seq<CategoryView>) -> Seq<Seq<char>> {
    categories.map_values(|c: CategoryView| c.id)
}

/// Whether a fact's `with` list names `id`.
pub open spec fn fact_references(f: FactView, id: Seq<char>) -> bool {
    match f.with {
        Some(w) => w.contains(id),
        None => false,
    }
}

/// A fact with the given fields and nothing else.
pub open spec fn plain_fact(id: Seq<char>, date: Seq<char>, category: Seq<char>, text: Seq<char>) -> FactView {
    FactView {
        id,
        date,
        category,
        text,
        with: None,
        location: None,
        attachments: Seq::empty(),
    }
}

// ---------------------------------------------------------------------------
// Copies
// ---------------------------------------------------------------------------

impl Clone for Coordinates {
    fn clone(&self) -> (r: Self)
        ensures
            r@ == self@,
    {
        Coordinates { lat: self.lat.clone(), lon: self.lon.clone() }
    }
}

impl Clone for Location {
    fn clone(&self) -> (r: Self)
        ensures
            r@ == self@,
    {
        let coordinates = match &self.coordinates {
            Some(c) => Some(c.clone()),
            None => None,
        };
        Location { country: self.country.clone(), place: own_opt(&self.place), coordinates }
    }
}

impl Clone for Attachment {
    fn clone(&self) -> (r: Self)
        ensures
            r@ == self@,
    {
        Attachment {
            url: self.url.clone(),
            content_type: own_opt(&self.content_type),
            title: own_opt(&self.title),
        }
    }
}

/// A copy of a list of attachments.
pub fn clone_attachments(v: &Vec<Attachment>) -> (r: Vec<Attachment>)
    ensures
        r.deep_view() == v.deep_view(),
{
    let mut r: Vec<Attachment> = Vec::new();
    let mut i: usize = 0;
    while i < v.len()
        invariant
            i <= v.len(),
            r.len() == i,
            forall|j: int| 0 <= j < i ==> r@[j]@ == v@[j]@,
        decreases v.len() - i,
    {
        r.push(v[i].clone());
        i += 1;
    }
    assert(r.deep_view() =~= v.deep_view());
    r
}

impl Clone for Fact {
    fn clone(&self) -> (r: Self)
        ensures
            r@ == self@,
    {
        let with = match &self.with {
            Some(w) => Some(own_strs(w)),
            None => None,
        };
        let location = match &self.location {
            Some(l) => Some(l.clone()),
            None => None,
        };
        Fact {
            id: self.id.clone(),
            date: self.date.clone(),
            category: self.category.clone(),
            text: self.text.clone(),
            with,
            location,
            attachments: clone_attachments(&self.attachments),
        }
    }
}

/// A copy of a list of facts.
pub fn clone_facts(v: &Vec<Fact>) -> (r: Vec<Fact>)
    ensures
        r.deep_view() == v.deep_view(),
{
    let mut r: Vec<Fact> = Vec::new();
    let mut i: usize = 0;
    while i < v.len()
        invariant
            i <= v.len(),
            r.len() == i,
            forall|j: int| 0 <= j < i ==> r@[j]@ == v@[j]@,
        decreases v.len() - i,
    {
        r.push(v[i].clone());
        i += 1;
    }
    assert(r.deep_view() =~= v.deep_view());
    r
}

impl Clone for Person {
    fn clone(&self) -> (r: Self)
        ensures
            r@ == self@,
    {
        Person { id: self.id.clone(), name: self.name.clone(), facts: clone_facts(&self.facts) }
    }
}

impl Clone for Category {
    fn clone(&self) -> (r: Self)
        ensures
            r@ == self@,
    {
        Category { id: self.id.clone(), label: self.label.clone(), color: own_opt(&self.color) }
    }
}

/// A copy of a list of persons.
pub fn clone_persons(v: &Vec<Person>) -> (r: Vec<Person>)
    ensures
        r.deep_view() == v.deep_view(),
{
    let mut r: Vec<Person> = Vec::new();
    let mut i: usize = 0;
    while i < v.len()
        invariant
            i <= v.len(),
            r.len() == i,
            forall|j: int| 0 <= j < i ==> r@[j]@ == v@[j]@,
        decreases v.len() - i,
    {
        r.push(v[i].clone());
        i += 1;
    }
    assert(r.deep_view() =~= v.deep_view());
    r
}

/// A copy of a list of categories.
pub fn clone_categories(v: &Vec<Category>) -> (r: Vec<Category>)
    ensures
        r.deep_view() == v.deep_view(),
{
    let mut r: Vec<Category> = Vec::new();
    let mut i: usize = 0;
    while i < v.len()
        invariant
            i <= v.len(),
            r.len() == i,
            forall|j: int| 0 <= j < i ==> r@[j]@ == v@[j]@,
        decreases v.len() - i,
    {
        r.push(v[i].clone());
        i += 1;
    }
    assert(r.deep_view() =~= v.deep_view());
    r
}

impl Clone for Chronicle {
    fn clone(&self) -> (r: Self)
        ensures
            r@ == self@,
    {
        Chronicle {
            version: self.version.clone(),
            title: own_opt(&self.title),
            last_updated: own_opt(&self.last_updated),
            categories: clone_categories(&self.categories),
            persons: clone_persons(&self.persons),
        }
    }
}

// ---------------------------------------------------------------------------
// Constructors, builders and lookups
// ---------------------------------------------------------------------------

impl Chronicle {
    /// Create a new empty chronicle with the given version.
    pub fn new(version: &str) -> (r: Self)
        ensures
            r@ == (ChronicleView {
                version: version@,
                title: None,
                last_updated: None,
                categories: Seq::empty(),
                persons: Seq::empty(),
            }),
    {
        let r = Chronicle {
            version: own(version),
            title: None,
            last_updated: None,
            categories: Vec::new(),
            persons: Vec::new(),
        };
        assert(r.categories.deep_view() =~= Seq::<CategoryView>::empty());
        assert(r.persons.deep_view() =~= Seq::<PersonView>::empty());
        r
    }

    /// Find a person by ID: the first person with that ID.
    pub fn find_person(&self, id: &str) -> (r: Option<&Person>)
        ensures
            match person_index(self@.persons, id@) {
                Some(i) => r matches Some(p) && p@ == self@.persons[i],
                None => r is None,
            },
    {
        proof {
            lemma_person_index(self@.persons, id@);
        }
        match self.person_position(id) {
            Some(i) => {
                assert(self@.persons[i as int] == self.persons@[i as int]@);
                assert(person_index(self@.persons, id@) == Some(i as int));
                let p = &self.persons[i];
                assert(p@ == self@.persons[i as int]);
                Some(p)
            },
            None => None,
        }
    }

    /// Position of the first person with ID `id`.
    pub fn person_position(&self, id: &str) -> (r: Option<usize>)
        ensures
            match person_index(self@.persons, id@) {
                Some(i) => r matches Some(j) && j as int == i,
                None => r is None,
            },
    {
        let mut i: usize = 0;
        while i < self.persons.len()
            invariant
                i <= self.persons.len(),
                forall|j: int| 0 <= j < i ==> self@.persons[j].id != id@,
            decreases self.persons.len() - i,
        {
            if str_eq(self.persons[i].id.as_str(), id) {
                proof {
                    lemma_person_index(self@.persons, id@);
                    assert(self@.persons[i as int].id == id@);
                }
                return Some(i);
            }
            i += 1;
        }
        proof {
            lemma_person_index(self@.persons, id@);
        }
        None
    }

    /// Find a person by ID for modification: the first person with that ID.
    pub fn find_person_mut(&mut self, id: &str) -> (r: Option<&mut Person>)
        ensures
            match person_index(old(self)@.persons, id@) {
                Some(i) => r matches Some(p) && p@ == old(self)@.persons[i] && final(self)@ =~= (ChronicleView {
                    persons: old(self)@.persons.update(i, final(p)@),
                    ..old(self)@
                }),
                None => r is None && final(self)@ == old(self)@,
            },
    {
        proof {
            lemma_person_index(self@.persons, id@);
        }
        match self.person_position(id) {
            Some(i) => {
                assert(self@.persons[i as int] == self.persons@[i as int]@);
                Some(&mut self.persons[i])
            },
            None => None,
        }
    }

    /// Find a category by ID: the first category with that ID.
    pub fn find_category(&self, id: &str) -> (r: Option<&Category>)
        ensures
            has_category(self@.categories, id@) <==> r is Some,
            r matches Some(c) ==> c@.id == id@ && exists|i: int|
                0 <= i < self@.categories.len() && c@ == #[trigger] self@.categories[i] && (forall|j: int|
                    0 <= j < i ==> self@.categories[j].id != id@),
    {
        let mut i: usize = 0;
        while i < self.categories.len()
            invariant
                i <= self.categories.len(),
                forall|j: int| 0 <= j < i ==> self@.categories[j].id != id@,
            decreases self.categories.len() - i,
        {
            if str_eq(self.categories[i].id.as_str(), id) {
                assert(self@.categories[i as int] == self.categories@[i as int]@);
                return Some(&self.categories[i]);
            }
            i += 1;
        }
        None
    }

    /// Whether a category with ID `id` exists.
    pub fn has_category(&self, id: &str) -> (r: bool)
        ensures
            r == has_category(self@.categories, id@),
    {
        self.find_category(id).is_some()
    }
}

impl Person {
    /// Create a new person with no facts.
    pub fn new(id: &str, name: &str) -> (r: Self)
        ensures
            r@ == (PersonView { id: id@, name: name@, facts: Seq::empty() }),
    {
        let r = Person { id: own(id), name: own(name), facts: Vec::new() };
        assert(r.facts.deep_view() =~= Seq::<FactView>::empty());
        r
    }
}

impl Fact {
    /// Create a new fact.
    pub fn new(id: &str, date: &str, category: &str, text: &str) -> (r: Self)
        ensures
            r@ == plain_fact(id@, date@, category@, text@),
    {
        let r = Fact {
            id: own(id),
            date: own(date),
            category: own(category),
            text: own(text),
            with: None,
            location: None,
            attachments: Vec::new(),
        };
        assert(r.attachments.deep_view() =~= Seq::<AttachmentView>::empty());
        r
    }

    /// Add persons involved in this event.
    pub fn with_persons(self, persons: Vec<String>) -> (r: Self)
        ensures
            r@ == (FactView { with: Some(persons.deep_view()), ..self@ }),
    {
        Fact { with: Some(persons), ..self }
    }

    /// Set the location for this event.
    pub fn with_location(self, location: Location) -> (r: Self)
        ensures
            r@ == (FactView { location: Some(location@), ..self@ }),
    {
        Fact { location: Some(location), ..self }
    }

    /// Add an attachment to this event.
    pub fn with_attachment(self, attachment: Attachment) -> (r: Self)
        ensures
            r@ == (FactView { attachments: self@.attachments.push(attachment@), ..self@ }),
    {
        let mut s = self;
        let ghost before = s.attachments.deep_view();
        let ghost av = attachment@;
        s.attachments.push(attachment);
        assert(s.attachments.deep_view() =~= before.push(av));
        s
    }

    /// Add multiple attachments to this event.
    pub fn with_attachments(self, attachments: Vec<Attachment>) -> (r: Self)
        ensures
            r@ == (FactView { attachments: self@.attachments + attachments.deep_view(), ..self@ }),
    {
        let mut s = self;
        let mut more = attachments;
        let ghost before = s.attachments.deep_view();
        let ghost added = more.deep_view();
        s.attachments.append(&mut more);
        assert(s.attachments.deep_view() =~= before + added);
        s
    }
}

impl Coordinates {
    /// Create new GPS coordinates from decimal text.
    pub fn new(lat: &str, lon: &str) -> (r: Self)
        ensures
            r@ == (CoordinatesView { lat: lat@, lon: lon@ }),
    {
        Coordinates { lat: own(lat), lon: own(lon) }
    }

    /// Check if coordinates are valid (lat: -90..90, lon: -180..180).
    pub fn is_valid(&self) -> (r: bool)
        ensures
            r == coordinates_valid(self@),
    {
        is_within(self.lat.as_str(), 90) && is_within(self.lon.as_str(), 180)
    }
}

/// Whether two optional locations are equal, coordinates compared as numbers.
pub fn locations_equal(a: &Option<Location>, b: &Option<Location>) -> (r: bool)
    ensures
        r == same_opt_location(a.deep_view(), b.deep_view()),
{
    match (a, b) {
        (None, None) => true,
        (Some(x), Some(y)) => {
            let same_place = match (&x.place, &y.place) {
                (None, None) => true,
                (Some(p), Some(q)) => str_eq(p.as_str(), q.as_str()),
                _ => false,
            };
            let same_coords = match (&x.coordinates, &y.coordinates) {
                (None, None) => true,
                (Some(c), Some(d)) => values_equal(c.lat.as_str(), d.lat.as_str()) && values_equal(
                    c.lon.as_str(),
                    d.lon.as_str(),
                ),
                _ => false,
            };
            str_eq(x.country.as_str(), y.country.as_str()) && same_place && same_coords
        },
        _ => false,
    }
}

impl Location {
    /// Create a new location with just a country.
    pub fn new(country: &str) -> (r: Self)
        ensures
            r@ == (LocationView { country: country@, place: None, coordinates: None }),
    {
        Location { country: own(country), place: None, coordinates: None }
    }

    /// Set the place name (city, address, landmark, etc.).
    pub fn with_place(self, place: &str) -> (r: Self)
        ensures
            r@ == (LocationView { place: Some(place@), ..self@ }),
    {
        Location { place: Some(own(place)), ..self }
    }

    /// Set GPS coordinates.
    pub fn with_coordinates(self, coordinates: Coordinates) -> (r: Self)
        ensures
            r@ == (LocationView { coordinates: Some(coordinates@), ..self@ }),
    {
        Location { coordinates: Some(coordinates), ..self }
    }
}

impl Attachment {
    /// Create a new attachment with just a URL. The URL is not checked here;
    /// `build_attachments` and `validate_chronicle` check its format.
    pub fn new(url: &str) -> (r: Self)
        ensures
            r@ == (AttachmentView { url: url@, content_type: None, title: None }),
    {
        Attachment { url: own(url), content_type: None, title: None }
    }

    /// Set the MIME content type.
    pub fn with_content_type(self, content_type: &str) -> (r: Self)
        ensures
            r@ == (AttachmentView { content_type: Some(content_type@), ..self@ }),
    {
        Attachment { content_type: Some(own(content_type)), ..self }
    }

    /// Set the title/description.
    pub fn with_title(self, title: &str) -> (r: Self)
        ensures
            r@ == (AttachmentView { title: Some(title@), ..self@ }),
    {
        Attachment { title: Some(own(title)), ..self }
    }
}

impl Category {
    /// Create a new category.
    pub fn new(id: &str, label: &str) -> (r: Self)
        ensures
            r@ == (CategoryView { id: id@, label: label@, color: None }),
    {
        Category { id: own(id), label: own(label), color: None }
    }

    /// Set the display color.
    pub fn with_color(self, color: &str) -> (r: Self)
        ensures
            r@ == (CategoryView { color: Some(color@), ..self@ }),
    {
        Category { color: Some(own(color)), ..self }
    }
}


/// Append `fact` to the facts of person `i`.
pub fn push_fact(persons: &mut Vec<Person>, i: usize, fact: Fact)
    requires
        i < old(persons).len(),
    ensures
        final(persons).deep_view() == old(persons).deep_view().update(
            i as int,
            PersonView { facts: old(persons).deep_view()[i as int].facts.push(fact@), ..old(persons).deep_view()[i as int] },
        ),
{
    let ghost before = persons.deep_view();
    let ghost fv = fact@;
    let ghost old_facts = persons@[i as int].facts.deep_view();
    persons[i].facts.push(fact);
    assert(persons@[i as int].facts.deep_view() =~= old_facts.push(fv));
    assert(persons.deep_view() =~= before.update(
        i as int,
        PersonView { facts: before[i as int].facts.push(fv), ..before[i as int] },
    ));
}

} // verus!
