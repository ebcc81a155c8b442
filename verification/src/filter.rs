//! Search and filter functionality for chronicles.
use vstd::prelude::*;
use crate::date::{parse_date, parsed_year, ChronicleDate};
use crate::lists::concat;
use crate::model::{Chronicle, Fact, FactView, Person, PersonView};
use crate::sort::{chronological_order, date_sorted, fact_dates, permuted, stably_sorted};
use crate::text::{chars_of, contains_seq, occurs_at, own, spec_to_lowercase, to_lowercase, vec_contains_seq};

verus! {

// ---------------------------------------------------------------------------
// Regular expressions
// ---------------------------------------------------------------------------

/// Declares `regex::Error`, the error of compiling a pattern.
#[verifier::external_type_specification]
#[verifier::external_body]
pub struct ExRegexError(regex::Error);

/// Whether `regex::Regex::new` compiles `pattern` (a function of the pattern
/// text, with the crate's default size limits).
pub uninterp spec fn spec_regex_valid(pattern: Seq<char>) -> bool;

/// Whether the regular expression compiled from `pattern` matches somewhere
/// in `text` (`Regex::is_match`).
pub uninterp spec fn spec_regex_match(pattern: Seq<char>, text: Seq<char>) -> bool;

/// Calls `regex::Regex::new` and keeps only whether it succeeded, with the
/// crate's error when it did not.
#[verifier::external_body]
fn regex_compiles(pattern: &str) -> (r: Result<(), regex::Error>)
    ensures
        r is Ok <==> spec_regex_valid(pattern@),
{
    match regex::Regex::new(pattern) {
        Ok(_) => Ok(()),
        Err(e) => Err(e),
    }
}

/// Compiles `pattern` with `regex::Regex::new` and calls `Regex::is_match`
/// on `text`; a pattern that does not compile matches nothing.
#[verifier::external_body]
fn regex_is_match(pattern: &str, text: &str) -> (r: bool)
    ensures
        spec_regex_valid(pattern@) ==> r == spec_regex_match(pattern@, text@),
        !spec_regex_valid(pattern@) ==> !r,
{
    match regex::Regex::new(pattern) {
        Ok(re) => re.is_match(text),
        Err(_) => false,
    }
}

// ---------------------------------------------------------------------------
// Filters
// ---------------------------------------------------------------------------

/// Text matching mode for a filter.
#[derive(Debug)]
enum TextFilter {
    /// Case-insensitive substring match (stored lowercased)
    Substring(String),
    /// Case-insensitive regular expression (the full pattern, with `(?i)`)
    Pattern(String),
}

/// View of a filter's text mode.
pub enum TextFilterView {
    Substring(Seq<char>),
    Pattern(Seq<char>),
}

impl TextFilter {
    fn copy(&self) -> (r: Self)
        ensures
            r.view_text() == self.view_text(),
    {
        match self {
            TextFilter::Substring(s) => TextFilter::Substring(s.clone()),
            TextFilter::Pattern(s) => TextFilter::Pattern(s.clone()),
        }
    }

    spec fn view_text(&self) -> TextFilterView {
        match self {
            TextFilter::Substring(s) => TextFilterView::Substring(s@),
            TextFilter::Pattern(s) => TextFilterView::Pattern(s@),
        }
    }
}

/// A filter for querying facts.
#[derive(Debug)]
pub struct FactFilter {
    /// Filter by category ID
    pub category: Option<String>,
    /// Filter by minimum year (inclusive)
    pub from_year: Option<u16>,
    /// Filter by maximum year (inclusive)
    pub to_year: Option<u16>,
    /// Text filter (substring or regular expression)
    text: Option<TextFilter>,
}

/// View of a [`FactFilter`].
pub struct FilterView {
    pub category: Option<Seq<char>>,
    pub from_year: Option<u16>,
    pub to_year: Option<u16>,
    pub text: Option<TextFilterView>,
}

impl View for FactFilter {
    type V = FilterView;

    closed spec fn view(&self) -> FilterView {
        FilterView {
            category: self.category.deep_view(),
            from_year: self.from_year,
            to_year: self.to_year,
            text: match &self.text {
                Some(t) => Some(t.view_text()),
                None => None,
            },
        }
    }
}

impl Clone for FactFilter {
    fn clone(&self) -> (r: Self)
        ensures
            r@ == self@,
    {
        let text = match &self.text {
            Some(t) => Some(t.copy()),
            None => None,
        };
        FactFilter {
            category: crate::text::own_opt(&self.category),
            from_year: self.from_year,
            to_year: self.to_year,
            text,
        }
    }
}

impl Default for FactFilter {
    fn default() -> (r: Self)
        ensures
            r@ == (FilterView { category: None, from_year: None, to_year: None, text: None }),
    {
        FactFilter { category: None, from_year: None, to_year: None, text: None }
    }
}

/// The text a filter searches in: the fact's text, then the location's
/// country and place, then attachment titles, each joined by a space.
pub open spec fn searchable_text(f: FactView) -> Seq<char> {
    f.text + match f.location {
        Some(l) => " "@ + l.country + match l.place {
            Some(p) => " "@ + p,
            None => Seq::empty(),
        },
        None => Seq::empty(),
    } + concat(f.attachments.len(), title_pieces(f))
}

/// The title of attachment `k` of `f` with a leading space, if it has one.
pub open spec fn title_pieces(f: FactView) -> spec_fn(int) -> Seq<char> {
    |k: int|
        match f.attachments[k].title {
            Some(t) => " "@ + t,
            None => Seq::empty(),
        }
}

/// Whether filter `flt` accepts fact `f`: the category, if set, is the
/// fact's; with a year bound set, the date parses and its year is within the
/// bounds; the text, if set, occurs (case-insensitively) in the searchable
/// text, or the pattern matches it.
pub open spec fn fact_matches(flt: FilterView, f: FactView) -> bool {
    &&& (flt.category matches Some(c) ==> f.category == c)
    &&& ((flt.from_year is Some || flt.to_year is Some) ==> match parsed_year(f.date) {
        Some(y) => (flt.from_year matches Some(from) ==> y >= from) && (flt.to_year matches Some(
            to,
        ) ==> y <= to),
        None => false,
    })
    &&& match flt.text {
        Some(TextFilterView::Substring(needle)) => contains_seq(
            spec_to_lowercase(searchable_text(f)),
            needle,
        ),
        Some(TextFilterView::Pattern(p)) => spec_regex_valid(p) && spec_regex_match(
            p,
            searchable_text(f),
        ),
        None => true,
    }
}

fn searchable(fact: &Fact) -> (r: String)
    ensures
        r@ == searchable_text(fact@),
{
    let mut combined = fact.text.clone();
    if let Some(loc) = &fact.location {
        combined.append(" ");
        combined.append(loc.country.as_str());
        if let Some(place) = &loc.place {
            combined.append(" ");
            combined.append(place.as_str());
        }
    }
    let ghost head = combined@;
    assert(head == fact@.text + match fact@.location {
        Some(l) => " "@ + l.country + match l.place {
            Some(p) => " "@ + p,
            None => Seq::empty(),
        },
        None => Seq::<char>::empty(),
    });
    let ghost g = title_pieces(fact@);
    let mut k: usize = 0;
    assert(head + concat(0, g) =~= head);
    while k < fact.attachments.len()
        invariant
            k <= fact.attachments.len(),
            g == title_pieces(fact@),
            combined@ == head + concat(k as nat, g),
        decreases fact.attachments.len() - k,
    {
        let a = &fact.attachments[k];
        assert(fact@.attachments[k as int] == a@);
        let ghost before = combined@;
        if let Some(title) = &a.title {
            combined.append(" ");
            combined.append(title.as_str());
        }
        assert(combined@ =~= before + g(k as int));
        k += 1;
    }
    combined
}

/// The searchable text of a fact holds, whole and in order, the fact's text
/// (at the start), the location's country and place (each after a space),
/// and every attachment title; with no location and no titled attachment it
/// is the fact's text alone.
pub proof fn lemma_searchable_holds_fields(f: FactView)
    ensures
        searchable_text(f).len() >= f.text.len(),
        searchable_text(f).subrange(0, f.text.len() as int) == f.text,
        f.location matches Some(l) ==> occurs_at(searchable_text(f), l.country, f.text.len() + 1int)
            && contains_seq(searchable_text(f), l.country),
        f.location matches Some(l) ==> (l.place matches Some(p) ==> occurs_at(
            searchable_text(f),
            p,
            f.text.len() + l.country.len() + 2int,
        ) && contains_seq(searchable_text(f), p)),
        forall|k: int|
            0 <= k < f.attachments.len() ==> ((#[trigger] f.attachments[k]).title matches Some(t) ==> contains_seq(
                searchable_text(f),
                t,
            )),
        (f.location is None && forall|k: int| 0 <= k < f.attachments.len() ==> (#[trigger] f.attachments[k]).title
            is None) ==> searchable_text(f) == f.text,
{
    reveal_strlit(" ");
    let g = title_pieces(f);
    let n = f.attachments.len();
    let loc: Seq<char> = match f.location {
        Some(l) => " "@ + l.country + match l.place {
            Some(p) => " "@ + p,
            None => Seq::empty(),
        },
        None => Seq::empty(),
    };
    let head = f.text + loc;
    let st = searchable_text(f);
    assert(st == head + concat(n, g));
    assert(st.subrange(0, f.text.len() as int) =~= f.text);
    if let Some(l) = f.location {
        let a: int = f.text.len() + 1int;
        let ae: int = a + l.country.len();
        assert(st.subrange(a, ae) =~= l.country);
        assert(occurs_at(st, l.country, a));
        if let Some(p) = l.place {
            let b: int = f.text.len() + l.country.len() + 2int;
            let be: int = b + p.len();
            assert(st.subrange(b, be) =~= p);
            assert(occurs_at(st, p, b));
        }
    }
    assert forall|k: int|
        0 <= k < f.attachments.len() implies ((#[trigger] f.attachments[k]).title matches Some(t) ==> contains_seq(
        st,
        t,
    )) by {
        if let Some(t) = f.attachments[k].title {
            crate::lists::lemma_concat_piece(n, g, k);
            assert(g(k) == " "@ + t);
            let tl: int = t.len() as int;
            let ck: int = concat(k as nat, g).len() as int;
            let at: int = head.len() + ck + 1;
            let whole = concat(n, g);
            assert(g(k).len() == 1 + tl);
            assert(st.subrange(at, at + tl) =~= whole.subrange(ck + 1, ck + 1 + tl));
            assert(whole.subrange(ck + 1, ck + 1 + tl) =~= g(k).subrange(1, 1 + tl));
            assert(g(k).subrange(1, 1 + tl) =~= t);
            assert(occurs_at(st, t, at));
        }
    }
    if f.location is None && forall|k: int| 0 <= k < f.attachments.len() ==> (#[trigger] f.attachments[k]).title
        is None {
        assert forall|k: int| 0 <= k < n implies #[trigger] g(k).len() == 0 by {
            assert(f.attachments[k].title is None);
        }
        crate::lists::lemma_concat_empty(n, g);
        assert(st =~= f.text);
    }
}

impl FactFilter {
    /// Create a new empty filter.
    pub fn new() -> (r: Self)
        ensures
            r@ == (FilterView { category: None, from_year: None, to_year: None, text: None }),
    {
        FactFilter { category: None, from_year: None, to_year: None, text: None }
    }

    /// Filter by category.
    pub fn with_category(self, category: &str) -> (r: Self)
        ensures
            r@ == (FilterView { category: Some(category@), ..self@ }),
    {
        FactFilter { category: Some(own(category)), ..self }
    }

    /// Filter by minimum year.
    pub fn from_year(self, year: u16) -> (r: Self)
        ensures
            r@ == (FilterView { from_year: Some(year), ..self@ }),
    {
        FactFilter { from_year: Some(year), ..self }
    }

    /// Filter by maximum year.
    pub fn to_year(self, year: u16) -> (r: Self)
        ensures
            r@ == (FilterView { to_year: Some(year), ..self@ }),
    {
        FactFilter { to_year: Some(year), ..self }
    }

    /// Filter by text content (case-insensitive substring match).
    pub fn with_text(self, text: &str) -> (r: Self)
        ensures
            r@ == (FilterView { text: Some(TextFilterView::Substring(spec_to_lowercase(text@))), ..self@ }),
    {
        FactFilter { text: Some(TextFilter::Substring(to_lowercase(text))), ..self }
    }

    /// Filter by a regex pattern (case-insensitive).
    ///
    /// The pattern is checked here; an invalid pattern is an error instead
    /// of silently matching nothing.
    pub fn with_regex_text(self, pattern: &str) -> (r: Result<Self, regex::Error>)
        ensures
            spec_regex_valid("(?i)"@ + pattern@) <==> r is Ok,
            r matches Ok(f) ==> f@ == (FilterView {
                text: Some(TextFilterView::Pattern("(?i)"@ + pattern@)),
                ..self@
            }),
    {
        let mut full = String::from_str("(?i)");
        full.append(pattern);
        match regex_compiles(full.as_str()) {
            Ok(()) => Ok(FactFilter { text: Some(TextFilter::Pattern(full)), ..self }),
            Err(e) => Err(e),
        }
    }

    /// Check if a fact matches this filter.
    pub fn matches(&self, fact: &Fact) -> (r: bool)
        ensures
            r == fact_matches(self@, fact@),
    {
        if let Some(cat) = &self.category {
            if !crate::text::str_eq(fact.category.as_str(), cat.as_str()) {
                return false;
            }
        }
        if self.from_year.is_some() || self.to_year.is_some() {
            let year = match ChronicleDate::parse(fact.date.as_str()) {
                Ok(d) => d.year,
                Err(_) => None,
            };
            match year {
                Some(y) => {
                    if let Some(from) = self.from_year {
                        if y < from {
                            return false;
                        }
                    }
                    if let Some(to) = self.to_year {
                        if y > to {
                            return false;
                        }
                    }
                },
                None => return false,
            }
        }
        match &self.text {
            Some(TextFilter::Substring(needle)) => {
                let combined = searchable(fact);
                let lower = to_lowercase(combined.as_str());
                let hay = chars_of(lower.as_str());
                let nv = chars_of(needle.as_str());
                vec_contains_seq(&hay, &nv)
            },
            Some(TextFilter::Pattern(p)) => {
                let combined = searchable(fact);
                regex_is_match(p.as_str(), combined.as_str())
            },
            None => true,
        }
    }
}


// ---------------------------------------------------------------------------
// Filtering, searching and sorting
// ---------------------------------------------------------------------------

/// The facts of `facts` that filter `flt` accepts, in order.
pub open spec fn matching(flt: FilterView, facts: Seq<FactView>) -> Seq<FactView>
    decreases facts.len(),
{
    if facts.len() == 0 {
        Seq::empty()
    } else if fact_matches(flt, facts.last()) {
        matching(flt, facts.drop_last()).push(facts.last())
    } else {
        matching(flt, facts.drop_last())
    }
}

/// Filter facts for a specific person.
pub fn filter_facts<'a>(person: &'a Person, filter: &FactFilter) -> (r: Vec<&'a Fact>)
    ensures
        r.deep_view() == matching(filter@, person@.facts),
{
    let ghost fs = person@.facts;
    let mut r: Vec<&'a Fact> = Vec::new();
    let mut k: usize = 0;
    assert(fs.take(0) =~= Seq::<FactView>::empty());
    assert(r.deep_view() =~= Seq::<FactView>::empty());
    while k < person.facts.len()
        invariant
            k <= person.facts.len(),
            fs == person@.facts,
            r.deep_view() == matching(filter@, fs.take(k as int)),
        decreases person.facts.len() - k,
    {
        let f = &person.facts[k];
        assert(fs[k as int] == f@);
        assert(fs.take(k + 1).drop_last() =~= fs.take(k as int));
        assert(fs.take(k + 1).last() == f@);
        let ghost before = r.deep_view();
        if filter.matches(f) {
            r.push(f);
            assert(r.deep_view() =~= before.push(f@));
        }
        k += 1;
    }
    assert(fs.take(person.facts.len() as int) =~= fs);
    r
}

/// Sort facts by date. Facts with unparseable dates sort last; facts with
/// equal dates keep their order.
pub fn sort_facts_by_date(facts: &mut Vec<&Fact>)
    ensures
        date_sorted(old(facts).deep_view(), final(facts).deep_view()),
{
    let ghost before = facts.deep_view();
    let mut keys: Vec<String> = Vec::new();
    let mut k: usize = 0;
    while k < facts.len()
        invariant
            k <= facts.len(),
            before == facts.deep_view(),
            keys.deep_view() =~= fact_dates(before).take(k as int),
        decreases facts.len() - k,
    {
        let ghost kb = keys.deep_view();
        keys.push(facts[k].date.clone());
        assert(keys.deep_view() =~= kb.push(before[k as int].date));
        k += 1;
    }
    assert(keys.deep_view() =~= fact_dates(before));
    let p = chronological_order(&keys);
    let mut out: Vec<&Fact> = Vec::new();
    let mut i: usize = 0;
    while i < p.len()
        invariant
            i <= p.len(),
            before == facts.deep_view(),
            stably_sorted(fact_dates(before), p@),
            out.deep_view() =~= permuted(before, p@).take(i as int),
        decreases p.len() - i,
    {
        let ghost ob = out.deep_view();
        let j = p[i];
        assert(j < before.len());
        out.push(facts[j]);
        assert(out.deep_view() =~= ob.push(before[j as int]));
        i += 1;
    }
    assert(out.deep_view() =~= permuted(before, p@));
    *facts = out;
    assert(stably_sorted(fact_dates(before), p@) && facts.deep_view() == permuted(before, p@));
}

/// Result of a search across the chronicle.
#[derive(Debug)]
pub struct SearchResult<'a> {
    /// The person this fact belongs to
    pub person: &'a Person,
    /// The matching fact
    pub fact: &'a Fact,
}

impl<'a> DeepView for SearchResult<'a> {
    type V = (PersonView, FactView);

    open spec fn deep_view(&self) -> (PersonView, FactView) {
        (self.person@, self.fact@)
    }
}

/// Each fact of `block` paired with person `p`.
pub open spec fn paired(p: PersonView, block: Seq<FactView>) -> Seq<(PersonView, FactView)> {
    block.map_values(|f: FactView| (p, f))
}

pub open spec fn paired_fn(ps: Seq<PersonView>, blocks: Seq<Seq<FactView>>) -> spec_fn(int) -> Seq<(PersonView, FactView)> {
    |q: int| paired(ps[q], blocks[q])
}

/// Whether `r` lists, person by person in document order, the facts of that
/// person that `flt` accepts, sorted by date, as `blocks` gives them.
pub open spec fn search_blocks(
    ps: Seq<PersonView>,
    flt: FilterView,
    blocks: Seq<Seq<FactView>>,
    r: Seq<(PersonView, FactView)>,
) -> bool {
    &&& blocks.len() == ps.len()
    &&& forall|q: int| 0 <= q < ps.len() ==> date_sorted(matching(flt, ps[q].facts), #[trigger] blocks[q])
    &&& r == concat(ps.len(), paired_fn(ps, blocks))
}

/// Search for facts across all persons in the chronicle.
///
/// Results are grouped by person (chronicle document order) and sorted
/// chronologically within each person; facts with unparseable dates sort
/// last within their group.
pub fn search<'a>(chronicle: &'a Chronicle, filter: &FactFilter) -> (r: Vec<SearchResult<'a>>)
    ensures
        exists|blocks: Seq<Seq<FactView>>| search_blocks(chronicle@.persons, filter@, blocks, r.deep_view()),
{
    let ghost ps = chronicle@.persons;
    let ghost mut blocks: Seq<Seq<FactView>> = Seq::empty();
    let mut results: Vec<SearchResult<'a>> = Vec::new();
    let mut q: usize = 0;
    assert(results.deep_view() =~= Seq::<(PersonView, FactView)>::empty());
    while q < chronicle.persons.len()
        invariant
            q <= chronicle.persons.len(),
            ps == chronicle@.persons,
            blocks.len() == q,
            forall|x: int| 0 <= x < q ==> date_sorted(matching(filter@, ps[x].facts), #[trigger] blocks[x]),
            results.deep_view() == concat(q as nat, paired_fn(ps, blocks)),
        decreases chronicle.persons.len() - q,
    {
        let person = &chronicle.persons[q];
        assert(ps[q as int] == person@);
        let mut matches = filter_facts(person, filter);
        sort_facts_by_date(&mut matches);
        let ghost block = matches.deep_view();
        let ghost r0 = results.deep_view();
        let mut i: usize = 0;
        while i < matches.len()
            invariant
                i <= matches.len(),
                block == matches.deep_view(),
                results.deep_view() == r0 + paired(person@, block).take(i as int),
            decreases matches.len() - i,
        {
            let ghost rb = results.deep_view();
            results.push(SearchResult { person, fact: matches[i] });
            assert(results.deep_view() =~= rb.push((person@, block[i as int])));
            assert(paired(person@, block).take(i + 1) =~= paired(person@, block).take(i as int).push(
                (person@, block[i as int]),
            ));
            i += 1;
        }
        assert(paired(person@, block).take(block.len() as int) =~= paired(person@, block));
        let ghost old_blocks = blocks;
        proof {
            blocks = blocks.push(block);
            crate::lists::lemma_concat_ext(q as nat, paired_fn(ps, old_blocks), paired_fn(ps, blocks));
            assert(paired_fn(ps, blocks)(q as int) == paired(person@, block));
        }
        q += 1;
    }
    assert(search_blocks(ps, filter@, blocks, results.deep_view()));
    results
}

} // verus!
