//! Merge operations for chronicles.
use vstd::prelude::*;
use crate::checks::{fresh_uuid, hyphenated};
use crate::facts::owned_like;
use crate::format::{truncate_text, truncated};
use crate::lists::concat;
use crate::model::{
    has_person, person_index, lemma_person_index, Category, CategoryView, Chronicle, ChronicleView,
    Fact, FactView, Person, PersonView,
};
use crate::text::{contains_str, decimal, own, own_opt, push_decimal, str_eq};
use crate::validate::{fact_ids_fn, fact_total, ids_of};

verus! {

// ---------------------------------------------------------------------------
// Options, events and results
// ---------------------------------------------------------------------------

/// Strategy for handling conflicts during merge.
#[derive(Debug, Clone, Copy, PartialEq, Eq, Structural)]
pub enum ConflictStrategy {
    /// Skip conflicting items (keep target values)
    Skip,
    /// Overwrite target with source values
    Overwrite,
    /// Fail on any conflict
    Fail,
}

impl Default for ConflictStrategy {
    fn default() -> (r: Self)
        ensures
            r == ConflictStrategy::Skip,
    {
        ConflictStrategy::Skip
    }
}

/// Strategy for handling duplicate facts during merge.
#[derive(Debug, Clone, Copy, PartialEq, Eq, Structural)]
pub enum DuplicateStrategy {
    /// Skip duplicate facts
    Skip,
    /// Add duplicates anyway (with new UUIDs)
    Add,
}

impl Default for DuplicateStrategy {
    fn default() -> (r: Self)
        ensures
            r == DuplicateStrategy::Skip,
    {
        DuplicateStrategy::Skip
    }
}

/// Options for merge operation.
#[derive(Debug, Clone, Copy)]
pub struct MergeOptions {
    /// How to handle category/person conflicts
    pub on_conflict: ConflictStrategy,
    /// How to handle duplicate facts
    pub duplicates: DuplicateStrategy,
    /// Whether to regenerate all UUIDs from source
    pub regenerate_uuids: bool,
}

impl Default for MergeOptions {
    fn default() -> (r: Self)
        ensures
            r == (MergeOptions {
                on_conflict: ConflictStrategy::Skip,
                duplicates: DuplicateStrategy::Skip,
                regenerate_uuids: false,
            }),
    {
        MergeOptions {
            on_conflict: ConflictStrategy::Skip,
            duplicates: DuplicateStrategy::Skip,
            regenerate_uuids: false,
        }
    }
}

/// Statistics from a merge operation.
#[derive(Debug, Clone, Copy)]
pub struct MergeStats {
    pub categories_added: usize,
    pub categories_skipped: usize,
    pub categories_overwritten: usize,
    pub categories_identical: usize,
    pub persons_added: usize,
    pub persons_merged: usize,
    pub facts_added: usize,
    pub facts_skipped: usize,
}

/// View of [`MergeStats`].
pub struct StatsView {
    pub categories_added: nat,
    pub categories_skipped: nat,
    pub categories_overwritten: nat,
    pub categories_identical: nat,
    pub persons_added: nat,
    pub persons_merged: nat,
    pub facts_added: nat,
    pub facts_skipped: nat,
}

impl View for MergeStats {
    type V = StatsView;

    open spec fn view(&self) -> StatsView {
        StatsView {
            categories_added: self.categories_added as nat,
            categories_skipped: self.categories_skipped as nat,
            categories_overwritten: self.categories_overwritten as nat,
            categories_identical: self.categories_identical as nat,
            persons_added: self.persons_added as nat,
            persons_merged: self.persons_merged as nat,
            facts_added: self.facts_added as nat,
            facts_skipped: self.facts_skipped as nat,
        }
    }
}

/// All counts zero.
pub open spec fn zero_stats() -> StatsView {
    StatsView {
        categories_added: 0,
        categories_skipped: 0,
        categories_overwritten: 0,
        categories_identical: 0,
        persons_added: 0,
        persons_merged: 0,
        facts_added: 0,
        facts_skipped: 0,
    }
}

impl Default for MergeStats {
    fn default() -> (r: Self)
        ensures
            r@ == zero_stats(),
    {
        MergeStats {
            categories_added: 0,
            categories_skipped: 0,
            categories_overwritten: 0,
            categories_identical: 0,
            persons_added: 0,
            persons_merged: 0,
            facts_added: 0,
            facts_skipped: 0,
        }
    }
}

#[derive(Debug, Clone, Copy, PartialEq, Eq, Structural)]
pub enum MergeEventType {
    Added,
    Skipped,
    Overwritten,
    Merged,
}

#[derive(Debug, Clone, Copy, PartialEq, Eq, Structural)]
pub enum MergeItemType {
    Category,
    Person,
}

/// A single merge event for logging/display.
#[derive(Debug)]
pub struct MergeEvent {
    pub event_type: MergeEventType,
    pub item_type: MergeItemType,
    pub id: String,
    pub details: Option<String>,
}

/// View of a [`MergeEvent`].
pub struct EventView {
    pub event_type: MergeEventType,
    pub item_type: MergeItemType,
    pub id: Seq<char>,
    pub details: Option<Seq<char>>,
}

impl View for MergeEvent {
    type V = EventView;

    open spec fn view(&self) -> EventView {
        EventView {
            event_type: self.event_type,
            item_type: self.item_type,
            id: self.id@,
            details: self.details.deep_view(),
        }
    }
}

impl DeepView for MergeEvent {
    type V = EventView;

    open spec fn deep_view(&self) -> EventView {
        self@
    }
}

/// Error that can occur during merge.
#[derive(Debug)]
pub enum MergeError {
    CategoryConflict { id: String },
    PersonNameConflict { id: String, target_name: String, source_name: String },
}

/// View of a [`MergeError`].
pub enum MergeErrorView {
    CategoryConflict { id: Seq<char> },
    PersonNameConflict { id: Seq<char>, target_name: Seq<char>, source_name: Seq<char> },
}

impl View for MergeError {
    type V = MergeErrorView;

    open spec fn view(&self) -> MergeErrorView {
        match self {
            MergeError::CategoryConflict { id } => MergeErrorView::CategoryConflict { id: id@ },
            MergeError::PersonNameConflict { id, target_name, source_name } => MergeErrorView::PersonNameConflict {
                id: id@,
                target_name: target_name@,
                source_name: source_name@,
            },
        }
    }
}

/// The human-readable description of a merge error.
pub open spec fn merge_error_message(e: MergeErrorView) -> Seq<char> {
    match e {
        MergeErrorView::CategoryConflict { id } => "Category conflict: '"@ + id
            + "' exists with different values"@,
        MergeErrorView::PersonNameConflict { id, target_name, source_name } => "Person conflict: '"@
            + id + "' has different name ('"@ + target_name + "' vs '"@ + source_name + "')"@,
    }
}

impl MergeError {
    /// The human-readable description of this error.
    pub fn message(&self) -> (r: String)
        ensures
            r@ == merge_error_message(self@),
    {
        match self {
            MergeError::CategoryConflict { id } => {
                let mut m = String::from_str("Category conflict: '");
                m.append(id.as_str());
                m.append("' exists with different values");
                m
            },
            MergeError::PersonNameConflict { id, target_name, source_name } => {
                let mut m = String::from_str("Person conflict: '");
                m.append(id.as_str());
                m.append("' has different name ('");
                m.append(target_name.as_str());
                m.append("' vs '");
                m.append(source_name.as_str());
                m.append("')");
                m
            },
        }
    }
}

/// Result of a merge operation.
#[derive(Debug)]
pub struct MergeResult {
    /// The merged chronicle
    pub chronicle: Chronicle,
    /// Statistics about what was merged
    pub stats: MergeStats,
    /// Events that occurred during merge (for logging)
    pub events: Vec<MergeEvent>,
    /// Warnings (e.g., unknown person references)
    pub warnings: Vec<String>,
}

// ---------------------------------------------------------------------------
// What merging does
// ---------------------------------------------------------------------------

/// The state of a merge: the target's categories and persons so far, the
/// events and statistics so far, and the source IDs of the facts added so
/// far, in order.
pub struct MergeState {
    pub categories: Seq<CategoryView>,
    pub persons: Seq<PersonView>,
    pub events: Seq<EventView>,
    pub stats: StatsView,
    pub src_ids: Seq<Seq<char>>,
}

/// An event.
pub open spec fn event(t: MergeEventType, item: MergeItemType, id: Seq<char>, details: Option<Seq<char>>) -> EventView {
    EventView { event_type: t, item_type: item, id, details }
}

/// Index of the first category with ID `id`.
pub open spec fn category_index(cs: Seq<CategoryView>, id: Seq<char>) -> Option<int>
    decreases cs.len(),
{
    if cs.len() == 0 {
        None
    } else {
        match category_index(cs.drop_last(), id) {
            Some(i) => Some(i),
            None => if cs.last().id == id {
                Some(cs.len() - 1)
            } else {
                None
            },
        }
    }
}

/// Merging source category `sc`: a new ID is appended; an existing one
/// (the first with the ID) that differs in label or color is kept, replaced
/// or refused, by `on`; an identical one is counted.
pub open spec fn category_step(st: MergeState, sc: CategoryView, on: ConflictStrategy) -> Result<MergeState, MergeErrorView> {
    match category_index(st.categories, sc.id) {
        Some(i) => {
            let tc = st.categories[i];
            if tc.label != sc.label || tc.color != sc.color {
                match on {
                    ConflictStrategy::Skip => Ok(
                        MergeState {
                            events: st.events.push(
                                event(MergeEventType::Skipped, MergeItemType::Category, sc.id, Some("conflict"@)),
                            ),
                            stats: StatsView { categories_skipped: st.stats.categories_skipped + 1, ..st.stats },
                            ..st
                        },
                    ),
                    ConflictStrategy::Overwrite => Ok(
                        MergeState {
                            categories: st.categories.update(
                                i,
                                CategoryView { label: sc.label, color: sc.color, ..tc },
                            ),
                            events: st.events.push(
                                event(MergeEventType::Overwritten, MergeItemType::Category, sc.id, None),
                            ),
                            stats: StatsView { categories_overwritten: st.stats.categories_overwritten + 1, ..st.stats },
                            ..st
                        },
                    ),
                    ConflictStrategy::Fail => Err(MergeErrorView::CategoryConflict { id: sc.id }),
                }
            } else {
                Ok(MergeState { stats: StatsView { categories_identical: st.stats.categories_identical + 1, ..st.stats }, ..st })
            }
        },
        None => Ok(
            MergeState {
                categories: st.categories.push(sc),
                events: st.events.push(event(MergeEventType::Added, MergeItemType::Category, sc.id, None)),
                stats: StatsView { categories_added: st.stats.categories_added + 1, ..st.stats },
                ..st
            },
        ),
    }
}

/// The state after merging the first `n` source categories.
pub open spec fn category_fold(st: MergeState, scs: Seq<CategoryView>, on: ConflictStrategy, n: nat) -> Result<MergeState, MergeErrorView>
    decreases n,
{
    if n == 0 {
        Ok(st)
    } else {
        match category_fold(st, scs, on, (n - 1) as nat) {
            Err(e) => Err(e),
            Ok(s) => category_step(s, scs[n - 1], on),
        }
    }
}

/// The source facts to add to a target person with facts `tfacts`: all of
/// them, or, when duplicates are skipped, those whose date, category and
/// text neither a target fact nor an earlier source fact already queued has.
pub open spec fn facts_to_add(tfacts: Seq<FactView>, sfacts: Seq<FactView>, skip_dups: bool) -> Seq<FactView>
    decreases sfacts.len(),
{
    if sfacts.len() == 0 {
        Seq::empty()
    } else {
        let prev = facts_to_add(tfacts, sfacts.drop_last(), skip_dups);
        if skip_dups && owned_like(tfacts + prev, sfacts.last()) {
            prev
        } else {
            prev.push(sfacts.last())
        }
    }
}

/// `facts` with their IDs replaced by `ids`, in order.
pub open spec fn with_ids(facts: Seq<FactView>, ids: Seq<Seq<char>>) -> Seq<FactView> {
    Seq::new(facts.len(), |j: int| FactView { id: ids[j], ..facts[j] })
}

/// Merging source person `sp`, its added facts taking the IDs `fresh`: a
/// person with an ID already present (the first) gets the facts to add
/// appended, its name kept, replaced or refused on conflict; a new person
/// is appended with all its facts.
pub open spec fn person_step(st: MergeState, sp: PersonView, o: MergeOptions, fresh: Seq<Seq<char>>) -> Result<MergeState, MergeErrorView> {
    match person_index(st.persons, sp.id) {
        Some(i) => {
            let tp = st.persons[i];
            let conflict = tp.name != sp.name;
            if conflict && o.on_conflict is Fail {
                Err(MergeErrorView::PersonNameConflict { id: sp.id, target_name: tp.name, source_name: sp.name })
            } else {
                let name_events = if !conflict {
                    Seq::empty()
                } else if o.on_conflict is Skip {
                    seq![event(MergeEventType::Skipped, MergeItemType::Person, sp.id,
                        Some("name conflict: kept '"@ + tp.name + "' over '"@ + sp.name + "'"@))]
                } else {
                    seq![event(MergeEventType::Overwritten, MergeItemType::Person, sp.id,
                        Some("name overwritten: '"@ + tp.name + "' -> '"@ + sp.name + "'"@))]
                };
                let name = if conflict && o.on_conflict is Overwrite {
                    sp.name
                } else {
                    tp.name
                };
                let adds = facts_to_add(tp.facts, sp.facts, o.duplicates is Skip);
                let skipped = (sp.facts.len() - adds.len()) as nat;
                let merged = adds.len() > 0 || skipped > 0;
                Ok(
                    MergeState {
                        persons: st.persons.update(
                            i,
                            PersonView { name, facts: tp.facts + with_ids(adds, fresh), ..tp },
                        ),
                        events: st.events + name_events + if merged {
                            seq![event(MergeEventType::Merged, MergeItemType::Person, sp.id,
                                Some(decimal(adds.len()) + " facts added, "@ + decimal(skipped) + " skipped"@))]
                        } else {
                            Seq::empty()
                        },
                        stats: StatsView {
                            persons_merged: st.stats.persons_merged + if merged {
                                1nat
                            } else {
                                0nat
                            },
                            facts_added: st.stats.facts_added + adds.len(),
                            facts_skipped: st.stats.facts_skipped + skipped,
                            ..st.stats
                        },
                        src_ids: st.src_ids + ids_of(adds),
                        ..st
                    },
                )
            }
        },
        None => Ok(
            MergeState {
                persons: st.persons.push(PersonView { facts: with_ids(sp.facts, fresh), ..sp }),
                events: st.events.push(
                    event(MergeEventType::Added, MergeItemType::Person, sp.id, Some(decimal(sp.facts.len()) + " facts"@)),
                ),
                stats: StatsView {
                    persons_added: st.stats.persons_added + 1,
                    facts_added: st.stats.facts_added + sp.facts.len(),
                    ..st.stats
                },
                src_ids: st.src_ids + ids_of(sp.facts),
                ..st
            },
        ),
    }
}

/// The state after merging the first `n` source persons, person `q`'s added
/// facts taking the IDs `idss[q]`.
pub open spec fn person_fold(
    st: MergeState,
    sps: Seq<PersonView>,
    o: MergeOptions,
    idss: Seq<Seq<Seq<char>>>,
    n: nat,
) -> Result<MergeState, MergeErrorView>
    decreases n,
{
    if n == 0 {
        Ok(st)
    } else {
        match person_fold(st, sps, o, idss, (n - 1) as nat) {
            Err(e) => Err(e),
            Ok(s) => person_step(s, sps[n - 1], o, idss[n - 1]),
        }
    }
}

/// Whether `ids` are the IDs given to added facts whose source IDs are
/// `src`: with `regenerate` unset, a source ID that neither the target
/// (`init`) nor an earlier added fact has is kept; every other added fact
/// gets a fresh hyphenated UUID that neither of them has.
pub open spec fn ids_assigned(init: Seq<Seq<char>>, src: Seq<Seq<char>>, ids: Seq<Seq<char>>, regenerate: bool) -> bool {
    &&& ids.len() == src.len()
    &&& forall|q: int|
        0 <= q < ids.len() ==> if !regenerate && !(init + ids.take(q)).contains(src[q]) {
            #[trigger] ids[q] == src[q]
        } else {
            hyphenated(ids[q]) && !(init + ids.take(q)).contains(ids[q])
        }
}

/// The warning for reference `j` of fact `f` of person `pid` if no person of
/// `ps` has that ID.
pub open spec fn dangling_fn(ps: Seq<PersonView>, pid: Seq<char>, f: FactView, w: Seq<Seq<char>>) -> spec_fn(int) -> Seq<Seq<char>> {
    |j: int|
        if has_person(ps, w[j]) {
            Seq::empty()
        } else {
            seq!["Person '"@ + pid + "', fact '"@ + truncated(f.text, 30)
                + "': references unknown person '"@ + w[j] + "'"@]
        }
}

pub open spec fn fact_dangling_fn(ps: Seq<PersonView>, p: int) -> spec_fn(int) -> Seq<Seq<char>> {
    |k: int|
        match ps[p].facts[k].with {
            Some(w) => concat(w.len(), dangling_fn(ps, ps[p].id, ps[p].facts[k], w)),
            None => Seq::empty(),
        }
}

pub open spec fn person_dangling_fn(ps: Seq<PersonView>) -> spec_fn(int) -> Seq<Seq<char>> {
    |p: int| concat(ps[p].facts.len(), fact_dangling_fn(ps, p))
}

/// Warnings about `with` references to persons that `ps` lacks, in document
/// order.
pub open spec fn dangling_warnings(ps: Seq<PersonView>) -> Seq<Seq<char>> {
    concat(ps.len(), person_dangling_fn(ps))
}

/// The merge state before anything of the source is merged.
pub open spec fn initial_state(t: ChronicleView) -> MergeState {
    MergeState {
        categories: t.categories,
        persons: t.persons,
        events: Seq::empty(),
        stats: zero_stats(),
        src_ids: Seq::empty(),
    }
}

/// What merging source `s` into target `t` gives, the added facts taking
/// the IDs `idss` person by person.
pub open spec fn merge_outcome(t: ChronicleView, s: ChronicleView, o: MergeOptions, idss: Seq<Seq<Seq<char>>>) -> Result<MergeState, MergeErrorView> {
    match category_fold(initial_state(t), s.categories, o.on_conflict, s.categories.len()) {
        Err(e) => Err(e),
        Ok(st) => person_fold(st, s.persons, o, idss, s.persons.len()),
    }
}


// ---------------------------------------------------------------------------
// Merging, step by step
// ---------------------------------------------------------------------------

proof fn lemma_category_index(cs: Seq<CategoryView>, id: Seq<char>)
    ensures
        match category_index(cs, id) {
            Some(i) => 0 <= i < cs.len() && cs[i].id == id && (forall|j: int| 0 <= j < i ==> cs[j].id != id),
            None => forall|j: int| 0 <= j < cs.len() ==> cs[j].id != id,
        },
    decreases cs.len(),
{
    if cs.len() > 0 {
        lemma_category_index(cs.drop_last(), id);
        match category_index(cs.drop_last(), id) {
            Some(i) => {
                assert forall|j: int| 0 <= j < i implies cs[j].id != id by {
                    assert(cs.drop_last()[j] == cs[j]);
                }
                assert(cs.drop_last()[i] == cs[i]);
            },
            None => {
                assert forall|j: int| 0 <= j < cs.len() - 1 implies cs[j].id != id by {
                    assert(cs.drop_last()[j] == cs[j]);
                }
            },
        }
    }
}

fn category_position(cs: &Vec<Category>, id: &str) -> (r: Option<usize>)
    ensures
        match category_index(cs.deep_view(), id@) {
            Some(i) => r == Some(i as usize) && 0 <= i < cs.len(),
            None => r is None,
        },
{
    proof {
        lemma_category_index(cs.deep_view(), id@);
    }
    let mut i: usize = 0;
    while i < cs.len()
        invariant
            i <= cs.len(),
            forall|j: int| 0 <= j < i ==> cs.deep_view()[j].id != id@,
            match category_index(cs.deep_view(), id@) {
                Some(x) => 0 <= x < cs.deep_view().len() && cs.deep_view()[x].id == id@ && (forall|j: int|
                    0 <= j < x ==> cs.deep_view()[j].id != id@),
                None => forall|j: int| 0 <= j < cs.deep_view().len() ==> cs.deep_view()[j].id != id@,
            },
        decreases cs.len() - i,
    {
        assert(cs.deep_view()[i as int] == cs@[i as int]@);
        if str_eq(cs[i].id.as_str(), id) {
            return Some(i);
        }
        i += 1;
    }
    None
}

fn opt_eq(a: &Option<String>, b: &Option<String>) -> (r: bool)
    ensures
        r == (a.deep_view() == b.deep_view()),
{
    match (a, b) {
        (None, None) => true,
        (Some(x), Some(y)) => str_eq(x.as_str(), y.as_str()),
        _ => false,
    }
}

fn push_event(events: &mut Vec<MergeEvent>, e: MergeEvent)
    ensures
        final(events).deep_view() == old(events).deep_view().push(e@),
{
    let ghost before = events.deep_view();
    let ghost ev = e@;
    events.push(e);
    assert(events.deep_view() =~= before.push(ev));
}

fn merge_categories(
    target: &mut Chronicle,
    source: &Chronicle,
    on: ConflictStrategy,
    events: &mut Vec<MergeEvent>,
    stats: &mut MergeStats,
    Ghost(st0): Ghost<MergeState>,
) -> (r: Result<(), MergeError>)
    requires
        st0.categories == old(target)@.categories,
        st0.events == old(events).deep_view(),
        st0.stats == old(stats)@,
        old(stats)@ == zero_stats(),
    ensures
        match category_fold(st0, source@.categories, on, source@.categories.len()) {
            Err(e) => r matches Err(x) && x@ == e,
            Ok(st) => r is Ok && final(target)@ == (ChronicleView { categories: st.categories, ..old(target)@ })
                && final(events).deep_view() == st.events && final(stats)@ == st.stats
                && st.persons == st0.persons && st.src_ids == st0.src_ids
                && st.stats.persons_added == 0 && st.stats.persons_merged == 0
                && st.stats.facts_added == 0 && st.stats.facts_skipped == 0,
        },
{
    let ghost scs = source@.categories;
    let ghost c0 = target@;
    let mut q: usize = 0;
    while q < source.categories.len()
        invariant
            q <= source.categories.len(),
            scs == source@.categories,
            category_fold(st0, scs, on, q as nat) is Ok,
            ({
                let st = category_fold(st0, scs, on, q as nat)->Ok_0;
                &&& target@ == (ChronicleView { categories: st.categories, ..c0 })
                &&& events.deep_view() == st.events
                &&& stats@ == st.stats
                &&& st.persons == st0.persons
                &&& st.src_ids == st0.src_ids
                &&& st.stats.persons_added == 0 && st.stats.persons_merged == 0
                &&& st.stats.facts_added == 0 && st.stats.facts_skipped == 0
                &&& st.stats.categories_added + st.stats.categories_skipped
                    + st.stats.categories_overwritten + st.stats.categories_identical == q
            }),
        decreases source.categories.len() - q,
    {
        let sc = &source.categories[q];
        assert(scs[q as int] == sc@);
        let ghost st = category_fold(st0, scs, on, q as nat)->Ok_0;
        assert(target.categories.deep_view() == st.categories);
        assert(category_fold(st0, scs, on, (q + 1) as nat) == category_step(st, sc@, on));
        match category_position(&target.categories, sc.id.as_str()) {
            Some(i) => {
                let differs = !str_eq(target.categories[i].label.as_str(), sc.label.as_str())
                    || !opt_eq(&target.categories[i].color, &sc.color);
                assert(st.categories[i as int] == target.categories@[i as int]@);
                assert(category_index(st.categories, sc@.id) == Some(i as int));
                assert(differs == (st.categories[i as int].label != sc@.label || st.categories[i as int].color
                    != sc@.color));
                if differs {
                    match on {
                        ConflictStrategy::Skip => {
                            push_event(events, MergeEvent {
                                event_type: MergeEventType::Skipped,
                                item_type: MergeItemType::Category,
                                id: sc.id.clone(),
                                details: Some(String::from_str("conflict")),
                            });
                            stats.categories_skipped = stats.categories_skipped + 1;
                        },
                        ConflictStrategy::Overwrite => {
                            let ghost before = target.categories.deep_view();
                            let updated = Category {
                                id: target.categories[i].id.clone(),
                                label: sc.label.clone(),
                                color: own_opt(&sc.color),
                            };
                            let ghost uv = updated@;
                            target.categories[i] = updated;
                            assert(target.categories.deep_view() =~= before.update(i as int, uv));
                            push_event(events, MergeEvent {
                                event_type: MergeEventType::Overwritten,
                                item_type: MergeItemType::Category,
                                id: sc.id.clone(),
                                details: None,
                            });
                            stats.categories_overwritten = stats.categories_overwritten + 1;
                        },
                        ConflictStrategy::Fail => {
                            proof {
                                lemma_category_fold_error_stays(st0, scs, on, (q + 1) as nat, scs.len());
                            }
                            return Err(MergeError::CategoryConflict { id: sc.id.clone() });
                        },
                    }
                } else {
                    stats.categories_identical = stats.categories_identical + 1;
                }
            },
            None => {
                let ghost before = target.categories.deep_view();
                let c = sc.clone();
                let ghost cv = c@;
                target.categories.push(c);
                assert(target.categories.deep_view() =~= before.push(cv));
                push_event(events, MergeEvent {
                    event_type: MergeEventType::Added,
                    item_type: MergeItemType::Category,
                    id: sc.id.clone(),
                    details: None,
                });
                stats.categories_added = stats.categories_added + 1;
            },
        }
        q += 1;
    }
    Ok(())
}

/// Once merging categories fails, later categories do not change the error.
proof fn lemma_category_fold_error_stays(st: MergeState, scs: Seq<CategoryView>, on: ConflictStrategy, m: nat, n: nat)
    requires
        m <= n,
        category_fold(st, scs, on, m) is Err,
    ensures
        category_fold(st, scs, on, n) == category_fold(st, scs, on, m),
    decreases n - m,
{
    if m < n {
        lemma_category_fold_error_stays(st, scs, on, m, (n - 1) as nat);
    }
}


/// A fact has a like among the target's facts and the queued ones exactly
/// when it has one among the target's facts or among the queued facts as
/// they are added (with their new IDs).
proof fn lemma_like_queued(t: Seq<FactView>, p: Seq<FactView>, ids: Seq<Seq<char>>, f: FactView)
    requires
        ids.len() == p.len(),
    ensures
        owned_like(t + p, f) == (owned_like(t, f) || owned_like(with_ids(p, ids), f)),
{
    let q = with_ids(p, ids);
    if owned_like(t + p, f) {
        let i = choose|i: int|
            0 <= i < (t + p).len() && #[trigger] (t + p)[i].date == f.date && (t + p)[i].category == f.category
                && (t + p)[i].text == f.text;
        if i >= t.len() {
            assert(q[i - t.len()].date == f.date);
        } else {
            assert(t[i].date == f.date);
        }
    }
    if owned_like(t, f) {
        let i = choose|i: int|
            0 <= i < t.len() && #[trigger] t[i].date == f.date && t[i].category == f.category && t[i].text == f.text;
        assert((t + p)[i].date == f.date);
    }
    if owned_like(q, f) {
        let i = choose|i: int|
            0 <= i < q.len() && #[trigger] q[i].date == f.date && q[i].category == f.category && q[i].text == f.text;
        assert((t + p)[i + t.len()].date == f.date);
    }
}

fn has_like(facts: &Vec<Fact>, f: &Fact) -> (r: bool)
    ensures
        r == owned_like(facts.deep_view(), f@),
{
    let mut i: usize = 0;
    while i < facts.len()
        invariant
            i <= facts.len(),
            forall|j: int|
                0 <= j < i ==> !(#[trigger] facts.deep_view()[j].date == f@.date && facts.deep_view()[j].category
                    == f@.category && facts.deep_view()[j].text == f@.text),
        decreases facts.len() - i,
    {
        let g = &facts[i];
        assert(facts.deep_view()[i as int] == g@);
        if str_eq(g.date.as_str(), f.date.as_str()) && str_eq(g.category.as_str(), f.category.as_str())
            && str_eq(g.text.as_str(), f.text.as_str()) {
            assert(facts.deep_view()[i as int].date == f@.date);
            return true;
        }
        i += 1;
    }
    false
}

/// The ID an added fact gets: its own unless regenerating or already taken.
fn assign_id(f: &Fact, regenerate: bool, existing: &mut Vec<String>) -> (id: String)
    ensures
        if !regenerate && !old(existing).deep_view().contains(f@.id) {
            id@ == f@.id
        } else {
            hyphenated(id@) && !old(existing).deep_view().contains(id@)
        },
        final(existing).deep_view() == old(existing).deep_view().push(id@),
{
    let id = if regenerate || contains_str(existing, f.id.as_str()) {
        fresh_uuid(existing)
    } else {
        f.id.clone()
    };
    let ghost before = existing.deep_view();
    existing.push(id.clone());
    assert(existing.deep_view() =~= before.push(id@));
    id
}

/// `f` with ID `id`.
fn fact_with_id(f: &Fact, id: String) -> (r: Fact)
    ensures
        r@ == (FactView { id: id@, ..f@ }),
{
    let mut g = f.clone();
    g.id = id;
    g
}

fn merge_person(
    target: &mut Chronicle,
    sp: &Person,
    o: &MergeOptions,
    existing: &mut Vec<String>,
    events: &mut Vec<MergeEvent>,
    stats: &mut MergeStats,
    Ghost(st): Ghost<MergeState>,
) -> (r: (Result<(), MergeError>, Ghost<Seq<Seq<char>>>))
    requires
        st.persons == old(target)@.persons,
        st.events == old(events).deep_view(),
        st.stats == old(stats)@,
        st.stats.persons_added + st.stats.persons_merged + 1 <= usize::MAX,
        st.stats.facts_added + st.stats.facts_skipped + sp@.facts.len() <= usize::MAX,
    ensures
        match person_step(st, sp@, *o, r.1@) {
            Err(e) => r.0 matches Err(x) && x@ == e,
            Ok(st2) => {
                &&& r.0 is Ok
                &&& final(target)@ == (ChronicleView { persons: st2.persons, ..old(target)@ })
                &&& final(events).deep_view() == st2.events
                &&& final(stats)@ == st2.stats
                &&& st2.categories == st.categories
                &&& st2.src_ids == st.src_ids + st2.src_ids.skip(st.src_ids.len() as int)
                &&& final(existing).deep_view() == old(existing).deep_view() + r.1@
                &&& ids_assigned(old(existing).deep_view(), st2.src_ids.skip(st.src_ids.len() as int), r.1@, o.regenerate_uuids)
            },
        },
{
    let ghost ps = target@.persons;
    let ghost c0 = target@;
    let ghost ex0 = existing.deep_view();
    proof {
        lemma_person_index(ps, sp@.id);
    }
    match target.person_position(sp.id.as_str()) {
        Some(i) => {
            assert(ps[i as int] == target.persons@[i as int]@);
            let tname = target.persons[i].name.clone();
            let conflict = !str_eq(tname.as_str(), sp.name.as_str());
            let ghost ev0 = events.deep_view();
            if conflict {
                match o.on_conflict {
                    ConflictStrategy::Fail => {
                        return (
                            Err(MergeError::PersonNameConflict {
                                id: sp.id.clone(),
                                target_name: tname,
                                source_name: sp.name.clone(),
                            }),
                            Ghost(Seq::empty()),
                        );
                    },
                    ConflictStrategy::Skip => {
                        let mut d = String::from_str("name conflict: kept '");
                        d.append(tname.as_str());
                        d.append("' over '");
                        d.append(sp.name.as_str());
                        d.append("'");
                        push_event(events, MergeEvent {
                            event_type: MergeEventType::Skipped,
                            item_type: MergeItemType::Person,
                            id: sp.id.clone(),
                            details: Some(d),
                        });
                    },
                    ConflictStrategy::Overwrite => {
                        let mut d = String::from_str("name overwritten: '");
                        d.append(tname.as_str());
                        d.append("' -> '");
                        d.append(sp.name.as_str());
                        d.append("'");
                        target.persons[i].name = sp.name.clone();
                        push_event(events, MergeEvent {
                            event_type: MergeEventType::Overwritten,
                            item_type: MergeItemType::Person,
                            id: sp.id.clone(),
                            details: Some(d),
                        });
                    },
                }
            }
            let ghost tfacts = ps[i as int].facts;
            let skip_dups = match o.duplicates {
                DuplicateStrategy::Skip => true,
                DuplicateStrategy::Add => false,
            };
            let ghost sfs = sp@.facts;
            let mut to_add: Vec<Fact> = Vec::new();
            let ghost mut fresh: Seq<Seq<char>> = Seq::empty();
            let mut skipped: usize = 0;
            let mut k: usize = 0;
            assert(sfs.take(0) =~= Seq::<FactView>::empty());
            assert(to_add.deep_view() =~= with_ids(facts_to_add(tfacts, sfs.take(0), skip_dups), fresh));
            while k < sp.facts.len()
                invariant
                    k <= sp.facts.len(),
                    sfs == sp@.facts,
                    i < target.persons.len(),
                    target.persons@[i as int].facts.deep_view() == tfacts,
                    fresh.len() == facts_to_add(tfacts, sfs.take(k as int), skip_dups).len(),
                    to_add.deep_view() == with_ids(facts_to_add(tfacts, sfs.take(k as int), skip_dups), fresh),
                    skipped + fresh.len() == k,
                    existing.deep_view() == ex0 + fresh,
                    ids_assigned(ex0, ids_of(facts_to_add(tfacts, sfs.take(k as int), skip_dups)), fresh, o.regenerate_uuids),
                decreases sp.facts.len() - k,
            {
                let sf = &sp.facts[k];
                assert(sfs[k as int] == sf@);
                assert(sfs.take(k + 1).drop_last() =~= sfs.take(k as int));
                assert(sfs.take(k + 1).last() == sf@);
                let ghost prev = facts_to_add(tfacts, sfs.take(k as int), skip_dups);
                let dup = has_like(&target.persons[i].facts, sf) || has_like(&to_add, sf);
                proof {
                    lemma_like_queued(tfacts, prev, fresh, sf@);
                }
                if skip_dups && dup {
                    skipped = skipped + 1;
                } else {
                    let ghost ex_before = existing.deep_view();
                    let id = assign_id(sf, o.regenerate_uuids, existing);
                    let ghost idv = id@;
                    let nf = fact_with_id(sf, id);
                    let ghost tb = to_add.deep_view();
                    let ghost nfv = nf@;
                    to_add.push(nf);
                    proof {
                        let old_fresh = fresh;
                        fresh = fresh.push(idv);
                        assert(to_add.deep_view() =~= tb.push(nfv));
                        assert(to_add.deep_view() =~= with_ids(prev.push(sf@), fresh));
                        assert(existing.deep_view() =~= ex0 + fresh);
                        assert(ids_of(prev.push(sf@)) =~= ids_of(prev).push(sf@.id));
                        assert(ex_before == ex0 + old_fresh);
                        assert forall|q: int| 0 <= q < fresh.len() implies (if !o.regenerate_uuids && !(ex0
                            + fresh.take(q)).contains(ids_of(prev.push(sf@))[q]) {
                            #[trigger] fresh[q] == ids_of(prev.push(sf@))[q]
                        } else {
                            hyphenated(fresh[q]) && !(ex0 + fresh.take(q)).contains(fresh[q])
                        }) by {
                            if q < old_fresh.len() {
                                assert(fresh.take(q) =~= old_fresh.take(q));
                                assert(fresh[q] == old_fresh[q]);
                            } else {
                                assert(fresh.take(q) =~= old_fresh);
                            }
                        }
                    }
                }
                k += 1;
            }
            assert(sfs.take(sp.facts.len() as int) =~= sfs);
            let ghost adds = facts_to_add(tfacts, sfs, skip_dups);
            let added = to_add.len();
            assert(to_add.deep_view().len() == to_add@.len());
            let ghost pf = target.persons@[i as int].facts.deep_view();
            let ghost tv = to_add.deep_view();
            target.persons[i].facts.append(&mut to_add);
            assert(target.persons@[i as int].facts.deep_view() =~= pf + tv);
            let ghost ev1 = events.deep_view();
            if added > 0 || skipped > 0 {
                let mut d = String::new();
                push_decimal(&mut d, added);
                d.append(" facts added, ");
                push_decimal(&mut d, skipped);
                d.append(" skipped");
                push_event(events, MergeEvent {
                    event_type: MergeEventType::Merged,
                    item_type: MergeItemType::Person,
                    id: sp.id.clone(),
                    details: Some(d),
                });
                stats.persons_merged = stats.persons_merged + 1;
            }
            stats.facts_added = stats.facts_added + added;
            stats.facts_skipped = stats.facts_skipped + skipped;
            proof {
                let st2 = person_step(st, sp@, *o, fresh)->Ok_0;
                assert(target@.persons =~= st2.persons);
                assert(events.deep_view() =~= st2.events);
                assert(st2.src_ids.skip(st.src_ids.len() as int) =~= ids_of(adds));
            }
            (Ok(()), Ghost(fresh))
        },
        None => {
            let ghost sfs = sp@.facts;
            let mut facts: Vec<Fact> = Vec::new();
            let ghost mut fresh: Seq<Seq<char>> = Seq::empty();
            let mut k: usize = 0;
            assert(facts.deep_view() =~= with_ids(sfs.take(0), fresh));
            while k < sp.facts.len()
                invariant
                    k <= sp.facts.len(),
                    sfs == sp@.facts,
                    fresh.len() == k,
                    facts.deep_view() == with_ids(sfs.take(k as int), fresh),
                    existing.deep_view() == ex0 + fresh,
                    ids_assigned(ex0, ids_of(sfs.take(k as int)), fresh, o.regenerate_uuids),
                decreases sp.facts.len() - k,
            {
                let sf = &sp.facts[k];
                assert(sfs[k as int] == sf@);
                let ghost ex_before = existing.deep_view();
                let id = assign_id(sf, o.regenerate_uuids, existing);
                let ghost idv = id@;
                let nf = fact_with_id(sf, id);
                let ghost fb = facts.deep_view();
                let ghost nfv = nf@;
                facts.push(nf);
                proof {
                    let old_fresh = fresh;
                    fresh = fresh.push(idv);
                    assert(facts.deep_view() =~= fb.push(nfv));
                    assert(facts.deep_view() =~= with_ids(sfs.take(k + 1), fresh));
                    assert(existing.deep_view() =~= ex0 + fresh);
                    assert(ids_of(sfs.take(k + 1)) =~= ids_of(sfs.take(k as int)).push(sf@.id));
                    assert forall|q: int| 0 <= q < fresh.len() implies (if !o.regenerate_uuids && !(ex0
                        + fresh.take(q)).contains(ids_of(sfs.take(k + 1))[q]) {
                        #[trigger] fresh[q] == ids_of(sfs.take(k + 1))[q]
                    } else {
                        hyphenated(fresh[q]) && !(ex0 + fresh.take(q)).contains(fresh[q])
                    }) by {
                        if q < old_fresh.len() {
                            assert(fresh.take(q) =~= old_fresh.take(q));
                            assert(fresh[q] == old_fresh[q]);
                        } else {
                            assert(fresh.take(q) =~= old_fresh);
                        }
                    }
                }
                k += 1;
            }
            assert(sfs.take(sp.facts.len() as int) =~= sfs);
            let n = facts.len();
            let ghost before = target.persons.deep_view();
            let np = Person { id: sp.id.clone(), name: sp.name.clone(), facts };
            let ghost npv = np@;
            target.persons.push(np);
            assert(target.persons.deep_view() =~= before.push(npv));
            let mut d = String::new();
            push_decimal(&mut d, n);
            d.append(" facts");
            push_event(events, MergeEvent {
                event_type: MergeEventType::Added,
                item_type: MergeItemType::Person,
                id: sp.id.clone(),
                details: Some(d),
            });
            stats.persons_added = stats.persons_added + 1;
            stats.facts_added = stats.facts_added + n;
            proof {
                let st2 = person_step(st, sp@, *o, fresh)->Ok_0;
                assert(st2.src_ids.skip(st.src_ids.len() as int) =~= ids_of(sfs));
            }
            (Ok(()), Ghost(fresh))
        },
    }
}


fn push_string(v: &mut Vec<String>, x: String)
    ensures
        final(v).deep_view() == old(v).deep_view().push(x@),
{
    let ghost before = v.deep_view();
    let ghost xv = x@;
    v.push(x);
    assert(v.deep_view() =~= before.push(xv));
}

fn fact_dangling(c: &Chronicle, p: usize, k: usize) -> (r: Vec<String>)
    requires
        p < c.persons.len(),
        k < c.persons@[p as int].facts.len(),
    ensures
        r.deep_view() == fact_dangling_fn(c@.persons, p as int)(k as int),
{
    let ghost ps = c@.persons;
    let person = &c.persons[p];
    let f = &person.facts[k];
    assert(ps[p as int] == person@);
    assert(person@.facts[k as int] == f@);
    let mut r: Vec<String> = Vec::new();
    assert(r.deep_view() =~= Seq::<Seq<char>>::empty());
    if let Some(w) = &f.with {
        let ghost wv = w.deep_view();
        let ghost g = dangling_fn(ps, person@.id, f@, wv);
        let mut j: usize = 0;
        while j < w.len()
            invariant
                j <= w.len(),
                wv == w.deep_view(),
                ps == c@.persons,
                g == dangling_fn(ps, person@.id, f@, wv),
                r.deep_view() == concat(j as nat, g),
            decreases w.len() - j,
        {
            assert(w@[j as int]@ == wv[j as int]);
            proof {
                lemma_person_index(ps, wv[j as int]);
            }
            let ghost rb = r.deep_view();
            if c.person_position(w[j].as_str()).is_none() {
                let mut m = String::from_str("Person '");
                m.append(person.id.as_str());
                m.append("', fact '");
                let t = truncate_text(f.text.as_str(), 30);
                m.append(t.as_str());
                m.append("': references unknown person '");
                m.append(w[j].as_str());
                m.append("'");
                push_string(&mut r, m);
            }
            assert(r.deep_view() =~= rb + g(j as int));
            j += 1;
        }
    }
    r
}

fn dangling(c: &Chronicle) -> (r: Vec<String>)
    ensures
        r.deep_view() == dangling_warnings(c@.persons),
{
    let ghost ps = c@.persons;
    let mut r: Vec<String> = Vec::new();
    let mut p: usize = 0;
    assert(r.deep_view() =~= concat(0, person_dangling_fn(ps)));
    while p < c.persons.len()
        invariant
            p <= c.persons.len(),
            ps == c@.persons,
            r.deep_view() == concat(p as nat, person_dangling_fn(ps)),
        decreases c.persons.len() - p,
    {
        let ghost r0 = r.deep_view();
        let ghost g = fact_dangling_fn(ps, p as int);
        let mut k: usize = 0;
        assert(r0 + concat(0, g) =~= r0);
        while k < c.persons[p].facts.len()
            invariant
                p < c.persons.len(),
                k <= c.persons@[p as int].facts.len(),
                ps == c@.persons,
                g == fact_dangling_fn(ps, p as int),
                r.deep_view() == r0 + concat(k as nat, g),
            decreases c.persons@[p as int].facts.len() - k,
        {
            let ghost rb = r.deep_view();
            let mut more = fact_dangling(c, p, k);
            let ghost mv = more.deep_view();
            r.append(&mut more);
            assert(r.deep_view() =~= rb + mv);
            k += 1;
        }
        assert(ps[p as int].facts.len() == c.persons@[p as int].facts.len()) by {
            assert(ps[p as int] == c.persons@[p as int]@);
        }
        p += 1;
    }
    r
}

pub open spec fn idss_fn(idss: Seq<Seq<Seq<char>>>) -> spec_fn(int) -> Seq<Seq<char>> {
    |x: int| idss[x]
}

/// The IDs `idss` joined in order.
pub open spec fn flat_ids(idss: Seq<Seq<Seq<char>>>) -> Seq<Seq<char>> {
    concat(idss.len(), idss_fn(idss))
}

/// Whether `r` is what merging `s` into `t` gives when the added facts take
/// the IDs `idss`, and those IDs are assigned as the rules say.
pub open spec fn merged_as(
    t: ChronicleView,
    s: ChronicleView,
    o: MergeOptions,
    idss: Seq<Seq<Seq<char>>>,
    r: Result<MergeResult, MergeError>,
) -> bool {
    match merge_outcome(t, s, o, idss) {
        Err(e) => r matches Err(x) && x@ == e,
        Ok(st) => {
            &&& ids_assigned(concat(t.persons.len(), fact_ids_fn(t.persons)), st.src_ids, flat_ids(idss), o.regenerate_uuids)
            &&& r matches Ok(res) && res.chronicle@ == (ChronicleView {
                categories: st.categories,
                persons: st.persons,
                ..t
            }) && res.stats@ == st.stats && res.events.deep_view() == st.events
                && res.warnings.deep_view() == dangling_warnings(st.persons)
        },
    }
}

proof fn lemma_person_fold_prefix(
    st: MergeState,
    sps: Seq<PersonView>,
    o: MergeOptions,
    a: Seq<Seq<Seq<char>>>,
    b: Seq<Seq<Seq<char>>>,
    n: nat,
)
    requires
        n <= a.len(),
        n <= b.len(),
        forall|x: int| 0 <= x < n ==> a[x] == b[x],
    ensures
        person_fold(st, sps, o, a, n) == person_fold(st, sps, o, b, n),
    decreases n,
{
    if n > 0 {
        lemma_person_fold_prefix(st, sps, o, a, b, (n - 1) as nat);
    }
}

proof fn lemma_person_fold_error_stays(
    st: MergeState,
    sps: Seq<PersonView>,
    o: MergeOptions,
    idss: Seq<Seq<Seq<char>>>,
    m: nat,
    n: nat,
)
    requires
        m <= n,
        person_fold(st, sps, o, idss, m) is Err,
    ensures
        person_fold(st, sps, o, idss, n) == person_fold(st, sps, o, idss, m),
    decreases n - m,
{
    if m < n {
        lemma_person_fold_error_stays(st, sps, o, idss, m, (n - 1) as nat);
    }
}

proof fn lemma_ids_assigned_append(
    init: Seq<Seq<char>>,
    src: Seq<Seq<char>>,
    ids: Seq<Seq<char>>,
    src2: Seq<Seq<char>>,
    fresh: Seq<Seq<char>>,
    regen: bool,
)
    requires
        ids_assigned(init, src, ids, regen),
        ids_assigned(init + ids, src2, fresh, regen),
    ensures
        ids_assigned(init, src + src2, ids + fresh, regen),
{
    let all = ids + fresh;
    let s = src + src2;
    assert forall|q: int| 0 <= q < all.len() implies (if !regen && !(init + all.take(q)).contains(s[q]) {
        #[trigger] all[q] == s[q]
    } else {
        hyphenated(all[q]) && !(init + all.take(q)).contains(all[q])
    }) by {
        if q < ids.len() {
            assert(all.take(q) =~= ids.take(q));
            assert(all[q] == ids[q]);
            assert(s[q] == src[q]);
        } else {
            let j = q - ids.len();
            assert(init + all.take(q) =~= (init + ids) + fresh.take(j));
            assert(all[q] == fresh[j]);
            assert(s[q] == src2[j]);
        }
    }
}

pub(crate) fn all_fact_ids(c: &Chronicle) -> (r: Vec<String>)
    ensures
        r.deep_view() == concat(c@.persons.len(), fact_ids_fn(c@.persons)),
{
    let ghost ps = c@.persons;
    let mut r: Vec<String> = Vec::new();
    let mut p: usize = 0;
    assert(r.deep_view() =~= concat(0, fact_ids_fn(ps)));
    while p < c.persons.len()
        invariant
            p <= c.persons.len(),
            ps == c@.persons,
            r.deep_view() == concat(p as nat, fact_ids_fn(ps)),
        decreases c.persons.len() - p,
    {
        let person = &c.persons[p];
        assert(ps[p as int] == person@);
        let ghost r0 = r.deep_view();
        let mut k: usize = 0;
        while k < person.facts.len()
            invariant
                k <= person.facts.len(),
                r.deep_view() =~= r0 + crate::validate::fact_ids(person@).take(k as int),
            decreases person.facts.len() - k,
        {
            let ghost rb = r.deep_view();
            assert(person@.facts[k as int] == person.facts@[k as int]@);
            push_string(&mut r, person.facts[k].id.clone());
            assert(r.deep_view() =~= rb.push(person@.facts[k as int].id));
            k += 1;
        }
        assert(crate::validate::fact_ids(person@).take(person.facts.len() as int) =~= crate::validate::fact_ids(person@));
        p += 1;
    }
    r
}

/// Merge a source chronicle into a target chronicle.
#[verifier::rlimit(40)]
pub fn merge_chronicles(target: Chronicle, source: &Chronicle, options: &MergeOptions) -> (r: Result<MergeResult, MergeError>)
    requires
        crate::validate::fact_total(source@.persons) <= usize::MAX,
    ensures
        exists|idss: Seq<Seq<Seq<char>>>| merged_as(target@, source@, *options, idss, r),
        fact_ids_distinct(target@.persons) ==> (r matches Ok(res) ==> fact_ids_distinct(res.chronicle@.persons)),
{
    let ghost t0 = target@;
    let mut merged = target;
    let ghost init = concat(t0.persons.len(), fact_ids_fn(t0.persons));
    let ghost sps = source@.persons;
    let mut stats = MergeStats::default();
    let mut events: Vec<MergeEvent> = Vec::new();
    assert(events.deep_view() =~= Seq::<EventView>::empty());
    let mut existing = all_fact_ids(&merged);
    match merge_categories(&mut merged, source, options.on_conflict, &mut events, &mut stats, Ghost(initial_state(t0))) {
        Err(e) => {
            let ghost idss: Seq<Seq<Seq<char>>> = Seq::empty();
            assert(merged_as(t0, source@, *options, idss, Err::<MergeResult, MergeError>(e)));
            return Err(e);
        },
        Ok(()) => {},
    }
    let ghost st1 = category_fold(initial_state(t0), source@.categories, options.on_conflict, source@.categories.len())->Ok_0;
    let ghost mut idss: Seq<Seq<Seq<char>>> = Seq::empty();
    let mut q: usize = 0;
    assert(flat_ids(idss) =~= Seq::<Seq<char>>::empty());
    assert(sps.take(0) =~= Seq::<PersonView>::empty());
    assert(existing.deep_view() =~= init + flat_ids(idss));
    proof {
        lemma_category_fold_keeps_persons(initial_state(t0), source@.categories, options.on_conflict, source@.categories.len());
        assert forall|p: int, k: int| 0 <= p < t0.persons.len() && 0 <= k < t0.persons[p].facts.len() implies init.contains(
            #[trigger] t0.persons[p].facts[k].id,
        ) by {
            crate::validate::lemma_in_all_ids(t0.persons, p, k);
        }
    }
    while q < source.persons.len()
        invariant
            q <= source.persons.len(),
            sps == source@.persons,
            t0 == target@,
            crate::validate::fact_total(sps) <= usize::MAX,
            idss.len() == q,
            person_fold(st1, sps, *options, idss, q as nat) is Ok,
            ({
                let st = person_fold(st1, sps, *options, idss, q as nat)->Ok_0;
                &&& merged@ == (ChronicleView { categories: st.categories, persons: st.persons, ..t0 })
                &&& events.deep_view() == st.events
                &&& stats@ == st.stats
                &&& st.categories == st1.categories
                &&& st.stats.persons_added + st.stats.persons_merged <= q
                &&& st.stats.facts_added + st.stats.facts_skipped == crate::validate::fact_total(sps.take(q as int))
                &&& ids_assigned(init, st.src_ids, flat_ids(idss), options.regenerate_uuids)
            }),
            existing.deep_view() == init + flat_ids(idss),
            fact_ids_distinct(t0.persons) ==> fact_ids_distinct(merged@.persons) && ids_within(
                merged@.persons,
                existing.deep_view(),
            ),
            category_fold(initial_state(t0), source@.categories, options.on_conflict, source@.categories.len())
                == Ok::<MergeState, MergeErrorView>(st1),
        decreases source.persons.len() - q,
    {
        let ghost st = person_fold(st1, sps, *options, idss, q as nat)->Ok_0;
        let sp = &source.persons[q];
        assert(sps[q as int] == sp@);
        proof {
            assert(sps.take(q + 1).drop_last() =~= sps.take(q as int));
            crate::validate::lemma_fact_total_prefix(sps, q + 1);
        }
        let ghost ex_before = existing.deep_view();
        let (res, Ghost(fresh)) = merge_person(&mut merged, sp, options, &mut existing, &mut events, &mut stats, Ghost(st));
        let ghost idss2 = idss.push(fresh);
        proof {
            lemma_person_fold_prefix(st1, sps, *options, idss, idss2, q as nat);
        }
        match res {
            Err(e) => {
                proof {
                    assert(person_fold(st1, sps, *options, idss2, (q + 1) as nat) == person_step(st, sp@, *options, fresh));
                    lemma_person_fold_error_stays(st1, sps, *options, idss2, (q + 1) as nat, sps.len());
                    assert(merged_as(t0, source@, *options, idss2, Err::<MergeResult, MergeError>(e)));
                }
                return Err(e);
            },
            Ok(()) => {},
        }
        proof {
            lemma_merge_step(st1, sps, *options, idss, fresh, q as nat, init, ex_before);
            if fact_ids_distinct(t0.persons) {
                lemma_step_keeps_distinct(st, sp@, *options, fresh, ex_before);
            }
            assert(existing.deep_view() =~= init + flat_ids(idss2));
            assert(crate::validate::fact_total(sps.take(q + 1)) == crate::validate::fact_total(sps.take(q as int)) + sps[q as int].facts.len());
            idss = idss2;
        }
        q += 1;
    }
    let ghost st = person_fold(st1, sps, *options, idss, q as nat)->Ok_0;
    assert(merge_outcome(t0, source@, *options, idss) == person_fold(st1, sps, *options, idss, sps.len()));
    let warnings = dangling(&merged);
    let result = MergeResult { chronicle: merged, stats, events, warnings };
    assert(merged_as(t0, source@, *options, idss, Ok::<MergeResult, MergeError>(result)));
    Ok(result)
}


/// One more person merged: the fold advances by the step, and the IDs stay
/// assigned by the rules.
proof fn lemma_merge_step(
    st1: MergeState,
    sps: Seq<PersonView>,
    o: MergeOptions,
    idss: Seq<Seq<Seq<char>>>,
    fresh: Seq<Seq<char>>,
    q: nat,
    init: Seq<Seq<char>>,
    ex_before: Seq<Seq<char>>,
)
    requires
        q < sps.len(),
        idss.len() == q,
        person_fold(st1, sps, o, idss, q) is Ok,
        ({
            let st = person_fold(st1, sps, o, idss, q)->Ok_0;
            &&& person_step(st, sps[q as int], o, fresh) is Ok
            &&& ids_assigned(init, st.src_ids, flat_ids(idss), o.regenerate_uuids)
            &&& ex_before == init + flat_ids(idss)
            &&& ({
                let st2 = person_step(st, sps[q as int], o, fresh)->Ok_0;
                &&& st2.src_ids == st.src_ids + st2.src_ids.skip(st.src_ids.len() as int)
                &&& ids_assigned(ex_before, st2.src_ids.skip(st.src_ids.len() as int), fresh, o.regenerate_uuids)
            })
        }),
    ensures
        person_fold(st1, sps, o, idss.push(fresh), q + 1) == person_step(
            person_fold(st1, sps, o, idss, q)->Ok_0,
            sps[q as int],
            o,
            fresh,
        ),
        flat_ids(idss.push(fresh)) == flat_ids(idss) + fresh,
        ids_assigned(
            init,
            (person_fold(st1, sps, o, idss.push(fresh), q + 1)->Ok_0).src_ids,
            flat_ids(idss.push(fresh)),
            o.regenerate_uuids,
        ),
        ({
            let st = person_fold(st1, sps, o, idss, q)->Ok_0;
            let st2 = person_fold(st1, sps, o, idss.push(fresh), q + 1)->Ok_0;
            &&& st2.categories == st.categories
            &&& st2.stats.persons_added + st2.stats.persons_merged <= st.stats.persons_added + st.stats.persons_merged + 1
            &&& st2.stats.facts_added + st2.stats.facts_skipped == st.stats.facts_added + st.stats.facts_skipped + sps[q as int].facts.len()
        }),
{
    let idss2 = idss.push(fresh);
    let st = person_fold(st1, sps, o, idss, q)->Ok_0;
    let st2 = person_step(st, sps[q as int], o, fresh)->Ok_0;
    lemma_person_fold_prefix(st1, sps, o, idss, idss2, q);
    crate::lists::lemma_concat_ext(q, idss_fn(idss), idss_fn(idss2));
    assert(flat_ids(idss2) =~= flat_ids(idss) + fresh);
    lemma_ids_assigned_append(init, st.src_ids, flat_ids(idss), st2.src_ids.skip(st.src_ids.len() as int), fresh, o.regenerate_uuids);
    match person_index(st.persons, sps[q as int].id) {
        Some(i) => {
            lemma_facts_to_add_len(st.persons[i].facts, sps[q as int].facts, o.duplicates is Skip);
        },
        None => {},
    }
}

proof fn lemma_facts_to_add_len(tfacts: Seq<FactView>, sfacts: Seq<FactView>, skip_dups: bool)
    ensures
        facts_to_add(tfacts, sfacts, skip_dups).len() <= sfacts.len(),
    decreases sfacts.len(),
{
    if sfacts.len() > 0 {
        lemma_facts_to_add_len(tfacts, sfacts.drop_last(), skip_dups);
    }
}


// ---------------------------------------------------------------------------
// Laws
// ---------------------------------------------------------------------------

/// Merging an empty source changes nothing: no event, no count, no fact.
pub proof fn lemma_merge_empty_source(t: ChronicleView, s: ChronicleView, o: MergeOptions, idss: Seq<Seq<Seq<char>>>)
    requires
        s.categories.len() == 0,
        s.persons.len() == 0,
    ensures
        merge_outcome(t, s, o, idss) == Ok::<MergeState, MergeErrorView>(initial_state(t)),
{
}

/// Whether every person of `a` is still in `b` at the same place, with the
/// same ID and with its facts first among `b`'s facts for it.
pub open spec fn keeps_persons(a: Seq<PersonView>, b: Seq<PersonView>) -> bool {
    &&& a.len() <= b.len()
    &&& forall|i: int|
        0 <= i < a.len() ==> (#[trigger] b[i]).id == a[i].id && a[i].facts.len() <= b[i].facts.len()
            && b[i].facts.take(a[i].facts.len() as int) == a[i].facts
}

proof fn lemma_keeps_trans(a: Seq<PersonView>, b: Seq<PersonView>, c: Seq<PersonView>)
    requires
        keeps_persons(a, b),
        keeps_persons(b, c),
    ensures
        keeps_persons(a, c),
{
    assert forall|i: int| 0 <= i < a.len() implies (#[trigger] c[i]).id == a[i].id && a[i].facts.len()
        <= c[i].facts.len() && c[i].facts.take(a[i].facts.len() as int) == a[i].facts by {
        assert(c[i].facts.take(b[i].facts.len() as int).take(a[i].facts.len() as int) =~= c[i].facts.take(
            a[i].facts.len() as int,
        ));
    }
}

proof fn lemma_person_step_keeps(st: MergeState, sp: PersonView, o: MergeOptions, fresh: Seq<Seq<char>>)
    requires
        person_step(st, sp, o, fresh) is Ok,
    ensures
        keeps_persons(st.persons, (person_step(st, sp, o, fresh)->Ok_0).persons),
{
    let st2 = person_step(st, sp, o, fresh)->Ok_0;
    lemma_person_index(st.persons, sp.id);
    assert forall|i: int| 0 <= i < st.persons.len() implies (#[trigger] st2.persons[i]).id == st.persons[i].id
        && st.persons[i].facts.len() <= st2.persons[i].facts.len() && st2.persons[i].facts.take(
        st.persons[i].facts.len() as int,
    ) == st.persons[i].facts by {
        assert(st2.persons[i].facts.take(st.persons[i].facts.len() as int) =~= st.persons[i].facts);
    }
}

proof fn lemma_person_fold_keeps(st: MergeState, sps: Seq<PersonView>, o: MergeOptions, idss: Seq<Seq<Seq<char>>>, n: nat)
    requires
        person_fold(st, sps, o, idss, n) is Ok,
    ensures
        keeps_persons(st.persons, (person_fold(st, sps, o, idss, n)->Ok_0).persons),
    decreases n,
{
    if n == 0 {
        assert forall|i: int| 0 <= i < st.persons.len() implies (#[trigger] st.persons[i]).facts.take(
            st.persons[i].facts.len() as int,
        ) == st.persons[i].facts by {
            assert(st.persons[i].facts.take(st.persons[i].facts.len() as int) =~= st.persons[i].facts);
        }
    } else {
        let prev = person_fold(st, sps, o, idss, (n - 1) as nat);
        if prev is Ok {
            lemma_person_fold_keeps(st, sps, o, idss, (n - 1) as nat);
            lemma_person_step_keeps(prev->Ok_0, sps[n - 1], o, idss[n - 1]);
            lemma_keeps_trans(st.persons, (prev->Ok_0).persons, (person_fold(st, sps, o, idss, n)->Ok_0).persons);
        }
    }
}

proof fn lemma_category_fold_keeps_persons(st: MergeState, scs: Seq<CategoryView>, on: ConflictStrategy, n: nat)
    requires
        category_fold(st, scs, on, n) is Ok,
    ensures
        (category_fold(st, scs, on, n)->Ok_0).persons == st.persons,
    decreases n,
{
    if n > 0 {
        lemma_category_fold_keeps_persons(st, scs, on, (n - 1) as nat);
    }
}

/// A merge that succeeds loses nothing of the target: every target person
/// keeps its place and ID, and its facts come first, unchanged.
pub proof fn lemma_merge_keeps_target(t: ChronicleView, s: ChronicleView, o: MergeOptions, idss: Seq<Seq<Seq<char>>>)
    requires
        merge_outcome(t, s, o, idss) is Ok,
    ensures
        keeps_persons(t.persons, (merge_outcome(t, s, o, idss)->Ok_0).persons),
{
    let c = category_fold(initial_state(t), s.categories, o.on_conflict, s.categories.len());
    lemma_category_fold_keeps_persons(initial_state(t), s.categories, o.on_conflict, s.categories.len());
    lemma_person_fold_keeps(c->Ok_0, s.persons, o, idss, s.persons.len());
}


/// Whether no two entries of `ids` are equal.
pub open spec fn distinct_ids(ids: Seq<Seq<char>>) -> bool {
    forall|i: int, j: int| 0 <= i < j < ids.len() ==> ids[i] != ids[j]
}

proof fn lemma_self_category_fold(st: MergeState, cs: Seq<CategoryView>, on: ConflictStrategy, n: nat)
    requires
        st.categories == cs,
        distinct_ids(cs.map_values(|c: CategoryView| c.id)),
        n <= cs.len(),
    ensures
        category_fold(st, cs, on, n) is Ok,
        (category_fold(st, cs, on, n)->Ok_0).categories == cs,
        (category_fold(st, cs, on, n)->Ok_0).persons == st.persons,
        (category_fold(st, cs, on, n)->Ok_0).stats.categories_added == st.stats.categories_added,
        (category_fold(st, cs, on, n)->Ok_0).stats.persons_added == st.stats.persons_added,
        (category_fold(st, cs, on, n)->Ok_0).stats.facts_added == st.stats.facts_added,
    decreases n,
{
    if n > 0 {
        lemma_self_category_fold(st, cs, on, (n - 1) as nat);
        let sc = cs[n - 1];
        lemma_category_index(cs, sc.id);
        let ids = cs.map_values(|c: CategoryView| c.id);
        match category_index(cs, sc.id) {
            Some(i) => {
                if i < n - 1 {
                    assert(ids[i] == ids[n - 1]);
                }
                if i > n - 1 {
                    assert(cs[n - 1].id == sc.id);
                }
                assert(i == n - 1);
            },
            None => {
                assert(cs[n - 1].id == sc.id);
            },
        }
    }
}

/// When every fact of `s` has a like in `t`, none of `s` is added.
proof fn lemma_nothing_to_add(t: Seq<FactView>, s: Seq<FactView>)
    requires
        forall|k: int| 0 <= k < s.len() ==> owned_like(t, #[trigger] s[k]),
    ensures
        facts_to_add(t, s, true).len() == 0,
    decreases s.len(),
{
    if s.len() > 0 {
        assert forall|k: int| 0 <= k < s.len() - 1 implies owned_like(t, #[trigger] s.drop_last()[k]) by {
            assert(s.drop_last()[k] == s[k]);
        }
        lemma_nothing_to_add(t, s.drop_last());
        let f = s[s.len() - 1];
        assert(owned_like(t, f));
        let i = choose|i: int|
            0 <= i < t.len() && #[trigger] t[i].date == f.date && t[i].category == f.category && t[i].text == f.text;
        let prev = facts_to_add(t, s.drop_last(), true);
        assert((t + prev)[i].date == f.date);
    }
}

proof fn lemma_self_person_fold(st: MergeState, ps: Seq<PersonView>, o: MergeOptions, idss: Seq<Seq<Seq<char>>>, n: nat)
    requires
        st.persons == ps,
        o.duplicates is Skip,
        distinct_ids(ps.map_values(|p: PersonView| p.id)),
        n <= ps.len(),
    ensures
        person_fold(st, ps, o, idss, n) is Ok,
        (person_fold(st, ps, o, idss, n)->Ok_0).persons == ps,
        (person_fold(st, ps, o, idss, n)->Ok_0).categories == st.categories,
        (person_fold(st, ps, o, idss, n)->Ok_0).stats.categories_added == st.stats.categories_added,
        (person_fold(st, ps, o, idss, n)->Ok_0).stats.persons_added == st.stats.persons_added,
        (person_fold(st, ps, o, idss, n)->Ok_0).stats.facts_added == st.stats.facts_added,
    decreases n,
{
    if n > 0 {
        lemma_self_person_fold(st, ps, o, idss, (n - 1) as nat);
        let sp = ps[n - 1];
        lemma_person_index(ps, sp.id);
        let ids = ps.map_values(|p: PersonView| p.id);
        match person_index(ps, sp.id) {
            Some(i) => {
                if i < n - 1 {
                    assert(ids[i] == ids[n - 1]);
                }
                if i > n - 1 {
                    assert(ps[n - 1].id == sp.id);
                }
                assert(i == n - 1);
            },
            None => {
                assert(ps[n - 1].id == sp.id);
            },
        }
        assert forall|k: int| 0 <= k < sp.facts.len() implies owned_like(sp.facts, #[trigger] sp.facts[k]) by {
            assert(sp.facts[k].date == sp.facts[k].date);
        }
        lemma_nothing_to_add(sp.facts, sp.facts);
        let adds = facts_to_add(sp.facts, sp.facts, true);
        assert(with_ids(adds, idss[n - 1]) =~= Seq::<FactView>::empty());
        assert(sp.facts + with_ids(adds, idss[n - 1]) =~= sp.facts);
        assert(ps.update(n - 1, PersonView { name: sp.name, facts: sp.facts, ..sp }) =~= ps);
    }
}

/// Merging a chronicle into itself with duplicates skipped changes nothing:
/// where its category IDs and person IDs are unique, the merge succeeds
/// whatever the conflict strategy, its categories and persons are the
/// chronicle's own, and no category, person or fact is counted as added.
pub proof fn lemma_merge_into_itself(c: ChronicleView, o: MergeOptions, idss: Seq<Seq<Seq<char>>>)
    requires
        o.duplicates is Skip,
        distinct_ids(c.categories.map_values(|x: CategoryView| x.id)),
        distinct_ids(c.persons.map_values(|p: PersonView| p.id)),
    ensures
        merge_outcome(c, c, o, idss) is Ok,
        (merge_outcome(c, c, o, idss)->Ok_0).categories == c.categories,
        (merge_outcome(c, c, o, idss)->Ok_0).persons == c.persons,
        (merge_outcome(c, c, o, idss)->Ok_0).stats.categories_added == 0,
        (merge_outcome(c, c, o, idss)->Ok_0).stats.persons_added == 0,
        (merge_outcome(c, c, o, idss)->Ok_0).stats.facts_added == 0,
{
    let st0 = initial_state(c);
    lemma_self_category_fold(st0, c.categories, o.on_conflict, c.categories.len());
    let st1 = category_fold(st0, c.categories, o.on_conflict, c.categories.len())->Ok_0;
    lemma_self_person_fold(st1, c.persons, o, idss, c.persons.len());
}


proof fn lemma_fact_total_push(ps: Seq<PersonView>, p: PersonView)
    ensures
        fact_total(ps.push(p)) == fact_total(ps) + p.facts.len(),
{
    assert(ps.push(p).drop_last() =~= ps);
}

proof fn lemma_fact_total_update(ps: Seq<PersonView>, i: int, p: PersonView)
    requires
        0 <= i < ps.len(),
    ensures
        fact_total(ps.update(i, p)) + ps[i].facts.len() == fact_total(ps) + p.facts.len(),
    decreases ps.len(),
{
    if i == ps.len() - 1 {
        assert(ps.update(i, p).drop_last() =~= ps.drop_last());
    } else {
        lemma_fact_total_update(ps.drop_last(), i, p);
        assert(ps.update(i, p).drop_last() =~= ps.drop_last().update(i, p));
    }
}

proof fn lemma_category_fold_counts(st: MergeState, scs: Seq<CategoryView>, on: ConflictStrategy, n: nat)
    requires
        category_fold(st, scs, on, n) is Ok,
    ensures
        ({
            let r = category_fold(st, scs, on, n)->Ok_0;
            &&& r.categories.len() == st.categories.len() + r.stats.categories_added - st.stats.categories_added
            &&& r.persons == st.persons
            &&& r.stats.persons_added == st.stats.persons_added
            &&& r.stats.facts_added == st.stats.facts_added
        }),
    decreases n,
{
    if n > 0 {
        lemma_category_fold_counts(st, scs, on, (n - 1) as nat);
        let prev = category_fold(st, scs, on, (n - 1) as nat)->Ok_0;
        lemma_category_index(prev.categories, scs[n - 1].id);
    }
}

proof fn lemma_person_fold_counts(st: MergeState, sps: Seq<PersonView>, o: MergeOptions, idss: Seq<Seq<Seq<char>>>, n: nat)
    requires
        person_fold(st, sps, o, idss, n) is Ok,
    ensures
        ({
            let r = person_fold(st, sps, o, idss, n)->Ok_0;
            &&& r.categories == st.categories
            &&& r.stats.categories_added == st.stats.categories_added
            &&& r.persons.len() == st.persons.len() + r.stats.persons_added - st.stats.persons_added
            &&& fact_total(r.persons) == fact_total(st.persons) + r.stats.facts_added - st.stats.facts_added
        }),
    decreases n,
{
    if n > 0 {
        lemma_person_fold_counts(st, sps, o, idss, (n - 1) as nat);
        let prev = person_fold(st, sps, o, idss, (n - 1) as nat)->Ok_0;
        let sp = sps[n - 1];
        let fresh = idss[n - 1];
        lemma_person_index(prev.persons, sp.id);
        match person_index(prev.persons, sp.id) {
            Some(i) => {
                let tp = prev.persons[i];
                let adds = facts_to_add(tp.facts, sp.facts, o.duplicates is Skip);
                let conflict = tp.name != sp.name;
                let name = if conflict && o.on_conflict is Overwrite {
                    sp.name
                } else {
                    tp.name
                };
                let np = PersonView { name, facts: tp.facts + with_ids(adds, fresh), ..tp };
                lemma_fact_total_update(prev.persons, i, np);
            },
            None => {
                lemma_fact_total_push(prev.persons, PersonView { facts: with_ids(sp.facts, fresh), ..sp });
            },
        }
    }
}

/// A successful merge grows the target by exactly what its statistics
/// count: its categories by the categories added, its persons by the
/// persons added and its facts by the facts added.
pub proof fn lemma_merge_counts(t: ChronicleView, s: ChronicleView, o: MergeOptions, idss: Seq<Seq<Seq<char>>>)
    requires
        merge_outcome(t, s, o, idss) is Ok,
    ensures
        (merge_outcome(t, s, o, idss)->Ok_0).categories.len() == t.categories.len() + (merge_outcome(
            t,
            s,
            o,
            idss,
        )->Ok_0).stats.categories_added,
        (merge_outcome(t, s, o, idss)->Ok_0).persons.len() == t.persons.len() + (merge_outcome(
            t,
            s,
            o,
            idss,
        )->Ok_0).stats.persons_added,
        fact_total((merge_outcome(t, s, o, idss)->Ok_0).persons) == fact_total(t.persons) + (merge_outcome(
            t,
            s,
            o,
            idss,
        )->Ok_0).stats.facts_added,
{
    let st0 = initial_state(t);
    lemma_category_fold_counts(st0, s.categories, o.on_conflict, s.categories.len());
    let st1 = category_fold(st0, s.categories, o.on_conflict, s.categories.len())->Ok_0;
    lemma_person_fold_counts(st1, s.persons, o, idss, s.persons.len());
}


/// The IDs a merge gives to added facts repeat neither each other nor an ID
/// of the target's facts, when those do not repeat each other.
pub proof fn lemma_assigned_ids_distinct(init: Seq<Seq<char>>, src: Seq<Seq<char>>, ids: Seq<Seq<char>>, regen: bool)
    requires
        ids_assigned(init, src, ids, regen),
        init.no_duplicates(),
    ensures
        (init + ids).no_duplicates(),
{
    let all = init + ids;
    assert forall|a: int, b: int| 0 <= a < all.len() && 0 <= b < all.len() && a != b implies all[a] != all[b] by {
        if a >= init.len() || b >= init.len() {
            let (x, y) = if a < b {
                (a, b)
            } else {
                (b, a)
            };
            if y >= init.len() {
                let q = y - init.len();
                assert(all[y] == ids[q]);
                let pre = init + ids.take(q);
                assert(pre[x] == all[x]);
                assert(!pre.contains(ids[q]));
            }
        }
    }
}

proof fn lemma_category_fold_distinct(st: MergeState, scs: Seq<CategoryView>, on: ConflictStrategy, n: nat)
    requires
        category_fold(st, scs, on, n) is Ok,
        distinct_ids(st.categories.map_values(|c: CategoryView| c.id)),
    ensures
        distinct_ids((category_fold(st, scs, on, n)->Ok_0).categories.map_values(|c: CategoryView| c.id)),
    decreases n,
{
    if n > 0 {
        lemma_category_fold_distinct(st, scs, on, (n - 1) as nat);
        let prev = category_fold(st, scs, on, (n - 1) as nat)->Ok_0;
        let sc = scs[n - 1];
        lemma_category_index(prev.categories, sc.id);
        let r = category_fold(st, scs, on, n)->Ok_0;
        let a = prev.categories.map_values(|c: CategoryView| c.id);
        let b = r.categories.map_values(|c: CategoryView| c.id);
        match category_index(prev.categories, sc.id) {
            Some(i) => {
                assert(b =~= a);
            },
            None => {
                assert(b =~= a.push(sc.id));
                assert forall|x: int, y: int| 0 <= x < y < b.len() implies b[x] != b[y] by {
                    if y == a.len() {
                        assert(prev.categories[x].id != sc.id);
                    } else {
                        assert(a[x] != a[y]);
                    }
                }
            },
        }
    }
}

proof fn lemma_person_fold_distinct(st: MergeState, sps: Seq<PersonView>, o: MergeOptions, idss: Seq<Seq<Seq<char>>>, n: nat)
    requires
        person_fold(st, sps, o, idss, n) is Ok,
        distinct_ids(st.persons.map_values(|p: PersonView| p.id)),
    ensures
        distinct_ids((person_fold(st, sps, o, idss, n)->Ok_0).persons.map_values(|p: PersonView| p.id)),
    decreases n,
{
    if n > 0 {
        lemma_person_fold_distinct(st, sps, o, idss, (n - 1) as nat);
        let prev = person_fold(st, sps, o, idss, (n - 1) as nat)->Ok_0;
        let sp = sps[n - 1];
        lemma_person_index(prev.persons, sp.id);
        let r = person_fold(st, sps, o, idss, n)->Ok_0;
        let a = prev.persons.map_values(|p: PersonView| p.id);
        let b = r.persons.map_values(|p: PersonView| p.id);
        match person_index(prev.persons, sp.id) {
            Some(i) => {
                assert(b =~= a);
            },
            None => {
                assert(b =~= a.push(sp.id));
                assert forall|x: int, y: int| 0 <= x < y < b.len() implies b[x] != b[y] by {
                    if y == a.len() {
                        assert(prev.persons[x].id != sp.id);
                    } else {
                        assert(a[x] != a[y]);
                    }
                }
            },
        }
    }
}

/// A successful merge keeps category IDs and person IDs free of repeats when
/// the target's are.
pub proof fn lemma_merge_keeps_ids_distinct(t: ChronicleView, s: ChronicleView, o: MergeOptions, idss: Seq<Seq<Seq<char>>>)
    requires
        merge_outcome(t, s, o, idss) is Ok,
        distinct_ids(t.categories.map_values(|c: CategoryView| c.id)),
        distinct_ids(t.persons.map_values(|p: PersonView| p.id)),
    ensures
        distinct_ids((merge_outcome(t, s, o, idss)->Ok_0).categories.map_values(|c: CategoryView| c.id)),
        distinct_ids((merge_outcome(t, s, o, idss)->Ok_0).persons.map_values(|p: PersonView| p.id)),
{
    let st0 = initial_state(t);
    lemma_category_fold_distinct(st0, s.categories, o.on_conflict, s.categories.len());
    lemma_category_fold_counts(st0, s.categories, o.on_conflict, s.categories.len());
    let st1 = category_fold(st0, s.categories, o.on_conflict, s.categories.len())->Ok_0;
    lemma_person_fold_distinct(st1, s.persons, o, idss, s.persons.len());
    lemma_person_fold_counts(st1, s.persons, o, idss, s.persons.len());
}


/// Whether no two facts of `ps` (anywhere) carry the same ID.
pub open spec fn fact_ids_distinct(ps: Seq<PersonView>) -> bool {
    forall|p: int, k: int, q: int, j: int|
        0 <= p < ps.len() && 0 <= k < ps[p].facts.len() && 0 <= q < ps.len() && 0 <= j < ps[q].facts.len() && (p
            != q || k != j) ==> #[trigger] ps[p].facts[k].id != #[trigger] ps[q].facts[j].id
}

/// Whether every fact of `ps` carries an ID of `pool`.
pub open spec fn ids_within(ps: Seq<PersonView>, pool: Seq<Seq<char>>) -> bool {
    forall|p: int, k: int| 0 <= p < ps.len() && 0 <= k < ps[p].facts.len() ==> pool.contains(#[trigger] ps[p].facts[k].id)
}

/// Facts appended with IDs assigned by the rules keep all fact IDs apart.
proof fn lemma_step_keeps_distinct(st: MergeState, sp: PersonView, o: MergeOptions, fresh: Seq<Seq<char>>, pool: Seq<Seq<char>>)
    requires
        person_step(st, sp, o, fresh) is Ok,
        fact_ids_distinct(st.persons),
        ids_within(st.persons, pool),
        ({
            let st2 = person_step(st, sp, o, fresh)->Ok_0;
            &&& st2.src_ids == st.src_ids + st2.src_ids.skip(st.src_ids.len() as int)
            &&& ids_assigned(pool, st2.src_ids.skip(st.src_ids.len() as int), fresh, o.regenerate_uuids)
        }),
    ensures
        fact_ids_distinct((person_step(st, sp, o, fresh)->Ok_0).persons),
        ids_within((person_step(st, sp, o, fresh)->Ok_0).persons, pool + fresh),
{
    let st2 = person_step(st, sp, o, fresh)->Ok_0;
    let ps = st.persons;
    let ps2 = st2.persons;
    let pool2 = pool + fresh;
    lemma_person_index(ps, sp.id);
    // each fresh ID is new
    assert forall|x: int| 0 <= x < fresh.len() implies !(pool + fresh.take(x)).contains(#[trigger] fresh[x]) by {}
    assert forall|x: int, y: int| 0 <= x < y < fresh.len() implies fresh[x] != fresh[y] by {
        assert((pool + fresh.take(y))[pool.len() + x] == fresh[x]);
    }
    assert forall|x: int| 0 <= x < fresh.len() implies !pool.contains(#[trigger] fresh[x]) by {
        if pool.contains(fresh[x]) {
            let z = choose|z: int| 0 <= z < pool.len() && pool[z] == fresh[x];
            assert((pool + fresh.take(x))[z] == fresh[x]);
        }
    }
    assert forall|x: int| 0 <= x < fresh.len() implies pool2.contains(#[trigger] fresh[x]) by {
        assert(pool2[pool.len() + x] == fresh[x]);
    }
    assert forall|z: Seq<char>| pool.contains(z) implies pool2.contains(z) by {
        let w = choose|w: int| 0 <= w < pool.len() && pool[w] == z;
        assert(pool2[w] == z);
    }
    match person_index(ps, sp.id) {
        Some(i) => {
            let tp = ps[i];
            let adds = facts_to_add(tp.facts, sp.facts, o.duplicates is Skip);
            assert(st2.src_ids.skip(st.src_ids.len() as int) =~= ids_of(adds));
            let nf = tp.facts + with_ids(adds, fresh);
            assert(ps2[i].facts == nf);
            // the ID at a position of ps2: an old one or a fresh one
            assert forall|p: int, k: int| 0 <= p < ps2.len() && 0 <= k < ps2[p].facts.len() implies pool2.contains(
                #[trigger] ps2[p].facts[k].id,
            ) by {
                if p == i && k >= tp.facts.len() {
                    assert(ps2[p].facts[k].id == fresh[k - tp.facts.len()]);
                } else {
                    assert(ps2[p].facts[k].id == ps[p].facts[k].id);
                    assert(pool.contains(ps[p].facts[k].id));
                }
            }
            assert forall|p: int, k: int, q: int, j: int|
                0 <= p < ps2.len() && 0 <= k < ps2[p].facts.len() && 0 <= q < ps2.len() && 0 <= j
                    < ps2[q].facts.len() && (p != q || k != j) implies #[trigger] ps2[p].facts[k].id
                != #[trigger] ps2[q].facts[j].id by {
                let new_pk = p == i && k >= tp.facts.len();
                let new_qj = q == i && j >= tp.facts.len();
                if new_pk && new_qj {
                    let x = k - tp.facts.len();
                    let y = j - tp.facts.len();
                    assert(ps2[p].facts[k].id == fresh[x]);
                    assert(ps2[q].facts[j].id == fresh[y]);
                    if x < y {
                        assert(fresh[x] != fresh[y]);
                    } else {
                        assert(fresh[y] != fresh[x]);
                    }
                } else if new_pk {
                    assert(ps2[p].facts[k].id == fresh[k - tp.facts.len()]);
                    assert(ps2[q].facts[j].id == ps[q].facts[j].id);
                    assert(pool.contains(ps[q].facts[j].id));
                } else if new_qj {
                    assert(ps2[q].facts[j].id == fresh[j - tp.facts.len()]);
                    assert(ps2[p].facts[k].id == ps[p].facts[k].id);
                    assert(pool.contains(ps[p].facts[k].id));
                } else {
                    assert(ps2[p].facts[k].id == ps[p].facts[k].id);
                    assert(ps2[q].facts[j].id == ps[q].facts[j].id);
                }
            }
        },
        None => {
            assert(st2.src_ids.skip(st.src_ids.len() as int) =~= ids_of(sp.facts));
            let n = ps.len();
            assert forall|p: int, k: int| 0 <= p < ps2.len() && 0 <= k < ps2[p].facts.len() implies pool2.contains(
                #[trigger] ps2[p].facts[k].id,
            ) by {
                if p == n {
                    assert(ps2[p].facts[k].id == fresh[k]);
                } else {
                    assert(ps2[p] == ps[p]);
                    assert(pool.contains(ps[p].facts[k].id));
                }
            }
            assert forall|p: int, k: int, q: int, j: int|
                0 <= p < ps2.len() && 0 <= k < ps2[p].facts.len() && 0 <= q < ps2.len() && 0 <= j
                    < ps2[q].facts.len() && (p != q || k != j) implies #[trigger] ps2[p].facts[k].id
                != #[trigger] ps2[q].facts[j].id by {
                if p == n && q == n {
                    assert(ps2[p].facts[k].id == fresh[k]);
                    assert(ps2[q].facts[j].id == fresh[j]);
                    if k < j {
                        assert(fresh[k] != fresh[j]);
                    } else {
                        assert(fresh[j] != fresh[k]);
                    }
                } else if p == n {
                    assert(ps2[p].facts[k].id == fresh[k]);
                    assert(ps2[q] == ps[q]);
                    assert(pool.contains(ps[q].facts[j].id));
                } else if q == n {
                    assert(ps2[q].facts[j].id == fresh[j]);
                    assert(ps2[p] == ps[p]);
                    assert(pool.contains(ps[p].facts[k].id));
                } else {
                    assert(ps2[p] == ps[p]);
                    assert(ps2[q] == ps[q]);
                }
            }
        },
    }
}


/// The first index of an ID depends only on the IDs in the list.
proof fn lemma_category_index_same_ids(a: Seq<CategoryView>, b: Seq<CategoryView>, id: Seq<char>)
    requires
        a.len() == b.len(),
        forall|k: int| 0 <= k < a.len() ==> #[trigger] a[k].id == b[k].id,
    ensures
        category_index(a, id) == category_index(b, id),
    decreases a.len(),
{
    if a.len() > 0 {
        assert forall|k: int| 0 <= k < a.drop_last().len() implies #[trigger] a.drop_last()[k].id == b.drop_last()[k].id by {
            assert(a[k].id == b[k].id);
        }
        lemma_category_index_same_ids(a.drop_last(), b.drop_last(), id);
        assert(a.last().id == b.last().id) by {
            assert(a[a.len() - 1].id == b[b.len() - 1].id);
        }
    }
}

/// Merging a source category with `Overwrite` leaves the first target
/// category with its ID equal to it in every field (its label and color
/// replace a conflicting target's), and every other category as it was; a
/// new ID is appended.
pub proof fn lemma_overwrite_category_step(st: MergeState, sc: CategoryView)
    ensures
        category_step(st, sc, ConflictStrategy::Overwrite) is Ok,
        ({
            let r = category_step(st, sc, ConflictStrategy::Overwrite)->Ok_0;
            &&& r.categories.len() == st.categories.len() || r.categories == st.categories.push(sc)
            &&& category_index(r.categories, sc.id) matches Some(i) && r.categories[i] == sc
            &&& forall|k: int| 0 <= k < st.categories.len() && st.categories[k].id != sc.id ==> #[trigger] r.categories[k]
                == st.categories[k]
            &&& forall|k: int| 0 <= k < st.categories.len() ==> #[trigger] r.categories[k].id == st.categories[k].id
        }),
{
    let cs = st.categories;
    lemma_category_index(cs, sc.id);
    let r = category_step(st, sc, ConflictStrategy::Overwrite)->Ok_0;
    match category_index(cs, sc.id) {
        Some(i) => {
            let tc = cs[i];
            assert forall|k: int| 0 <= k < cs.len() implies #[trigger] r.categories[k].id == cs[k].id by {}
            lemma_category_index_same_ids(r.categories, cs, sc.id);
            if tc.label != sc.label || tc.color != sc.color {
                assert(r.categories[i] == sc);
            } else {
                assert(tc == sc);
            }
        },
        None => {
            let n = cs.len();
            assert(r.categories.drop_last() =~= cs);
            assert(r.categories[n as int] == sc);
            assert(category_index(r.categories, sc.id) == Some(n as int));
        },
    }
}

/// Merging with `Overwrite` a source whose category IDs are distinct makes
/// every source category appear in the result exactly as in the source:
/// the first category with its ID has its label and color.
pub proof fn lemma_merge_overwrites_categories(t: ChronicleView, s: ChronicleView, o: MergeOptions, idss: Seq<Seq<Seq<char>>>)
    requires
        o.on_conflict is Overwrite,
        distinct_ids(s.categories.map_values(|c: CategoryView| c.id)),
        merge_outcome(t, s, o, idss) is Ok,
    ensures
        forall|j: int|
            0 <= j < s.categories.len() ==> (category_index(
                (merge_outcome(t, s, o, idss)->Ok_0).categories,
                (#[trigger] s.categories[j]).id,
            ) matches Some(i) && (merge_outcome(t, s, o, idss)->Ok_0).categories[i] == s.categories[j]),
{
    let st0 = initial_state(t);
    let scs = s.categories;
    lemma_overwrite_fold(st0, scs, scs.len());
    let st1 = category_fold(st0, scs, o.on_conflict, scs.len())->Ok_0;
    lemma_person_fold_counts(st1, s.persons, o, idss, s.persons.len());
}

proof fn lemma_overwrite_fold(st: MergeState, scs: Seq<CategoryView>, n: nat)
    requires
        n <= scs.len(),
        distinct_ids(scs.map_values(|c: CategoryView| c.id)),
    ensures
        category_fold(st, scs, ConflictStrategy::Overwrite, n) is Ok,
        forall|j: int|
            0 <= j < n ==> (category_index(
                (category_fold(st, scs, ConflictStrategy::Overwrite, n)->Ok_0).categories,
                (#[trigger] scs[j]).id,
            ) matches Some(i) && (category_fold(st, scs, ConflictStrategy::Overwrite, n)->Ok_0).categories[i]
                == scs[j]),
    decreases n,
{
    if n > 0 {
        lemma_overwrite_fold(st, scs, (n - 1) as nat);
        let prev = category_fold(st, scs, ConflictStrategy::Overwrite, (n - 1) as nat)->Ok_0;
        let sc = scs[n - 1];
        lemma_overwrite_category_step(prev, sc);
        let r = category_fold(st, scs, ConflictStrategy::Overwrite, n)->Ok_0;
        let ids = scs.map_values(|c: CategoryView| c.id);
        assert forall|j: int| 0 <= j < n implies category_index(r.categories, (#[trigger] scs[j]).id) matches Some(i)
            && r.categories[i] == scs[j] by {
            if j < n - 1 {
                assert(ids[j] != ids[n - 1]);
                let i = category_index(prev.categories, scs[j].id)->0;
                lemma_category_index(prev.categories, scs[j].id);
                if r.categories == prev.categories.push(sc) {
                    assert(r.categories.drop_last() =~= prev.categories);
                    assert(category_index(r.categories, scs[j].id) == Some(i));
                    assert(r.categories[i] == prev.categories[i]);
                } else {
                    assert forall|k: int| 0 <= k < r.categories.len() implies #[trigger] r.categories[k].id
                        == prev.categories[k].id by {}
                    lemma_category_index_same_ids(r.categories, prev.categories, scs[j].id);
                    assert(prev.categories[i].id == scs[j].id);
                    assert(r.categories[i] == prev.categories[i]);
                }
            }
        }
    }
}

} // verus!
