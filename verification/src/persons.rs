//! Person management operations.
use vstd::prelude::*;
use crate::facts::{join_strs, joined, others, person_id_list};
use crate::model::{person_ids_of, person_index, lemma_person_index, Chronicle, ChronicleView, Fact, FactView, Person, PersonView};
use crate::text::{decimal, is_blank, own, push_decimal, str_eq, str_is_blank};
use crate::validate::{is_valid_id, valid_id};

verus! {

/// Error that can occur when managing persons.
#[derive(Debug)]
pub enum PersonError {
    DuplicateId { id: String },
    NotFound { id: String, available: Vec<String> },
    InvalidId { id: String },
    EmptyName,
    Referenced { id: String, count: usize },
}

/// View of a [`PersonError`].
pub enum PersonErrorView {
    DuplicateId { id: Seq<char> },
    NotFound { id: Seq<char>, available: Seq<Seq<char>> },
    InvalidId { id: Seq<char> },
    EmptyName,
    Referenced { id: Seq<char>, count: nat },
}

impl View for PersonError {
    type V = PersonErrorView;

    open spec fn view(&self) -> PersonErrorView {
        match self {
            PersonError::DuplicateId { id } => PersonErrorView::DuplicateId { id: id@ },
            PersonError::NotFound { id, available } => PersonErrorView::NotFound {
                id: id@,
                available: available.deep_view(),
            },
            PersonError::InvalidId { id } => PersonErrorView::InvalidId { id: id@ },
            PersonError::EmptyName => PersonErrorView::EmptyName,
            PersonError::Referenced { id, count } => PersonErrorView::Referenced {
                id: id@,
                count: *count as nat,
            },
        }
    }
}

/// The human-readable description of a person error.
pub open spec fn person_error_message(e: PersonErrorView) -> Seq<char> {
    match e {
        PersonErrorView::DuplicateId { id } => "Person ID '"@ + id + "' already exists"@,
        PersonErrorView::NotFound { id, available } => "Person '"@ + id
            + "' not found. Available persons: "@ + joined(available, ", "@),
        PersonErrorView::InvalidId { id } => "Invalid person ID '"@ + id
            + "': must match ^[a-z][a-z0-9_-]*$"@,
        PersonErrorView::EmptyName => "Person name cannot be empty"@,
        PersonErrorView::Referenced { id, count } => "Person '"@ + id
            + "' is referenced in the 'with' field of "@ + decimal(count)
            + " fact(s); use --force to remove anyway and strip the references"@,
    }
}

impl PersonError {
    /// The human-readable description of this error.
    pub fn message(&self) -> (r: String)
        ensures
            r@ == person_error_message(self@),
    {
        match self {
            PersonError::DuplicateId { id } => {
                let mut m = String::from_str("Person ID '");
                m.append(id.as_str());
                m.append("' already exists");
                m
            },
            PersonError::NotFound { id, available } => {
                let mut m = String::from_str("Person '");
                m.append(id.as_str());
                m.append("' not found. Available persons: ");
                let j = join_strs(available, ", ");
                m.append(j.as_str());
                m
            },
            PersonError::InvalidId { id } => {
                let mut m = String::from_str("Invalid person ID '");
                m.append(id.as_str());
                m.append("': must match ^[a-z][a-z0-9_-]*$");
                m
            },
            PersonError::EmptyName => String::from_str("Person name cannot be empty"),
            PersonError::Referenced { id, count } => {
                let mut m = String::from_str("Person '");
                m.append(id.as_str());
                m.append("' is referenced in the 'with' field of ");
                push_decimal(&mut m, *count);
                m.append(" fact(s); use --force to remove anyway and strip the references");
                m
            },
        }
    }
}

// ---------------------------------------------------------------------------
// Adding persons
// ---------------------------------------------------------------------------

/// What adding a person with `id` and `name` to `c` gives: an ID off the
/// schema pattern, a blank name or a taken ID is refused (in that order);
/// otherwise the person, with no facts, is appended.
pub open spec fn person_added(c: ChronicleView, id: Seq<char>, name: Seq<char>) -> Result<ChronicleView, PersonErrorView> {
    if !valid_id(id) {
        Err(PersonErrorView::InvalidId { id })
    } else if is_blank(name) {
        Err(PersonErrorView::EmptyName)
    } else if person_index(c.persons, id) is Some {
        Err(PersonErrorView::DuplicateId { id })
    } else {
        Ok(ChronicleView { persons: c.persons.push(PersonView { id, name, facts: Seq::empty() }), ..c })
    }
}

/// Add a new person with no facts.
pub fn add_person(chronicle: &mut Chronicle, id: &str, name: &str) -> (r: Result<(), PersonError>)
    ensures
        match person_added(old(chronicle)@, id@, name@) {
            Ok(c) => r is Ok && final(chronicle)@ == c,
            Err(e) => r matches Err(x) && x@ == e && final(chronicle)@ == old(chronicle)@,
        },
{
    if !is_valid_id(id) {
        return Err(PersonError::InvalidId { id: own(id) });
    }
    if str_is_blank(name) {
        return Err(PersonError::EmptyName);
    }
    if chronicle.person_position(id).is_some() {
        return Err(PersonError::DuplicateId { id: own(id) });
    }
    let ghost before = chronicle.persons.deep_view();
    let p = Person::new(id, name);
    let ghost pv = p@;
    chronicle.persons.push(p);
    assert(chronicle.persons.deep_view() =~= before.push(pv));
    Ok(())
}

// ---------------------------------------------------------------------------
// Removing persons
// ---------------------------------------------------------------------------

/// How often `id` occurs in `w`.
pub open spec fn count_in(w: Seq<Seq<char>>, id: Seq<char>) -> nat
    decreases w.len(),
{
    if w.len() == 0 {
        0
    } else {
        count_in(w.drop_last(), id) + if w.last() == id {
            1nat
        } else {
            0nat
        }
    }
}

/// How often the facts of `facts` name `id` in their `with` lists.
pub open spec fn refs_in_facts(facts: Seq<FactView>, id: Seq<char>) -> nat
    decreases facts.len(),
{
    if facts.len() == 0 {
        0
    } else {
        refs_in_facts(facts.drop_last(), id) + match facts.last().with {
            Some(w) => count_in(w, id),
            None => 0nat,
        }
    }
}

/// How often the facts of persons other than `id` name `id`.
pub open spec fn reference_count(ps: Seq<PersonView>, id: Seq<char>) -> nat
    decreases ps.len(),
{
    if ps.len() == 0 {
        0
    } else {
        reference_count(ps.drop_last(), id) + if ps.last().id == id {
            0nat
        } else {
            refs_in_facts(ps.last().facts, id)
        }
    }
}

/// Fact `f` with `id` taken out of its `with` list; a list left empty is
/// dropped.
pub open spec fn strip_fact(f: FactView, id: Seq<char>) -> FactView {
    match f.with {
        Some(w) => FactView {
            with: if others(w, id).len() == 0 {
                None
            } else {
                Some(others(w, id))
            },
            ..f
        },
        None => f,
    }
}

/// Person `p` with `id` stripped from the facts, unless `p` is `id` itself.
pub open spec fn strip_person(p: PersonView, id: Seq<char>) -> PersonView {
    if p.id == id {
        p
    } else {
        PersonView { facts: p.facts.map_values(|f: FactView| strip_fact(f, id)), ..p }
    }
}

/// What removing the person with `id` from `c` gives: the removed person
/// (the first with that ID), the number of references stripped, and the
/// chronicle without that person. An unknown ID is refused, and so are
/// references from other persons' facts unless `force` is set, in which
/// case they are stripped.
pub open spec fn person_removed(c: ChronicleView, id: Seq<char>, force: bool) -> Result<(PersonView, nat, ChronicleView), PersonErrorView> {
    let ps = c.persons;
    match person_index(ps, id) {
        None => Err(PersonErrorView::NotFound { id, available: person_ids_of(ps) }),
        Some(i) => {
            let n = reference_count(ps, id);
            if n > 0 && !force {
                Err(PersonErrorView::Referenced { id, count: n })
            } else {
                let ps2 = if n > 0 {
                    ps.map_values(|p: PersonView| strip_person(p, id))
                } else {
                    ps
                };
                Ok((ps[i], n, ChronicleView { persons: ps2.remove(i), ..c }))
            }
        },
    }
}

/// Result of removing a person.
#[derive(Debug)]
pub struct RemovePersonResult {
    /// The removed person (with all their facts)
    pub person: Person,
    /// Number of 'with' references to this person stripped from other facts
    pub references_stripped: usize,
}

fn count_refs(w: &Vec<String>, id: &str) -> (r: usize)
    ensures
        r == count_in(w.deep_view(), id@),
{
    let mut n: usize = 0;
    let mut k: usize = 0;
    assert(w.deep_view().take(0) =~= Seq::<Seq<char>>::empty());
    while k < w.len()
        invariant
            k <= w.len(),
            n == count_in(w.deep_view().take(k as int), id@),
            n <= k,
        decreases w.len() - k,
    {
        assert(w.deep_view().take(k + 1).drop_last() =~= w.deep_view().take(k as int));
        assert(w.deep_view().take(k + 1).last() == w@[k as int]@);
        if str_eq(w[k].as_str(), id) {
            n += 1;
        }
        k += 1;
    }
    assert(w.deep_view().take(w.len() as int) =~= w.deep_view());
    n
}

proof fn lemma_refs_prefix(facts: Seq<FactView>, id: Seq<char>, k: int)
    requires
        0 <= k <= facts.len(),
    ensures
        refs_in_facts(facts.take(k), id) <= refs_in_facts(facts, id),
    decreases facts.len() - k,
{
    if k < facts.len() {
        lemma_refs_prefix(facts, id, k + 1);
        assert(facts.take(k + 1).drop_last() =~= facts.take(k));
    } else {
        assert(facts.take(k) =~= facts);
    }
}

proof fn lemma_count_prefix(ps: Seq<PersonView>, id: Seq<char>, k: int)
    requires
        0 <= k <= ps.len(),
    ensures
        reference_count(ps.take(k), id) <= reference_count(ps, id),
    decreases ps.len() - k,
{
    if k < ps.len() {
        lemma_count_prefix(ps, id, k + 1);
        assert(ps.take(k + 1).drop_last() =~= ps.take(k));
    } else {
        assert(ps.take(k) =~= ps);
    }
}

fn count_references(c: &Chronicle, id: &str) -> (r: usize)
    requires
        reference_count(c@.persons, id@) <= usize::MAX,
    ensures
        r == reference_count(c@.persons, id@),
{
    let ghost ps = c@.persons;
    let mut total: usize = 0;
    let mut q: usize = 0;
    assert(ps.take(0) =~= Seq::<PersonView>::empty());
    while q < c.persons.len()
        invariant
            q <= c.persons.len(),
            ps == c@.persons,
            reference_count(ps, id@) <= usize::MAX,
            total == reference_count(ps.take(q as int), id@),
        decreases c.persons.len() - q,
    {
        let person = &c.persons[q];
        assert(ps[q as int] == person@);
        assert(ps.take(q + 1).drop_last() =~= ps.take(q as int));
        assert(ps.take(q + 1).last() == person@);
        proof {
            lemma_count_prefix(ps, id@, q + 1);
        }
        if !str_eq(person.id.as_str(), id) {
            let ghost fs = person@.facts;
            let mut k: usize = 0;
            let mut sub: usize = 0;
            assert(fs.take(0) =~= Seq::<FactView>::empty());
            while k < person.facts.len()
                invariant
                    k <= person.facts.len(),
                    fs == person@.facts,
                    sub == refs_in_facts(fs.take(k as int), id@),
                    total + refs_in_facts(fs, id@) <= usize::MAX,
                decreases person.facts.len() - k,
            {
                let f = &person.facts[k];
                assert(fs[k as int] == f@);
                assert(fs.take(k + 1).drop_last() =~= fs.take(k as int));
                assert(fs.take(k + 1).last() == f@);
                proof {
                    lemma_refs_prefix(fs, id@, k + 1);
                }
                if let Some(w) = &f.with {
                    sub = sub + count_refs(w, id);
                }
                k += 1;
            }
            assert(fs.take(person.facts.len() as int) =~= fs);
            total = total + sub;
        }
        q += 1;
    }
    assert(ps.take(c.persons.len() as int) =~= ps);
    total
}

fn strip_from_fact(f: &Fact, id: &str) -> (r: Fact)
    ensures
        r@ == strip_fact(f@, id@),
{
    let mut g = f.clone();
    if let Some(w) = &f.with {
        let kept = crate::facts::others_of(w, id);
        g.with = if kept.len() == 0 {
            None
        } else {
            Some(kept)
        };
    }
    g
}

/// Remove a person and all their facts.
///
/// If other persons' facts reference the person in their 'with' field,
/// this fails unless `force` is set, in which case the references are
/// stripped from those facts.
pub fn remove_person(chronicle: &mut Chronicle, id: &str, force: bool) -> (r: Result<RemovePersonResult, PersonError>)
    requires
        reference_count(old(chronicle)@.persons, id@) <= usize::MAX,
    ensures
        match person_removed(old(chronicle)@, id@, force) {
            Ok((p, n, c)) => r matches Ok(res) && res.person@ == p && res.references_stripped == n
                && final(chronicle)@ == c,
            Err(e) => r matches Err(x) && x@ == e && final(chronicle)@ == old(chronicle)@,
        },
{
    let ghost ps = chronicle@.persons;
    proof {
        lemma_person_index(ps, id@);
    }
    let idx = match chronicle.person_position(id) {
        Some(i) => i,
        None => return Err(PersonError::NotFound { id: own(id), available: person_id_list(chronicle) }),
    };
    let count = count_references(chronicle, id);
    if count > 0 && !force {
        return Err(PersonError::Referenced { id: own(id), count });
    }
    if count > 0 {
        let mut persons: Vec<Person> = Vec::new();
        let mut q: usize = 0;
        while q < chronicle.persons.len()
            invariant
                q <= chronicle.persons.len(),
                ps == chronicle@.persons,
                persons.deep_view() =~= ps.map_values(|p: PersonView| strip_person(p, id@)).take(q as int),
            decreases chronicle.persons.len() - q,
        {
            let person = &chronicle.persons[q];
            assert(ps[q as int] == person@);
            let ghost pb = persons.deep_view();
            if str_eq(person.id.as_str(), id) {
                persons.push(person.clone());
            } else {
                let mut facts: Vec<Fact> = Vec::new();
                let mut k: usize = 0;
                while k < person.facts.len()
                    invariant
                        k <= person.facts.len(),
                        facts.deep_view() =~= person@.facts.map_values(|f: FactView| strip_fact(f, id@)).take(k as int),
                    decreases person.facts.len() - k,
                {
                    let ghost fb = facts.deep_view();
                    assert(person@.facts[k as int] == person.facts@[k as int]@);
                    facts.push(strip_from_fact(&person.facts[k], id));
                    assert(facts.deep_view() =~= fb.push(strip_fact(person@.facts[k as int], id@)));
                    k += 1;
                }
                assert(facts.deep_view() =~= person@.facts.map_values(|f: FactView| strip_fact(f, id@)));
                persons.push(Person { id: person.id.clone(), name: person.name.clone(), facts });
            }
            assert(persons.deep_view() =~= pb.push(strip_person(ps[q as int], id@)));
            q += 1;
        }
        assert(ps.map_values(|p: PersonView| strip_person(p, id@)).take(ps.len() as int) =~= ps.map_values(
            |p: PersonView| strip_person(p, id@),
        ));
        chronicle.persons = persons;
    }
    let ghost before = chronicle.persons.deep_view();
    assert(before[idx as int] == ps[idx as int]);
    assert(before[idx as int] == chronicle.persons@[idx as int]@);
    let person = chronicle.persons.remove(idx);
    proof {
        before.remove_ensures(idx as int);
        assert(chronicle.persons.deep_view() =~= before.remove(idx as int));
    }
    Ok(RemovePersonResult { person, references_stripped: count })
}

// ---------------------------------------------------------------------------
// Laws
// ---------------------------------------------------------------------------

/// Adding a person nobody references and then removing it (without
/// `force`) gives back the original chronicle and the new, empty person.
pub proof fn lemma_add_then_remove(c: ChronicleView, id: Seq<char>, name: Seq<char>)
    requires
        person_added(c, id, name) is Ok,
        reference_count(c.persons, id) == 0,
    ensures
        person_removed(person_added(c, id, name)->Ok_0, id, false) == Ok::<(PersonView, nat, ChronicleView), PersonErrorView>(
            (PersonView { id, name, facts: Seq::empty() }, 0nat, c),
        ),
{
    let ps = c.persons;
    let np = PersonView { id, name, facts: Seq::empty() };
    let ps2 = ps.push(np);
    lemma_person_index(ps, id);
    lemma_index_after_push(ps, np);
    lemma_count_after_push(ps, np, id);
    assert(ps2.remove(ps.len() as int) =~= ps);
    let c2 = person_added(c, id, name)->Ok_0;
    assert(c2.persons == ps2);
    assert(ps2[ps.len() as int] == np);
    assert((ChronicleView { persons: ps2.remove(ps.len() as int), ..c2 }) == c);
}

proof fn lemma_index_after_push(ps: Seq<PersonView>, p: PersonView)
    requires
        person_index(ps, p.id) is None,
    ensures
        person_index(ps.push(p), p.id) == Some(ps.len() as int),
{
    assert(ps.push(p).drop_last() =~= ps);
}

proof fn lemma_count_after_push(ps: Seq<PersonView>, p: PersonView, id: Seq<char>)
    requires
        p.id == id,
    ensures
        reference_count(ps.push(p), id) == reference_count(ps, id),
{
    assert(ps.push(p).drop_last() =~= ps);
}


/// After a forced removal, no fact left in the chronicle names the removed
/// person's ID in its `with` list: no dangling reference remains.
pub proof fn lemma_forced_removal_leaves_no_references(c: ChronicleView, id: Seq<char>)
    requires
        person_removed(c, id, true) is Ok,
    ensures
        reference_count(person_removed(c, id, true)->Ok_0.2.persons, id) == 0,
{
    let ps = c.persons;
    let i = person_index(ps, id)->0;
    lemma_person_index(ps, id);
    let n = reference_count(ps, id);
    let ps2 = if n > 0 {
        ps.map_values(|p: PersonView| strip_person(p, id))
    } else {
        ps
    };
    if n > 0 {
        lemma_stripped_unreferenced(ps, id);
    }
    lemma_count_after_remove(ps2, id, i);
}

/// `id` does not occur in `others(w, id)`.
proof fn lemma_count_others(w: Seq<Seq<char>>, id: Seq<char>)
    ensures
        count_in(others(w, id), id) == 0,
    decreases w.len(),
{
    if w.len() > 0 {
        lemma_count_others(w.drop_last(), id);
        let o = others(w.drop_last(), id);
        if w.last() != id {
            assert(o.push(w.last()).drop_last() =~= o);
        }
    }
}

/// Stripped facts name `id` nowhere.
proof fn lemma_stripped_facts_unreferenced(fs: Seq<FactView>, id: Seq<char>)
    ensures
        refs_in_facts(fs.map_values(|f: FactView| strip_fact(f, id)), id) == 0,
    decreases fs.len(),
{
    if fs.len() > 0 {
        let g = fs.map_values(|f: FactView| strip_fact(f, id));
        lemma_stripped_facts_unreferenced(fs.drop_last(), id);
        assert(g.drop_last() =~= fs.drop_last().map_values(|f: FactView| strip_fact(f, id)));
        let f = fs.last();
        if let Some(w) = f.with {
            lemma_count_others(w, id);
        }
        assert(g.last() == strip_fact(f, id));
    }
}

/// After stripping, no person other than `id` itself references `id`.
proof fn lemma_stripped_unreferenced(ps: Seq<PersonView>, id: Seq<char>)
    ensures
        reference_count(ps.map_values(|p: PersonView| strip_person(p, id)), id) == 0,
    decreases ps.len(),
{
    if ps.len() > 0 {
        let g = ps.map_values(|p: PersonView| strip_person(p, id));
        lemma_stripped_unreferenced(ps.drop_last(), id);
        assert(g.drop_last() =~= ps.drop_last().map_values(|p: PersonView| strip_person(p, id)));
        assert(g.last() == strip_person(ps.last(), id));
        if ps.last().id != id {
            lemma_stripped_facts_unreferenced(ps.last().facts, id);
        }
    }
}

/// Removing a person never raises the count.
proof fn lemma_count_after_remove(ps: Seq<PersonView>, id: Seq<char>, i: int)
    requires
        0 <= i < ps.len(),
    ensures
        reference_count(ps.remove(i), id) <= reference_count(ps, id),
    decreases ps.len(),
{
    if i == ps.len() - 1 {
        assert(ps.remove(i) =~= ps.drop_last());
    } else {
        lemma_count_after_remove(ps.drop_last(), id, i);
        assert(ps.remove(i).drop_last() =~= ps.drop_last().remove(i));
        assert(ps.remove(i).last() == ps.last());
    }
}

} // verus!
