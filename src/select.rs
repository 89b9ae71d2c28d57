//! Resolving a human-entered name or ID to one item of a list.
use fuzzy_matcher::skim::SkimMatcherV2;
use fuzzy_matcher::FuzzyMatcher;
use vstd::prelude::*;

use crate::rest::{Label, Project, Section, Task};

verus! {

/// The score that the skim fuzzy matcher, with its default settings, gives to
/// `pattern` against `choice`; `None` where the pattern does not match.
pub uninterp spec fn skim_score(choice: Seq<char>, pattern: Seq<char>) -> Option<i64>;

/// Relies on `fuzzy_matcher::skim::SkimMatcherV2::default()` and its
/// `FuzzyMatcher::fuzzy_match`: the score depends on the two strings alone, and
/// an empty pattern scores 0 against any choice.
#[verifier::external_body]
fn fuzzy_score(choice: &str, pattern: &str) -> (r: Option<i64>)
    ensures
        r == skim_score(choice@, pattern@),
        pattern@.len() == 0 ==> r == Some(0i64),
{
    SkimMatcherV2::default().fuzzy_match(choice, pattern)
}

/// Items that can be picked by name.
pub trait FuzzSelect {
    /// The ID of the item, as a mathematical value.
    spec fn spec_id(&self) -> u64;

    /// The name of the item, as a mathematical value.
    spec fn spec_name(&self) -> Seq<char>;

    /// The ID of the item.
    fn id(&self) -> (r: u64)
        ensures
            r == self.spec_id(),
    ;

    /// The name that fuzzy matching compares against.
    fn name(&self) -> (r: &str)
        ensures
            r@ == self.spec_name(),
    ;
}

/// Why no item could be selected.
#[derive(Debug, Clone, Copy, PartialEq, Eq, Structural)]
pub enum SelectError {
    /// There were no items to select from.
    NoItems,
    /// No item matched the input.
    NoMatch,
}

/// Entry `i` holds the best score of `scores`: no score is higher, and every
/// later score is lower, so that among equal best scores the last one wins.
pub open spec fn is_best(scores: Seq<Option<i64>>, i: int) -> bool {
    &&& 0 <= i < scores.len()
    &&& scores[i] is Some
    &&& forall|j: int| 0 <= j < scores.len() && (#[trigger] scores[j]) is Some ==> scores[j]->0 <= scores[i]->0
    &&& forall|j: int| i < j < scores.len() && (#[trigger] scores[j]) is Some ==> scores[j]->0 < scores[i]->0
}

/// Some entry of `scores` holds a score.
pub open spec fn any_score(scores: Seq<Option<i64>>) -> bool {
    exists|j: int| 0 <= j < scores.len() && (#[trigger] scores[j]) is Some
}

/// The scores of the names of `items` against `input`.
pub open spec fn scores_of<T: FuzzSelect>(items: Seq<T>, input: Seq<char>) -> Seq<Option<i64>> {
    items.map_values(|x: T| skim_score(x.spec_name(), input))
}

/// Picks the index of the best of the given match scores.
///
/// Fails with [`SelectError::NoItems`] on an empty list and with
/// [`SelectError::NoMatch`] where no entry holds a score.
pub fn best_match(scores: &Vec<Option<i64>>) -> (r: Result<usize, SelectError>)
    ensures
        r == Err::<usize, SelectError>(SelectError::NoItems) <==> scores@.len() == 0,
        r == Err::<usize, SelectError>(SelectError::NoMatch) <==> scores@.len() > 0 && !any_score(
            scores@,
        ),
        r matches Ok(i) ==> is_best(scores@, i as int),
        r is Ok <==> any_score(scores@),
{
    if scores.len() == 0 {
        return Err(SelectError::NoItems);
    }
    let mut best: Option<usize> = None;
    let mut i: usize = 0;
    while i < scores.len()
        invariant
            i <= scores@.len(),
            best is None ==> forall|j: int| 0 <= j < i ==> (#[trigger] scores@[j]) is None,
            best matches Some(b) ==> b < i && is_best(scores@.subrange(0, i as int), b as int),
        decreases scores@.len() - i,
    {
        let ghost prev = scores@.subrange(0, i as int);
        let ghost next = scores@.subrange(0, i as int + 1);
        if let Some(s) = scores[i] {
            let take = match best {
                None => true,
                Some(b) => match scores[b] {
                    Some(bs) => s >= bs,
                    None => true,
                },
            };
            if take {
                proof {
                    assert forall|j: int| 0 <= j < next.len() && (#[trigger] next[j]) is Some implies next[j]->0 <= s by {
                        if j < i {
                            assert(prev[j] == next[j]);
                        }
                    }
                }
                best = Some(i);
            } else {
                proof {
                    let b = best->0 as int;
                    assert(prev[b] == scores@[b]);
                    assert forall|j: int| 0 <= j < next.len() && (#[trigger] next[j]) is Some implies next[j]->0 <= next[b]->0 by {
                        if j < i {
                            assert(prev[j] == next[j]);
                        }
                    }
                    assert forall|j: int| b < j < next.len() && (#[trigger] next[j]) is Some implies next[j]->0 < next[b]->0 by {
                        if j < i {
                            assert(prev[j] == next[j]);
                        }
                    }
                }
            }
        } else {
            proof {
                if best is Some {
                    let b = best->0 as int;
                    assert forall|j: int| 0 <= j < next.len() && (#[trigger] next[j]) is Some implies next[j]->0 <= next[b]->0 by {
                        assert(prev[j] == next[j]);
                    }
                    assert forall|j: int| b < j < next.len() && (#[trigger] next[j]) is Some implies next[j]->0 < next[b]->0 by {
                        assert(prev[j] == next[j]);
                    }
                }
            }
        }
        i += 1;
    }
    assert(scores@.subrange(0, scores@.len() as int) == scores@);
    match best {
        Some(b) => Ok(b),
        None => Err(SelectError::NoMatch),
    }
}

/// Picks the item whose name matches `input` best, by fuzzy matching.
///
/// Among items with equal best scores, the last one is picked.
pub fn fuzz_select<'a, T: FuzzSelect>(items: &'a [T], input: &str) -> (r: Result<&'a T, SelectError>)
    ensures
        r == Err::<&T, SelectError>(SelectError::NoItems) <==> items@.len() == 0,
        r == Err::<&T, SelectError>(SelectError::NoMatch) <==> items@.len() > 0 && !any_score(
            scores_of(items@, input@),
        ),
        r matches Ok(t) ==> exists|i: int|
            is_best(scores_of(items@, input@), i) && *t == #[trigger] items@[i],
        r is Ok <==> any_score(scores_of(items@, input@)),
{
    let mut scores: Vec<Option<i64>> = Vec::new();
    let mut i: usize = 0;
    while i < items.len()
        invariant
            i <= items@.len(),
            scores@ == scores_of(items@, input@).subrange(0, i as int),
        decreases items@.len() - i,
    {
        scores.push(fuzzy_score(items[i].name(), input));
        i += 1;
        assert(scores@ =~= scores_of(items@, input@).subrange(0, i as int));
    }
    assert(scores@ =~= scores_of(items@, input@));
    match best_match(&scores) {
        Ok(b) => Ok(&items[b]),
        Err(e) => Err(e),
    }
}

/// Finds the first item with the given ID.
pub fn find_by_id<'a, T: FuzzSelect>(items: &'a [T], id: u64) -> (r: Option<&'a T>)
    ensures
        r is None <==> forall|i: int| 0 <= i < items@.len() ==> (#[trigger] items@[i]).spec_id() != id,
        r matches Some(t) ==> exists|i: int|
            0 <= i < items@.len() && *t == #[trigger] items@[i] && t.spec_id() == id && forall|j: int|
                0 <= j < i ==> (#[trigger] items@[j]).spec_id() != id,
{
    let mut i: usize = 0;
    while i < items.len()
        invariant
            i <= items@.len(),
            forall|j: int| 0 <= j < i ==> (#[trigger] items@[j]).spec_id() != id,
        decreases items@.len() - i,
    {
        if items[i].id() == id {
            return Some(&items[i]);
        }
        i += 1;
    }
    None
}

/// A choice of one item, by a name to match or by an ID.
pub struct Selection {
    /// A name to pick the closest item by; wins over `id`.
    pub name: Option<String>,
    /// The ID of the item.
    pub id: Option<u64>,
}

impl Selection {
    /// The item that this selection names, if it names one: the fuzzy match of
    /// the name where a name is given, else the item with the ID.
    pub fn optional<'a, T: FuzzSelect>(&self, items: &'a [T]) -> (r: Result<Option<&'a T>, SelectError>)
        ensures
            self.name matches Some(n) ==> (r is Ok <==> any_score(scores_of(items@, n@))),
            self.name matches Some(n) ==> (r matches Ok(o) ==> o matches Some(t) && exists|i: int|
                is_best(scores_of(items@, n@), i) && *t == #[trigger] items@[i]),
            self.name matches Some(n) ==> (r matches Err(e) ==> (e == SelectError::NoItems
                <==> items@.len() == 0)),
            self.name is None ==> (r matches Ok(o) && (self.id is None ==> o is None) && (
            self.id matches Some(id) ==> (o is None <==> forall|i: int|
                0 <= i < items@.len() ==> (#[trigger] items@[i]).spec_id() != id))),
            self.name is None ==> (r matches Ok(Some(t)) ==> self.id matches Some(id) && t.spec_id()
                == id),
    {
        match &self.name {
            Some(name) => match fuzz_select(items, name.as_str()) {
                Ok(t) => Ok(Some(t)),
                Err(e) => Err(e),
            },
            None => match self.id {
                Some(id) => Ok(find_by_id(items, id)),
                None => Ok(None),
            },
        }
    }
}

/// The sections that belong to the given project, in their order in `sections`.
pub fn sections_of<'a>(sections: &'a [Section], project: u64) -> (r: Vec<&'a Section>)
    ensures
        r@.len() <= sections@.len(),
        forall|i: int| 0 <= i < r@.len() ==> (#[trigger] r@[i]).project_id == project,
        r@.map_values(|s: &Section| *s) == sections@.filter(|s: Section| s.project_id == project),
{
    let mut r: Vec<&'a Section> = Vec::new();
    let mut i: usize = 0;
    while i < sections.len()
        invariant
            i <= sections@.len(),
            r@.len() <= i,
            forall|k: int| 0 <= k < r@.len() ==> (#[trigger] r@[k]).project_id == project,
            r@.map_values(|s: &Section| *s) == sections@.subrange(0, i as int).filter(
                |s: Section| s.project_id == project,
            ),
        decreases sections@.len() - i,
    {
        let ghost before = r@;
        proof {
            reveal(Seq::filter);
            assert(sections@.subrange(0, i as int + 1).drop_last() =~= sections@.subrange(0, i as int));
        }
        if sections[i].project_id == project {
            r.push(&sections[i]);
            assert(r@.map_values(|s: &Section| *s) =~= before.map_values(|s: &Section| *s).push(sections@[i as int]));
        } else {
            assert(r@.map_values(|s: &Section| *s) =~= before.map_values(|s: &Section| *s));
        }
        i += 1;
    }
    assert(sections@.subrange(0, sections@.len() as int) =~= sections@);
    r
}

/// The section that a choice in a list led by a "None" entry stands for:
/// entry 0, or no choice at all, picks no section; entry `s` picks the
/// section at `s - 1`.
pub fn section_choice(sections: &Vec<&Section>, choice: Option<usize>) -> (r: Option<u64>)
    requires
        choice matches Some(s) ==> s <= sections@.len(),
    ensures
        r == (match choice {
            Some(s) => if s == 0 {
                None
            } else {
                Some(sections@[s - 1].id)
            },
            None => None,
        }),
{
    match choice {
        Some(0) => None,
        Some(s) => Some(sections[s - 1].id),
        None => None,
    }
}

impl FuzzSelect for Project {
    open spec fn spec_id(&self) -> u64 {
        self.id
    }

    open spec fn spec_name(&self) -> Seq<char> {
        self.name@
    }

    fn id(&self) -> (r: u64) {
        self.id
    }

    fn name(&self) -> (r: &str) {
        self.name.as_str()
    }
}

impl FuzzSelect for Section {
    open spec fn spec_id(&self) -> u64 {
        self.id
    }

    open spec fn spec_name(&self) -> Seq<char> {
        self.name@
    }

    fn id(&self) -> (r: u64) {
        self.id
    }

    fn name(&self) -> (r: &str) {
        self.name.as_str()
    }
}

impl FuzzSelect for Label {
    open spec fn spec_id(&self) -> u64 {
        self.id
    }

    open spec fn spec_name(&self) -> Seq<char> {
        self.name@
    }

    fn id(&self) -> (r: u64) {
        self.id
    }

    fn name(&self) -> (r: &str) {
        self.name.as_str()
    }
}

impl FuzzSelect for Task {
    open spec fn spec_id(&self) -> u64 {
        self.id
    }

    open spec fn spec_name(&self) -> Seq<char> {
        self.content@
    }

    fn id(&self) -> (r: u64) {
        self.id
    }

    fn name(&self) -> (r: &str) {
        self.content.as_str()
    }
}

} // verus!
