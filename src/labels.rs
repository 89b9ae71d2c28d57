//! Resolving the labels that a command names, by ID or by name.
use vstd::prelude::*;

use crate::rest::Label;
use crate::select::{any_score, fuzz_select, is_best, scores_of, FuzzSelect, SelectError};

verus! {

/// How [`LabelSelect::labels`] treats a command that names no label.
#[derive(Debug, Clone, Copy, PartialEq, Eq, Structural)]
pub enum Selection {
    /// No labels named gives no labels.
    AllowEmpty,
    /// No labels named asks for a choice of one label.
    MustChoose,
}

/// The labels that a command names.
pub struct LabelSelect {
    /// Names to pick the closest labels by; each may pick one label.
    pub label_names: Option<Vec<String>>,
    /// IDs of labels to use.
    pub label_ids: Option<Vec<u64>>,
}

/// What [`LabelSelect::labels`] resolved.
pub enum LabelChoice<'a> {
    /// These labels, those named by ID first, in the order named.
    Found(Vec<&'a Label>),
    /// Nothing was named and one label must be chosen by the user.
    Choose,
}

/// Why the named labels could not be resolved.
#[derive(Debug, Clone, Copy, PartialEq, Eq, Structural)]
pub enum LabelError {
    /// No label has this ID.
    UnknownId(u64),
    /// A name matched no label.
    Select(SelectError),
}

/// Some label of `all` has the ID `id`.
pub open spec fn has_label(all: Seq<Label>, id: u64) -> bool {
    exists|i: int| 0 <= i < all.len() && (#[trigger] all[i]).id == id
}

/// `v` holds, for each ID of `ids` in turn, a label of `all` with that ID.
pub open spec fn labels_with_ids(v: Seq<&Label>, all: Seq<Label>, ids: Seq<u64>) -> bool {
    &&& v.len() == ids.len()
    &&& forall|j: int| 0 <= j < v.len() ==> (#[trigger] v[j]).id == ids[j] && exists|i: int| 0 <= i < all.len() && *v[j] == all[i]
}

/// `l` is a label of `all` whose name matches `name` best.
pub open spec fn best_label(all: Seq<Label>, name: Seq<char>, l: Label) -> bool {
    exists|i: int| is_best(scores_of(all, name), i) && l == all[i]
}

/// `v` holds, for each name of `names` in turn, the label of `all` that matches it best.
pub open spec fn labels_matching(v: Seq<&Label>, all: Seq<Label>, names: Seq<String>) -> bool {
    &&& v.len() == names.len()
    &&& forall|k: int| 0 <= k < v.len() ==> best_label(all, names[k]@, *(#[trigger] v[k]))
}

/// The labels of `all` with the given IDs, in the order of `ids`; the first ID
/// that no label has where there is one.
pub fn labels_by_id<'a>(all: &'a [Label], ids: &Vec<u64>) -> (r: Result<Vec<&'a Label>, u64>)
    ensures
        r is Ok <==> forall|j: int| 0 <= j < ids@.len() ==> has_label(all@, #[trigger] ids@[j]),
        r matches Ok(v) ==> labels_with_ids(v@, all@, ids@),
        r matches Err(id) ==> exists|j: int|
            0 <= j < ids@.len() && ids@[j] == id && !has_label(all@, id) && forall|x: int|
                0 <= x < j ==> has_label(all@, #[trigger] ids@[x]),
{
    let mut v: Vec<&'a Label> = Vec::new();
    let mut j: usize = 0;
    while j < ids.len()
        invariant
            j <= ids@.len(),
            labels_with_ids(v@, all@, ids@.subrange(0, j as int)),
            forall|x: int| 0 <= x < j ==> has_label(all@, #[trigger] ids@[x]),
        decreases ids@.len() - j,
    {
        let id = ids[j];
        let mut i: usize = 0;
        let mut found: Option<usize> = None;
        while i < all.len()
            invariant
                i <= all@.len(),
                found matches Some(f) ==> f < all@.len() && all@[f as int].id == id,
                found is None ==> forall|x: int| 0 <= x < i ==> (#[trigger] all@[x]).id != id,
            decreases all@.len() - i,
        {
            if found.is_none() && all[i].id == id {
                found = Some(i);
            }
            i += 1;
        }
        match found {
            Some(f) => {
                let ghost before = v@;
                v.push(&all[f]);
                proof {
                    assert(has_label(all@, id) && all@[f as int].id == id);
                    assert forall|x: int| 0 <= x < v@.len() implies (#[trigger] v@[x]).id == ids@.subrange(0, j as int + 1)[x] && exists|i: int| 0 <= i < all@.len() && *v@[x] == all@[i] by {
                        if x < before.len() {
                            assert(v@[x] == before[x]);
                            assert(ids@.subrange(0, j as int)[x] == ids@.subrange(0, j as int + 1)[x]);
                        } else {
                            assert(*v@[x] == all@[f as int]);
                        }
                    }
                }
            },
            None => {
                assert(ids@[j as int] == id);
                assert(!has_label(all@, id));
                return Err(id);
            },
        }
        j += 1;
    }
    assert(ids@.subrange(0, ids@.len() as int) =~= ids@);
    Ok(v)
}

/// The labels of `all` that match the given names best, in the order of
/// `names`; the error of the first name that matches none.
pub fn labels_by_name<'a>(all: &'a [Label], names: &Vec<String>) -> (r: Result<Vec<&'a Label>, SelectError>)
    ensures
        r is Ok <==> forall|j: int| 0 <= j < names@.len() ==> any_score(scores_of(all@, (#[trigger] names@[j])@)),
        r matches Ok(v) ==> labels_matching(v@, all@, names@),
        r matches Err(e) ==> (e == SelectError::NoItems <==> all@.len() == 0),
{
    let mut v: Vec<&'a Label> = Vec::new();
    let mut j: usize = 0;
    while j < names.len()
        invariant
            j <= names@.len(),
            labels_matching(v@, all@, names@.subrange(0, j as int)),
            forall|x: int| 0 <= x < j ==> any_score(scores_of(all@, (#[trigger] names@[x])@)),
        decreases names@.len() - j,
    {
        match fuzz_select(all, names[j].as_str()) {
            Ok(l) => {
                let ghost before = v@;
                let ghost i0 = choose|i: int| is_best(scores_of(all@, names@[j as int]@), i) && *l == all@[i];
                v.push(l);
                proof {
                    assert forall|x: int| 0 <= x < v@.len() implies best_label(all@, names@.subrange(0, j as int + 1)[x]@, *(#[trigger] v@[x])) by {
                        if x < before.len() {
                            assert(v@[x] == before[x]);
                            assert(names@.subrange(0, j as int)[x] == names@.subrange(0, j as int + 1)[x]);
                            assert(best_label(all@, names@.subrange(0, j as int)[x]@, *before[x]));
                        } else {
                            assert(names@.subrange(0, j as int + 1)[x] == names@[j as int]);
                            assert(is_best(scores_of(all@, names@.subrange(0, j as int + 1)[x]@), i0) && *v@[x] == all@[i0]);
                        }
                    }
                }
            },
            Err(e) => {
                return Err(e);
            },
        }
        j += 1;
    }
    assert(names@.subrange(0, names@.len() as int) =~= names@);
    Ok(v)
}

/// Every ID of `ids` is the ID of a label of `all`.
pub open spec fn all_ids_known(all: Seq<Label>, ids: Seq<u64>) -> bool {
    forall|j: int| 0 <= j < ids.len() ==> has_label(all, #[trigger] ids[j])
}

/// Every name of `names` matches some label of `all`.
pub open spec fn all_names_match(all: Seq<Label>, names: Seq<String>) -> bool {
    forall|j: int| 0 <= j < names.len() ==> any_score(scores_of(all, (#[trigger] names[j])@))
}

impl LabelSelect {
    /// The IDs named, in order.
    pub open spec fn ids(&self) -> Seq<u64> {
        match self.label_ids {
            Some(v) => v@,
            None => seq![],
        }
    }

    /// Resolves the named labels against all labels: those named by ID, then
    /// those named by name. Where nothing is named, gives no labels, or asks
    /// for a choice where `selection` is [`Selection::MustChoose`].
    pub fn labels<'a>(&self, all: &'a [Label], selection: Selection) -> (r: Result<LabelChoice<'a>, LabelError>)
        ensures
            r matches Err(LabelError::UnknownId(id)) ==> exists|j: int|
                0 <= j < self.ids().len() && self.ids()[j] == id && !has_label(all@, id) && forall|x: int|
                    0 <= x < j ==> has_label(all@, #[trigger] self.ids()[x]),
            all_ids_known(all@, self.ids()) <==> !(r matches Err(LabelError::UnknownId(_))),
            (r matches Ok(LabelChoice::Choose)) <==> (self.label_names is None && self.ids().len() == 0
                && selection == Selection::MustChoose),
            self.label_names is None ==> !(r matches Err(LabelError::Select(_))),
            self.label_names is None ==> (r matches Ok(LabelChoice::Found(v)) ==> labels_with_ids(
                v@,
                all@,
                self.ids(),
            )),
            self.label_names matches Some(names) ==> (r matches Ok(LabelChoice::Found(v))
                ==> v@.len() == self.ids().len() + names@.len() && labels_with_ids(v@.subrange(0, self.ids().len() as int), all@, self.ids())
                && labels_matching(v@.subrange(self.ids().len() as int, v@.len() as int), all@, names@)),
            self.label_names matches Some(names) ==> (r is Ok <==> all_ids_known(all@, self.ids())
                && all_names_match(all@, names@)),
    {
        let found = match &self.label_ids {
            Some(ids) => match labels_by_id(all, ids) {
                Ok(v) => v,
                Err(id) => {
                    proof {
                        let j = choose|j: int|
                            0 <= j < ids@.len() && ids@[j] == id && !has_label(all@, id) && forall|x: int|
                                0 <= x < j ==> has_label(all@, #[trigger] ids@[x]);
                        assert(!has_label(all@, ids@[j]));
                        assert(self.ids() == ids@);
                        assert(forall|x: int| 0 <= x < j ==> has_label(all@, #[trigger] self.ids()[x]));
                    }
                    return Err(LabelError::UnknownId(id));
                },
            },
            None => Vec::new(),
        };
        match &self.label_names {
            None => {
                if found.len() == 0 && selection == Selection::MustChoose {
                    Ok(LabelChoice::Choose)
                } else {
                    Ok(LabelChoice::Found(found))
                }
            },
            Some(names) => match labels_by_name(all, names) {
                Ok(named) => {
                    let mut found = found;
                    let ghost head = found@;
                    let mut named = named;
                    let ghost tail = named@;
                    found.append(&mut named);
                    assert(found@.subrange(0, head.len() as int) =~= head);
                    assert(found@.subrange(head.len() as int, found@.len() as int) =~= tail);
                    Ok(LabelChoice::Found(found))
                },
                Err(e) => Err(LabelError::Select(e)),
            },
        }
    }
}

} // verus!
