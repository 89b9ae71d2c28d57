//! Maps Todoist items to the forest that their parent references describe.
//!
//! Items carry their own ID and, optionally, the ID of a parent. From a flat
//! list of such items this module builds a forest of [`Tree`]s.
use std::cmp::Ordering;
use std::collections::HashMap;
use vstd::prelude::*;

verus! {

broadcast use vstd::std_specs::vec::axiom_vec_index_decreases, vstd::std_specs::hash::group_hash_axioms;

/// Treeable allows to make trees out of an ID and parent IDs.
pub trait Treeable: Sized {
    /// The ID of the item, as a mathematical value.
    spec fn key(&self) -> u64;

    /// The parent ID of the item, if any.
    spec fn parent_key(&self) -> Option<u64>;

    /// The item with its parent reference cleared.
    spec fn orphaned(&self) -> Self;

    /// Clearing the parent keeps the ID and leaves no parent.
    proof fn lemma_orphaned(&self)
        ensures
            self.orphaned().key() == self.key(),
            self.orphaned().parent_key() is None,
    ;

    /// The ID of the current item.
    fn id(&self) -> (r: u64)
        ensures
            r == self.key(),
    ;

    /// The optional parent ID of the current item.
    fn parent_id(&self) -> (r: Option<u64>)
        ensures
            r == self.parent_key(),
    ;

    /// Called on items whose parent is not among the items a forest is built from.
    fn reset_parent(&mut self)
        ensures
            *final(self) == old(self).orphaned(),
    ;

    /// The order in which the roots of a forest are listed.
    spec fn spec_order(&self, other: &Self) -> Ordering;

    /// The order is a total preorder: comparing the other way round reverses
    /// the result, and "not after" carries over from one item to the next.
    proof fn lemma_order(a: Self, b: Self, c: Self)
        ensures
            a.spec_order(&b) == Ordering::Greater <==> b.spec_order(&a) == Ordering::Less,
            a.spec_order(&b) != Ordering::Greater && b.spec_order(&c) != Ordering::Greater
                ==> a.spec_order(&c) != Ordering::Greater,
            a.spec_order(&b) == Ordering::Less && b.spec_order(&c) != Ordering::Greater
                ==> a.spec_order(&c) == Ordering::Less,
    ;

    /// Compares two items by the order of roots.
    fn order(&self, other: &Self) -> (r: Ordering)
        ensures
            r == self.spec_order(other),
    ;
}

/// Tree is a representation of items as a tree.
#[derive(Debug)]
pub struct Tree<T> {
    /// The item of this node.
    pub item: T,
    /// Additional nodes under this item.
    pub subitems: Vec<Tree<T>>,
    /// How deep the node sits in its tree, useful for representation.
    pub depth: usize,
}

/// Whether some node of `t` (itself included) holds an item with ID `id`.
pub open spec fn tree_has<T: Treeable>(t: Tree<T>, id: u64) -> bool
    decreases t,
{
    t.item.key() == id || exists|i: int|
        0 <= i < t.subitems@.len() && tree_has(#[trigger] t.subitems@[i], id)
}

/// The nodes that a sequence of references points to.
pub open spec fn nodes<T>(r: Seq<&Tree<T>>) -> Seq<Tree<T>> {
    r.map_values(|x: &Tree<T>| *x)
}

/// The nodes of `t` in pre-order: `t` itself, then the nodes of each subitem in turn.
pub open spec fn preorder<T>(t: Tree<T>) -> Seq<Tree<T>>
    decreases t, t.subitems@.len() + 1,
{
    seq![t] + preorder_upto(t, t.subitems@.len() as int)
}

/// The pre-order nodes of the first `i` subitems of `t`, one after the other.
pub open spec fn preorder_upto<T>(t: Tree<T>, i: int) -> Seq<Tree<T>>
    decreases t, i,
{
    if i <= 0 || i > t.subitems@.len() {
        seq![]
    } else {
        preorder_upto(t, i - 1) + preorder(t.subitems@[i - 1])
    }
}

/// The pre-order nodes of the first `i` trees of a forest, one after the other.
pub open spec fn forest_preorder<T>(f: Seq<Tree<T>>, i: int) -> Seq<Tree<T>>
    decreases i,
{
    if i <= 0 || i > f.len() {
        seq![]
    } else {
        forest_preorder(f, i - 1) + preorder(f[i - 1])
    }
}

/// The first node of `t` in pre-order whose item has ID `id`.
pub open spec fn first_with<T: Treeable>(t: Tree<T>, id: u64) -> Option<Tree<T>>
    decreases t, t.subitems@.len() + 1,
{
    if t.item.key() == id {
        Some(t)
    } else {
        first_with_from(t, id, 0)
    }
}

/// The first node in pre-order, among the subitems of `t` from index `i` on,
/// whose item has ID `id`.
pub open spec fn first_with_from<T: Treeable>(t: Tree<T>, id: u64, i: int) -> Option<Tree<T>>
    decreases t, t.subitems@.len() - i,
{
    if i < 0 || i >= t.subitems@.len() {
        None
    } else {
        match first_with(t.subitems@[i], id) {
            Some(x) => Some(x),
            None => first_with_from(t, id, i + 1),
        }
    }
}

/// The first node, in the order of the trees and then in pre-order, among the
/// trees of `f` from index `i` on, whose item has ID `id`.
pub open spec fn forest_first_with<T: Treeable>(f: Seq<Tree<T>>, id: u64, i: int) -> Option<Tree<T>>
    decreases f.len() - i,
{
    if i < 0 || i >= f.len() {
        None
    } else {
        match first_with(f[i], id) {
            Some(x) => Some(x),
            None => forest_first_with(f, id, i + 1),
        }
    }
}

/// `x` is `t` or a node below it.
pub open spec fn is_node_of<T>(x: Tree<T>, t: Tree<T>) -> bool
    decreases t,
{
    x == t || exists|i: int| 0 <= i < t.subitems@.len() && is_node_of(x, #[trigger] t.subitems@[i])
}

/// The node that [`first_with`] finds is a node of the tree, with the ID searched.
pub proof fn lemma_first_with<T: Treeable>(t: Tree<T>, id: u64)
    ensures
        first_with(t, id) matches Some(x) ==> x.item.key() == id && is_node_of(x, t),
        first_with(t, id) is None <==> !tree_has(t, id),
    decreases t, t.subitems@.len() + 1,
{
    lemma_first_with_from(t, id, 0);
    if first_with(t, id) is None {
        assert forall|i: int| 0 <= i < t.subitems@.len() implies !tree_has(#[trigger] t.subitems@[i], id) by {
            lemma_first_with_from(t, id, 0);
        }
    }
}

proof fn lemma_first_with_from<T: Treeable>(t: Tree<T>, id: u64, i: int)
    requires
        0 <= i,
    ensures
        first_with_from(t, id, i) matches Some(x) ==> x.item.key() == id && is_node_of(x, t),
        first_with_from(t, id, i) is None <==> forall|k: int|
            i <= k < t.subitems@.len() ==> !tree_has(#[trigger] t.subitems@[k], id),
    decreases t, t.subitems@.len() - i,
{
    if i < t.subitems@.len() {
        let c = t.subitems@[i];
        lemma_first_with(c, id);
        lemma_first_with_from(t, id, i + 1);
        if let Some(x) = first_with(c, id) {
            assert(is_node_of(x, c));
            assert(is_node_of(x, t));
        }
    }
}

/// Whether some tree of the forest holds an item with ID `id`.
pub open spec fn forest_has<T: Treeable>(f: Seq<Tree<T>>, id: u64) -> bool {
    exists|i: int| 0 <= i < f.len() && tree_has(#[trigger] f[i], id)
}

impl<T: Treeable> Tree<T> {
    /// Creates a new leaf from the given item.
    pub fn new(item: T) -> (r: Self)
        ensures
            r.item == item,
            r.subitems@.len() == 0,
            r.depth == 0,
    {
        Tree { item, subitems: Vec::new(), depth: 0 }
    }

    /// Tries to find the node with the given ID in this tree, mutably.
    ///
    /// The node found is the one that [`Tree::find`] finds; without one the
    /// tree is left as it was.
    pub fn find_mut(&mut self, id: &u64) -> (r: Option<&mut Tree<T>>)
        ensures
            r is Some <==> tree_has(*old(self), *id),
            r matches Some(t) ==> (*t).item.key() == *id && first_with(*old(self), *id) == Some(*t),
            r is None ==> *final(self) == *old(self),
        decreases *old(self),
    {
        if self.item.id() == *id {
            return Some(self);
        }
        let mut i: usize = 0;
        while i < self.subitems.len()
            invariant
                0 <= i <= self.subitems@.len(),
                *self == *old(self),
                self.item.key() != *id,
                forall|k: int| 0 <= k < i ==> !tree_has(#[trigger] self.subitems@[k], *id),
                first_with(*self, *id) == first_with_from(*self, *id, i as int),
            decreases self.subitems@.len() - i,
        {
            if self.subitems[i].find(id).is_some() {
                return self.subitems[i].find_mut(id);
            }
            i += 1;
        }
        None
    }

    /// Converts a tree to a vector of all its nodes in pre-order, for easier handling.
    pub fn flatten(&self) -> (r: Vec<&Tree<T>>)
        ensures
            nodes(r@) == preorder(*self),
        decreases self,
    {
        let mut items: Vec<&Tree<T>> = Vec::new();
        items.push(self);
        assert(nodes(items@) =~= seq![*self] + preorder_upto(*self, 0));
        let mut i: usize = 0;
        while i < self.subitems.len()
            invariant
                0 <= i <= self.subitems@.len(),
                nodes(items@) == seq![*self] + preorder_upto(*self, i as int),
            decreases self.subitems@.len() - i,
        {
            let mut sub = self.subitems[i].flatten();
            let ghost before = items@;
            items.append(&mut sub);
            assert(nodes(items@) =~= nodes(before) + preorder(self.subitems@[i as int]));
            i += 1;
        }
        items
    }

    /// Tries to find the node with the given ID in this tree.
    ///
    /// The node found is the first in pre-order ([`first_with`]).
    pub fn find(&self, id: &u64) -> (r: Option<&Tree<T>>)
        ensures
            r is Some <==> tree_has(*self, *id),
            r matches Some(t) ==> t.item.key() == *id && first_with(*self, *id) == Some(*t),
            r is None ==> first_with(*self, *id) is None,
        decreases self,
    {
        if self.item.id() == *id {
            return Some(self);
        }
        let mut i: usize = 0;
        while i < self.subitems.len()
            invariant
                0 <= i <= self.subitems@.len(),
                self.item.key() != *id,
                forall|k: int| 0 <= k < i ==> !tree_has(#[trigger] self.subitems@[k], *id),
                first_with(*self, *id) == first_with_from(*self, *id, i as int),
            decreases self.subitems@.len() - i,
        {
            let found = self.subitems[i].find(id);
            if found.is_some() {
                assert(tree_has(self.subitems@[i as int], *id));
                return found;
            }
            i += 1;
        }
        None
    }
}


/// Whether some item of `its` has the ID `k`.
pub open spec fn has_key<T: Treeable>(its: Seq<T>, k: u64) -> bool {
    exists|i: int| 0 <= i < its.len() && #[trigger] its[i].key() == k
}

/// No two items of `its` share an ID.
pub open spec fn unique_keys<T: Treeable>(its: Seq<T>) -> bool {
    forall|i: int, j: int|
        0 <= i < its.len() && 0 <= j < its.len() && i != j ==> #[trigger] its[i].key()
            != #[trigger] its[j].key()
}

/// An item of `its`, with its parent cleared where that parent is not among `its`.
pub open spec fn settle<T: Treeable>(its: Seq<T>, x: T) -> T {
    if x.parent_key() is Some && !has_key(its, x.parent_key()->0) {
        x.orphaned()
    } else {
        x
    }
}

/// All items of `its`, each settled against the others.
pub open spec fn settled<T: Treeable>(its: Seq<T>) -> Seq<T> {
    its.map_values(|x: T| settle(its, x))
}

/// Indices below `upto`, in increasing order, of the items whose parent is `p`.
pub open spec fn children_of<T: Treeable>(its: Seq<T>, p: Option<u64>, upto: int) -> Seq<int>
    decreases upto,
{
    if upto <= 0 {
        seq![]
    } else {
        let s = children_of(its, p, upto - 1);
        if its[upto - 1].parent_key() == p {
            s.push(upto - 1)
        } else {
            s
        }
    }
}

/// `t` is the tree rooted at item `j` of `its`, at the given depth: the node holds
/// `its[j]`, and its subitems are the trees of the children of `its[j]`, in the
/// order in which `its` lists them. `fuel` bounds the height.
pub open spec fn is_tree_of<T: Treeable>(t: Tree<T>, its: Seq<T>, j: int, depth: nat, fuel: nat) -> bool
    decreases fuel,
{
    if fuel == 0 {
        false
    } else {
        let kids = children_of(its, Some(its[j].key()), its.len() as int);
        &&& t.item == its[j]
        &&& t.depth == depth
        &&& t.subitems@.len() == kids.len()
        &&& forall|c: int|
            0 <= c < kids.len() ==> is_tree_of(
                #[trigger] t.subitems@[c],
                its,
                kids[c],
                depth + 1,
                (fuel - 1) as nat,
            )
    }
}

/// `f` is the forest of `its`: one tree per item without parent, in the order
/// in which `its` lists them.
pub open spec fn is_forest_of<T: Treeable>(f: Seq<Tree<T>>, its: Seq<T>) -> bool {
    let roots = children_of(its, None, its.len() as int);
    &&& f.len() == roots.len()
    &&& forall|r: int|
        0 <= r < f.len() ==> is_tree_of(#[trigger] f[r], its, roots[r], 0, its.len() as nat)
}

/// The trees of a forest are listed in the order of their items.
pub open spec fn roots_sorted<T: Treeable>(f: Seq<Tree<T>>) -> bool {
    forall|i: int, j: int|
        0 <= i < j < f.len() ==> (#[trigger] f[i]).item.spec_order(&(#[trigger] f[j]).item)
            != Ordering::Greater
}

/// `f` is the forest of `its` with its roots sorted: one tree per item without
/// parent, each such tree once, listed in the order of their items.
pub open spec fn is_sorted_forest_of<T: Treeable>(f: Seq<Tree<T>>, its: Seq<T>) -> bool {
    let roots = children_of(its, None, its.len() as int);
    &&& f.len() == roots.len()
    &&& forall|r: int| 0 <= r < f.len() ==> tree_of_a_root(#[trigger] f[r], its)
    &&& forall|c: int| 0 <= c < roots.len() ==> has_tree_of(f, its, #[trigger] roots[c])
    &&& roots_sorted(f)
}

/// `t` is the tree of one of the items of `its` without parent.
pub open spec fn tree_of_a_root<T: Treeable>(t: Tree<T>, its: Seq<T>) -> bool {
    let roots = children_of(its, None, its.len() as int);
    exists|c: int| 0 <= c < roots.len() && is_tree_of(t, its, roots[c], 0, its.len() as nat)
}

/// Some tree of `f` is the tree of item `j` of `its`.
pub open spec fn has_tree_of<T: Treeable>(f: Seq<Tree<T>>, its: Seq<T>, j: int) -> bool {
    exists|r: int| 0 <= r < f.len() && is_tree_of(f[r], its, j, 0, its.len() as nat)
}

/// Merges two forests whose trees are listed in the order of their items.
fn merge_roots<T: Treeable>(a: Vec<Tree<T>>, b: Vec<Tree<T>>) -> (r: Vec<Tree<T>>)
    requires
        roots_sorted(a@),
        roots_sorted(b@),
    ensures
        roots_sorted(r@),
        r@.to_multiset() == a@.to_multiset().add(b@.to_multiset()),
{
    let ghost sa = a@;
    let ghost sb = b@;
    let na = a.len();
    let nb = b.len();
    // Reversed, so that popping hands out the smallest tree first.
    let mut a = a;
    let mut ra: Vec<Tree<T>> = Vec::new();
    while a.len() > 0
        invariant
            a@.len() + ra@.len() == na,
            na == sa.len(),
            a@ == sa.subrange(0, a@.len() as int),
            forall|x: int| 0 <= x < ra@.len() ==> #[trigger] ra@[x] == sa[na - 1 - x],
        decreases a@.len(),
    {
        let x = a.pop().unwrap();
        ra.push(x);
    }
    let mut b = b;
    let mut rb: Vec<Tree<T>> = Vec::new();
    while b.len() > 0
        invariant
            b@.len() + rb@.len() == nb,
            nb == sb.len(),
            b@ == sb.subrange(0, b@.len() as int),
            forall|x: int| 0 <= x < rb@.len() ==> #[trigger] rb@[x] == sb[nb - 1 - x],
        decreases b@.len(),
    {
        let x = b.pop().unwrap();
        rb.push(x);
    }
    let mut out: Vec<Tree<T>> = Vec::new();
    proof {
        assert(sa.subrange(0, 0) =~= Seq::<Tree<T>>::empty());
        assert(sb.subrange(0, 0) =~= Seq::<Tree<T>>::empty());
        assert(out@ =~= Seq::<Tree<T>>::empty());
        broadcast use vstd::seq_lib::group_to_multiset_ensures;
        assert(Seq::<Tree<T>>::empty().to_multiset() =~= vstd::multiset::Multiset::empty());
        assert(out@.to_multiset() =~= sa.subrange(0, 0).to_multiset().add(sb.subrange(0, 0).to_multiset()));
    }
    while ra.len() > 0 || rb.len() > 0
        invariant
            na == sa.len(),
            nb == sb.len(),
            roots_sorted(sa),
            roots_sorted(sb),
            ra@.len() <= na,
            rb@.len() <= nb,
            forall|x: int| 0 <= x < ra@.len() ==> #[trigger] ra@[x] == sa[na - 1 - x],
            forall|x: int| 0 <= x < rb@.len() ==> #[trigger] rb@[x] == sb[nb - 1 - x],
            roots_sorted(out@),
            out@.len() == (na - ra@.len()) + (nb - rb@.len()),
            out@.to_multiset() == sa.subrange(0, na - ra@.len()).to_multiset().add(
                sb.subrange(0, nb - rb@.len()).to_multiset(),
            ),
            out@.len() > 0 && ra@.len() > 0 ==> out@.last().item.spec_order(&sa[na - ra@.len()].item)
                != Ordering::Greater,
            out@.len() > 0 && rb@.len() > 0 ==> out@.last().item.spec_order(&sb[nb - rb@.len()].item)
                != Ordering::Greater,
        decreases ra@.len() + rb@.len(),
    {
        let take_a = if ra.len() == 0 {
            false
        } else if rb.len() == 0 {
            true
        } else {
            match ra[ra.len() - 1].item.order(&rb[rb.len() - 1].item) {
                Ordering::Greater => false,
                _ => true,
            }
        };
        let ghost before = out@;
        let ghost ia = na - ra@.len();
        let ghost ib = nb - rb@.len();
        if take_a {
            let x = ra.pop().unwrap();
            assert(x == sa[ia]);
            out.push(x);
            proof {
                T::lemma_order(sb[ib].item, x.item, x.item);
                if ia + 1 < na {
                    assert(x.item.spec_order(&sa[ia + 1].item) != Ordering::Greater);
                }
                assert forall|i: int, j: int| 0 <= i < j < out@.len() implies (#[trigger] out@[i]).item.spec_order(&(#[trigger] out@[j]).item) != Ordering::Greater by {
                    if j == before.len() {
                        assert(out@[j] == x);
                        assert(out@[i] == before[i]);
                        if i < before.len() - 1 {
                            T::lemma_order(before[i].item, before.last().item, x.item);
                        }
                    } else {
                        assert(out@[i] == before[i] && out@[j] == before[j]);
                    }
                }
                assert(sa.subrange(0, ia + 1) =~= sa.subrange(0, ia).push(x));
                before.to_multiset_ensures();
                sa.subrange(0, ia).to_multiset_ensures();
                assert(out@ == before.push(x));
            }
        } else {
            let x = rb.pop().unwrap();
            assert(x == sb[ib]);
            out.push(x);
            proof {
                T::lemma_order(sa[ia].item, x.item, x.item);
                if ib + 1 < nb {
                    assert(x.item.spec_order(&sb[ib + 1].item) != Ordering::Greater);
                }
                assert forall|i: int, j: int| 0 <= i < j < out@.len() implies (#[trigger] out@[i]).item.spec_order(&(#[trigger] out@[j]).item) != Ordering::Greater by {
                    if j == before.len() {
                        assert(out@[j] == x);
                        assert(out@[i] == before[i]);
                        if i < before.len() - 1 {
                            T::lemma_order(before[i].item, before.last().item, x.item);
                        }
                    } else {
                        assert(out@[i] == before[i] && out@[j] == before[j]);
                    }
                }
                assert(sb.subrange(0, ib + 1) =~= sb.subrange(0, ib).push(x));
                before.to_multiset_ensures();
                sb.subrange(0, ib).to_multiset_ensures();
                assert(out@ == before.push(x));
            }
        }
    }
    assert(sa.subrange(0, na as int) =~= sa);
    assert(sb.subrange(0, nb as int) =~= sb);
    out
}

/// Sorts the trees of a forest by their items, by merging sorted halves.
fn sort_roots<T: Treeable>(forest: Vec<Tree<T>>) -> (r: Vec<Tree<T>>)
    ensures
        roots_sorted(r@),
        r@.to_multiset() == forest@.to_multiset(),
    decreases forest@.len(),
{
    if forest.len() <= 1 {
        return forest;
    }
    let ghost whole = forest@;
    let mut front = forest;
    let half = front.len() / 2;
    let back = front.split_off(half);
    proof {
        assert(whole =~= front@ + back@);
        vstd::seq_lib::lemma_multiset_commutative(front@, back@);
    }
    let sorted_front = sort_roots(front);
    let sorted_back = sort_roots(back);
    merge_roots(sorted_front, sorted_back)
}

/// The index of the parent of item `m`.
pub open spec fn parent_index<T: Treeable>(its: Seq<T>, m: int) -> int {
    choose|i: int| 0 <= i < its.len() && Some(#[trigger] its[i].key()) == its[m].parent_key()
}

/// The depth of item `m`, found by following parents at most `fuel` times.
pub open spec fn level<T: Treeable>(its: Seq<T>, m: int, fuel: nat) -> Option<nat>
    decreases fuel,
{
    if its[m].parent_key() is None {
        Some(0)
    } else if fuel == 0 {
        None
    } else {
        match level(its, parent_index(its, m), (fuel - 1) as nat) {
            Some(d) => Some(d + 1),
            None => None,
        }
    }
}

/// Item `m` reaches an item without parent by following parents.
pub open spec fn reaches_root<T: Treeable>(its: Seq<T>, m: int) -> bool {
    level(its, m, its.len() as nat) is Some
}

/// Every item reaches an item without parent: the parent references hold no cycle.
pub open spec fn resolvable<T: Treeable>(its: Seq<T>) -> bool {
    forall|m: int| 0 <= m < its.len() ==> #[trigger] reaches_root(its, m)
}

/// How many of the first `upto` items never reach an item without parent.
pub open spec fn unresolved_upto<T: Treeable>(its: Seq<T>, upto: int) -> nat
    decreases upto,
{
    if upto <= 0 {
        0
    } else {
        unresolved_upto(its, upto - 1) + if reaches_root(its, upto - 1) {
            0nat
        } else {
            1nat
        }
    }
}

/// How many items never reach an item without parent.
pub open spec fn unresolved_count<T: Treeable>(its: Seq<T>) -> nat {
    unresolved_upto(its, its.len() as int)
}

/// The ancestor `s` steps above item `m`, following the parent indices `par`.
spec fn ancestor(par: Seq<int>, m: int, s: nat) -> int
    decreases s,
{
    if s == 0 {
        m
    } else {
        par[ancestor(par, m, (s - 1) as nat)]
    }
}

/// Parent indices and ranks that agree with the parent IDs of `its`.
spec fn shape_ok<T: Treeable>(its: Seq<T>, par: Seq<int>, rank: Seq<nat>) -> bool {
    &&& par.len() == its.len()
    &&& rank.len() == its.len()
    &&& forall|m: int| 0 <= m < its.len() ==> #[trigger] rank[m] < its.len()
    &&& forall|m: int|
        0 <= m < its.len() && (#[trigger] its[m].parent_key()) is None ==> rank[m] == 0
    &&& forall|m: int|
        0 <= m < its.len() && (#[trigger] its[m].parent_key()) is Some ==> {
            &&& 0 <= par[m] < its.len()
            &&& Some(its[par[m]].key()) == its[m].parent_key()
            &&& rank[m] == rank[par[m]] + 1
        }
}

/// Item `m` lies in the subtree of item `j`.
spec fn in_subtree(par: Seq<int>, rank: Seq<nat>, m: int, j: int) -> bool {
    rank[m] >= rank[j] && ancestor(par, m, (rank[m] - rank[j]) as nat) == j
}

proof fn lemma_ancestor<T: Treeable>(its: Seq<T>, par: Seq<int>, rank: Seq<nat>, m: int, s: nat)
    requires
        shape_ok(its, par, rank),
        0 <= m < its.len(),
        s <= rank[m],
    ensures
        0 <= ancestor(par, m, s) < its.len(),
        rank[ancestor(par, m, s)] == rank[m] - s,
    decreases s,
{
    if s > 0 {
        lemma_ancestor(its, par, rank, m, (s - 1) as nat);
        let a = ancestor(par, m, (s - 1) as nat);
        assert(its[a].parent_key() is Some);
    }
}

/// The entries of an index list, as integers.
spec fn ints_of(s: Seq<usize>) -> Seq<int> {
    s.map_values(|x: usize| x as int)
}

proof fn lemma_children_increasing<T: Treeable>(its: Seq<T>, p: Option<u64>, upto: int)
    requires
        0 <= upto <= its.len(),
    ensures
        forall|a: int, b: int|
            0 <= a < b < children_of(its, p, upto).len() ==> #[trigger] children_of(its, p, upto)[a]
                < #[trigger] children_of(its, p, upto)[b],
    decreases upto,
{
    if upto > 0 {
        lemma_children_increasing(its, p, upto - 1);
        lemma_children_of(its, p, upto - 1);
        let s = children_of(its, p, upto - 1);
        let r = children_of(its, p, upto);
        if its[upto - 1].parent_key() == p {
            assert(r == s.push(upto - 1));
            assert forall|a: int, b: int| 0 <= a < b < r.len() implies #[trigger] r[a] < #[trigger] r[b] by {
                assert(r[a] == s[a]);
                if b < s.len() {
                    assert(r[b] == s[b]);
                }
            }
        }
    }
}

/// Moves the items of the subtree of item `j` out of `slots` into a [`Tree`].
/// `kids` lists, for each item, the indices of its children in increasing order.
fn build<T: Treeable>(
    slots: &mut Vec<Option<T>>,
    kids: &Vec<Vec<usize>>,
    j: usize,
    depth: usize,
    Ghost(its): Ghost<Seq<T>>,
    Ghost(par): Ghost<Seq<int>>,
    Ghost(rank): Ghost<Seq<nat>>,
) -> (t: Tree<T>)
    requires
        old(slots)@.len() == its.len(),
        kids@.len() == its.len(),
        forall|i: int|
            0 <= i < its.len() ==> ints_of(#[trigger] kids@[i]@) == children_of(
                its,
                Some(its[i].key()),
                its.len() as int,
            ),
        unique_keys(its),
        shape_ok(its, par, rank),
        j < its.len(),
        depth == rank[j as int],
        forall|m: int|
            0 <= m < its.len() && in_subtree(par, rank, m, j as int) ==> #[trigger] old(slots)@[m]
                == Some(its[m]),
    ensures
        final(slots)@.len() == its.len(),
        forall|m: int|
            0 <= m < its.len() && !in_subtree(par, rank, m, j as int) ==> #[trigger] final(slots)@[m]
                == old(slots)@[m],
        is_tree_of(t, its, j as int, depth as nat, (its.len() - depth) as nat),
    decreases its.len() - depth,
{
    let n = kids.len();
    assert(in_subtree(par, rank, j as int, j as int));
    let item = slots[j].take().unwrap();
    let ghost key = its[j as int].key();
    let ghost kj = children_of(its, Some(key), n as int);
    proof {
        lemma_children_of(its, Some(key), n as int);
        lemma_children_increasing(its, Some(key), n as int);
        assert(ints_of(kids@[j as int]@) == kj);
    }
    let mut subitems: Vec<Tree<T>> = Vec::new();
    let mut c: usize = 0;
    while c < kids[j].len()
        invariant
            n == its.len(),
            slots@.len() == n,
            kids@.len() == n,
            forall|i: int|
                0 <= i < n ==> ints_of(#[trigger] kids@[i]@) == children_of(its, Some(its[i].key()), n as int),
            unique_keys(its),
            shape_ok(its, par, rank),
            j < n,
            depth == rank[j as int],
            key == its[j as int].key(),
            kj == children_of(its, Some(key), n as int),
            kj == ints_of(kids@[j as int]@),
            forall|x: int| 0 <= x < kj.len() ==> 0 <= #[trigger] kj[x] < n && its[kj[x]].parent_key() == Some(key),
            forall|a: int, b: int| 0 <= a < b < kj.len() ==> #[trigger] kj[a] < #[trigger] kj[b],
            c <= kj.len(),
            forall|m: int|
                0 <= m < n && in_subtree(par, rank, m, j as int) && m != j && (c == 0 || ancestor(
                    par,
                    m,
                    (rank[m] - rank[j as int] - 1) as nat,
                ) > kj[c - 1]) ==> #[trigger] slots@[m] == Some(its[m]),
            forall|m: int|
                0 <= m < n && !in_subtree(par, rank, m, j as int) ==> #[trigger] slots@[m]
                    == old(slots)@[m],
            subitems@.len() == c,
            forall|x: int|
                0 <= x < c ==> is_tree_of(
                    #[trigger] subitems@[x],
                    its,
                    kj[x],
                    depth as nat + 1,
                    (n - depth - 1) as nat,
                ),
        decreases kj.len() - c,
    {
        let k = kids[j][c];
        assert(k as int == kj[c as int]);
        proof {
            assert(its[k as int].parent_key() is Some);
            assert(par[k as int] == j) by {
                assert(its[par[k as int]].key() == its[j as int].key());
            }
            assert forall|m: int|
                0 <= m < n && in_subtree(par, rank, m, k as int) implies #[trigger] slots@[m]
                    == Some(its[m]) by {
                lemma_ancestor(its, par, rank, m, (rank[m] - rank[k as int]) as nat);
                assert(ancestor(par, m, (rank[m] - rank[j as int]) as nat) == par[ancestor(
                    par,
                    m,
                    (rank[m] - rank[j as int] - 1) as nat,
                )]);
                if c > 0 {
                    assert(kj[c - 1] < kj[c as int]);
                }
            }
        }
        let ghost before = slots@;
        let child = build(slots, kids, k, depth + 1, Ghost(its), Ghost(par), Ghost(rank));
        subitems.push(child);
        proof {
            assert forall|m: int|
                0 <= m < n && in_subtree(par, rank, m, k as int) implies in_subtree(
                    par,
                    rank,
                    m,
                    j as int,
                ) && m != j && ancestor(par, m, (rank[m] - rank[j as int] - 1) as nat)
                    == k by {
                lemma_ancestor(its, par, rank, m, (rank[m] - rank[k as int]) as nat);
                assert(ancestor(par, m, (rank[m] - rank[j as int]) as nat) == par[ancestor(
                    par,
                    m,
                    (rank[m] - rank[j as int] - 1) as nat,
                )]);
            }
            assert forall|m: int|
                0 <= m < n && in_subtree(par, rank, m, j as int) && m != j && ancestor(
                    par,
                    m,
                    (rank[m] - rank[j as int] - 1) as nat,
                ) > kj[c as int] implies #[trigger] slots@[m] == Some(its[m]) by {
                let a = ancestor(par, m, (rank[m] - rank[j as int] - 1) as nat);
                lemma_ancestor(its, par, rank, m, (rank[m] - rank[j as int] - 1) as nat);
                assert(ancestor(par, m, (rank[m] - rank[j as int]) as nat) == par[a]);
                if c > 0 {
                    assert(kj[c - 1] < kj[c as int]);
                }
                if in_subtree(par, rank, m, k as int) {
                    lemma_ancestor(its, par, rank, m, (rank[m] - rank[k as int]) as nat);
                }
                assert(before[m] == Some(its[m]));
            }
        }
        c += 1;
    }
    Tree { item, subitems, depth }
}

/// Whether `t` or one of its descendants holds an item whose ID is in `ids`.
pub open spec fn keeps<T: Treeable>(t: Tree<T>, ids: Seq<u64>) -> bool
    decreases t,
{
    ids.contains(t.item.key()) || exists|i: int|
        0 <= i < t.subitems@.len() && keeps(#[trigger] t.subitems@[i], ids)
}

/// Indices below `upto`, in increasing order, of the trees of `f` that [`keeps`] retains.
pub open spec fn kept_upto<T: Treeable>(f: Seq<Tree<T>>, ids: Seq<u64>, upto: int) -> Seq<int>
    decreases upto,
{
    if upto <= 0 {
        seq![]
    } else {
        let s = kept_upto(f, ids, upto - 1);
        if keeps(f[upto - 1], ids) {
            s.push(upto - 1)
        } else {
            s
        }
    }
}

/// `out` is `t` with every subtree that holds no item of `ids` removed; what
/// stays keeps its order, items and depths.
pub open spec fn is_pruned<T: Treeable>(out: Tree<T>, t: Tree<T>, ids: Seq<u64>) -> bool
    decreases t,
{
    let kept = kept_upto(t.subitems@, ids, t.subitems@.len() as int);
    &&& out.item == t.item
    &&& out.depth == t.depth
    &&& out.subitems@.len() == kept.len()
    &&& forall|c: int|
        0 <= c < kept.len() ==> 0 <= kept[c] < t.subitems@.len() && is_pruned(
            #[trigger] out.subitems@[c],
            t.subitems@[kept[c]],
            ids,
        )
}

/// `out` is the forest `f` pruned to the trees, and nodes, that hold an item of `ids`.
pub open spec fn is_pruned_forest<T: Treeable>(out: Seq<Tree<T>>, f: Seq<Tree<T>>, ids: Seq<u64>) -> bool {
    let kept = kept_upto(f, ids, f.len() as int);
    &&& out.len() == kept.len()
    &&& forall|c: int|
        0 <= c < kept.len() ==> 0 <= kept[c] < f.len() && is_pruned(#[trigger] out[c], f[kept[c]], ids)
}

proof fn lemma_kept_upto<T: Treeable>(f: Seq<Tree<T>>, ids: Seq<u64>, upto: int)
    requires
        0 <= upto <= f.len(),
    ensures
        kept_upto(f, ids, upto).len() > 0 <==> exists|i: int| 0 <= i < upto && keeps(#[trigger] f[i], ids),
        forall|c: int| 0 <= c < kept_upto(f, ids, upto).len() ==> 0 <= #[trigger] kept_upto(f, ids, upto)[c] < upto,
    decreases upto,
{
    if upto > 0 {
        lemma_kept_upto(f, ids, upto - 1);
    }
}

/// Whether `ids` holds `k`.
fn contains(ids: &Vec<u64>, k: u64) -> (r: bool)
    ensures
        r == ids@.contains(k),
{
    let mut i: usize = 0;
    while i < ids.len()
        invariant
            i <= ids@.len(),
            forall|j: int| 0 <= j < i ==> ids@[j] != k,
        decreases ids@.len() - i,
    {
        if ids[i] == k {
            assert(ids@[i as int] == k);
            return true;
        }
        i += 1;
    }
    false
}

/// Prunes one tree; `None` where nothing of it is kept.
fn prune<T: Treeable>(t: Tree<T>, ids: &Vec<u64>) -> (r: Option<Tree<T>>)
    ensures
        r is Some <==> keeps(t, ids@),
        r matches Some(o) ==> is_pruned(o, t, ids@),
    decreases t,
{
    let ghost orig = t;
    let Tree { item, subitems, depth } = t;
    assert(decreases_to!(orig => subitems));
    let kept = prune_forest(subitems, ids);
    proof {
        lemma_kept_upto(orig.subitems@, ids@, orig.subitems@.len() as int);
    }
    let hit = contains(ids, item.id());
    if hit || kept.len() > 0 {
        Some(Tree { item, subitems: kept, depth })
    } else {
        None
    }
}

/// Prunes each tree of a forest, keeping those with something left.
fn prune_forest<T: Treeable>(forest: Vec<Tree<T>>, ids: &Vec<u64>) -> (r: Vec<Tree<T>>)
    ensures
        is_pruned_forest(r@, forest@, ids@),
    decreases forest,
{
    let ghost orig = forest;
    let n = forest.len();
    let mut f = forest;
    let mut rev: Vec<Tree<T>> = Vec::new();
    while f.len() > 0
        invariant
            f@.len() + rev@.len() == n,
            n == orig@.len(),
            f@ == orig@.subrange(0, f@.len() as int),
            forall|x: int| 0 <= x < rev@.len() ==> #[trigger] rev@[x] == orig@[n - 1 - x],
        decreases f@.len(),
    {
        let x = f.pop().unwrap();
        rev.push(x);
    }
    let mut out: Vec<Tree<T>> = Vec::new();
    let mut k: usize = 0;
    while k < n
        invariant
            orig == forest,
            n == orig@.len(),
            k <= n,
            rev@.len() == n - k,
            forall|x: int| 0 <= x < rev@.len() ==> #[trigger] rev@[x] == orig@[n - 1 - x],
            out@.len() == kept_upto(orig@, ids@, k as int).len(),
            forall|c: int|
                0 <= c < out@.len() ==> 0 <= kept_upto(orig@, ids@, k as int)[c] < n && is_pruned(
                    #[trigger] out@[c],
                    orig@[kept_upto(orig@, ids@, k as int)[c]],
                    ids@,
                ),
        decreases n - k,
    {
        let x = rev.pop().unwrap();
        assert(x == orig@[k as int]);
        proof {
            assert(decreases_to!(orig => orig[k as int]));
            assert(decreases_to!(orig => x));
            lemma_kept_upto(orig@, ids@, k as int + 1);
        }
        let ghost before = out@;
        let ghost prev = kept_upto(orig@, ids@, k as int);
        let ghost next = kept_upto(orig@, ids@, k as int + 1);
        match prune(x, ids) {
            Some(o) => {
                out.push(o);
                assert(next == prev.push(k as int));
                assert forall|c: int| 0 <= c < out@.len() implies 0 <= next[c] < n && is_pruned(
                    #[trigger] out@[c],
                    orig@[next[c]],
                    ids@,
                ) by {
                    if c < before.len() {
                        assert(out@[c] == before[c]);
                        assert(next[c] == prev[c]);
                    }
                }
            },
            None => {
                assert(next == prev);
            },
        }
        k += 1;
    }
    proof {
        lemma_kept_upto(orig@, ids@, n as int);
    }
    out
}

/// Common operations on a forest of [`Tree`]s.
pub trait TreeFlattenExt<T: Treeable> {
    /// Flattens the whole forest to a single vector with each node its own
    /// indexable item. Useful for user selection lists.
    fn flat_tree(&self) -> Vec<&Tree<T>>;

    /// Finds the node with the given ID within the forest: the first one, in
    /// the order of the trees and then in pre-order.
    fn find(&self, id: u64) -> Option<&Tree<T>>;

    /// Finds the node with the given ID within the forest, mutably: the one
    /// that `find` finds; without one the forest is left as it was.
    fn find_mut(&mut self, id: u64) -> Option<&mut Tree<T>>;

    /// Keeps only the trees, and nodes, that hold an item whose ID is in
    /// `filter_ids`, together with the ancestors of such items.
    fn keep_trees(self, filter_ids: &Vec<u64>) -> Self where Self: Sized;
}

impl<T: Treeable> TreeFlattenExt<T> for Vec<Tree<T>> {
    fn flat_tree(&self) -> (r: Vec<&Tree<T>>)
        ensures
            nodes(r@) == forest_preorder(self@, self@.len() as int),
    {
        let mut items: Vec<&Tree<T>> = Vec::new();
        assert(nodes(items@) =~= forest_preorder(self@, 0));
        let mut i: usize = 0;
        while i < self.len()
            invariant
                0 <= i <= self@.len(),
                nodes(items@) == forest_preorder(self@, i as int),
            decreases self@.len() - i,
        {
            let mut sub = self[i].flatten();
            let ghost before = items@;
            items.append(&mut sub);
            assert(nodes(items@) =~= nodes(before) + preorder(self@[i as int]));
            i += 1;
        }
        items
    }

    fn find(&self, id: u64) -> (r: Option<&Tree<T>>)
        ensures
            r is Some <==> forest_has(self@, id),
            r matches Some(t) ==> t.item.key() == id && forest_first_with(self@, id, 0) == Some(*t),
            r is None ==> forest_first_with(self@, id, 0) is None,
    {
        let mut i: usize = 0;
        while i < self.len()
            invariant
                0 <= i <= self@.len(),
                forall|k: int| 0 <= k < i ==> !tree_has(#[trigger] self@[k], id),
                forest_first_with(self@, id, 0) == forest_first_with(self@, id, i as int),
            decreases self@.len() - i,
        {
            let found = self[i].find(&id);
            if found.is_some() {
                return found;
            }
            i += 1;
        }
        None
    }

    fn find_mut(&mut self, id: u64) -> (r: Option<&mut Tree<T>>)
        ensures
            r is Some <==> forest_has(old(self)@, id),
            r matches Some(t) ==> (*t).item.key() == id && forest_first_with(old(self)@, id, 0)
                == Some(*t),
            r is None ==> final(self)@ == old(self)@,
    {
        let mut i: usize = 0;
        while i < self.len()
            invariant
                0 <= i <= self@.len(),
                self@ == old(self)@,
                forall|k: int| 0 <= k < i ==> !tree_has(#[trigger] self@[k], id),
                forest_first_with(self@, id, 0) == forest_first_with(self@, id, i as int),
            decreases self@.len() - i,
        {
            if self[i].find(&id).is_some() {
                return self[i].find_mut(&id);
            }
            i += 1;
        }
        None
    }

    fn keep_trees(self, filter_ids: &Vec<u64>) -> (r: Self)
        ensures
            is_pruned_forest(r@, self@, filter_ids@),
    {
        prune_forest(self, filter_ids)
    }
}

/// Why a forest could not be built from a list of items.
#[derive(Debug, Clone, Copy, PartialEq, Eq, Structural)]
pub enum TreeError {
    /// Some items never reach an item without parent: their parent references
    /// form a cycle. `count` is how many items are left over.
    Unresolved { count: usize },
}

/// How many of the first `upto` entries of `s` are set.
spec fn num_some(s: Seq<Option<usize>>, upto: int) -> nat
    decreases upto,
{
    if upto <= 0 {
        0
    } else {
        num_some(s, upto - 1) + if s[upto - 1] is Some {
            1nat
        } else {
            0nat
        }
    }
}

proof fn lemma_num_some_update(s: Seq<Option<usize>>, i: int, v: Option<usize>, upto: int)
    requires
        0 <= i < s.len(),
        0 <= upto <= s.len(),
        s[i] is None,
        v is Some,
    ensures
        num_some(s.update(i, v), upto) == num_some(s, upto) + if i < upto {
            1nat
        } else {
            0nat
        },
    decreases upto,
{
    if upto > 0 {
        lemma_num_some_update(s, i, v, upto - 1);
    }
}

proof fn lemma_num_some_zero(s: Seq<Option<usize>>, upto: int)
    requires
        0 <= upto <= s.len(),
        forall|m: int| 0 <= m < s.len() ==> #[trigger] s[m] is None,
    ensures
        num_some(s, upto) == 0,
    decreases upto,
{
    if upto > 0 {
        lemma_num_some_zero(s, upto - 1);
    }
}

proof fn lemma_num_some_full(s: Seq<Option<usize>>, upto: int)
    requires
        0 <= upto <= s.len(),
    ensures
        num_some(s, upto) <= upto,
        num_some(s, upto) == upto <==> forall|m: int| 0 <= m < upto ==> #[trigger] s[m] is Some,
    decreases upto,
{
    if upto > 0 {
        lemma_num_some_full(s, upto - 1);
        if num_some(s, upto) == upto {
            assert forall|m: int| 0 <= m < upto implies #[trigger] s[m] is Some by {
                if m < upto - 1 {
                } else {
                }
            }
        }
    }
}

/// The facts that the rank computation of [`Tree::from_items`] keeps: `pidx` gives
/// the index of each parent, and a set rank is one more than its parent's.
spec fn ranks_ok<T: Treeable>(its: Seq<T>, pidx: Seq<Option<usize>>, ranks: Seq<Option<usize>>) -> bool {
    &&& pidx.len() == its.len()
    &&& ranks.len() == its.len()
    &&& unique_keys(its)
    &&& forall|m: int|
        0 <= m < its.len() ==> ((#[trigger] pidx[m]) is None <==> its[m].parent_key() is None)
    &&& forall|m: int|
        0 <= m < its.len() && (#[trigger] pidx[m]) is Some ==> {
            &&& pidx[m]->0 < its.len()
            &&& Some(its[pidx[m]->0 as int].key()) == its[m].parent_key()
        }
    &&& forall|m: int|
        0 <= m < its.len() && (#[trigger] ranks[m]) is Some ==> {
            &&& pidx[m] is None ==> ranks[m]->0 == 0
            &&& pidx[m] is Some ==> ranks[pidx[m]->0 as int] is Some && ranks[m]->0
                == ranks[pidx[m]->0 as int]->0 + 1
        }
}

proof fn lemma_parent_index<T: Treeable>(its: Seq<T>, pidx: Seq<Option<usize>>, ranks: Seq<Option<usize>>, m: int)
    requires
        ranks_ok(its, pidx, ranks),
        0 <= m < its.len(),
        pidx[m] is Some,
    ensures
        parent_index(its, m) == pidx[m]->0,
{
    let p = pidx[m]->0 as int;
    assert(0 <= p < its.len() && Some(its[p].key()) == its[m].parent_key());
    let q = parent_index(its, m);
    assert(its[q].key() == its[p].key());
}

proof fn lemma_level_set<T: Treeable>(
    its: Seq<T>,
    pidx: Seq<Option<usize>>,
    ranks: Seq<Option<usize>>,
    m: int,
    fuel: nat,
)
    requires
        ranks_ok(its, pidx, ranks),
        0 <= m < its.len(),
        ranks[m] is Some,
        fuel >= ranks[m]->0,
    ensures
        level(its, m, fuel) == Some(ranks[m]->0 as nat),
    decreases fuel,
{
    if pidx[m] is Some {
        lemma_parent_index(its, pidx, ranks, m);
        lemma_level_set(its, pidx, ranks, pidx[m]->0 as int, (fuel - 1) as nat);
    }
}

proof fn lemma_level_unset<T: Treeable>(
    its: Seq<T>,
    pidx: Seq<Option<usize>>,
    ranks: Seq<Option<usize>>,
    m: int,
    fuel: nat,
)
    requires
        ranks_ok(its, pidx, ranks),
        forall|x: int|
            0 <= x < its.len() && (#[trigger] ranks[x]) is None ==> pidx[x] is Some
                && ranks[pidx[x]->0 as int] is None,
        0 <= m < its.len(),
        ranks[m] is None,
    ensures
        level(its, m, fuel) is None,
    decreases fuel,
{
    if fuel > 0 {
        lemma_parent_index(its, pidx, ranks, m);
        lemma_level_unset(its, pidx, ranks, pidx[m]->0 as int, (fuel - 1) as nat);
    }
}

proof fn lemma_unresolved<T: Treeable>(its: Seq<T>, ranks: Seq<Option<usize>>, upto: int)
    requires
        ranks.len() == its.len(),
        0 <= upto <= its.len(),
        forall|m: int| 0 <= m < its.len() ==> (#[trigger] ranks[m] is Some <==> reaches_root(its, m)),
    ensures
        unresolved_upto(its, upto) + num_some(ranks, upto) == upto,
    decreases upto,
{
    if upto > 0 {
        lemma_unresolved(its, ranks, upto - 1);
        assert(ranks[upto - 1] is Some <==> reaches_root(its, upto - 1));
    }
}

/// A list in which no item names a parent holds no cycle, so it always builds.
pub proof fn lemma_no_parents_resolvable<T: Treeable>(items: Seq<T>)
    requires
        forall|i: int| 0 <= i < items.len() ==> (#[trigger] items[i]).parent_key() is None,
    ensures
        resolvable(settled(items)),
{
    let its = settled(items);
    assert forall|m: int| 0 <= m < its.len() implies #[trigger] reaches_root(its, m) by {
        assert(its[m] == settle(items, items[m]));
    }
}

/// An item whose parent is not in the list is settled as a root, with its ID kept.
pub proof fn lemma_missing_parent_is_root<T: Treeable>(items: Seq<T>, m: int)
    requires
        0 <= m < items.len(),
        items[m].parent_key() is Some,
        !has_key(items, items[m].parent_key()->0),
    ensures
        settled(items)[m].parent_key() is None,
        settled(items)[m].key() == items[m].key(),
{
    items[m].lemma_orphaned();
}

proof fn lemma_children_of<T: Treeable>(its: Seq<T>, p: Option<u64>, upto: int)
    requires
        0 <= upto <= its.len(),
    ensures
        forall|c: int|
            0 <= c < children_of(its, p, upto).len() ==> 0 <= #[trigger] children_of(its, p, upto)[c]
                < upto && its[children_of(its, p, upto)[c]].parent_key() == p,
    decreases upto,
{
    if upto > 0 {
        lemma_children_of(its, p, upto - 1);
        let s = children_of(its, p, upto - 1);
        let r = children_of(its, p, upto);
        assert forall|c: int| 0 <= c < r.len() implies 0 <= #[trigger] r[c] < upto && its[r[c]].parent_key() == p by {
            if its[upto - 1].parent_key() == p {
                assert(r == s.push(upto - 1));
                if c < s.len() {
                    assert(r[c] == s[c]);
                }
            } else {
                assert(r == s);
            }
        }
    }
}

/// In a tree of the forest of `its`, every subitem names its node as parent,
/// one level deeper.
pub proof fn lemma_subitems_name_parent<T: Treeable>(
    t: Tree<T>,
    its: Seq<T>,
    j: int,
    depth: nat,
    fuel: nat,
    c: int,
)
    requires
        0 <= j < its.len(),
        is_tree_of(t, its, j, depth, fuel),
        0 <= c < t.subitems@.len(),
    ensures
        t.subitems@[c].item.parent_key() == Some(t.item.key()),
        t.subitems@[c].depth == t.depth + 1,
{
    lemma_children_of(its, Some(its[j].key()), its.len() as int);
    let k = children_of(its, Some(its[j].key()), its.len() as int)[c];
    assert(is_tree_of(t.subitems@[c], its, k, depth + 1, (fuel - 1) as nat));
}

/// The roots of the forest of `its` are its items without parent, at depth 0.
pub proof fn lemma_roots_have_no_parent<T: Treeable>(f: Seq<Tree<T>>, its: Seq<T>, r: int)
    requires
        is_sorted_forest_of(f, its),
        0 <= r < f.len(),
    ensures
        f[r].item.parent_key() is None,
        f[r].depth == 0,
{
    lemma_children_of(its, None, its.len() as int);
    let roots = children_of(its, None, its.len() as int);
    assert(tree_of_a_root(f[r], its));
    let c = choose|c: int| 0 <= c < roots.len() && is_tree_of(f[r], its, roots[c], 0, its.len() as nat);
    assert(is_tree_of(f[r], its, roots[c], 0, its.len() as nat));
}

/// Every parent that an item of `its` names is the ID of an item of `its`.
pub open spec fn parents_present<T: Treeable>(its: Seq<T>) -> bool {
    forall|m: int|
        0 <= m < its.len() && (#[trigger] its[m].parent_key()) is Some ==> has_key(
            its,
            its[m].parent_key()->0,
        )
}

/// The item `s` parent steps above item `m`.
spec fn ancestor_of<T: Treeable>(its: Seq<T>, m: int, s: nat) -> int
    decreases s,
{
    if s == 0 {
        m
    } else {
        parent_index(its, ancestor_of(its, m, (s - 1) as nat))
    }
}

proof fn lemma_parent_index_valid<T: Treeable>(its: Seq<T>, m: int)
    requires
        parents_present(its),
        0 <= m < its.len(),
        its[m].parent_key() is Some,
    ensures
        0 <= parent_index(its, m) < its.len(),
        Some(its[parent_index(its, m)].key()) == its[m].parent_key(),
{
    let p = its[m].parent_key()->0;
    assert(has_key(its, p));
    let i = choose|i: int| 0 <= i < its.len() && #[trigger] its[i].key() == p;
    assert(Some(its[i].key()) == its[m].parent_key());
}

/// Following parents from `m` for `d` steps, as `level` found, stays in the
/// list, meets parents at every step below `d`, and ends at an item without parent.
proof fn lemma_level_chain<T: Treeable>(its: Seq<T>, m: int, fuel: nat, d: nat, s: nat)
    requires
        parents_present(its),
        0 <= m < its.len(),
        level(its, m, fuel) == Some(d),
        s <= d,
    ensures
        0 <= ancestor_of(its, m, s) < its.len(),
        s < d ==> its[ancestor_of(its, m, s)].parent_key() is Some,
        s == d ==> its[ancestor_of(its, m, s)].parent_key() is None,
    decreases fuel,
{
    if its[m].parent_key() is None {
    } else {
        lemma_parent_index_valid(its, m);
        let p = parent_index(its, m);
        let dp = (d - 1) as nat;
        assert(level(its, p, (fuel - 1) as nat) == Some(dp));
        if s == 0 {
        } else {
            lemma_level_chain(its, p, (fuel - 1) as nat, dp, (s - 1) as nat);
            lemma_ancestor_shift(its, m, (s - 1) as nat);
        }
    }
}

/// Going `s + 1` steps up from `m` is going one step, then `s` more.
proof fn lemma_ancestor_shift<T: Treeable>(its: Seq<T>, m: int, s: nat)
    ensures
        ancestor_of(its, m, s + 1) == ancestor_of(its, parent_index(its, m), s),
    decreases s,
{
    let p = parent_index(its, m);
    if s > 0 {
        lemma_ancestor_shift(its, m, (s - 1) as nat);
        assert(ancestor_of(its, m, s + 1) == parent_index(its, ancestor_of(its, m, s)));
        assert(ancestor_of(its, p, s) == parent_index(its, ancestor_of(its, p, (s - 1) as nat)));
    } else {
        assert(ancestor_of(its, m, 1) == parent_index(its, ancestor_of(its, m, 0)));
    }
}

proof fn lemma_in_children<T: Treeable>(its: Seq<T>, p: Option<u64>, upto: int, k: int)
    requires
        0 <= k < upto <= its.len(),
        its[k].parent_key() == p,
    ensures
        exists|c: int| 0 <= c < children_of(its, p, upto).len() && children_of(its, p, upto)[c] == k,
    decreases upto,
{
    let s = children_of(its, p, upto - 1);
    if k == upto - 1 {
        assert(children_of(its, p, upto)[s.len() as int] == k);
    } else {
        lemma_in_children(its, p, upto - 1, k);
        let c = choose|c: int| 0 <= c < s.len() && s[c] == k;
        assert(children_of(its, p, upto)[c] == k);
    }
}

/// The tree of item `j` holds every item that reaches `j` in `s` parent steps.
proof fn lemma_tree_holds_descendant<T: Treeable>(
    t: Tree<T>,
    its: Seq<T>,
    j: int,
    depth: nat,
    fuel: nat,
    m: int,
    s: nat,
    d: nat,
)
    requires
        parents_present(its),
        0 <= m < its.len(),
        0 <= j < its.len(),
        level(its, m, its.len() as nat) == Some(d),
        s <= d,
        ancestor_of(its, m, s) == j,
        is_tree_of(t, its, j, depth, fuel),
    ensures
        tree_has(t, its[m].key()),
    decreases s,
{
    if s == 0 {
    } else {
        let k = ancestor_of(its, m, (s - 1) as nat);
        lemma_level_chain(its, m, its.len() as nat, d, (s - 1) as nat);
        lemma_parent_index_valid(its, k);
        let key = its[j].key();
        lemma_in_children(its, Some(key), its.len() as int, k);
        let kids = children_of(its, Some(key), its.len() as int);
        let c = choose|c: int| 0 <= c < kids.len() && kids[c] == k;
        assert(is_tree_of(t.subitems@[c], its, k, depth + 1, (fuel - 1) as nat));
        lemma_tree_holds_descendant(t.subitems@[c], its, k, depth + 1, (fuel - 1) as nat, m, (s - 1) as nat, d);
    }
}

/// A successful build loses no item: every item of the list is in the forest.
pub proof fn lemma_forest_holds_every_item<T: Treeable>(f: Seq<Tree<T>>, items: Seq<T>, m: int)
    requires
        is_sorted_forest_of(f, settled(items)),
        resolvable(settled(items)),
        0 <= m < items.len(),
    ensures
        forest_has(f, items[m].key()),
{
    let its = settled(items);
    assert forall|x: int| 0 <= x < its.len() && (#[trigger] its[x].parent_key()) is Some implies has_key(
        its,
        its[x].parent_key()->0,
    ) by {
        let p = items[x].parent_key()->0;
        assert(its[x] == settle(items, items[x]));
        items[x].lemma_orphaned();
        if its[x].parent_key() is Some {
            assert(has_key(items, p));
            let i = choose|i: int| 0 <= i < items.len() && #[trigger] items[i].key() == p;
            items[i].lemma_orphaned();
            assert(its[i] == settle(items, items[i]));
            assert(its[i].key() == p);
        }
    }
    items[m].lemma_orphaned();
    assert(its[m] == settle(items, items[m]));
    assert(reaches_root(its, m));
    let d = level(its, m, its.len() as nat)->0;
    lemma_level_chain(its, m, its.len() as nat, d, d);
    let r0 = ancestor_of(its, m, d);
    lemma_in_children(its, None, its.len() as int, r0);
    let roots = children_of(its, None, its.len() as int);
    let c = choose|c: int| 0 <= c < roots.len() && roots[c] == r0;
    assert(roots[c] == r0);
    assert(has_tree_of(f, its, roots[c]));
    let r = choose|r: int| 0 <= r < f.len() && is_tree_of(f[r], its, roots[c], 0, its.len() as nat);
    lemma_tree_holds_descendant(f[r], its, r0, 0, its.len() as nat, m, d, d);
}

impl<T: Treeable> Tree<T> {
    /// Builds the forest of a list of items with unique IDs.
    ///
    /// An item whose parent is not in the list has its parent reset and becomes a
    /// root. Roots are listed in the order of their items ([`Treeable::order`]);
    /// the subitems of each node keep the order of the list; a node's depth
    /// counts its ancestors. Fails when parent references form a cycle, with the
    /// number of items that never reach a root.
    #[verifier::rlimit(80)]
    pub fn from_items(items: Vec<T>) -> (r: Result<Vec<Tree<T>>, TreeError>)
        requires
            unique_keys(items@),
        ensures
            r is Ok <==> resolvable(settled(items@)),
            r matches Ok(f) ==> is_sorted_forest_of(f@, settled(items@)),
            r matches Err(TreeError::Unresolved { count }) ==> count == unresolved_count(
                settled(items@),
            ) && count > 0,
    {
        let ghost orig = items@;
        let ghost its = settled(orig);
        let n = items.len();
        let mut keys: Vec<u64> = Vec::new();
        let mut index: HashMap<u64, usize> = HashMap::new();
        let mut i: usize = 0;
        while i < n
            invariant
                n == items@.len(),
                items@ == orig,
                unique_keys(orig),
                i <= n,
                keys@.len() == i,
                forall|x: int| 0 <= x < i ==> #[trigger] keys@[x] == orig[x].key(),
                forall|k: u64| #[trigger] index@.contains_key(k) ==> index@[k] < i && keys@[index@[k] as int] == k,
                forall|x: int| 0 <= x < i ==> index@.contains_key(#[trigger] keys@[x]),
            decreases n - i,
        {
            let key = items[i].id();
            keys.push(key);
            index.insert(key, i);
            proof {
                assert forall|x: int| 0 <= x < i + 1 implies index@.contains_key(#[trigger] keys@[x]) by {
                    if x < i {
                        assert(orig[x].key() != orig[i as int].key());
                    }
                }
            }
            i += 1;
        }
        proof {
            assert forall|x: int| 0 <= x < n implies #[trigger] its[x].key() == orig[x].key() by {
                orig[x].lemma_orphaned();
            }
            assert(unique_keys(its)) by {
                assert forall|a: int, b: int|
                    0 <= a < n && 0 <= b < n && a != b implies #[trigger] its[a].key()
                        != #[trigger] its[b].key() by {
                    assert(orig[a].key() != orig[b].key());
                }
            }
        }
        // Reverse the items, so that popping hands them out in list order.
        let mut items = items;
        let mut rev: Vec<T> = Vec::new();
        while items.len() > 0
            invariant
                items@.len() + rev@.len() == n,
                n == orig.len(),
                items@ == orig.subrange(0, items@.len() as int),
                forall|x: int| 0 <= x < rev@.len() ==> #[trigger] rev@[x] == orig[n - 1 - x],
            decreases items@.len(),
        {
            let x = items.pop().unwrap();
            rev.push(x);
        }
        let mut slots: Vec<Option<T>> = Vec::new();
        let mut parents: Vec<Option<u64>> = Vec::new();
        let mut pidx: Vec<Option<usize>> = Vec::new();
        while rev.len() > 0
            invariant
                rev@.len() + slots@.len() == n,
                n == orig.len(),
                its == settled(orig),
                keys@.len() == n,
                forall|x: int| 0 <= x < n ==> #[trigger] keys@[x] == orig[x].key(),
                forall|k: u64| #[trigger] index@.contains_key(k) ==> index@[k] < n && keys@[index@[k] as int] == k,
                forall|x: int| 0 <= x < n ==> index@.contains_key(#[trigger] keys@[x]),
                forall|x: int| 0 <= x < rev@.len() ==> #[trigger] rev@[x] == orig[n - 1 - x],
                parents@.len() == slots@.len(),
                pidx@.len() == slots@.len(),
                forall|x: int| 0 <= x < slots@.len() ==> #[trigger] slots@[x] == Some(its[x]),
                forall|x: int|
                    0 <= x < slots@.len() ==> #[trigger] parents@[x] == its[x].parent_key(),
                forall|x: int|
                    0 <= x < slots@.len() ==> ((#[trigger] pidx@[x]) is None <==> parents@[x] is None),
                forall|x: int|
                    0 <= x < slots@.len() && (#[trigger] pidx@[x]) is Some ==> pidx@[x]->0 < n
                        && Some(keys@[pidx@[x]->0 as int]) == parents@[x],
            decreases rev@.len(),
        {
            let ghost k = slots@.len() as int;
            let mut x = rev.pop().unwrap();
            assert(x == orig[k]);
            let (p, ix) = match x.parent_id() {
                Some(p) => match index.get(&p) {
                    Some(ix) => {
                        let ix = *ix;
                        assert(has_key(orig, p)) by {
                            assert(orig[ix as int].key() == p);
                        }
                        (Some(p), Some(ix))
                    },
                    None => {
                        assert(!has_key(orig, p)) by {
                            assert forall|y: int| 0 <= y < n implies #[trigger] orig[y].key() != p by {
                                assert(index@.contains_key(keys@[y]));
                            }
                        }
                        proof {
                            orig[k].lemma_orphaned();
                        }
                        x.reset_parent();
                        (None, None)
                    },
                },
                None => (None, None),
            };
            assert(x == its[k]);
            slots.push(Some(x));
            parents.push(p);
            pidx.push(ix);
        }
        assert forall|x: int| 0 <= x < n implies #[trigger] keys@[x] == its[x].key() by {}
        // List the children of every item, in list order.
        let mut kids: Vec<Vec<usize>> = Vec::new();
        let mut i: usize = 0;
        while i < n
            invariant
                i <= n,
                kids@.len() == i,
                forall|x: int| 0 <= x < i ==> (#[trigger] kids@[x])@.len() == 0,
            decreases n - i,
        {
            kids.push(Vec::new());
            i += 1;
        }
        assert forall|x: int| 0 <= x < n implies ints_of(#[trigger] kids@[x]@) == children_of(its, Some(its[x].key()), 0) by {
            assert(ints_of(kids@[x]@) =~= Seq::<int>::empty());
        }
        let mut k: usize = 0;
        while k < n
            invariant
                n == its.len(),
                k <= n,
                kids@.len() == n,
                keys@.len() == n,
                parents@.len() == n,
                pidx@.len() == n,
                forall|x: int| 0 <= x < n ==> #[trigger] keys@[x] == its[x].key(),
                forall|x: int| 0 <= x < n ==> #[trigger] parents@[x] == its[x].parent_key(),
                forall|x: int| 0 <= x < n ==> ((#[trigger] pidx@[x]) is None <==> parents@[x] is None),
                forall|x: int|
                    0 <= x < n && (#[trigger] pidx@[x]) is Some ==> pidx@[x]->0 < n
                        && Some(keys@[pidx@[x]->0 as int]) == parents@[x],
                unique_keys(its),
                forall|x: int|
                    0 <= x < n ==> ints_of(#[trigger] kids@[x]@) == children_of(its, Some(its[x].key()), k as int),
            decreases n - k,
        {
            let ghost before = kids@;
            if let Some(p) = pidx[k] {
                kids[p].push(k);
                proof {
                    assert forall|x: int| 0 <= x < n implies ints_of(#[trigger] kids@[x]@) == children_of(its, Some(its[x].key()), k as int + 1) by {
                        if x == p {
                            assert(ints_of(kids@[x]@) =~= ints_of(before[x]@).push(k as int));
                        } else {
                            assert(kids@[x] == before[x]);
                            assert(its[x].key() != its[p as int].key());
                        }
                    }
                }
            } else {
                proof {
                    assert forall|x: int| 0 <= x < n implies ints_of(#[trigger] kids@[x]@) == children_of(its, Some(its[x].key()), k as int + 1) by {
                        assert(kids@[x] == before[x]);
                    }
                }
            }
            k += 1;
        }
        // Rank every item: roots get 0, an item one more than its parent.
        let mut ranks: Vec<Option<usize>> = Vec::new();
        let mut i: usize = 0;
        while i < n
            invariant
                i <= n,
                ranks@.len() == i,
                forall|x: int| 0 <= x < i ==> #[trigger] ranks@[x] is None,
            decreases n - i,
        {
            ranks.push(None);
            i += 1;
        }
        let mut resolved: usize = 0;
        proof {
            assert(num_some(ranks@, 0) == 0);
            lemma_num_some_zero(ranks@, n as int);
        }
        // The roots first, then, breadth first, the children of each ranked item.
        let mut queue: Vec<usize> = Vec::new();
        let mut m: usize = 0;
        while m < n
            invariant
                n == its.len(),
                m <= n,
                ranks@.len() == n,
                pidx@.len() == n,
                ranks_ok(its, pidx@, ranks@),
                resolved == num_some(ranks@, n as int),
                resolved == queue@.len(),
                resolved <= m,
                forall|x: int|
                    0 <= x < n && (#[trigger] ranks@[x]) is Some ==> ranks@[x]->0 == 0 && x < m
                        && pidx@[x] is None,
                forall|x: int| 0 <= x < m && (#[trigger] pidx@[x]) is None ==> ranks@[x] is Some,
                forall|q: int| 0 <= q < queue@.len() ==> #[trigger] queue@[q] < n && ranks@[queue@[q] as int] is Some,
                forall|x: int| 0 <= x < n && (#[trigger] ranks@[x]) is Some ==> exists|q: int| 0 <= q < queue@.len() && queue@[q] == x,
                forall|a: int, b: int| 0 <= a < b < queue@.len() ==> #[trigger] queue@[a] != #[trigger] queue@[b],
            decreases n - m,
        {
            if pidx[m].is_none() {
                let ghost before = queue@;
                proof {
                    lemma_num_some_update(ranks@, m as int, Some(0usize), n as int);
                }
                ranks.set(m, Some(0));
                queue.push(m);
                resolved += 1;
                proof {
                    assert forall|x: int| 0 <= x < n && (#[trigger] ranks@[x]) is Some implies exists|q: int| 0 <= q < queue@.len() && queue@[q] == x by {
                        if x == m {
                            assert(queue@[before.len() as int] == x);
                        } else {
                            let q = choose|q: int| 0 <= q < before.len() && before[q] == x;
                            assert(queue@[q] == x);
                        }
                    }
                }
            }
            m += 1;
        }
        let mut qi: usize = 0;
        while qi < queue.len()
            invariant
                n == its.len(),
                ranks@.len() == n,
                pidx@.len() == n,
                kids@.len() == n,
                keys@.len() == n,
                parents@.len() == n,
                forall|x: int| 0 <= x < n ==> #[trigger] keys@[x] == its[x].key(),
                forall|x: int| 0 <= x < n ==> #[trigger] parents@[x] == its[x].parent_key(),
                forall|x: int|
                    0 <= x < n && (#[trigger] pidx@[x]) is Some ==> pidx@[x]->0 < n
                        && Some(keys@[pidx@[x]->0 as int]) == parents@[x],
                unique_keys(its),
                forall|x: int|
                    0 <= x < n ==> ints_of(#[trigger] kids@[x]@) == children_of(its, Some(its[x].key()), n as int),
                ranks_ok(its, pidx@, ranks@),
                resolved == num_some(ranks@, n as int),
                resolved == queue@.len(),
                resolved <= n,
                qi <= queue@.len(),
                forall|x: int|
                    0 <= x < n && (#[trigger] ranks@[x]) is Some ==> ranks@[x]->0 < resolved,
                forall|x: int| 0 <= x < n && (#[trigger] pidx@[x]) is None ==> ranks@[x] is Some,
                forall|q: int| 0 <= q < queue@.len() ==> #[trigger] queue@[q] < n && ranks@[queue@[q] as int] is Some,
                forall|x: int| 0 <= x < n && (#[trigger] ranks@[x]) is Some ==> exists|q: int| 0 <= q < queue@.len() && queue@[q] == x,
                forall|a: int, b: int| 0 <= a < b < queue@.len() ==> #[trigger] queue@[a] != #[trigger] queue@[b],
                forall|x: int|
                    0 <= x < n && (#[trigger] ranks@[x]) is Some && pidx@[x] is Some ==> exists|q: int|
                        0 <= q < qi && queue@[q] == pidx@[x]->0,
                forall|q: int, c: int|
                    0 <= q < qi && 0 <= c < kids@[queue@[q] as int]@.len() ==> ranks@[#[trigger] kids@[queue@[q] as int]@[c] as int] is Some,
            decreases n - qi,
        {
            let j = queue[qi];
            let rj = match ranks[j] {
                Some(r) => r,
                None => 0,
            };
            let ghost kj = children_of(its, Some(its[j as int].key()), n as int);
            proof {
                lemma_children_of(its, Some(its[j as int].key()), n as int);
                lemma_children_increasing(its, Some(its[j as int].key()), n as int);
                assert(ints_of(kids@[j as int]@) == kj);
                assert forall|c2: int| 0 <= c2 < kj.len() implies ranks@[#[trigger] kj[c2]] is None by {
                    let x = kj[c2];
                    assert(pidx@[x] == Some(j)) by {
                        assert(parents@[x] == Some(its[j as int].key()));
                        let p = pidx@[x]->0 as int;
                        assert(its[p].key() == its[j as int].key());
                    }
                    if ranks@[x] is Some {
                        let q = choose|q: int| 0 <= q < qi && queue@[q] == pidx@[x]->0;
                        assert(queue@[q] == queue@[qi as int]);
                    }
                }
            }
            let mut c: usize = 0;
            while c < kids[j].len()
                invariant
                    n == its.len(),
                    ranks@.len() == n,
                    pidx@.len() == n,
                    kids@.len() == n,
                    keys@.len() == n,
                    parents@.len() == n,
                    forall|x: int| 0 <= x < n ==> #[trigger] keys@[x] == its[x].key(),
                    forall|x: int| 0 <= x < n ==> #[trigger] parents@[x] == its[x].parent_key(),
                    forall|x: int|
                        0 <= x < n && (#[trigger] pidx@[x]) is Some ==> pidx@[x]->0 < n
                            && Some(keys@[pidx@[x]->0 as int]) == parents@[x],
                    unique_keys(its),
                    forall|x: int|
                        0 <= x < n ==> ints_of(#[trigger] kids@[x]@) == children_of(its, Some(its[x].key()), n as int),
                    j < n,
                    qi < queue@.len(),
                    queue@[qi as int] == j,
                    ranks@[j as int] == Some(rj),
                    kj == ints_of(kids@[j as int]@),
                    forall|x: int| 0 <= x < kj.len() ==> 0 <= #[trigger] kj[x] < n && its[kj[x]].parent_key() == Some(its[j as int].key()),
                    c <= kj.len(),
                    ranks_ok(its, pidx@, ranks@),
                    resolved == num_some(ranks@, n as int),
                    resolved == queue@.len(),
                    resolved <= n,
                    forall|x: int|
                        0 <= x < n && (#[trigger] ranks@[x]) is Some ==> ranks@[x]->0 < resolved,
                    forall|x: int| 0 <= x < n && (#[trigger] pidx@[x]) is None ==> ranks@[x] is Some,
                    forall|q: int| 0 <= q < queue@.len() ==> #[trigger] queue@[q] < n && ranks@[queue@[q] as int] is Some,
                    forall|x: int| 0 <= x < n && (#[trigger] ranks@[x]) is Some ==> exists|q: int| 0 <= q < queue@.len() && queue@[q] == x,
                    forall|a: int, b: int| 0 <= a < b < queue@.len() ==> #[trigger] queue@[a] != #[trigger] queue@[b],
                    forall|x: int|
                        0 <= x < n && (#[trigger] ranks@[x]) is Some && pidx@[x] is Some ==> exists|q: int|
                            0 <= q <= qi && queue@[q] == pidx@[x]->0,
                    forall|q: int, c2: int|
                        0 <= q < qi && 0 <= c2 < kids@[queue@[q] as int]@.len() ==> ranks@[#[trigger] kids@[queue@[q] as int]@[c2] as int] is Some,
                    forall|c2: int| 0 <= c2 < c ==> ranks@[#[trigger] kj[c2]] is Some,
                    forall|c2: int| c <= c2 < kj.len() ==> ranks@[#[trigger] kj[c2]] is None,
                    forall|a: int, b: int| 0 <= a < b < kj.len() ==> #[trigger] kj[a] < #[trigger] kj[b],
                decreases kj.len() - c,
            {
                let k = kids[j][c];
                assert(k as int == kj[c as int]);
                proof {
                    assert(pidx@[k as int] == Some(j)) by {
                        assert(parents@[k as int] == Some(its[j as int].key()));
                        let p = pidx@[k as int]->0 as int;
                        assert(its[p].key() == its[j as int].key());
                    }
                    lemma_num_some_update(ranks@, k as int, Some((rj + 1) as usize), n as int);
                    lemma_num_some_full(ranks@.update(k as int, Some((rj + 1) as usize)), n as int);
                }
                let ghost before_q = queue@;
                let ghost before_r = ranks@;
                ranks.set(k, Some(rj + 1));
                queue.push(k);
                resolved += 1;
                proof {
                    assert(ranks@ == before_r.update(k as int, Some((rj + 1) as usize)));
                    assert forall|x: int| 0 <= x < n && (#[trigger] ranks@[x]) is Some implies exists|q: int| 0 <= q < queue@.len() && queue@[q] == x by {
                        if x == k {
                            assert(queue@[before_q.len() as int] == x);
                        } else {
                            let q = choose|q: int| 0 <= q < before_q.len() && before_q[q] == x;
                            assert(queue@[q] == x);
                        }
                    }
                    assert forall|x: int| 0 <= x < n && (#[trigger] ranks@[x]) is Some && pidx@[x] is Some implies exists|q: int| 0 <= q <= qi && queue@[q] == pidx@[x]->0 by {
                        if x == k {
                            assert(queue@[qi as int] == pidx@[x]->0);
                        } else {
                            let q = choose|q: int| 0 <= q <= qi && before_q[q] == pidx@[x]->0;
                            assert(queue@[q] == pidx@[x]->0);
                        }
                    }
                    assert forall|q: int, c2: int|
                        0 <= q < qi && 0 <= c2 < kids@[queue@[q] as int]@.len() implies ranks@[#[trigger] kids@[queue@[q] as int]@[c2] as int] is Some by {
                        assert(queue@[q] == before_q[q]);
                        let idx = kids@[before_q[q] as int]@[c2] as int;
                        let pq = before_q[q] as int;
                        lemma_children_of(its, Some(its[pq].key()), n as int);
                        assert(ints_of(kids@[pq]@)[c2] == idx);
                        assert(before_r[idx] is Some);
                        if idx != k as int {
                            assert(ranks@[idx] == before_r[idx]);
                        }
                    }
                    assert forall|c2: int| c + 1 <= c2 < kj.len() implies ranks@[#[trigger] kj[c2]] is None by {
                        assert(kj[c as int] < kj[c2]);
                        assert(before_r[kj[c2]] is None);
                    }
                    assert forall|c2: int| 0 <= c2 < c + 1 implies ranks@[#[trigger] kj[c2]] is Some by {
                        if c2 < c {
                            assert(kj[c2] < kj[c as int]);
                            assert(before_r[kj[c2]] is Some);
                        }
                    }
                    assert forall|a: int, b: int| 0 <= a < b < queue@.len() implies #[trigger] queue@[a] != #[trigger] queue@[b] by {
                        if b == before_q.len() {
                            assert(ranks@[before_q[a] as int] is Some);
                            assert(before_r[before_q[a] as int] is Some);
                        }
                    }
                }
                c += 1;
            }
            proof {
                assert forall|q: int, c2: int|
                    0 <= q < qi + 1 && 0 <= c2 < kids@[queue@[q] as int]@.len() implies ranks@[#[trigger] kids@[queue@[q] as int]@[c2] as int] is Some by {
                    if q == qi {
                        assert(kj[c2] == kids@[j as int]@[c2] as int);
                    }
                }
            }
            qi += 1;
        }
        proof {
            assert forall|x: int|
                0 <= x < n && (#[trigger] ranks@[x]) is None implies pidx@[x] is Some
                    && ranks@[pidx@[x]->0 as int] is None by {
                if ranks@[pidx@[x]->0 as int] is Some {
                    let p = pidx@[x]->0 as int;
                    let q = choose|q: int| 0 <= q < queue@.len() && queue@[q] == p;
                    assert(its[x].parent_key() == Some(its[p].key()));
                    lemma_in_children(its, Some(its[p].key()), n as int, x);
                    let c2 = choose|c2: int| 0 <= c2 < children_of(its, Some(its[p].key()), n as int).len() && children_of(its, Some(its[p].key()), n as int)[c2] == x;
                    assert(ints_of(kids@[p]@)[c2] == x);
                    assert(kids@[queue@[q] as int]@[c2] as int == x);
                }
            }
        }
        proof {
            lemma_num_some_full(ranks@, n as int);
            assert forall|x: int| 0 <= x < n implies (#[trigger] ranks@[x] is Some <==> reaches_root(its, x)) by {
                if ranks@[x] is Some {
                    lemma_level_set(its, pidx@, ranks@, x, n as nat);
                } else {
                    lemma_level_unset(its, pidx@, ranks@, x, n as nat);
                }
            }
            lemma_unresolved(its, ranks@, n as int);
        }
        if resolved < n {
            proof {
                let x = choose|x: int| 0 <= x < n && !(#[trigger] ranks@[x] is Some);
                assert(!reaches_root(its, x));
            }
            return Err(TreeError::Unresolved { count: n - resolved });
        }
        let ghost par = Seq::new(n as nat, |m: int| match pidx@[m] { Some(p) => p as int, None => 0 });
        let ghost rank = Seq::new(n as nat, |m: int| match ranks@[m] { Some(r) => r as nat, None => 0 });
        assert(shape_ok(its, par, rank)) by {
            assert forall|m: int| 0 <= m < n implies #[trigger] rank[m] < n by {
                assert(ranks@[m] is Some);
            }
            assert forall|m: int| 0 <= m < n && (#[trigger] its[m].parent_key()) is Some implies {
                &&& 0 <= par[m] < n
                &&& Some(its[par[m]].key()) == its[m].parent_key()
                &&& rank[m] == rank[par[m]] + 1
            } by {
                assert(pidx@[m] is Some);
                assert(ranks@[m] is Some);
            }
            assert forall|m: int| 0 <= m < n && (#[trigger] its[m].parent_key()) is None implies rank[m] == 0 by {
                assert(pidx@[m] is None);
                assert(ranks@[m] is Some);
            }
        }
        let mut forest: Vec<Tree<T>> = Vec::new();
        let mut m: usize = 0;
        while m < n
            invariant
                n == its.len(),
                m <= n,
                slots@.len() == n,
                kids@.len() == n,
                forall|x: int|
                    0 <= x < n ==> ints_of(#[trigger] kids@[x]@) == children_of(its, Some(its[x].key()), n as int),
                keys@.len() == n,
                parents@.len() == n,
                forall|x: int| 0 <= x < n ==> #[trigger] keys@[x] == its[x].key(),
                forall|x: int| 0 <= x < n ==> #[trigger] parents@[x] == its[x].parent_key(),
                unique_keys(its),
                shape_ok(its, par, rank),
                forall|x: int|
                    0 <= x < n && ancestor(par, x, rank[x]) >= m ==> #[trigger] slots@[x] == Some(
                        its[x],
                    ),
                forest@.len() == children_of(its, None, m as int).len(),
                forall|c: int|
                    0 <= c < forest@.len() ==> is_tree_of(
                        #[trigger] forest@[c],
                        its,
                        children_of(its, None, m as int)[c],
                        0,
                        n as nat,
                    ),
            decreases n - m,
        {
            if parents[m].is_none() {
                proof {
                    assert forall|x: int|
                        0 <= x < n && in_subtree(par, rank, x, m as int) implies #[trigger] slots@[x]
                            == Some(its[x]) by {}
                }
                let t = build(&mut slots, &kids, m, 0, Ghost(its), Ghost(par), Ghost(rank));
                forest.push(t);
            }
            m += 1;
        }
        let ghost built = forest@;
        let sorted = sort_roots(forest);
        proof {
            let roots = children_of(its, None, n as int);
            sorted@.to_multiset_ensures();
            built.to_multiset_ensures();
            assert forall|r: int| 0 <= r < sorted@.len() implies tree_of_a_root(#[trigger] sorted@[r], its) by {
                assert(sorted@.contains(sorted@[r]));
                assert(built.to_multiset().count(sorted@[r]) > 0);
                assert(built.contains(sorted@[r]));
                let c = choose|c: int| 0 <= c < built.len() && built[c] == sorted@[r];
                assert(is_tree_of(built[c], its, roots[c], 0, n as nat));
            }
            assert forall|c: int| 0 <= c < roots.len() implies has_tree_of(sorted@, its, #[trigger] roots[c]) by {
                assert(built.contains(built[c]));
                assert(sorted@.to_multiset().count(built[c]) > 0);
                assert(sorted@.contains(built[c]));
                let r = choose|r: int| 0 <= r < sorted@.len() && sorted@[r] == built[c];
                assert(is_tree_of(built[c], its, roots[c], 0, n as nat));
            }
        }
        Ok(sorted)
    }
}

} // verus!
