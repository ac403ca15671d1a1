//! Checking a skeleton that came from elsewhere.
//!
//! A skeleton built with `add_bone` and `set_parent` is well formed by
//! construction. One that was put together field by field, or read from a
//! file, is checked here before it is handed to the functions that rely on
//! its shape.

use crate::hierarchy::{acyclic, ancestor, lemma_walk_from_parent, rooted, step_up};
use crate::indices::contains_index;
use crate::skeleton::Skeleton;
use vstd::prelude::*;
use vstd::set_lib::{lemma_int_range, lemma_len_subset, set_int_range};

verus! {

/// Whether no index occurs twice in `v`.
pub fn all_distinct(v: &Vec<usize>) -> (distinct: bool)
    ensures
        distinct == v@.no_duplicates(),
{
    let mut i: usize = 0;
    while i < v.len()
        invariant
            i <= v@.len(),
            forall|a: int, b: int| 0 <= a < i && 0 <= b < v@.len() && a != b ==> v@[a] != v@[b],
        decreases v@.len() - i,
    {
        let mut j: usize = 0;
        while j < v.len()
            invariant
                i < v@.len(),
                j <= v@.len(),
                forall|b: int| 0 <= b < j && b != i ==> v@[i as int] != v@[b],
            decreases v@.len() - j,
        {
            if j != i && v[i] == v[j] {
                return false;
            }
            j += 1;
        }
        i += 1;
    }
    true
}

/// Bone `i` is marked as having a walk that ends, or its parent is not: no
/// further bone can be marked on account of `i`.
spec fn settled(parents: Seq<Option<usize>>, marks: Seq<bool>, i: int) -> bool {
    marks[i] || (parents[i] matches Some(p) && p < marks.len() && !marks[p as int])
}

/// Once no bone can be marked any more, every bone whose walk ends is
/// marked.
proof fn lemma_settled_marks_rooted(
    parents: Seq<Option<usize>>,
    marks: Seq<bool>,
    i: int,
    k: nat,
)
    requires
        marks.len() == parents.len(),
        forall|j: int| 0 <= j < parents.len() ==> #[trigger] settled(parents, marks, j),
        0 <= i < parents.len(),
        ancestor(parents, i, k) is None,
    ensures
        marks[i],
    decreases k,
{
    assert(settled(parents, marks, i));
    if !marks[i] {
        let p = parents[i]->0;
        if k == 0 {
        } else {
            lemma_walk_from_parent(parents, i, (k - 1) as nat);
            lemma_settled_marks_rooted(parents, marks, p as int, (k - 1) as nat);
        }
    }
}

impl Skeleton {
    /// Whether every parent link points at a bone that lists the bone among
    /// its children.
    fn parents_agree(&self) -> (ok: bool)
        ensures
            ok == forall|i: int|
                0 <= i < self.bones@.len() ==> (#[trigger] self.bones@[i].parent matches Some(p)
                    ==> p < self.bones@.len() && self.bones@[p as int].children@.contains(i as usize)),
    {
        let mut i: usize = 0;
        while i < self.bones.len()
            invariant
                i <= self.bones@.len(),
                forall|j: int|
                    0 <= j < i ==> (#[trigger] self.bones@[j].parent matches Some(p) ==> p
                        < self.bones@.len() && self.bones@[p as int].children@.contains(j as usize)),
            decreases self.bones@.len() - i,
        {
            if let Some(p) = self.bones[i].parent {
                if p >= self.bones.len() || !contains_index(&self.bones[p].children, i) {
                    return false;
                }
            }
            i += 1;
        }
        true
    }

    /// Whether every child listed by a bone is a bone that names it as its
    /// parent, and no bone lists a child twice.
    fn children_agree(&self) -> (ok: bool)
        ensures
            ok == ((forall|p: int, j: int|
                0 <= p < self.bones@.len() && 0 <= j < self.bones@[p].children@.len() ==> {
                    let c = #[trigger] self.bones@[p].children@[j];
                    c < self.bones@.len() && self.bones@[c as int].parent == Some(p as usize)
                }) && (forall|p: int|
                0 <= p < self.bones@.len() ==> (#[trigger] self.bones@[p].children@).no_duplicates())),
    {
        let mut p: usize = 0;
        while p < self.bones.len()
            invariant
                p <= self.bones@.len(),
                forall|q: int, j: int|
                    0 <= q < p && 0 <= j < self.bones@[q].children@.len() ==> {
                        let c = #[trigger] self.bones@[q].children@[j];
                        c < self.bones@.len() && self.bones@[c as int].parent == Some(q as usize)
                    },
                forall|q: int| 0 <= q < p ==> (#[trigger] self.bones@[q].children@).no_duplicates(),
            decreases self.bones@.len() - p,
        {
            let kids = &self.bones[p].children;
            if !all_distinct(kids) {
                return false;
            }
            let mut j: usize = 0;
            while j < kids.len()
                invariant
                    p < self.bones@.len(),
                    kids@ == self.bones@[p as int].children@,
                    j <= kids@.len(),
                    forall|k: int|
                        0 <= k < j ==> {
                            let c = #[trigger] self.bones@[p as int].children@[k];
                            c < self.bones@.len() && self.bones@[c as int].parent == Some(p)
                        },
                decreases kids@.len() - j,
            {
                let c = kids[j];
                if c >= self.bones.len() {
                    return false;
                }
                match self.bones[c].parent {
                    Some(q) => {
                        if q != p {
                            return false;
                        }
                    },
                    None => {
                        return false;
                    },
                }
                j += 1;
            }
            p += 1;
        }
        true
    }

    /// Whether `roots` lists exactly the bones without a parent, each once.
    fn roots_agree(&self) -> (ok: bool)
        ensures
            ok == ((forall|i: int|
                0 <= i < self.bones@.len() ==> (#[trigger] self.bones@[i].parent is None
                    <==> self.roots@.contains(i as usize))) && (forall|j: int|
                0 <= j < self.roots@.len() ==> #[trigger] self.roots@[j] < self.bones@.len())
                && self.roots@.no_duplicates()),
    {
        if !all_distinct(&self.roots) {
            return false;
        }
        let mut j: usize = 0;
        while j < self.roots.len()
            invariant
                j <= self.roots@.len(),
                forall|k: int| 0 <= k < j ==> #[trigger] self.roots@[k] < self.bones@.len(),
            decreases self.roots@.len() - j,
        {
            if self.roots[j] >= self.bones.len() {
                return false;
            }
            j += 1;
        }
        let mut i: usize = 0;
        while i < self.bones.len()
            invariant
                i <= self.bones@.len(),
                forall|k: int|
                    0 <= k < i ==> (#[trigger] self.bones@[k].parent is None <==> self.roots@.contains(
                        k as usize,
                    )),
            decreases self.bones@.len() - i,
        {
            if self.bones[i].parent.is_none() != contains_index(&self.roots, i) {
                return false;
            }
            i += 1;
        }
        true
    }

    /// Whether every upward walk ends, given that every parent link points at
    /// a bone. Bones are marked as their walks are found to end: first the
    /// roots, then, again and again, every bone whose parent is marked, until
    /// a round marks nothing.
    fn walks_end(&self) -> (ok: bool)
        requires
            forall|i: int|
                0 <= i < self.bones@.len() ==> (#[trigger] self.bones@[i].parent matches Some(p)
                    ==> p < self.bones@.len()),
        ensures
            ok == acyclic(self.parents()),
    {
        let n = self.bones.len();
        let ghost links = self.parents();
        let mut marks: Vec<bool> = Vec::with_capacity(n);
        let mut i: usize = 0;
        while i < n
            invariant
                n == self.bones@.len(),
                links == self.parents(),
                i <= n,
                marks@.len() == i,
                forall|j: int| 0 <= j < i ==> (#[trigger] marks@[j] == (self.bones@[j].parent is None)),
            decreases n - i,
        {
            marks.push(self.bones[i].parent.is_none());
            i += 1;
        }
        let ghost mut open: Set<int> = Set::new(|j: int| 0 <= j < n && !marks@[j]);
        proof {
            assert(open.subset_of(set_int_range(0, n as int)));
            lemma_int_range(0, n as int);
            lemma_len_subset(open, set_int_range(0, n as int));
            assert forall|j: int| 0 <= j < n && #[trigger] marks@[j] implies rooted(links, j) by {
                assert(ancestor(links, j, 1) == step_up(links, ancestor(links, j, 0)));
            }
        }
        loop
            invariant
                n == self.bones@.len(),
                links == self.parents(),
                forall|j: int|
                    0 <= j < n ==> (#[trigger] self.bones@[j].parent matches Some(p) ==> p < n),
                marks@.len() == n,
                open.finite(),
                open =~= Set::new(|j: int| 0 <= j < n && !marks@[j]),
                forall|j: int| 0 <= j < n && #[trigger] marks@[j] ==> rooted(links, j),
                forall|j: int| 0 <= j < n && self.bones@[j].parent is None ==> #[trigger] marks@[j],
            ensures
                marks@.len() == n,
                forall|j: int| 0 <= j < n && #[trigger] marks@[j] ==> rooted(links, j),
                forall|j: int| 0 <= j < n ==> #[trigger] settled(links, marks@, j),
            decreases open.len(),
        {
            let ghost at_start = marks@;
            let ghost open_at_start = open;
            let mut changed = false;
            let mut i: usize = 0;
            while i < n
                invariant
                    n == self.bones@.len(),
                    links == self.parents(),
                    forall|j: int|
                        0 <= j < n ==> (#[trigger] self.bones@[j].parent matches Some(p) ==> p < n),
                    i <= n,
                    marks@.len() == n,
                    open.finite(),
                    open =~= Set::new(|j: int| 0 <= j < n && !marks@[j]),
                    forall|j: int| 0 <= j < n && #[trigger] marks@[j] ==> rooted(links, j),
                    forall|j: int| 0 <= j < n && self.bones@[j].parent is None ==> #[trigger] marks@[j],
                    changed ==> open.len() < open_at_start.len(),
                    !changed ==> marks@ == at_start && open == open_at_start,
                    !changed ==> forall|j: int| 0 <= j < i ==> #[trigger] settled(links, marks@, j),
                decreases n - i,
            {
                if !marks[i] {
                    if let Some(p) = self.bones[i].parent {
                        if marks[p] {
                            proof {
                                assert(rooted(links, p as int));
                                let k = choose|k: nat| ancestor(links, p as int, k) is None;
                                lemma_walk_from_parent(links, i as int, k);
                                assert(ancestor(links, i as int, k + 1) is None);
                                assert(open.contains(i as int));
                            }
                            marks[i] = true;
                            proof {
                                open = open.remove(i as int);
                            }
                            changed = true;
                        }
                    }
                }
                i += 1;
            }
            if !changed {
                break ;
            }
        }
        let mut i: usize = 0;
        while i < n
            invariant
                n == self.bones@.len(),
                links == self.parents(),
                marks@.len() == n,
                i <= n,
                forall|j: int| 0 <= j < n && #[trigger] marks@[j] ==> rooted(links, j),
                forall|j: int| 0 <= j < n ==> #[trigger] settled(links, marks@, j),
                forall|j: int| 0 <= j < i ==> #[trigger] marks@[j],
            decreases n - i,
        {
            if !marks[i] {
                proof {
                    if rooted(links, i as int) {
                        let k = choose|k: nat| ancestor(links, i as int, k) is None;
                        lemma_settled_marks_rooted(links, marks@, i as int, k);
                    }
                }
                return false;
            }
            i += 1;
        }
        proof {
            assert forall|j: int| 0 <= j < links.len() implies #[trigger] rooted(links, j) by {
                assert(marks@[j]);
            }
        }
        true
    }

    /// Whether the skeleton is well formed: parent and child links agree,
    /// `roots` lists the parentless bones, nothing is listed twice, and no
    /// bone is its own ancestor.
    pub fn validate(&self) -> (ok: bool)
        ensures
            ok == self.wf(),
    {
        if !self.parents_agree() {
            return false;
        }
        if !self.children_agree() {
            return false;
        }
        if !self.roots_agree() {
            return false;
        }
        self.walks_end()
    }
}

} // verus!
