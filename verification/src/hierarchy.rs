//! The shape of a bone hierarchy: parent links as a sequence, and what it
//! means to walk them upward.

use vstd::prelude::*;

verus! {

/// One step upward: the parent of bone `at`, if `at` is a bone and has one.
pub open spec fn step_up(parents: Seq<Option<usize>>, at: Option<int>) -> Option<int> {
    match at {
        Some(i) => if 0 <= i < parents.len() {
            match parents[i] {
                Some(p) => Some(p as int),
                None => None,
            }
        } else {
            None
        },
        None => None,
    }
}

/// The bone reached from `i` after `k` steps upward; `None` once the walk has
/// left the hierarchy through a root.
pub open spec fn ancestor(parents: Seq<Option<usize>>, i: int, k: nat) -> Option<int>
    decreases k,
{
    if k == 0 {
        Some(i)
    } else {
        step_up(parents, ancestor(parents, i, (k - 1) as nat))
    }
}

/// The upward walk from `i` ends.
pub open spec fn rooted(parents: Seq<Option<usize>>, i: int) -> bool {
    exists|k: nat| ancestor(parents, i, k) is None
}

/// No bone is its own ancestor: every upward walk ends.
pub open spec fn acyclic(parents: Seq<Option<usize>>) -> bool {
    forall|i: int| 0 <= i < parents.len() ==> #[trigger] rooted(parents, i)
}

/// Bone `a` lies strictly above bone `i`.
pub open spec fn is_ancestor(parents: Seq<Option<usize>>, a: int, i: int) -> bool {
    exists|k: nat| k >= 1 && ancestor(parents, i, k) == Some(a)
}

/// A number of steps after which the walk from `i` has ended.
pub open spec fn height(parents: Seq<Option<usize>>, i: int) -> nat {
    choose|k: nat| ancestor(parents, i, k) is None
}

/// Once a walk has ended it stays ended.
pub proof fn lemma_ended_stays_ended(parents: Seq<Option<usize>>, i: int, k: nat, m: nat)
    requires
        ancestor(parents, i, k) is None,
        k <= m,
    ensures
        ancestor(parents, i, m) is None,
    decreases m,
{
    if m > k {
        lemma_ended_stays_ended(parents, i, k, (m - 1) as nat);
    }
}

/// Walking `k + 1` steps from `i` is walking `k` steps from the parent of `i`.
pub proof fn lemma_walk_from_parent(parents: Seq<Option<usize>>, i: int, k: nat)
    ensures
        ancestor(parents, i, k + 1) == match step_up(parents, Some(i)) {
            Some(p) => ancestor(parents, p, k),
            None => None,
        },
    decreases k,
{
    if k > 0 {
        lemma_walk_from_parent(parents, i, (k - 1) as nat);
        assert(ancestor(parents, i, k + 1) == step_up(parents, ancestor(parents, i, k)));
        match step_up(parents, Some(i)) {
            Some(p) => {
                assert(ancestor(parents, p, k) == step_up(
                    parents,
                    ancestor(parents, p, (k - 1) as nat),
                ));
            },
            None => {
                lemma_ended_stays_ended(parents, i, 1, k);
            },
        }
    } else {
        assert(ancestor(parents, i, 1) == step_up(parents, ancestor(parents, i, 0)));
    }
}

/// A walk that ends passes, just before it ends, through a bone without a
/// parent.
pub proof fn lemma_walk_reaches_root(parents: Seq<Option<usize>>, i: int, k: nat) -> (m: nat)
    requires
        0 <= i < parents.len(),
        links_in_range(parents),
        ancestor(parents, i, k) is None,
    ensures
        m < k,
        ancestor(parents, i, m) is Some,
        0 <= ancestor(parents, i, m)->0 < parents.len(),
        parents[ancestor(parents, i, m)->0] is None,
    decreases k,
{
    if ancestor(parents, i, (k - 1) as nat) is None {
        lemma_walk_reaches_root(parents, i, (k - 1) as nat)
    } else {
        let m = (k - 1) as nat;
        lemma_walk_in_range(parents, i, m);
        m
    }
}

/// With every parent link pointing at a bone, a walk never leaves the range
/// of bones except through a root.
pub proof fn lemma_walk_in_range(parents: Seq<Option<usize>>, i: int, k: nat)
    requires
        0 <= i < parents.len(),
        links_in_range(parents),
    ensures
        ancestor(parents, i, k) is Some ==> 0 <= ancestor(parents, i, k)->0 < parents.len(),
    decreases k,
{
    if k > 0 {
        lemma_walk_in_range(parents, i, (k - 1) as nat);
    }
}

/// Every parent link points at a bone.
pub open spec fn links_in_range(parents: Seq<Option<usize>>) -> bool {
    forall|j: int| 0 <= j < parents.len() && parents[j] is Some ==> parents[j]->0 < parents.len()
}

/// A walk sees only the links of the bones it passes through: if two
/// hierarchies agree on every bone but `c`, and the walk from `i` does not
/// pass through `c` in its first `k` steps, both walks are the same so far.
pub proof fn lemma_walk_avoiding(
    before: Seq<Option<usize>>,
    after: Seq<Option<usize>>,
    c: int,
    i: int,
    k: nat,
)
    requires
        before.len() <= after.len(),
        forall|j: int| 0 <= j < before.len() && j != c ==> after[j] == before[j],
        links_in_range(before),
        0 <= i < before.len(),
        forall|m: nat| m < k ==> ancestor(before, i, m) != Some(c),
    ensures
        ancestor(after, i, k) == ancestor(before, i, k),
    decreases k,
{
    if k > 0 {
        lemma_walk_avoiding(before, after, c, i, (k - 1) as nat);
        lemma_walk_in_range(before, i, (k - 1) as nat);
        assert(ancestor(before, i, (k - 1) as nat) != Some(c));
    }
}

/// Appending a bone without a parent keeps the hierarchy free of cycles.
pub proof fn lemma_push_root_acyclic(parents: Seq<Option<usize>>)
    requires
        links_in_range(parents),
        acyclic(parents),
    ensures
        acyclic(parents.push(None)),
{
    let after = parents.push(None);
    let n = parents.len() as int;
    assert forall|i: int| 0 <= i < after.len() implies #[trigger] rooted(after, i) by {
        if i < n {
            assert(rooted(parents, i));
            let k = choose|k: nat| ancestor(parents, i, k) is None;
            assert forall|m: nat| m < k implies ancestor(parents, i, m) != Some(n) by {
                lemma_walk_in_range(parents, i, m);
            }
            lemma_walk_avoiding(parents, after, n, i, k);
        } else {
            assert(ancestor(after, i, 0) == Some(i));
            assert(ancestor(after, i, 1) == step_up(after, ancestor(after, i, 0)));
        }
    }
}

/// After `child` has been moved under `parent`, the walk from `i` still ends,
/// given that it ended before and that the walk from `parent` ends now.
proof fn lemma_relink_rooted(
    before: Seq<Option<usize>>,
    child: usize,
    parent: usize,
    reach: nat,
    i: int,
    k: nat,
)
    requires
        links_in_range(before),
        child < before.len(),
        parent < before.len(),
        0 <= i < before.len(),
        ancestor(before, i, k) is None,
        ancestor(before.update(child as int, Some(parent)), parent as int, reach) is None,
    ensures
        rooted(before.update(child as int, Some(parent)), i),
    decreases k,
{
    let after = before.update(child as int, Some(parent));
    if i == child {
        lemma_walk_from_parent(after, i, reach);
        assert(step_up(after, Some(i)) == Some(parent as int));
        assert(ancestor(after, i, reach + 1) is None);
    } else {
        match step_up(before, Some(i)) {
            Some(p) => {
                if k == 0 {
                } else {
                    lemma_walk_from_parent(before, i, (k - 1) as nat);
                    lemma_relink_rooted(before, child, parent, reach, p, (k - 1) as nat);
                    let m = choose|m: nat| ancestor(after, p, m) is None;
                    lemma_walk_from_parent(after, i, m);
                    assert(ancestor(after, i, m + 1) is None);
                }
            },
            None => {
                lemma_walk_from_parent(after, i, 0);
                assert(ancestor(after, i, 1) is None);
            },
        }
    }
}

/// Moving `child` under `parent` keeps the hierarchy free of cycles, as long
/// as `child` is neither `parent` itself nor one of its ancestors.
pub proof fn lemma_relink_acyclic(before: Seq<Option<usize>>, child: usize, parent: usize)
    requires
        links_in_range(before),
        acyclic(before),
        child < before.len(),
        parent < before.len(),
        child != parent,
        !is_ancestor(before, child as int, parent as int),
    ensures
        acyclic(before.update(child as int, Some(parent))),
{
    let after = before.update(child as int, Some(parent));
    assert(rooted(before, parent as int));
    let reach = choose|k: nat| ancestor(before, parent as int, k) is None;
    assert forall|m: nat| m < reach implies ancestor(before, parent as int, m) != Some(
        child as int,
    ) by {
        if m >= 1 && ancestor(before, parent as int, m) == Some(child as int) {
            assert(is_ancestor(before, child as int, parent as int));
        }
    }
    lemma_walk_avoiding(before, after, child as int, parent as int, reach);
    assert forall|i: int| 0 <= i < after.len() implies #[trigger] rooted(after, i) by {
        assert(rooted(before, i));
        let k = choose|k: nat| ancestor(before, i, k) is None;
        lemma_relink_rooted(before, child, parent, reach, i, k);
    }
}

} // verus!
