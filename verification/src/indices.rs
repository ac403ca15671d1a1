//! Small operations on lists of bone indices.

use vstd::prelude::*;

verus! {

/// The test that an index is not `x`.
pub open spec fn differs_from(x: usize) -> spec_fn(usize) -> bool {
    |e: usize| e != x
}

/// The list `s` with every occurrence of `x` taken out, the rest in order.
pub open spec fn without(s: Seq<usize>, x: usize) -> Seq<usize> {
    s.filter(differs_from(x))
}

/// What is left after taking `x` out is what was there, except `x`.
pub proof fn lemma_without_contains(s: Seq<usize>, x: usize)
    ensures
        forall|e: usize| #[trigger] without(s, x).contains(e) <==> s.contains(e) && e != x,
        !s.contains(x) ==> without(s, x) == s,
    decreases s.len(),
{
    reveal(Seq::filter);
    let pred = differs_from(x);
    if s.len() > 0 {
        let front = s.drop_last();
        lemma_without_contains(front, x);
        assert(s =~= front.push(s.last()));
        assert forall|e: usize| #[trigger] without(s, x).contains(e) <==> s.contains(e) && e != x by {
            if without(s, x).contains(e) {
                let j = choose|j: int| 0 <= j < without(s, x).len() && without(s, x)[j] == e;
                if pred(s.last()) && j == without(front, x).len() {
                    assert(s[s.len() - 1] == e);
                } else {
                    assert(without(front, x)[j] == e);
                    assert(without(front, x).contains(e));
                    let i = choose|i: int| 0 <= i < front.len() && front[i] == e;
                    assert(s[i] == e);
                }
            }
            if s.contains(e) && e != x {
                let i = choose|i: int| 0 <= i < s.len() && s[i] == e;
                if i == s.len() - 1 {
                    assert(without(s, x)[without(front, x).len() as int] == e);
                } else {
                    assert(front[i] == e);
                    assert(front.contains(e));
                    assert(without(front, x).contains(e));
                    let j = choose|j: int| 0 <= j < without(front, x).len() && without(front, x)[j] == e;
                    assert(without(s, x)[j] == e);
                }
            }
        }
        if !s.contains(x) {
            assert(!front.contains(x)) by {
                if front.contains(x) {
                    let i = choose|i: int| 0 <= i < front.len() && front[i] == x;
                    assert(s[i] == x);
                }
            }
            assert(s[s.len() - 1] != x);
            assert(without(s, x) =~= s);
        }
    }
}

/// Taking `x` out of a list without repetitions leaves one without
/// repetitions.
pub proof fn lemma_without_no_duplicates(s: Seq<usize>, x: usize)
    requires
        s.no_duplicates(),
    ensures
        without(s, x).no_duplicates(),
    decreases s.len(),
{
    reveal(Seq::filter);
    if s.len() > 0 {
        let front = s.drop_last();
        lemma_without_no_duplicates(front, x);
        lemma_without_contains(front, x);
        if s.last() != x {
            let kept = without(front, x);
            assert(without(s, x) == kept.push(s.last()));
            assert forall|i: int, j: int|
                0 <= i < kept.len() + 1 && 0 <= j < kept.len() + 1 && i != j implies kept.push(
                s.last(),
            )[i] != kept.push(s.last())[j] by {
                if i < kept.len() && j < kept.len() {
                } else {
                    let inner = if i < kept.len() { i } else { j };
                    assert(kept.contains(kept[inner]));
                    assert(front.contains(kept[inner]));
                    let at = choose|at: int| 0 <= at < front.len() && front[at] == kept[inner];
                    assert(s[at] == kept[inner]);
                }
            }
        }
    }
}

/// Whether `x` occurs in `v`.
pub fn contains_index(v: &Vec<usize>, x: usize) -> (found: bool)
    ensures
        found == v@.contains(x),
{
    let mut i: usize = 0;
    while i < v.len()
        invariant
            i <= v@.len(),
            forall|j: int| 0 <= j < i ==> v@[j] != x,
        decreases v@.len() - i,
    {
        if v[i] == x {
            return true;
        }
        i += 1;
    }
    false
}

/// Takes every occurrence of `x` out of `v` and keeps the rest in order.
pub fn remove_all(v: &mut Vec<usize>, x: usize)
    ensures
        final(v)@ == without(old(v)@, x),
{
    let mut kept: Vec<usize> = Vec::new();
    let mut i: usize = 0;
    proof {
        reveal(Seq::filter);
        assert(v@.take(0) =~= Seq::<usize>::empty());
    }
    while i < v.len()
        invariant
            i <= v@.len(),
            kept@ == without(v@.take(i as int), x),
        decreases v@.len() - i,
    {
        proof {
            assert(v@.take(i + 1) =~= v@.take(i as int).push(v@[i as int]));
            v@.take(i as int).lemma_filter_push(v@[i as int], differs_from(x));
        }
        if v[i] != x {
            kept.push(v[i]);
        }
        i += 1;
    }
    proof {
        assert(v@.take(i as int) =~= v@);
    }
    *v = kept;
}

} // verus!
