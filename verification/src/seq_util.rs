//! Small facts about sequences that several modules lean on.

use vstd::prelude::*;

verus! {

/// Filtering one element more either appends that element or changes nothing.
pub proof fn lemma_filter_take_step<T>(s: Seq<T>, pred: spec_fn(T) -> bool, i: int)
    requires
        0 <= i < s.len(),
    ensures
        s.take(i + 1).filter(pred) == if pred(s[i]) {
            s.take(i).filter(pred).push(s[i])
        } else {
            s.take(i).filter(pred)
        },
{
    reveal(Seq::filter);
    assert(s.take(i + 1).drop_last() =~= s.take(i));
    assert(s.take(i + 1).last() == s[i]);
}

pub proof fn lemma_filter_empty<T>(pred: spec_fn(T) -> bool)
    ensures
        Seq::<T>::empty().filter(pred) == Seq::<T>::empty(),
{
    reveal(Seq::filter);
}

pub proof fn lemma_filter_push<T>(s: Seq<T>, pred: spec_fn(T) -> bool, x: T)
    ensures
        s.push(x).filter(pred) == if pred(x) {
            s.filter(pred).push(x)
        } else {
            s.filter(pred)
        },
{
    reveal(Seq::filter);
    assert(s.push(x).drop_last() =~= s);
}

/// Filtering a concatenation filters both halves.
pub proof fn lemma_filter_add<T>(a: Seq<T>, b: Seq<T>, pred: spec_fn(T) -> bool)
    ensures
        (a + b).filter(pred) == a.filter(pred) + b.filter(pred),
    decreases b.len(),
{
    if b.len() == 0 {
        lemma_filter_empty(pred);
        assert(a + b =~= a);
        assert(a.filter(pred) + b.filter(pred) =~= a.filter(pred));
    } else {
        let front = b.drop_last();
        lemma_filter_add(a, front, pred);
        assert(a + b =~= (a + front).push(b.last()));
        assert(b =~= front.push(b.last()));
        lemma_filter_push(a + front, pred, b.last());
        lemma_filter_push(front, pred, b.last());
        if pred(b.last()) {
            assert((a.filter(pred) + front.filter(pred)).push(b.last()) =~= a.filter(pred) + front.filter(
                pred,
            ).push(b.last()));
        }
    }
}

/// What passes a filter satisfies the predicate and comes from the sequence.
pub proof fn lemma_filter_members<T>(s: Seq<T>, pred: spec_fn(T) -> bool)
    ensures
        forall|i: int|
            0 <= i < s.filter(pred).len() ==> pred(#[trigger] s.filter(pred)[i]) && s.contains(
                s.filter(pred)[i],
            ),
        s.filter(pred).len() <= s.len(),
    decreases s.len(),
{
    reveal(Seq::filter);
    if s.len() > 0 {
        let front = s.drop_last();
        lemma_filter_members(front, pred);
        assert forall|i: int| 0 <= i < s.filter(pred).len() implies pred(#[trigger] s.filter(pred)[i])
            && s.contains(s.filter(pred)[i]) by {
            if i < front.filter(pred).len() {
                let x = front.filter(pred)[i];
                assert(front.contains(x));
                let j = choose|j: int| 0 <= j < front.len() && front[j] == x;
                assert(s[j] == x);
            } else {
                assert(s[s.len() - 1] == s.last());
            }
        }
    }
}

/// A filter whose predicate holds of no element leaves nothing.
pub proof fn lemma_filter_none<T>(s: Seq<T>, pred: spec_fn(T) -> bool)
    requires
        forall|i: int| 0 <= i < s.len() ==> !pred(#[trigger] s[i]),
    ensures
        s.filter(pred) == Seq::<T>::empty(),
    decreases s.len(),
{
    reveal(Seq::filter);
    if s.len() > 0 {
        lemma_filter_none(s.drop_last(), pred);
    }
}

/// The results of `f` on each element of `s`, one after the other.
pub open spec fn flat_map<A, B>(s: Seq<A>, f: spec_fn(A) -> Seq<B>) -> Seq<B>
    decreases s.len(),
{
    if s.len() == 0 {
        Seq::empty()
    } else {
        flat_map(s.drop_last(), f) + f(s.last())
    }
}

pub proof fn lemma_flat_map_take_step<A, B>(s: Seq<A>, f: spec_fn(A) -> Seq<B>, i: int)
    requires
        0 <= i < s.len(),
    ensures
        flat_map(s.take(i + 1), f) == flat_map(s.take(i), f) + f(s[i]),
{
    assert(s.take(i + 1).drop_last() =~= s.take(i));
    assert(s.take(i + 1).last() == s[i]);
}

/// Folding one element more applies the step to what the fold had reached.
pub proof fn lemma_fold_left_take_step<A, B>(s: Seq<A>, init: B, f: spec_fn(B, A) -> B, i: int)
    requires
        0 <= i < s.len(),
    ensures
        s.take(i + 1).fold_left(init, f) == f(s.take(i).fold_left(init, f), s[i]),
{
    assert(s.take(i + 1).drop_last() =~= s.take(i));
    assert(s.take(i + 1).last() == s[i]);
}

/// A filter whose predicate holds of every element changes nothing.
pub proof fn lemma_filter_all<T>(s: Seq<T>, pred: spec_fn(T) -> bool)
    requires
        forall|i: int| 0 <= i < s.len() ==> pred(#[trigger] s[i]),
    ensures
        s.filter(pred) == s,
    decreases s.len(),
{
    reveal(Seq::filter);
    if s.len() > 0 {
        lemma_filter_all(s.drop_last(), pred);
        assert(s.drop_last().push(s.last()) =~= s);
    }
}

/// Where `f` gives each element back alone, the sequence comes back as it
/// was.
pub proof fn lemma_flat_map_singletons<A>(s: Seq<A>, f: spec_fn(A) -> Seq<A>)
    requires
        forall|i: int| 0 <= i < s.len() ==> f(#[trigger] s[i]) == seq![s[i]],
    ensures
        flat_map(s, f) == s,
    decreases s.len(),
{
    if s.len() > 0 {
        lemma_flat_map_singletons(s.drop_last(), f);
        assert(s.drop_last() + seq![s.last()] =~= s);
    }
}

/// An element that the predicate holds of is among what passes the filter.
pub proof fn lemma_filter_keeps<T>(s: Seq<T>, pred: spec_fn(T) -> bool, i: int)
    requires
        0 <= i < s.len(),
        pred(s[i]),
    ensures
        s.filter(pred).contains(s[i]),
    decreases s.len(),
{
    reveal(Seq::filter);
    let front = s.drop_last();
    if i == s.len() - 1 {
        let kept = s.filter(pred);
        assert(kept[kept.len() - 1] == s[i]);
    } else {
        lemma_filter_keeps(front, pred, i);
        let j = choose|j: int| 0 <= j < front.filter(pred).len() && front.filter(pred)[j] == front[i];
        assert(s.filter(pred)[j] == s[i]);
    }
}

/// A filter that leaves out an element leaves a shorter sequence.
pub proof fn lemma_filter_drops<T>(s: Seq<T>, pred: spec_fn(T) -> bool, i: int)
    requires
        0 <= i < s.len(),
        !pred(s[i]),
    ensures
        s.filter(pred).len() < s.len(),
    decreases s.len(),
{
    reveal(Seq::filter);
    let front = s.drop_last();
    if i == s.len() - 1 {
        lemma_filter_members(front, pred);
    } else {
        lemma_filter_drops(front, pred, i);
    }
}

/// Each element of `flat_map(s, f)` is an element of what `f` gives for
/// some element of `s`.
pub proof fn lemma_flat_map_members<A, B>(s: Seq<A>, f: spec_fn(A) -> Seq<B>, k: int)
    requires
        0 <= k < flat_map(s, f).len(),
    ensures
        exists|i: int, j: int| 0 <= i < s.len() && 0 <= j < f(s[i]).len() && flat_map(s, f)[k] == #[trigger] f(
            #[trigger] s[i],
        )[j],
    decreases s.len(),
{
    if s.len() > 0 {
        let front = s.drop_last();
        let before = flat_map(front, f);
        if k < before.len() {
            lemma_flat_map_members(front, f, k);
            let (i, j) = choose|i: int, j: int|
                0 <= i < front.len() && 0 <= j < f(front[i]).len() && before[k] == #[trigger] f(
                    #[trigger] front[i],
                )[j];
            assert(s[i] == front[i]);
            assert(flat_map(s, f)[k] == f(s[i])[j]);
        } else {
            let i = s.len() - 1;
            let j = k - before.len();
            assert(flat_map(s, f)[k] == f(s[i])[j]);
        }
    }
}

} // verus!
