//! Small reusable lemmas about deep views of vectors and about
//! filtered sequences, shared by the catalog and the engine proofs.

use vstd::prelude::*;

verus! {

/// Pushing onto a vector pushes its deep view.
pub proof fn lemma_vec_push_deep_view<T: DeepView>(pre: Vec<T>, post: Vec<T>, x: T)
    requires
        post@ == pre@.push(x),
    ensures
        post.deep_view() == pre.deep_view().push(x.deep_view()),
{
    assert forall|j: int| 0 <= j < post@.len() implies #[trigger] post.deep_view()[j]
        == pre.deep_view().push(x.deep_view())[j] by {
        if j < pre@.len() {
            assert(post@[j] == pre@[j]);
            assert(pre.deep_view()[j] == pre@[j].deep_view());
        } else {
            assert(post@[j] == x);
        }
    }
    assert(post.deep_view() =~= pre.deep_view().push(x.deep_view()));
}

/// Removing from a vector removes from its deep view.
pub proof fn lemma_vec_remove_deep_view<T: DeepView>(pre: Vec<T>, post: Vec<T>, i: int)
    requires
        0 <= i < pre@.len(),
        post@ == pre@.remove(i),
    ensures
        post.deep_view() == pre.deep_view().remove(i),
{
    assert forall|j: int| 0 <= j < post@.len() implies #[trigger] post.deep_view()[j]
        == pre.deep_view().remove(i)[j] by {
        if j < i {
            assert(post@[j] == pre@[j]);
            assert(pre.deep_view()[j] == pre@[j].deep_view());
        } else {
            assert(post@[j] == pre@[j + 1]);
            assert(pre.deep_view()[j + 1] == pre@[j + 1].deep_view());
        }
    }
    assert(post.deep_view() =~= pre.deep_view().remove(i));
}

/// Inserting into a vector inserts into its deep view.
pub proof fn lemma_vec_insert_deep_view<T: DeepView>(pre: Vec<T>, post: Vec<T>, i: int, x: T)
    requires
        0 <= i <= pre@.len(),
        post@ == pre@.insert(i, x),
    ensures
        post.deep_view() == pre.deep_view().insert(i, x.deep_view()),
{
    assert forall|j: int| 0 <= j < post@.len() implies #[trigger] post.deep_view()[j]
        == pre.deep_view().insert(i, x.deep_view())[j] by {
        if j < i {
            assert(post@[j] == pre@[j]);
            assert(pre.deep_view()[j] == pre@[j].deep_view());
        } else if j == i {
            assert(post@[j] == x);
        } else {
            assert(post@[j] == pre@[j - 1]);
            assert(pre.deep_view()[j - 1] == pre@[j - 1].deep_view());
        }
    }
    assert(post.deep_view() =~= pre.deep_view().insert(i, x.deep_view()));
}

/// Filtering a one-longer prefix keeps or appends the new element.
pub proof fn lemma_filter_take_step<T>(s: Seq<T>, pred: spec_fn(T) -> bool, i: int)
    requires
        0 <= i < s.len(),
    ensures
        s.take(i + 1).filter(pred) == if pred(s[i]) {
            s.take(i).filter(pred).push(s[i])
        } else {
            s.take(i).filter(pred)
        },
{
    reveal(Seq::filter);
    assert(s.take(i + 1).drop_last() =~= s.take(i));
    assert(s.take(i + 1).last() == s[i]);
}

/// The full-length prefix of a sequence is the sequence itself.
pub proof fn lemma_take_full<T>(s: Seq<T>)
    ensures
        s.take(s.len() as int) == s,
{
    assert(s.take(s.len() as int) =~= s);
}

/// An empty prefix filters to the empty sequence.
pub proof fn lemma_filter_take_zero<T>(s: Seq<T>, pred: spec_fn(T) -> bool)
    ensures
        s.take(0).filter(pred) == Seq::<T>::empty(),
{
    reveal(Seq::filter);
    assert(s.take(0) =~= Seq::<T>::empty());
}

/// Every element of a filtered sequence is an element of the original.
pub proof fn lemma_filter_subset<T>(s: Seq<T>, pred: spec_fn(T) -> bool)
    ensures
        forall|i: int| 0 <= i < s.filter(pred).len() ==> s.contains(#[trigger] s.filter(pred)[i]),
    decreases s.len(),
{
    reveal(Seq::filter);
    if s.len() > 0 {
        let dl = s.drop_last();
        lemma_filter_subset(dl, pred);
        assert forall|i: int| 0 <= i < s.filter(pred).len() implies s.contains(
            #[trigger] s.filter(pred)[i],
        ) by {
            let x = s.filter(pred)[i];
            if i < dl.filter(pred).len() {
                assert(dl.contains(x));
                let k = choose|k: int| 0 <= k < dl.len() && dl[k] == x;
                assert(s[k] == x);
            } else {
                assert(x == s.last());
                assert(s[s.len() - 1] == x);
            }
        }
    }
}

/// A pairwise relation on a sequence survives filtering.
pub proof fn lemma_filter_pairwise<T>(s: Seq<T>, pred: spec_fn(T) -> bool, rel: spec_fn(T, T) -> bool)
    requires
        forall|i: int, j: int| 0 <= i < j < s.len() ==> rel(#[trigger] s[i], #[trigger] s[j]),
    ensures
        forall|i: int, j: int|
            0 <= i < j < s.filter(pred).len() ==> rel(
                #[trigger] s.filter(pred)[i],
                #[trigger] s.filter(pred)[j],
            ),
    decreases s.len(),
{
    reveal(Seq::filter);
    if s.len() > 0 {
        let dl = s.drop_last();
        assert(forall|i: int, j: int|
            0 <= i < j < dl.len() ==> rel(#[trigger] dl[i], #[trigger] dl[j]));
        lemma_filter_pairwise(dl, pred, rel);
        lemma_filter_subset(dl, pred);
        assert forall|i: int, j: int| 0 <= i < j < s.filter(pred).len() implies rel(
            #[trigger] s.filter(pred)[i],
            #[trigger] s.filter(pred)[j],
        ) by {
            if j < dl.filter(pred).len() {
            } else if pred(s.last()) {
                assert(s.filter(pred)[j] == s.last());
                let x = dl.filter(pred)[i];
                assert(dl.contains(x));
                let k = choose|k: int| 0 <= k < dl.len() && dl[k] == x;
                assert(rel(s[k], s[s.len() - 1]));
            }
        }
    }
}

/// A pairwise relation holds after inserting an element that relates
/// correctly to everything before and after its position.
pub proof fn lemma_insert_pairwise<T>(s: Seq<T>, x: T, pos: int, rel: spec_fn(T, T) -> bool)
    requires
        0 <= pos <= s.len(),
        forall|i: int, j: int| 0 <= i < j < s.len() ==> rel(#[trigger] s[i], #[trigger] s[j]),
        forall|k: int| 0 <= k < pos ==> rel(#[trigger] s[k], x),
        forall|k: int| pos <= k < s.len() ==> rel(x, #[trigger] s[k]),
    ensures
        forall|i: int, j: int|
            0 <= i < j < s.insert(pos, x).len() ==> rel(
                #[trigger] s.insert(pos, x)[i],
                #[trigger] s.insert(pos, x)[j],
            ),
{
    let t = s.insert(pos, x);
    assert forall|i: int, j: int| 0 <= i < j < t.len() implies rel(#[trigger] t[i], #[trigger] t[j]) by {
        if i < pos {
            assert(t[i] == s[i]);
        }
        if i > pos {
            assert(t[i] == s[i - 1]);
        }
        if j < pos {
            assert(t[j] == s[j]);
        }
        if j > pos {
            assert(t[j] == s[j - 1]);
        }
        if i == pos {
            assert(t[i] == x);
        }
        if j == pos {
            assert(t[j] == x);
        }
    }
}

/// Concatenating vectors concatenates their deep views.
pub proof fn lemma_vec_concat_deep_view<T: DeepView>(pre: Vec<T>, other: Vec<T>, post: Vec<T>)
    requires
        post@ == pre@ + other@,
    ensures
        post.deep_view() == pre.deep_view() + other.deep_view(),
{
    assert forall|j: int| 0 <= j < post@.len() implies #[trigger] post.deep_view()[j] == (
    pre.deep_view() + other.deep_view())[j] by {
        if j < pre@.len() {
            assert(post@[j] == pre@[j]);
            assert(pre.deep_view()[j] == pre@[j].deep_view());
        } else {
            assert(post@[j] == other@[j - pre@.len()]);
            assert(other.deep_view()[j - pre@.len()] == other@[j - pre@.len()].deep_view());
        }
    }
    assert(post.deep_view() =~= pre.deep_view() + other.deep_view());
}

/// What a one-longer prefix contains: the shorter prefix's elements plus the
/// element at the boundary.
pub proof fn lemma_take_push_contains<T>(s: Seq<T>, i: int)
    requires
        0 <= i < s.len(),
    ensures
        forall|x: T| s.take(i + 1).contains(x) <==> s.take(i).contains(x) || x == s[i],
{
    assert(s.take(i + 1) =~= s.take(i).push(s[i]));
    assert forall|x: T| s.take(i + 1).contains(x) <==> (s.take(i).contains(x) || x == s[i]) by {
        if s.take(i + 1).contains(x) {
            let k = choose|k: int| 0 <= k < s.take(i + 1).len() && #[trigger] s.take(i + 1)[k]
                == x;
            if k < i {
                assert(s.take(i)[k] == x);
            }
        }
        if s.take(i).contains(x) {
            let k = choose|k: int| 0 <= k < s.take(i).len() && s.take(i)[k] == x;
            assert(s.take(i + 1)[k] == x);
        }
        if x == s[i] {
            assert(s.take(i + 1)[i] == x);
        }
    }
}

/// Every element of a filtered sequence satisfies the predicate, and every
/// element of the original that satisfies it is kept.
pub proof fn lemma_filter_membership<T>(s: Seq<T>, pred: spec_fn(T) -> bool)
    ensures
        forall|i: int| 0 <= i < s.filter(pred).len() ==> pred(#[trigger] s.filter(pred)[i]),
        forall|i: int| 0 <= i < s.len() && pred(s[i]) ==> s.filter(pred).contains(s[i]),
{
    broadcast use vstd::seq_lib::group_filter_ensures;

}

} // verus!
