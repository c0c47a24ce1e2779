//! Putting paths into playing order.

use vstd::multiset::Multiset;
use vstd::prelude::*;
use vstd::relations::sorted_by;
use vstd::seq_lib::{lemma_multiset_commutative, lemma_sorted_unique};
use crate::lexical::{
    lemma_bytes_le_total, lemma_bytes_le_transitive,
    lemma_path_le_total_order, path_at_most, path_bytes, path_le, path_order,
};

verus! {

/// The paths stand in playing order: none comes before one that precedes it.
pub open spec fn in_order(paths: Seq<Seq<char>>) -> bool {
    forall|i: int, j: int| 0 <= i < j < paths.len() ==> path_le(paths[i], paths[j])
}

/// The paths stand in strict playing order: each comes before all that
/// follow it, so that none stands twice.
pub open spec fn strictly_in_order(paths: Seq<Seq<char>>) -> bool {
    forall|i: int, j: int|
        0 <= i < j < paths.len() ==> path_le(paths[i], paths[j]) && paths[i] != paths[j]
}

/// Two lists of paths hold the same paths, each as often as the other.
pub open spec fn same_paths(a: Seq<Seq<char>>, b: Seq<Seq<char>>) -> bool {
    a.to_multiset() == b.to_multiset()
}

/// There is only one way to put given paths in order: two ordered lists of
/// the same paths are the same list.
pub proof fn lemma_order_is_unique(a: Seq<Seq<char>>, b: Seq<Seq<char>>)
    requires
        in_order(a),
        in_order(b),
        same_paths(a, b),
    ensures
        a == b,
{
    lemma_path_le_total_order();
    lemma_sorted_unique(a, b, path_order());
}

/// Paths in playing order, none of them twice, stand in strict order; and
/// paths in strict order are in playing order with none of them twice.
pub proof fn lemma_strict_order_is_order_without_repeats(paths: Seq<Seq<char>>)
    ensures
        strictly_in_order(paths) <==> in_order(paths) && paths.no_duplicates(),
{
    if strictly_in_order(paths) {
        assert forall|i: int, j: int|
            0 <= i < paths.len() && 0 <= j < paths.len() && i != j implies paths[i]
            != paths[j] by {
            let (a, b) = if i < j {
                (i, j)
            } else {
                (j, i)
            };
            assert(path_le(paths[a], paths[b]) && paths[a] != paths[b]);
        }
    }
}

/// Lists that hold the same paths, each as often as the other, are without
/// repeats together.
pub proof fn lemma_same_paths_same_repeats(a: Seq<Seq<char>>, b: Seq<Seq<char>>)
    requires
        same_paths(a, b),
        a.no_duplicates(),
    ensures
        b.no_duplicates(),
{
    a.lemma_multiset_has_no_duplicates();
    b.lemma_multiset_has_no_duplicates_conv();
}

proof fn lemma_path_le_chain(p: Seq<char>, q: Seq<char>, r: Seq<char>)
    requires
        path_le(p, q),
        path_le(q, r),
    ensures
        path_le(p, r),
{
    lemma_bytes_le_transitive(path_bytes(p), path_bytes(q), path_bytes(r));
}

proof fn lemma_push_adds_one(paths: Seq<Seq<char>>, x: Seq<char>)
    ensures
        paths.push(x).to_multiset() == paths.to_multiset().insert(x),
{
    vstd::seq_lib::to_multiset_build(paths, x);
}

proof fn lemma_nothing_in_empty()
    ensures
        Seq::<Seq<char>>::empty().to_multiset() == Multiset::<Seq<char>>::empty(),
{
    broadcast use vstd::multiset::group_multiset_axioms;

    let none = Seq::<Seq<char>>::empty();
    vstd::seq_lib::to_multiset_len(none);
}

/// Merges two ordered lists into one ordered list of all their paths.
fn merge(left: &Vec<String>, right: &Vec<String>) -> (out: Vec<String>)
    requires
        in_order(left.deep_view()),
        in_order(right.deep_view()),
    ensures
        in_order(out.deep_view()),
        out.deep_view().to_multiset() == left.deep_view().to_multiset().add(
            right.deep_view().to_multiset(),
        ),
{
    broadcast use vstd::multiset::group_multiset_axioms;

    let ghost lv = left.deep_view();
    let ghost rv = right.deep_view();
    let mut out: Vec<String> = Vec::new();
    let mut i: usize = 0;
    let mut j: usize = 0;
    proof {
        assert(lv.take(0) =~= Seq::<Seq<char>>::empty());
        assert(rv.take(0) =~= Seq::<Seq<char>>::empty());
        assert(out.deep_view() =~= Seq::<Seq<char>>::empty());
        lemma_nothing_in_empty();
    }
    while i < left.len() || j < right.len()
        invariant
            lv == left.deep_view(),
            rv == right.deep_view(),
            i <= left.len(),
            j <= right.len(),
            in_order(lv),
            in_order(rv),
            in_order(out.deep_view()),
            out.deep_view().to_multiset() == lv.take(i as int).to_multiset().add(
                rv.take(j as int).to_multiset(),
            ),
            forall|k: int, m: int|
                0 <= k < out.len() && i <= m < lv.len() ==> path_le(
                    #[trigger] out.deep_view()[k],
                    #[trigger] lv[m],
                ),
            forall|k: int, m: int|
                0 <= k < out.len() && j <= m < rv.len() ==> path_le(
                    #[trigger] out.deep_view()[k],
                    #[trigger] rv[m],
                ),
        decreases (left.len() - i) + (right.len() - j),
    {
        let from_left = if j == right.len() {
            true
        } else if i == left.len() {
            false
        } else {
            path_at_most(left[i].as_str(), right[j].as_str())
        };
        let ghost before = out.deep_view();
        if from_left {
            let next = left[i].clone();
            out.push(next);
            proof {
                let x = lv[i as int];
                assert(out.deep_view() =~= before.push(x));
                assert(lv.take(i + 1) =~= lv.take(i as int).push(x));
                lemma_push_adds_one(before, x);
                lemma_push_adds_one(lv.take(i as int), x);
                assert forall|k: int, m: int|
                    0 <= k < out.len() && j <= m < rv.len() implies path_le(
                    #[trigger] out.deep_view()[k],
                    #[trigger] rv[m],
                ) by {
                    if k == before.len() && m > j {
                        lemma_path_le_chain(x, rv[j as int], rv[m]);
                    }
                }
            }
            i += 1;
        } else {
            let next = right[j].clone();
            out.push(next);
            proof {
                let x = rv[j as int];
                assert(out.deep_view() =~= before.push(x));
                assert(rv.take(j + 1) =~= rv.take(j as int).push(x));
                lemma_push_adds_one(before, x);
                lemma_push_adds_one(rv.take(j as int), x);
                if i < left.len() {
                    lemma_bytes_le_total(path_bytes(lv[i as int]), path_bytes(x));
                }
                assert forall|k: int, m: int|
                    0 <= k < out.len() && i <= m < lv.len() implies path_le(
                    #[trigger] out.deep_view()[k],
                    #[trigger] lv[m],
                ) by {
                    if k == before.len() && m > i {
                        lemma_path_le_chain(x, lv[i as int], lv[m]);
                    }
                }
            }
            j += 1;
        }
    }
    proof {
        assert(lv.take(i as int) =~= lv);
        assert(rv.take(j as int) =~= rv);
    }
    out
}

/// Puts paths into playing order, keeping each path as often as it came.
pub fn sort_paths(paths: Vec<String>) -> (sorted: Vec<String>)
    ensures
        in_order(sorted.deep_view()),
        same_paths(sorted.deep_view(), paths.deep_view()),
    decreases paths.len(),
{
    let ghost all = paths.deep_view();
    let mut left = paths;
    let n = left.len();
    if n <= 1 {
        return left;
    }
    let right = left.split_off(n / 2);
    proof {
        assert(all =~= left.deep_view() + right.deep_view());
        lemma_multiset_commutative(left.deep_view(), right.deep_view());
    }
    let left_sorted = sort_paths(left);
    let right_sorted = sort_paths(right);
    merge(&left_sorted, &right_sorted)
}

} // verus!
