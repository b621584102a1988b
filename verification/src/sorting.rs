//! Sorting item names for a sorted listing.

use vstd::prelude::*;
use vstd::relations::*;
use vstd::seq_lib::*;
use vstd::string::*;
use crate::order::{lemma_name_order_total, name_le, name_order, name_precedes};

verus! {

/// The names `names` in sorted order: the one arrangement of them in which no
/// name comes before a name that precedes it.
pub open spec fn sorted_names(names: Seq<Seq<char>>) -> Seq<Seq<char>> {
    names.sort_by(name_order())
}

/// `sorted_names` keeps every name, as often as it occurs, and puts the names
/// in order.
pub proof fn lemma_sorted_names_ensures(names: Seq<Seq<char>>)
    ensures
        sorted_names(names).to_multiset() == names.to_multiset(),
        sorted_names(names).len() == names.len(),
        sorted_by(sorted_names(names), name_order()),
{
    lemma_name_order_total();
    names.lemma_sort_by_ensures(name_order());
    to_multiset_len(names);
    to_multiset_len(sorted_names(names));
}

/// A sequence that holds the same names as `names` and is in order is the
/// sorted arrangement of `names`.
pub proof fn lemma_sorted_names_unique(names: Seq<Seq<char>>, arranged: Seq<Seq<char>>)
    requires
        arranged.to_multiset() == names.to_multiset(),
        sorted_by(arranged, name_order()),
    ensures
        arranged == sorted_names(names),
{
    lemma_sorted_names_ensures(names);
    lemma_name_order_total();
    lemma_sorted_unique(arranged, sorted_names(names), name_order());
}

/// The sorted arrangement does not depend on the order in which the names
/// are given.
pub proof fn lemma_sorted_names_of_permutation(a: Seq<Seq<char>>, b: Seq<Seq<char>>)
    requires
        a.to_multiset() == b.to_multiset(),
    ensures
        sorted_names(a) == sorted_names(b),
{
    lemma_sorted_names_ensures(a);
    lemma_sorted_names_unique(b, sorted_names(a));
}

/// Puts `name` into the sorted vector `sorted` at the place that keeps it
/// sorted.
fn insert_sorted(sorted: &mut Vec<String>, name: String)
    requires
        sorted_by(old(sorted).deep_view(), name_order()),
    ensures
        sorted_by(final(sorted).deep_view(), name_order()),
        final(sorted).deep_view().to_multiset() == old(sorted).deep_view().to_multiset().insert(
            name@,
        ),
{
    let ghost before = sorted.deep_view();
    let mut at: usize = 0;
    while at < sorted.len() && name_precedes(sorted[at].as_str(), name.as_str())
        invariant
            at <= sorted.len(),
            sorted.deep_view() == before,
            forall|j: int| 0 <= j < at ==> name_le(#[trigger] before[j], name@),
        decreases sorted.len() - at,
    {
        at += 1;
    }
    sorted.insert(at, name);
    proof {
        let after = sorted.deep_view();
        assert(after =~= before.insert(at as int, name@));
        to_multiset_insert(before, at as int, name@);
        lemma_name_order_total();
        assert forall|i: int, j: int| 0 <= i < j < after.len() implies #[trigger] name_order()(
            after[i],
            after[j],
        ) by {
            if j == at {
                assert(name_le(before[i], name@));
            } else if i == at {
                // The name stopped in front of `before[at]`, so it comes no
                // later than it, nor than anything behind it.
                assert(name_order()(name@, before[at as int]) || name_order()(
                    before[at as int],
                    name@,
                ));
                if j - 1 > at {
                    assert(name_order()(before[at as int], before[j - 1]));
                }
            } else {
                let bi = if i < at { i } else { i - 1 };
                let bj = if j < at { j } else { j - 1 };
                assert(name_order()(before[bi], before[bj]));
            }
        }
    }
}

/// Sorts item names into the order of a sorted listing.
pub fn sort_names(names: Vec<String>) -> (sorted: Vec<String>)
    ensures
        sorted.deep_view() == sorted_names(names.deep_view()),
{
    let ghost given = names.deep_view();
    let mut rest = names;
    let mut sorted: Vec<String> = Vec::new();
    proof {
        assert(sorted.deep_view() =~= Seq::<Seq<char>>::empty());
        assert(sorted.deep_view().to_multiset().add(rest.deep_view().to_multiset())
            =~= given.to_multiset()) by {
            broadcast use group_to_multiset_ensures;

        }
    }
    while rest.len() > 0
        invariant
            sorted_by(sorted.deep_view(), name_order()),
            sorted.deep_view().to_multiset().add(rest.deep_view().to_multiset())
                == given.to_multiset(),
        decreases rest.len(),
    {
        let ghost rest_before = rest.deep_view();
        let ghost sorted_before = sorted.deep_view();
        let name = rest.pop().unwrap();
        proof {
            assert(rest_before =~= rest.deep_view().push(name@));
            to_multiset_build(rest.deep_view(), name@);
        }
        insert_sorted(&mut sorted, name);
        assert(sorted.deep_view().to_multiset().add(rest.deep_view().to_multiset())
            =~= sorted_before.to_multiset().add(rest_before.to_multiset()));
    }
    proof {
        assert(rest.deep_view() =~= Seq::<Seq<char>>::empty());
        assert(sorted.deep_view().to_multiset() =~= given.to_multiset()) by {
            broadcast use group_to_multiset_ensures;

        }
        lemma_sorted_names_unique(given, sorted.deep_view());
    }
    sorted
}

} // verus!
