//! The orders in which a list of settings can be tried.

use itertools::Itertools;
use vstd::prelude::*;

verus! {

/// The rows of a list of lists, each as a sequence.
pub open spec fn rows(list: Seq<Vec<isize>>) -> Seq<Seq<isize>> {
    list.map_values(|row: Vec<isize>| row@)
}

/// Whether `row` holds the same values as `items`, each as often, in any order.
pub open spec fn is_rearrangement(row: Seq<isize>, items: Seq<isize>) -> bool {
    row.to_multiset() == items.to_multiset()
}

/// A list without its repetitions: of equal rows only the first stays, and
/// the rows that stay keep their order.
pub open spec fn firsts(list: Seq<Seq<isize>>) -> Seq<Seq<isize>>
    decreases list.len(),
{
    if list.len() == 0 {
        list
    } else if list.drop_last().contains(list.last()) {
        firsts(list.drop_last())
    } else {
        firsts(list.drop_last()).push(list.last())
    }
}

/// A list without its repetitions holds the rows of the list, each once.
pub proof fn lemma_firsts(list: Seq<Seq<isize>>)
    ensures
        firsts(list).no_duplicates(),
        forall|row: Seq<isize>| firsts(list).contains(row) <==> list.contains(row),
    decreases list.len(),
{
    if list.len() > 0 {
        let front = list.drop_last();
        let kept = firsts(front);
        lemma_firsts(front);
        assert forall|row: Seq<isize>| firsts(list).contains(row) <==> list.contains(row) by {
            if list.contains(row) {
                let j = choose|j: int| 0 <= j < list.len() && list[j] == row;
                if j < front.len() {
                    assert(front[j] == row);
                    assert(front.contains(row));
                    assert(kept.contains(row));
                    let i = choose|i: int| 0 <= i < kept.len() && kept[i] == row;
                    assert(firsts(list)[i] == row);
                } else {
                    assert(row == list.last());
                    if !front.contains(list.last()) {
                        assert(firsts(list)[kept.len() as int] == row);
                    }
                }
            }
            if firsts(list).contains(row) {
                let i = choose|i: int| 0 <= i < firsts(list).len() && firsts(list)[i] == row;
                if i < kept.len() {
                    assert(kept[i] == row);
                    assert(kept.contains(row));
                    assert(front.contains(row));
                    let j = choose|j: int| 0 <= j < front.len() && front[j] == row;
                    assert(list[j] == row);
                } else {
                    assert(list[list.len() - 1] == row);
                }
            }
        }
        if !front.contains(list.last()) {
            assert(!kept.contains(list.last()));
            assert forall|i: int, j: int|
                0 <= i < firsts(list).len() && 0 <= j < firsts(list).len() && i != j implies firsts(
                list,
            )[i] != firsts(list)[j] by {
                if i < kept.len() && j < kept.len() {
                } else if i < kept.len() {
                    assert(kept.contains(kept[i]));
                } else {
                    assert(kept.contains(kept[j]));
                }
            }
        }
    }
}

/// The rows that `Itertools::permutations` gives when it is asked for rows as
/// long as `items`, in the order in which it gives them.
pub uninterp spec fn permutations_of(items: Seq<isize>) -> Seq<Seq<isize>>;

/// `Itertools::permutations`, asked for rows as long as `items`. Each row it
/// gives holds the values of `items` in some order, and every order of them
/// is among the rows. Values that are equal give equal rows more than once.
#[verifier::external_body]
fn permutations(items: &Vec<isize>) -> (all: Vec<Vec<isize>>)
    ensures
        rows(all@) == permutations_of(items@),
        forall|i: int| 0 <= i < all@.len() ==> is_rearrangement(#[trigger] rows(all@)[i], items@),
        forall|row: Seq<isize>| is_rearrangement(row, items@) ==> #[trigger] rows(all@).contains(row),
{
    items.iter().copied().permutations(items.len()).collect()
}

/// `Itertools::unique`: the rows in the order in which they first occur, each
/// once.
#[verifier::external_body]
fn unique(list: Vec<Vec<isize>>) -> (kept: Vec<Vec<isize>>)
    ensures
        rows(kept@) == firsts(rows(list@)),
{
    list.into_iter().unique().collect()
}

/// Every order in which `items` can be arranged, each once, as they first
/// come among the permutations.
pub fn arrangements(items: &Vec<isize>) -> (all: Vec<Vec<isize>>)
    ensures
        rows(all@) == firsts(permutations_of(items@)),
        rows(all@).no_duplicates(),
        forall|row: Seq<isize>| rows(all@).contains(row) <==> is_rearrangement(row, items@),
{
    let listed = permutations(items);
    let all = unique(listed);
    proof {
        lemma_firsts(rows(listed@));
        assert forall|row: Seq<isize>| rows(all@).contains(row) <==> is_rearrangement(
            row,
            items@,
        ) by {
            if rows(listed@).contains(row) {
                let i = choose|i: int| 0 <= i < rows(listed@).len() && rows(listed@)[i] == row;
                assert(is_rearrangement(rows(listed@)[i], items@));
            }
        }
    }
    all
}

} // verus!
