//! Sorting by rank, with equal ranks left in the order in which they came.

use vstd::prelude::*;

verus! {

/// Whether one place comes before another when places are sorted by rank and, among equal ranks,
/// by their own number.
pub open spec fn comes_before(ranks: Seq<u64>, a: usize, b: usize) -> bool {
    ranks[a as int] < ranks[b as int] || (ranks[a as int] == ranks[b as int] && a < b)
}

/// Whether these are the places of a list sorted by rank, equal ranks in their old order.
pub open spec fn sorted_places(ranks: Seq<u64>, places: Seq<usize>) -> bool {
    &&& places.len() == ranks.len()
    &&& forall|i: int| 0 <= i < places.len() ==> (#[trigger] places[i]) < ranks.len()
    &&& forall|i: int, j: int|
        0 <= i < j < places.len() ==> comes_before(ranks, #[trigger] places[i], #[trigger] places[j])
}

/// The places of a list sorted by rank, equal ranks in their old order.
pub fn places_by_rank(ranks: &Vec<u64>) -> (places: Vec<usize>)
    ensures
        sorted_places(ranks@, places@),
{
    let mut places: Vec<usize> = Vec::new();
    let mut n: usize = 0;
    assert(ranks@.take(0) =~= seq![]);
    while n < ranks.len()
        invariant
            n <= ranks@.len(),
            places@.len() == n,
            forall|i: int| 0 <= i < n ==> (#[trigger] places@[i]) < n,
            forall|i: int, j: int|
                0 <= i < j < n ==> comes_before(
                    ranks@,
                    #[trigger] places@[i],
                    #[trigger] places@[j],
                ),
        decreases ranks@.len() - n,
    {
        let mut at: usize = n;
        while at > 0 && ranks[places[at - 1]] > ranks[n]
            invariant
                at <= n < ranks@.len(),
                places@.len() == n,
                forall|i: int| 0 <= i < n ==> (#[trigger] places@[i]) < n,
                forall|i: int| at <= i < n ==> comes_before(ranks@, n, #[trigger] places@[i]),
            decreases at,
        {
            at = at - 1;
        }
        let ghost before = places@;
        assert(at > 0 ==> comes_before(ranks@, before[at - 1], n));
        places.insert(at, n);
        assert forall|i: int, j: int| 0 <= i < j < n + 1 implies comes_before(
            ranks@,
            #[trigger] places@[i],
            #[trigger] places@[j],
        ) by {
            let bi = if i < at { i } else { i - 1 };
            let bj = if j < at { j } else { j - 1 };
            assert(i != at ==> places@[i] == before[bi]);
            assert(j != at ==> places@[j] == before[bj]);
            if j == at && i < at - 1 {
                assert(comes_before(ranks@, before[i], before[at - 1]));
            }
        }
        n = n + 1;
    }
    places
}

/// Every place occurs among the sorted places: sorting loses nothing.
pub proof fn law_sorting_keeps_all(ranks: Seq<u64>, places: Seq<usize>, place: usize)
    requires
        sorted_places(ranks, places),
        place < ranks.len(),
    ensures
        places.contains(place),
{
    assert(places.no_duplicates()) by {
        assert forall|i: int, j: int|
            0 <= i < places.len() && 0 <= j < places.len() && i != j implies places[i]
            != places[j] by {
            if i < j {
                assert(comes_before(ranks, places[i], places[j]));
            } else {
                assert(comes_before(ranks, places[j], places[i]));
            }
        }
    }
    places.unique_seq_to_set();
    let n = ranks.len() as int;
    let numbers = places.map_values(|p: usize| p as int);
    assert(numbers.no_duplicates()) by {
        assert forall|i: int, j: int|
            0 <= i < numbers.len() && 0 <= j < numbers.len() && i != j implies numbers[i]
            != numbers[j] by {
            assert(places[i] != places[j]);
        }
    }
    numbers.unique_seq_to_set();
    let all = vstd::set_lib::set_int_range(0, n);
    vstd::set_lib::lemma_int_range(0, n);
    assert(numbers.to_set().subset_of(all)) by {
        assert forall|x: int| numbers.to_set().contains(x) implies all.contains(x) by {
            let i = choose|i: int| 0 <= i < numbers.len() && numbers[i] == x;
            assert(places[i] < ranks.len());
        }
    }
    vstd::set_lib::lemma_subset_equality(numbers.to_set(), all);
    assert(all.contains(place as int));
    assert(numbers.contains(place as int));
    let i = choose|i: int| 0 <= i < numbers.len() && numbers[i] == place as int;
    assert(places[i] == place);
}

/// Sorted places stand by rank, and among equal ranks in their own order; none occurs twice.
pub proof fn law_places_are_sorted(ranks: Seq<u64>, places: Seq<usize>, i: int, j: int)
    requires
        sorted_places(ranks, places),
        0 <= i < j < places.len(),
    ensures
        places.len() == ranks.len(),
        places[i] < ranks.len(),
        places[j] < ranks.len(),
        ranks[places[i] as int] <= ranks[places[j] as int],
        ranks[places[i] as int] == ranks[places[j] as int] ==> places[i] < places[j],
        places[i] != places[j],
{
    assert(comes_before(ranks, places[i], places[j]));
}

} // verus!
