//! Listing places.
use vstd::prelude::*;

verus! {

/// As many places as there are, none twice: every place is among them.
pub proof fn lemma_distinct_places_are_all(places: Seq<int>, place: int)
    requires
        forall|i: int| 0 <= i < places.len() ==> 0 <= #[trigger] places[i] < places.len(),
        forall|i: int, j: int|
            0 <= i < places.len() && 0 <= j < places.len() && i != j ==> places[i] != places[j],
        0 <= place < places.len(),
    ensures
        exists|i: int| 0 <= i < places.len() && #[trigger] places[i] == place,
{
    places.unique_seq_to_set();
    let all = vstd::set_lib::set_int_range(0, places.len() as int);
    vstd::set_lib::lemma_int_range(0, places.len() as int);
    assert(places.to_set().subset_of(all)) by {
        assert forall|x: int| places.to_set().contains(x) implies all.contains(x) by {
            let i = choose|i: int| 0 <= i < places.len() && places[i] == x;
            assert(0 <= places[i] < places.len());
        }
    }
    vstd::set_lib::lemma_subset_equality(places.to_set(), all);
    assert(places.to_set().contains(place));
}

} // verus!
