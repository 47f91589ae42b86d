//! Sets of natural IDs, kept as vectors of distinct strings.

use vstd::prelude::*;

verus! {

/// `k` is one of the strings of `v`.
pub open spec fn has_id(v: Seq<String>, k: Seq<char>) -> bool {
    exists|j: int| 0 <= j < v.len() && (#[trigger] v[j])@ == k
}

/// No string occurs twice in `v`.
pub open spec fn distinct_ids(v: Seq<String>) -> bool {
    forall|j: int, l: int| 0 <= j < l < v.len() ==> (#[trigger] v[j])@ != (#[trigger] v[l])@
}

/// Whether `id` is one of the strings of `v`.
pub fn contains_id(v: &Vec<String>, id: &String) -> (r: bool)
    ensures
        r == has_id(v@, id@),
{
    let mut j: usize = 0;
    while j < v.len()
        invariant
            j <= v@.len(),
            forall|l: int| 0 <= l < j ==> (#[trigger] v@[l])@ != id@,
        decreases v@.len() - j,
    {
        if v[j] == *id {
            return true;
        }
        j = j + 1;
    }
    false
}

/// Adds `id` to the set `v` unless it is there already.
pub fn insert_id(v: &mut Vec<String>, id: String)
    requires
        distinct_ids(old(v)@),
    ensures
        distinct_ids(final(v)@),
        forall|k: Seq<char>| has_id(final(v)@, k) <==> has_id(old(v)@, k) || k == id@,
{
    if !contains_id(v, &id) {
        let ghost before = v@;
        let ghost idv = id@;
        v.push(id);
        assert forall|k: Seq<char>| has_id(v@, k) <==> has_id(before, k) || k == idv by {
            if has_id(before, k) {
                let j = choose|j: int| 0 <= j < before.len() && (#[trigger] before[j])@ == k;
                assert(v@[j] == before[j]);
            }
            if k == idv {
                assert(v@[before.len() as int]@ == idv);
            }
            if has_id(v@, k) {
                let j = choose|j: int| 0 <= j < v@.len() && (#[trigger] v@[j])@ == k;
                if j < before.len() {
                    assert(v@[j] == before[j]);
                }
            }
        }
        assert forall|j: int, l: int| 0 <= j < l < v@.len() implies (#[trigger] v@[j])@ != (
        #[trigger] v@[l])@ by {
            if l < before.len() {
                assert(v@[j] == before[j]);
                assert(v@[l] == before[l]);
            } else {
                assert(v@[j] == before[j]);
            }
        }
    } else {
        assert(forall|k: Seq<char>| k == id@ ==> has_id(v@, k));
    }
}

} // verus!
