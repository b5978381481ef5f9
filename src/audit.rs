//! Checks over a finished result set: integrity of each record's value, and
//! completeness of the set of ids.

use vstd::prelude::*;
use std::collections::{HashMap, HashSet};
use crate::record::{Record, checksum, ids};

verus! {

broadcast use vstd::std_specs::hash::group_hash_axioms;

/// The ids of the records whose value is not the checksum of their id, in
/// order.
pub open spec fn invalid_ids(s: Seq<Record>) -> Seq<u32>
    decreases s.len(),
{
    if s.len() == 0 {
        Seq::empty()
    } else if s.last().value == checksum(s.last().id) {
        invalid_ids(s.drop_last())
    } else {
        invalid_ids(s.drop_last()).push(s.last().id)
    }
}

/// Integrity check: the number of records whose value is the checksum of
/// their id, and the ids of the others in order.
pub fn validate_batch(results: &Vec<Record>) -> (r: (usize, Vec<u32>))
    ensures
        r.1@ == invalid_ids(results@),
        r.0 + r.1@.len() == results@.len(),
{
    let mut invalid: Vec<u32> = Vec::new();
    let mut valid: usize = 0;
    let mut i: usize = 0;
    while i < results.len()
        invariant
            i <= results@.len(),
            invalid@ == invalid_ids(results@.subrange(0, i as int)),
            valid + invalid@.len() == i,
        decreases results@.len() - i,
    {
        assert(results@.subrange(0, i + 1).drop_last() =~= results@.subrange(0, i as int));
        if results[i].is_valid() {
            valid = valid + 1;
        } else {
            invalid.push(results[i].id);
        }
        i = i + 1;
    }
    assert(results@.subrange(0, i as int) =~= results@);
    (valid, invalid)
}

/// When every record's value is the checksum of its id, all of them count
/// as valid and none is reported.
pub proof fn lemma_all_valid(s: Seq<Record>)
    requires
        forall|i: int| 0 <= i < s.len() ==> #[trigger] s[i].value == checksum(s[i].id),
    ensures
        invalid_ids(s) == Seq::<u32>::empty(),
    decreases s.len(),
{
    if s.len() > 0 {
        lemma_all_valid(s.drop_last());
    }
}

/// `v` is strictly increasing.
pub open spec fn ascending(v: Seq<u32>) -> bool {
    forall|i: int, j: int| 0 <= i < j < v.len() ==> v[i] < v[j]
}

/// Completeness check against the ids `1..=expected`: the ids in that range
/// that never occur, in ascending order, and the ids that occur more than
/// once, each listed once.
pub fn check_completeness(results: &Vec<Record>, expected: u32) -> (r: (Vec<u32>, Vec<u32>))
    ensures
        forall|x: u32| #[trigger] r.0@.contains(x) <==> 1 <= x <= expected && ids(results@).count(x) == 0,
        ascending(r.0@),
        forall|x: u32| #[trigger] r.1@.contains(x) <==> ids(results@).count(x) >= 2,
        r.1@.no_duplicates(),
{
    let ghost s = results@;
    let mut counts: HashMap<u32, u32> = HashMap::new();
    let mut i: usize = 0;
    while i < results.len()
        invariant
            i <= s.len(),
            s == results@,
            forall|x: u32| #[trigger] counts@.contains_key(x) <==> ids(s.subrange(0, i as int)).count(x) > 0,
            forall|x: u32| #[trigger] counts@.contains_key(x) ==> (counts@[x] >= 2 <==> ids(s.subrange(0, i as int)).count(x) >= 2) && 1 <= counts@[x] <= 2,
        decreases s.len() - i,
    {
        assert(s.subrange(0, i + 1).drop_last() =~= s.subrange(0, i as int));
        let id = results[i].id;
        let c: u32 = match counts.get(&id) {
            Some(c) => if *c >= 2 { 2 } else { *c + 1 },
            None => 1,
        };
        counts.insert(id, c);
        i = i + 1;
    }
    assert(s.subrange(0, i as int) =~= s);
    let mut missing: Vec<u32> = Vec::new();
    let mut k: u64 = 1;
    while k <= expected as u64
        invariant
            1 <= k <= expected as u64 + 1,
            forall|x: u32| #[trigger] counts@.contains_key(x) <==> ids(s).count(x) > 0,
            forall|x: u32| #[trigger] missing@.contains(x) <==> 1 <= x < k && ids(s).count(x) == 0,
            forall|j: int| 0 <= j < missing@.len() ==> missing@[j] < k,
            ascending(missing@),
        decreases expected as u64 + 1 - k,
    {
        let id = k as u32;
        if !counts.contains_key(&id) {
            proof {
                lemma_push_contains(missing@, id);
            }
            missing.push(id);
        }
        k = k + 1;
    }
    let mut dups: Vec<u32> = Vec::new();
    let mut seen: HashSet<u32> = HashSet::new();
    let mut j: usize = 0;
    while j < results.len()
        invariant
            j <= s.len(),
            s == results@,
            forall|x: u32| #[trigger] counts@.contains_key(x) ==> (counts@[x] >= 2 <==> ids(s).count(x) >= 2),
            forall|x: u32| #[trigger] counts@.contains_key(x) <==> ids(s).count(x) > 0,
            forall|x: u32| #[trigger] dups@.contains(x) <==> seen@.contains(x),
            forall|x: u32| #[trigger] dups@.contains(x) ==> ids(s).count(x) >= 2,
            forall|m: int| 0 <= m < j && ids(s).count(s[m].id) >= 2 ==> dups@.contains(#[trigger] s[m].id),
            dups@.no_duplicates(),
        decreases s.len() - j,
    {
        let id = results[j].id;
        let many = match counts.get(&id) {
            Some(c) => *c >= 2,
            None => false,
        };
        if many && !seen.contains(&id) {
            proof {
                lemma_push_contains(dups@, id);
            }
            dups.push(id);
            seen.insert(id);
        }
        j = j + 1;
    }
    proof {
        assert forall|x: u32| ids(s).count(x) >= 2 implies #[trigger] dups@.contains(x) by {
            lemma_count_has_index(s, x);
        }
    }
    (missing, dups)
}

proof fn lemma_push_contains(v: Seq<u32>, y: u32)
    ensures
        forall|x: u32| #[trigger] v.push(y).contains(x) <==> v.contains(x) || x == y,
        v.no_duplicates() && !v.contains(y) ==> v.push(y).no_duplicates(),
{
    if v.no_duplicates() && !v.contains(y) {
        assert forall|i: int, j: int| 0 <= i < v.len() + 1 && 0 <= j < v.len() + 1 && i != j implies v.push(y)[i] != v.push(y)[j] by {
            if i == v.len() {
                assert(v[j] != y);
            }
            if j == v.len() {
                assert(v[i] != y);
            }
        }
    }
    assert forall|x: u32| #[trigger] v.push(y).contains(x) <==> v.contains(x) || x == y by {
        if v.contains(x) {
            let w = choose|w: int| 0 <= w < v.len() && v[w] == x;
            assert(v.push(y)[w] == x);
        }
        if x == y {
            assert(v.push(y)[v.len() as int] == x);
        }
        if v.push(y).contains(x) && x != y {
            let w = choose|w: int| 0 <= w < v.len() + 1 && v.push(y)[w] == x;
            assert(v[w] == x);
        }
    }
}

/// An id counted in `ids(s)` is the id of some record of `s`.
pub proof fn lemma_count_has_index(s: Seq<Record>, x: u32)
    requires
        ids(s).count(x) > 0,
    ensures
        exists|m: int| 0 <= m < s.len() && s[m].id == x,
    decreases s.len(),
{
    if s.last().id != x {
        lemma_count_has_index(s.drop_last(), x);
        let m = choose|m: int| 0 <= m < s.drop_last().len() && s.drop_last()[m].id == x;
        assert(s[m].id == x);
    } else {
        assert(s[s.len() - 1].id == x);
    }
}

} // verus!
