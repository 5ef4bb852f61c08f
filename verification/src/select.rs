//! Selection from lists: the first smallest key, the order of keys, and the items that a list
//! of flags keeps.
//!
//! Distances, times and angles enter as `u64` keys that order as the quantities do.
use vstd::prelude::*;

verus! {

/// The key that stands for the largest finite quantity. A candidate has to be below it.
pub const FARTHEST: u64 = 0x7fef_ffff_ffff_ffff;

/// Whether `key` is the key of a candidate.
pub open spec fn is_candidate(key: Option<u64>) -> bool {
    key is Some && key->0 < FARTHEST
}

/// Whether `keys[i]` is the smallest candidate key, and the first of that size.
pub open spec fn is_first_min(keys: Seq<Option<u64>>, i: int) -> bool {
    &&& 0 <= i < keys.len()
    &&& is_candidate(keys[i])
    &&& forall|j: int|
        #![trigger keys[j]]
        0 <= j < keys.len() && is_candidate(keys[j]) ==> keys[i]->0 <= keys[j]->0
    &&& forall|j: int|
        #![trigger keys[j]]
        0 <= j < i && is_candidate(keys[j]) ==> keys[i]->0 < keys[j]->0
}

/// Whether `keys` holds no candidate.
pub open spec fn no_candidate(keys: Seq<Option<u64>>) -> bool {
    forall|j: int| #![trigger keys[j]] 0 <= j < keys.len() ==> !is_candidate(keys[j])
}

/// The place of the first smallest candidate key.
pub open spec fn first_min_of(keys: Seq<Option<u64>>) -> Option<int> {
    if exists|i: int| is_first_min(keys, i) {
        Some(choose|i: int| is_first_min(keys, i))
    } else {
        None
    }
}

/// There is at most one first smallest key.
pub proof fn lemma_first_min_unique(keys: Seq<Option<u64>>, i: int)
    requires
        is_first_min(keys, i),
    ensures
        first_min_of(keys) == Some(i),
{
    let k = choose|k: int| is_first_min(keys, k);
    assert(is_first_min(keys, k));
    if k < i {
        assert(is_candidate(keys[k]));
    } else if i < k {
        assert(is_candidate(keys[i]));
    }
}

/// Without a candidate there is no first smallest key.
pub proof fn lemma_first_min_none(keys: Seq<Option<u64>>)
    requires
        no_candidate(keys),
    ensures
        first_min_of(keys) is None,
{
}

/// Where there is a candidate, there is a smallest one.
pub proof fn lemma_first_min_exists(keys: Seq<Option<u64>>, i: int)
    requires
        0 <= i < keys.len(),
        is_candidate(keys[i]),
    ensures
        exists|m: int| is_first_min(keys, m),
    decreases keys[i]->0, i,
{
    if !is_first_min(keys, i) {
        if exists|j: int|
            #![trigger keys[j]]
            0 <= j < keys.len() && is_candidate(keys[j]) && keys[j]->0 < keys[i]->0 {
            let j = choose|j: int|
                #![trigger keys[j]]
                0 <= j < keys.len() && is_candidate(keys[j]) && keys[j]->0 < keys[i]->0;
            lemma_first_min_exists(keys, j);
        } else {
            let j = choose|j: int|
                #![trigger keys[j]]
                0 <= j < i && is_candidate(keys[j]) && !(keys[i]->0 < keys[j]->0);
            lemma_first_min_exists(keys, j);
        }
    }
}

/// The place of the first smallest candidate key, if there is a candidate.
pub fn first_min(keys: &Vec<Option<u64>>) -> (place: Option<usize>)
    ensures
        place matches Some(i) ==> is_first_min(keys@, i as int),
        place is None <==> no_candidate(keys@),
        first_min_of(keys@) == (match place {
            Some(i) => Some(i as int),
            None => None::<int>,
        }),
{
    let mut best: Option<usize> = None;
    let mut best_key: u64 = FARTHEST;
    let mut i: usize = 0;
    while i < keys.len()
        invariant
            0 <= i <= keys.len(),
            best is None ==> best_key == FARTHEST && no_candidate(keys@.take(i as int)),
            best matches Some(b) ==> b < i && is_first_min(keys@.take(i as int), b as int)
                && keys@[b as int] == Some(best_key),
        decreases keys.len() - i,
    {
        let ghost seen = keys@.take(i as int);
        let ghost next = keys@.take(i as int + 1);
        proof {
            assert(next[i as int] == keys@[i as int]);
            assert(forall|j: int| 0 <= j < i ==> seen[j] == next[j]);
        }
        match keys[i] {
            Some(key) => {
                if key < best_key {
                    best_key = key;
                    best = Some(i);
                }
            },
            None => {},
        }
        i = i + 1;
    }
    proof {
        assert(keys@.take(keys@.len() as int) =~= keys@);
        match best {
            Some(b) => {
                lemma_first_min_unique(keys@, b as int);
            },
            None => {
                lemma_first_min_none(keys@);
            },
        }
    }
    best
}

/// The items of `items` whose flag in `keep` is set, in order.
pub open spec fn kept<T>(items: Seq<T>, keep: Seq<bool>) -> Seq<T>
    decreases items.len(),
{
    if items.len() == 0 {
        Seq::empty()
    } else if keep[items.len() - 1] {
        kept(items.drop_last(), keep).push(items.last())
    } else {
        kept(items.drop_last(), keep)
    }
}

/// What is kept of a prefix depends on the flags of that prefix alone.
pub proof fn lemma_kept_take<T>(items: Seq<T>, keep: Seq<bool>, n: int)
    requires
        0 < n <= items.len(),
    ensures
        kept(items.take(n), keep) == (if keep[n - 1] {
            kept(items.take(n - 1), keep).push(items[n - 1])
        } else {
            kept(items.take(n - 1), keep)
        }),
{
    assert(items.take(n).drop_last() =~= items.take(n - 1));
    assert(items.take(n).last() == items[n - 1]);
}

/// An item is kept exactly where its flag says so.
pub proof fn lemma_kept_contains<T>(items: Seq<T>, keep: Seq<bool>, x: T)
    ensures
        kept(items, keep).contains(x) <==> exists|i: int|
            0 <= i < items.len() && #[trigger] items[i] == x && keep[i],
        kept(items, keep).len() <= items.len(),
    decreases items.len(),
{
    if items.len() > 0 {
        let n = items.len() - 1;
        let rest = items.drop_last();
        lemma_kept_contains(rest, keep, x);
        let k = kept(items, keep);
        let kr = kept(rest, keep);
        if kr.contains(x) {
            let i = choose|i: int| 0 <= i < rest.len() && #[trigger] rest[i] == x && keep[i];
            assert(items[i] == x);
            let j = kr.index_of(x);
            assert(k[j] == x);
        }
        if keep[n] && items[n] == x {
            assert(k[k.len() - 1] == x);
        }
        if k.contains(x) {
            let j = k.index_of(x);
            if j < kr.len() {
                assert(kr[j] == x);
                let i = choose|i: int| 0 <= i < rest.len() && #[trigger] rest[i] == x && keep[i];
                assert(items[i] == x);
            } else {
                assert(items[n] == x);
            }
        }
        if exists|i: int| 0 <= i < items.len() && #[trigger] items[i] == x && keep[i] {
            let i = choose|i: int| 0 <= i < items.len() && #[trigger] items[i] == x && keep[i];
            if i < n {
                assert(rest[i] == x);
            }
        }
    }
}

/// Removes the items whose flag is not set, as `Vec::retain` does.
pub fn retain_flagged<T: Copy>(items: &mut Vec<T>, keep: &Vec<bool>)
    requires
        old(items).len() == keep.len(),
    ensures
        final(items)@ == kept(old(items)@, keep@),
{
    let mut out: Vec<T> = Vec::new();
    let mut i: usize = 0;
    while i < items.len()
        invariant
            0 <= i <= items.len(),
            items.len() == keep.len(),
            out@ == kept(items@.take(i as int), keep@),
        decreases items.len() - i,
    {
        proof {
            lemma_kept_take(items@, keep@, i as int + 1);
        }
        if keep[i] {
            out.push(items[i]);
        }
        i = i + 1;
    }
    assert(items@.take(items@.len() as int) =~= items@);
    *items = out;
}

/// Whether `keys[i]` is the smallest key, and the first of that size. Unlike a candidate, a
/// key may be of any size here.
pub open spec fn is_least(keys: Seq<Option<u64>>, i: int) -> bool {
    &&& 0 <= i < keys.len()
    &&& keys[i] is Some
    &&& forall|j: int|
        #![trigger keys[j]]
        0 <= j < keys.len() && keys[j] is Some ==> keys[i]->0 <= keys[j]->0
    &&& forall|j: int|
        #![trigger keys[j]]
        0 <= j < i && keys[j] is Some ==> keys[i]->0 < keys[j]->0
}

/// The place of the first smallest key.
pub open spec fn least_of(keys: Seq<Option<u64>>) -> Option<int> {
    if exists|i: int| is_least(keys, i) {
        Some(choose|i: int| is_least(keys, i))
    } else {
        None
    }
}

/// Where there is a key, there is a smallest one.
pub proof fn lemma_least_exists(keys: Seq<Option<u64>>, i: int)
    requires
        0 <= i < keys.len(),
        keys[i] is Some,
    ensures
        exists|m: int| is_least(keys, m),
    decreases keys[i]->0, i,
{
    if !is_least(keys, i) {
        if exists|j: int|
            #![trigger keys[j]]
            0 <= j < keys.len() && keys[j] is Some && keys[j]->0 < keys[i]->0 {
            let j = choose|j: int|
                #![trigger keys[j]]
                0 <= j < keys.len() && keys[j] is Some && keys[j]->0 < keys[i]->0;
            lemma_least_exists(keys, j);
        } else {
            let j = choose|j: int|
                #![trigger keys[j]]
                0 <= j < i && keys[j] is Some && !(keys[i]->0 < keys[j]->0);
            lemma_least_exists(keys, j);
        }
    }
}

/// The place of the first smallest key, if there is any.
pub fn least(keys: &Vec<Option<u64>>) -> (place: Option<usize>)
    ensures
        place matches Some(i) ==> is_least(keys@, i as int),
        least_of(keys@) == (match place {
            Some(i) => Some(i as int),
            None => None::<int>,
        }),
{
    let mut best: Option<(usize, u64)> = None;
    let mut i: usize = 0;
    while i < keys.len()
        invariant
            0 <= i <= keys.len(),
            best is None ==> forall|j: int|
                #![trigger keys@[j]]
                0 <= j < i ==> keys@[j] is None,
            best matches Some((b, key)) ==> b < i && is_least(keys@.take(i as int), b as int)
                && keys@[b as int] == Some(key),
        decreases keys.len() - i,
    {
        let ghost seen = keys@.take(i as int);
        let ghost next = keys@.take(i as int + 1);
        proof {
            assert(next[i as int] == keys@[i as int]);
            assert(forall|j: int| 0 <= j < i ==> seen[j] == next[j]);
        }
        if let Some(key) = keys[i] {
            let smaller = match best {
                Some((_, best_key)) => key < best_key,
                None => true,
            };
            if smaller {
                best = Some((i, key));
            }
        }
        i = i + 1;
    }
    proof {
        assert(keys@.take(keys@.len() as int) =~= keys@);
        if let Some((b, _)) = best {
            let k = choose|k: int| is_least(keys@, k);
            assert(is_least(keys@, k));
            if k < b {
                assert(keys@[k] is Some);
            } else if b < k {
                assert(keys@[b as int] is Some);
            }
        }
    }
    match best {
        Some((b, _)) => Some(b),
        None => None,
    }
}

/// Whether the item at place `a` ranks before the one at place `b`: by key, then by place.
pub open spec fn ranks_before(keys: Seq<Option<u64>>, a: int, b: int) -> bool {
    keys[a]->0 < keys[b]->0 || (keys[a]->0 == keys[b]->0 && a < b)
}

/// Whether `order` lists the places that have a key, smallest key first and in order of
/// place among equals.
pub open spec fn is_ranking(keys: Seq<Option<u64>>, order: Seq<usize>) -> bool {
    &&& forall|a: int|
        #![trigger order[a]]
        0 <= a < order.len() ==> order[a] < keys.len() && keys[order[a] as int] is Some
    &&& forall|i: int|
        #![trigger keys[i]]
        0 <= i < keys.len() && keys[i] is Some ==> order.contains(i as usize)
    &&& forall|a: int, b: int|
        #![trigger order[a], order[b]]
        0 <= a < b < order.len() ==> ranks_before(keys, order[a] as int, order[b] as int)
}

/// The places that have a key, smallest key first and in order of place among equals.
pub open spec fn ranking(keys: Seq<Option<u64>>) -> Seq<usize> {
    choose|order: Seq<usize>| is_ranking(keys, order)
}

proof fn lemma_rankings_agree(keys: Seq<Option<u64>>, one: Seq<usize>, two: Seq<usize>, n: nat)
    requires
        is_ranking(keys, one),
        is_ranking(keys, two),
        n <= one.len(),
    ensures
        n <= two.len(),
        forall|a: int| #![trigger one[a]] 0 <= a < n ==> one[a] == two[a],
    decreases n,
{
    if n > 0 {
        let k = n - 1;
        lemma_rankings_agree(keys, one, two, k as nat);
        assert(keys[one[k] as int] is Some);
        assert(two.contains(one[k]));
        let p = two.index_of(one[k]);
        assert(two[p] == one[k]);
        if p < k {
            assert(one[p] == two[p]);
            assert(ranks_before(keys, one[p] as int, one[k] as int));
        }
        assert(keys[two[k] as int] is Some);
        assert(one.contains(two[k]));
        let q = one.index_of(two[k]);
        assert(one[q] == two[k]);
        if q < k {
            assert(one[q] == two[q]);
            assert(ranks_before(keys, two[q] as int, two[k] as int));
        }
        if p > k {
            assert(ranks_before(keys, two[k] as int, two[p] as int));
            if q > k {
                assert(ranks_before(keys, one[k] as int, one[q] as int));
            }
        }
    }
}

/// There is only one ranking.
pub proof fn lemma_ranking_unique(keys: Seq<Option<u64>>, order: Seq<usize>)
    requires
        is_ranking(keys, order),
    ensures
        ranking(keys) == order,
{
    let other = ranking(keys);
    assert(is_ranking(keys, other));
    lemma_rankings_agree(keys, order, other, order.len());
    lemma_rankings_agree(keys, other, order, other.len());
    assert(order =~= other);
}

/// The places that have a key, smallest key first and in order of place among equals.
pub fn rank(keys: &Vec<Option<u64>>) -> (order: Vec<usize>)
    ensures
        is_ranking(keys@, order@),
        order@ == ranking(keys@),
{
    let mut order: Vec<usize> = Vec::new();
    let mut i: usize = 0;
    while i < keys.len()
        invariant
            0 <= i <= keys.len(),
            forall|a: int|
                #![trigger order@[a]]
                0 <= a < order@.len() ==> order@[a] < i && keys@[order@[a] as int] is Some,
            forall|j: int|
                #![trigger keys@[j]]
                0 <= j < i && keys@[j] is Some ==> order@.contains(j as usize),
            forall|a: int, b: int|
                #![trigger order@[a], order@[b]]
                0 <= a < b < order@.len() ==> ranks_before(
                    keys@,
                    order@[a] as int,
                    order@[b] as int,
                ),
        decreases keys.len() - i,
    {
        let ghost before = order@;
        if let Some(key) = keys[i] {
            let mut p: usize = 0;
            let mut looking = true;
            while looking && p < order.len()
                invariant
                    0 <= p <= order.len(),
                    i < keys.len(),
                    keys@[i as int] == Some(key),
                    order@ == before,
                    forall|a: int|
                        #![trigger order@[a]]
                        0 <= a < order@.len() ==> order@[a] < i && keys@[order@[a] as int] is Some,
                    forall|a: int|
                        #![trigger order@[a]]
                        0 <= a < p ==> ranks_before(keys@, order@[a] as int, i as int),
                    !looking ==> p < order.len() && ranks_before(
                        keys@,
                        i as int,
                        order@[p as int] as int,
                    ),
                decreases order.len() - p, looking as int,
            {
                let other: usize = order[p];
                let larger = match keys[other] {
                    Some(k) => k > key,
                    None => false,
                };
                if larger {
                    looking = false;
                } else {
                    p = p + 1;
                }
            }
            order.insert(p, i);
            proof {
                let after = order@;
                assert forall|a: int, b: int| #![trigger after[a], after[b]] 0 <= a < b
                    < after.len() implies ranks_before(keys@, after[a] as int, after[b] as int) by {
                    if a > p {
                        assert(after[a] == before[a - 1] && after[b] == before[b - 1]);
                    } else if a < p {
                        assert(after[a] == before[a]);
                        if b > p {
                            assert(after[b] == before[b - 1]);
                        } else if b < p {
                            assert(after[b] == before[b]);
                        }
                    } else {
                        assert(after[b] == before[b - 1]);
                        if b - 1 > p {
                            assert(ranks_before(keys@, before[p as int] as int, before[b - 1] as int));
                        }
                    }
                }
                assert forall|j: int| #![trigger keys@[j]] 0 <= j < i + 1 && keys@[j] is Some implies after.contains(
                j as usize) by {
                    if j == i {
                        assert(after[p as int] == j as usize);
                    } else {
                        let a = before.index_of(j as usize);
                        if a < p {
                            assert(after[a] == j as usize);
                        } else {
                            assert(after[a + 1] == j as usize);
                        }
                    }
                }
                assert forall|a: int| #![trigger after[a]] 0 <= a < after.len() implies after[a] < i
                    + 1 && keys@[after[a] as int] is Some by {
                    if a < p {
                        assert(after[a] == before[a]);
                    } else if a > p {
                        assert(after[a] == before[a - 1]);
                    }
                }
            }
        }
        i = i + 1;
    }
    proof {
        lemma_ranking_unique(keys@, order@);
    }
    order
}

/// The place that is chosen has a key below the bound; no key that is below it too is smaller,
/// and none of the same size stands before it. Nothing is chosen where no key is below the
/// bound.
pub proof fn law_first_min(keys: Seq<Option<u64>>)
    ensures
        match first_min_of(keys) {
            Some(m) => {
                &&& 0 <= m < keys.len()
                &&& keys[m] is Some && keys[m]->0 < FARTHEST
                &&& forall|j: int|
                    #![trigger keys[j]]
                    0 <= j < keys.len() && keys[j] is Some ==> keys[m]->0 <= keys[j]->0
                &&& forall|j: int|
                    #![trigger keys[j]]
                    0 <= j < m && keys[j] is Some ==> keys[m]->0 < keys[j]->0
            },
            None => forall|j: int|
                #![trigger keys[j]]
                0 <= j < keys.len() && keys[j] is Some ==> keys[j]->0 >= FARTHEST,
        },
{
    match first_min_of(keys) {
        Some(m) => {
            assert(is_first_min(keys, m));
        },
        None => {
            assert forall|j: int|
                #![trigger keys[j]]
                0 <= j < keys.len() && keys[j] is Some implies keys[j]->0 >= FARTHEST by {
                if keys[j]->0 < FARTHEST {
                    lemma_first_min_exists(keys, j);
                }
            }
        },
    }
}

/// The place that is chosen has a key; none is smaller, and none of the same size stands before
/// it. Nothing is chosen only where there is no key.
pub proof fn law_least(keys: Seq<Option<u64>>)
    ensures
        match least_of(keys) {
            Some(m) => {
                &&& 0 <= m < keys.len()
                &&& keys[m] is Some
                &&& forall|j: int|
                    #![trigger keys[j]]
                    0 <= j < keys.len() && keys[j] is Some ==> keys[m]->0 <= keys[j]->0
                &&& forall|j: int|
                    #![trigger keys[j]]
                    0 <= j < m && keys[j] is Some ==> keys[m]->0 < keys[j]->0
            },
            None => forall|j: int| #![trigger keys[j]] 0 <= j < keys.len() ==> keys[j] is None,
        },
{
    match least_of(keys) {
        Some(m) => {
            assert(is_least(keys, m));
        },
        None => {
            assert forall|j: int| #![trigger keys[j]] 0 <= j < keys.len() implies keys[j] is None by {
                if keys[j] is Some {
                    lemma_least_exists(keys, j);
                }
            }
        },
    }
}

/// A ranking lists each place that has a key once and no other; a smaller key goes first, and
/// among equal keys the earlier place.
pub proof fn law_ranking(keys: Seq<Option<u64>>, order: Seq<usize>)
    requires
        is_ranking(keys, order),
    ensures
        order.no_duplicates(),
        forall|a: int|
            #![trigger order[a]]
            0 <= a < order.len() ==> order[a] < keys.len() && keys[order[a] as int] is Some,
        forall|i: int|
            #![trigger keys[i]]
            0 <= i < keys.len() && keys[i] is Some ==> order.contains(i as usize),
        forall|a: int, b: int|
            #![trigger order[a], order[b]]
            0 <= a < b < order.len() ==> keys[order[a] as int]->0 <= keys[order[b] as int]->0 && (
            keys[order[a] as int] == keys[order[b] as int] ==> order[a] < order[b]),
{
    assert forall|a: int, b: int|
        0 <= a < order.len() && 0 <= b < order.len() && a != b implies order[a] != order[b] by {
        if a < b {
            assert(ranks_before(keys, order[a] as int, order[b] as int));
        } else {
            assert(ranks_before(keys, order[b] as int, order[a] as int));
        }
    }
    assert forall|a: int, b: int|
        #![trigger order[a], order[b]]
        0 <= a < b < order.len() implies keys[order[a] as int]->0 <= keys[order[b] as int]->0 && (
    keys[order[a] as int] == keys[order[b] as int] ==> order[a] < order[b]) by {
        assert(ranks_before(keys, order[a] as int, order[b] as int));
    }
}

/// What is kept stands in the order in which it stood, is flagged, and leaves nothing out that
/// is flagged: the places of the kept items rise, and are those of the flags that are set.
pub proof fn law_kept_in_order<T>(items: Seq<T>, keep: Seq<bool>) -> (places: Seq<int>)
    ensures
        places.len() == kept(items, keep).len(),
        forall|k: int|
            #![trigger places[k]]
            0 <= k < places.len() ==> 0 <= places[k] < items.len() && keep[places[k]] && kept(
                items,
                keep,
            )[k] == items[places[k]],
        forall|a: int, b: int|
            #![trigger places[a], places[b]]
            0 <= a < b < places.len() ==> places[a] < places[b],
        forall|i: int| 0 <= i < items.len() && #[trigger] keep[i] ==> places.contains(i),
    decreases items.len(),
{
    if items.len() == 0 {
        Seq::empty()
    } else {
        let n = items.len() - 1;
        let rest = items.drop_last();
        let before = law_kept_in_order(rest, keep);
        if keep[n] {
            let places = before.push(n);
            assert forall|i: int| 0 <= i < items.len() && #[trigger] keep[i] implies places.contains(
                i,
            ) by {
                if i < n {
                    assert(before.contains(i));
                    let k = before.index_of(i);
                    assert(places[k] == i);
                } else {
                    assert(places[before.len() as int] == i);
                }
            }
            places
        } else {
            before
        }
    }
}

} // verus!
