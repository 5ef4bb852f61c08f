//! Grouping contacts by how close they are: the two closest groups are merged until three
//! groups are left.
use vstd::prelude::*;

use crate::select::FARTHEST;

verus! {

/// The most groups that are left.
pub const MAX_CLUSTERS: usize = 3;

/// Distances between places: `distances[a][b]` is that from `a` to `b`.
pub open spec fn distance_at(distances: Seq<Vec<u64>>, a: usize, b: usize) -> u64 {
    distances[a as int]@[b as int]
}

/// Whether `distances` is a table for `n` places.
pub open spec fn is_table(distances: Seq<Vec<u64>>, n: nat) -> bool {
    &&& distances.len() == n
    &&& forall|a: int| #![trigger distances[a]] 0 <= a < n ==> distances[a]@.len() == n
}

/// The groups as sequences of places.
pub open spec fn groups(clusters: Seq<Vec<usize>>) -> Seq<Seq<usize>> {
    clusters.map_values(|c: Vec<usize>| c@)
}

/// Whether no two members of the two groups are closer than `d`.
pub open spec fn apart_by(distances: Seq<Vec<u64>>, a: Seq<usize>, b: Seq<usize>, d: u64) -> bool {
    forall|p: int, q: int|
        #![trigger a[p], b[q]]
        0 <= p < a.len() && 0 <= q < b.len() ==> distance_at(distances, a[p], b[q]) >= d
}

/// Whether two members of the two groups are `d` apart.
pub open spec fn meet_at(distances: Seq<Vec<u64>>, a: Seq<usize>, b: Seq<usize>, d: u64) -> bool {
    exists|p: int, q: int|
        #![trigger a[p], b[q]]
        0 <= p < a.len() && 0 <= q < b.len() && distance_at(distances, a[p], b[q]) == d
}

/// Whether `d` is the distance between the two groups: that of their closest members.
pub open spec fn is_gap(distances: Seq<Vec<u64>>, a: Seq<usize>, b: Seq<usize>, d: u64) -> bool {
    apart_by(distances, a, b, d) && meet_at(distances, a, b, d)
}

/// Whether no two groups are closer than `d`.
pub open spec fn all_apart(clusters: Seq<Seq<usize>>, distances: Seq<Vec<u64>>, d: u64) -> bool {
    forall|k: int, l: int|
        #![trigger clusters[k], clusters[l]]
        0 <= k < l < clusters.len() ==> apart_by(distances, clusters[k], clusters[l], d)
}

/// Whether the pair `(k, l)` comes before the pair `(i, j)`.
pub open spec fn pair_before(k: int, l: int, i: int, j: int) -> bool {
    k < i || (k == i && l < j)
}

/// Whether the groups `i` and `j`, `d` apart, are the closest two, and the first such pair. Only
/// groups that are less than the largest finite distance apart come into question.
pub open spec fn closest_at(clusters: Seq<Seq<usize>>, distances: Seq<Vec<u64>>, i: int, j: int, d: u64) -> bool {
    &&& 0 <= i < j < clusters.len()
    &&& d < FARTHEST
    &&& is_gap(distances, clusters[i], clusters[j], d)
    &&& forall|k: int, l: int|
        #![trigger clusters[k], clusters[l]]
        0 <= k < l < clusters.len() ==> apart_by(distances, clusters[k], clusters[l], d)
    &&& forall|k: int, l: int|
        #![trigger clusters[k], clusters[l]]
        0 <= k < l < clusters.len() && pair_before(k, l, i, j) ==> !meet_at(
            distances,
            clusters[k],
            clusters[l],
            d,
        )
}

/// Whether the groups `i` and `j` are the closest two, and the first such pair.
pub open spec fn is_closest_pair(clusters: Seq<Seq<usize>>, distances: Seq<Vec<u64>>, i: int, j: int) -> bool {
    exists|d: u64| closest_at(clusters, distances, i, j, d)
}

/// The groups after group `j` was added to group `i`; the last group moves into its place.
pub open spec fn merged(clusters: Seq<Seq<usize>>, i: int, j: int) -> Seq<Seq<usize>> {
    let joined = clusters.update(i, clusters[i] + clusters[j]);
    joined.update(j, joined.last()).drop_last()
}

/// The closest two groups, the first such pair.
pub open spec fn closest_pair_of(clusters: Seq<Seq<usize>>, distances: Seq<Vec<u64>>) -> (int, int) {
    choose|i: int, j: int| is_closest_pair(clusters, distances, i, j)
}

/// The groups without the first one; the last group moves into its place.
pub open spec fn without_first(clusters: Seq<Seq<usize>>) -> Seq<Seq<usize>> {
    clusters.update(0, clusters.last()).drop_last()
}

/// The groups after merging the closest two until no more than three are left. Where no two
/// groups are a finite distance apart, the first one is given up instead.
pub open spec fn grouped(clusters: Seq<Seq<usize>>, distances: Seq<Vec<u64>>) -> Seq<Seq<usize>>
    decreases clusters.len(),
{
    let (i, j) = closest_pair_of(clusters, distances);
    if clusters.len() <= MAX_CLUSTERS {
        clusters
    } else if is_closest_pair(clusters, distances, i, j) {
        grouped(merged(clusters, i, j), distances)
    } else {
        grouped(without_first(clusters), distances)
    }
}

/// Whether any two places are a finite distance apart.
pub open spec fn all_near(distances: Seq<Vec<u64>>, n: nat) -> bool {
    forall|a: usize, b: usize|
        #![trigger distance_at(distances, a, b)]
        a < n && b < n && a != b ==> distance_at(distances, a, b) < FARTHEST
}

/// `n` groups of one place each.
pub open spec fn singletons(n: nat) -> Seq<Seq<usize>> {
    Seq::new(n, |i: int| seq![i as usize])
}

/// Whether every group has a member, and every member is one of `n` places.
pub open spec fn well_formed(clusters: Seq<Seq<usize>>, n: nat) -> bool {
    forall|c: int|
        #![trigger clusters[c]]
        0 <= c < clusters.len() ==> clusters[c].len() > 0 && members_below(clusters[c], n)
}

/// Whether every member of a group is one of `n` places.
pub open spec fn members_below(group: Seq<usize>, n: nat) -> bool {
    forall|p: int| #![trigger group[p]] 0 <= p < group.len() ==> group[p] < n
}

/// Whether each of `n` places is a member of some group.
pub open spec fn covers(clusters: Seq<Seq<usize>>, n: nat) -> bool {
    forall|x: usize| x < n ==> #[trigger] is_member(clusters, x)
}

/// Whether `x` is a member of some group.
pub open spec fn is_member(clusters: Seq<Seq<usize>>, x: usize) -> bool {
    exists|c: int| 0 <= c < clusters.len() && #[trigger] clusters[c].contains(x)
}

/// Whether no place occurs twice, in one group or in two.
pub open spec fn disjoint(clusters: Seq<Seq<usize>>) -> bool {
    forall|c: int, p: int, d: int, q: int|
        #![trigger clusters[c][p], clusters[d][q]]
        0 <= c < clusters.len() && 0 <= d < clusters.len() && 0 <= p < clusters[c].len() && 0 <= q
            < clusters[d].len() && clusters[c][p] == clusters[d][q] ==> c == d && p == q
}

// The smallest distance between members of the two groups.
fn gap(distances: &Vec<Vec<u64>>, a: &Vec<usize>, b: &Vec<usize>, Ghost(n): Ghost<nat>) -> (d: u64)
    requires
        is_table(distances@, n),
        a.len() > 0,
        b.len() > 0,
        members_below(a@, n),
        members_below(b@, n),
    ensures
        is_gap(distances@, a@, b@, d),
{
    let mut best: u64 = distances[a[0]][b[0]];
    assert(distance_at(distances@, a@[0], b@[0]) == best);
    let mut p: usize = 0;
    while p < a.len()
        invariant
            0 <= p <= a.len(),
            is_table(distances@, n),
            members_below(a@, n),
            members_below(b@, n),
            meet_at(distances@, a@, b@, best),
            forall|x: int, y: int|
                #![trigger a@[x], b@[y]]
                0 <= x < p && 0 <= y < b.len() ==> distance_at(distances@, a@[x], b@[y]) >= best,
        decreases a.len() - p,
    {
        let mut q: usize = 0;
        while q < b.len()
            invariant
                0 <= q <= b.len(),
                0 <= p < a.len(),
                is_table(distances@, n),
                members_below(a@, n),
                members_below(b@, n),
                meet_at(distances@, a@, b@, best),
                forall|x: int, y: int|
                    #![trigger a@[x], b@[y]]
                    0 <= x < p && 0 <= y < b.len() ==> distance_at(distances@, a@[x], b@[y])
                        >= best,
                forall|y: int|
                    #![trigger b@[y]]
                    0 <= y < q ==> distance_at(distances@, a@[p as int], b@[y]) >= best,
            decreases b.len() - q,
        {
            let row: usize = a[p];
            let column: usize = b[q];
            assert(distances@[row as int]@.len() == n);
            let d: u64 = distances[row][column];
            assert(distance_at(distances@, a@[p as int], b@[q as int]) == d);
            if d < best {
                best = d;
            }
            q = q + 1;
        }
        p = p + 1;
    }
    best
}

// The closest two groups, the first such pair, unless all are too far apart.
fn closest_pair(clusters: &Vec<Vec<usize>>, distances: &Vec<Vec<u64>>, Ghost(n): Ghost<nat>) -> (pair: Option<
    (usize, usize),
>)
    requires
        is_table(distances@, n),
        well_formed(groups(clusters@), n),
    ensures
        pair matches Some(p) ==> is_closest_pair(
            groups(clusters@),
            distances@,
            p.0 as int,
            p.1 as int,
        ) && p.0 < p.1 < clusters.len(),
        pair is None ==> all_apart(groups(clusters@), distances@, FARTHEST),
{
    let ghost g = groups(clusters@);
    assert(g.len() == clusters.len());
    assert(forall|c: int| 0 <= c < g.len() ==> g[c] == clusters@[c]@);
    let mut best: u64 = FARTHEST;
    let mut pair: Option<(usize, usize)> = None;
    let mut i: usize = 0;
    while i < clusters.len()
        invariant
            0 <= i <= clusters.len(),
            g == groups(clusters@),
            g.len() == clusters.len(),
            is_table(distances@, n),
            well_formed(g, n),
            pair is None ==> best == FARTHEST,
            pair matches Some(p) ==> p.0 < p.1 < clusters.len() && p.0 < i && best < FARTHEST
                && is_gap(distances@, g[p.0 as int], g[p.1 as int], best),
            forall|k: int, l: int|
                #![trigger g[k], g[l]]
                0 <= k < l < g.len() && k < i ==> apart_by(distances@, g[k], g[l], best),
            pair matches Some(p) ==> forall|k: int, l: int|
                #![trigger g[k], g[l]]
                0 <= k < l < g.len() && k < i && pair_before(k, l, p.0 as int, p.1 as int)
                    ==> !meet_at(distances@, g[k], g[l], best),
        decreases clusters.len() - i,
    {
        let mut j: usize = i + 1;
        while j < clusters.len()
            invariant
                0 <= i < clusters.len(),
                i + 1 <= j <= clusters.len(),
                g == groups(clusters@),
                g.len() == clusters.len(),
                is_table(distances@, n),
                well_formed(g, n),
                pair is None ==> best == FARTHEST,
                pair matches Some(p) ==> p.0 < p.1 < clusters.len() && p.0 <= i && best < FARTHEST
                    && is_gap(distances@, g[p.0 as int], g[p.1 as int], best) && (p.0 == i ==> p.1
                    < j),
                forall|k: int, l: int|
                    #![trigger g[k], g[l]]
                    0 <= k < l < g.len() && (k < i || (k == i && l < j)) ==> apart_by(
                        distances@,
                        g[k],
                        g[l],
                        best,
                    ),
                pair matches Some(p) ==> forall|k: int, l: int|
                    #![trigger g[k], g[l]]
                    0 <= k < l < g.len() && (k < i || (k == i && l < j)) && pair_before(
                        k,
                        l,
                        p.0 as int,
                        p.1 as int,
                    ) ==> !meet_at(distances@, g[k], g[l], best),
            decreases clusters.len() - j,
        {
            assert(g[i as int] == clusters@[i as int]@ && g[j as int] == clusters@[j as int]@);
            let d: u64 = gap(distances, &clusters[i], &clusters[j], Ghost(n));
            if d < best {
                proof {
                    assert forall|k: int, l: int|
                        #![trigger g[k], g[l]]
                        0 <= k < l < g.len() && (k < i || (k == i && l < j)) implies apart_by(
                        distances@,
                        g[k],
                        g[l],
                        d,
                    ) && !meet_at(distances@, g[k], g[l], d) by {
                        assert(apart_by(distances@, g[k], g[l], best));
                    }
                }
                best = d;
                pair = Some((i, j));
            }
            j = j + 1;
        }
        i = i + 1;
    }
    proof {
        if let Some(p) = pair {
            assert(closest_at(g, distances@, p.0 as int, p.1 as int, best));
        }
    }
    pair
}

// There is only one closest pair.
proof fn lemma_closest_pair_unique(
    clusters: Seq<Seq<usize>>,
    distances: Seq<Vec<u64>>,
    i: int,
    j: int,
    k: int,
    l: int,
)
    requires
        is_closest_pair(clusters, distances, i, j),
        is_closest_pair(clusters, distances, k, l),
    ensures
        i == k && j == l,
{
    let d = choose|d: u64| closest_at(clusters, distances, i, j, d);
    let e = choose|e: u64| closest_at(clusters, distances, k, l, e);
    assert(apart_by(distances, clusters[i], clusters[j], e));
    assert(apart_by(distances, clusters[k], clusters[l], d));
    assert(d == e) by {
        let (p, q) = choose|p: int, q: int|
            #![trigger clusters[i][p], clusters[j][q]]
            0 <= p < clusters[i].len() && 0 <= q < clusters[j].len() && distance_at(
                distances,
                clusters[i][p],
                clusters[j][q],
            ) == d;
        let (r, s) = choose|r: int, s: int|
            #![trigger clusters[k][r], clusters[l][s]]
            0 <= r < clusters[k].len() && 0 <= s < clusters[l].len() && distance_at(
                distances,
                clusters[k][r],
                clusters[l][s],
            ) == e;
        assert(distance_at(distances, clusters[i][p], clusters[j][q]) >= e);
        assert(distance_at(distances, clusters[k][r], clusters[l][s]) >= d);
    }
    if pair_before(i, j, k, l) {
        assert(!meet_at(distances, clusters[i], clusters[j], e));
    } else if pair_before(k, l, i, j) {
        assert(!meet_at(distances, clusters[k], clusters[l], d));
    }
}

// Where all groups are too far apart, there is no closest pair.
proof fn lemma_no_closest_pair(clusters: Seq<Seq<usize>>, distances: Seq<Vec<u64>>, i: int, j: int)
    requires
        all_apart(clusters, distances, FARTHEST),
    ensures
        !is_closest_pair(clusters, distances, i, j),
{
    if is_closest_pair(clusters, distances, i, j) {
        let d = choose|d: u64| closest_at(clusters, distances, i, j, d);
        let (p, q) = choose|p: int, q: int|
            #![trigger clusters[i][p], clusters[j][q]]
            0 <= p < clusters[i].len() && 0 <= q < clusters[j].len() && distance_at(
                distances,
                clusters[i][p],
                clusters[j][q],
            ) == d;
        assert(apart_by(distances, clusters[i], clusters[j], FARTHEST));
        assert(distance_at(distances, clusters[i][p], clusters[j][q]) >= FARTHEST);
    }
}

// Giving up the first group keeps the others well formed.
proof fn lemma_rest_well_formed(clusters: Seq<Seq<usize>>, n: nat)
    requires
        well_formed(clusters, n),
        clusters.len() > 1,
    ensures
        well_formed(without_first(clusters), n),
        without_first(clusters).len() == clusters.len() - 1,
{
    let m = without_first(clusters);
    let last = clusters.len() - 1;
    assert forall|c: int| #![trigger m[c]] 0 <= c < m.len() implies m[c].len() > 0 && members_below(
        m[c],
        n,
    ) by {
        if c == 0 {
            assert(m[c] == clusters[last]);
        } else {
            assert(m[c] == clusters[c]);
        }
    }
}

// Giving up the first group makes no member occur twice.
proof fn lemma_rest_disjoint(clusters: Seq<Seq<usize>>)
    requires
        disjoint(clusters),
        clusters.len() > 1,
    ensures
        disjoint(without_first(clusters)),
{
    let m = without_first(clusters);
    let last = clusters.len() - 1;
    assert forall|c: int, p: int, d: int, q: int|
        #![trigger m[c][p], m[d][q]]
        0 <= c < m.len() && 0 <= d < m.len() && 0 <= p < m[c].len() && 0 <= q < m[d].len()
            && m[c][p] == m[d][q] implies c == d && p == q by {
        let c0 = if c == 0 { last } else { c };
        let d0 = if d == 0 { last } else { d };
        assert(m[c][p] == clusters[c0][p]);
        assert(m[d][q] == clusters[d0][q]);
    }
}

// Merging two groups keeps them well formed.
proof fn lemma_merged_well_formed(clusters: Seq<Seq<usize>>, n: nat, i: int, j: int)
    requires
        well_formed(clusters, n),
        0 <= i < j < clusters.len(),
    ensures
        well_formed(merged(clusters, i, j), n),
        merged(clusters, i, j).len() == clusters.len() - 1,
{
    let m = merged(clusters, i, j);
    assert forall|c: int| #![trigger m[c]] 0 <= c < m.len() implies m[c].len() > 0 && members_below(
        m[c],
        n,
    ) by {
        let last = clusters.len() - 1;
        if c == i {
            let whole = clusters[i] + clusters[j];
            assert(clusters[i].len() > 0);
            assert(members_below(clusters[i], n) && members_below(clusters[j], n));
            assert forall|p: int| #![trigger whole[p]] 0 <= p < whole.len() implies whole[p] < n by {
                if p < clusters[i].len() {
                    assert(clusters[i][p] < n);
                } else {
                    assert(clusters[j][p - clusters[i].len()] < n);
                }
            }
        } else if c == j {
            assert(m[c] == clusters[last]);
        } else {
            assert(m[c] == clusters[c]);
        }
    }
}

// Merging two groups loses no member.
proof fn lemma_merged_covers(clusters: Seq<Seq<usize>>, n: nat, i: int, j: int)
    requires
        covers(clusters, n),
        0 <= i < j < clusters.len(),
    ensures
        covers(merged(clusters, i, j), n),
{
    let m = merged(clusters, i, j);
    let last = clusters.len() - 1;
    assert forall|x: usize| x < n implies #[trigger] is_member(m, x) by {
        assert(is_member(clusters, x));
        let c = choose|c: int| 0 <= c < clusters.len() && #[trigger] clusters[c].contains(x);
        let p = clusters[c].index_of(x);
        let whole = clusters[i] + clusters[j];
        assert(m[i] == whole);
        if c == i {
            assert(whole[p] == x);
            assert(m[i].contains(x));
        } else if c == j {
            assert(whole[clusters[i].len() + p] == x);
            assert(m[i].contains(x));
        } else if c == last {
            assert(m[j] == clusters[last]);
            assert(m[j].contains(x));
        } else {
            assert(m[c] == clusters[c]);
            assert(m[c].contains(x));
        }
    }
}

// Where in the groups before merging the member `p` of group `c` comes from.
spec fn origin(clusters: Seq<Seq<usize>>, i: int, j: int, c: int, p: int) -> (int, int) {
    if c == i {
        if p < clusters[i].len() {
            (i, p)
        } else {
            (j, p - clusters[i].len())
        }
    } else if c == j {
        (clusters.len() - 1, p)
    } else {
        (c, p)
    }
}

// Merging two groups makes no member occur twice.
proof fn lemma_merged_disjoint(clusters: Seq<Seq<usize>>, i: int, j: int)
    requires
        disjoint(clusters),
        0 <= i < j < clusters.len(),
    ensures
        disjoint(merged(clusters, i, j)),
{
    let m = merged(clusters, i, j);
    assert forall|c: int, p: int, d: int, q: int|
        #![trigger m[c][p], m[d][q]]
        0 <= c < m.len() && 0 <= d < m.len() && 0 <= p < m[c].len() && 0 <= q < m[d].len()
            && m[c][p] == m[d][q] implies c == d && p == q by {
        let (c0, p0) = origin(clusters, i, j, c, p);
        let (d0, q0) = origin(clusters, i, j, d, q);
        assert(m[c][p] == clusters[c0][p0]);
        assert(m[d][q] == clusters[d0][q0]);
        assert(c0 == d0 && p0 == q0);
    }
}

/// Groups the places 0, 1, ... by the distances between them: up to three places stay alone,
/// more are put into three groups. Where all are a finite distance apart, every place comes to
/// stand in a group.
pub fn cluster_contacts(distances: &Vec<Vec<u64>>) -> (clusters: Vec<Vec<usize>>)
    requires
        is_table(distances@, distances@.len()),
    ensures
        groups(clusters@) == grouped(singletons(distances@.len()), distances@),
        well_formed(groups(clusters@), distances@.len()),
        all_near(distances@, distances@.len()) ==> covers(groups(clusters@), distances@.len()),
        disjoint(groups(clusters@)),
        clusters.len() == (if distances@.len() < MAX_CLUSTERS {
            distances@.len()
        } else {
            MAX_CLUSTERS as nat
        }),
{
    let ghost n = distances@.len();
    let mut clusters: Vec<Vec<usize>> = Vec::new();
    let mut k: usize = 0;
    while k < distances.len()
        invariant
            0 <= k <= distances.len(),
            n == distances@.len(),
            groups(clusters@) == singletons(n).take(k as int),
        decreases distances.len() - k,
    {
        let mut one: Vec<usize> = Vec::new();
        one.push(k);
        assert(one@ =~= seq![k]);
        let ghost before = clusters@;
        clusters.push(one);
        proof {
            assert(groups(clusters@) =~= groups(before).push(one@));
            assert(singletons(n).take(k as int + 1) =~= singletons(n).take(k as int).push(
                seq![k],
            ));
        }
        k = k + 1;
    }
    proof {
        assert(groups(clusters@) =~= singletons(n));
        let g = groups(clusters@);
        assert forall|c: int| #![trigger g[c]] 0 <= c < g.len() implies g[c].len() > 0
            && members_below(g[c], n) by {
            assert(g[c] == seq![c as usize]);
        }
        assert(distances.len() == distances@.len());
        assert forall|x: usize| x < n implies #[trigger] is_member(g, x) by {
            assert(g[x as int][0] == x);
            assert(g[x as int].contains(x));
        }
        assert forall|c: int, p: int, d: int, q: int|
            #![trigger g[c][p], g[d][q]]
            0 <= c < g.len() && 0 <= d < g.len() && 0 <= p < g[c].len() && 0 <= q < g[d].len()
                && g[c][p] == g[d][q] implies c == d && p == q by {
            assert(g[c] == seq![c as usize] && g[d] == seq![d as usize]);
        }
    }
    while clusters.len() > MAX_CLUSTERS
        invariant
            n == distances@.len(),
            is_table(distances@, n),
            well_formed(groups(clusters@), n),
            all_near(distances@, n) ==> covers(groups(clusters@), n),
            disjoint(groups(clusters@)),
            clusters.len() <= n,
            n >= MAX_CLUSTERS ==> clusters.len() >= MAX_CLUSTERS,
            n < MAX_CLUSTERS ==> clusters.len() == n,
            grouped(groups(clusters@), distances@) == grouped(singletons(n), distances@),
        decreases clusters.len(),
    {
        let ghost g = groups(clusters@);
        assert(g.len() == clusters.len());
        let ghost before = clusters@;
        match closest_pair(&clusters, distances, Ghost(n)) {
            Some((i, j)) => {
                proof {
                    let (a, b) = closest_pair_of(g, distances@);
                    lemma_closest_pair_unique(g, distances@, i as int, j as int, a, b);
                    lemma_merged_well_formed(g, n, i as int, j as int);
                    if covers(g, n) {
                        lemma_merged_covers(g, n, i as int, j as int);
                    }
                    lemma_merged_disjoint(g, i as int, j as int);
                }
                let mut whole: Vec<usize> = Vec::new();
                copy_into(&mut whole, &clusters[i]);
                copy_into(&mut whole, &clusters[j]);
                clusters.set(i, whole);
                clusters.swap_remove(j);
                proof {
                    assert(g[i as int] == before[i as int]@ && g[j as int] == before[j as int]@);
                    assert(whole@ =~= g[i as int] + g[j as int]);
                    assert(groups(clusters@) =~= merged(g, i as int, j as int));
                }
            },
            None => {
                proof {
                    let (a, b) = closest_pair_of(g, distances@);
                    lemma_no_closest_pair(g, distances@, a, b);
                    lemma_rest_well_formed(g, n);
                    lemma_rest_disjoint(g);
                    if all_near(distances@, n) {
                        assert(g[0].len() > 0 && g[1].len() > 0);
                        assert(members_below(g[0], n) && members_below(g[1], n));
                        assert(apart_by(distances@, g[0], g[1], FARTHEST));
                        assert(g[0][0] != g[1][0]);
                        assert(distance_at(distances@, g[0][0], g[1][0]) >= FARTHEST);
                    }
                }
                clusters.swap_remove(0);
                assert(groups(clusters@) =~= without_first(g));
            },
        }
    }
    clusters
}

fn copy_into(to: &mut Vec<usize>, from: &Vec<usize>)
    ensures
        final(to)@ == old(to)@ + from@,
{
    let ghost before = to@;
    let mut k: usize = 0;
    while k < from.len()
        invariant
            0 <= k <= from.len(),
            to@ == before + from@.take(k as int),
        decreases from.len() - k,
    {
        to.push(from[k]);
        assert(from@.take(k as int + 1) =~= from@.take(k as int).push(from@[k as int]));
        assert(to@ =~= before + from@.take(k as int + 1));
        k = k + 1;
    }
    assert(from@.take(k as int) =~= from@);
}

/// Whether the distances between `n` places are the same in both directions.
pub open spec fn symmetric(distances: Seq<Vec<u64>>, n: nat) -> bool {
    forall|a: usize, b: usize|
        #![trigger distance_at(distances, a, b)]
        a < n && b < n ==> distance_at(distances, a, b) == distance_at(distances, b, a)
}

/// The largest gap that is bridged by merging two groups.
pub open spec fn widest_bridge(clusters: Seq<Seq<usize>>, distances: Seq<Vec<u64>>) -> u64
    decreases clusters.len(),
{
    let (i, j) = closest_pair_of(clusters, distances);
    if clusters.len() <= MAX_CLUSTERS {
        0
    } else if is_closest_pair(clusters, distances, i, j) {
        let d = choose|d: u64| closest_at(clusters, distances, i, j, d);
        let rest = widest_bridge(merged(clusters, i, j), distances);
        if d > rest {
            d
        } else {
            rest
        }
    } else {
        widest_bridge(without_first(clusters), distances)
    }
}

/// Whether a member of the group that lies in `part` and one that does not are no more than
/// `d` apart.
pub open spec fn bridged(distances: Seq<Vec<u64>>, group: Seq<usize>, part: Set<usize>, d: u64) -> bool {
    exists|p: int, q: int|
        #![trigger group[p], group[q]]
        0 <= p < group.len() && 0 <= q < group.len() && part.contains(group[p]) && !part.contains(
            group[q],
        ) && distance_at(distances, group[p], group[q]) <= d
}

/// Whether a set parts a group: it has some of the members, but not all.
pub open spec fn parts(group: Seq<usize>, part: Set<usize>) -> bool {
    &&& exists|p: int| 0 <= p < group.len() && part.contains(#[trigger] group[p])
    &&& exists|q: int| 0 <= q < group.len() && !part.contains(#[trigger] group[q])
}

/// Whether a group holds together over gaps of no more than `d`: however it is parted, two
/// members on different sides are no more than `d` apart.
pub open spec fn linked(distances: Seq<Vec<u64>>, group: Seq<usize>, d: u64) -> bool {
    forall|part: Set<usize>|
        #![trigger parts(group, part)]
        parts(group, part) ==> bridged(distances, group, part, d)
}

/// Whether every group holds together over gaps of no more than `d`.
pub open spec fn all_linked(clusters: Seq<Seq<usize>>, distances: Seq<Vec<u64>>, d: u64) -> bool {
    forall|c: int|
        #![trigger clusters[c]]
        0 <= c < clusters.len() ==> linked(distances, clusters[c], d)
}

/// No two of the groups that come out are closer than the largest gap bridged inside one: every
/// group holds together over gaps of no more than that size, and no two groups are closer.
pub proof fn law_groups_are_farther_apart_than_inside(distances: Seq<Vec<u64>>)
    requires
        distances.len() <= usize::MAX,
        is_table(distances, distances.len()),
        symmetric(distances, distances.len()),
    ensures
        ({
            let start = singletons(distances.len());
            let w = widest_bridge(start, distances);
            &&& all_linked(grouped(start, distances), distances, w)
            &&& all_apart(grouped(start, distances), distances, w)
        }),
{
    let start = singletons(distances.len());
    assert forall|c: int| #![trigger start[c]] 0 <= c < start.len() implies linked(
        distances,
        start[c],
        0,
    ) by {
        assert(start[c].len() == 1);
    }
    assert(all_apart(start, distances, 0));
    assert forall|c: int| #![trigger start[c]] 0 <= c < start.len() implies start[c].len() > 0
        && members_below(start[c], distances.len()) by {
        assert(start[c] == seq![c as usize]);
    }
    lemma_grouped_apart(start, distances, distances.len());
    lemma_grouped_linked(start, distances, distances.len(), 0);
}

// A group that holds together over some gaps does so over larger ones.
proof fn lemma_linked_wider(distances: Seq<Vec<u64>>, group: Seq<usize>, d: u64, e: u64)
    requires
        linked(distances, group, d),
        d <= e,
    ensures
        linked(distances, group, e),
{
    assert forall|part: Set<usize>| #![trigger parts(group, part)] parts(group, part) implies bridged(
        distances,
        group,
        part,
        e,
    ) by {
        assert(bridged(distances, group, part, d));
        let (p, q) = choose|p: int, q: int|
            #![trigger group[p], group[q]]
            0 <= p < group.len() && 0 <= q < group.len() && part.contains(group[p])
                && !part.contains(group[q]) && distance_at(distances, group[p], group[q]) <= d;
        assert(distance_at(distances, group[p], group[q]) <= e);
    }
}

// What bridges a piece of a group bridges the group.
proof fn lemma_piece_bridged(distances: Seq<Vec<u64>>, piece: Seq<usize>, whole: Seq<usize>, at: int, part: Set<usize>, d: u64)
    requires
        bridged(distances, piece, part, d),
        0 <= at,
        at + piece.len() <= whole.len(),
        forall|p: int| #![trigger piece[p]] 0 <= p < piece.len() ==> whole[at + p] == piece[p],
    ensures
        bridged(distances, whole, part, d),
{
    let (p, q) = choose|p: int, q: int|
        #![trigger piece[p], piece[q]]
        0 <= p < piece.len() && 0 <= q < piece.len() && part.contains(piece[p]) && !part.contains(
            piece[q],
        ) && distance_at(distances, piece[p], piece[q]) <= d;
    assert(whole[at + p] == piece[p] && whole[at + q] == piece[q]);
}

// Two groups that hold together, joined over a gap, hold together.
proof fn lemma_joined_linked(distances: Seq<Vec<u64>>, n: nat, a: Seq<usize>, b: Seq<usize>, d: u64)
    requires
        symmetric(distances, n),
        members_below(a, n),
        members_below(b, n),
        linked(distances, a, d),
        linked(distances, b, d),
        exists|e: u64| e <= d && #[trigger] meet_at(distances, a, b, e),
    ensures
        linked(distances, a + b, d),
{
    let whole = a + b;
    let e = choose|e: u64| e <= d && #[trigger] meet_at(distances, a, b, e);
    let (p, q) = choose|p: int, q: int|
        #![trigger a[p], b[q]]
        0 <= p < a.len() && 0 <= q < b.len() && distance_at(distances, a[p], b[q]) == e;
    assert forall|part: Set<usize>| #![trigger parts(whole, part)] parts(whole, part) implies bridged(
        distances,
        whole,
        part,
        d,
    ) by {
        if parts(a, part) {
            lemma_piece_bridged(distances, a, whole, 0, part, d);
        } else if parts(b, part) {
            assert forall|k: int| #![trigger b[k]] 0 <= k < b.len() implies whole[a.len() + k]
                == b[k] by {}
            lemma_piece_bridged(distances, b, whole, a.len() as int, part, d);
        } else {
            let r = choose|r: int| 0 <= r < whole.len() && part.contains(#[trigger] whole[r]);
            let s = choose|s: int| 0 <= s < whole.len() && !part.contains(#[trigger] whole[s]);
            assert(whole[p] == a[p]);
            assert(whole[a.len() + q] == b[q]);
            assert(distance_at(distances, b[q], a[p]) == distance_at(distances, a[p], b[q]));
            if r < a.len() {
                assert(a[r] == whole[r]);
                assert(part.contains(a[p]));
                if s < a.len() {
                    assert(a[s] == whole[s]);
                } else {
                    assert(b[s - a.len()] == whole[s]);
                }
                assert(!part.contains(b[q]));
                assert(distance_at(distances, whole[p], whole[a.len() + q]) <= d);
            } else {
                assert(b[r - a.len()] == whole[r]);
                assert(part.contains(b[q]));
                if s < a.len() {
                    assert(a[s] == whole[s]);
                } else {
                    assert(b[s - a.len()] == whole[s]);
                }
                assert(!part.contains(a[p]));
                assert(distance_at(distances, whole[a.len() + q], whole[p]) <= d);
            }
        }
    }
}

// Groups that hold together over gaps of some size still do so after merging, over gaps no
// larger than that size or the largest one bridged.
proof fn lemma_grouped_linked(clusters: Seq<Seq<usize>>, distances: Seq<Vec<u64>>, n: nat, d: u64)
    requires
        symmetric(distances, n),
        well_formed(clusters, n),
        all_linked(clusters, distances, d),
    ensures
        ({
            let w = widest_bridge(clusters, distances);
            all_linked(grouped(clusters, distances), distances, if d > w { d } else { w })
        }),
    decreases clusters.len(),
{
    let (i, j) = closest_pair_of(clusters, distances);
    if clusters.len() <= MAX_CLUSTERS {
    } else if is_closest_pair(clusters, distances, i, j) {
        let e = choose|e: u64| closest_at(clusters, distances, i, j, e);
        let f = if d > e { d } else { e };
        let m = merged(clusters, i, j);
        let last = clusters.len() - 1;
        assert forall|c: int| #![trigger m[c]] 0 <= c < m.len() implies linked(
            distances,
            m[c],
            f,
        ) by {
            if c == i {
                lemma_linked_wider(distances, clusters[i], d, f);
                lemma_linked_wider(distances, clusters[j], d, f);
                assert(meet_at(distances, clusters[i], clusters[j], e));
                lemma_joined_linked(distances, n, clusters[i], clusters[j], f);
                assert(m[c] == clusters[i] + clusters[j]);
            } else if c == j {
                assert(m[c] == clusters[last]);
                lemma_linked_wider(distances, clusters[last], d, f);
            } else {
                assert(m[c] == clusters[c]);
                lemma_linked_wider(distances, clusters[c], d, f);
            }
        }
        lemma_merged_well_formed(clusters, n, i, j);
        lemma_grouped_linked(m, distances, n, f);
    } else {
        let m = without_first(clusters);
        let last = clusters.len() - 1;
        assert forall|c: int| #![trigger m[c]] 0 <= c < m.len() implies linked(
            distances,
            m[c],
            d,
        ) by {
            if c == 0 {
                assert(m[c] == clusters[last]);
            } else {
                assert(m[c] == clusters[c]);
            }
        }
        lemma_rest_well_formed(clusters, n);
        lemma_grouped_linked(m, distances, n, d);
    }
}

// Whether two groups are apart does not depend on which comes first.
proof fn lemma_apart_either_way(distances: Seq<Vec<u64>>, n: nat, a: Seq<usize>, b: Seq<usize>, d: u64)
    requires
        symmetric(distances, n),
        members_below(a, n),
        members_below(b, n),
        apart_by(distances, a, b, d),
    ensures
        apart_by(distances, b, a, d),
{
    assert forall|p: int, q: int|
        #![trigger b[p], a[q]]
        0 <= p < b.len() && 0 <= q < a.len() implies distance_at(distances, b[p], a[q]) >= d by {
        assert(distance_at(distances, a[q], b[p]) >= d);
    }
}

// Two different groups are apart, whichever comes first.
proof fn lemma_pair_apart(clusters: Seq<Seq<usize>>, distances: Seq<Vec<u64>>, n: nat, d: u64, k: int, l: int)
    requires
        symmetric(distances, n),
        well_formed(clusters, n),
        all_apart(clusters, distances, d),
        0 <= k < clusters.len(),
        0 <= l < clusters.len(),
        k != l,
    ensures
        apart_by(distances, clusters[k], clusters[l], d),
{
    if k > l {
        assert(apart_by(distances, clusters[l], clusters[k], d));
        lemma_apart_either_way(distances, n, clusters[l], clusters[k], d);
    } else {
        assert(apart_by(distances, clusters[k], clusters[l], d));
    }
}

// Merging two groups brings none closer together.
proof fn lemma_merged_apart(clusters: Seq<Seq<usize>>, distances: Seq<Vec<u64>>, n: nat, d: u64, i: int, j: int)
    requires
        symmetric(distances, n),
        well_formed(clusters, n),
        all_apart(clusters, distances, d),
        0 <= i < j < clusters.len(),
    ensures
        all_apart(merged(clusters, i, j), distances, d),
{
    let m = merged(clusters, i, j);
    assert forall|k: int, l: int|
        #![trigger m[k], m[l]]
        0 <= k < l < m.len() implies apart_by(distances, m[k], m[l], d) by {
        assert forall|p: int, q: int|
            #![trigger m[k][p], m[l][q]]
            0 <= p < m[k].len() && 0 <= q < m[l].len() implies distance_at(
            distances,
            m[k][p],
            m[l][q],
        ) >= d by {
            let (k0, p0) = origin(clusters, i, j, k, p);
            let (l0, q0) = origin(clusters, i, j, l, q);
            assert(m[k][p] == clusters[k0][p0]);
            assert(m[l][q] == clusters[l0][q0]);
            lemma_pair_apart(clusters, distances, n, d, k0, l0);
        }
    }
}

// Groups that are apart stay so.
proof fn lemma_grouped_stays_apart(clusters: Seq<Seq<usize>>, distances: Seq<Vec<u64>>, n: nat, d: u64)
    requires
        symmetric(distances, n),
        well_formed(clusters, n),
        all_apart(clusters, distances, d),
    ensures
        all_apart(grouped(clusters, distances), distances, d),
    decreases clusters.len(),
{
    let (i, j) = closest_pair_of(clusters, distances);
    if clusters.len() <= MAX_CLUSTERS {
    } else if is_closest_pair(clusters, distances, i, j) {
        lemma_merged_apart(clusters, distances, n, d, i, j);
        lemma_merged_well_formed(clusters, n, i, j);
        lemma_grouped_stays_apart(merged(clusters, i, j), distances, n, d);
    } else {
        lemma_rest_apart(clusters, distances, n, d);
        lemma_rest_well_formed(clusters, n);
        lemma_grouped_stays_apart(without_first(clusters), distances, n, d);
    }
}

// Giving up the first group brings none closer together.
proof fn lemma_rest_apart(clusters: Seq<Seq<usize>>, distances: Seq<Vec<u64>>, n: nat, d: u64)
    requires
        symmetric(distances, n),
        well_formed(clusters, n),
        all_apart(clusters, distances, d),
        clusters.len() > 1,
    ensures
        all_apart(without_first(clusters), distances, d),
{
    let m = without_first(clusters);
    let last = clusters.len() - 1;
    assert forall|k: int, l: int|
        #![trigger m[k], m[l]]
        0 <= k < l < m.len() implies apart_by(distances, m[k], m[l], d) by {
        let k0 = if k == 0 { last } else { k };
        assert(m[k] == clusters[k0] && m[l] == clusters[l]);
        lemma_pair_apart(clusters, distances, n, d, k0, l);
    }
}

// The groups that come out are no closer than the largest gap bridged.
proof fn lemma_grouped_apart(clusters: Seq<Seq<usize>>, distances: Seq<Vec<u64>>, n: nat)
    requires
        symmetric(distances, n),
        well_formed(clusters, n),
    ensures
        all_apart(grouped(clusters, distances), distances, widest_bridge(clusters, distances)),
    decreases clusters.len(),
{
    let (i, j) = closest_pair_of(clusters, distances);
    if clusters.len() <= MAX_CLUSTERS {
    } else if is_closest_pair(clusters, distances, i, j) {
        let e = choose|e: u64| closest_at(clusters, distances, i, j, e);
        assert(all_apart(clusters, distances, e));
        lemma_merged_apart(clusters, distances, n, e, i, j);
        lemma_merged_well_formed(clusters, n, i, j);
        lemma_grouped_stays_apart(merged(clusters, i, j), distances, n, e);
        lemma_grouped_apart(merged(clusters, i, j), distances, n);
    } else {
        lemma_rest_well_formed(clusters, n);
        lemma_grouped_apart(without_first(clusters), distances, n);
    }
}

/// The two groups that are merged have two members less than the largest finite distance apart,
/// such that no two members of different groups are closer; and no earlier pair of groups has
/// members as close.
pub proof fn law_closest_groups_merge(clusters: Seq<Seq<usize>>, distances: Seq<Vec<u64>>, i: int, j: int)
    requires
        is_closest_pair(clusters, distances, i, j),
    ensures
        0 <= i < j < clusters.len(),
        exists|p: int, q: int|
            {
                let d = distances[#[trigger] clusters[i][p] as int]@[#[trigger] clusters[j][q] as int];
                &&& 0 <= p < clusters[i].len() && 0 <= q < clusters[j].len()
                &&& d < FARTHEST
                &&& forall|k: int, l: int, x: int, y: int|
                    #![trigger clusters[k][x], clusters[l][y]]
                    0 <= k < l < clusters.len() && 0 <= x < clusters[k].len() && 0 <= y
                        < clusters[l].len() ==> {
                        let other = distances[clusters[k][x] as int]@[clusters[l][y] as int];
                        d <= other && (k < i || (k == i && l < j) ==> d < other)
                    }
            },
{
    let d = choose|d: u64| closest_at(clusters, distances, i, j, d);
    assert(closest_at(clusters, distances, i, j, d));
    let a = clusters[i];
    let b = clusters[j];
    let (p, q) = choose|p: int, q: int|
        #![trigger a[p], b[q]]
        0 <= p < a.len() && 0 <= q < b.len() && distance_at(distances, a[p], b[q]) == d;
    assert(distances[clusters[i][p] as int]@[clusters[j][q] as int] == d);
    assert forall|k: int, l: int, x: int, y: int|
        #![trigger clusters[k][x], clusters[l][y]]
        0 <= k < l < clusters.len() && 0 <= x < clusters[k].len() && 0 <= y
            < clusters[l].len() implies {
        let other = distances[clusters[k][x] as int]@[clusters[l][y] as int];
        d <= other && (k < i || (k == i && l < j) ==> d < other)
    } by {
        let g = clusters[k];
        let h = clusters[l];
        assert(apart_by(distances, g, h, d));
        assert(distance_at(distances, g[x], h[y]) >= d);
        if k < i || (k == i && l < j) {
            assert(pair_before(k, l, i, j));
            assert(!meet_at(distances, g, h, d));
            if distance_at(distances, g[x], h[y]) == d {
                assert(meet_at(distances, g, h, d));
            }
        }
    }
}

/// Merging two groups leaves one fewer. The members of the second come behind those of the first
/// in its place, so that the first member of that group stays its first; the last group takes
/// the place of the second, and the others stay.
pub proof fn law_merging(clusters: Seq<Seq<usize>>, i: int, j: int)
    requires
        0 <= i < j < clusters.len(),
        clusters[i].len() > 0,
    ensures
        ({
            let after = merged(clusters, i, j);
            &&& after.len() + 1 == clusters.len()
            &&& after[i].len() == clusters[i].len() + clusters[j].len()
            &&& after[i][0] == clusters[i][0]
            &&& forall|p: int|
                0 <= p < clusters[i].len() ==> #[trigger] after[i][p] == clusters[i][p]
            &&& forall|q: int|
                #![trigger clusters[j][q]]
                0 <= q < clusters[j].len() ==> after[i][clusters[i].len() + q] == clusters[j][q]
            &&& j < after.len() ==> after[j] == clusters[clusters.len() - 1]
            &&& forall|c: int|
                0 <= c < after.len() && c != i && c != j ==> #[trigger] after[c] == clusters[c]
        }),
{
}

/// Merging ends with three groups. With no more to begin with, nothing is merged; a place alone
/// is a group.
pub proof fn law_three_groups_are_left(clusters: Seq<Seq<usize>>, distances: Seq<Vec<u64>>)
    ensures
        clusters.len() <= 3 ==> grouped(clusters, distances) == clusters,
        clusters.len() > 3 ==> grouped(clusters, distances).len() == 3,
        forall|n: nat, c: int|
            #![trigger singletons(n)[c]]
            0 <= c < n <= usize::MAX ==> singletons(n)[c].len() == 1 && singletons(n)[c][0] == c,
    decreases clusters.len(),
{
    if clusters.len() > 3 {
        let (i, j) = closest_pair_of(clusters, distances);
        if is_closest_pair(clusters, distances, i, j) {
            law_three_groups_are_left(merged(clusters, i, j), distances);
        } else {
            law_three_groups_are_left(without_first(clusters), distances);
        }
    }
}

/// As long as there are more than three groups, what comes out does not change when the closest
/// two are merged first; where no two groups are a finite distance apart, it does not change
/// when the first one is replaced by the last.
pub proof fn law_one_step_of_grouping(clusters: Seq<Seq<usize>>, distances: Seq<Vec<u64>>, i: int, j: int)
    requires
        clusters.len() > 3,
    ensures
        is_closest_pair(clusters, distances, i, j) ==> grouped(clusters, distances) == grouped(
            merged(clusters, i, j),
            distances,
        ),
        (forall|k: int, l: int| !is_closest_pair(clusters, distances, k, l)) ==> grouped(
            clusters,
            distances,
        ) == grouped(clusters.drop_last().update(0, clusters.last()), distances),
{
    if is_closest_pair(clusters, distances, i, j) {
        let (k, l) = closest_pair_of(clusters, distances);
        lemma_closest_pair_unique(clusters, distances, i, j, k, l);
    }
    assert(without_first(clusters) =~= clusters.drop_last().update(0, clusters.last()));
}

} // verus!
