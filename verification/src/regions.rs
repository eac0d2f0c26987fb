//! Regions and distances on the cell graph of a planet.
//!
//! The planet's cells are numbered `0..n`, and each cell names four
//! neighbours (left, right, down, up through the cube projection). Terrain
//! validation and the mowing locator ask two things of that graph: which
//! eligible cells hang together, and how many steps each cell lies from the
//! nearest rock.

use std::collections::VecDeque;
use vstd::prelude::*;

verus! {

/// `neighbors` names four neighbours for each of `count` cells, each of them
/// one of those cells.
pub open spec fn neighbor_table(neighbors: Seq<[usize; 4]>, count: nat) -> bool {
    &&& neighbors.len() == count
    &&& forall|i: int, k: int|
        0 <= i < count && 0 <= k < 4 ==> #[trigger] neighbors[i][k] < count
}

/// Whenever `b` is a neighbour of `a`, `a` is a neighbour of `b`.
pub open spec fn mutual(neighbors: Seq<[usize; 4]>) -> bool {
    forall|a: int, k: int|
        #![trigger neighbors[neighbors[a][k] as int]]
        0 <= a < neighbors.len() && 0 <= k < 4 ==> exists|j: int|
            0 <= j < 4 && #[trigger] neighbors[neighbors[a][k] as int][j] == a
}

/// The member lists of some regions, as sequences.
pub open spec fn region_views(regions: Seq<Vec<usize>>) -> Seq<Seq<usize>> {
    regions.map_values(|members: Vec<usize>| members@)
}

/// Every member of a region is an eligible cell, every eligible cell lies in
/// some region, and no cell is listed twice.
pub open spec fn covers_exactly(rs: Seq<Seq<usize>>, eligible: Seq<bool>) -> bool {
    &&& forall|r: int, p: int|
        0 <= r < rs.len() && 0 <= p < rs[r].len() ==> (#[trigger] rs[r][p]) < eligible.len()
            && eligible[rs[r][p] as int]
    &&& forall|i: int|
        0 <= i < eligible.len() && #[trigger] eligible[i] ==> exists|r: int, p: int|
            0 <= r < rs.len() && 0 <= p < rs[r].len() && #[trigger] rs[r][p] == i
    &&& forall|r1: int, p1: int, r2: int, p2: int|
        0 <= r1 < rs.len() && 0 <= p1 < rs[r1].len() && 0 <= r2 < rs.len() && 0 <= p2
            < rs[r2].len() && #[trigger] rs[r1][p1] == #[trigger] rs[r2][p2] ==> r1 == r2 && p1
            == p2
}

/// Each region is non-empty and grows from its first cell: every later
/// member is a neighbour of an earlier one.
pub open spec fn grown_from_first(rs: Seq<Seq<usize>>, neighbors: Seq<[usize; 4]>) -> bool {
    &&& forall|r: int| 0 <= r < rs.len() ==> #[trigger] rs[r].len() > 0
    &&& forall|r: int, p: int|
        0 <= r < rs.len() && 0 < p < rs[r].len() ==> #[trigger] has_finder(rs, neighbors, r, p)
}

/// Member `p` of region `r` is a neighbour of an earlier member.
pub open spec fn has_finder(rs: Seq<Seq<usize>>, neighbors: Seq<[usize; 4]>, r: int, p: int) -> bool {
    exists|q: int, k: int| #[trigger] found_by(rs, neighbors, r, p, q, k)
}

/// Member `p` of region `r` is neighbour `k` of the earlier member `q`.
pub open spec fn found_by(
    rs: Seq<Seq<usize>>,
    neighbors: Seq<[usize; 4]>,
    r: int,
    p: int,
    q: int,
    k: int,
) -> bool {
    0 <= q < p && 0 <= k < 4 && neighbors[rs[r][q] as int][k] == rs[r][p]
}

/// An eligible neighbour of a member of a region lies in that region or in
/// an earlier one.
pub open spec fn closed_up_to(
    rs: Seq<Seq<usize>>,
    eligible: Seq<bool>,
    neighbors: Seq<[usize; 4]>,
) -> bool {
    forall|r: int, p: int, k: int|
        #![trigger neighbors[rs[r][p] as int][k]]
        0 <= r < rs.len() && 0 <= p < rs[r].len() && 0 <= k < 4 && eligible[neighbors[rs[r][p] as int][k] as int]
            ==> exists|r2: int, p2: int|
            0 <= r2 <= r && 0 <= p2 < rs[r2].len() && #[trigger] rs[r2][p2]
                == neighbors[rs[r][p] as int][k]
}

/// Each region's first cell is its smallest, and first cells increase from
/// one region to the next.
pub open spec fn seeded_in_order(rs: Seq<Seq<usize>>) -> bool {
    &&& forall|r: int, p: int|
        0 <= r < rs.len() && 0 <= p < rs[r].len() ==> rs[r][0] <= #[trigger] rs[r][p]
    &&& forall|r1: int, r2: int|
        0 <= r1 < r2 < rs.len() ==> #[trigger] rs[r1][0] < #[trigger] rs[r2][0]
}

/// Neighbour slot `k1` of member `q1` is visited before slot `k2` of member
/// `q2`: an earlier member, or the same member and an earlier slot.
pub open spec fn slot_before(q1: int, k1: int, q2: int, k2: int) -> bool {
    q1 < q2 || (q1 == q2 && k1 < k2)
}

/// Breadth-first order: of two later members of a region, the one listed
/// first was found first; every slot that finds the second comes after
/// some slot that finds the first.
pub open spec fn in_discovery_order(rs: Seq<Seq<usize>>, neighbors: Seq<[usize; 4]>) -> bool {
    forall|r: int, p1: int, p2: int, q2: int, k2: int|
        #![trigger found_by(rs, neighbors, r, p2, q2, k2), found_before(rs, neighbors, r, p1, q2, k2)]
        0 <= r < rs.len() && 0 < p1 < p2 < rs[r].len() && found_by(rs, neighbors, r, p2, q2, k2)
            ==> found_before(rs, neighbors, r, p1, q2, k2)
}

/// Member `p` of region `r` is found by a slot visited before slot `k` of
/// member `q`.
pub open spec fn found_before(
    rs: Seq<Seq<usize>>,
    neighbors: Seq<[usize; 4]>,
    r: int,
    p: int,
    q: int,
    k: int,
) -> bool {
    exists|q1: int, k1: int| #[trigger] found_by(rs, neighbors, r, p, q1, k1) && slot_before(q1, k1, q, k)
}

/// What the region search returns: the connected regions of the eligible
/// cells, each listed breadth-first from its smallest cell, in order of
/// those cells.
pub open spec fn are_regions_of(
    rs: Seq<Seq<usize>>,
    eligible: Seq<bool>,
    neighbors: Seq<[usize; 4]>,
) -> bool {
    &&& covers_exactly(rs, eligible)
    &&& grown_from_first(rs, neighbors)
    &&& closed_up_to(rs, eligible, neighbors)
    &&& seeded_in_order(rs)
    &&& in_discovery_order(rs, neighbors)
}

spec fn unvisited(s: Seq<bool>) -> nat
    decreases s.len(),
{
    if s.len() == 0 {
        0
    } else {
        unvisited(s.drop_last()) + if s.last() {
            0nat
        } else {
            1nat
        }
    }
}

proof fn lemma_unvisited_mark(s: Seq<bool>, j: int)
    requires
        0 <= j < s.len(),
        !s[j],
    ensures
        unvisited(s.update(j, true)) + 1 == unvisited(s),
    decreases s.len(),
{
    if j == s.len() - 1 {
        assert(s.update(j, true).drop_last() =~= s.drop_last());
    } else {
        lemma_unvisited_mark(s.drop_last(), j);
        assert(s.update(j, true).drop_last() =~= s.drop_last().update(j, true));
    }
}

/// The bookkeeping of the region search: where each visited cell was put
/// (`owner`, `pos`) and which earlier member found it (`pq`, `pk`).
spec fn recorded(
    rs: Seq<Seq<usize>>,
    eligible: Seq<bool>,
    neighbors: Seq<[usize; 4]>,
    visited: Seq<bool>,
    owner: Seq<int>,
    pos: Seq<int>,
    pq: Seq<int>,
    pk: Seq<int>,
) -> bool {
    let n = eligible.len();
    &&& visited.len() == n && owner.len() == n && pos.len() == n && pq.len() == n && pk.len() == n
    &&& forall|r: int, p: int|
        #![trigger rs[r][p]]
        0 <= r < rs.len() && 0 <= p < rs[r].len() ==> rs[r][p] < n && visited[rs[r][p] as int]
            && owner[rs[r][p] as int] == r && pos[rs[r][p] as int] == p
    &&& forall|i: int|
        #![trigger visited[i]]
        0 <= i < n && visited[i] ==> eligible[i] && 0 <= owner[i] < rs.len() && 0 <= pos[i]
            < rs[owner[i]].len() && rs[owner[i]][pos[i]] == i
    &&& forall|r: int| 0 <= r < rs.len() ==> #[trigger] rs[r].len() > 0
    &&& forall|r: int, p: int|
        #![trigger rs[r][p]]
        0 <= r < rs.len() && 0 < p < rs[r].len() ==> 0 <= pq[rs[r][p] as int] < p && 0
            <= pk[rs[r][p] as int] < 4 && neighbors[rs[r][pq[rs[r][p] as int]] as int][pk[rs[r][p] as int]]
            == rs[r][p]
    &&& forall|r: int, p1: int, p2: int|
        #![trigger rs[r][p1], rs[r][p2]]
        0 <= r < rs.len() && 0 < p1 < p2 < rs[r].len() ==> slot_before(
            pq[rs[r][p1] as int],
            pk[rs[r][p1] as int],
            pq[rs[r][p2] as int],
            pk[rs[r][p2] as int],
        )
    &&& seeded_in_order(rs)
}

/// Members `0..upto` of region `r` have all their eligible neighbours
/// visited, in region `r` or an earlier one; a neighbour in region `r` was
/// found no later than by that slot.
spec fn closed_through(
    rs: Seq<Seq<usize>>,
    eligible: Seq<bool>,
    neighbors: Seq<[usize; 4]>,
    visited: Seq<bool>,
    owner: Seq<int>,
    pos: Seq<int>,
    pq: Seq<int>,
    pk: Seq<int>,
    r: int,
    upto: int,
) -> bool {
    forall|p: int, k: int|
        #![trigger neighbors[rs[r][p] as int][k]]
        0 <= p < upto && 0 <= k < 4 && eligible[neighbors[rs[r][p] as int][k] as int] ==> {
            let x = neighbors[rs[r][p] as int][k] as int;
            &&& visited[x]
            &&& owner[x] <= r
            &&& owner[x] == r && pos[x] > 0 ==> !slot_before(p, k, pq[x], pk[x])
        }
}

proof fn lemma_record_discovery(
    before: Seq<Seq<usize>>,
    members: Seq<usize>,
    eligible: Seq<bool>,
    neighbors: Seq<[usize; 4]>,
    visited: Seq<bool>,
    owner: Seq<int>,
    pos: Seq<int>,
    pq: Seq<int>,
    pk: Seq<int>,
    head: int,
    k: int,
    next: usize,
)
    requires
        recorded(before.push(members), eligible, neighbors, visited, owner, pos, pq, pk),
        0 <= head < members.len(),
        0 <= k < 4,
        next < eligible.len(),
        neighbors[members[head] as int][k] == next,
        !visited[next as int],
        eligible[next as int],
        members[0] <= next,
        forall|p: int|
            0 < p < members.len() ==> slot_before(
                pq[#[trigger] members[p] as int],
                pk[members[p] as int],
                head,
                k,
            ),
    ensures
        recorded(
            before.push(members.push(next)),
            eligible,
            neighbors,
            visited.update(next as int, true),
            owner.update(next as int, before.len() as int),
            pos.update(next as int, members.len() as int),
            pq.update(next as int, head),
            pk.update(next as int, k),
        ),
{
    let c = before.len() as int;
    let old_rs = before.push(members);
    let rs = before.push(members.push(next));
    let n = eligible.len();
    let visited2 = visited.update(next as int, true);
    let owner2 = owner.update(next as int, c);
    let pos2 = pos.update(next as int, members.len() as int);
    let pq2 = pq.update(next as int, head);
    let pk2 = pk.update(next as int, k);
    assert(old_rs[c] == members);
    assert(rs[c] == members.push(next));
    assert forall|r: int, p: int| 0 <= r < rs.len() && 0 <= p < rs[r].len() && !(r == c && p == members.len())
        implies #[trigger] rs[r][p] == old_rs[r][p] && rs[r][p] != next by {
        if r < c {
            assert(rs[r] == old_rs[r]);
        } else {
            assert(rs[r][p] == members[p]);
        }
        assert(visited[old_rs[r][p] as int]);
    }
    assert(rs[c][members.len() as int] == next);
    assert forall|r: int, p: int|
        #![trigger rs[r][p]]
        0 <= r < rs.len() && 0 <= p < rs[r].len() implies rs[r][p] < n && visited2[rs[r][p] as int]
            && owner2[rs[r][p] as int] == r && pos2[rs[r][p] as int] == p by {
        if !(r == c && p == members.len()) {
            assert(old_rs[r][p] == rs[r][p]);
        }
    }
    assert forall|i: int|
        #![trigger visited2[i]]
        0 <= i < n && visited2[i] implies eligible[i] && 0 <= owner2[i] < rs.len() && 0 <= pos2[i]
            < rs[owner2[i]].len() && rs[owner2[i]][pos2[i]] == i by {
        if i != next {
            assert(visited[i]);
            assert(old_rs[owner[i]][pos[i]] == i);
            assert(rs[owner[i]][pos[i]] == old_rs[owner[i]][pos[i]]);
        }
    }
    assert forall|r: int| 0 <= r < rs.len() implies #[trigger] rs[r].len() > 0 by {
        if r < c {
            assert(rs[r] == old_rs[r]);
        }
    }
    assert forall|r: int, p: int|
        #![trigger rs[r][p]]
        0 <= r < rs.len() && 0 < p < rs[r].len() implies 0 <= pq2[rs[r][p] as int] < p && 0
            <= pk2[rs[r][p] as int] < 4 && neighbors[rs[r][pq2[rs[r][p] as int]] as int][pk2[rs[r][p] as int]]
            == rs[r][p] by {
        if r == c && p == members.len() {
            assert(rs[c][head] == members[head]);
        } else {
            assert(old_rs[r][p] == rs[r][p]);
            let q = pq[rs[r][p] as int];
            assert(old_rs[r][q] == rs[r][q]);
        }
    }
    assert forall|r: int, p: int|
        0 <= r < rs.len() && 0 <= p < rs[r].len() implies rs[r][0] <= #[trigger] rs[r][p] by {
        assert(old_rs[r][0] == rs[r][0]);
        if !(r == c && p == members.len()) {
            assert(old_rs[r][p] == rs[r][p]);
        }
    }
    assert forall|r1: int, r2: int| 0 <= r1 < r2 < rs.len() implies #[trigger] rs[r1][0] < #[trigger] rs[r2][0] by {
        assert(old_rs[r1][0] == rs[r1][0]);
        assert(old_rs[r2][0] == rs[r2][0]);
    }
    assert forall|r: int, p1: int, p2: int|
        #![trigger rs[r][p1], rs[r][p2]]
        0 <= r < rs.len() && 0 < p1 < p2 < rs[r].len() implies slot_before(
            pq2[rs[r][p1] as int],
            pk2[rs[r][p1] as int],
            pq2[rs[r][p2] as int],
            pk2[rs[r][p2] as int],
        ) by {
        assert(old_rs[r][p1] == rs[r][p1]);
        if r == c && p2 == members.len() {
            assert(members[p1] == rs[r][p1]);
        } else {
            assert(old_rs[r][p2] == rs[r][p2]);
        }
    }
}

proof fn lemma_regions_complete(
    rs: Seq<Seq<usize>>,
    eligible: Seq<bool>,
    neighbors: Seq<[usize; 4]>,
    visited: Seq<bool>,
    owner: Seq<int>,
    pos: Seq<int>,
    pq: Seq<int>,
    pk: Seq<int>,
)
    requires
        neighbor_table(neighbors, eligible.len()),
        recorded(rs, eligible, neighbors, visited, owner, pos, pq, pk),
        forall|r: int|
            0 <= r < rs.len() ==> closed_through(rs, eligible, neighbors, visited, owner, pos, pq, pk, r, rs[r].len() as int),
        forall|i: int| 0 <= i < eligible.len() && #[trigger] eligible[i] ==> visited[i],
    ensures
        are_regions_of(rs, eligible, neighbors),
{
    let n = eligible.len();
    assert forall|r: int, p: int|
        0 <= r < rs.len() && 0 <= p < rs[r].len() implies (#[trigger] rs[r][p]) < n
            && eligible[rs[r][p] as int] by {
        assert(visited[rs[r][p] as int]);
    }
    assert forall|i: int|
        0 <= i < n && #[trigger] eligible[i] implies exists|r: int, p: int|
            0 <= r < rs.len() && 0 <= p < rs[r].len() && #[trigger] rs[r][p] == i by {
        assert(visited[i]);
        assert(rs[owner[i]][pos[i]] == i);
    }
    assert forall|r1: int, p1: int, r2: int, p2: int|
        0 <= r1 < rs.len() && 0 <= p1 < rs[r1].len() && 0 <= r2 < rs.len() && 0 <= p2
            < rs[r2].len() && #[trigger] rs[r1][p1] == #[trigger] rs[r2][p2] implies r1 == r2 && p1
            == p2 by {
    }
    assert forall|r: int, p: int|
        0 <= r < rs.len() && 0 < p < rs[r].len() implies #[trigger] has_finder(rs, neighbors, r, p) by {
        assert(found_by(rs, neighbors, r, p, pq[rs[r][p] as int], pk[rs[r][p] as int]));
    }
    assert forall|r: int, p: int, k: int|
        #![trigger neighbors[rs[r][p] as int][k]]
        0 <= r < rs.len() && 0 <= p < rs[r].len() && 0 <= k < 4 && eligible[neighbors[rs[r][p] as int][k] as int]
            implies exists|r2: int, p2: int|
            0 <= r2 <= r && 0 <= p2 < rs[r2].len() && #[trigger] rs[r2][p2]
                == neighbors[rs[r][p] as int][k] by {
        assert(closed_through(rs, eligible, neighbors, visited, owner, pos, pq, pk, r, rs[r].len() as int));
        let nb = neighbors[rs[r][p] as int][k] as int;
        assert(visited[nb]);
        assert(rs[owner[nb]][pos[nb]] == nb);
    }
    assert forall|r: int, p1: int, p2: int, q2: int, k2: int|
        #![trigger found_by(rs, neighbors, r, p2, q2, k2), found_before(rs, neighbors, r, p1, q2, k2)]
        0 <= r < rs.len() && 0 < p1 < p2 < rs[r].len() && found_by(rs, neighbors, r, p2, q2, k2)
            implies found_before(rs, neighbors, r, p1, q2, k2) by {
        let x = rs[r][p2] as int;
        assert(closed_through(rs, eligible, neighbors, visited, owner, pos, pq, pk, r, rs[r].len() as int));
        assert(neighbors[rs[r][q2] as int][k2] == rs[r][p2]);
        assert(eligible[x]);
        assert(owner[x] == r && pos[x] == p2);
        let q1 = pq[rs[r][p1] as int];
        let k1 = pk[rs[r][p1] as int];
        assert(found_by(rs, neighbors, r, p1, q1, k1));
    }
    assert(covers_exactly(rs, eligible));
    assert(grown_from_first(rs, neighbors));
    assert(closed_up_to(rs, eligible, neighbors));
    assert(seeded_in_order(rs));
    assert(in_discovery_order(rs, neighbors));
}

/// The connected regions of the eligible cells, found breadth-first from
/// each not yet visited eligible cell in index order. No other list meets
/// this contract; see [`law_regions_are_unique`].
pub fn connected_regions(eligible: &[bool], neighbors: &[[usize; 4]]) -> (regions: Vec<Vec<usize>>)
    requires
        neighbor_table(neighbors@, eligible@.len()),
    ensures
        are_regions_of(region_views(regions@), eligible@, neighbors@),
{
    let n = eligible.len();
    let mut visited: Vec<bool> = vec![false; n];
    let mut regions: Vec<Vec<usize>> = Vec::new();
    let ghost mut owner: Seq<int> = Seq::new(n as nat, |i: int| -1);
    let ghost mut pos: Seq<int> = Seq::new(n as nat, |i: int| -1);
    let ghost mut pq: Seq<int> = Seq::new(n as nat, |i: int| -1);
    let ghost mut pk: Seq<int> = Seq::new(n as nat, |i: int| -1);
    let mut start: usize = 0;
    while start < n
        invariant
            n == eligible@.len(),
            neighbor_table(neighbors@, n as nat),
            start <= n,
            recorded(region_views(regions@), eligible@, neighbors@, visited@, owner, pos, pq, pk),
            forall|r: int|
                0 <= r < regions@.len() ==> closed_through(
                    region_views(regions@),
                    eligible@,
                    neighbors@,
                    visited@,
                    owner,
                    pos,
                    pq,
                    pk,
                    r,
                    region_views(regions@)[r].len() as int,
                ),
            forall|i: int| 0 <= i < start && #[trigger] eligible@[i] ==> visited@[i],
            forall|r: int| 0 <= r < regions@.len() ==> #[trigger] region_views(regions@)[r][0] < start,
        decreases n - start,
    {
        if !visited[start] && eligible[start] {
            let ghost before = region_views(regions@);
            let ghost c = before.len() as int;
            proof {
                lemma_unvisited_mark(visited@, start as int);
            }
            visited.set(start, true);
            proof {
                owner = owner.update(start as int, c);
                pos = pos.update(start as int, 0);
            }
            let mut members: Vec<usize> = Vec::new();
            members.push(start);
            let ghost base = unvisited(visited@) + 1;
            let mut head: usize = 0;
            while head < members.len()
                invariant
                    n == eligible@.len(),
                    neighbor_table(neighbors@, n as nat),
                    start < n,
                    before == region_views(regions@),
                    c == before.len(),
                    head <= members@.len(),
                    members@.len() > 0,
                    members@[0] == start,
                    unvisited(visited@) + members@.len() == base,
                    recorded(before.push(members@), eligible@, neighbors@, visited@, owner, pos, pq, pk),
                    forall|r: int|
                        0 <= r < c ==> closed_through(
                            before.push(members@),
                            eligible@,
                            neighbors@,
                            visited@,
                            owner,
                            pos,
                            pq,
                            pk,
                            r,
                            before[r].len() as int,
                        ),
                    closed_through(before.push(members@), eligible@, neighbors@, visited@, owner, pos, pq, pk, c, head as int),
                    forall|p: int|
                        0 < p < members@.len() ==> pq[#[trigger] members@[p] as int] < head,
                    forall|i: int| 0 <= i < start && #[trigger] eligible@[i] ==> visited@[i],
                    forall|r: int| 0 <= r < c ==> #[trigger] before[r][0] < start,
                decreases base - head,
            {
                let current = members[head];
                proof {
                    let rs = before.push(members@);
                    assert(rs[c] == members@);
                    assert(rs[c][head as int] == members@[head as int]);
                }
                let row = neighbors[current];
                let mut k: usize = 0;
                while k < 4
                    invariant
                        n == eligible@.len(),
                        neighbor_table(neighbors@, n as nat),
                        start < n,
                        before == region_views(regions@),
                        c == before.len(),
                        head < members@.len(),
                        current == members@[head as int],
                        current < n,
                        row == neighbors@[current as int],
                        k <= 4,
                        members@[0] == start,
                        unvisited(visited@) + members@.len() == base,
                        recorded(before.push(members@), eligible@, neighbors@, visited@, owner, pos, pq, pk),
                        forall|r: int|
                            0 <= r < c ==> closed_through(
                                before.push(members@),
                                eligible@,
                                neighbors@,
                                visited@,
                                owner,
                                pos,
                                pq,
                                pk,
                                r,
                                before[r].len() as int,
                            ),
                        closed_through(before.push(members@), eligible@, neighbors@, visited@, owner, pos, pq, pk, c, head as int),
                        forall|j: int|
                            0 <= j < k && eligible@[neighbors@[current as int][j] as int] ==> {
                                let x = #[trigger] neighbors@[current as int][j] as int;
                                &&& visited@[x]
                                &&& owner[x] <= c
                                &&& owner[x] == c && pos[x] > 0 ==> !slot_before(head as int, j, pq[x], pk[x])
                            },
                        forall|p: int|
                            0 < p < members@.len() ==> slot_before(
                                pq[#[trigger] members@[p] as int],
                                pk[members@[p] as int],
                                head as int,
                                k as int,
                            ),
                        forall|i: int| 0 <= i < start && #[trigger] eligible@[i] ==> visited@[i],
                        forall|r: int| 0 <= r < c ==> #[trigger] before[r][0] < start,
                    decreases 4 - k,
                {
                    let next = row[k];
                    assert(next == neighbors@[current as int][k as int]);
                    if !visited[next] && eligible[next] {
                        proof {
                            lemma_unvisited_mark(visited@, next as int);
                            lemma_record_discovery(
                                before,
                                members@,
                                eligible@,
                                neighbors@,
                                visited@,
                                owner,
                                pos,
                                pq,
                                pk,
                                head as int,
                                k as int,
                                next,
                            );
                        }
                        visited.set(next, true);
                        proof {
                            owner = owner.update(next as int, c);
                            pos = pos.update(next as int, members@.len() as int);
                            pq = pq.update(next as int, head as int);
                            pk = pk.update(next as int, k as int);
                        }
                        members.push(next);
                        proof {
                            let rs = before.push(members@);
                            assert(rs[c] == members@);
                            assert forall|p: int| 0 < p < members@.len() implies slot_before(
                                pq[#[trigger] members@[p] as int],
                                pk[members@[p] as int],
                                head as int,
                                k as int + 1,
                            ) by {
                                assert(rs[c][p] == members@[p]);
                            }
                        }
                    }
                    k = k + 1;
                }
                head = head + 1;
            }
            regions.push(members);
            proof {
                assert(region_views(regions@) =~= before.push(members@));
                assert(region_views(regions@)[c][0] == start);
            }
        }
        start = start + 1;
    }
    proof {
        lemma_regions_complete(region_views(regions@), eligible@, neighbors@, visited@, owner, pos, pq, pk);
    }
    regions
}

/// The grass cells that keep at least `minimum` steps from rock.
pub open spec fn clear_grass(grass: Seq<bool>, clearance: Seq<u16>, minimum: u16) -> Seq<bool> {
    Seq::new(grass.len(), |i: int| grass[i] && clearance[i] >= minimum)
}

/// The regions that grass keeps once every cell closer than
/// `minimum_clearance` steps to rock is taken away: the cores of the
/// passes between mountains.
pub fn grass_clearance_components(
    grass: &[bool],
    clearance: &[u16],
    minimum_clearance: u16,
    neighbors: &[[usize; 4]],
) -> (regions: Vec<Vec<usize>>)
    requires
        clearance@.len() == grass@.len(),
        neighbor_table(neighbors@, grass@.len()),
    ensures
        are_regions_of(
            region_views(regions@),
            clear_grass(grass@, clearance@, minimum_clearance),
            neighbors@,
        ),
{
    let mut eligible: Vec<bool> = Vec::new();
    let mut i: usize = 0;
    while i < grass.len()
        invariant
            i <= grass@.len(),
            clearance@.len() == grass@.len(),
            eligible@ == clear_grass(grass@, clearance@, minimum_clearance).take(i as int),
        decreases grass@.len() - i,
    {
        eligible.push(grass[i] && clearance[i] >= minimum_clearance);
        i = i + 1;
    }
    assert(eligible@ == clear_grass(grass@, clearance@, minimum_clearance));
    connected_regions(eligible.as_slice(), neighbors)
}

/// Both lists are regions of the same cells; kept opaque so that the
/// uniqueness proof unfolds it only where it needs to.
#[verifier::opaque]
spec fn both_regions(
    rs1: Seq<Seq<usize>>,
    rs2: Seq<Seq<usize>>,
    eligible: Seq<bool>,
    neighbors: Seq<[usize; 4]>,
) -> bool {
    are_regions_of(rs1, eligible, neighbors) && are_regions_of(rs2, eligible, neighbors)
}

proof fn lemma_both_regions_swap(
    rs1: Seq<Seq<usize>>,
    rs2: Seq<Seq<usize>>,
    eligible: Seq<bool>,
    neighbors: Seq<[usize; 4]>,
)
    requires
        both_regions(rs1, rs2, eligible, neighbors),
    ensures
        both_regions(rs2, rs1, eligible, neighbors),
{
    reveal(both_regions);
}

proof fn lemma_region_distinct(
    rs1: Seq<Seq<usize>>,
    rs2: Seq<Seq<usize>>,
    eligible: Seq<bool>,
    neighbors: Seq<[usize; 4]>,
    r: int,
    i: int,
    j: int,
)
    requires
        both_regions(rs1, rs2, eligible, neighbors),
        0 <= r < rs1.len(),
        0 <= i < rs1[r].len(),
        0 <= j < rs1[r].len(),
        i != j,
    ensures
        rs1[r][i] != rs1[r][j],
{
    reveal(both_regions);
}

proof fn lemma_region_found(
    rs1: Seq<Seq<usize>>,
    rs2: Seq<Seq<usize>>,
    eligible: Seq<bool>,
    neighbors: Seq<[usize; 4]>,
    r: int,
    p: int,
)
    requires
        both_regions(rs1, rs2, eligible, neighbors),
        0 <= r < rs1.len(),
        0 < p < rs1[r].len(),
    ensures
        has_finder(rs1, neighbors, r, p),
{
    reveal(both_regions);
}

proof fn lemma_region_seeds_agree(
    rs1: Seq<Seq<usize>>,
    rs2: Seq<Seq<usize>>,
    eligible: Seq<bool>,
    neighbors: Seq<[usize; 4]>,
    r: int,
)
    requires
        both_regions(rs1, rs2, eligible, neighbors),
        0 <= r < rs1.len(),
        r < rs2.len(),
        forall|t: int| 0 <= t < r ==> rs1[t] == rs2[t],
    ensures
        rs1[r][0] == rs2[r][0],
{
    reveal(both_regions);
    assert(rs1[r].len() > 0 && rs2[r].len() > 0);
    let s1 = rs1[r][0];
    let s2 = rs2[r][0];
    if s1 < s2 {
        assert(eligible[s1 as int]);
        let (r2, p2) = choose|r2: int, p2: int|
            0 <= r2 < rs2.len() && 0 <= p2 < rs2[r2].len() && #[trigger] rs2[r2][p2] == s1;
        if r2 < r {
            assert(rs1[r2][p2] == rs2[r2][p2]);
        } else if r2 > r {
            assert(rs2[r2][0] <= rs2[r2][p2]);
            assert(rs2[r][0] < rs2[r2][0]);
        }
    } else if s2 < s1 {
        assert(eligible[s2 as int]);
        let (r1, p1) = choose|r1: int, p1: int|
            0 <= r1 < rs1.len() && 0 <= p1 < rs1[r1].len() && #[trigger] rs1[r1][p1] == s2;
        if r1 < r {
            assert(rs2[r1][p1] == rs1[r1][p1]);
        } else if r1 > r {
            assert(rs1[r1][0] <= rs1[r1][p1]);
            assert(rs1[r][0] < rs1[r1][0]);
        }
    }
}

proof fn lemma_region_member_listed(
    rs1: Seq<Seq<usize>>,
    rs2: Seq<Seq<usize>>,
    eligible: Seq<bool>,
    neighbors: Seq<[usize; 4]>,
    r: int,
    p: int,
)
    requires
        both_regions(rs1, rs2, eligible, neighbors),
        0 <= r < rs1.len(),
        r < rs2.len(),
        forall|t: int| 0 <= t < r ==> rs1[t] == rs2[t],
        rs1[r][0] == rs2[r][0],
        0 <= p < rs1[r].len(),
    ensures
        exists|j: int| 0 <= j < rs2[r].len() && #[trigger] rs2[r][j] == rs1[r][p],
    decreases p,
{
    reveal(both_regions);
    assert(rs2[r].len() > 0);
    if p == 0 {
        assert(rs2[r][0] == rs1[r][0]);
    } else {
        assert(has_finder(rs1, neighbors, r, p));
        let (q, k) = choose|q: int, k: int| #[trigger] found_by(rs1, neighbors, r, p, q, k);
        lemma_region_member_listed(rs1, rs2, eligible, neighbors, r, q);
        let j = choose|j: int| 0 <= j < rs2[r].len() && #[trigger] rs2[r][j] == rs1[r][q];
        let x = rs1[r][p];
        assert(eligible[x as int]);
        assert(neighbors[rs2[r][j] as int][k] == x);
        let (r2, p2) = choose|r2: int, p2: int|
            0 <= r2 <= r && 0 <= p2 < rs2[r2].len() && #[trigger] rs2[r2][p2]
                == neighbors[rs2[r][j] as int][k];
        if r2 < r {
            assert(rs1[r2][p2] == rs2[r2][p2]);
        }
        assert(rs2[r][p2] == rs1[r][p]);
    }
}

proof fn lemma_region_descent(
    rs1: Seq<Seq<usize>>,
    rs2: Seq<Seq<usize>>,
    eligible: Seq<bool>,
    neighbors: Seq<[usize; 4]>,
    r: int,
    p: int,
    px: int,
    py: int,
    q: int,
    k: int,
)
    requires
        both_regions(rs1, rs2, eligible, neighbors),
        0 <= r < rs1.len(),
        r < rs2.len(),
        0 < p < px < rs2[r].len(),
        p < py < rs1[r].len(),
        forall|i: int| 0 <= i < p ==> rs1[r][i] == rs2[r][i],
        rs2[r][px] == rs1[r][p],
        rs1[r][py] == rs2[r][p],
        0 <= q < p,
        0 <= k < 4,
        neighbors[rs2[r][q] as int][k] == rs2[r][p],
    ensures
        rs1[r][p] == rs2[r][p],
    decreases 4 * q + k,
{
    reveal(both_regions);
    assert(rs1[r][q] == rs2[r][q]);
    assert(found_by(rs1, neighbors, r, py, q, k));
    assert(found_before(rs1, neighbors, r, p, q, k));
    let (q1, k1) = choose|q1: int, k1: int|
        #[trigger] found_by(rs1, neighbors, r, p, q1, k1) && slot_before(q1, k1, q, k);
    assert(rs1[r][q1] == rs2[r][q1]);
    assert(found_by(rs2, neighbors, r, px, q1, k1));
    assert(found_before(rs2, neighbors, r, p, q1, k1));
    let (q3, k3) = choose|q3: int, k3: int|
        #[trigger] found_by(rs2, neighbors, r, p, q3, k3) && slot_before(q3, k3, q1, k1);
    lemma_region_descent(rs1, rs2, eligible, neighbors, r, p, px, py, q3, k3);
}

proof fn lemma_region_agree_before(
    rs1: Seq<Seq<usize>>,
    rs2: Seq<Seq<usize>>,
    eligible: Seq<bool>,
    neighbors: Seq<[usize; 4]>,
    r: int,
    p: int,
)
    requires
        both_regions(rs1, rs2, eligible, neighbors),
        0 <= r < rs1.len(),
        r < rs2.len(),
        forall|t: int| 0 <= t < r ==> rs1[t] == rs2[t],
        rs1[r][0] == rs2[r][0],
        0 <= p <= rs1[r].len(),
        p <= rs2[r].len(),
    ensures
        forall|i: int| 0 <= i < p ==> rs1[r][i] == rs2[r][i],
    decreases p,
{
    if p > 0 {
        let last = p - 1;
        lemma_region_agree_before(rs1, rs2, eligible, neighbors, r, last);
        if last > 0 && rs1[r][last] != rs2[r][last] {
            lemma_region_member_listed(rs1, rs2, eligible, neighbors, r, last);
            lemma_both_regions_swap(rs1, rs2, eligible, neighbors);
            lemma_region_member_listed(rs2, rs1, eligible, neighbors, r, last);
            let px = choose|px: int| 0 <= px < rs2[r].len() && #[trigger] rs2[r][px] == rs1[r][last];
            let py = choose|py: int| 0 <= py < rs1[r].len() && #[trigger] rs1[r][py] == rs2[r][last];
            if px < last {
                assert(rs1[r][px] == rs2[r][px]);
                lemma_region_distinct(rs1, rs2, eligible, neighbors, r, px, last);
            }
            if py < last {
                assert(rs1[r][py] == rs2[r][py]);
                lemma_region_distinct(rs2, rs1, eligible, neighbors, r, py, last);
            }
            lemma_region_found(rs2, rs1, eligible, neighbors, r, last);
            let (q, k) = choose|q: int, k: int| #[trigger] found_by(rs2, neighbors, r, last, q, k);
            lemma_region_descent(rs1, rs2, eligible, neighbors, r, last, px, py, q, k);
        }
    }
}

proof fn lemma_region_equal(
    rs1: Seq<Seq<usize>>,
    rs2: Seq<Seq<usize>>,
    eligible: Seq<bool>,
    neighbors: Seq<[usize; 4]>,
    r: int,
)
    requires
        both_regions(rs1, rs2, eligible, neighbors),
        0 <= r < rs1.len(),
        r < rs2.len(),
        forall|t: int| 0 <= t < r ==> rs1[t] == rs2[t],
    ensures
        rs1[r] == rs2[r],
{
    lemma_region_seeds_agree(rs1, rs2, eligible, neighbors, r);
    let n1 = rs1[r].len() as int;
    let n2 = rs2[r].len() as int;
    if n1 < n2 {
        lemma_region_agree_before(rs1, rs2, eligible, neighbors, r, n1);
        lemma_both_regions_swap(rs1, rs2, eligible, neighbors);
        lemma_region_member_listed(rs2, rs1, eligible, neighbors, r, n1);
        let i = choose|i: int| 0 <= i < rs1[r].len() && #[trigger] rs1[r][i] == rs2[r][n1];
        assert(rs2[r][i] == rs2[r][n1]);
        lemma_region_distinct(rs2, rs1, eligible, neighbors, r, i, n1);
    } else if n2 < n1 {
        lemma_region_agree_before(rs1, rs2, eligible, neighbors, r, n2);
        lemma_region_member_listed(rs1, rs2, eligible, neighbors, r, n2);
        let i = choose|i: int| 0 <= i < rs2[r].len() && #[trigger] rs2[r][i] == rs1[r][n2];
        assert(rs1[r][i] == rs1[r][n2]);
        lemma_region_distinct(rs1, rs2, eligible, neighbors, r, i, n2);
    } else {
        lemma_region_agree_before(rs1, rs2, eligible, neighbors, r, n1);
        assert(rs1[r] =~= rs2[r]);
    }
}

proof fn lemma_regions_agree_before(
    rs1: Seq<Seq<usize>>,
    rs2: Seq<Seq<usize>>,
    eligible: Seq<bool>,
    neighbors: Seq<[usize; 4]>,
    r: int,
)
    requires
        both_regions(rs1, rs2, eligible, neighbors),
        0 <= r <= rs1.len(),
        r <= rs2.len(),
    ensures
        forall|t: int| 0 <= t < r ==> rs1[t] == rs2[t],
    decreases r,
{
    if r > 0 {
        lemma_regions_agree_before(rs1, rs2, eligible, neighbors, r - 1);
        lemma_region_equal(rs1, rs2, eligible, neighbors, r - 1);
    }
}

/// The regions of a set of eligible cells are unique: two lists that meet
/// [`are_regions_of`] for the same cells and neighbour table are equal, so
/// the region search's contract fixes its result.
pub proof fn law_regions_are_unique(
    rs1: Seq<Seq<usize>>,
    rs2: Seq<Seq<usize>>,
    eligible: Seq<bool>,
    neighbors: Seq<[usize; 4]>,
)
    requires
        are_regions_of(rs1, eligible, neighbors),
        are_regions_of(rs2, eligible, neighbors),
    ensures
        rs1 == rs2,
{
    assert(both_regions(rs1, rs2, eligible, neighbors)) by {
        reveal(both_regions);
    }
    if rs1.len() < rs2.len() {
        let n = rs1.len() as int;
        lemma_regions_agree_before(rs1, rs2, eligible, neighbors, n);
        assert(rs2[n].len() > 0);
        let s = rs2[n][0];
        assert(eligible[s as int]);
        let (r1, p1) = choose|r1: int, p1: int|
            0 <= r1 < rs1.len() && 0 <= p1 < rs1[r1].len() && #[trigger] rs1[r1][p1] == s;
        assert(rs2[r1][p1] == s);
    } else if rs2.len() < rs1.len() {
        let n = rs2.len() as int;
        lemma_regions_agree_before(rs1, rs2, eligible, neighbors, n);
        assert(rs1[n].len() > 0);
        let s = rs1[n][0];
        assert(eligible[s as int]);
        let (r2, p2) = choose|r2: int, p2: int|
            0 <= r2 < rs2.len() && 0 <= p2 < rs2[r2].len() && #[trigger] rs2[r2][p2] == s;
        assert(rs1[r2][p2] == s);
    } else {
        lemma_regions_agree_before(rs1, rs2, eligible, neighbors, rs1.len() as int);
        assert(rs1 =~= rs2);
    }
}

/// With mutual neighbour lists, regions that cover the eligible cells
/// exactly and are closed up to earlier regions (as the region search
/// returns them) are closed outright: an eligible neighbour of a member of a
/// region lies in the same region.
#[verifier::spinoff_prover]
pub proof fn law_mutual_tables_keep_neighbours_together(
    rs: Seq<Seq<usize>>,
    eligible: Seq<bool>,
    neighbors: Seq<[usize; 4]>,
    r: int,
    p: int,
    k: int,
)
    requires
        neighbor_table(neighbors, eligible.len()),
        mutual(neighbors),
        covers_exactly(rs, eligible),
        closed_up_to(rs, eligible, neighbors),
        0 <= r < rs.len(),
        0 <= p < rs[r].len(),
        0 <= k < 4,
        eligible[neighbors[rs[r][p] as int][k] as int],
    ensures
        exists|p2: int| 0 <= p2 < rs[r].len() && #[trigger] rs[r][p2] == neighbors[rs[r][p] as int][k],
{
    let a = rs[r][p] as int;
    let b = neighbors[a][k] as int;
    let (r2, p2) = choose|r2: int, p2: int|
        0 <= r2 <= r && 0 <= p2 < rs[r2].len() && #[trigger] rs[r2][p2] == neighbors[rs[r][p] as int][k];
    if r2 < r {
        assert(a < eligible.len() && eligible[a]);
        assert(neighbors[a][k] == b);
        let j = choose|j: int| 0 <= j < 4 && #[trigger] neighbors[neighbors[a][k] as int][j] == a;
        assert(neighbors[rs[r2][p2] as int][j] == a);
        let (r3, p3) = choose|r3: int, p3: int|
            0 <= r3 <= r2 && 0 <= p3 < rs[r3].len() && #[trigger] rs[r3][p3] == neighbors[rs[r2][p2] as int][j];
        assert(rs[r3][p3] == rs[r][p]);
    }
    assert(rs[r][p2] == neighbors[rs[r][p] as int][k]);
}

/// `order` lists, breadth-first from `start`, every cell that can be
/// reached from it: each once, each later cell a neighbour of an earlier
/// one, every neighbour of a listed cell listed, and in the order found.
pub open spec fn is_breadth_first_from(order: Seq<usize>, start: int, neighbors: Seq<[usize; 4]>) -> bool {
    &&& order.len() > 0
    &&& order[0] == start
    &&& forall|p: int| 0 <= p < order.len() ==> #[trigger] order[p] < neighbors.len()
    &&& forall|p1: int, p2: int|
        0 <= p1 < p2 < order.len() ==> #[trigger] order[p1] != #[trigger] order[p2]
    &&& forall|p: int, k: int|
        0 <= p < order.len() && 0 <= k < 4 ==> order.contains(#[trigger] neighbors[order[p] as int][k])
    &&& grown_from_first(seq![order], neighbors)
    &&& in_discovery_order(seq![order], neighbors)
}

/// The first cell of `order` that is safe.
pub open spec fn first_safe(order: Seq<usize>, safe: Seq<bool>) -> Option<usize>
    decreases order.len(),
{
    if order.len() == 0 {
        None
    } else if safe[order[0] as int] {
        Some(order[0])
    } else {
        first_safe(order.drop_first(), safe)
    }
}

/// Bookkeeping of the breadth-first walk: where each visited cell was put
/// and which earlier slot found it.
spec fn walked(
    order: Seq<usize>,
    neighbors: Seq<[usize; 4]>,
    visited: Seq<bool>,
    pos: Seq<int>,
    pq: Seq<int>,
    pk: Seq<int>,
) -> bool {
    let n = neighbors.len();
    &&& visited.len() == n && pos.len() == n && pq.len() == n && pk.len() == n
    &&& order.len() > 0
    &&& forall|p: int|
        #![trigger order[p]]
        0 <= p < order.len() ==> order[p] < n && visited[order[p] as int] && pos[order[p] as int] == p
    &&& forall|i: int|
        #![trigger visited[i]]
        0 <= i < n && visited[i] ==> 0 <= pos[i] < order.len() && order[pos[i]] == i
    &&& forall|p: int|
        #![trigger order[p]]
        0 < p < order.len() ==> 0 <= pq[order[p] as int] < p && 0 <= pk[order[p] as int] < 4
            && neighbors[order[pq[order[p] as int]] as int][pk[order[p] as int]] == order[p]
    &&& forall|p1: int, p2: int|
        #![trigger order[p1], order[p2]]
        0 < p1 < p2 < order.len() ==> slot_before(
            pq[order[p1] as int],
            pk[order[p1] as int],
            pq[order[p2] as int],
            pk[order[p2] as int],
        )
}

/// Slots `(p, k)` of the first `upto` listed cells lead to visited cells,
/// each found no later than by that slot.
spec fn walked_through(
    order: Seq<usize>,
    neighbors: Seq<[usize; 4]>,
    visited: Seq<bool>,
    pos: Seq<int>,
    pq: Seq<int>,
    pk: Seq<int>,
    upto: int,
) -> bool {
    forall|p: int, k: int|
        #![trigger neighbors[order[p] as int][k]]
        0 <= p < upto && 0 <= k < 4 ==> {
            let x = neighbors[order[p] as int][k] as int;
            &&& visited[x]
            &&& pos[x] > 0 ==> !slot_before(p, k, pq[x], pk[x])
        }
}

proof fn lemma_walk_discovery(
    order: Seq<usize>,
    neighbors: Seq<[usize; 4]>,
    visited: Seq<bool>,
    pos: Seq<int>,
    pq: Seq<int>,
    pk: Seq<int>,
    head: int,
    k: int,
    next: usize,
)
    requires
        walked(order, neighbors, visited, pos, pq, pk),
        0 <= head < order.len(),
        0 <= k < 4,
        next < neighbors.len(),
        neighbors[order[head] as int][k] == next,
        !visited[next as int],
        forall|p: int|
            0 < p < order.len() ==> slot_before(pq[#[trigger] order[p] as int], pk[order[p] as int], head, k),
    ensures
        walked(
            order.push(next),
            neighbors,
            visited.update(next as int, true),
            pos.update(next as int, order.len() as int),
            pq.update(next as int, head),
            pk.update(next as int, k),
        ),
{
    let o2 = order.push(next);
    let visited2 = visited.update(next as int, true);
    let pos2 = pos.update(next as int, order.len() as int);
    let pq2 = pq.update(next as int, head);
    let pk2 = pk.update(next as int, k);
    assert forall|p: int| 0 <= p < order.len() implies #[trigger] o2[p] == order[p] && order[p] != next by {
        assert(visited[order[p] as int]);
    }
    assert(o2[order.len() as int] == next);
    assert forall|p: int|
        #![trigger o2[p]]
        0 <= p < o2.len() implies o2[p] < neighbors.len() && visited2[o2[p] as int] && pos2[o2[p] as int] == p by {
        if p < order.len() {
            assert(o2[p] == order[p]);
        }
    }
    assert forall|i: int|
        #![trigger visited2[i]]
        0 <= i < neighbors.len() && visited2[i] implies 0 <= pos2[i] < o2.len() && o2[pos2[i]] == i by {
        if i != next {
            assert(visited[i]);
            assert(o2[pos[i]] == order[pos[i]]);
        }
    }
    assert forall|p: int|
        #![trigger o2[p]]
        0 < p < o2.len() implies 0 <= pq2[o2[p] as int] < p && 0 <= pk2[o2[p] as int] < 4
            && neighbors[o2[pq2[o2[p] as int]] as int][pk2[o2[p] as int]] == o2[p] by {
        if p == order.len() {
            assert(o2[head] == order[head]);
        } else {
            assert(o2[p] == order[p]);
            let q = pq[order[p] as int];
            assert(o2[q] == order[q]);
        }
    }
    assert forall|p1: int, p2: int|
        #![trigger o2[p1], o2[p2]]
        0 < p1 < p2 < o2.len() implies slot_before(
            pq2[o2[p1] as int],
            pk2[o2[p1] as int],
            pq2[o2[p2] as int],
            pk2[o2[p2] as int],
        ) by {
        assert(o2[p1] == order[p1]);
        if p2 < order.len() {
            assert(o2[p2] == order[p2]);
        }
    }
}

proof fn lemma_walk_complete(
    order: Seq<usize>,
    start: int,
    neighbors: Seq<[usize; 4]>,
    visited: Seq<bool>,
    pos: Seq<int>,
    pq: Seq<int>,
    pk: Seq<int>,
)
    requires
        neighbor_table(neighbors, neighbors.len()),
        walked(order, neighbors, visited, pos, pq, pk),
        walked_through(order, neighbors, visited, pos, pq, pk, order.len() as int),
        order[0] == start,
    ensures
        is_breadth_first_from(order, start, neighbors),
{
    let rs = seq![order];
    assert(rs[0] == order);
    assert forall|p1: int, p2: int|
        0 <= p1 < p2 < order.len() implies #[trigger] order[p1] != #[trigger] order[p2] by {
    }
    assert forall|p: int, k: int|
        0 <= p < order.len() && 0 <= k < 4 implies order.contains(#[trigger] neighbors[order[p] as int][k]) by {
        let x = neighbors[order[p] as int][k] as int;
        assert(visited[x]);
        assert(order[pos[x]] == x);
    }
    assert forall|r: int| 0 <= r < rs.len() implies #[trigger] rs[r].len() > 0 by {
    }
    assert forall|r: int, p: int|
        0 <= r < rs.len() && 0 < p < rs[r].len() implies #[trigger] has_finder(rs, neighbors, r, p) by {
        assert(r == 0);
        assert(found_by(rs, neighbors, r, p, pq[order[p] as int], pk[order[p] as int]));
    }
    assert forall|r: int, p1: int, p2: int, q2: int, k2: int|
        #![trigger found_by(rs, neighbors, r, p2, q2, k2), found_before(rs, neighbors, r, p1, q2, k2)]
        0 <= r < rs.len() && 0 < p1 < p2 < rs[r].len() && found_by(rs, neighbors, r, p2, q2, k2)
            implies found_before(rs, neighbors, r, p1, q2, k2) by {
        assert(r == 0);
        let x = order[p2] as int;
        assert(neighbors[order[q2] as int][k2] == order[p2]);
        assert(pos[x] == p2);
        let q1 = pq[order[p1] as int];
        let k1 = pk[order[p1] as int];
        assert(found_by(rs, neighbors, r, p1, q1, k1));
    }
    assert(grown_from_first(rs, neighbors));
    assert(in_discovery_order(rs, neighbors));
}

/// Every cell that can be reached from `start`, breadth-first.
pub fn breadth_first_order(start: usize, neighbors: &[[usize; 4]]) -> (order: Vec<usize>)
    requires
        start < neighbors@.len(),
        neighbor_table(neighbors@, neighbors@.len()),
    ensures
        is_breadth_first_from(order@, start as int, neighbors@),
{
    let n = neighbors.len();
    let mut visited: Vec<bool> = vec![false; n];
    let ghost mut pos: Seq<int> = Seq::new(n as nat, |i: int| -1);
    let ghost mut pq: Seq<int> = Seq::new(n as nat, |i: int| -1);
    let ghost mut pk: Seq<int> = Seq::new(n as nat, |i: int| -1);
    proof {
        lemma_unvisited_mark(visited@, start as int);
    }
    visited.set(start, true);
    proof {
        pos = pos.update(start as int, 0);
    }
    let mut order: Vec<usize> = Vec::new();
    order.push(start);
    let ghost base = unvisited(visited@) + 1;
    assert(order@[0] == start);
    let mut head: usize = 0;
    while head < order.len()
        invariant
            n == neighbors@.len(),
            neighbor_table(neighbors@, n as nat),
            head <= order@.len(),
            order@[0] == start,
            unvisited(visited@) + order@.len() == base,
            walked(order@, neighbors@, visited@, pos, pq, pk),
            walked_through(order@, neighbors@, visited@, pos, pq, pk, head as int),
            forall|p: int| 0 < p < order@.len() ==> pq[#[trigger] order@[p] as int] < head,
        decreases base - head,
    {
        let current = order[head];
        assert(current == order@[head as int]);
        let row = neighbors[current];
        let mut k: usize = 0;
        while k < 4
            invariant
                n == neighbors@.len(),
                neighbor_table(neighbors@, n as nat),
                head < order@.len(),
                current == order@[head as int],
                current < n,
                row == neighbors@[current as int],
                k <= 4,
                order@[0] == start,
                unvisited(visited@) + order@.len() == base,
                walked(order@, neighbors@, visited@, pos, pq, pk),
                walked_through(order@, neighbors@, visited@, pos, pq, pk, head as int),
                forall|j: int|
                    0 <= j < k ==> {
                        let x = #[trigger] neighbors@[current as int][j] as int;
                        &&& visited@[x]
                        &&& pos[x] > 0 ==> !slot_before(head as int, j, pq[x], pk[x])
                    },
                forall|p: int|
                    0 < p < order@.len() ==> slot_before(
                        pq[#[trigger] order@[p] as int],
                        pk[order@[p] as int],
                        head as int,
                        k as int,
                    ),
            decreases 4 - k,
        {
            let next = row[k];
            assert(next == neighbors@[current as int][k as int]);
            if !visited[next] {
                proof {
                    lemma_unvisited_mark(visited@, next as int);
                    lemma_walk_discovery(order@, neighbors@, visited@, pos, pq, pk, head as int, k as int, next);
                }
                visited.set(next, true);
                proof {
                    pos = pos.update(next as int, order@.len() as int);
                    pq = pq.update(next as int, head as int);
                    pk = pk.update(next as int, k as int);
                }
                order.push(next);
                proof {
                    assert forall|p: int| 0 < p < order@.len() implies slot_before(
                        pq[#[trigger] order@[p] as int],
                        pk[order@[p] as int],
                        head as int,
                        k as int + 1,
                    ) by {
                    }
                }
            }
            k = k + 1;
        }
        head = head + 1;
    }
    proof {
        lemma_walk_complete(order@, start as int, neighbors@, visited@, pos, pq, pk);
    }
    order
}

/// The first safe cell of `order`; see [`first_safe`].
pub fn first_safe_cell(order: &[usize], safe: &[bool]) -> (found: Option<usize>)
    requires
        forall|p: int| 0 <= p < order@.len() ==> #[trigger] order@[p] < safe@.len(),
    ensures
        found == first_safe(order@, safe@),
{
    let mut i: usize = 0;
    assert(order@.skip(0) == order@);
    while i < order.len()
        invariant
            i <= order@.len(),
            forall|p: int| 0 <= p < order@.len() ==> #[trigger] order@[p] < safe@.len(),
            first_safe(order@.skip(i as int), safe@) == first_safe(order@, safe@),
        decreases order@.len() - i,
    {
        let cell = order[i];
        assert(order@.skip(i as int)[0] == cell);
        if safe[cell] {
            return Some(cell);
        }
        assert(order@.skip(i as int).drop_first() == order@.skip(i + 1));
        i = i + 1;
    }
    assert(order@.skip(i as int).len() == 0);
    None
}

/// The safe cell nearest to `start`: the first safe cell of the
/// breadth-first order from `start` (there is only one such order; see
/// [`law_breadth_first_order_is_unique`]), or `None` when no safe cell can
/// be reached.
pub fn nearest_safe_cell(start: usize, safe: &[bool], neighbors: &[[usize; 4]]) -> (found: Option<usize>)
    requires
        start < neighbors@.len(),
        safe@.len() == neighbors@.len(),
        neighbor_table(neighbors@, neighbors@.len()),
    ensures
        exists|order: Seq<usize>|
            is_breadth_first_from(order, start as int, neighbors@) && found == first_safe(order, safe@),
{
    let order = breadth_first_order(start, neighbors);
    first_safe_cell(order.as_slice(), safe)
}

proof fn lemma_listed_in_every_order(
    m1: Seq<usize>,
    m2: Seq<usize>,
    start: int,
    neighbors: Seq<[usize; 4]>,
    p: int,
)
    requires
        is_breadth_first_from(m1, start, neighbors),
        is_breadth_first_from(m2, start, neighbors),
        0 <= p < m1.len(),
    ensures
        m2.contains(m1[p]),
    decreases p,
{
    let rs = seq![m1];
    assert(rs[0] == m1);
    if p == 0 {
        assert(m2[0] == m1[0]);
    } else {
        assert(has_finder(rs, neighbors, 0, p));
        let (q, k) = choose|q: int, k: int| #[trigger] found_by(rs, neighbors, 0, p, q, k);
        lemma_listed_in_every_order(m1, m2, start, neighbors, q);
        let j = choose|j: int| 0 <= j < m2.len() && m2[j] == m1[q];
        assert(m2.contains(neighbors[m2[j] as int][k]));
    }
}

proof fn lemma_no_earlier_finder(
    m1: Seq<usize>,
    m2: Seq<usize>,
    start: int,
    neighbors: Seq<[usize; 4]>,
    p: int,
    px: int,
    py: int,
    q: int,
    k: int,
)
    requires
        is_breadth_first_from(m1, start, neighbors),
        is_breadth_first_from(m2, start, neighbors),
        0 < p < px < m2.len(),
        p < py < m1.len(),
        forall|i: int| 0 <= i < p ==> m1[i] == m2[i],
        m2[px] == m1[p],
        m1[py] == m2[p],
        0 <= q < p,
        0 <= k < 4,
        neighbors[m2[q] as int][k] == m2[p],
    ensures
        m1[p] == m2[p],
    decreases 4 * q + k,
{
    let rs1 = seq![m1];
    let rs2 = seq![m2];
    assert(rs1[0] == m1);
    assert(rs2[0] == m2);
    assert(m1[q] == m2[q]);
    assert(found_by(rs1, neighbors, 0, py, q, k));
    assert(found_before(rs1, neighbors, 0, p, q, k));
    let (q1, k1) = choose|q1: int, k1: int|
        #[trigger] found_by(rs1, neighbors, 0, p, q1, k1) && slot_before(q1, k1, q, k);
    assert(m1[q1] == m2[q1]);
    assert(found_by(rs2, neighbors, 0, px, q1, k1));
    assert(found_before(rs2, neighbors, 0, p, q1, k1));
    let (q3, k3) = choose|q3: int, k3: int|
        #[trigger] found_by(rs2, neighbors, 0, p, q3, k3) && slot_before(q3, k3, q1, k1);
    lemma_no_earlier_finder(m1, m2, start, neighbors, p, px, py, q3, k3);
}

proof fn lemma_orders_agree_before(
    m1: Seq<usize>,
    m2: Seq<usize>,
    start: int,
    neighbors: Seq<[usize; 4]>,
    p: int,
)
    requires
        is_breadth_first_from(m1, start, neighbors),
        is_breadth_first_from(m2, start, neighbors),
        0 <= p <= m1.len(),
        p <= m2.len(),
    ensures
        forall|i: int| 0 <= i < p ==> m1[i] == m2[i],
    decreases p,
{
    if p > 0 {
        let last = p - 1;
        lemma_orders_agree_before(m1, m2, start, neighbors, last);
        if last > 0 && m1[last] != m2[last] {
            lemma_listed_in_every_order(m1, m2, start, neighbors, last);
            lemma_listed_in_every_order(m2, m1, start, neighbors, last);
            let px = choose|px: int| 0 <= px < m2.len() && m2[px] == m1[last];
            let py = choose|py: int| 0 <= py < m1.len() && m1[py] == m2[last];
            if px < last {
                assert(m1[px] == m2[px]);
            }
            if py < last {
                assert(m1[py] == m2[py]);
            }
            let rs2 = seq![m2];
            assert(rs2[0] == m2);
            assert(has_finder(rs2, neighbors, 0, last));
            let (q, k) = choose|q: int, k: int| #[trigger] found_by(rs2, neighbors, 0, last, q, k);
            lemma_no_earlier_finder(m1, m2, start, neighbors, last, px, py, q, k);
        }
    }
}

/// The breadth-first order from a cell is unique: two orders that meet
/// [`is_breadth_first_from`] for the same start and neighbour table are equal.
pub proof fn law_breadth_first_order_is_unique(
    m1: Seq<usize>,
    m2: Seq<usize>,
    start: int,
    neighbors: Seq<[usize; 4]>,
)
    requires
        is_breadth_first_from(m1, start, neighbors),
        is_breadth_first_from(m2, start, neighbors),
    ensures
        m1 == m2,
{
    if m1.len() < m2.len() {
        lemma_orders_agree_before(m1, m2, start, neighbors, m1.len() as int);
        lemma_listed_in_every_order(m2, m1, start, neighbors, m1.len() as int);
        let i = choose|i: int| 0 <= i < m1.len() && m1[i] == m2[m1.len() as int];
        assert(m2[i] == m2[m1.len() as int]);
    } else if m2.len() < m1.len() {
        lemma_orders_agree_before(m1, m2, start, neighbors, m2.len() as int);
        lemma_listed_in_every_order(m1, m2, start, neighbors, m2.len() as int);
        let i = choose|i: int| 0 <= i < m2.len() && m2[i] == m1[m2.len() as int];
        assert(m1[i] == m1[m2.len() as int]);
    } else {
        lemma_orders_agree_before(m1, m2, start, neighbors, m1.len() as int);
        assert(m1 =~= m2);
    }
}

/// Cell `i` is a source, or a neighbour of a cell that can be reached from
/// a source in `steps - 1` moves: it can be reached in at most `steps`.
pub open spec fn reachable_within(
    sources: Seq<bool>,
    neighbors: Seq<[usize; 4]>,
    steps: nat,
    i: int,
) -> bool
    decreases steps,
{
    sources[i] || (steps > 0 && exists|j: int, k: int|
        0 <= j < neighbors.len() && 0 <= k < 4 && #[trigger] neighbors[j][k] == i
            && reachable_within(sources, neighbors, (steps - 1) as nat, j))
}

/// One more step, saturating at `u16::MAX`.
pub open spec fn one_more(steps: u16) -> u16 {
    if steps < u16::MAX {
        (steps + 1) as u16
    } else {
        u16::MAX
    }
}

spec fn total(s: Seq<u16>) -> nat
    decreases s.len(),
{
    if s.len() == 0 {
        0
    } else {
        total(s.drop_last()) + s.last() as nat
    }
}

proof fn lemma_total_update(s: Seq<u16>, j: int, v: u16)
    requires
        0 <= j < s.len(),
    ensures
        total(s.update(j, v)) + s[j] == total(s) + v,
    decreases s.len(),
{
    if j == s.len() - 1 {
        assert(s.update(j, v).drop_last() =~= s.drop_last());
    } else {
        lemma_total_update(s.drop_last(), j, v);
        assert(s.update(j, v).drop_last() =~= s.drop_last().update(j, v));
    }
}

proof fn lemma_distances_are_least(
    sources: Seq<bool>,
    neighbors: Seq<[usize; 4]>,
    d: Seq<u16>,
    steps: nat,
    i: int,
)
    requires
        neighbor_table(neighbors, sources.len()),
        d.len() == sources.len(),
        forall|c: int| 0 <= c < sources.len() && #[trigger] sources[c] ==> d[c] == 0,
        forall|c: int, k: int|
            #![trigger neighbors[c][k]]
            0 <= c < sources.len() && 0 <= k < 4 ==> d[neighbors[c][k] as int] <= one_more(d[c]),
        0 <= i < sources.len(),
        reachable_within(sources, neighbors, steps, i),
    ensures
        d[i] <= steps,
    decreases steps,
{
    if !sources[i] {
        let (j, k) = choose|j: int, k: int|
            0 <= j < neighbors.len() && 0 <= k < 4 && #[trigger] neighbors[j][k] == i
                && reachable_within(sources, neighbors, (steps - 1) as nat, j);
        lemma_distances_are_least(sources, neighbors, d, (steps - 1) as nat, j);
    }
}

/// Moves from the nearest rock to every cell, breadth-first from all rock
/// cells at once; `u16::MAX` where no rock is within reach, or farther.
pub fn distance_from_rock(rock: &[bool], neighbors: &[[usize; 4]]) -> (distances: Vec<u16>)
    requires
        neighbor_table(neighbors@, rock@.len()),
    ensures
        distances@.len() == rock@.len(),
        forall|i: int|
            0 <= i < rock@.len() && distances@[i] < u16::MAX ==> reachable_within(
                rock@,
                neighbors@,
                distances@[i] as nat,
                i,
            ),
        forall|i: int, steps: nat|
            0 <= i < rock@.len() && #[trigger] reachable_within(rock@, neighbors@, steps, i)
                ==> distances@[i] <= steps,
{
    let n = rock.len();
    let mut distances: Vec<u16> = vec![u16::MAX; n];
    let mut queue: VecDeque<usize> = VecDeque::new();
    let mut index: usize = 0;
    while index < n
        invariant
            n == rock@.len(),
            index <= n,
            distances@.len() == n,
            forall|i: int| 0 <= i < n ==> #[trigger] distances@[i] == if i < index && rock@[i] {
                0u16
            } else {
                u16::MAX
            },
            forall|t: int|
                0 <= t < queue@.len() ==> #[trigger] queue@[t] < index && rock@[queue@[t] as int],
            forall|i: int| 0 <= i < index && #[trigger] rock@[i] ==> queue@.contains(i as usize),
        decreases n - index,
    {
        if rock[index] {
            let ghost waiting = queue@;
            distances.set(index, 0);
            queue.push_back(index);
            proof {
                assert forall|i: int| 0 <= i <= index && #[trigger] rock@[i] implies queue@.contains(
                    i as usize,
                ) by {
                    assert(queue@ == waiting.push(index));
                    vstd::seq_lib::lemma_seq_contains_after_push(waiting, index, i as usize);
                    if i < index {
                        assert(waiting.contains(i as usize));
                    }
                }
            }
        }
        index = index + 1;
    }
    while queue.len() > 0
        invariant
            n == rock@.len(),
            neighbor_table(neighbors@, n as nat),
            distances@.len() == n,
            forall|t: int|
                0 <= t < queue@.len() ==> #[trigger] queue@[t] < n && distances@[queue@[t] as int]
                    < u16::MAX,
            forall|i: int|
                0 <= i < n && #[trigger] distances@[i] < u16::MAX ==> reachable_within(
                    rock@,
                    neighbors@,
                    distances@[i] as nat,
                    i,
                ),
            forall|i: int| 0 <= i < n && #[trigger] rock@[i] ==> distances@[i] == 0,
            forall|i: int, k: int|
                #![trigger neighbors@[i][k]]
                0 <= i < n && 0 <= k < 4 && !queue@.contains(i as usize) ==> distances@[neighbors@[i][k] as int]
                    <= one_more(distances@[i]),
        decreases total(distances@) + queue@.len(),
    {
        let ghost waiting = queue@;
        let current = queue.pop_front().unwrap();
        proof {
            assert forall|i: int|
                0 <= i < n && i != current && !(#[trigger] queue@.contains(i as usize)) implies !waiting.contains(
                i as usize,
            ) by {
                if waiting.contains(i as usize) {
                    let t = choose|t: int| 0 <= t < waiting.len() && waiting[t] == i as usize;
                    assert(t != 0);
                    assert(queue@[t - 1] == waiting[t]);
                }
            }
            assert(waiting[0] == current);
        }
        let distance = distances[current];
        let ghost measure = total(distances@) + queue@.len();
        let row = neighbors[current];
        let mut k: usize = 0;
        while k < 4
            invariant
                n == rock@.len(),
                neighbor_table(neighbors@, n as nat),
                distances@.len() == n,
                current < n,
                row == neighbors@[current as int],
                distance == distances@[current as int],
                distance < u16::MAX,
                k <= 4,
                total(distances@) + queue@.len() <= measure,
                forall|t: int|
                    0 <= t < queue@.len() ==> #[trigger] queue@[t] < n && distances@[queue@[t] as int]
                        < u16::MAX,
                forall|i: int|
                    0 <= i < n && #[trigger] distances@[i] < u16::MAX ==> reachable_within(
                        rock@,
                        neighbors@,
                        distances@[i] as nat,
                        i,
                    ),
                forall|i: int| 0 <= i < n && #[trigger] rock@[i] ==> distances@[i] == 0,
                forall|i: int, j: int|
                    #![trigger neighbors@[i][j]]
                    0 <= i < n && 0 <= j < 4 && i != current && !queue@.contains(i as usize) ==> distances@[neighbors@[i][j] as int]
                        <= one_more(distances@[i]),
                forall|j: int|
                    0 <= j < k ==> distances@[#[trigger] neighbors@[current as int][j] as int]
                        <= one_more(distance),
            decreases 4 - k,
        {
            let next = row[k];
            assert(next == neighbors@[current as int][k as int]);
            let step = distance.saturating_add(1);
            if distances[next] > step {
                let ghost waiting = queue@;
                let ghost before = distances@;
                proof {
                    lemma_total_update(distances@, next as int, step);
                    assert(reachable_within(rock@, neighbors@, step as nat, next as int)) by {
                        assert(neighbors@[current as int][k as int] == next);
                        assert(reachable_within(rock@, neighbors@, distance as nat, current as int));
                    }
                }
                distances.set(next, step);
                queue.push_back(next);
                proof {
                    assert forall|i: int, j: int|
                        #![trigger neighbors@[i][j]]
                        0 <= i < n && 0 <= j < 4 && i != current && !queue@.contains(i as usize)
                            implies distances@[neighbors@[i][j] as int] <= one_more(distances@[i]) by {
                        assert(queue@ == waiting.push(next));
                        vstd::seq_lib::lemma_seq_contains_after_push(waiting, next, i as usize);
                        assert(!waiting.contains(i as usize));
                        assert(i != next);
                        assert(before[neighbors@[i][j] as int] <= one_more(before[i]));
                    }
                }
            }
            k = k + 1;
        }
    }
    proof {
        assert forall|i: int, steps: nat|
            0 <= i < rock@.len() && #[trigger] reachable_within(rock@, neighbors@, steps, i)
                implies distances@[i] <= steps by {
            lemma_distances_are_least(rock@, neighbors@, distances@, steps, i);
        }
    }
    distances
}

} // verus!
