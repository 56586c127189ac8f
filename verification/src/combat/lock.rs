//! The soft target lock: Tab takes the nearest hostile ahead and walks on outwards.

use vstd::prelude::*;

verus! {

/// A hostile as the lock sees it: the rank of its distance (equal distances have equal
/// ranks) and whether it stands within reach and inside the front cone.
#[derive(Clone, Copy, Debug, PartialEq, Eq, Structural)]
pub struct Hostile {
    pub id: u64,
    pub distance_rank: u64,
    pub in_cone: bool,
}

/// Whether `a` comes before `b`: nearer, or as near with the smaller id.
pub open spec fn before(a: Hostile, b: Hostile) -> bool {
    a.distance_rank < b.distance_rank || (a.distance_rank == b.distance_rank && a.id <= b.id)
}

/// The hostiles of `hostiles` that stand in the cone, in the order given.
pub open spec fn in_cone_of(hostiles: Seq<Hostile>) -> Seq<Hostile> {
    hostiles.filter(|h: Hostile| h.in_cone)
}

/// Whether `rows` lists the hostiles in the cone, nearest first, then by id.
pub open spec fn nearest_first(rows: Seq<Hostile>, hostiles: Seq<Hostile>) -> bool {
    &&& rows.to_multiset() == in_cone_of(hostiles).to_multiset()
    &&& forall|i: int, j: int| 0 <= i <= j < rows.len() ==> before(rows[i], rows[j])
}

fn insert_row(rows: &mut Vec<Hostile>, h: Hostile)
    requires
        forall|i: int, j: int|
            0 <= i <= j < old(rows)@.len() ==> before(old(rows)@[i], old(rows)@[j]),
    ensures
        forall|i: int, j: int|
            0 <= i <= j < final(rows)@.len() ==> before(final(rows)@[i], final(rows)@[j]),
        final(rows)@.to_multiset() == old(rows)@.push(h).to_multiset(),
{
    let mut at: usize = rows.len();
    while at > 0 && (h.distance_rank < rows[at - 1].distance_rank || (h.distance_rank == rows[at
        - 1].distance_rank && h.id < rows[at - 1].id))
        invariant
            at <= rows@.len(),
            rows@ == old(rows)@,
            forall|i: int| at <= i < rows@.len() ==> before(h, #[trigger] rows@[i]),
            forall|i: int, j: int| 0 <= i <= j < rows@.len() ==> before(rows@[i], rows@[j]),
        decreases at,
    {
        at -= 1;
    }
    let ghost was = rows@;
    rows.insert(at, h);
    proof {
        assert(rows@ =~= was.insert(at as int, h));
        assert(rows@.remove(at as int) =~= was);
        rows@.to_multiset_ensures();
        was.to_multiset_ensures();
        assert(rows@[at as int] == h);
        assert(rows@.to_multiset() =~= was.to_multiset().insert(h));
        assert forall|i: int, j: int| 0 <= i <= j < rows@.len() implies before(
            rows@[i],
            rows@[j],
        ) by {
            if at > 0 {
                assert(before(was[at - 1], h));
                if i < at {
                    assert(before(was[i], was[at - 1]));
                }
            }
        }
    }
}

/// The hostiles in the cone, nearest first, then by id.
pub fn cone_rows(hostiles: &[Hostile]) -> (rows: Vec<Hostile>)
    ensures
        nearest_first(rows@, hostiles@),
{
    let mut rows: Vec<Hostile> = Vec::new();
    let mut i: usize = 0;
    assert(hostiles@.take(0) =~= Seq::<Hostile>::empty());
    assert(in_cone_of(hostiles@.take(0)) =~= Seq::<Hostile>::empty()) by {
        reveal(Seq::filter);
    }
    while i < hostiles.len()
        invariant
            i <= hostiles@.len(),
            nearest_first(rows@, hostiles@.take(i as int)),
        decreases hostiles@.len() - i,
    {
        proof {
            let now = hostiles@.take(i as int);
            assert(hostiles@.take(i + 1) =~= now.push(hostiles@[i as int]));
            assert(now.push(hostiles@[i as int]).drop_last() =~= now);
            reveal(Seq::filter);
            rows@.to_multiset_ensures();
            in_cone_of(now).to_multiset_ensures();
        }
        if hostiles[i].in_cone {
            insert_row(&mut rows, hostiles[i]);
        }
        i += 1;
    }
    assert(hostiles@.take(i as int) =~= hostiles@);
    rows
}

/// The ids of `rows` in turn.
pub open spec fn ids_of(rows: Seq<Hostile>) -> Seq<u64> {
    rows.map_values(|h: Hostile| h.id)
}

/// The hostiles in the Tab cone by id, nearest first, then by id.
pub fn cone_candidates(hostiles: &[Hostile]) -> (ids: Vec<u64>)
    ensures
        exists|rows: Seq<Hostile>| #[trigger]
            nearest_first(rows, hostiles@) && ids@ == ids_of(rows),
{
    let rows: Vec<Hostile> = cone_rows(hostiles);
    let mut ids: Vec<u64> = Vec::new();
    let mut i: usize = 0;
    while i < rows.len()
        invariant
            i <= rows@.len(),
            ids@ == ids_of(rows@).take(i as int),
        decreases rows@.len() - i,
    {
        ids.push(rows[i].id);
        i += 1;
        assert(ids@ =~= ids_of(rows@).take(i as int));
    }
    assert(ids@ =~= ids_of(rows@));
    assert(nearest_first(rows@, hostiles@));
    ids
}

/// The place of the first `id` from `from` on.
pub open spec fn place_of(ids: Seq<u64>, id: u64, from: int) -> Option<int>
    decreases ids.len() - from,
{
    if from < 0 || from >= ids.len() {
        None
    } else if ids[from] == id {
        Some(from)
    } else {
        place_of(ids, id, from + 1)
    }
}

/// What Tab locks, given the candidates in order: the first where nothing of them is
/// locked, else the next, and nothing after the last.
pub open spec fn next_lock(ids: Seq<u64>, current: Option<u64>) -> Option<u64> {
    if ids.len() == 0 {
        None
    } else {
        match current {
            None => Some(ids[0]),
            Some(cur) => match place_of(ids, cur, 0) {
                None => Some(ids[0]),
                Some(i) => if i + 1 < ids.len() {
                    Some(ids[i + 1])
                } else {
                    None
                },
            },
        }
    }
}

/// One Tab over candidates that are already in order.
pub fn cycle(ids: &[u64], current: Option<u64>) -> (r: Option<u64>)
    ensures
        r == next_lock(ids@, current),
{
    if ids.len() == 0 {
        return None;
    }
    match current {
        None => Some(ids[0]),
        Some(cur) => {
            let mut i: usize = 0;
            while i < ids.len() && ids[i] != cur
                invariant
                    i <= ids@.len(),
                    place_of(ids@, cur, 0) == place_of(ids@, cur, i as int),
                decreases ids@.len() - i,
            {
                i += 1;
            }
            if i == ids.len() {
                Some(ids[0])
            } else if i + 1 < ids.len() {
                Some(ids[i + 1])
            } else {
                None
            }
        },
    }
}

/// Tab: locks the nearest in the cone; again moves on; after the last it lets go.
pub fn tab_cycle(current: Option<u64>, hostiles: &[Hostile]) -> (r: Option<u64>)
    ensures
        exists|rows: Seq<Hostile>| #[trigger]
            nearest_first(rows, hostiles@) && r == next_lock(ids_of(rows), current),
{
    let ids: Vec<u64> = cone_candidates(hostiles);
    cycle(ids.as_slice(), current)
}

/// A click on a body locks that body, wherever it stands.
pub fn click_body_lock(id: u64) -> (r: u64)
    ensures
        r == id,
{
    id
}

/// What is locked after `n` presses of Tab over the same candidates.
pub open spec fn after_tabs(ids: Seq<u64>, n: nat) -> Option<u64>
    decreases n,
{
    if n == 0 {
        None
    } else {
        next_lock(ids, after_tabs(ids, (n - 1) as nat))
    }
}

proof fn lemma_place(ids: Seq<u64>, i: int, from: int)
    requires
        ids.no_duplicates(),
        0 <= from <= i < ids.len(),
    ensures
        place_of(ids, ids[i], from) == Some(i),
    decreases i - from,
{
    if from < i {
        lemma_place(ids, i, from + 1);
    }
}

/// Pressing Tab from no lock visits each candidate once, in order, and then lets go.
pub proof fn law_tab_visits_each_once(ids: Seq<u64>, n: nat)
    requires
        ids.no_duplicates(),
        n <= ids.len(),
    ensures
        n > 0 ==> after_tabs(ids, n) == Some(ids[n - 1]),
        after_tabs(ids, (ids.len() + 1) as nat) is None,
    decreases n,
{
    law_tab_reaches(ids, ids.len());
    law_tab_reaches(ids, n);
    if ids.len() > 0 {
        lemma_place(ids, ids.len() - 1, 0);
    }
}

proof fn law_tab_reaches(ids: Seq<u64>, n: nat)
    requires
        ids.no_duplicates(),
        n <= ids.len(),
    ensures
        n > 0 ==> after_tabs(ids, n) == Some(ids[n - 1]),
        n == 0 ==> after_tabs(ids, n) is None,
    decreases n,
{
    if n > 0 {
        law_tab_reaches(ids, (n - 1) as nat);
        if n > 1 {
            lemma_place(ids, n - 2, 0);
        }
    }
}

} // verus!
