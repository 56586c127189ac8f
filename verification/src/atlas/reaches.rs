//! Stitching the river links of single cells into whole reaches.

use crate::atlas::hydro::HydroSink;
use vstd::prelude::*;

verus! {

/// The part of a river inside one cell: the edge ports it starts and ends on, its class and
/// what it drains into.
#[derive(Clone, Copy, Debug, PartialEq, Eq)]
pub struct Reach {
    pub a_edge: Option<(i32, i32)>,
    pub b_edge: Option<(i32, i32)>,
    pub class: i32,
    pub sink: HydroSink,
}

/// Whether reach `i` is the only one that starts on a port.
pub open spec fn only_start(reaches: Seq<Reach>, key: (i32, i32), i: int) -> bool {
    &&& 0 <= i < reaches.len()
    &&& reaches[i].a_edge == Some(key)
    &&& forall|j: int|
        0 <= j < reaches.len() && (#[trigger] reaches[j]).a_edge == Some(key) ==> j == i
}

/// Whether reach `i` is the only one that ends on a port.
pub open spec fn only_end(reaches: Seq<Reach>, key: (i32, i32), i: int) -> bool {
    &&& 0 <= i < reaches.len()
    &&& reaches[i].b_edge == Some(key)
    &&& forall|j: int|
        0 <= j < reaches.len() && (#[trigger] reaches[j]).b_edge == Some(key) ==> j == i
}

/// Whether reach `i` runs on into reach `j`: a port on which only the one ends and only the
/// other starts.
pub open spec fn runs_into(reaches: Seq<Reach>, i: int, j: int) -> bool {
    exists|key: (i32, i32)|
        #![trigger only_end(reaches, key, i)]
        only_end(reaches, key, i) && only_start(reaches, key, j)
}

proof fn lemma_runs_into(reaches: Seq<Reach>, i: int, j: int, k: int)
    ensures
        runs_into(reaches, i, j) && runs_into(reaches, i, k) ==> j == k,
        runs_into(reaches, j, i) && runs_into(reaches, k, i) ==> j == k,
{
}

fn find_only_start(reaches: &[Reach], key: (i32, i32)) -> (r: Option<usize>)
    ensures
        r is Some ==> only_start(reaches@, key, r->0 as int),
        r is None ==> forall|i: int| !#[trigger] only_start(reaches@, key, i),
{
    let mut found: Option<usize> = None;
    let mut i: usize = 0;
    while i < reaches.len()
        invariant
            i <= reaches@.len(),
            match found {
                Some(f) => {
                    &&& f < i
                    &&& reaches@[f as int].a_edge == Some(key)
                    &&& forall|j: int|
                        0 <= j < i && (#[trigger] reaches@[j]).a_edge == Some(key) ==> j == f
                },
                None => forall|j: int|
                    0 <= j < i ==> (#[trigger] reaches@[j]).a_edge != Some(key),
            },
        decreases reaches@.len() - i,
    {
        if is_key(reaches[i].a_edge, key) {
            if found.is_some() {
                proof {
                    assert forall|k: int| !#[trigger] only_start(reaches@, key, k) by {
                        if only_start(reaches@, key, k) {
                            assert(reaches@[found->0 as int].a_edge == Some(key));
                            assert(reaches@[i as int].a_edge == Some(key));
                        }
                    }
                }
                return None;
            }
            found = Some(i);
        }
        i += 1;
    }
    found
}

fn find_only_end(reaches: &[Reach], key: (i32, i32)) -> (r: Option<usize>)
    ensures
        r is Some ==> only_end(reaches@, key, r->0 as int),
        r is None ==> forall|i: int| !#[trigger] only_end(reaches@, key, i),
{
    let mut found: Option<usize> = None;
    let mut i: usize = 0;
    while i < reaches.len()
        invariant
            i <= reaches@.len(),
            match found {
                Some(f) => {
                    &&& f < i
                    &&& reaches@[f as int].b_edge == Some(key)
                    &&& forall|j: int|
                        0 <= j < i && (#[trigger] reaches@[j]).b_edge == Some(key) ==> j == f
                },
                None => forall|j: int|
                    0 <= j < i ==> (#[trigger] reaches@[j]).b_edge != Some(key),
            },
        decreases reaches@.len() - i,
    {
        if is_key(reaches[i].b_edge, key) {
            if found.is_some() {
                proof {
                    assert forall|k: int| !#[trigger] only_end(reaches@, key, k) by {
                        if only_end(reaches@, key, k) {
                            assert(reaches@[found->0 as int].b_edge == Some(key));
                            assert(reaches@[i as int].b_edge == Some(key));
                        }
                    }
                }
                return None;
            }
            found = Some(i);
        }
        i += 1;
    }
    found
}

fn is_key(e: Option<(i32, i32)>, key: (i32, i32)) -> (r: bool)
    ensures
        r == (e == Some(key)),
{
    match e {
        Some(k) => k.0 == key.0 && k.1 == key.1,
        None => false,
    }
}

/// The reach that reach `i` runs on into.
pub fn unique_succ(reaches: &[Reach], i: usize) -> (r: Option<usize>)
    requires
        i < reaches@.len(),
    ensures
        r is Some ==> runs_into(reaches@, i as int, r->0 as int) && r->0 < reaches@.len(),
        r is None ==> forall|j: int| !#[trigger] runs_into(reaches@, i as int, j),
{
    match reaches[i].b_edge {
        None => None,
        Some(key) => {
            let end: Option<usize> = find_only_end(reaches, key);
            let start: Option<usize> = find_only_start(reaches, key);
            if end.is_some() && start.is_some() {
                assert(reaches@[i as int].b_edge == Some(key));
                assert(only_end(reaches@, key, i as int));
                start
            } else {
                proof {
                    assert forall|j: int| !#[trigger] runs_into(reaches@, i as int, j) by {
                        if runs_into(reaches@, i as int, j) {
                            assert(only_end(reaches@, key, i as int));
                            assert(only_start(reaches@, key, j));
                        }
                    }
                }
                None
            }
        },
    }
}

/// The reach that runs on into reach `i`.
pub fn unique_pred(reaches: &[Reach], i: usize) -> (r: Option<usize>)
    requires
        i < reaches@.len(),
    ensures
        r is Some ==> runs_into(reaches@, r->0 as int, i as int) && r->0 < reaches@.len(),
        r is None ==> forall|j: int| !#[trigger] runs_into(reaches@, j, i as int),
{
    match reaches[i].a_edge {
        None => None,
        Some(key) => {
            let end: Option<usize> = find_only_end(reaches, key);
            let start: Option<usize> = find_only_start(reaches, key);
            if end.is_some() && start.is_some() {
                assert(reaches@[i as int].a_edge == Some(key));
                assert(only_start(reaches@, key, i as int));
                assert(only_end(reaches@, key, end->0 as int));
                end
            } else {
                proof {
                    assert forall|j: int| !#[trigger] runs_into(reaches@, j, i as int) by {
                        if runs_into(reaches@, j, i as int) {
                            assert(only_end(reaches@, key, j));
                            assert(only_start(reaches@, key, i as int));
                        }
                    }
                }
                None
            }
        },
    }
}

/// Whether the reaches of a list run one into the next.
pub open spec fn linked(reaches: Seq<Reach>, chain: Seq<usize>) -> bool {
    forall|j: int|
        0 <= j < chain.len() - 1 ==> runs_into(
            reaches,
            (#[trigger] chain[j]) as int,
            chain[j + 1] as int,
        )
}

/// Whether a chain is whole: nothing outside it runs into its first reach, and its last
/// runs into nothing outside it.
pub open spec fn whole(reaches: Seq<Reach>, chain: Seq<usize>) -> bool {
    &&& chain.len() > 0
    &&& linked(reaches, chain)
    &&& forall|i: int| #[trigger]
        runs_into(reaches, i, chain[0] as int) ==> chain.contains(i as usize)
    &&& forall|i: int| #[trigger]
        runs_into(reaches, chain.last() as int, i) ==> chain.contains(i as usize)
}

/// How many of the first `n` flags are down.
pub open spec fn unused(used: Seq<bool>, n: nat) -> nat
    decreases n,
{
    if n == 0 {
        0
    } else {
        unused(used, (n - 1) as nat) + if used[n - 1] {
            0nat
        } else {
            1nat
        }
    }
}

proof fn lemma_used(used: Seq<bool>, k: int, n: nat)
    requires
        n <= used.len(),
        0 <= k < used.len(),
        !used[k],
    ensures
        unused(used.update(k, true), n) == unused(used, n) - if k < n {
            1int
        } else {
            0int
        },
    decreases n,
{
    if n > 0 {
        lemma_used(used, k, (n - 1) as nat);
    }
}

/// Whether what runs into or out of a used reach is used.
pub open spec fn closed_up(reaches: Seq<Reach>, used: Seq<bool>) -> bool {
    forall|i: int, j: int|
        #[trigger] runs_into(reaches, i, j) ==> used[i] == used[j]
}

/// Whether the flags are up for what was used and what a chain holds.
pub open spec fn taken(was: Seq<bool>, chain: Seq<usize>, used: Seq<bool>) -> bool {
    &&& used.len() == was.len()
    &&& forall|i: int|
        0 <= i < used.len() ==> (#[trigger] used[i] <==> was[i] || chain.contains(i as usize))
    &&& forall|j: int| 0 <= j < chain.len() ==> (#[trigger] chain[j]) < was.len() && !was[chain[j] as int]
    &&& chain.no_duplicates()
}

proof fn lemma_contains_push(chain: Seq<usize>, x: usize)
    ensures
        forall|y: usize| #[trigger] chain.push(x).contains(y) <==> chain.contains(y) || y == x,
        forall|y: usize| #[trigger]
            chain.insert(0, x).contains(y) <==> chain.contains(y) || y == x,
{
    assert forall|y: usize| #[trigger] chain.push(x).contains(y) <==> chain.contains(y) || y
        == x by {
        if chain.contains(y) {
            let k = choose|k: int| 0 <= k < chain.len() && chain[k] == y;
            assert(chain.push(x)[k] == y);
        }
        if y == x {
            assert(chain.push(x)[chain.len() as int] == y);
        }
        if chain.push(x).contains(y) {
            let k = choose|k: int| 0 <= k < chain.push(x).len() && chain.push(x)[k] == y;
            if k < chain.len() {
                assert(chain[k] == y);
            }
        }
    }
    assert forall|y: usize| #[trigger] chain.insert(0, x).contains(y) <==> chain.contains(y) || y
        == x by {
        let more = chain.insert(0, x);
        if chain.contains(y) {
            let k = choose|k: int| 0 <= k < chain.len() && chain[k] == y;
            assert(more[k + 1] == y);
        }
        if y == x {
            assert(more[0] == y);
        }
        if more.contains(y) {
            let k = choose|k: int| 0 <= k < more.len() && more[k] == y;
            if k > 0 {
                assert(chain[k - 1] == y);
            }
        }
    }
}

/// The whole chain through an unused reach; its reaches are used up.
fn chain_through(reaches: &[Reach], used: &mut Vec<bool>, start: usize) -> (chain: Vec<usize>)
    requires
        start < reaches@.len(),
        old(used)@.len() == reaches@.len(),
        !old(used)@[start as int],
        closed_up(reaches@, old(used)@),
    ensures
        whole(reaches@, chain@),
        chain@.contains(start),
        taken(old(used)@, chain@, final(used)@),
        closed_up(reaches@, final(used)@),
{
    let ghost was = used@;
    let total: usize = used.len();
    assert(was.len() == total);
    let mut chain: Vec<usize> = Vec::new();
    chain.push(start);
    used.set(start, true);
    proof {
        lemma_contains_push(Seq::<usize>::empty(), start);
        assert(chain@ =~= Seq::<usize>::empty().push(start));
        assert forall|i: int| 0 <= i < used@.len() implies (#[trigger] used@[i] <==> was[i]
            || chain@.contains(i as usize)) by {
            assert(chain@.contains(i as usize) <==> i == start);
        }
    }
    let mut going: bool = true;
    while going
        invariant
            chain@.len() > 0,
            chain@.contains(start),
            used@.len() == reaches@.len(),
            was.len() == reaches@.len(),
            was.len() == total,
            linked(reaches@, chain@),
            taken(was, chain@, used@),
            closed_up(reaches@, was),
            !going ==> forall|i: int| #[trigger]
                runs_into(reaches@, i, chain@[0] as int) ==> used@[i],
        decreases unused(used@, used@.len()) + if going { 1nat } else { 0nat },
    {
        match unique_pred(reaches, chain[0]) {
            None => {
                going = false;
            },
            Some(p) => {
                if used[p] {
                    proof {
                        assert forall|i: int| #[trigger]
                            runs_into(reaches@, i, chain@[0] as int) implies used@[i] by {
                            lemma_runs_into(reaches@, chain@[0] as int, i, p as int);
                        }
                    }
                    going = false;
                } else {
                    let ghost had = chain@;
                    let ghost flags = used@;
                    proof {
                        lemma_used(used@, p as int, used@.len());
                        lemma_contains_push(had, p);
                    }
                    chain.insert(0, p);
                    used.set(p, true);
                    proof {
                        lemma_grown_front(reaches@, was, had, flags, p);
                    }
                }
            },
        }
    }
    going = true;
    while going
        invariant
            chain@.len() > 0,
            chain@.contains(start),
            used@.len() == reaches@.len(),
            was.len() == reaches@.len(),
            was.len() == total,
            linked(reaches@, chain@),
            taken(was, chain@, used@),
            closed_up(reaches@, was),
            forall|i: int| #[trigger] runs_into(reaches@, i, chain@[0] as int) ==> used@[i],
            !going ==> forall|i: int| #[trigger]
                runs_into(reaches@, chain@.last() as int, i) ==> used@[i],
        decreases unused(used@, used@.len()) + if going { 1nat } else { 0nat },
    {
        let last: usize = chain[chain.len() - 1];
        match unique_succ(reaches, last) {
            None => {
                going = false;
            },
            Some(n) => {
                if used[n] {
                    proof {
                        assert forall|i: int| #[trigger]
                            runs_into(reaches@, chain@.last() as int, i) implies used@[i] by {
                            lemma_runs_into(reaches@, chain@.last() as int, i, n as int);
                        }
                    }
                    going = false;
                } else {
                    let ghost had = chain@;
                    let ghost flags = used@;
                    proof {
                        lemma_used(used@, n as int, used@.len());
                        lemma_contains_push(had, n);
                    }
                    chain.push(n);
                    used.set(n, true);
                    proof {
                        lemma_grown_back(reaches@, was, had, flags, n);
                    }
                }
            },
        }
    }
    proof {
        lemma_whole(reaches@, was, chain@, used@);
    }
    chain
}

proof fn lemma_grown_front(
    reaches: Seq<Reach>,
    was: Seq<bool>,
    had: Seq<usize>,
    flags: Seq<bool>,
    p: usize,
)
    requires
        had.len() > 0,
        was.len() <= usize::MAX,
        linked(reaches, had),
        taken(was, had, flags),
        p < flags.len(),
        !flags[p as int],
        runs_into(reaches, p as int, had[0] as int),
    ensures
        linked(reaches, had.insert(0, p)),
        taken(was, had.insert(0, p), flags.update(p as int, true)),
{
    let chain = had.insert(0, p);
    lemma_contains_push(had, p);
    assert forall|j: int| 0 <= j < chain.len() - 1 implies runs_into(
        reaches,
        (#[trigger] chain[j]) as int,
        chain[j + 1] as int,
    ) by {
        if j > 0 {
            assert(chain[j] == had[j - 1]);
            assert(chain[j + 1] == had[j - 1 + 1]);
        }
    }
    let used = flags.update(p as int, true);
    assert forall|i: int| 0 <= i < used.len() implies (#[trigger] used[i] <==> was[i]
        || chain.contains(i as usize)) by {
        assert(flags[i] <==> was[i] || had.contains(i as usize));
        if i == p {
            assert(chain.contains(p));
        }
    }
    assert forall|j: int| 0 <= j < chain.len() implies (#[trigger] chain[j]) < was.len() && !was[chain[j] as int] by {
        if j > 0 {
            assert(chain[j] == had[j - 1]);
        }
    }
    assert forall|i: int, j: int| 0 <= i < chain.len() && 0 <= j < chain.len() && i
        != j implies chain[i] != chain[j] by {
        if i > 0 && j > 0 {
            assert(had[i - 1] != had[j - 1]);
        } else if i > 0 {
            assert(had.contains(had[i - 1]));
            assert(flags[had[i - 1] as int]);
        } else {
            assert(had.contains(had[j - 1]));
            assert(flags[had[j - 1] as int]);
        }
    }
}

proof fn lemma_grown_back(
    reaches: Seq<Reach>,
    was: Seq<bool>,
    had: Seq<usize>,
    flags: Seq<bool>,
    n: usize,
)
    requires
        had.len() > 0,
        was.len() <= usize::MAX,
        linked(reaches, had),
        taken(was, had, flags),
        n < flags.len(),
        !flags[n as int],
        runs_into(reaches, had.last() as int, n as int),
    ensures
        linked(reaches, had.push(n)),
        taken(was, had.push(n), flags.update(n as int, true)),
{
    let chain = had.push(n);
    lemma_contains_push(had, n);
    assert forall|j: int| 0 <= j < chain.len() - 1 implies runs_into(
        reaches,
        (#[trigger] chain[j]) as int,
        chain[j + 1] as int,
    ) by {
        assert(chain[j] == had[j]);
        if j < had.len() - 1 {
            assert(chain[j + 1] == had[j + 1]);
        }
    }
    let used = flags.update(n as int, true);
    assert forall|i: int| 0 <= i < used.len() implies (#[trigger] used[i] <==> was[i]
        || chain.contains(i as usize)) by {
        assert(flags[i] <==> was[i] || had.contains(i as usize));
        if i == n {
            assert(chain.contains(n));
        }
    }
    assert forall|j: int| 0 <= j < chain.len() implies (#[trigger] chain[j]) < was.len() && !was[chain[j] as int] by {
        if j < had.len() {
            assert(chain[j] == had[j]);
        }
    }
    assert forall|i: int, j: int| 0 <= i < chain.len() && 0 <= j < chain.len() && i
        != j implies chain[i] != chain[j] by {
        if i < had.len() && j < had.len() {
            assert(had[i] != had[j]);
        } else if i < had.len() {
            assert(had.contains(had[i]));
            assert(flags[had[i] as int]);
        } else {
            assert(had.contains(had[j]));
            assert(flags[had[j] as int]);
        }
    }
}

proof fn lemma_whole(reaches: Seq<Reach>, was: Seq<bool>, chain: Seq<usize>, used: Seq<bool>)
    requires
        chain.len() > 0,
        was.len() == reaches.len(),
        was.len() <= usize::MAX,
        linked(reaches, chain),
        taken(was, chain, used),
        closed_up(reaches, was),
        forall|i: int| #[trigger] runs_into(reaches, i, chain[0] as int) ==> used[i],
        forall|i: int| #[trigger] runs_into(reaches, chain.last() as int, i) ==> used[i],
    ensures
        whole(reaches, chain),
        closed_up(reaches, used),
{
    let first = chain[0];
    let last = chain[chain.len() - 1];
    assert(!was[first as int] && !was[last as int]);
    assert forall|i: int| #[trigger] runs_into(reaches, i, first as int) implies chain.contains(
        i as usize,
    ) by {
        assert(used[i] && !was[i]);
    }
    assert forall|i: int| #[trigger] runs_into(reaches, last as int, i) implies chain.contains(
        i as usize,
    ) by {
        assert(runs_into(reaches, chain.last() as int, i));
        assert(used[i] && !was[i]);
    }
    assert forall|i: int, j: int| #[trigger] runs_into(reaches, i, j) implies used[i]
        == used[j] by {
        assert(was[i] == was[j]);
        assert(0 <= i < reaches.len() && 0 <= j < reaches.len());
        if chain.contains(i as usize) {
            let k = choose|k: int| 0 <= k < chain.len() && chain[k] == i as usize;
            if k < chain.len() - 1 {
                assert(runs_into(reaches, chain[k] as int, chain[k + 1] as int));
                lemma_runs_into(reaches, i, j, chain[k + 1] as int);
                assert(chain.contains(chain[k + 1]));
            }
            assert(used[j]);
        }
        if chain.contains(j as usize) {
            let k = choose|k: int| 0 <= k < chain.len() && chain[k] == j as usize;
            if k > 0 {
                assert(runs_into(reaches, chain[k - 1] as int, chain[k - 1 + 1] as int));
                lemma_runs_into(reaches, j, i, chain[k - 1] as int);
                assert(chain.contains(chain[k - 1]));
            }
            assert(used[i]);
        }
    }
}

/// Whether a reach lies in one of the first `n` chains.
pub open spec fn chained(chains: Seq<Vec<usize>>, n: int, i: usize) -> bool {
    exists|c: int| 0 <= c < n && (#[trigger] chains[c])@.contains(i)
}

/// The smallest number of a reach in a chain.
pub open spec fn smallest(chain: Seq<usize>) -> usize
    decreases chain.len(),
{
    if chain.len() <= 1 {
        chain[0]
    } else {
        let rest = smallest(chain.drop_last());
        if chain.last() < rest {
            chain.last()
        } else {
            rest
        }
    }
}

proof fn lemma_smallest(chain: Seq<usize>)
    requires
        chain.len() > 0,
    ensures
        chain.contains(smallest(chain)),
        forall|j: int| 0 <= j < chain.len() ==> smallest(chain) <= #[trigger] chain[j],
    decreases chain.len(),
{
    if chain.len() > 1 {
        let rest = chain.drop_last();
        lemma_smallest(rest);
        let k = choose|k: int| 0 <= k < rest.len() && rest[k] == smallest(rest);
        assert(chain[k] == smallest(rest));
        assert(chain[chain.len() - 1] == chain.last());
        assert forall|j: int| 0 <= j < chain.len() implies smallest(chain)
            <= #[trigger] chain[j] by {
            if j < chain.len() - 1 {
                assert(chain[j] == rest[j]);
            }
        }
    } else {
        assert(chain[0] == smallest(chain));
    }
}

/// The whole chains of a set of reaches, by their smallest numbers: each reach in exactly
/// one, once.
pub fn stitch(reaches: &[Reach]) -> (chains: Vec<Vec<usize>>)
    ensures
        forall|c: int| 0 <= c < chains@.len() ==> whole(reaches@, (#[trigger] chains@[c])@),
        forall|c: int| 0 <= c < chains@.len() ==> (#[trigger] chains@[c])@.no_duplicates(),
        forall|c: int, j: int|
            0 <= c < chains@.len() && 0 <= j < chains@[c]@.len() ==> (#[trigger] chains@[c]@[j])
                < reaches@.len(),
        forall|i: usize| i < reaches@.len() ==> #[trigger] chained(chains@, chains@.len() as int, i),
        forall|c: int, d: int, i: usize|
            0 <= c < d < chains@.len() && #[trigger] chains@[c]@.contains(i)
                ==> !(#[trigger] chains@[d]@.contains(i)),
        forall|c: int, d: int|
            0 <= c < d < chains@.len() ==> smallest((#[trigger] chains@[c])@) < smallest(
                (#[trigger] chains@[d])@,
            ),
{
    let n: usize = reaches.len();
    let mut used: Vec<bool> = Vec::new();
    while used.len() < n
        invariant
            used@.len() <= n,
            forall|i: int| 0 <= i < used@.len() ==> !(#[trigger] used@[i]),
        decreases n - used@.len(),
    {
        used.push(false);
    }
    proof {
        assert forall|i: int, j: int| #[trigger] runs_into(reaches@, i, j) implies used@[i]
            == used@[j] by {
            assert(0 <= i < reaches@.len() && 0 <= j < reaches@.len());
        }
    }
    let mut chains: Vec<Vec<usize>> = Vec::new();
    let mut i: usize = 0;
    while i < n
        invariant
            i <= n,
            n == reaches@.len(),
            used@.len() == n,
            closed_up(reaches@, used@),
            forall|k: int| 0 <= k < i ==> #[trigger] used@[k],
            forall|k: int|
                0 <= k < n ==> (#[trigger] used@[k] <==> chained(
                    chains@,
                    chains@.len() as int,
                    k as usize,
                )),
            forall|c: int| 0 <= c < chains@.len() ==> whole(reaches@, (#[trigger] chains@[c])@),
            forall|c: int| 0 <= c < chains@.len() ==> (#[trigger] chains@[c])@.no_duplicates(),
            forall|c: int, j: int|
                0 <= c < chains@.len() && 0 <= j < chains@[c]@.len() ==> (
                #[trigger] chains@[c]@[j]) < n,
            forall|c: int, d: int, k: usize|
                0 <= c < d < chains@.len() && #[trigger] chains@[c]@.contains(k)
                    ==> !(#[trigger] chains@[d]@.contains(k)),
            forall|c: int| 0 <= c < chains@.len() ==> smallest((#[trigger] chains@[c])@) < i,
            forall|c: int, d: int|
                0 <= c < d < chains@.len() ==> smallest((#[trigger] chains@[c])@) < smallest(
                    (#[trigger] chains@[d])@,
                ),
        decreases n - i,
    {
        if !used[i] {
            let ghost was = used@;
            let ghost had = chains@;
            let chain: Vec<usize> = chain_through(reaches, &mut used, i);
            let ghost now = chain@;
            chains.push(chain);
            proof {
                let m = had.len() as int;
                assert(chains@[m]@ == now);
                assert forall|k: int| 0 <= k < n implies (#[trigger] used@[k] <==> chained(
                    chains@,
                    m + 1,
                    k as usize,
                )) by {
                    assert(was[k] <==> chained(had, m, k as usize));
                    if chained(had, m, k as usize) {
                        let c = choose|c: int|
                            0 <= c < m && (#[trigger] had[c])@.contains(k as usize);
                        assert(chains@[c]@.contains(k as usize));
                    }
                    if now.contains(k as usize) {
                        assert(chains@[m]@.contains(k as usize));
                    }
                    if chained(chains@, m + 1, k as usize) {
                        let c = choose|c: int|
                            0 <= c < m + 1 && (#[trigger] chains@[c])@.contains(k as usize);
                        if c < m {
                            assert(had[c]@.contains(k as usize));
                        }
                    }
                }
                assert forall|c: int, d: int, k: usize|
                    0 <= c < d < chains@.len() && #[trigger] chains@[c]@.contains(
                        k,
                    ) implies !(#[trigger] chains@[d]@.contains(k)) by {
                    assert(had[c]@.contains(k));
                    if d == m {
                        let j = choose|j: int| 0 <= j < had[c]@.len() && had[c]@[j] == k;
                        assert(chains@[c]@[j] < n);
                        assert(chained(had, m, k));
                        assert(was[k as int]);
                        if now.contains(k) {
                            let x = choose|x: int| 0 <= x < now.len() && now[x] == k;
                            assert(!was[now[x] as int]);
                        }
                    } else {
                        assert(!had[d]@.contains(k));
                    }
                }
                assert(used@[i as int]);
                assert(smallest(now) == i) by {
                    lemma_smallest(now);
                    assert(now.contains(i));
                    let x = choose|x: int| 0 <= x < now.len() && now[x] == i;
                    let y = choose|y: int| 0 <= y < now.len() && now[y] == smallest(now);
                    assert(!was[now[y] as int]);
                }
                assert forall|c: int| 0 <= c < chains@.len() implies smallest(
                    (#[trigger] chains@[c])@,
                ) < i + 1 by {
                    if c < m {
                        assert(chains@[c] == had[c]);
                    }
                }
                assert forall|c: int, d: int| 0 <= c < d < chains@.len() implies smallest(
                    (#[trigger] chains@[c])@,
                ) < smallest((#[trigger] chains@[d])@) by {
                    assert(chains@[c] == had[c]);
                    if d < m {
                        assert(chains@[d] == had[d]);
                    }
                }
            }
        }
        i += 1;
    }
    proof {
        assert forall|k: usize| k < reaches@.len() implies #[trigger] chained(
            chains@,
            chains@.len() as int,
            k,
        ) by {
            assert(used@[k as int]);
        }
    }
    chains
}

/// The class a chain is drawn with: the greatest of its reaches', at least one.
pub open spec fn chain_class(reaches: Seq<Reach>, chain: Seq<usize>, n: nat) -> int
    decreases n,
{
    if n == 0 {
        1
    } else {
        let rest = chain_class(reaches, chain, (n - 1) as nat);
        let c = reaches[chain[n - 1] as int].class as int;
        if c > rest {
            c
        } else {
            rest
        }
    }
}

/// A stitched river.
#[derive(Clone, Copy, Debug, PartialEq, Eq, Structural)]
pub struct RiverCourse {
    pub class: i32,
    pub sink: HydroSink,
    /// Whether it ends in the water it drains into.
    pub at_sink: bool,
}

/// What a chain of reaches is drawn as: it drains into what its last reach drains into.
pub fn river_course(reaches: &[Reach], chain: &[usize]) -> (r: RiverCourse)
    requires
        chain@.len() > 0,
        forall|j: int| 0 <= j < chain@.len() ==> (#[trigger] chain@[j]) < reaches@.len(),
    ensures
        r.class == chain_class(reaches@, chain@, chain@.len()),
        r.sink == reaches@[chain@.last() as int].sink,
        r.at_sink == (reaches@[chain@.last() as int].b_edge is None),
{
    let mut class: i32 = 1;
    let mut i: usize = 0;
    while i < chain.len()
        invariant
            i <= chain@.len(),
            class == chain_class(reaches@, chain@, i as nat),
            forall|j: int| 0 <= j < chain@.len() ==> (#[trigger] chain@[j]) < reaches@.len(),
        decreases chain@.len() - i,
    {
        let c: i32 = reaches[chain[i]].class;
        if c > class {
            class = c;
        }
        i += 1;
    }
    let last: Reach = reaches[chain[chain.len() - 1]];
    RiverCourse { class, sink: last.sink, at_sink: last.b_edge.is_none() }
}

/// A chain is drawn with the class of one of its reaches and of none lower than another's; one
/// at the least.
pub proof fn law_chains_have_the_greatest_class(
    reaches: Seq<Reach>,
    chain: Seq<usize>,
    n: nat,
    i: int,
)
    requires
        0 <= i < n <= chain.len(),
    ensures
        chain_class(reaches, chain, n) >= 1,
        chain_class(reaches, chain, n) >= reaches[chain[i] as int].class,
        chain_class(reaches, chain, n) == 1 || exists|j: int|
            0 <= j < n && reaches[(#[trigger] chain[j]) as int].class == chain_class(
                reaches,
                chain,
                n,
            ),
    decreases n,
{
    if n > 1 {
        let at = if i < n - 1 {
            i
        } else {
            0
        };
        law_chains_have_the_greatest_class(reaches, chain, (n - 1) as nat, at);
        if chain_class(reaches, chain, n) == chain_class(reaches, chain, (n - 1) as nat)
            && chain_class(reaches, chain, n) > 1 {
            let j = choose|j: int|
                0 <= j < n - 1 && reaches[(#[trigger] chain[j]) as int].class == chain_class(
                    reaches,
                    chain,
                    (n - 1) as nat,
                );
            assert(reaches[chain[j] as int].class == chain_class(reaches, chain, n));
        }
    } else {
        assert(chain_class(reaches, chain, 0) == 1);
    }
}

} // verus!
