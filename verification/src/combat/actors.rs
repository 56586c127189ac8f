//! Actors of the live world: identities, spawn seeds and who presents them.

use vstd::prelude::*;

verus! {

/// The identity of an actor: a number that is never given twice, and the index it has
/// while it is seated.
#[derive(Clone, Copy, Debug, Eq, Hash, Ord, PartialEq, PartialOrd, Structural)]
pub struct ActorId {
    pub canonical: u32,
    pub runtime_index: i32,
}

/// The player.
pub open spec fn player_id() -> ActorId {
    ActorId { canonical: 0, runtime_index: -1i32 }
}

/// Whether `a` comes before `b`: by number, then by index.
pub open spec fn actor_before(a: ActorId, b: ActorId) -> bool {
    a.canonical < b.canonical || (a.canonical == b.canonical && a.runtime_index < b.runtime_index)
}

impl ActorId {
    pub fn player() -> (r: Self)
        ensures
            r == player_id(),
    {
        ActorId { canonical: 0, runtime_index: -1 }
    }

    pub fn from_runtime_index(index: i32) -> (r: Self)
        requires
            index >= 0,
        ensures
            r.canonical == index + 1,
            r.runtime_index == index,
            r != player_id(),
    {
        ActorId { canonical: index as u32 + 1, runtime_index: index }
    }

    pub fn canonical(self) -> (r: u32)
        ensures
            r == self.canonical,
    {
        self.canonical
    }

    /// The index of a seated actor; the player has none.
    pub fn runtime_index(self) -> (r: Option<i32>)
        ensures
            r == if self == player_id() {
                None
            } else {
                Some(self.runtime_index)
            },
    {
        if self == ActorId::player() {
            None
        } else {
            Some(self.runtime_index)
        }
    }

    pub fn before(self, other: Self) -> (r: bool)
        ensures
            r == actor_before(self, other),
    {
        self.canonical < other.canonical || (self.canonical == other.canonical
            && self.runtime_index < other.runtime_index)
    }
}

/// What the draws of a spawned actor are made from.
#[derive(Clone, Copy, Debug, Eq, Hash, PartialEq, Structural)]
pub struct SpawnSeed {
    pub word: u64,
}

impl SpawnSeed {
    pub fn new(value: u64) -> (r: Self)
        ensures
            r.word == value,
    {
        SpawnSeed { word: value }
    }

    pub fn value(self) -> (r: u64)
        ensures
            r == self.word,
    {
        self.word
    }
}

/// A word with its bits stirred.
pub open spec fn stirred(v: u64) -> u64 {
    let a = v ^ (v >> 30);
    let b = a.wrapping_mul(0xbf58476d1ce4e5b9);
    let c = b ^ (b >> 27);
    let d = c.wrapping_mul(0x94d049bb133111eb);
    d ^ (d >> 31)
}

pub fn mix64(v: u64) -> (r: u64)
    ensures
        r == stirred(v),
{
    let a: u64 = v ^ (v >> 30);
    let b: u64 = a.wrapping_mul(0xbf58476d1ce4e5b9);
    let c: u64 = b ^ (b >> 27);
    let d: u64 = c.wrapping_mul(0x94d049bb133111eb);
    d ^ (d >> 31)
}

/// The `draw`-th draw of a seed, in parts of 2^53.
pub open spec fn drawn_part(seed: SpawnSeed, draw: u64) -> u64 {
    stirred(seed.word ^ draw.wrapping_mul(0x9e3779b97f4a7c15)) >> 11
}

/// Every draw is less than one, 2^53 parts.
pub proof fn law_draws_are_shares(seed: SpawnSeed, draw: u64)
    ensures
        drawn_part(seed, draw) < 0x20_0000_0000_0000,
{
    let word: u64 = stirred(seed.word ^ draw.wrapping_mul(0x9e3779b97f4a7c15));
    assert(word >> 11 < 0x20_0000_0000_0000u64) by (bit_vector);
}

/// The `draw`-th draw of a seed: a share of one, in parts of 2^53.
pub fn deterministic_unit(seed: SpawnSeed, draw: u64) -> (r: u64)
    ensures
        r == drawn_part(seed, draw),
        r < 0x20_0000_0000_0000,
{
    let word: u64 = mix64(seed.word ^ draw.wrapping_mul(0x9e3779b97f4a7c15));
    assert(word >> 11 < 0x20_0000_0000_0000u64) by (bit_vector);
    word >> 11
}

/// The word after the first `n` bytes were stirred in.
pub open spec fn stirred_bytes(h: u64, id: Seq<u8>, n: nat) -> u64
    decreases n,
{
    if n == 0 {
        h
    } else {
        stirred(stirred_bytes(h, id, (n - 1) as nat) ^ (id[n - 1] as u64))
    }
}

/// The bits of a word turned 17 places up.
pub open spec fn turned(v: u64) -> u64 {
    (v << 17) | (v >> 47)
}

/// The seed of an actor from its index, the bytes of its mob and the bits of where it
/// stands.
pub open spec fn spawn_word(idx: i32, id: Seq<u8>, x_bits: u64, z_bits: u64) -> u64 {
    stirred(stirred_bytes(stirred(idx as u64), id, id.len()) ^ x_bits ^ turned(z_bits))
}

pub fn stable_spawn_hash(idx: i32, id: &[u8], x_bits: u64, z_bits: u64) -> (r: u64)
    requires
        idx >= 0,
    ensures
        r == spawn_word(idx, id@, x_bits, z_bits),
{
    let start: u64 = mix64(idx as u64);
    let mut h: u64 = start;
    let mut i: usize = 0;
    while i < id.len()
        invariant
            i <= id@.len(),
            h == stirred_bytes(start, id@, i as nat),
        decreases id@.len() - i,
    {
        h = mix64(h ^ (id[i] as u64));
        i += 1;
    }
    mix64(h ^ x_bits ^ ((z_bits << 17) | (z_bits >> 47)))
}

/// Whether an index is the greatest of a list, or -1 where the list is empty.
pub open spec fn greatest(indices: Seq<i32>, top: int) -> bool {
    &&& forall|i: int| 0 <= i < indices.len() ==> #[trigger] indices[i] <= top
    &&& top == -1 || exists|i: int| 0 <= i < indices.len() && #[trigger] indices[i] == top
}

/// The index after the greatest one in use. Seated actors have indices from 0 on.
pub fn next_actor_runtime_index(indices: &[i32]) -> (r: i32)
    requires
        forall|i: int| 0 <= i < indices@.len() ==> 0 <= #[trigger] indices@[i] < i32::MAX,
    ensures
        greatest(indices@, r - 1),
        r >= 0,
        !indices@.contains(r),
{
    let mut top: i32 = -1;
    let mut k: usize = 0;
    while k < indices.len()
        invariant
            k <= indices@.len(),
            -1 <= top < i32::MAX,
            forall|i: int| 0 <= i < indices@.len() ==> 0 <= #[trigger] indices@[i] < i32::MAX,
            forall|i: int| 0 <= i < k ==> #[trigger] indices@[i] <= top,
            top == -1 || exists|i: int| 0 <= i < k && #[trigger] indices@[i] == top,
        decreases indices@.len() - k,
    {
        if indices[k] > top {
            top = indices[k];
            assert(indices@[k as int] == top);
        }
        k += 1;
    }
    top + 1
}

/// Hands out the identities of actors.
#[derive(Clone, Copy, Debug, PartialEq, Eq, Structural)]
pub struct ActorSequence {
    pub next: u32,
}

impl ActorSequence {
    /// Nothing handed out yet: the first actor gets 1, 0 is the player's.
    pub fn start() -> (r: Self)
        ensures
            r.next == 1,
    {
        ActorSequence { next: 1 }
    }

    /// The identity of a newly seated actor; the number is used up.
    pub fn assigned(&mut self, runtime_index: i32) -> (r: ActorId)
        requires
            0 < old(self).next < u32::MAX,
            runtime_index >= 0,
        ensures
            r.canonical == old(self).next,
            r.runtime_index == runtime_index,
            r != player_id(),
            final(self).next == old(self).next + 1,
    {
        let id: ActorId = ActorId { canonical: self.next, runtime_index };
        self.next = self.next + 1;
        id
    }
}

/// Two actors that were seated one after the other never share an identity, and the
/// later one comes after the earlier.
pub proof fn law_identities_are_not_reused(a: ActorId, b: ActorId, first: ActorSequence)
    requires
        a.canonical == first.next,
        b.canonical > first.next,
    ensures
        a != b,
        actor_before(a, b),
{
}

/// Who draws the body of an actor.
#[derive(Clone, Copy, Debug, Eq, PartialEq, Structural)]
pub enum HostilePresentationSource {
    /// Nobody: the actor has no body in the world.
    Headless,
    /// The layer of the wild animals.
    Fauna,
    /// The layer of the combat meshes.
    CombatLayer,
}

/// The body of an actor: who draws it, and which entity it is.
#[derive(Clone, Copy, Debug, Eq, PartialEq, Structural)]
pub struct ActorPresentation {
    pub source: HostilePresentationSource,
    pub entity: u64,
}

impl ActorPresentation {
    pub fn source(self) -> (r: HostilePresentationSource)
        ensures
            r == self.source,
    {
        self.source
    }

    pub fn entity(self) -> (r: u64)
        ensures
            r == self.entity,
    {
        self.entity
    }
}

/// One body, bound to its actor.
#[derive(Clone, Copy, Debug, Eq, PartialEq, Structural)]
pub struct Binding {
    pub actor: ActorId,
    pub body: ActorPresentation,
}

/// The bodies of the actors, in the order of the actors.
#[derive(Clone, Debug)]
pub struct ActorPresentationRegistry {
    pub bindings: Vec<Binding>,
}

pub open spec fn bindings_ordered(b: Seq<Binding>) -> bool {
    forall|i: int, j: int|
        0 <= i < j < b.len() ==> actor_before((#[trigger] b[i]).actor, (#[trigger] b[j]).actor)
}

/// Where an actor is among the bindings.
pub open spec fn binding_of(b: Seq<Binding>, actor: ActorId) -> Option<ActorPresentation> {
    if exists|i: int| 0 <= i < b.len() && (#[trigger] b[i]).actor == actor {
        Some((b[choose|i: int| 0 <= i < b.len() && (#[trigger] b[i]).actor == actor]).body)
    } else {
        None
    }
}

proof fn lemma_binding_at(b: Seq<Binding>, i: int)
    requires
        bindings_ordered(b),
        0 <= i < b.len(),
    ensures
        binding_of(b, b[i].actor) == Some(b[i].body),
{
    let k = choose|k: int| 0 <= k < b.len() && (#[trigger] b[k]).actor == b[i].actor;
    assert(b[i].actor == b[i].actor);
    if k < i {
        assert(actor_before(b[k].actor, b[i].actor));
    } else if i < k {
        assert(actor_before(b[i].actor, b[k].actor));
    }
}

/// The entities drawn by a source, in the order of their actors.
pub open spec fn drawn_by(
    b: Seq<Binding>,
    source: HostilePresentationSource,
) -> Seq<u64>
    decreases b.len(),
{
    if b.len() == 0 {
        Seq::empty()
    } else if b.last().body.source == source {
        drawn_by(b.drop_last(), source).push(b.last().body.entity)
    } else {
        drawn_by(b.drop_last(), source)
    }
}

/// The bindings that are not of a source.
pub open spec fn not_of(b: Seq<Binding>, source: HostilePresentationSource) -> Seq<Binding>
    decreases b.len(),
{
    if b.len() == 0 {
        Seq::empty()
    } else if b.last().body.source == source {
        not_of(b.drop_last(), source)
    } else {
        not_of(b.drop_last(), source).push(b.last())
    }
}

proof fn lemma_not_of(b: Seq<Binding>, source: HostilePresentationSource)
    requires
        bindings_ordered(b),
    ensures
        bindings_ordered(not_of(b, source)),
        forall|x: Binding| #[trigger]
            not_of(b, source).contains(x) <==> b.contains(x) && x.body.source != source,
    decreases b.len(),
{
    if b.len() > 0 {
        let rest = b.drop_last();
        assert(bindings_ordered(rest)) by {
            assert forall|i: int, j: int| 0 <= i < j < rest.len() implies actor_before(
                (#[trigger] rest[i]).actor,
                (#[trigger] rest[j]).actor,
            ) by {
                assert(actor_before(b[i].actor, b[j].actor));
            }
        }
        lemma_not_of(rest, source);
        let kept = not_of(rest, source);
        let all = not_of(b, source);
        if b.last().body.source != source {
            assert forall|i: int, j: int| 0 <= i < j < all.len() implies actor_before(
                (#[trigger] all[i]).actor,
                (#[trigger] all[j]).actor,
            ) by {
                if j == all.len() - 1 {
                    assert(kept.contains(kept[i]));
                    assert(rest.contains(kept[i]));
                    let k = choose|k: int| 0 <= k < rest.len() && rest[k] == kept[i];
                    assert(actor_before(b[k].actor, b[b.len() - 1].actor));
                } else {
                    assert(actor_before(kept[i].actor, kept[j].actor));
                }
            }
        }
        assert forall|x: Binding| #[trigger] all.contains(x) <==> b.contains(x) && x.body.source
            != source by {
            if all.contains(x) {
                let k = choose|k: int| 0 <= k < all.len() && all[k] == x;
                if b.last().body.source != source && k == all.len() - 1 {
                    assert(b[b.len() - 1] == x);
                } else {
                    assert(kept[k] == x);
                    assert(kept.contains(x));
                    assert(rest.contains(x));
                    let m = choose|m: int| 0 <= m < rest.len() && rest[m] == x;
                    assert(b[m] == x);
                }
            }
            if b.contains(x) && x.body.source != source {
                let k = choose|k: int| 0 <= k < b.len() && b[k] == x;
                if k == b.len() - 1 {
                    assert(all[all.len() - 1] == x);
                } else {
                    assert(rest[k] == x);
                    assert(rest.contains(x));
                    assert(kept.contains(x));
                    let m = choose|m: int| 0 <= m < kept.len() && kept[m] == x;
                    assert(all[m] == x);
                }
            }
        }
    }
}

impl ActorPresentationRegistry {
    /// Each actor once, in the order of the actors, and nobody headless.
    pub open spec fn wf(&self) -> bool {
        &&& bindings_ordered(self.bindings@)
        &&& forall|i: int|
            0 <= i < self.bindings@.len() ==> (#[trigger] self.bindings@[i]).body.source
                != HostilePresentationSource::Headless
    }

    /// The body of an actor.
    pub open spec fn body_of(&self, actor: ActorId) -> Option<ActorPresentation> {
        binding_of(self.bindings@, actor)
    }

    pub fn new() -> (r: Self)
        ensures
            r.wf(),
            forall|a: ActorId| #[trigger] r.body_of(a) is None,
    {
        ActorPresentationRegistry { bindings: Vec::new() }
    }

    fn seek(&self, actor: ActorId) -> (r: (usize, bool))
        requires
            self.wf(),
        ensures
            r.0 <= self.bindings@.len(),
            r.1 == (self.body_of(actor) is Some),
            r.1 ==> r.0 < self.bindings@.len() && self.bindings@[r.0 as int].actor == actor,
            forall|i: int|
                0 <= i < r.0 ==> actor_before((#[trigger] self.bindings@[i]).actor, actor),
            !r.1 ==> forall|i: int|
                r.0 <= i < self.bindings@.len() ==> actor_before(
                    actor,
                    (#[trigger] self.bindings@[i]).actor,
                ),
    {
        let mut i: usize = 0;
        while i < self.bindings.len() && self.bindings[i].actor.before(actor)
            invariant
                i <= self.bindings@.len(),
                forall|j: int|
                    0 <= j < i ==> actor_before((#[trigger] self.bindings@[j]).actor, actor),
            decreases self.bindings@.len() - i,
        {
            i += 1;
        }
        let here: bool = i < self.bindings.len() && self.bindings[i].actor == actor;
        proof {
            let b = self.bindings@;
            if here {
                assert(b[i as int].actor == actor);
            } else {
                assert forall|k: int| i <= k < b.len() implies actor_before(
                    actor,
                    (#[trigger] b[k]).actor,
                ) by {
                    if i < k {
                        assert(actor_before(b[i as int].actor, b[k].actor));
                    }
                }
            }
        }
        (i, here)
    }

    /// Gives an actor without a body one.
    pub fn bind(&mut self, actor: ActorId, source: HostilePresentationSource, entity: u64)
        requires
            old(self).wf(),
            source != HostilePresentationSource::Headless,
            old(self).body_of(actor) is None,
        ensures
            final(self).wf(),
            forall|a: ActorId| #[trigger]
                final(self).body_of(a) == if a == actor {
                    Some(ActorPresentation { source, entity })
                } else {
                    old(self).body_of(a)
                },
    {
        let at: (usize, bool) = self.seek(actor);
        let ghost was = self.bindings@;
        let body: ActorPresentation = ActorPresentation { source, entity };
        self.bindings.insert(at.0, Binding { actor, body });
        proof {
            let p = at.0 as int;
            let now = self.bindings@;
            assert(now =~= was.insert(p, Binding { actor, body }));
            assert forall|i: int, j: int| 0 <= i < j < now.len() implies actor_before(
                (#[trigger] now[i]).actor,
                (#[trigger] now[j]).actor,
            ) by {
                let wi = if i < p {
                    i
                } else {
                    i - 1
                };
                let wj = if j < p {
                    j
                } else {
                    j - 1
                };
                if i != p && j != p {
                    assert(actor_before(was[wi].actor, was[wj].actor));
                } else if i == p {
                    assert(actor_before(actor, was[wj].actor));
                } else {
                    assert(actor_before(was[wi].actor, actor));
                }
            }
            assert forall|a: ActorId| #[trigger] binding_of(now, a) == if a == actor {
                Some(body)
            } else {
                binding_of(was, a)
            } by {
                lemma_binding_at(now, p);
                if a != actor {
                    if binding_of(was, a) is Some {
                        let k = choose|k: int|
                            0 <= k < was.len() && (#[trigger] was[k]).actor == a;
                        lemma_binding_at(was, k);
                        let nk = if k < p {
                            k
                        } else {
                            k + 1
                        };
                        assert(now[nk] == was[k]);
                        lemma_binding_at(now, nk);
                    } else if binding_of(now, a) is Some {
                        let k = choose|k: int|
                            0 <= k < now.len() && (#[trigger] now[k]).actor == a;
                        let wk = if k < p {
                            k
                        } else {
                            k - 1
                        };
                        assert(was[wk].actor == a);
                    }
                }
            }
        }
    }

    pub fn get(&self, actor: ActorId) -> (r: Option<ActorPresentation>)
        requires
            self.wf(),
        ensures
            r == self.body_of(actor),
    {
        let at: (usize, bool) = self.seek(actor);
        if at.1 {
            proof {
                lemma_binding_at(self.bindings@, at.0 as int);
            }
            Some(self.bindings[at.0].body)
        } else {
            None
        }
    }

    /// Takes the body from an actor whose body a source draws.
    pub fn unbind(&mut self, actor: ActorId, source: HostilePresentationSource) -> (r: u64)
        requires
            old(self).wf(),
            old(self).body_of(actor) is Some,
            old(self).body_of(actor)->0.source == source,
        ensures
            final(self).wf(),
            r == old(self).body_of(actor)->0.entity,
            forall|a: ActorId| #[trigger]
                final(self).body_of(a) == if a == actor {
                    None
                } else {
                    old(self).body_of(a)
                },
    {
        let at: (usize, bool) = self.seek(actor);
        let ghost was = self.bindings@;
        proof {
            lemma_binding_at(was, at.0 as int);
        }
        let gone: Binding = self.bindings.remove(at.0);
        proof {
            let p = at.0 as int;
            let now = self.bindings@;
            assert(now =~= was.remove(p));
            assert forall|i: int, j: int| 0 <= i < j < now.len() implies actor_before(
                (#[trigger] now[i]).actor,
                (#[trigger] now[j]).actor,
            ) by {
                let wi = if i < p {
                    i
                } else {
                    i + 1
                };
                let wj = if j < p {
                    j
                } else {
                    j + 1
                };
                assert(actor_before(was[wi].actor, was[wj].actor));
            }
            assert forall|a: ActorId| #[trigger] binding_of(now, a) == if a == actor {
                None
            } else {
                binding_of(was, a)
            } by {
                if binding_of(now, a) is Some {
                    let k = choose|k: int| 0 <= k < now.len() && (#[trigger] now[k]).actor == a;
                    let wk = if k < p {
                        k
                    } else {
                        k + 1
                    };
                    assert(now[k] == was[wk]);
                    if wk < p {
                        assert(actor_before(was[wk].actor, was[p].actor));
                    } else {
                        assert(actor_before(was[p].actor, was[wk].actor));
                    }
                    lemma_binding_at(now, k);
                    lemma_binding_at(was, wk);
                } else if a != actor && binding_of(was, a) is Some {
                    let k = choose|k: int| 0 <= k < was.len() && (#[trigger] was[k]).actor == a;
                    let nk = if k < p {
                        k
                    } else {
                        k - 1
                    };
                    assert(now[nk].actor == a);
                }
            }
        }
        gone.body.entity
    }

    /// Takes every body a source draws; gives the entities in the order of the actors.
    pub fn remove_source(&mut self, source: HostilePresentationSource) -> (r: Vec<u64>)
        requires
            old(self).wf(),
        ensures
            final(self).wf(),
            r@ == drawn_by(old(self).bindings@, source),
            final(self).bindings@ == not_of(old(self).bindings@, source),
    {
        let mut out: Vec<u64> = Vec::new();
        let mut kept: Vec<Binding> = Vec::new();
        let mut i: usize = 0;
        while i < self.bindings.len()
            invariant
                i <= self.bindings@.len(),
                out@ == drawn_by(self.bindings@.take(i as int), source),
                kept@ == not_of(self.bindings@.take(i as int), source),
            decreases self.bindings@.len() - i,
        {
            proof {
                let now = self.bindings@.take(i as int);
                let next = self.bindings@.take(i + 1);
                assert(next.drop_last() =~= now);
                assert(next.last() == self.bindings@[i as int]);
            }
            let b: Binding = self.bindings[i];
            if b.body.source == source {
                out.push(b.body.entity);
            } else {
                kept.push(b);
            }
            i += 1;
        }
        let ghost was = self.bindings@;
        proof {
            assert(was.take(i as int) =~= was);
            lemma_not_of(was, source);
        }
        self.bindings = kept;
        proof {
            assert forall|k: int| 0 <= k < self.bindings@.len() implies (
            #[trigger] self.bindings@[k]).body.source != HostilePresentationSource::Headless by {
                assert(not_of(was, source).contains(self.bindings@[k]));
                let m = choose|m: int| 0 <= m < was.len() && was[m] == self.bindings@[k];
                assert(was[m].body.source != HostilePresentationSource::Headless);
            }
        }
        out
    }

    pub fn clear(&mut self)
        ensures
            final(self).wf(),
            forall|a: ActorId| #[trigger] final(self).body_of(a) is None,
    {
        self.bindings = Vec::new();
    }
}

/// Once a source's bodies are taken, no actor has a body of that source, and every
/// other body is still there.
pub proof fn law_removed_source_is_gone(
    before: Seq<Binding>,
    source: HostilePresentationSource,
    actor: ActorId,
)
    requires
        bindings_ordered(before),
    ensures
        binding_of(not_of(before, source), actor) == match binding_of(before, actor) {
            Some(body) => if body.source == source {
                None
            } else {
                Some(body)
            },
            None => None,
        },
{
    let now = not_of(before, source);
    lemma_not_of(before, source);
    if binding_of(now, actor) is Some {
        let k = choose|k: int| 0 <= k < now.len() && (#[trigger] now[k]).actor == actor;
        assert(now.contains(now[k]));
        assert(before.contains(now[k]));
        let m = choose|m: int| 0 <= m < before.len() && before[m] == now[k];
        lemma_binding_at(now, k);
        lemma_binding_at(before, m);
    } else if binding_of(before, actor) is Some {
        let k = choose|k: int| 0 <= k < before.len() && (#[trigger] before[k]).actor == actor;
        lemma_binding_at(before, k);
        assert(before.contains(before[k]));
        if before[k].body.source != source {
            assert(now.contains(before[k]));
            let m = choose|m: int| 0 <= m < now.len() && now[m] == before[k];
            assert(now[m].actor == actor);
        }
    }
}

} // verus!
