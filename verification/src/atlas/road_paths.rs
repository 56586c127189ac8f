//! Stitching the corridors of single cells into road paths. Points are told apart by number;
//! which of them lie close together is given.

use vstd::prelude::*;

verus! {

/// Which points lie so close that two pieces join there, and which so close that they are
/// one: tables of `count` rows.
pub struct Closeness {
    pub count: usize,
    pub near: Vec<bool>,
    pub same: Vec<bool>,
}

impl Closeness {
    pub open spec fn well_formed(&self) -> bool {
        &&& self.near@.len() == self.count * self.count
        &&& self.same@.len() == self.count * self.count
    }

    pub open spec fn joins(&self, a: usize, b: usize) -> bool {
        self.near@[a * self.count + b]
    }

    pub open spec fn meets(&self, a: usize, b: usize) -> bool {
        self.same@[a * self.count + b]
    }

    /// Whether the points of a line are in the tables.
    pub open spec fn knows(&self, line: Seq<usize>) -> bool {
        forall|i: int| 0 <= i < line.len() ==> #[trigger] line[i] < self.count
    }

    fn place(&self, a: usize, b: usize) -> (r: usize)
        requires
            self.well_formed(),
            a < self.count,
            b < self.count,
        ensures
            r == a * self.count + b,
            r < self.near@.len(),
    {
        let total: usize = self.near.len();
        proof {
            assert(a * self.count + b < self.count * self.count) by (nonlinear_arith)
                requires
                    a < self.count,
                    b < self.count,
            ;
            assert(0 <= a * self.count) by (nonlinear_arith)
                requires
                    0 <= a,
                    0 <= self.count,
            ;
            assert(total == self.count * self.count);
        }
        a * self.count + b
    }

    fn do_join(&self, a: usize, b: usize) -> (r: bool)
        requires
            self.well_formed(),
            a < self.count,
            b < self.count,
        ensures
            r == self.joins(a, b),
    {
        self.near[self.place(a, b)]
    }

    fn do_meet(&self, a: usize, b: usize) -> (r: bool)
        requires
            self.well_formed(),
            a < self.count,
            b < self.count,
        ensures
            r == self.meets(a, b),
    {
        self.same[self.place(a, b)]
    }

    /// Whether two pieces run between the same two places, either way round.
    pub open spec fn same_run(&self, q: Seq<usize>, p: Seq<usize>) -> bool {
        ||| self.joins(q[0], p[0]) && self.joins(q.last(), p.last())
        ||| self.joins(q[0], p.last()) && self.joins(q.last(), p[0])
    }

    /// Whether one of the kept pieces runs as `p` does.
    pub open spec fn repeats(&self, kept: Seq<Seq<usize>>, p: Seq<usize>) -> bool {
        exists|i: int| 0 <= i < kept.len() && self.same_run(#[trigger] kept[i], p)
    }

    /// The first `n` pieces without lone points and without repetitions of kept ones.
    pub open spec fn distinct(&self, pieces: Seq<Seq<usize>>, n: nat) -> Seq<Seq<usize>>
        decreases n,
    {
        if n == 0 {
            Seq::empty()
        } else {
            let kept = self.distinct(pieces, (n - 1) as nat);
            let p = pieces[n - 1];
            if p.len() < 2 || self.repeats(kept, p) {
                kept
            } else {
                kept.push(p)
            }
        }
    }
}

/// Lines as sequences.
pub open spec fn lines(v: Seq<Vec<usize>>) -> Seq<Seq<usize>> {
    Seq::new(v.len(), |i: int| v[i]@)
}

/// Whether the points of all lines are in the tables.
pub open spec fn known(c: Closeness, v: Seq<Seq<usize>>) -> bool {
    forall|i: int| 0 <= i < v.len() ==> c.knows(#[trigger] v[i])
}

/// Whether every line has two points or more.
pub open spec fn long_enough(v: Seq<Seq<usize>>) -> bool {
    forall|i: int| 0 <= i < v.len() ==> (#[trigger] v[i]).len() >= 2
}

impl Closeness {
    /// The pieces without lone points and without repetitions.
    pub fn dedupe_pieces(&self, pieces: Vec<Vec<usize>>) -> (r: Vec<Vec<usize>>)
        requires
            self.well_formed(),
            known(*self, lines(pieces@)),
        ensures
            lines(r@) == self.distinct(lines(pieces@), pieces@.len()),
            known(*self, lines(r@)),
            long_enough(lines(r@)),
    {
        let ghost all = lines(pieces@);
        let n: usize = pieces.len();
        let mut pieces: Vec<Vec<usize>> = pieces;
        let mut out: Vec<Vec<usize>> = Vec::new();
        let mut i: usize = 0;
        assert(lines(out@) =~= self.distinct(all, 0));
        while i < n
            invariant
                i <= n,
                n == all.len(),
                n == pieces@.len(),
                self.well_formed(),
                known(*self, all),
                forall|k: int| i <= k < n ==> (#[trigger] pieces@[k])@ == all[k],
                lines(out@) == self.distinct(all, i as nat),
                known(*self, lines(out@)),
                long_enough(lines(out@)),
            decreases n - i,
        {
            let mut p: Vec<usize> = Vec::new();
            std::mem::swap(&mut p, &mut pieces[i]);
            assert(p@ == all[i as int]);
            assert(self.knows(all[i as int]));
            if p.len() >= 2 {
                let mut dup: bool = false;
                let mut k: usize = 0;
                while k < out.len()
                    invariant
                        k <= out@.len(),
                        self.well_formed(),
                        self.knows(p@),
                        p@.len() >= 2,
                        known(*self, lines(out@)),
                        long_enough(lines(out@)),
                        dup == exists|j: int|
                            0 <= j < k && self.same_run(#[trigger] lines(out@)[j], p@),
                    decreases out@.len() - k,
                {
                    let ghost q = lines(out@)[k as int];
                    assert(q == out@[k as int]@);
                    let qn: usize = out[k].len();
                    let qa: usize = out[k][0];
                    let qb: usize = out[k][qn - 1];
                    let pa: usize = p[0];
                    let pb: usize = p[p.len() - 1];
                    assert(q[0] == qa && q[qn - 1] == qb);
                    let again: bool = (self.do_join(qa, pa) && self.do_join(qb, pb)) || (
                    self.do_join(qa, pb) && self.do_join(qb, pa));
                    assert(again == self.same_run(q, p@));
                    if again {
                        assert(self.same_run(lines(out@)[k as int], p@));
                        dup = true;
                    }
                    k += 1;
                }
                assert(dup == self.repeats(lines(out@), p@));
                if !dup {
                    let ghost before = lines(out@);
                    out.push(p);
                    assert(lines(out@) =~= before.push(all[i as int]));
                }
            }
            i += 1;
        }
        out
    }
}

/// A list without one entry, the last moved into its place.
pub open spec fn swapped_out(v: Seq<Seq<usize>>, i: int) -> Seq<Seq<usize>> {
    v.update(i, v.last()).drop_last()
}

impl Closeness {
    /// The first piece that joins a chain: which it is, whether it joins at the chain's
    /// end, and whether it has to be turned.
    pub open spec fn next_piece(
        &self,
        chain: Seq<usize>,
        unused: Seq<Seq<usize>>,
        from: int,
    ) -> Option<(int, bool, bool)>
        decreases unused.len() - from,
    {
        if from < 0 || from >= unused.len() {
            None
        } else if self.joins(unused[from][0], chain.last()) {
            Some((from, true, false))
        } else if self.joins(unused[from].last(), chain.last()) {
            Some((from, true, true))
        } else if self.joins(unused[from].last(), chain[0]) {
            Some((from, false, false))
        } else if self.joins(unused[from][0], chain[0]) {
            Some((from, false, true))
        } else {
            self.next_piece(chain, unused, from + 1)
        }
    }

    /// Whether a piece would lead back over the chain.
    pub open spec fn folds_back(&self, chain: Seq<usize>, piece: Seq<usize>, at_tail: bool) -> bool {
        if chain.len() < 2 || piece.len() < 2 {
            false
        } else if at_tail {
            self.joins(chain[chain.len() - 2], piece[1])
        } else {
            self.joins(chain[1], piece[piece.len() - 2])
        }
    }

    /// The chain with a piece joined to it; a point that both share comes once.
    pub open spec fn with_piece(&self, chain: Seq<usize>, piece: Seq<usize>, at_tail: bool) -> Seq<
        usize,
    > {
        if at_tail {
            if self.meets(piece[0], chain.last()) {
                chain + piece.subrange(1, piece.len() as int)
            } else {
                chain + piece
            }
        } else if self.meets(piece.last(), chain[0]) {
            piece.drop_last() + chain
        } else {
            piece + chain
        }
    }

    /// A chain grown by piece after piece, and what is left. A piece that would lead back
    /// is dropped and ends the growing.
    pub open spec fn grown(&self, chain: Seq<usize>, unused: Seq<Seq<usize>>) -> (
        Seq<usize>,
        Seq<Seq<usize>>,
    )
        decreases unused.len(),
    {
        match self.next_piece(chain, unused, 0) {
            None => (chain, unused),
            Some((i, at_tail, turned)) => {
                if !(0 <= i < unused.len()) {
                    (chain, unused)
                } else {
                    let piece = if turned {
                        unused[i].reverse()
                    } else {
                        unused[i]
                    };
                    let rest = swapped_out(unused, i);
                    if self.folds_back(chain, piece, at_tail) {
                        (chain, rest)
                    } else {
                        self.grown(self.with_piece(chain, piece, at_tail), rest)
                    }
                }
            },
        }
    }

    /// Growing leaves no more than there was.
    pub proof fn lemma_grown(&self, chain: Seq<usize>, unused: Seq<Seq<usize>>)
        ensures
            self.grown(chain, unused).1.len() <= unused.len(),
        decreases unused.len(),
    {
        match self.next_piece(chain, unused, 0) {
            None => {},
            Some((i, at_tail, turned)) => {
                if 0 <= i < unused.len() {
                    let piece = if turned {
                        unused[i].reverse()
                    } else {
                        unused[i]
                    };
                    self.lemma_grown(
                        self.with_piece(chain, piece, at_tail),
                        swapped_out(unused, i),
                    );
                }
            },
        }
    }

    /// The chains that pieces are stitched to.
    pub open spec fn stitched(&self, unused: Seq<Seq<usize>>) -> Seq<Seq<usize>>
        decreases unused.len(),
    {
        if unused.len() == 0 {
            Seq::empty()
        } else {
            proof {
                self.lemma_grown(unused[0], swapped_out(unused, 0));
            }
            let g = self.grown(unused[0], swapped_out(unused, 0));
            if g.0.len() >= 2 {
                seq![g.0] + self.stitched(g.1)
            } else {
                self.stitched(g.1)
            }
        }
    }

    fn find_next(&self, chain: &Vec<usize>, unused: &Vec<Vec<usize>>) -> (r: Option<
        (usize, bool, bool),
    >)
        requires
            self.well_formed(),
            chain@.len() > 0,
            self.knows(chain@),
            known(*self, lines(unused@)),
            long_enough(lines(unused@)),
        ensures
            match self.next_piece(chain@, lines(unused@), 0) {
                Some((i, at_tail, turned)) => {
                    &&& r is Some
                    &&& (r->0).0 == i
                    &&& (r->0).1 == at_tail
                    &&& (r->0).2 == turned
                    &&& 0 <= i < unused@.len()
                },
                None => r is None,
            },
    {
        let head: usize = chain[0];
        let tail: usize = chain[chain.len() - 1];
        let mut i: usize = 0;
        while i < unused.len()
            invariant
                i <= unused@.len(),
                self.well_formed(),
                chain@.len() > 0,
                self.knows(chain@),
                head == chain@[0],
                tail == chain@[chain@.len() - 1],
                known(*self, lines(unused@)),
                long_enough(lines(unused@)),
                self.next_piece(chain@, lines(unused@), 0) == self.next_piece(
                    chain@,
                    lines(unused@),
                    i as int,
                ),
            decreases unused@.len() - i,
        {
            let ghost p = lines(unused@)[i as int];
            assert(p == unused@[i as int]@);
            assert(self.knows(p) && p.len() >= 2);
            let n: usize = unused[i].len();
            let a: usize = unused[i][0];
            let b: usize = unused[i][n - 1];
            assert(a == p[0] && b == p[n - 1]);
            if self.do_join(a, tail) {
                return Some((i, true, false));
            }
            if self.do_join(b, tail) {
                return Some((i, true, true));
            }
            if self.do_join(b, head) {
                return Some((i, false, false));
            }
            if self.do_join(a, head) {
                return Some((i, false, true));
            }
            i += 1;
        }
        None
    }

    fn is_fold(&self, chain: &Vec<usize>, piece: &Vec<usize>, at_tail: bool) -> (r: bool)
        requires
            self.well_formed(),
            self.knows(chain@),
            self.knows(piece@),
        ensures
            r == self.folds_back(chain@, piece@, at_tail),
    {
        if chain.len() < 2 || piece.len() < 2 {
            return false;
        }
        if at_tail {
            self.do_join(chain[chain.len() - 2], piece[1])
        } else {
            self.do_join(chain[1], piece[piece.len() - 2])
        }
    }

    fn join_piece(&self, chain: &mut Vec<usize>, piece: Vec<usize>, at_tail: bool)
        requires
            self.well_formed(),
            old(chain)@.len() > 0,
            piece@.len() > 0,
            self.knows(old(chain)@),
            self.knows(piece@),
        ensures
            final(chain)@ == self.with_piece(old(chain)@, piece@, at_tail),
            final(chain)@.len() > 0,
            self.knows(final(chain)@),
    {
        let ghost was = chain@;
        if at_tail {
            let skip: bool = self.do_meet(piece[0], chain[chain.len() - 1]);
            let mut rest: Vec<usize> = piece;
            if skip {
                rest.remove(0);
                assert(rest@ =~= piece@.subrange(1, piece@.len() as int));
            }
            chain.append(&mut rest);
        } else {
            let skip: bool = self.do_meet(piece[piece.len() - 1], chain[0]);
            let mut front: Vec<usize> = piece;
            if skip {
                front.pop();
                assert(front@ =~= piece@.drop_last());
            }
            front.append(chain);
            std::mem::swap(chain, &mut front);
        }
    }

    /// Stitches pieces into chains: each chain takes pieces that join its ends for as long
    /// as there are any.
    pub fn stitch_polylines(&self, unused: Vec<Vec<usize>>) -> (r: Vec<Vec<usize>>)
        requires
            self.well_formed(),
            known(*self, lines(unused@)),
            long_enough(lines(unused@)),
        ensures
            lines(r@) == self.stitched(lines(unused@)),
    {
        let ghost all = lines(unused@);
        let mut unused: Vec<Vec<usize>> = unused;
        let mut chains: Vec<Vec<usize>> = Vec::new();
        assert(lines(chains@) + self.stitched(all) =~= self.stitched(all));
        while unused.len() > 0
            invariant
                self.well_formed(),
                known(*self, lines(unused@)),
                long_enough(lines(unused@)),
                lines(chains@) + self.stitched(lines(unused@)) == self.stitched(all),
            decreases unused@.len(),
        {
            let ghost before = lines(unused@);
            assert(before[0].len() >= 2 && self.knows(before[0]));
            let mut chain: Vec<usize> = take_out(&mut unused, 0);
            let ghost target = self.grown(before[0], swapped_out(before, 0));
            proof {
                self.lemma_grown(before[0], swapped_out(before, 0));
                lemma_swapped(*self, before, 0);
            }
            let mut growing: bool = true;
            while growing
                invariant
                    self.well_formed(),
                    chain@.len() > 0,
                    self.knows(chain@),
                    known(*self, lines(unused@)),
                    long_enough(lines(unused@)),
                    unused@.len() < before.len(),
                    growing ==> self.grown(chain@, lines(unused@)) == target,
                    !growing ==> (chain@, lines(unused@)) == target,
                decreases unused@.len() + if growing { 1nat } else { 0nat },
            {
                match self.find_next(&chain, &unused) {
                    None => {
                        growing = false;
                    },
                    Some((i, at_tail, turned)) => {
                        let ghost had = lines(unused@);
                        proof {
                            lemma_swapped(*self, had, i as int);
                            assert(had[i as int].len() >= 2 && self.knows(had[i as int]));
                        }
                        let piece: Vec<usize> = take_out(&mut unused, i);
                        let piece: Vec<usize> = if turned {
                            turn(piece)
                        } else {
                            piece
                        };
                        assert(self.knows(piece@)) by {
                            assert forall|k: int| 0 <= k < piece@.len() implies #[trigger] piece@[k]
                                < self.count by {
                                if turned {
                                    assert(piece@[k] == had[i as int][piece@.len() - 1 - k]);
                                } else {
                                    assert(piece@[k] == had[i as int][k]);
                                }
                            }
                        }
                        if self.is_fold(&chain, &piece, at_tail) {
                            growing = false;
                        } else {
                            self.join_piece(&mut chain, piece, at_tail);
                        }
                    },
                }
            }
            if chain.len() >= 2 {
                let ghost so_far = lines(chains@);
                chains.push(chain);
                assert(lines(chains@) =~= so_far.push(target.0));
                assert(so_far + (seq![target.0] + self.stitched(target.1)) =~= lines(chains@)
                    + self.stitched(target.1));
            }
        }
        assert(lines(chains@) =~= self.stitched(all));
        chains
    }
}

proof fn lemma_swapped(c: Closeness, v: Seq<Seq<usize>>, i: int)
    requires
        0 <= i < v.len(),
        known(c, v),
        long_enough(v),
    ensures
        known(c, swapped_out(v, i)),
        long_enough(swapped_out(v, i)),
{
    let w = swapped_out(v, i);
    assert forall|k: int| 0 <= k < w.len() implies c.knows(#[trigger] w[k]) && w[k].len()
        >= 2 by {
        if k == i {
            assert(w[k] == v[v.len() - 1]);
        } else {
            assert(w[k] == v[k]);
        }
    }
}

/// Takes a line out of a list, moving the last into its place.
fn take_out(v: &mut Vec<Vec<usize>>, i: usize) -> (r: Vec<usize>)
    requires
        i < old(v)@.len(),
    ensures
        r@ == lines(old(v)@)[i as int],
        lines(final(v)@) == swapped_out(lines(old(v)@), i as int),
        final(v)@.len() == old(v)@.len() - 1,
{
    let ghost was = lines(v@);
    let r: Vec<usize> = v.swap_remove(i);
    assert(lines(v@) =~= swapped_out(was, i as int));
    r
}

fn turn(v: Vec<usize>) -> (r: Vec<usize>)
    ensures
        r@ == v@.reverse(),
{
    let mut r: Vec<usize> = Vec::new();
    let mut i: usize = v.len();
    while i > 0
        invariant
            i <= v@.len(),
            r@.len() == v@.len() - i,
            forall|k: int| 0 <= k < r@.len() ==> #[trigger] r@[k] == v@[v@.len() - 1 - k],
        decreases i,
    {
        i -= 1;
        r.push(v[i]);
    }
    assert(r@ =~= v@.reverse());
    r
}

/// Whether every point of a line is one of a set.
pub open spec fn drawn_from(line: Seq<usize>, points: Set<usize>) -> bool {
    forall|i: int| 0 <= i < line.len() ==> points.contains(#[trigger] line[i])
}

proof fn lemma_next_piece(c: Closeness, chain: Seq<usize>, unused: Seq<Seq<usize>>, from: int)
    requires
        from >= 0,
    ensures
        c.next_piece(chain, unused, from) is Some ==> 0 <= (c.next_piece(
            chain,
            unused,
            from,
        )->0).0 < unused.len(),
    decreases unused.len() - from,
{
    if from < unused.len() {
        lemma_next_piece(c, chain, unused, from + 1);
    }
}

proof fn lemma_grown_points(
    c: Closeness,
    chain: Seq<usize>,
    unused: Seq<Seq<usize>>,
    points: Set<usize>,
)
    requires
        drawn_from(chain, points),
        forall|i: int| 0 <= i < unused.len() ==> drawn_from(#[trigger] unused[i], points),
        long_enough(unused),
    ensures
        drawn_from(c.grown(chain, unused).0, points),
        long_enough(c.grown(chain, unused).1),
        forall|i: int|
            0 <= i < c.grown(chain, unused).1.len() ==> drawn_from(
                #[trigger] c.grown(chain, unused).1[i],
                points,
            ),
    decreases unused.len(),
{
    lemma_next_piece(c, chain, unused, 0);
    match c.next_piece(chain, unused, 0) {
        None => {},
        Some((i, at_tail, turned)) => {
            let piece = if turned {
                unused[i].reverse()
            } else {
                unused[i]
            };
            let rest = swapped_out(unused, i);
            assert forall|k: int| 0 <= k < rest.len() implies drawn_from(
                #[trigger] rest[k],
                points,
            ) && rest[k].len() >= 2 by {
                if k == i {
                    assert(rest[k] == unused[unused.len() - 1]);
                } else {
                    assert(rest[k] == unused[k]);
                }
            }
            assert(unused[i].len() >= 2 && drawn_from(unused[i], points));
            if !c.folds_back(chain, piece, at_tail) {
                assert forall|k: int| 0 <= k < piece.len() implies points.contains(
                    #[trigger] piece[k],
                ) by {
                    if turned {
                        assert(piece[k] == unused[i][unused[i].len() - 1 - k]);
                    }
                }
                let more = c.with_piece(chain, piece, at_tail);
                assert forall|k: int| 0 <= k < more.len() implies points.contains(
                    #[trigger] more[k],
                ) by {
                    if at_tail {
                        if k < chain.len() {
                            assert(more[k] == chain[k]);
                        } else if c.meets(piece[0], chain.last()) {
                            assert(more[k] == piece[k - chain.len() + 1]);
                        } else {
                            assert(more[k] == piece[k - chain.len()]);
                        }
                    } else {
                        let cut = if c.meets(piece.last(), chain[0]) {
                            piece.len() - 1
                        } else {
                            piece.len() as int
                        };
                        if k < cut {
                            assert(more[k] == piece[k]);
                        } else {
                            assert(more[k] == chain[k - cut]);
                        }
                    }
                }
                lemma_grown_points(c, more, rest, points);
            }
        },
    }
}

/// Stitching draws no new points: every point of a chain is one that a piece holds, and
/// every chain is a line.
pub proof fn law_stitching_adds_no_points(
    c: Closeness,
    pieces: Seq<Seq<usize>>,
    points: Set<usize>,
    i: int,
)
    requires
        long_enough(pieces),
        forall|k: int| 0 <= k < pieces.len() ==> drawn_from(#[trigger] pieces[k], points),
        0 <= i < c.stitched(pieces).len(),
    ensures
        drawn_from(c.stitched(pieces)[i], points),
        c.stitched(pieces)[i].len() >= 2,
    decreases pieces.len(),
{
    let rest = swapped_out(pieces, 0);
    assert forall|k: int| 0 <= k < rest.len() implies drawn_from(#[trigger] rest[k], points)
        && rest[k].len() >= 2 by {
        if k == 0 {
            assert(rest[k] == pieces[pieces.len() - 1]);
        } else {
            assert(rest[k] == pieces[k]);
        }
    }
    assert(drawn_from(pieces[0], points));
    c.lemma_grown(pieces[0], rest);
    lemma_grown_points(c, pieces[0], rest, points);
    let g = c.grown(pieces[0], rest);
    if g.0.len() >= 2 {
        if i > 0 {
            assert(c.stitched(pieces)[i] == c.stitched(g.1)[i - 1]);
            law_stitching_adds_no_points(c, g.1, points, i - 1);
        } else {
            assert(c.stitched(pieces)[0] == g.0);
        }
    } else {
        law_stitching_adds_no_points(c, g.1, points, i);
    }
}

} // verus!
