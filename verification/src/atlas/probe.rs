//! Choosing a place to enter the world from a raster of probed columns. Heights and shares
//! are given by rank: a greater one has the greater rank.

use vstd::prelude::*;

verus! {

/// What a probed column is like.
#[derive(Clone, Copy, Debug, PartialEq, Eq, Structural)]
pub struct ColumnProbe {
    pub wet: bool,
    /// How far under water the column lies.
    pub wetness: i64,
    /// How high its ground is.
    pub ground: i64,
    /// How much timber grows on it.
    pub timber: i64,
}

/// What a place is chosen for.
#[derive(Clone, Copy, Debug, PartialEq, Eq, Structural)]
pub enum Seek {
    Driest,
    Wettest,
    Timber,
    Summit,
    Lowland,
}

/// How good a column is, nothing where it is out of the question. Timber, summits and low
/// ground are sought on dry columns.
pub open spec fn merit(p: ColumnProbe, seek: Seek) -> Option<int> {
    match seek {
        Seek::Driest => Some(-p.wetness),
        Seek::Wettest => Some(p.wetness as int),
        Seek::Timber => if p.wet {
            None
        } else {
            Some(p.timber as int)
        },
        Seek::Summit => if p.wet {
            None
        } else {
            Some(p.ground as int)
        },
        Seek::Lowland => if p.wet {
            None
        } else {
            Some(-p.ground)
        },
    }
}

/// Whether column `i` is the best, the first of equals.
pub open spec fn is_best(columns: Seq<ColumnProbe>, seek: Seek, i: int) -> bool {
    &&& 0 <= i < columns.len()
    &&& merit(columns[i], seek) is Some
    &&& forall|j: int|
        0 <= j < columns.len() && merit(#[trigger] columns[j], seek) is Some ==> {
            &&& merit(columns[j], seek)->0 <= merit(columns[i], seek)->0
            &&& j < i ==> merit(columns[j], seek)->0 < merit(columns[i], seek)->0
        }
}

fn merit_of(p: ColumnProbe, seek: Seek) -> (r: Option<i128>)
    ensures
        match merit(p, seek) {
            Some(m) => r is Some && r->0 == m,
            None => r is None,
        },
{
    match seek {
        Seek::Driest => Some(-(p.wetness as i128)),
        Seek::Wettest => Some(p.wetness as i128),
        Seek::Timber => if p.wet {
            None
        } else {
            Some(p.timber as i128)
        },
        Seek::Summit => if p.wet {
            None
        } else {
            Some(p.ground as i128)
        },
        Seek::Lowland => if p.wet {
            None
        } else {
            Some(-(p.ground as i128))
        },
    }
}

/// The best of the probed columns, if one will do.
pub fn best_column(columns: &[ColumnProbe], seek: Seek) -> (r: Option<usize>)
    ensures
        r is Some ==> is_best(columns@, seek, r->0 as int),
        r is None ==> forall|j: int|
            0 <= j < columns@.len() ==> merit(#[trigger] columns@[j], seek) is None,
{
    let mut best: Option<(usize, i128)> = None;
    let mut i: usize = 0;
    while i < columns.len()
        invariant
            i <= columns@.len(),
            match best {
                Some((b, m)) => {
                    &&& b < i
                    &&& merit(columns@[b as int], seek) == Some(m as int)
                    &&& forall|j: int|
                        0 <= j < i && merit(#[trigger] columns@[j], seek) is Some ==> {
                            &&& merit(columns@[j], seek)->0 <= m
                            &&& j < b ==> merit(columns@[j], seek)->0 < m
                        }
                },
                None => forall|j: int|
                    0 <= j < i ==> merit(#[trigger] columns@[j], seek) is None,
            },
        decreases columns@.len() - i,
    {
        match merit_of(columns[i], seek) {
            Some(m) => {
                let better: bool = match best {
                    Some((_, had)) => m > had,
                    None => true,
                };
                if better {
                    best = Some((i, m));
                }
            },
            None => {},
        }
        i += 1;
    }
    match best {
        Some((b, _)) => Some(b),
        None => None,
    }
}

/// The column chosen lies under less water than any other where the driest is sought, under
/// more where the wettest is. On dry columns it has the most timber, the highest or the
/// lowest ground, as is sought.
pub proof fn law_best_columns_are_best(columns: Seq<ColumnProbe>, seek: Seek, i: int, j: int)
    requires
        is_best(columns, seek, i),
        0 <= j < columns.len(),
    ensures
        seek == Seek::Driest ==> columns[i].wetness <= columns[j].wetness,
        seek == Seek::Wettest ==> columns[i].wetness >= columns[j].wetness,
        seek == Seek::Timber || seek == Seek::Summit || seek == Seek::Lowland ==> !columns[i].wet,
        seek == Seek::Timber && !columns[j].wet ==> columns[i].timber >= columns[j].timber,
        seek == Seek::Summit && !columns[j].wet ==> columns[i].ground >= columns[j].ground,
        seek == Seek::Lowland && !columns[j].wet ==> columns[i].ground <= columns[j].ground,
{
}

} // verus!
