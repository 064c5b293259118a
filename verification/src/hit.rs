//! Ray-hit records.

use vstd::prelude::*;
use crate::rat::{Rat, rat_le, rat_lt};

verus! {

/// Either a miss, or the ray parameter at which a surface was met.
#[derive(Clone, Copy, Debug, PartialEq, Eq, Structural)]
pub enum Hit {
    Miss,
    At(Rat),
}

impl Hit {
    pub open spec fn wf(self) -> bool {
        match self {
            Hit::Miss => true,
            Hit::At(t) => t.wf(),
        }
    }

    pub fn no_hit() -> (r: Hit)
        ensures
            r == Hit::Miss,
    {
        Hit::Miss
    }

    pub fn new(t: Rat) -> (r: Hit)
        ensures
            r == Hit::At(t),
    {
        Hit::At(t)
    }

    pub fn is_hit(self) -> (r: bool)
        ensures
            r == (self is At),
    {
        match self {
            Hit::Miss => false,
            Hit::At(_) => true,
        }
    }

    /// The closer of two hits; a miss counts as infinitely far.
    pub fn min(self, other: Hit) -> (r: Hit)
        requires
            self.wf(),
            other.wf(),
        ensures
            r == spec_hit_min(self, other),
            r.wf(),
    {
        match self {
            Hit::Miss => other,
            Hit::At(t) => match other {
                Hit::Miss => self,
                Hit::At(u) => if t.le(u) {
                    self
                } else {
                    other
                },
            },
        }
    }
}

/// The closer of two hits, at the specification level.
pub open spec fn spec_hit_min(a: Hit, b: Hit) -> Hit {
    match a {
        Hit::Miss => b,
        Hit::At(t) => match b {
            Hit::Miss => a,
            Hit::At(u) => if rat_le(t, u) {
                a
            } else {
                b
            },
        },
    }
}

/// The minimum of two hits is no farther than either: it is one of the two,
/// and when both are hits its parameter is `<=` both parameters.
pub proof fn lemma_hit_min_closest(a: Hit, b: Hit)
    requires
        a.wf(),
        b.wf(),
    ensures
        spec_hit_min(a, b) == a || spec_hit_min(a, b) == b,
        (a is At && b is At) ==> {
            let m = spec_hit_min(a, b);
            m is At && rat_le(m->0, a->0) && rat_le(m->0, b->0)
        },
{
    if a is At && b is At {
        let t = a->0;
        let u = b->0;
        if rat_le(t, u) {
            assert(rat_le(t, t));
        } else {
            assert(rat_le(u, t)) by {
                crate::rat::lemma_rat_le_total(t, u);
            }
            assert(rat_le(u, u));
        }
    }
}

} // verus!
