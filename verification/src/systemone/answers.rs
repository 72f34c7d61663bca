//! Typed answers.

use crate::float::F32;
use crate::text_map::TextMap;
use std::collections::BTreeMap;
use vstd::prelude::*;

verus! {

broadcast use {
    vstd::seq::group_seq_axioms,
    vstd::map::group_map_axioms,
    vstd::std_specs::btree::group_btree_axioms,
};

/// Answer to a yes/no question: probability of "yes", 0 to 1.
#[derive(Debug, Clone, Copy, PartialEq, Eq, Structural)]
pub struct Noul {
    /// Probability of "yes".
    pub noul: F32,
}

/// Answer to a choice.
#[derive(Debug)]
pub struct Choice {
    /// The highest-probability option.
    pub choice: String,
    /// Certainty derived from the shape of the probabilities, 0 to 1.
    pub confidence: F32,
    /// Option and its probability; sums to 1.
    pub probabilities: TextMap<F32>,
}

/// Probabilities by level.
#[derive(Debug)]
pub struct Levels {
    map: BTreeMap<u8, F32>,
}

/// The levels below `n` with their probabilities, in ascending order.
pub open spec fn listed(m: Map<u8, F32>, n: int) -> Seq<(u8, F32)>
    decreases n,
{
    if n <= 0 {
        Seq::empty()
    } else if n <= 256 && m.dom().contains((n - 1) as u8) {
        listed(m, n - 1).push(((n - 1) as u8, m[(n - 1) as u8]))
    } else {
        listed(m, n - 1)
    }
}

impl View for Levels {
    type V = Map<u8, F32>;

    closed spec fn view(&self) -> Map<u8, F32> {
        self.map@
    }
}

/// Whether `level` is the most probable level of `m`, and the highest of those.
pub open spec fn most_probable(m: Map<u8, F32>, level: u8) -> bool {
    &&& m.dom().contains(level)
    &&& forall|k: u8| #[trigger]
        m.dom().contains(k) ==> m[k].rank() < m[level].rank() || (m[k].rank() == m[level].rank()
            && k <= level)
}

impl Levels {
    /// No levels.
    pub fn new() -> (r: Levels)
        ensures
            r@ == Map::<u8, F32>::empty(),
    {
        Levels { map: BTreeMap::new() }
    }

    /// Give `level` the probability `p`, in place of the one it may have.
    pub fn insert(&mut self, level: u8, p: F32)
        ensures
            final(self)@ == old(self)@.insert(level, p),
    {
        let _ = self.map.insert(level, p);
    }

    /// The probability of `level`, if it has one.
    pub fn get(&self, level: u8) -> (r: Option<F32>)
        ensures
            match r {
                Some(p) => self@.dom().contains(level) && self@[level] == p,
                None => !self@.dom().contains(level),
            },
    {
        match self.map.get(&level) {
            Some(p) => Some(*p),
            None => None,
        }
    }

    /// The levels with their probabilities, in ascending order.
    pub fn entries(&self) -> (r: Vec<(u8, F32)>)
        ensures
            r@ == listed(self@, 256),
    {
        let mut out: Vec<(u8, F32)> = Vec::new();
        let mut n: u16 = 0;
        while n < 256
            invariant
                n <= 256,
                out@ == listed(self@, n as int),
            decreases 256 - n,
        {
            let level: u8 = n as u8;
            if let Some(p) = self.get(level) {
                out.push((level, p));
            }
            n += 1;
        }
        out
    }
}

/// Answer to a score.
///
/// The wire also gives `score` and `legend`; both are derived from the probabilities and the
/// criteria that were sent, so they are not stored.
#[derive(Debug)]
pub struct Score {
    /// Certainty derived from the shape of `probabilities`, 0 to 1.
    pub confidence: F32,
    /// Level index and its probability; sums to 1.
    pub probabilities: Levels,
}

impl Score {
    /// Highest-probability level index, or `None` when empty. Of equally probable levels the
    /// highest counts.
    pub fn argmax_level(&self) -> (r: Option<u8>)
        ensures
            match r {
                Some(level) => most_probable(self.probabilities@, level),
                None => self.probabilities@ == Map::<u8, F32>::empty(),
            },
    {
        let levels = &self.probabilities;
        let ghost m = levels@;
        let mut best: Option<(u8, F32)> = None;
        let mut n: u16 = 0;
        while n < 256
            invariant
                n <= 256,
                m == levels@,
                match best {
                    Some((level, p)) => {
                        &&& level < n
                        &&& m.dom().contains(level)
                        &&& m[level] == p
                        &&& forall|k: u8| #[trigger]
                            m.dom().contains(k) && k < n ==> m[k].rank() < p.rank() || (
                            m[k].rank() == p.rank() && k <= level)
                    },
                    None => forall|k: u8| k < n ==> !#[trigger] m.dom().contains(k),
                },
            decreases 256 - n,
        {
            let level: u8 = n as u8;
            if let Some(p) = levels.get(level) {
                let better = match best {
                    Some((_, q)) => p.order() >= q.order(),
                    None => true,
                };
                if better {
                    best = Some((level, p));
                }
            }
            n += 1;
        }
        match best {
            Some((level, _)) => Some(level),
            None => {
                assert(m =~= Map::<u8, F32>::empty());
                None
            },
        }
    }
}

} // verus!
