//! The rating model's integer part: which scores it weighs, and how.
//! The model's arithmetic is floating point and lives with the service.

use vstd::prelude::*;

verus! {

/// The rating model.
#[derive(Clone, Copy, Debug, PartialEq, Eq, Structural)]
pub struct Ai {}

/// What a rating is for: a score prediction or a team rating.
#[derive(Clone, Copy, Debug, PartialEq, Eq, Structural)]
pub enum Math {
    Score,
    EkamAi,
}

/// How many of the latest scores the next-score guess averages.
pub const RECENT: usize = 5;

/// The scores the next-score guess averages: the last five when there are
/// more than seven, all of them otherwise.
pub open spec fn recent_spec(vals: Seq<i16>) -> Seq<i16> {
    if vals.len() > RECENT + 2 {
        vals.skip(vals.len() - RECENT)
    } else {
        vals
    }
}

/// Each value as the means weigh it: values of 0 or less count as 1.
pub open spec fn mean_weights(n: Seq<i16>) -> Seq<i16> {
    n.map_values(|v: i16| if v <= 0 { 1i16 } else { v })
}

impl Ai {
    /// The values the geometric and harmonic means are taken over: each
    /// value of 0 or less replaced by 1.
    pub fn mean_weights(n: &Vec<i16>) -> (r: Vec<i16>)
        ensures
            r@ == mean_weights(n@),
    {
        let mut out: Vec<i16> = Vec::new();
        let mut i: usize = 0;
        while i < n.len()
            invariant
                i <= n.len(),
                out@ == mean_weights(n@.take(i as int)),
            decreases n.len() - i,
        {
            let v = n[i];
            out.push(if v <= 0 { 1 } else { v });
            assert(mean_weights(n@.take(i + 1)) =~= mean_weights(n@.take(i as int)).push(
                if v <= 0 { 1i16 } else { v },
            ));
            i = i + 1;
        }
        assert(n@.take(n.len() as int) =~= n@);
        out
    }

    /// The scores the next-score guess averages.
    pub fn recent(vals: &Vec<i16>) -> (r: Vec<i16>)
        ensures
            r@ == recent_spec(vals@),
    {
        let start: usize = if vals.len() > RECENT + 2 { vals.len() - RECENT } else { 0 };
        let mut out: Vec<i16> = Vec::new();
        let mut i: usize = start;
        while i < vals.len()
            invariant
                start <= i <= vals.len(),
                out@ == vals@.subrange(start as int, i as int),
            decreases vals.len() - i,
        {
            out.push(vals[i]);
            assert(out@ =~= vals@.subrange(start as int, i + 1));
            i = i + 1;
        }
        assert(vals@.subrange(start as int, vals.len() as int) =~= recent_spec(vals@));
        out
    }
}

} // verus!
