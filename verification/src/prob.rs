use vstd::prelude::*;

use crate::rng::rand_u64_below;

verus! {

/// An exact probability, kept as the ratio `num / den` so that stochastic
/// decisions stay free of floating point.
#[derive(Clone, Copy, Debug)]
pub struct Prob {
    pub num: u64,
    pub den: u64,
}

impl Prob {
    pub open spec fn wf(&self) -> bool {
        1 <= self.den && self.num <= self.den
    }

    /// The probability `num / den`.
    pub fn new(num: u64, den: u64) -> (r: Prob)
        requires
            1 <= den,
            num <= den,
        ensures
            r.wf(),
            r.num == num,
            r.den == den,
    {
        Prob { num, den }
    }

    /// The probability 1/2.
    pub fn half() -> (r: Prob)
        ensures
            r.wf(),
            r.num == 1,
            r.den == 2,
    {
        Prob { num: 1, den: 2 }
    }

    /// The probability 1/n.
    pub fn one_over(n: u64) -> (r: Prob)
        requires
            1 <= n,
        ensures
            r.wf(),
            r.num == 1,
            r.den == n,
    {
        Prob { num: 1, den: n }
    }

    /// Draws one biased coin: true with probability `num / den`; certain
    /// outcomes are certain.
    pub fn flip(&self) -> (r: bool)
        requires
            self.wf(),
        ensures
            self.num == self.den ==> r == true,
            self.num == 0 ==> r == false,
    {
        rand_u64_below(self.den) < self.num
    }
}

} // verus!
