use vstd::prelude::*;

use crate::opt_data::{bits_wf, NaiveBitVec, NAIVE_BIT_LEN_LIMIT};
use crate::opt_traits::FitnessFunc;

verus! {

/// The number of ones in a bit sequence.
pub open spec fn one_max_spec(s: Seq<u8>) -> int
    decreases s.len(),
{
    if s.len() == 0 {
        0
    } else {
        one_max_spec(s.drop_last()) + s.last()
    }
}

proof fn lemma_one_max_step(s: Seq<u8>, m: int)
    requires
        0 <= m < s.len(),
    ensures
        one_max_spec(s.subrange(0, m + 1)) == one_max_spec(s.subrange(0, m)) + s[m],
{
    assert(s.subrange(0, m + 1).drop_last() =~= s.subrange(0, m));
    assert(s.subrange(0, m + 1).last() == s[m]);
}

proof fn lemma_one_max_bound(s: Seq<u8>)
    ensures
        0 <= one_max_spec(s) <= 255 * s.len(),
    decreases s.len(),
{
    if s.len() > 0 {
        lemma_one_max_bound(s.drop_last());
    }
}

/// Counts the ones of a bit string.
pub fn naive_one_max(bits: &[u8]) -> (r: i32)
    requires
        bits@.len() <= NAIVE_BIT_LEN_LIMIT,
    ensures
        r as int == one_max_spec(bits@),
{
    let mut one_count: i32 = 0;
    let mut i: usize = 0;
    while i < bits.len()
        invariant
            bits@.len() <= NAIVE_BIT_LEN_LIMIT,
            i <= bits@.len(),
            one_count as int == one_max_spec(bits@.subrange(0, i as int)),
            0 <= one_count <= 255 * i,
        decreases bits@.len() - i,
    {
        proof {
            lemma_one_max_step(bits@, i as int);
            lemma_one_max_bound(bits@.subrange(0, i as int + 1));
        }
        one_count = one_count + (bits[i] as i32);
        i = i + 1;
    }
    proof {
        assert(bits@.subrange(0, bits@.len() as int) =~= bits@);
    }
    one_count
}

/// A bit as a sign: zero maps to minus one, one to plus one.
pub open spec fn bit_sign_spec(b: u8) -> int {
    2 * (b as int) - 1
}

/// A bit as a sign: zero maps to minus one, one to plus one.
pub fn bit_to_sign(bit: u8) -> (r: i32)
    ensures
        r as int == bit_sign_spec(bit),
{
    (bit as i32) * 2 - 1
}

/// The autocorrelation of a sign sequence at lag `k`, summed over its
/// first `m` products.
pub open spec fn corr_spec(s: Seq<u8>, k: int, m: int) -> int
    decreases m,
{
    if m <= 0 {
        0
    } else {
        corr_spec(s, k, m - 1) + bit_sign_spec(s[m - 1]) * bit_sign_spec(s[m - 1 + k])
    }
}

proof fn lemma_corr_bound(s: Seq<u8>, k: int, m: int)
    requires
        0 <= m,
        m + k <= s.len(),
        0 <= k,
        forall|i: int| 0 <= i < s.len() ==> (#[trigger] s[i]) <= 1,
    ensures
        -m <= corr_spec(s, k, m) <= m,
    decreases m,
{
    if m > 0 {
        lemma_corr_bound(s, k, m - 1);
        let a = bit_sign_spec(s[m - 1]);
        let b = bit_sign_spec(s[m - 1 + k]);
        assert(a == -1 || a == 1);
        assert(b == -1 || b == 1);
        assert(-1 <= a * b <= 1) by (nonlinear_arith)
            requires
                a == -1 || a == 1,
                b == -1 || b == 1,
        ;
    }
}

/// The low-autocorrelation energy of a bit string: the sum, over the lags
/// below `kmax`, of the squared autocorrelation at that lag.
pub open spec fn labs_spec_upto(s: Seq<u8>, kmax: int) -> int
    decreases kmax,
{
    if kmax <= 1 {
        0
    } else {
        let c = corr_spec(s, kmax - 1, s.len() - (kmax - 1));
        labs_spec_upto(s, kmax - 1) + c * c
    }
}

/// The full low-autocorrelation energy, over every positive lag.
pub open spec fn labs_spec(s: Seq<u8>) -> int {
    labs_spec_upto(s, s.len() as int)
}

proof fn lemma_labs_bound(s: Seq<u8>, kmax: int)
    requires
        kmax <= s.len(),
        forall|i: int| 0 <= i < s.len() ==> (#[trigger] s[i]) <= 1,
    ensures
        0 <= labs_spec_upto(s, kmax) <= (if kmax <= 1 {
            0
        } else {
            (kmax - 1) * s.len() * s.len()
        }),
    decreases kmax,
{
    if kmax > 1 {
        lemma_labs_bound(s, kmax - 1);
        let c = corr_spec(s, kmax - 1, s.len() - (kmax - 1));
        lemma_corr_bound(s, kmax - 1, s.len() - (kmax - 1));
        let n = s.len() as int;
        assert(0 <= c * c <= n * n) by (nonlinear_arith)
            requires
                -n <= c <= n,
        ;
        assert((kmax - 2) * n * n + n * n == (kmax - 1) * n * n) by (nonlinear_arith);
    }
}

/// The low-autocorrelation energy of a bit string.
pub fn naive_labs(bits: &[u8]) -> (r: i32)
    requires
        bits_wf(bits@),
    ensures
        r as int == labs_spec(bits@),
{
    let n = bits.len();
    let mut es: i32 = 0;
    let mut k: usize = 1;
    if n == 0 {
        return 0;
    }
    while k < n
        invariant
            bits_wf(bits@),
            n == bits@.len(),
            1 <= n <= NAIVE_BIT_LEN_LIMIT,
            1 <= k <= n,
            es as int == labs_spec_upto(bits@, k as int),
            0 <= es as int <= (k - 1) * n * n,
        decreases n - k,
    {
        let mut ck: i32 = 0;
        let mut i: usize = 0;
        while i < n - k
            invariant
                bits_wf(bits@),
                n == bits@.len(),
                1 <= k < n,
                i <= n - k,
                ck as int == corr_spec(bits@, k as int, i as int),
                -(i as int) <= ck as int <= i as int,
            decreases n - k - i,
        {
            proof {
                lemma_corr_bound(bits@, k as int, i as int + 1);
            }
            ck = ck + bit_to_sign(bits[i]) * bit_to_sign(bits[i + k]);
            i = i + 1;
        }
        proof {
            lemma_labs_bound(bits@, k as int + 1);
            let c = corr_spec(bits@, k as int, n - k);
            assert(0 <= c * c <= (n as int) * (n as int)) by (nonlinear_arith)
                requires
                    -(n as int) <= c <= n as int,
            ;
            assert((k as int) * (n as int) * (n as int) <= (NAIVE_BIT_LEN_LIMIT as int) * (
            NAIVE_BIT_LEN_LIMIT as int) * (NAIVE_BIT_LEN_LIMIT as int)) by (nonlinear_arith)
                requires
                    0 <= k as int <= NAIVE_BIT_LEN_LIMIT,
                    0 <= n as int <= NAIVE_BIT_LEN_LIMIT,
            ;
        }
        es = es + ck * ck;
        k = k + 1;
    }
    es
}

/// The ones-count objective.
pub struct OneMaxFunc {}

impl FitnessFunc<NaiveBitVec> for OneMaxFunc {
    open spec fn eval_spec(&self, data: Seq<u8>) -> i64 {
        one_max_spec(data) as i64
    }

    fn eval(&self, data: &NaiveBitVec) -> (r: i64) {
        proof {
            lemma_one_max_bound(data.bits@);
        }
        naive_one_max(data.bits.as_slice()) as i64
    }
}

/// The low-autocorrelation energy objective.
pub struct LabsFunc {}

impl FitnessFunc<NaiveBitVec> for LabsFunc {
    open spec fn eval_spec(&self, data: Seq<u8>) -> i64 {
        labs_spec(data) as i64
    }

    fn eval(&self, data: &NaiveBitVec) -> (r: i64) {
        proof {
            lemma_labs_bound(data.bits@, data.bits@.len() as int);
        }
        naive_labs(data.bits.as_slice()) as i64
    }
}

} // verus!
