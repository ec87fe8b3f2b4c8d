use vstd::prelude::*;

use crate::opt_data::NaiveBitVec;
use crate::opt_traits::{OptData, PerturbeMutOp};
use crate::prob::Prob;

verus! {

/// Flips each bit independently with probability `1 / length`.
#[derive(Clone)]
pub struct BasicNaiveBitPerturbeMutOp {}

impl PerturbeMutOp<NaiveBitVec> for BasicNaiveBitPerturbeMutOp {
    fn eval(&self, data: &mut NaiveBitVec) {
        let n = data.bits.len();
        if n == 0 {
            return ;
        }
        let flip_prob = Prob::one_over(n as u64);
        let mut i: usize = 0;
        while i < n
            invariant
                n == data.bits@.len(),
                flip_prob.wf(),
                old(data).inv(),
                data.bits@.len() == old(data).bits@.len(),
                forall|k: int| 0 <= k < n ==> (#[trigger] data.bits@[k]) <= 1,
            decreases n - i,
        {
            if flip_prob.flip() {
                let b = data.bits[i];
                data.bits[i] = 1 - b;
            }
            i = i + 1;
        }
    }

    fn update(&mut self, _iter_diff: i64, _dim: usize) {
    }

    fn duplicate(&self) -> Self {
        BasicNaiveBitPerturbeMutOp {  }
    }
}

/// Applies an inner operator only with the given probability; a probability
/// that is not well formed never fires.
pub struct ProbPerturbeMutOp<T: OptData, Op: PerturbeMutOp<T>> {
    pub prob: Prob,
    pub op: Op,
    pub _marker: core::marker::PhantomData<T>,
}

impl<T: OptData, Op: PerturbeMutOp<T>> ProbPerturbeMutOp<T, Op> {
    pub fn new(prob: Prob, op: Op) -> (r: Self) {
        ProbPerturbeMutOp { prob, op, _marker: core::marker::PhantomData }
    }
}

impl<T: OptData, Op: PerturbeMutOp<T>> PerturbeMutOp<T> for ProbPerturbeMutOp<T, Op> {
    fn eval(&self, data: &mut T) {
        let wf = 1 <= self.prob.den && self.prob.num <= self.prob.den;
        if wf && self.prob.flip() {
            self.op.eval(data);
        }
    }

    fn update(&mut self, iter_diff: i64, dim: usize) {
        self.op.update(iter_diff, dim);
    }

    fn duplicate(&self) -> Self {
        ProbPerturbeMutOp {
            prob: self.prob,
            op: self.op.duplicate(),
            _marker: core::marker::PhantomData,
        }
    }
}

/// A list of weighted operators, each fired independently by its own coin
/// flip; the operators are not mutually exclusive.
pub struct CombinePerturbeMutOps<T: OptData, Op: PerturbeMutOp<T>> {
    pub mut_ops: Vec<ProbPerturbeMutOp<T, Op>>,
}

impl<T: OptData, Op: PerturbeMutOp<T>> PerturbeMutOp<T> for CombinePerturbeMutOps<T, Op> {
    fn eval(&self, data: &mut T) {
        let mut i: usize = 0;
        while i < self.mut_ops.len()
            invariant
                data.inv(),
            decreases self.mut_ops@.len() - i,
        {
            self.mut_ops[i].eval(data);
            i = i + 1;
        }
    }

    fn update(&mut self, iter_diff: i64, dim: usize) {
        let n = self.mut_ops.len();
        let mut i: usize = 0;
        while i < n
            invariant
                n == self.mut_ops@.len(),
            decreases n - i,
        {
            let mut entry = self.mut_ops.remove(i);
            entry.update(iter_diff, dim);
            self.mut_ops.insert(i, entry);
            i = i + 1;
        }
    }

    fn duplicate(&self) -> Self {
        let mut ops: Vec<ProbPerturbeMutOp<T, Op>> = Vec::new();
        let mut i: usize = 0;
        while i < self.mut_ops.len()
            decreases self.mut_ops@.len() - i,
        {
            ops.push(self.mut_ops[i].duplicate());
            i = i + 1;
        }
        CombinePerturbeMutOps { mut_ops: ops }
    }
}

} // verus!
