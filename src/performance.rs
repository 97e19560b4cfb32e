//! Classification accuracy: how many predictions agree with the true labels.
use vstd::prelude::*;

verus! {

/// The number of positions below `n` at which `p` and `a` agree.
pub open spec fn agree_upto(p: Seq<u64>, a: Seq<u64>, n: int) -> nat
    decreases n,
{
    if n <= 0 {
        0
    } else {
        agree_upto(p, a, n - 1) + if p[n - 1] == a[n - 1] { 1nat } else { 0nat }
    }
}

/// The number of positions at which two sequences of equal length agree.
pub open spec fn agree_count(p: Seq<u64>, a: Seq<u64>) -> nat {
    agree_upto(p, a, p.len() as int)
}

/// Accuracy as the exact fraction `correct / total`.
#[derive(Debug, Clone, Copy, PartialEq, Eq, Structural)]
pub struct MeasurePerformance {
    /// Number of predictions equal to the true label at the same position.
    pub correct: usize,
    /// Number of predictions scored.
    pub total: usize,
}

impl MeasurePerformance {
    /// Scores `pred` against `actual`, position by position; `None` when the
    /// two differ in length.
    pub fn new(pred: &Vec<u64>, actual: &Vec<u64>) -> (r: Option<MeasurePerformance>)
        ensures
            r is None <==> pred@.len() != actual@.len(),
            r matches Some(m) ==> {
                &&& m.correct == agree_count(pred@, actual@)
                &&& m.total == pred@.len()
                &&& m.correct <= m.total
            },
    {
        if pred.len() != actual.len() {
            return None;
        }
        let mut acc: usize = 0;
        let mut i: usize = 0;
        while i < pred.len()
            invariant
                i <= pred.len(),
                pred.len() == actual.len(),
                acc == agree_upto(pred@, actual@, i as int),
                acc <= i,
            decreases pred.len() - i,
        {
            if pred[i] == actual[i] {
                acc = acc + 1;
            }
            i = i + 1;
        }
        Some(MeasurePerformance { correct: acc, total: pred.len() })
    }

    /// The accuracy as a fraction `(numerator, denominator)` with a positive
    /// denominator: `correct / total`, and exactly one when nothing was scored
    /// (no prediction was wrong).
    pub fn accuracy_fraction(&self) -> (r: (usize, usize))
        requires
            self.correct <= self.total,
        ensures
            r.1 >= 1,
            r.0 <= r.1,
            self.total > 0 ==> r == (self.correct, self.total),
            self.total == 0 ==> r == (1usize, 1usize),
    {
        if self.total == 0 {
            (1, 1)
        } else {
            (self.correct, self.total)
        }
    }

    /// Every prediction was right (true also of an empty score).
    pub fn is_perfect(&self) -> (r: bool)
        ensures
            r == (self.correct == self.total),
    {
        self.correct == self.total
    }
}

/// Sequences that agree at every position score every position as correct;
/// in particular a sequence scored against itself has accuracy exactly one.
pub proof fn lemma_agree_when_equal(p: Seq<u64>, a: Seq<u64>)
    requires
        p.len() == a.len(),
        forall|i: int| 0 <= i < p.len() ==> #[trigger] p[i] == a[i],
    ensures
        agree_count(p, a) == p.len(),
{
    lemma_agree_prefix(p, a, p.len() as int);
}

proof fn lemma_agree_prefix(p: Seq<u64>, a: Seq<u64>, n: int)
    requires
        0 <= n <= p.len(),
        p.len() == a.len(),
        forall|i: int| 0 <= i < p.len() ==> #[trigger] p[i] == a[i],
    ensures
        agree_upto(p, a, n) == n,
    decreases n,
{
    if n > 0 {
        lemma_agree_prefix(p, a, n - 1);
    }
}

} // verus!
