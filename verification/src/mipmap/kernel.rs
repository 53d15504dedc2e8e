//! Filter kernels as tables of weights.
//!
//! A kernel is radially symmetric and is given by its samples over the unit
//! interval: with `n` samples, sample `k` is the weight at every distance in
//! `[k/n, (k+1)/n)`, and the last sample also serves distance 1. Weights are
//! clamped to `[0, 1]` when the table is made.

use vstd::prelude::*;
use crate::mipmap::fixed::{Fixed, ONE};

verus! {

/// Largest number of samples a [`WeightTable`] may hold.
pub const TABLE_MAX: usize = 65536;

/// A sampled kernel with weights in `[0, 1]`.
pub struct WeightTable {
    weights: Vec<Fixed>,
}

/// `v` clamped to the interval from 0 to [`ONE`].
pub open spec fn clamp_weight(v: int) -> int {
    if v < 0 {
        0
    } else if v > ONE {
        ONE as int
    } else {
        v
    }
}

/// The index of the sample that serves distance `x` in a table of `n` samples.
pub open spec fn sample_index(n: int, x: int) -> int {
    let k = x * n / (ONE as int);
    if k >= n {
        n - 1
    } else {
        k
    }
}

/// The weight a table gives to distance `x`, for `0 <= x <= ONE`.
pub open spec fn weight_at(table: Seq<int>, x: int) -> int {
    table[sample_index(table.len() as int, x)]
}

/// A table has between 1 and [`TABLE_MAX`] samples, each in `[0, ONE]`.
pub open spec fn table_wf(table: Seq<int>) -> bool {
    &&& 1 <= table.len() <= TABLE_MAX
    &&& forall|k: int| 0 <= k < table.len() ==> 0 <= #[trigger] table[k] <= ONE
}

/// The sample index of a distance in `[0, ONE]` lies inside the table.
pub proof fn lemma_sample_index_bounds(n: int, x: int)
    requires
        1 <= n <= TABLE_MAX,
        0 <= x <= ONE,
    ensures
        0 <= sample_index(n, x) < n,
        0 <= x * n <= ONE * TABLE_MAX,
{
    assert(0 <= x * n <= ONE * TABLE_MAX) by (nonlinear_arith)
        requires
            0 <= x <= ONE,
            1 <= n <= TABLE_MAX,
    ;
}

impl View for WeightTable {
    type V = Seq<int>;

    closed spec fn view(&self) -> Seq<int> {
        self.weights@.map_values(|v: Fixed| v as int)
    }
}

impl WeightTable {
    /// The table's content is well formed.
    pub open spec fn wf(&self) -> bool {
        table_wf(self@)
    }

    /// Makes a kernel of `samples`, clamping each to `[0, ONE]`. There is no
    /// kernel of no samples, nor of more than [`TABLE_MAX`].
    pub fn new(samples: &Vec<Fixed>) -> (r: Option<WeightTable>)
        ensures
            r.is_some() <==> 1 <= samples@.len() <= TABLE_MAX,
            r matches Some(table) ==> {
                &&& table.wf()
                &&& table@ == samples@.map_values(|v: Fixed| clamp_weight(v as int))
            },
    {
        let n = samples.len();
        if n == 0 || n > TABLE_MAX {
            return None;
        }
        let mut weights: Vec<Fixed> = Vec::new();
        let mut i: usize = 0;
        while i < n
            invariant
                n == samples@.len(),
                i <= n,
                weights@.len() == i,
                forall|k: int| 0 <= k < i ==> #[trigger] weights@[k] == clamp_weight(samples@[k] as int),
            decreases n - i,
        {
            let v = samples[i];
            let c: Fixed = if v < 0 {
                0
            } else if v > ONE {
                ONE
            } else {
                v
            };
            weights.push(c);
            i = i + 1;
        }
        let table = WeightTable { weights };
        proof {
            assert(table@ =~= samples@.map_values(|v: Fixed| clamp_weight(v as int)));
        }
        Some(table)
    }

    /// Number of samples.
    pub fn len(&self) -> (r: usize)
        ensures
            r == self@.len(),
    {
        self.weights.len()
    }

    /// The weight at distance `x`.
    pub fn weight(&self, x: Fixed) -> (r: Fixed)
        requires
            self.wf(),
            0 <= x <= ONE,
        ensures
            r == weight_at(self@, x as int),
            0 <= r <= ONE,
    {
        let n = self.weights.len();
        proof {
            lemma_sample_index_bounds(n as int, x as int);
        }
        let k: i64 = x * (n as i64) / ONE;
        let idx: usize = if k >= n as i64 {
            n - 1
        } else {
            k as usize
        };
        assert(self@[idx as int] == self.weights@[idx as int]);
        self.weights[idx]
    }
}

} // verus!
