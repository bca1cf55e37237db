//! Append-only aggregation of special ordered set constraints.

use vstd::prelude::*;

use crate::raw::{RawModelView, SOSConstraintType, SosGroupView};
use crate::Col;

verus! {

/// Represents a group of multiple special ordered set constraints.
///
/// The group keeps three flattened arrays in the native layout:
/// `row_starts` holds, for each constraint, the offset of its first
/// entry in `col_indices`, plus one final entry holding the total
/// length; `col_indices` holds the column of every entry; `weights`
/// holds the entries' ordering hints, parallel to `col_indices`.
#[derive(Clone, Debug)]
pub struct SOSConstraints {
    row_starts: Vec<i32>,
    col_indices: Vec<i32>,
    weights: Vec<u64>,
}

/// What a group of special ordered set constraints holds.
pub ghost struct SOSConstraintsView {
    /// Offsets into `col_indices`, one per constraint, plus the total
    /// length as the last entry.
    pub row_starts: Seq<i32>,
    /// The flattened per-constraint column lists.
    pub col_indices: Seq<i32>,
    /// Ordering hints, parallel to `col_indices`.
    pub weights: Seq<u64>,
}

impl View for SOSConstraints {
    type V = SOSConstraintsView;

    closed spec fn view(&self) -> SOSConstraintsView {
        SOSConstraintsView {
            row_starts: self.row_starts@,
            col_indices: self.col_indices@,
            weights: self.weights@,
        }
    }
}

impl SOSConstraintsView {
    /// The number of constraints added to the group.
    pub open spec fn num_constraints(self) -> int {
        self.row_starts.len() - 1
    }

    /// The flattened arrays are consistent: the offset list begins at
    /// zero, never decreases, and its last entry is the common length
    /// of the column and weight arrays.
    pub open spec fn wf(self) -> bool {
        &&& self.row_starts.len() >= 1
        &&& self.row_starts[0] == 0
        &&& forall|i: int, j: int|
            0 <= i <= j < self.row_starts.len() ==> self.row_starts[i] <= self.row_starts[j]
        &&& self.row_starts.last() == self.col_indices.len()
        &&& self.weights.len() == self.col_indices.len()
        &&& forall|i: int| 0 <= i < self.col_indices.len() ==> 0 <= #[trigger] self.col_indices[i]
    }

    /// Every column named by the group lies below the given column
    /// count.
    pub open spec fn cols_below(self, num_cols: int) -> bool {
        forall|i: int| 0 <= i < self.col_indices.len() ==> #[trigger] self.col_indices[i] < num_cols
    }
}

impl Default for SOSConstraints {
    /// An empty group: no constraints, a single zero offset.
    fn default() -> (r: Self)
        ensures
            r@.wf(),
            r@.num_constraints() == 0,
            r@.row_starts == seq![0i32],
            r@.col_indices == Seq::<i32>::empty(),
            r@.weights == Seq::<u64>::empty(),
    {
        let r = SOSConstraints { row_starts: vec![0i32], col_indices: vec![], weights: vec![] };
        proof {
            assert(r@.row_starts == seq![0i32]);
        }
        r
    }
}

impl SOSConstraints {
    /// Add a constraint to the group of constraints.
    ///
    /// The constraint's entries are appended to the flattened column
    /// and weight arrays and one new offset is pushed, so the group
    /// grows by exactly one constraint; earlier constraints are
    /// untouched.
    pub fn add_constraint_with_weights(&mut self, columns_and_weights: &[(Col, u64)])
        requires
            old(self)@.wf(),
            old(self)@.col_indices.len() + columns_and_weights@.len() <= i32::MAX,
            forall|i: int|
                0 <= i < columns_and_weights@.len() ==> #[trigger] columns_and_weights@[i].0@
                    <= i32::MAX,
        ensures
            final(self)@.wf(),
            final(self)@.num_constraints() == old(self)@.num_constraints() + 1,
            final(self)@.row_starts == old(self)@.row_starts.push(
                (old(self)@.col_indices.len() + columns_and_weights@.len()) as i32,
            ),
            final(self)@.col_indices == old(self)@.col_indices + Seq::new(
                columns_and_weights@.len(),
                |i: int| columns_and_weights@[i].0@ as i32,
            ),
            final(self)@.weights == old(self)@.weights + Seq::new(
                columns_and_weights@.len(),
                |i: int| columns_and_weights@[i].1,
            ),
    {
        let ghost old_cols = self.col_indices@;
        let ghost old_weights = self.weights@;
        let n = columns_and_weights.len();
        let mut k: usize = 0;
        while k < n
            invariant
                n == columns_and_weights@.len(),
                k <= n,
                old_cols.len() + n <= i32::MAX,
                forall|i: int|
                    0 <= i < columns_and_weights@.len() ==> #[trigger] columns_and_weights@[i].0@
                        <= i32::MAX,
                self.row_starts@ == old(self).row_starts@,
                self.col_indices@ == old_cols + Seq::new(
                    k as nat,
                    |i: int| columns_and_weights@[i].0@ as i32,
                ),
                self.weights@ == old_weights + Seq::new(
                    k as nat,
                    |i: int| columns_and_weights@[i].1,
                ),
            decreases n - k,
        {
            let (col, weight) = columns_and_weights[k];
            self.col_indices.push(col.as_usize() as i32);
            self.weights.push(weight);
            k = k + 1;
            proof {
                assert(self.col_indices@ == old_cols + Seq::new(
                    k as nat,
                    |i: int| columns_and_weights@[i].0@ as i32,
                ));
                assert(self.weights@ == old_weights + Seq::new(
                    k as nat,
                    |i: int| columns_and_weights@[i].1,
                ));
            }
        }
        let total = self.col_indices.len();
        self.row_starts.push(total as i32);
        proof {
            let v = self@;
            assert forall|i: int, j: int|
                0 <= i <= j < v.row_starts.len() implies v.row_starts[i] <= v.row_starts[j] by {
                if j < v.row_starts.len() - 1 {
                    assert(old(self)@.row_starts[i] <= old(self)@.row_starts[j]);
                } else if i < v.row_starts.len() - 1 {
                    assert(old(self)@.row_starts[i] <= old(self)@.row_starts.last());
                }
            }
        }
    }

    /// Whether no constraint was added to the group.
    pub fn is_empty(&self) -> (r: bool)
        ensures
            r == (self@.num_constraints() <= 0),
    {
        self.row_starts.len() <= 1
    }

    /// Hands the group over to a problem image as one native
    /// constraint group of the given type; an empty group adds
    /// nothing.
    pub fn add_to_raw(&self, raw: &mut crate::raw::Model, sos_type: SOSConstraintType)
        requires
            self@.wf(),
            old(raw)@.wf(),
            self@.cols_below(old(raw)@.num_cols),
        ensures
            final(raw)@ == if self@.num_constraints() > 0 {
                (RawModelView {
                    sos: old(raw)@.sos.push(
                        SosGroupView {
                            row_starts: self@.row_starts,
                            col_indices: self@.col_indices,
                            weights: self@.weights,
                            constraint_type: sos_type,
                        },
                    ),
                    ..old(raw)@
                })
            } else {
                old(raw)@
            },
            final(raw)@.wf(),
    {
        if !self.is_empty() {
            proof {
                assert((SosGroupView {
                    row_starts: self@.row_starts,
                    col_indices: self@.col_indices,
                    weights: self@.weights,
                    constraint_type: sos_type,
                }).constraints() =~= self@);
            }
            raw.add_sos(
                self.row_starts.as_slice(),
                self.col_indices.as_slice(),
                self.weights.as_slice(),
                sos_type,
            );
        }
    }
}

} // verus!
