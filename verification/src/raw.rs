//! The problem image in native form, and the outcome of a solve.
//!
//! [`Model`] mirrors the state a native CBC handle goes through:
//! created empty, loaded with compressed-column problem data, then
//! solved.  Here the handle's contents are held as plain values, so
//! every setter and getter carries an exact contract; the native call
//! surface that consumes this image lives outside the verified
//! library.

use vstd::prelude::*;

use crate::params;
use crate::sos_constraints::SOSConstraintsView;
use crate::{NEG_INF_BITS, POS_INF_BITS, ZERO_BITS};

verus! {

/// Sense of optimization.
#[derive(Debug, Copy, Clone, PartialEq, Eq, Structural)]
pub enum Sense {
    /// Objective must be minimized.
    Minimize,
    /// Objective must be maximized.
    Maximize,
    /// The objective is ignored, only searching for a feasible
    /// solution.
    Ignore,
}

impl Default for Sense {
    /// The default sense: the objective is ignored.
    fn default() -> (r: Self)
        ensures
            r == Sense::Ignore,
    {
        Sense::Ignore
    }
}

/// Status of the model, as the native side reports it.
#[derive(Debug, Copy, Clone, PartialEq, Eq, Structural)]
pub enum Status {
    /// The solving procedure was not launched.
    Unlaunched,
    /// The solving procedure finished.
    Finished,
    /// The solving procedure was stopped before optimality was proved.
    Stopped,
    /// The solving procedure was abandoned.
    Abandoned,
    /// The solving procedure is inside a user event.
    UserEvent,
}

impl Status {
    /// The numeric code the native side uses for this status.
    pub fn to_code(self) -> (r: i32)
        ensures
            Status::from_code_spec(r) == Some(self),
    {
        match self {
            Status::Unlaunched => -1,
            Status::Finished => 0,
            Status::Stopped => 1,
            Status::Abandoned => 2,
            Status::UserEvent => 5,
        }
    }

    /// The status a numeric code of the native side stands for.
    pub open spec fn from_code_spec(code: i32) -> Option<Status> {
        if code == -1 {
            Some(Status::Unlaunched)
        } else if code == 0 {
            Some(Status::Finished)
        } else if code == 1 {
            Some(Status::Stopped)
        } else if code == 2 {
            Some(Status::Abandoned)
        } else if code == 5 {
            Some(Status::UserEvent)
        } else {
            None
        }
    }

    /// Decodes a numeric status code; codes the enumeration does not
    /// name give `None`.
    pub fn from_code(code: i32) -> (r: Option<Status>)
        ensures
            r == Status::from_code_spec(code),
    {
        match code {
            -1 => Some(Status::Unlaunched),
            0 => Some(Status::Finished),
            1 => Some(Status::Stopped),
            2 => Some(Status::Abandoned),
            5 => Some(Status::UserEvent),
            _ => None,
        }
    }
}

/// Secondary status of the model, as the native side reports it.
#[allow(missing_docs)]
#[derive(Debug, Copy, Clone, PartialEq, Eq, Structural)]
pub enum SecondaryStatus {
    Unlaunched,
    HasSolution,
    LinearRelaxationInfeasible,
    StoppedOnGap,
    StoppedOnNodes,
    StoppedOnTime,
    StoppedOnUserEvent,
    StoppedOnSolutions,
    LinearRelaxationUnbounded,
    StoppedOnIterationLimit,
}

impl SecondaryStatus {
    /// The numeric code the native side uses for this status.
    pub fn to_code(self) -> (r: i32)
        ensures
            SecondaryStatus::from_code_spec(r) == Some(self),
    {
        match self {
            SecondaryStatus::Unlaunched => -1,
            SecondaryStatus::HasSolution => 0,
            SecondaryStatus::LinearRelaxationInfeasible => 1,
            SecondaryStatus::StoppedOnGap => 2,
            SecondaryStatus::StoppedOnNodes => 3,
            SecondaryStatus::StoppedOnTime => 4,
            SecondaryStatus::StoppedOnUserEvent => 5,
            SecondaryStatus::StoppedOnSolutions => 6,
            SecondaryStatus::LinearRelaxationUnbounded => 7,
            SecondaryStatus::StoppedOnIterationLimit => 8,
        }
    }

    /// The secondary status a numeric code of the native side stands
    /// for.
    pub open spec fn from_code_spec(code: i32) -> Option<SecondaryStatus> {
        if code == -1 {
            Some(SecondaryStatus::Unlaunched)
        } else if code == 0 {
            Some(SecondaryStatus::HasSolution)
        } else if code == 1 {
            Some(SecondaryStatus::LinearRelaxationInfeasible)
        } else if code == 2 {
            Some(SecondaryStatus::StoppedOnGap)
        } else if code == 3 {
            Some(SecondaryStatus::StoppedOnNodes)
        } else if code == 4 {
            Some(SecondaryStatus::StoppedOnTime)
        } else if code == 5 {
            Some(SecondaryStatus::StoppedOnUserEvent)
        } else if code == 6 {
            Some(SecondaryStatus::StoppedOnSolutions)
        } else if code == 7 {
            Some(SecondaryStatus::LinearRelaxationUnbounded)
        } else if code == 8 {
            Some(SecondaryStatus::StoppedOnIterationLimit)
        } else {
            None
        }
    }

    /// Decodes a numeric secondary-status code; codes the enumeration
    /// does not name give `None`.
    pub fn from_code(code: i32) -> (r: Option<SecondaryStatus>)
        ensures
            r == SecondaryStatus::from_code_spec(code),
    {
        match code {
            -1 => Some(SecondaryStatus::Unlaunched),
            0 => Some(SecondaryStatus::HasSolution),
            1 => Some(SecondaryStatus::LinearRelaxationInfeasible),
            2 => Some(SecondaryStatus::StoppedOnGap),
            3 => Some(SecondaryStatus::StoppedOnNodes),
            4 => Some(SecondaryStatus::StoppedOnTime),
            5 => Some(SecondaryStatus::StoppedOnUserEvent),
            6 => Some(SecondaryStatus::StoppedOnSolutions),
            7 => Some(SecondaryStatus::LinearRelaxationUnbounded),
            8 => Some(SecondaryStatus::StoppedOnIterationLimit),
            _ => None,
        }
    }
}

/// The type of a special ordered set constraint.
#[derive(Debug, Copy, Clone, PartialEq, Eq, Structural)]
pub enum SOSConstraintType {
    /// type 1: at most one element in the given set of columns can be
    /// non-zero
    Type1,
    /// type 2: at most two elements in the given set of columns can be
    /// non-zero.  If two elements are non-zero, then they have to be
    /// consecutive.
    Type2,
}

impl SOSConstraintType {
    /// The numeric code the native side uses for this constraint type.
    pub fn to_code(self) -> (r: i32)
        ensures
            self == SOSConstraintType::Type1 ==> r == 1,
            self == SOSConstraintType::Type2 ==> r == 2,
    {
        match self {
            SOSConstraintType::Type1 => 1,
            SOSConstraintType::Type2 => 2,
        }
    }
}

/// One group of special ordered set constraints, in the flattened
/// layout the native side takes.
pub struct SosGroup {
    /// Offsets into `col_indices`, one per constraint, plus the total
    /// length as the last entry.
    pub row_starts: Vec<i32>,
    /// The flattened per-constraint column lists.
    pub col_indices: Vec<i32>,
    /// Ordering hints, parallel to `col_indices`.
    pub weights: Vec<u64>,
    /// Whether at most one, or at most two adjacent, columns of each
    /// constraint may be nonzero.
    pub constraint_type: SOSConstraintType,
}

/// What a group of special ordered set constraints holds.
#[verifier::ext_equal]
pub ghost struct SosGroupView {
    /// Offsets into `col_indices`, one per constraint, plus the total
    /// length as the last entry.
    pub row_starts: Seq<i32>,
    /// The flattened per-constraint column lists.
    pub col_indices: Seq<i32>,
    /// Ordering hints, parallel to `col_indices`.
    pub weights: Seq<u64>,
    /// Whether at most one, or at most two adjacent, columns of each
    /// constraint may be nonzero.
    pub constraint_type: SOSConstraintType,
}

impl View for SosGroup {
    type V = SosGroupView;

    open spec fn view(&self) -> SosGroupView {
        SosGroupView {
            row_starts: self.row_starts@,
            col_indices: self.col_indices@,
            weights: self.weights@,
            constraint_type: self.constraint_type,
        }
    }
}

impl SosGroupView {
    /// The group's arrays, without the constraint type.
    pub open spec fn constraints(self) -> SOSConstraintsView {
        SOSConstraintsView {
            row_starts: self.row_starts,
            col_indices: self.col_indices,
            weights: self.weights,
        }
    }

    /// The group's arrays are consistent and name only columns below
    /// the given count.
    pub open spec fn wf(self, num_cols: int) -> bool {
        &&& self.constraints().wf()
        &&& self.constraints().cols_below(num_cols)
    }
}

/// Everything the native side reports after a solve: the statuses, the
/// objective values, the counters, the outcome flags, and the solution
/// arrays.
pub struct SolveOutcome {
    /// The status of the solving procedure.
    pub status: Status,
    /// The secondary status of the solving procedure.
    pub secondary_status: SecondaryStatus,
    /// Bit pattern of the objective value.
    pub obj_value: u64,
    /// Bit pattern of the best possible objective bound.
    pub best_possible_value: u64,
    /// The number of simplex iterations taken.
    pub iteration_count: i32,
    /// Whether numerical difficulties made the solve give up.
    pub abandoned: bool,
    /// Whether optimality was proved.
    pub proven_optimal: bool,
    /// Whether infeasibility was proved.
    pub proven_infeasible: bool,
    /// Whether the continuous relaxation is unbounded.
    pub continuous_unbounded: bool,
    /// Whether the node limit stopped the solve.
    pub node_limit_reached: bool,
    /// Whether the time limit stopped the solve.
    pub seconds_limit_reached: bool,
    /// Whether the solution limit stopped the solve.
    pub solution_limit_reached: bool,
    /// Whether the initial solve was abandoned.
    pub initial_solve_abandoned: bool,
    /// Whether the initial solve was proved optimal.
    pub initial_solve_proven_optimal: bool,
    /// Whether the initial solve was proved primal infeasible.
    pub initial_solve_proven_primal_infeasible: bool,
    /// Bit patterns of the per-column solution values.
    pub col_solution: Vec<u64>,
    /// Bit patterns of the per-row activities.
    pub row_activity: Vec<u64>,
    /// Bit patterns of the per-column reduced costs.
    pub reduced_cost: Vec<u64>,
}

/// What a native model handle holds: the loaded problem in
/// compressed-column form, the model-wide settings, and the results of
/// the last solve.
#[verifier::ext_equal]
pub ghost struct RawModelView {
    /// The number of columns of the loaded problem.
    pub num_cols: int,
    /// The number of rows of the loaded problem.
    pub num_rows: int,
    /// Per-column offsets into `index` and `value`, one more entry
    /// than there are columns.
    pub start: Seq<i32>,
    /// Row indices of the nonzero matrix entries, column by column.
    pub index: Seq<i32>,
    /// Bit patterns of the nonzero matrix entries, parallel to
    /// `index`.
    pub value: Seq<u64>,
    /// Bit patterns of the per-column lower bounds.
    pub col_lower: Seq<u64>,
    /// Bit patterns of the per-column upper bounds.
    pub col_upper: Seq<u64>,
    /// Bit patterns of the per-column objective coefficients.
    pub obj_coefficients: Seq<u64>,
    /// Bit patterns of the per-row lower bounds.
    pub row_lower: Seq<u64>,
    /// Bit patterns of the per-row upper bounds.
    pub row_upper: Seq<u64>,
    /// Per-column integrality flags.
    pub is_integer: Seq<bool>,
    /// The sense of optimization.
    pub sense: Sense,
    /// Bit patterns of the warm-start solution, if one was given.
    pub initial_solution: Option<Seq<u64>>,
    /// The parameter table, in insertion order.
    pub parameters: Seq<(Seq<u8>, Seq<u8>)>,
    /// The special-ordered-set constraint groups, in insertion order.
    pub sos: Seq<SosGroupView>,
    /// The status of the last solve; `Unlaunched` before the first.
    pub status: Status,
    /// The secondary status of the last solve.
    pub secondary_status: SecondaryStatus,
    /// Bit pattern of the objective value of the last solve.
    pub obj_value: u64,
    /// Bit pattern of the best possible objective bound.
    pub best_possible_value: u64,
    /// The number of simplex iterations of the last solve.
    pub iteration_count: i32,
    /// Whether the last solve was abandoned.
    pub abandoned: bool,
    /// Whether the last solve proved optimality.
    pub proven_optimal: bool,
    /// Whether the last solve proved infeasibility.
    pub proven_infeasible: bool,
    /// Whether the continuous relaxation is unbounded.
    pub continuous_unbounded: bool,
    /// Whether the node limit stopped the last solve.
    pub node_limit_reached: bool,
    /// Whether the time limit stopped the last solve.
    pub seconds_limit_reached: bool,
    /// Whether the solution limit stopped the last solve.
    pub solution_limit_reached: bool,
    /// Whether the initial solve was abandoned.
    pub initial_solve_abandoned: bool,
    /// Whether the initial solve was proved optimal.
    pub initial_solve_proven_optimal: bool,
    /// Whether the initial solve was proved primal infeasible.
    pub initial_solve_proven_primal_infeasible: bool,
    /// Bit patterns of the per-column solution values; empty before
    /// the first solve.
    pub col_solution: Seq<u64>,
    /// Bit patterns of the per-row activities; empty before the first
    /// solve.
    pub row_activity: Seq<u64>,
    /// Bit patterns of the per-column reduced costs; empty before the
    /// first solve.
    pub reduced_cost: Seq<u64>,
}

/// The row indices between the two offsets never decrease.
pub open spec fn window_sorted(index: Seq<i32>, lo: int, hi: int) -> bool {
    forall|i: int, j: int| lo <= i <= j < hi ==> index[i] <= index[j]
}

/// The compressed-column arrays describe a matrix of the given
/// extents: the offset array has one entry per column plus one, never
/// decreases, and ends at the common length of the index and value
/// arrays; every row index is in range; and the indices of each
/// column's window never decrease.
pub open spec fn valid_problem(
    num_cols: int,
    num_rows: int,
    start: Seq<i32>,
    index: Seq<i32>,
    value: Seq<u64>,
) -> bool {
    &&& 0 <= num_cols <= i32::MAX
    &&& 0 <= num_rows <= i32::MAX
    &&& start.len() == num_cols + 1
    &&& start[0] >= 0
    &&& forall|i: int, j: int| 0 <= i <= j < start.len() ==> start[i] <= start[j]
    &&& start.last() == index.len()
    &&& value.len() == index.len()
    &&& forall|k: int| 0 <= k < index.len() ==> 0 <= #[trigger] index[k] < num_rows
    &&& forall|c: int|
        0 <= c < num_cols ==> window_sorted(index, #[trigger] start[c] as int, start[c + 1] as int)
}

/// An optional array either is absent or has the given length.
pub open spec fn opt_len_ok(opt: Option<&[u64]>, n: int) -> bool {
    match opt {
        Some(s) => s@.len() == n,
        None => true,
    }
}

/// The given array, or the stated default repeated when absent.
pub open spec fn resolved(opt: Option<&[u64]>, n: int, default: u64) -> Seq<u64> {
    match opt {
        Some(s) => s@,
        None => Seq::new(n as nat, |i: int| default),
    }
}

impl RawModelView {
    /// The number of nonzero matrix entries.
    pub open spec fn num_elements(self) -> int {
        self.index.len() as int
    }

    /// A freshly created handle: an empty problem, default settings,
    /// nothing solved.
    pub open spec fn initial() -> RawModelView {
        RawModelView {
            num_cols: 0,
            num_rows: 0,
            start: seq![0i32],
            index: Seq::empty(),
            value: Seq::empty(),
            col_lower: Seq::empty(),
            col_upper: Seq::empty(),
            obj_coefficients: Seq::empty(),
            row_lower: Seq::empty(),
            row_upper: Seq::empty(),
            is_integer: Seq::empty(),
            sense: Sense::Ignore,
            initial_solution: None,
            parameters: Seq::empty(),
            sos: Seq::empty(),
            status: Status::Unlaunched,
            secondary_status: SecondaryStatus::Unlaunched,
            obj_value: ZERO_BITS,
            best_possible_value: ZERO_BITS,
            iteration_count: 0,
            abandoned: false,
            proven_optimal: false,
            proven_infeasible: false,
            continuous_unbounded: false,
            node_limit_reached: false,
            seconds_limit_reached: false,
            solution_limit_reached: false,
            initial_solve_abandoned: false,
            initial_solve_proven_optimal: false,
            initial_solve_proven_primal_infeasible: false,
            col_solution: Seq::empty(),
            row_activity: Seq::empty(),
            reduced_cost: Seq::empty(),
        }
    }

    /// The handle's invariant: the compressed-column arrays are a
    /// valid problem of the stated extents, every per-column and
    /// per-row array has the matching length, the parameter table is
    /// well formed, every constraint group names existing columns, and
    /// the solution arrays are empty before the first solve and match
    /// the extents after it.
    pub open spec fn wf(self) -> bool {
        &&& valid_problem(self.num_cols, self.num_rows, self.start, self.index, self.value)
        &&& self.col_lower.len() == self.num_cols
        &&& self.col_upper.len() == self.num_cols
        &&& self.obj_coefficients.len() == self.num_cols
        &&& self.is_integer.len() == self.num_cols
        &&& self.row_lower.len() == self.num_rows
        &&& self.row_upper.len() == self.num_rows
        &&& match self.initial_solution {
            Some(s) => s.len() == self.num_cols,
            None => true,
        }
        &&& params::params_wf(self.parameters)
        &&& forall|g: int| 0 <= g < self.sos.len() ==> (#[trigger] self.sos[g]).wf(self.num_cols)
        &&& if self.status == Status::Unlaunched {
            self.col_solution.len() == 0 && self.row_activity.len() == 0
                && self.reduced_cost.len() == 0
        } else {
            self.col_solution.len() == self.num_cols && self.row_activity.len() == self.num_rows
                && self.reduced_cost.len() == self.num_cols
        }
    }

    /// The handle after loading a problem: the given arrays replace
    /// the old problem (absent bound and objective arrays fall back to
    /// the native defaults), the columns start out continuous, and any
    /// earlier warm start, constraint groups and solve results are
    /// gone; the sense and the parameter table are kept.
    pub open spec fn load(
        self,
        num_cols: int,
        num_rows: int,
        start: Seq<i32>,
        index: Seq<i32>,
        value: Seq<u64>,
        collb: Option<&[u64]>,
        colub: Option<&[u64]>,
        obj: Option<&[u64]>,
        rowlb: Option<&[u64]>,
        rowub: Option<&[u64]>,
    ) -> RawModelView {
        RawModelView {
            num_cols: num_cols,
            num_rows: num_rows,
            start: start,
            index: index,
            value: value,
            col_lower: resolved(collb, num_cols, ZERO_BITS),
            col_upper: resolved(colub, num_cols, POS_INF_BITS),
            obj_coefficients: resolved(obj, num_cols, ZERO_BITS),
            row_lower: resolved(rowlb, num_rows, NEG_INF_BITS),
            row_upper: resolved(rowub, num_rows, POS_INF_BITS),
            is_integer: Seq::new(num_cols as nat, |i: int| false),
            initial_solution: None,
            sos: Seq::empty(),
            status: Status::Unlaunched,
            secondary_status: SecondaryStatus::Unlaunched,
            obj_value: ZERO_BITS,
            best_possible_value: ZERO_BITS,
            iteration_count: 0,
            abandoned: false,
            proven_optimal: false,
            proven_infeasible: false,
            continuous_unbounded: false,
            node_limit_reached: false,
            seconds_limit_reached: false,
            solution_limit_reached: false,
            initial_solve_abandoned: false,
            initial_solve_proven_optimal: false,
            initial_solve_proven_primal_infeasible: false,
            col_solution: Seq::empty(),
            row_activity: Seq::empty(),
            reduced_cost: Seq::empty(),
            ..self
        }
    }
}

/// A model handle in native form, held as plain values.
///
/// The handle goes through the life of its native counterpart:
/// created empty, loaded with problem data, queried and adjusted
/// through invariant-checked setters and getters, and finally given
/// the outcome of a solve.  It never moves backward: applying an
/// outcome leaves the problem data untouched, and loading a problem
/// discards any earlier outcome.
pub struct Model {
    num_cols: usize,
    num_rows: usize,
    start: Vec<i32>,
    index: Vec<i32>,
    value: Vec<u64>,
    col_lower: Vec<u64>,
    col_upper: Vec<u64>,
    obj_coefficients: Vec<u64>,
    row_lower: Vec<u64>,
    row_upper: Vec<u64>,
    is_integer: Vec<bool>,
    sense: Sense,
    initial_solution: Option<Vec<u64>>,
    parameters: Vec<(Vec<u8>, Vec<u8>)>,
    sos: Vec<SosGroup>,
    status: Status,
    secondary_status: SecondaryStatus,
    obj_value: u64,
    best_possible_value: u64,
    iteration_count: i32,
    abandoned: bool,
    proven_optimal: bool,
    proven_infeasible: bool,
    continuous_unbounded: bool,
    node_limit_reached: bool,
    seconds_limit_reached: bool,
    solution_limit_reached: bool,
    initial_solve_abandoned: bool,
    initial_solve_proven_optimal: bool,
    initial_solve_proven_primal_infeasible: bool,
    col_solution: Vec<u64>,
    row_activity: Vec<u64>,
    reduced_cost: Vec<u64>,
}

impl View for Model {
    type V = RawModelView;

    closed spec fn view(&self) -> RawModelView {
        RawModelView {
            num_cols: self.num_cols as int,
            num_rows: self.num_rows as int,
            start: self.start@,
            index: self.index@,
            value: self.value@,
            col_lower: self.col_lower@,
            col_upper: self.col_upper@,
            obj_coefficients: self.obj_coefficients@,
            row_lower: self.row_lower@,
            row_upper: self.row_upper@,
            is_integer: self.is_integer@,
            sense: self.sense,
            initial_solution: self.initial_solution.deep_view(),
            parameters: self.parameters.deep_view(),
            sos: Seq::new(self.sos@.len(), |i: int| self.sos@[i]@),
            status: self.status,
            secondary_status: self.secondary_status,
            obj_value: self.obj_value,
            best_possible_value: self.best_possible_value,
            iteration_count: self.iteration_count,
            abandoned: self.abandoned,
            proven_optimal: self.proven_optimal,
            proven_infeasible: self.proven_infeasible,
            continuous_unbounded: self.continuous_unbounded,
            node_limit_reached: self.node_limit_reached,
            seconds_limit_reached: self.seconds_limit_reached,
            solution_limit_reached: self.solution_limit_reached,
            initial_solve_abandoned: self.initial_solve_abandoned,
            initial_solve_proven_optimal: self.initial_solve_proven_optimal,
            initial_solve_proven_primal_infeasible: self.initial_solve_proven_primal_infeasible,
            col_solution: self.col_solution@,
            row_activity: self.row_activity@,
            reduced_cost: self.reduced_cost@,
        }
    }
}

impl Model {
    /// Creates a fresh handle holding an empty problem.
    pub fn new() -> (r: Self)
        ensures
            r@ == RawModelView::initial(),
            r@.wf(),
    {
        let r = Model {
            num_cols: 0,
            num_rows: 0,
            start: vec![0i32],
            index: vec![],
            value: vec![],
            col_lower: vec![],
            col_upper: vec![],
            obj_coefficients: vec![],
            row_lower: vec![],
            row_upper: vec![],
            is_integer: vec![],
            sense: Sense::Ignore,
            initial_solution: None,
            parameters: vec![],
            sos: vec![],
            status: Status::Unlaunched,
            secondary_status: SecondaryStatus::Unlaunched,
            obj_value: ZERO_BITS,
            best_possible_value: ZERO_BITS,
            iteration_count: 0,
            abandoned: false,
            proven_optimal: false,
            proven_infeasible: false,
            continuous_unbounded: false,
            node_limit_reached: false,
            seconds_limit_reached: false,
            solution_limit_reached: false,
            initial_solve_abandoned: false,
            initial_solve_proven_optimal: false,
            initial_solve_proven_primal_infeasible: false,
            col_solution: vec![],
            row_activity: vec![],
            reduced_cost: vec![],
        };
        proof {
            assert(r@ =~~= RawModelView::initial());
        }
        r
    }
}

impl Default for Model {
    /// A fresh handle holding an empty problem.
    fn default() -> (r: Self)
        ensures
            r@ == RawModelView::initial(),
            r@.wf(),
    {
        Model::new()
    }
}

/// A vector holding the given value the given number of times.
fn fill<T: Copy>(n: usize, v: T) -> (r: Vec<T>)
    ensures
        r@ == Seq::new(n as nat, |i: int| v),
{
    let mut r: Vec<T> = Vec::new();
    let mut i: usize = 0;
    while i < n
        invariant
            i <= n,
            r@ == Seq::new(i as nat, |j: int| v),
        decreases n - i,
    {
        r.push(v);
        i = i + 1;
        proof {
            assert(r@ =~= Seq::new(i as nat, |j: int| v));
        }
    }
    r
}

/// The given array as a vector, or the default repeated when absent.
fn resolve_or(opt: Option<&[u64]>, n: usize, default: u64) -> (r: Vec<u64>)
    requires
        opt_len_ok(opt, n as int),
    ensures
        r@ == resolved(opt, n as int, default),
{
    match opt {
        Some(s) => vstd::slice::slice_to_vec(s),
        None => fill(n, default),
    }
}

impl Model {
    /// Loads a problem in compressed-column form, replacing whatever
    /// the handle held.
    ///
    /// The arrays must describe a valid compressed-column matrix of
    /// the stated extents; handing a malformed matrix to the native
    /// side is undefined behavior there, so a caller that cannot
    /// guarantee validity must check it first (see
    /// [`Model::is_valid_problem`]).  Absent bound and objective
    /// arrays fall back to the native defaults: columns get `[0, +inf)`
    /// and objective coefficient zero, rows get `(-inf, +inf)`.
    #[allow(clippy::too_many_arguments)]
    pub fn load_problem(
        &mut self,
        numcols: usize,
        numrows: usize,
        start: &[i32],
        index: &[i32],
        value: &[u64],
        collb: Option<&[u64]>,
        colub: Option<&[u64]>,
        obj: Option<&[u64]>,
        rowlb: Option<&[u64]>,
        rowub: Option<&[u64]>,
    )
        requires
            old(self)@.wf(),
            valid_problem(numcols as int, numrows as int, start@, index@, value@),
            opt_len_ok(collb, numcols as int),
            opt_len_ok(colub, numcols as int),
            opt_len_ok(obj, numcols as int),
            opt_len_ok(rowlb, numrows as int),
            opt_len_ok(rowub, numrows as int),
        ensures
            final(self)@ == old(self)@.load(
                numcols as int,
                numrows as int,
                start@,
                index@,
                value@,
                collb,
                colub,
                obj,
                rowlb,
                rowub,
            ),
            final(self)@.wf(),
    {
        self.num_cols = numcols;
        self.num_rows = numrows;
        self.start = vstd::slice::slice_to_vec(start);
        self.index = vstd::slice::slice_to_vec(index);
        self.value = vstd::slice::slice_to_vec(value);
        self.col_lower = resolve_or(collb, numcols, ZERO_BITS);
        self.col_upper = resolve_or(colub, numcols, POS_INF_BITS);
        self.obj_coefficients = resolve_or(obj, numcols, ZERO_BITS);
        self.row_lower = resolve_or(rowlb, numrows, NEG_INF_BITS);
        self.row_upper = resolve_or(rowub, numrows, POS_INF_BITS);
        self.is_integer = fill(numcols, false);
        self.initial_solution = None;
        self.sos = Vec::new();
        self.status = Status::Unlaunched;
        self.secondary_status = SecondaryStatus::Unlaunched;
        self.obj_value = ZERO_BITS;
        self.best_possible_value = ZERO_BITS;
        self.iteration_count = 0;
        self.abandoned = false;
        self.proven_optimal = false;
        self.proven_infeasible = false;
        self.continuous_unbounded = false;
        self.node_limit_reached = false;
        self.seconds_limit_reached = false;
        self.solution_limit_reached = false;
        self.initial_solve_abandoned = false;
        self.initial_solve_proven_optimal = false;
        self.initial_solve_proven_primal_infeasible = false;
        self.col_solution = Vec::new();
        self.row_activity = Vec::new();
        self.reduced_cost = Vec::new();
        proof {
            assert(self@ =~~= old(self)@.load(
                numcols as int,
                numrows as int,
                start@,
                index@,
                value@,
                collb,
                colub,
                obj,
                rowlb,
                rowub,
            ));
        }
    }

    /// Decides whether the arrays describe a valid compressed-column
    /// matrix of the stated extents, as [`Model::load_problem`]
    /// demands.
    pub fn is_valid_problem(
        numcols: usize,
        numrows: usize,
        start: &[i32],
        index: &[i32],
        value: &[u64],
    ) -> (r: bool)
        ensures
            r == valid_problem(numcols as int, numrows as int, start@, index@, value@),
    {
        if numcols > i32::MAX as usize || numrows > i32::MAX as usize {
            return false;
        }
        if start.len() != numcols + 1 {
            return false;
        }
        if start[0] < 0 {
            return false;
        }
        let n_start = start.len();
        let mut c: usize = 0;
        while c + 1 < n_start
            invariant
                n_start == start@.len(),
                c < n_start,
                forall|i: int, j: int| 0 <= i <= j <= c ==> start@[i] <= start@[j],
            decreases n_start - c,
        {
            if start[c] > start[c + 1] {
                return false;
            }
            c = c + 1;
            proof {
                assert forall|i: int, j: int| 0 <= i <= j <= c implies start@[i] <= start@[j] by {
                    if j == c && i < c {
                        assert(start@[i] <= start@[c - 1]);
                    }
                }
            }
        }
        if start[numcols] < 0 || start[numcols] as usize != index.len() {
            return false;
        }
        if value.len() != index.len() {
            return false;
        }
        let n_index = index.len();
        let mut k: usize = 0;
        while k < n_index
            invariant
                n_index == index@.len(),
                numrows <= i32::MAX,
                k <= n_index,
                forall|j: int| 0 <= j < k ==> 0 <= #[trigger] index@[j] < numrows,
            decreases n_index - k,
        {
            if index[k] < 0 || index[k] as usize >= numrows {
                return false;
            }
            k = k + 1;
        }
        let mut c: usize = 0;
        while c < numcols
            invariant
                n_index == index@.len(),
                start@.len() == numcols + 1,
                start@[0] >= 0,
                start@.last() == n_index,
                forall|i: int, j: int| 0 <= i <= j < start@.len() ==> start@[i] <= start@[j],
                c <= numcols,
                forall|d: int|
                    0 <= d < c ==> window_sorted(index@, #[trigger] start@[d] as int, start@[d
                        + 1] as int),
            decreases numcols - c,
        {
            proof {
                assert(start@[0] <= start@[c as int]);
                assert(start@[c as int] <= start@[c + 1]);
                assert(start@[c + 1] <= start@.last());
            }
            let lo = start[c] as usize;
            let hi = start[c + 1] as usize;
            let mut i = lo;
            while hi - i > 1
                invariant
                    n_index == index@.len(),
                    numcols == start@.len() - 1,
                    c < numcols,
                    lo == start@[c as int],
                    hi == start@[c + 1],
                    lo <= i <= hi,
                    hi <= n_index,
                    forall|t: int| lo <= t && t + 1 < i + 1 ==> #[trigger] index@[t] <= index@[t
                        + 1],
                decreases hi - i,
            {
                if index[i] > index[i + 1] {
                    proof {
                        assert(!window_sorted(index@, lo as int, hi as int));
                    }
                    return false;
                }
                i = i + 1;
            }
            proof {
                lemma_window_sorted_from_adjacent(index@, lo as int, hi as int);
            }
            c = c + 1;
        }
        true
    }
}

impl Model {
    /// Stores a warm-start solution, one value per column.
    pub fn set_initial_solution(&mut self, sol: &[u64])
        requires
            old(self)@.wf(),
            sol@.len() == old(self)@.num_cols,
        ensures
            final(self)@ == (RawModelView { initial_solution: Some(sol@), ..old(self)@ }),
            final(self)@.wf(),
    {
        self.initial_solution = Some(vstd::slice::slice_to_vec(sol));
        proof {
            assert(self@ =~~= (RawModelView { initial_solution: Some(sol@), ..old(self)@ }));
        }
    }

    /// The number of nonzero matrix entries.
    pub fn num_elements(&self) -> (r: usize)
        ensures
            r == self@.num_elements(),
    {
        self.index.len()
    }

    /// The per-column offsets into the index and value arrays.
    pub fn vector_starts(&self) -> (r: &Vec<i32>)
        ensures
            r@ == self@.start,
    {
        &self.start
    }

    /// The row indices of the nonzero matrix entries.
    pub fn indices(&self) -> (r: &Vec<i32>)
        ensures
            r@ == self@.index,
    {
        &self.index
    }

    /// The bit patterns of the nonzero matrix entries.
    pub fn elements(&self) -> (r: &Vec<u64>)
        ensures
            r@ == self@.value,
    {
        &self.value
    }

    /// The number of rows of the loaded problem.
    pub fn num_rows(&self) -> (r: usize)
        ensures
            r == self@.num_rows,
    {
        self.num_rows
    }

    /// The number of columns of the loaded problem.
    pub fn num_cols(&self) -> (r: usize)
        ensures
            r == self@.num_cols,
    {
        self.num_cols
    }

    /// Sets the sense of optimization.
    pub fn set_obj_sense(&mut self, sense: Sense)
        ensures
            final(self)@ == (RawModelView { sense: sense, ..old(self)@ }),
            old(self)@.wf() ==> final(self)@.wf(),
    {
        self.sense = sense;
        proof {
            assert(self@ =~~= (RawModelView { sense: sense, ..old(self)@ }));
        }
    }

    /// The sense of optimization.
    pub fn obj_sense(&self) -> (r: Sense)
        ensures
            r == self@.sense,
    {
        self.sense
    }

    /// The per-row lower bounds, as bit patterns.
    pub fn row_lower(&self) -> (r: &Vec<u64>)
        ensures
            r@ == self@.row_lower,
    {
        &self.row_lower
    }

    /// Sets one row's lower bound.
    pub fn set_row_lower(&mut self, i: usize, value: u64)
        requires
            old(self)@.wf(),
            i < old(self)@.num_rows,
        ensures
            final(self)@ == (RawModelView {
                row_lower: old(self)@.row_lower.update(i as int, value),
                ..old(self)@
            }),
            final(self)@.wf(),
    {
        self.row_lower[i] = value;
        proof {
            assert(self@ =~~= (RawModelView {
                row_lower: old(self)@.row_lower.update(i as int, value),
                ..old(self)@
            }));
        }
    }

    /// The per-row upper bounds, as bit patterns.
    pub fn row_upper(&self) -> (r: &Vec<u64>)
        ensures
            r@ == self@.row_upper,
    {
        &self.row_upper
    }

    /// Sets one row's upper bound.
    pub fn set_row_upper(&mut self, i: usize, value: u64)
        requires
            old(self)@.wf(),
            i < old(self)@.num_rows,
        ensures
            final(self)@ == (RawModelView {
                row_upper: old(self)@.row_upper.update(i as int, value),
                ..old(self)@
            }),
            final(self)@.wf(),
    {
        self.row_upper[i] = value;
        proof {
            assert(self@ =~~= (RawModelView {
                row_upper: old(self)@.row_upper.update(i as int, value),
                ..old(self)@
            }));
        }
    }

    /// The per-column objective coefficients, as bit patterns.
    pub fn obj_coefficients(&self) -> (r: &Vec<u64>)
        ensures
            r@ == self@.obj_coefficients,
    {
        &self.obj_coefficients
    }

    /// Sets one column's objective coefficient.
    pub fn set_obj_coeff(&mut self, i: usize, value: u64)
        requires
            old(self)@.wf(),
            i < old(self)@.num_cols,
        ensures
            final(self)@ == (RawModelView {
                obj_coefficients: old(self)@.obj_coefficients.update(i as int, value),
                ..old(self)@
            }),
            final(self)@.wf(),
    {
        self.obj_coefficients[i] = value;
        proof {
            assert(self@ =~~= (RawModelView {
                obj_coefficients: old(self)@.obj_coefficients.update(i as int, value),
                ..old(self)@
            }));
        }
    }

    /// The per-column lower bounds, as bit patterns.
    pub fn col_lower(&self) -> (r: &Vec<u64>)
        ensures
            r@ == self@.col_lower,
    {
        &self.col_lower
    }

    /// Sets one column's lower bound.
    pub fn set_col_lower(&mut self, i: usize, value: u64)
        requires
            old(self)@.wf(),
            i < old(self)@.num_cols,
        ensures
            final(self)@ == (RawModelView {
                col_lower: old(self)@.col_lower.update(i as int, value),
                ..old(self)@
            }),
            final(self)@.wf(),
    {
        self.col_lower[i] = value;
        proof {
            assert(self@ =~~= (RawModelView {
                col_lower: old(self)@.col_lower.update(i as int, value),
                ..old(self)@
            }));
        }
    }

    /// The per-column upper bounds, as bit patterns.
    pub fn col_upper(&self) -> (r: &Vec<u64>)
        ensures
            r@ == self@.col_upper,
    {
        &self.col_upper
    }

    /// Sets one column's upper bound.
    pub fn set_col_upper(&mut self, i: usize, value: u64)
        requires
            old(self)@.wf(),
            i < old(self)@.num_cols,
        ensures
            final(self)@ == (RawModelView {
                col_upper: old(self)@.col_upper.update(i as int, value),
                ..old(self)@
            }),
            final(self)@.wf(),
    {
        self.col_upper[i] = value;
        proof {
            assert(self@ =~~= (RawModelView {
                col_upper: old(self)@.col_upper.update(i as int, value),
                ..old(self)@
            }));
        }
    }

    /// Whether the given column is an integer variable.
    pub fn is_integer(&self, i: usize) -> (r: bool)
        requires
            self@.wf(),
            i < self@.num_cols,
        ensures
            r == self@.is_integer[i as int],
    {
        self.is_integer[i]
    }

    /// Makes the given column a continuous variable.
    pub fn set_continuous(&mut self, i: usize)
        requires
            old(self)@.wf(),
            i < old(self)@.num_cols,
        ensures
            final(self)@ == (RawModelView {
                is_integer: old(self)@.is_integer.update(i as int, false),
                ..old(self)@
            }),
            final(self)@.wf(),
    {
        self.is_integer[i] = false;
        proof {
            assert(self@ =~~= (RawModelView {
                is_integer: old(self)@.is_integer.update(i as int, false),
                ..old(self)@
            }));
        }
    }

    /// Makes the given column an integer variable.
    pub fn set_integer(&mut self, i: usize)
        requires
            old(self)@.wf(),
            i < old(self)@.num_cols,
        ensures
            final(self)@ == (RawModelView {
                is_integer: old(self)@.is_integer.update(i as int, true),
                ..old(self)@
            }),
            final(self)@.wf(),
    {
        self.is_integer[i] = true;
        proof {
            assert(self@ =~~= (RawModelView {
                is_integer: old(self)@.is_integer.update(i as int, true),
                ..old(self)@
            }));
        }
    }

    /// Replaces the per-column integrality flags, one per column.
    /// On the native side this is one integrality call per column.
    pub fn set_integrality(&mut self, flags: &[bool])
        requires
            old(self)@.wf(),
            flags@.len() == old(self)@.num_cols,
        ensures
            final(self)@ == (RawModelView { is_integer: flags@, ..old(self)@ }),
            final(self)@.wf(),
    {
        self.is_integer = vstd::slice::slice_to_vec(flags);
        proof {
            assert(self@ =~~= (RawModelView { is_integer: flags@, ..old(self)@ }));
        }
    }

    /// Adds a group of special ordered set constraints.
    ///
    /// `row_starts` holds the offset of each constraint's first entry
    /// in `col_indices`, plus the total length as its last entry;
    /// `col_indices` and `weights` hold the flattened per-constraint
    /// column lists and ordering hints.  The offsets must be
    /// consistent and every column index must name an existing column;
    /// malformed groups would be undefined behavior on the native
    /// side.
    pub fn add_sos(
        &mut self,
        row_starts: &[i32],
        col_indices: &[i32],
        weights: &[u64],
        sos_type: SOSConstraintType,
    )
        requires
            old(self)@.wf(),
            (SosGroupView {
                row_starts: row_starts@,
                col_indices: col_indices@,
                weights: weights@,
                constraint_type: sos_type,
            }).wf(old(self)@.num_cols),
        ensures
            final(self)@ == (RawModelView {
                sos: old(self)@.sos.push(
                    SosGroupView {
                        row_starts: row_starts@,
                        col_indices: col_indices@,
                        weights: weights@,
                        constraint_type: sos_type,
                    },
                ),
                ..old(self)@
            }),
            final(self)@.wf(),
    {
        let group = SosGroup {
            row_starts: vstd::slice::slice_to_vec(row_starts),
            col_indices: vstd::slice::slice_to_vec(col_indices),
            weights: vstd::slice::slice_to_vec(weights),
            constraint_type: sos_type,
        };
        self.sos.push(group);
        proof {
            assert(self@ =~~= (RawModelView {
                sos: old(self)@.sos.push(
                    SosGroupView {
                        row_starts: row_starts@,
                        col_indices: col_indices@,
                        weights: weights@,
                        constraint_type: sos_type,
                    },
                ),
                ..old(self)@
            }));
        }
    }

    /// The constraint groups added so far, in insertion order.
    pub fn sos_groups(&self) -> (r: &Vec<SosGroup>)
        ensures
            r@.len() == self@.sos.len(),
            forall|i: int| 0 <= i < r@.len() ==> #[trigger] r@[i]@ == self@.sos[i],
    {
        &self.sos
    }

    /// Sets a parameter, overwriting any earlier value of the same
    /// key.  Neither the key nor the value may hold an embedded
    /// terminator byte: the native side takes C strings.
    pub fn set_parameter(&mut self, name: &[u8], value: &[u8])
        requires
            old(self)@.wf(),
            params::no_nul(name@),
            params::no_nul(value@),
        ensures
            final(self)@ == (RawModelView {
                parameters: params::spec_upsert(old(self)@.parameters, name@, value@),
                ..old(self)@
            }),
            final(self)@.wf(),
    {
        let key = vstd::slice::slice_to_vec(name);
        let val = vstd::slice::slice_to_vec(value);
        proof {
            params::lemma_upsert(self@.parameters, name@, value@);
        }
        params::upsert(&mut self.parameters, key, val);
        proof {
            assert(self@ =~~= (RawModelView {
                parameters: params::spec_upsert(old(self)@.parameters, name@, value@),
                ..old(self)@
            }));
        }
    }

    /// The parameter table, in insertion order.
    pub fn parameters(&self) -> (r: &Vec<(Vec<u8>, Vec<u8>)>)
        ensures
            r.deep_view() == self@.parameters,
    {
        &self.parameters
    }

    /// The warm-start solution, if one was stored.
    pub fn initial_solution(&self) -> (r: &Option<Vec<u64>>)
        ensures
            r.deep_view() == self@.initial_solution,
    {
        &self.initial_solution
    }

    /// Records what a solve reported: the statuses, objective values,
    /// counters, flags and solution arrays.  The problem data is left
    /// untouched.
    pub fn apply_solve_outcome(&mut self, outcome: SolveOutcome)
        requires
            old(self)@.wf(),
            outcome.status != Status::Unlaunched,
            outcome.col_solution@.len() == old(self)@.num_cols,
            outcome.row_activity@.len() == old(self)@.num_rows,
            outcome.reduced_cost@.len() == old(self)@.num_cols,
        ensures
            final(self)@ == (RawModelView {
                status: outcome.status,
                secondary_status: outcome.secondary_status,
                obj_value: outcome.obj_value,
                best_possible_value: outcome.best_possible_value,
                iteration_count: outcome.iteration_count,
                abandoned: outcome.abandoned,
                proven_optimal: outcome.proven_optimal,
                proven_infeasible: outcome.proven_infeasible,
                continuous_unbounded: outcome.continuous_unbounded,
                node_limit_reached: outcome.node_limit_reached,
                seconds_limit_reached: outcome.seconds_limit_reached,
                solution_limit_reached: outcome.solution_limit_reached,
                initial_solve_abandoned: outcome.initial_solve_abandoned,
                initial_solve_proven_optimal: outcome.initial_solve_proven_optimal,
                initial_solve_proven_primal_infeasible:
                    outcome.initial_solve_proven_primal_infeasible,
                col_solution: outcome.col_solution@,
                row_activity: outcome.row_activity@,
                reduced_cost: outcome.reduced_cost@,
                ..old(self)@
            }),
            final(self)@.wf(),
    {
        self.status = outcome.status;
        self.secondary_status = outcome.secondary_status;
        self.obj_value = outcome.obj_value;
        self.best_possible_value = outcome.best_possible_value;
        self.iteration_count = outcome.iteration_count;
        self.abandoned = outcome.abandoned;
        self.proven_optimal = outcome.proven_optimal;
        self.proven_infeasible = outcome.proven_infeasible;
        self.continuous_unbounded = outcome.continuous_unbounded;
        self.node_limit_reached = outcome.node_limit_reached;
        self.seconds_limit_reached = outcome.seconds_limit_reached;
        self.solution_limit_reached = outcome.solution_limit_reached;
        self.initial_solve_abandoned = outcome.initial_solve_abandoned;
        self.initial_solve_proven_optimal = outcome.initial_solve_proven_optimal;
        self.initial_solve_proven_primal_infeasible = outcome
            .initial_solve_proven_primal_infeasible;
        self.col_solution = outcome.col_solution;
        self.row_activity = outcome.row_activity;
        self.reduced_cost = outcome.reduced_cost;
    }

    /// The number of simplex iterations of the last solve.
    pub fn iteration_count(&self) -> (r: i32)
        ensures
            r == self@.iteration_count,
    {
        self.iteration_count
    }

    /// Whether the last solve was abandoned.
    pub fn is_abandoned(&self) -> (r: bool)
        ensures
            r == self@.abandoned,
    {
        self.abandoned
    }

    /// Whether the last solve proved optimality.
    pub fn is_proven_optimal(&self) -> (r: bool)
        ensures
            r == self@.proven_optimal,
    {
        self.proven_optimal
    }

    /// Whether the last solve proved infeasibility.
    pub fn is_proven_infeasible(&self) -> (r: bool)
        ensures
            r == self@.proven_infeasible,
    {
        self.proven_infeasible
    }

    /// Whether the continuous relaxation is unbounded.
    pub fn is_continuous_unbounded(&self) -> (r: bool)
        ensures
            r == self@.continuous_unbounded,
    {
        self.continuous_unbounded
    }

    /// Whether the node limit stopped the last solve.
    pub fn is_node_limit_reached(&self) -> (r: bool)
        ensures
            r == self@.node_limit_reached,
    {
        self.node_limit_reached
    }

    /// Whether the time limit stopped the last solve.
    pub fn is_seconds_limit_reached(&self) -> (r: bool)
        ensures
            r == self@.seconds_limit_reached,
    {
        self.seconds_limit_reached
    }

    /// Whether the solution limit stopped the last solve.
    pub fn is_solution_limit_reached(&self) -> (r: bool)
        ensures
            r == self@.solution_limit_reached,
    {
        self.solution_limit_reached
    }

    /// Whether the initial solve was abandoned.
    pub fn is_initial_solve_abandoned(&self) -> (r: bool)
        ensures
            r == self@.initial_solve_abandoned,
    {
        self.initial_solve_abandoned
    }

    /// Whether the initial solve was proved optimal.
    pub fn is_initial_solve_proven_optimal(&self) -> (r: bool)
        ensures
            r == self@.initial_solve_proven_optimal,
    {
        self.initial_solve_proven_optimal
    }

    /// Whether the initial solve was proved primal infeasible.
    pub fn is_initial_solve_proven_primal_infeasible(&self) -> (r: bool)
        ensures
            r == self@.initial_solve_proven_primal_infeasible,
    {
        self.initial_solve_proven_primal_infeasible
    }

    /// The per-row activities of the last solve, as bit patterns.
    pub fn row_activity(&self) -> (r: &Vec<u64>)
        ensures
            r@ == self@.row_activity,
    {
        &self.row_activity
    }

    /// The per-column solution values of the last solve, as bit
    /// patterns.
    pub fn col_solution(&self) -> (r: &Vec<u64>)
        ensures
            r@ == self@.col_solution,
    {
        &self.col_solution
    }

    /// The per-column reduced costs of the last solve, as bit
    /// patterns.
    pub fn reduced_cost(&self) -> (r: &Vec<u64>)
        ensures
            r@ == self@.reduced_cost,
    {
        &self.reduced_cost
    }

    /// The objective value of the last solve, as a bit pattern.
    pub fn obj_value(&self) -> (r: u64)
        ensures
            r == self@.obj_value,
    {
        self.obj_value
    }

    /// The best possible objective bound, as a bit pattern.
    pub fn best_possible_value(&self) -> (r: u64)
        ensures
            r == self@.best_possible_value,
    {
        self.best_possible_value
    }

    /// The status of the last solve; `Unlaunched` before the first.
    pub fn status(&self) -> (r: Status)
        ensures
            r == self@.status,
    {
        self.status
    }

    /// The secondary status of the last solve.
    pub fn secondary_status(&self) -> (r: SecondaryStatus)
        ensures
            r == self@.secondary_status,
    {
        self.secondary_status
    }
}

/// A window whose adjacent entries never decrease never decreases
/// anywhere.
proof fn lemma_window_sorted_from_adjacent(index: Seq<i32>, lo: int, hi: int)
    requires
        0 <= lo,
        hi <= index.len(),
        forall|t: int| lo <= t && t + 1 < hi ==> #[trigger] index[t] <= index[t + 1],
    ensures
        window_sorted(index, lo, hi),
{
    assert forall|i: int, j: int| lo <= i <= j < hi implies index[i] <= index[j] by {
        lemma_chain_le(index, lo, hi, i, j);
    }
}

/// Chains adjacent nondecreasing steps from one position to a later
/// one.
proof fn lemma_chain_le(index: Seq<i32>, lo: int, hi: int, i: int, j: int)
    requires
        0 <= lo,
        hi <= index.len(),
        forall|t: int| lo <= t && t + 1 < hi ==> #[trigger] index[t] <= index[t + 1],
        lo <= i <= j < hi,
    ensures
        index[i] <= index[j],
    decreases j - i,
{
    if i < j {
        lemma_chain_le(index, lo, hi, i, j - 1);
        assert(index[j - 1] <= index[j]);
    }
}

} // verus!
