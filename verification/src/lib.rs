//! A mixed-integer linear program (MILP) builder in the style of the
//! Coin CBC interface.
//!
//! A [`Model`] is built incrementally: columns (variables) and rows
//! (constraints) are added one by one, and bounds, objective
//! coefficients, integrality flags and constraint weights are set
//! through typed identifiers.  [`Model::to_raw`] translates the sparse
//! per-column weight maps into the compressed-column arrays that a
//! native solver consumes; the translation is proved to produce a
//! well-formed compressed matrix (offsets nondecreasing, row indices
//! strictly increasing within each column, every index in range).
//!
//! Numeric values (bounds, coefficients, weights, solution values) are
//! carried as IEEE 754 double-precision bit patterns in `u64`, so that
//! the structural logic can be stated and verified exactly; a caller
//! converts with `f64::to_bits` / `f64::from_bits`.
//!
//! The solver itself is an external collaborator: [`raw::Model`] holds
//! the problem image in native form, and the caller feeds the outcome
//! of a solve back in as a [`raw::SolveOutcome`].

pub mod params;
pub mod raw;
mod sos_constraints;

pub use raw::Sense;
pub use sos_constraints::{SOSConstraints, SOSConstraintsView};

use vstd::prelude::*;
use vstd::string::StringSliceAdditionalSpecFns;
use vstd::utf8::encode_utf8;

verus! {

/// What went wrong while describing the model.
#[derive(Debug, Copy, Clone, PartialEq, Eq, Structural)]
pub enum ConstructionError {
    /// A parameter key held an embedded terminator byte.
    KeyHasTerminator,
    /// A parameter value held an embedded terminator byte.
    ValueHasTerminator,
}

/// Bit pattern of positive infinity, the default column upper bound.
pub const POS_INF_BITS: u64 = 0x7ff0_0000_0000_0000;

/// Bit pattern of negative infinity, the default row lower bound.
pub const NEG_INF_BITS: u64 = 0xfff0_0000_0000_0000;

/// Bit pattern of positive zero, the default for coefficients.
pub const ZERO_BITS: u64 = 0;

/// Bit pattern of negative zero.
pub const NEG_ZERO_BITS: u64 = 0x8000_0000_0000_0000;

/// True of the two bit patterns that compare equal to zero (positive
/// and negative zero).
pub open spec fn is_zero_bits(b: u64) -> bool {
    b == ZERO_BITS || b == NEG_ZERO_BITS
}

/// Decides whether a bit pattern stands for a zero value.
pub fn coeff_is_zero(b: u64) -> (r: bool)
    ensures
        r == is_zero_bits(b),
{
    b == ZERO_BITS || b == NEG_ZERO_BITS
}

/// A column identifier.
#[derive(Debug, Copy, Clone, PartialEq, Eq, Structural, Hash)]
pub struct Col(u32);

impl View for Col {
    type V = int;

    closed spec fn view(&self) -> int {
        self.0 as int
    }
}

impl Col {
    /// The column's position among the model's columns.
    pub fn as_usize(self) -> (r: usize)
        ensures
            r == self@,
    {
        self.0 as usize
    }
}

/// A row identifier.
#[derive(Debug, Copy, Clone, PartialEq, Eq, Structural, Hash)]
pub struct Row(u32);

impl View for Row {
    type V = int;

    closed spec fn view(&self) -> int {
        self.0 as int
    }
}

impl Row {
    /// The row's position among the model's rows.
    pub fn as_usize(self) -> (r: usize)
        ensures
            r == self@,
    {
        self.0 as usize
    }
}

/// Bit pattern of one, the upper bound of a binary column.
pub const ONE_BITS: u64 = 0x3ff0_0000_0000_0000;

/// The entries are in strictly increasing row order.
pub open spec fn ws_sorted(s: Seq<(u32, u64)>) -> bool {
    forall|i: int, j: int| 0 <= i < j < s.len() ==> (#[trigger] s[i]).0 < (#[trigger] s[j]).0
}

/// Some entry has the given row.
pub open spec fn ws_has(s: Seq<(u32, u64)>, r: int) -> bool {
    exists|i: int| 0 <= i < s.len() && (#[trigger] s[i]).0 as int == r
}

/// The position of the entry with the given row.
pub open spec fn ws_index(s: Seq<(u32, u64)>, r: int) -> int {
    choose|i: int| 0 <= i < s.len() && (#[trigger] s[i]).0 as int == r
}

/// The weight stored for the given row, if any.
pub open spec fn ws_lookup(s: Seq<(u32, u64)>, r: int) -> Option<u64> {
    if ws_has(s, r) {
        Some(s[ws_index(s, r)].1)
    } else {
        None
    }
}

/// The weight an entry of a well-formed map stores is what looking its
/// row up gives.
pub proof fn lemma_ws_lookup_at(s: Seq<(u32, u64)>, i: int)
    requires
        ws_sorted(s),
        0 <= i < s.len(),
    ensures
        ws_lookup(s, s[i].0 as int) == Some(s[i].1),
{
    let r = s[i].0 as int;
    assert(ws_has(s, r));
    let j = ws_index(s, r);
    assert(0 <= j < s.len() && s[j].0 as int == r);
    if j < i {
        assert(s[j].0 < s[i].0);
    }
    if i < j {
        assert(s[i].0 < s[j].0);
    }
}

/// A row no entry carries looks up to nothing.
pub proof fn lemma_ws_lookup_absent(s: Seq<(u32, u64)>, r: int)
    requires
        forall|i: int| 0 <= i < s.len() ==> (#[trigger] s[i]).0 as int != r,
    ensures
        ws_lookup(s, r) == None::<u64>,
{
    assert(!ws_has(s, r));
}

/// Removing an entry leaves every other row's weight in place.
proof fn lemma_set_weight_frame(olds: Seq<(u32, u64)>, news: Seq<(u32, u64)>, pos: int, r2: int)
    requires
        ws_sorted(olds),
        ws_sorted(news),
        0 <= pos < olds.len(),
        news == olds.remove(pos),
        olds[pos].0 as int != r2,
    ensures
        ws_lookup(news, r2) == ws_lookup(olds, r2),
{
    olds.remove_ensures(pos);
    if ws_has(olds, r2) {
        let i = ws_index(olds, r2);
        assert(0 <= i < olds.len() && olds[i].0 as int == r2);
        lemma_ws_lookup_at(olds, i);
        if i < pos {
            assert(news[i] == olds[i]);
            lemma_ws_lookup_at(news, i);
        } else {
            assert(i != pos);
            assert(news[i - 1] == olds[i]);
            lemma_ws_lookup_at(news, i - 1);
        }
    } else {
        assert forall|k: int| 0 <= k < news.len() implies (#[trigger] news[k]).0 as int != r2 by {
            if k < pos {
                assert(news[k] == olds[k]);
            } else {
                assert(news[k] == olds[k + 1]);
            }
        }
        lemma_ws_lookup_absent(news, r2);
    }
}

/// Overwriting an entry's weight leaves every other row's weight in
/// place.
proof fn lemma_set_weight_frame_update(
    olds: Seq<(u32, u64)>,
    news: Seq<(u32, u64)>,
    pos: int,
    r2: int,
)
    requires
        ws_sorted(olds),
        ws_sorted(news),
        0 <= pos < olds.len(),
        news.len() == olds.len(),
        forall|k: int| 0 <= k < news.len() && k != pos ==> #[trigger] news[k] == olds[k],
        news[pos].0 == olds[pos].0,
        olds[pos].0 as int != r2,
    ensures
        ws_lookup(news, r2) == ws_lookup(olds, r2),
{
    if ws_has(olds, r2) {
        let i = ws_index(olds, r2);
        assert(0 <= i < olds.len() && olds[i].0 as int == r2);
        lemma_ws_lookup_at(olds, i);
        assert(i != pos);
        assert(news[i] == olds[i]);
        lemma_ws_lookup_at(news, i);
    } else {
        assert forall|k: int| 0 <= k < news.len() implies (#[trigger] news[k]).0 as int != r2 by {
            if k != pos {
                assert(news[k] == olds[k]);
            }
        }
        lemma_ws_lookup_absent(news, r2);
    }
}

/// Inserting an entry leaves every other row's weight in place.
proof fn lemma_set_weight_frame_insert(
    olds: Seq<(u32, u64)>,
    news: Seq<(u32, u64)>,
    pos: int,
    elt: (u32, u64),
    r2: int,
)
    requires
        ws_sorted(olds),
        ws_sorted(news),
        0 <= pos <= olds.len(),
        news == olds.insert(pos, elt),
        elt.0 as int != r2,
    ensures
        ws_lookup(news, r2) == ws_lookup(olds, r2),
{
    olds.insert_ensures(pos, elt);
    if ws_has(olds, r2) {
        let i = ws_index(olds, r2);
        assert(0 <= i < olds.len() && olds[i].0 as int == r2);
        lemma_ws_lookup_at(olds, i);
        if i < pos {
            assert(news[i] == olds[i]);
            lemma_ws_lookup_at(news, i);
        } else {
            assert(news[i + 1] == olds[i]);
            lemma_ws_lookup_at(news, i + 1);
        }
    } else {
        assert forall|k: int| 0 <= k < news.len() implies (#[trigger] news[k]).0 as int != r2 by {
            if k < pos {
                assert(news[k] == olds[k]);
            } else if k == pos {
                assert(news[k] == elt);
            } else {
                assert(news[k] == olds[k - 1]);
            }
        }
        lemma_ws_lookup_absent(news, r2);
    }
}

/// The parameter table after setting one key given as text: keys or
/// values holding an embedded terminator byte are rejected and change
/// nothing.
pub open spec fn apply_parameter(
    table: Seq<(Seq<u8>, Seq<u8>)>,
    k: Seq<char>,
    v: Seq<char>,
) -> Seq<(Seq<u8>, Seq<u8>)> {
    if params::no_nul(encode_utf8(k)) && params::no_nul(encode_utf8(v)) {
        params::spec_upsert(table, encode_utf8(k), encode_utf8(v))
    } else {
        table
    }
}

/// The parameter table after setting the given pairs in order.
pub open spec fn apply_parameters(
    table: Seq<(Seq<u8>, Seq<u8>)>,
    pairs: Seq<(Seq<char>, Seq<char>)>,
) -> Seq<(Seq<u8>, Seq<u8>)>
    decreases pairs.len(),
{
    if pairs.len() == 0 {
        table
    } else {
        apply_parameters(apply_parameter(table, pairs[0].0, pairs[0].1), pairs.drop_first())
    }
}

/// Setting one more pair applies it after the earlier ones.
proof fn lemma_apply_parameters_push(
    table: Seq<(Seq<u8>, Seq<u8>)>,
    pairs: Seq<(Seq<char>, Seq<char>)>,
    p: (Seq<char>, Seq<char>),
)
    ensures
        apply_parameters(table, pairs.push(p)) == apply_parameter(
            apply_parameters(table, pairs),
            p.0,
            p.1,
        ),
    decreases pairs.len(),
{
    let all = pairs.push(p);
    if pairs.len() == 0 {
        assert(all[0] == p);
        assert(all.drop_first() =~= Seq::<(Seq<char>, Seq<char>)>::empty());
        let x = apply_parameter(table, p.0, p.1);
        assert(apply_parameters(x, all.drop_first()) == x);
        assert(apply_parameters(table, all) == apply_parameters(x, all.drop_first()));
    } else {
        assert(all[0] == pairs[0]);
        assert(all.drop_first() =~= pairs.drop_first().push(p));
        let y = apply_parameter(table, pairs[0].0, pairs[0].1);
        assert(apply_parameters(table, all) == apply_parameters(y, all.drop_first()));
        assert(apply_parameters(table, pairs) == apply_parameters(y, pairs.drop_first()));
        lemma_apply_parameters_push(y, pairs.drop_first(), p);
    }
}

/// A well-formed per-column weight map: strictly increasing row
/// order, every row below the row count, and no zero weight stored.
pub open spec fn col_weights_wf(s: Seq<(u32, u64)>, num_rows: int) -> bool {
    &&& ws_sorted(s)
    &&& forall|i: int|
        0 <= i < s.len() ==> (#[trigger] s[i]).0 < num_rows && !is_zero_bits(s[i].1)
}

/// The total number of nonzero entries over all columns.
pub open spec fn total_nnz(ws: Seq<Seq<(u32, u64)>>) -> int
    decreases ws.len(),
{
    if ws.len() == 0 {
        0
    } else {
        total_nnz(ws.drop_last()) + ws.last().len()
    }
}

/// In a strictly increasing map the row of each entry is at least its
/// position.
proof fn lemma_ws_key_lower_bound(s: Seq<(u32, u64)>, i: int)
    requires
        ws_sorted(s),
        0 <= i < s.len(),
    ensures
        s[i].0 >= i,
    decreases i,
{
    if i > 0 {
        lemma_ws_key_lower_bound(s, i - 1);
        assert(s[i - 1].0 < s[i].0);
    }
}

/// A weight map holds at most one entry per row.
proof fn lemma_col_len_le_rows(s: Seq<(u32, u64)>, num_rows: int)
    requires
        0 <= num_rows,
        col_weights_wf(s, num_rows),
    ensures
        s.len() <= num_rows,
{
    if s.len() > 0 {
        let last = s.len() - 1;
        lemma_ws_key_lower_bound(s, last);
        assert(s[last].0 < num_rows);
    }
}

/// One more column adds its own entries to the count.
proof fn lemma_total_nnz_take_succ(ws: Seq<Seq<(u32, u64)>>, c: int)
    requires
        0 <= c < ws.len(),
    ensures
        total_nnz(ws.take(c + 1)) == total_nnz(ws.take(c)) + ws[c].len(),
{
    assert(ws.take(c + 1).drop_last() =~= ws.take(c));
    assert(ws.take(c + 1).last() == ws[c]);
}

/// A prefix never counts more entries than the whole.
proof fn lemma_total_nnz_prefix_le(ws: Seq<Seq<(u32, u64)>>, c: int)
    requires
        0 <= c <= ws.len(),
    ensures
        total_nnz(ws.take(c)) <= total_nnz(ws),
    decreases ws.len() - c,
{
    if c == ws.len() {
        assert(ws.take(c) =~= ws);
    } else {
        lemma_total_nnz_take_succ(ws, c);
        lemma_total_nnz_prefix_le(ws, c + 1);
    }
}

/// The constraint groups a model hands to the native side: its type-1
/// group, then its type-2 group, each only when it holds a
/// constraint.
pub open spec fn sos_groups_view(
    sos1: SOSConstraintsView,
    sos2: SOSConstraintsView,
) -> Seq<raw::SosGroupView> {
    let g1: Seq<raw::SosGroupView> = if sos1.num_constraints() > 0 {
        seq![
            raw::SosGroupView {
                row_starts: sos1.row_starts,
                col_indices: sos1.col_indices,
                weights: sos1.weights,
                constraint_type: raw::SOSConstraintType::Type1,
            },
        ]
    } else {
        Seq::empty()
    };
    let g2: Seq<raw::SosGroupView> = if sos2.num_constraints() > 0 {
        seq![
            raw::SosGroupView {
                row_starts: sos2.row_starts,
                col_indices: sos2.col_indices,
                weights: sos2.weights,
                constraint_type: raw::SOSConstraintType::Type2,
            },
        ]
    } else {
        Seq::empty()
    };
    g1 + g2
}

/// The problem image holds exactly the model's problem: the
/// compressed-column arrays list each column's weight map in row
/// order, every offset is the sum of the earlier columns' entry
/// counts, the row indices of each column strictly increase and stay
/// below the row count, and the bounds, objective, integrality,
/// sense, parameters, warm start and constraint groups carry over
/// unchanged.
pub open spec fn translated_problem(m: ModelView, r: raw::RawModelView) -> bool {
    &&& r.num_cols == m.num_cols
    &&& r.num_rows == m.num_rows
    &&& r.start.len() == m.num_cols + 1
    &&& r.start[0] == 0
    &&& forall|c: int|
        0 <= c < m.num_cols ==> (#[trigger] r.start[c + 1]) as int == r.start[c] as int
            + m.weights[c].len()
    &&& r.index.len() == total_nnz(m.weights)
    &&& r.value.len() == total_nnz(m.weights)
    &&& r.start.last() as int == total_nnz(m.weights)
    &&& forall|c: int, k: int|
        0 <= c < m.num_cols && 0 <= k < m.weights[c].len() ==> r.index[r.start[c] as int + k] as int
            == (#[trigger] m.weights[c][k]).0 as int && r.value[r.start[c] as int + k]
            == m.weights[c][k].1
    &&& forall|c: int, i: int, j: int|
        0 <= c < m.num_cols && (#[trigger] r.start[c]) as int <= i < j < r.start[c + 1] as int
            ==> (#[trigger] r.index[i]) < (#[trigger] r.index[j])
    &&& forall|k: int|
        0 <= k < r.index.len() ==> 0 <= (#[trigger] r.index[k]) && (r.index[k] as int)
            < m.num_rows
    &&& r.col_lower == m.col_lower
    &&& r.col_upper == m.col_upper
    &&& r.obj_coefficients == m.obj_coefficients
    &&& r.row_lower == m.row_lower
    &&& r.row_upper == m.row_upper
    &&& r.is_integer == m.is_integer
    &&& r.sense == m.sense
    &&& r.initial_solution == m.initial_solution
    &&& r.parameters == m.parameters
    &&& r.sos == sos_groups_view(m.sos1, m.sos2)
}

/// What a model under construction holds.
#[verifier::ext_equal]
pub ghost struct ModelView {
    /// The number of columns added so far.
    pub num_cols: int,
    /// The number of rows added so far.
    pub num_rows: int,
    /// Bit patterns of the per-column lower bounds.
    pub col_lower: Seq<u64>,
    /// Bit patterns of the per-column upper bounds.
    pub col_upper: Seq<u64>,
    /// Bit patterns of the per-row lower bounds.
    pub row_lower: Seq<u64>,
    /// Bit patterns of the per-row upper bounds.
    pub row_upper: Seq<u64>,
    /// Bit patterns of the per-column objective coefficients.
    pub obj_coefficients: Seq<u64>,
    /// Per-column sparse weight maps, each ordered by row.
    pub weights: Seq<Seq<(u32, u64)>>,
    /// Per-column integrality flags.
    pub is_integer: Seq<bool>,
    /// The sense of optimization.
    pub sense: Sense,
    /// Bit patterns of the warm-start values, if any were set.
    pub initial_solution: Option<Seq<u64>>,
    /// The parameter table, in insertion order.
    pub parameters: Seq<(Seq<u8>, Seq<u8>)>,
    /// The type-1 special-ordered-set constraints.
    pub sos1: SOSConstraintsView,
    /// The type-2 special-ordered-set constraints.
    pub sos2: SOSConstraintsView,
}

impl ModelView {
    /// The builder's invariant: every per-column and per-row array has
    /// the matching length, every weight map is ordered and in range,
    /// the parameter table is well formed, and the constraint groups
    /// name only existing columns.
    pub open spec fn wf(self) -> bool {
        &&& 0 <= self.num_cols <= i32::MAX
        &&& 0 <= self.num_rows <= i32::MAX
        &&& self.col_lower.len() == self.num_cols
        &&& self.col_upper.len() == self.num_cols
        &&& self.obj_coefficients.len() == self.num_cols
        &&& self.is_integer.len() == self.num_cols
        &&& self.weights.len() == self.num_cols
        &&& self.row_lower.len() == self.num_rows
        &&& self.row_upper.len() == self.num_rows
        &&& forall|c: int|
            0 <= c < self.num_cols ==> col_weights_wf(#[trigger] self.weights[c], self.num_rows)
        &&& match self.initial_solution {
            Some(s) => s.len() == self.num_cols,
            None => true,
        }
        &&& params::params_wf(self.parameters)
        &&& self.sos1.wf()
        &&& self.sos1.cols_below(self.num_cols)
        &&& self.sos2.wf()
        &&& self.sos2.cols_below(self.num_cols)
    }

    /// An empty model: no columns, no rows, nothing set.
    pub open spec fn initial() -> ModelView {
        ModelView {
            num_cols: 0,
            num_rows: 0,
            col_lower: Seq::empty(),
            col_upper: Seq::empty(),
            row_lower: Seq::empty(),
            row_upper: Seq::empty(),
            obj_coefficients: Seq::empty(),
            weights: Seq::empty(),
            is_integer: Seq::empty(),
            sense: Sense::Ignore,
            initial_solution: None,
            parameters: Seq::empty(),
            sos1: SOSConstraintsView {
                row_starts: seq![0i32],
                col_indices: Seq::empty(),
                weights: Seq::empty(),
            },
            sos2: SOSConstraintsView {
                row_starts: seq![0i32],
                col_indices: Seq::empty(),
                weights: Seq::empty(),
            },
        }
    }
}

/// A MILP model under construction.
///
/// Columns and rows are added one at a time; bounds, objective
/// coefficients, integrality flags, constraint weights, parameters and
/// special-ordered-set constraints are set through the identifiers the
/// additions return.  [`Model::to_raw`] translates the model into the
/// compressed-column problem image a native solver consumes.
#[derive(Clone)]
pub struct Model {
    num_cols: u32,
    num_rows: u32,
    col_lower: Vec<u64>,
    col_upper: Vec<u64>,
    row_lower: Vec<u64>,
    row_upper: Vec<u64>,
    obj_coefficients: Vec<u64>,
    weights: Vec<Vec<(u32, u64)>>,
    is_integer: Vec<bool>,
    sense: Sense,
    initial_solution: Option<Vec<u64>>,
    parameters: Vec<(Vec<u8>, Vec<u8>)>,
    sos1: SOSConstraints,
    sos2: SOSConstraints,
}

impl View for Model {
    type V = ModelView;

    closed spec fn view(&self) -> ModelView {
        ModelView {
            num_cols: self.num_cols as int,
            num_rows: self.num_rows as int,
            col_lower: self.col_lower@,
            col_upper: self.col_upper@,
            row_lower: self.row_lower@,
            row_upper: self.row_upper@,
            obj_coefficients: self.obj_coefficients@,
            weights: Seq::new(self.weights@.len(), |i: int| self.weights@[i]@),
            is_integer: self.is_integer@,
            sense: self.sense,
            initial_solution: self.initial_solution.deep_view(),
            parameters: self.parameters.deep_view(),
            sos1: self.sos1@,
            sos2: self.sos2@,
        }
    }
}

impl Default for Model {
    /// An empty model: no columns, no rows, nothing set.
    fn default() -> (r: Self)
        ensures
            r@ == ModelView::initial(),
            r@.wf(),
    {
        let r = Model {
            num_cols: 0,
            num_rows: 0,
            col_lower: vec![],
            col_upper: vec![],
            row_lower: vec![],
            row_upper: vec![],
            obj_coefficients: vec![],
            weights: vec![],
            is_integer: vec![],
            sense: Sense::Ignore,
            initial_solution: None,
            parameters: vec![],
            sos1: SOSConstraints::default(),
            sos2: SOSConstraints::default(),
        };
        proof {
            assert(r@ =~~= ModelView::initial());
        }
        r
    }
}

impl Model {
    /// Gets the current number of rows of the model.
    pub fn num_rows(&self) -> (r: u32)
        ensures
            r == self@.num_rows,
    {
        self.num_rows
    }

    /// Gets the current number of columns of the model.
    pub fn num_cols(&self) -> (r: u32)
        ensures
            r == self@.num_cols,
    {
        self.num_cols
    }

    /// Removes the initial solution.
    pub fn remove_initial_solution(&mut self)
        ensures
            final(self)@ == (ModelView { initial_solution: None, ..old(self)@ }),
            old(self)@.wf() ==> final(self)@.wf(),
    {
        self.initial_solution = None;
        proof {
            assert(self@ =~~= (ModelView { initial_solution: None, ..old(self)@ }));
        }
    }

    /// Sets the column value of the initial solution.
    ///
    /// If the solution is not present, it is first initialized with
    /// zero for all columns.
    pub fn set_col_initial_solution(&mut self, col: Col, value: u64)
        requires
            old(self)@.wf(),
            col@ < old(self)@.num_cols,
        ensures
            final(self)@ == (ModelView {
                initial_solution: Some(
                    (match old(self)@.initial_solution {
                        Some(s) => s,
                        None => Seq::new(old(self)@.num_cols as nat, |i: int| ZERO_BITS),
                    }).update(col@, value),
                ),
                ..old(self)@
            }),
            final(self)@.wf(),
    {
        if self.initial_solution.is_none() {
            self.initial_solution = Some(zero_vec(self.num_cols as usize));
        }
        match &mut self.initial_solution {
            Some(sol) => {
                let i = col.as_usize();
                sol[i] = value;
            },
            None => {},
        }
        proof {
            assert(self@ =~~= (ModelView {
                initial_solution: Some(
                    (match old(self)@.initial_solution {
                        Some(s) => s,
                        None => Seq::new(old(self)@.num_cols as nat, |i: int| ZERO_BITS),
                    }).update(col@, value),
                ),
                ..old(self)@
            }));
        }
    }

    /// Gets the column value of the initial solution, if one is
    /// present.
    pub fn get_col_initial_solution(&self, col: Col) -> (r: Option<u64>)
        requires
            self@.wf(),
            col@ < self@.num_cols,
        ensures
            r == match self@.initial_solution {
                Some(s) => Some(s[col@]),
                None => None::<u64>,
            },
    {
        match &self.initial_solution {
            Some(s) => Some(s[col.as_usize()]),
            None => None,
        }
    }

    /// Gets the row identifiers, in order.
    pub fn rows(&self) -> (r: Vec<Row>)
        ensures
            r@.len() == self@.num_rows,
            forall|i: int| 0 <= i < r@.len() ==> (#[trigger] r@[i])@ == i,
    {
        let n = self.num_rows;
        let mut r: Vec<Row> = Vec::new();
        let mut i: u32 = 0;
        while i < n
            invariant
                i <= n,
                r@.len() == i,
                forall|j: int| 0 <= j < i ==> (#[trigger] r@[j])@ == j,
            decreases n - i,
        {
            r.push(Row(i));
            i = i + 1;
        }
        r
    }

    /// Gets the column identifiers, in order.
    pub fn cols(&self) -> (r: Vec<Col>)
        ensures
            r@.len() == self@.num_cols,
            forall|i: int| 0 <= i < r@.len() ==> (#[trigger] r@[i])@ == i,
    {
        let n = self.num_cols;
        let mut r: Vec<Col> = Vec::new();
        let mut i: u32 = 0;
        while i < n
            invariant
                i <= n,
                r@.len() == i,
                forall|j: int| 0 <= j < i ==> (#[trigger] r@[j])@ == j,
            decreases n - i,
        {
            r.push(Col(i));
            i = i + 1;
        }
        r
    }

    /// Adds a column to the model and returns its identifier.
    ///
    /// The new column starts continuous, with bounds `[0, +inf)`,
    /// objective coefficient zero, an empty weight map, and — when an
    /// initial solution is present — warm-start value zero.
    pub fn add_col(&mut self) -> (col: Col)
        requires
            old(self)@.wf(),
            old(self)@.num_cols < i32::MAX,
        ensures
            col@ == old(self)@.num_cols,
            final(self)@ == (ModelView {
                num_cols: old(self)@.num_cols + 1,
                col_lower: old(self)@.col_lower.push(ZERO_BITS),
                col_upper: old(self)@.col_upper.push(POS_INF_BITS),
                obj_coefficients: old(self)@.obj_coefficients.push(ZERO_BITS),
                weights: old(self)@.weights.push(Seq::empty()),
                is_integer: old(self)@.is_integer.push(false),
                initial_solution: match old(self)@.initial_solution {
                    Some(s) => Some(s.push(ZERO_BITS)),
                    None => None,
                },
                ..old(self)@
            }),
            final(self)@.wf(),
    {
        let col = Col(self.num_cols);
        self.num_cols = self.num_cols + 1;
        self.obj_coefficients.push(ZERO_BITS);
        self.weights.push(Vec::new());
        self.is_integer.push(false);
        self.col_lower.push(ZERO_BITS);
        self.col_upper.push(POS_INF_BITS);
        match &mut self.initial_solution {
            Some(sol) => {
                sol.push(ZERO_BITS);
            },
            None => {},
        }
        proof {
            assert(self@ =~~= (ModelView {
                num_cols: old(self)@.num_cols + 1,
                col_lower: old(self)@.col_lower.push(ZERO_BITS),
                col_upper: old(self)@.col_upper.push(POS_INF_BITS),
                obj_coefficients: old(self)@.obj_coefficients.push(ZERO_BITS),
                weights: old(self)@.weights.push(Seq::empty()),
                is_integer: old(self)@.is_integer.push(false),
                initial_solution: match old(self)@.initial_solution {
                    Some(s) => Some(s.push(ZERO_BITS)),
                    None => None,
                },
                ..old(self)@
            }));
        }
        col
    }

    /// Adds a row to the model and returns its identifier.
    ///
    /// The new row starts with bounds `(-inf, +inf)`.
    pub fn add_row(&mut self) -> (row: Row)
        requires
            old(self)@.wf(),
            old(self)@.num_rows < i32::MAX,
        ensures
            row@ == old(self)@.num_rows,
            final(self)@ == (ModelView {
                num_rows: old(self)@.num_rows + 1,
                row_lower: old(self)@.row_lower.push(NEG_INF_BITS),
                row_upper: old(self)@.row_upper.push(POS_INF_BITS),
                ..old(self)@
            }),
            final(self)@.wf(),
    {
        let row = Row(self.num_rows);
        self.num_rows = self.num_rows + 1;
        self.row_lower.push(NEG_INF_BITS);
        self.row_upper.push(POS_INF_BITS);
        proof {
            assert(self@ =~~= (ModelView {
                num_rows: old(self)@.num_rows + 1,
                row_lower: old(self)@.row_lower.push(NEG_INF_BITS),
                row_upper: old(self)@.row_upper.push(POS_INF_BITS),
                ..old(self)@
            }));
        }
        row
    }

    /// Changes the given column to an integer variable.
    pub fn set_integer(&mut self, col: Col)
        requires
            old(self)@.wf(),
            col@ < old(self)@.num_cols,
        ensures
            final(self)@ == (ModelView {
                is_integer: old(self)@.is_integer.update(col@, true),
                ..old(self)@
            }),
            final(self)@.wf(),
    {
        let i = col.as_usize();
        self.is_integer[i] = true;
        proof {
            assert(self@ =~~= (ModelView {
                is_integer: old(self)@.is_integer.update(col@, true),
                ..old(self)@
            }));
        }
    }

    /// Changes the given column to a continuous variable.
    pub fn set_continuous(&mut self, col: Col)
        requires
            old(self)@.wf(),
            col@ < old(self)@.num_cols,
        ensures
            final(self)@ == (ModelView {
                is_integer: old(self)@.is_integer.update(col@, false),
                ..old(self)@
            }),
            final(self)@.wf(),
    {
        let i = col.as_usize();
        self.is_integer[i] = false;
        proof {
            assert(self@ =~~= (ModelView {
                is_integer: old(self)@.is_integer.update(col@, false),
                ..old(self)@
            }));
        }
    }

    /// Sets the upper bound of the given column.
    pub fn set_col_upper(&mut self, col: Col, value: u64)
        requires
            old(self)@.wf(),
            col@ < old(self)@.num_cols,
        ensures
            final(self)@ == (ModelView {
                col_upper: old(self)@.col_upper.update(col@, value),
                ..old(self)@
            }),
            final(self)@.wf(),
    {
        let i = col.as_usize();
        self.col_upper[i] = value;
        proof {
            assert(self@ =~~= (ModelView {
                col_upper: old(self)@.col_upper.update(col@, value),
                ..old(self)@
            }));
        }
    }

    /// Sets the lower bound of the given column.
    pub fn set_col_lower(&mut self, col: Col, value: u64)
        requires
            old(self)@.wf(),
            col@ < old(self)@.num_cols,
        ensures
            final(self)@ == (ModelView {
                col_lower: old(self)@.col_lower.update(col@, value),
                ..old(self)@
            }),
            final(self)@.wf(),
    {
        let i = col.as_usize();
        self.col_lower[i] = value;
        proof {
            assert(self@ =~~= (ModelView {
                col_lower: old(self)@.col_lower.update(col@, value),
                ..old(self)@
            }));
        }
    }

    /// Sets the objective coefficient of the given column.
    pub fn set_obj_coeff(&mut self, col: Col, value: u64)
        requires
            old(self)@.wf(),
            col@ < old(self)@.num_cols,
        ensures
            final(self)@ == (ModelView {
                obj_coefficients: old(self)@.obj_coefficients.update(col@, value),
                ..old(self)@
            }),
            final(self)@.wf(),
    {
        let i = col.as_usize();
        self.obj_coefficients[i] = value;
        proof {
            assert(self@ =~~= (ModelView {
                obj_coefficients: old(self)@.obj_coefficients.update(col@, value),
                ..old(self)@
            }));
        }
    }

    /// Sets the upper bound of the given row.
    pub fn set_row_upper(&mut self, row: Row, value: u64)
        requires
            old(self)@.wf(),
            row@ < old(self)@.num_rows,
        ensures
            final(self)@ == (ModelView {
                row_upper: old(self)@.row_upper.update(row@, value),
                ..old(self)@
            }),
            final(self)@.wf(),
    {
        let i = row.as_usize();
        self.row_upper[i] = value;
        proof {
            assert(self@ =~~= (ModelView {
                row_upper: old(self)@.row_upper.update(row@, value),
                ..old(self)@
            }));
        }
    }

    /// Sets the lower bound of the given row.
    pub fn set_row_lower(&mut self, row: Row, value: u64)
        requires
            old(self)@.wf(),
            row@ < old(self)@.num_rows,
        ensures
            final(self)@ == (ModelView {
                row_lower: old(self)@.row_lower.update(row@, value),
                ..old(self)@
            }),
            final(self)@.wf(),
    {
        let i = row.as_usize();
        self.row_lower[i] = value;
        proof {
            assert(self@ =~~= (ModelView {
                row_lower: old(self)@.row_lower.update(row@, value),
                ..old(self)@
            }));
        }
    }

    /// Forces the given row to be equal to the given value.
    ///
    /// Equivalent to setting the upper bound and the lower bound.
    pub fn set_row_equal(&mut self, row: Row, value: u64)
        requires
            old(self)@.wf(),
            row@ < old(self)@.num_rows,
        ensures
            final(self)@ == (ModelView {
                row_lower: old(self)@.row_lower.update(row@, value),
                row_upper: old(self)@.row_upper.update(row@, value),
                ..old(self)@
            }),
            final(self)@.wf(),
    {
        self.set_row_upper(row, value);
        self.set_row_lower(row, value);
    }

    /// Adds an integer variable to the model.
    ///
    /// Equivalent to adding a column and setting it to integer.
    pub fn add_integer(&mut self) -> (col: Col)
        requires
            old(self)@.wf(),
            old(self)@.num_cols < i32::MAX,
        ensures
            col@ == old(self)@.num_cols,
            final(self)@ == (ModelView {
                num_cols: old(self)@.num_cols + 1,
                col_lower: old(self)@.col_lower.push(ZERO_BITS),
                col_upper: old(self)@.col_upper.push(POS_INF_BITS),
                obj_coefficients: old(self)@.obj_coefficients.push(ZERO_BITS),
                weights: old(self)@.weights.push(Seq::empty()),
                is_integer: old(self)@.is_integer.push(true),
                initial_solution: match old(self)@.initial_solution {
                    Some(s) => Some(s.push(ZERO_BITS)),
                    None => None,
                },
                ..old(self)@
            }),
            final(self)@.wf(),
    {
        let col = self.add_col();
        self.set_integer(col);
        proof {
            assert(old(self)@.is_integer.push(false).update(old(self)@.num_cols, true)
                =~= old(self)@.is_integer.push(true));
        }
        col
    }

    /// Adds a binary variable to the model.
    ///
    /// Equivalent to adding a column and setting it to binary.
    pub fn add_binary(&mut self) -> (col: Col)
        requires
            old(self)@.wf(),
            old(self)@.num_cols < i32::MAX,
        ensures
            col@ == old(self)@.num_cols,
            final(self)@ == (ModelView {
                num_cols: old(self)@.num_cols + 1,
                col_lower: old(self)@.col_lower.push(ZERO_BITS),
                col_upper: old(self)@.col_upper.push(ONE_BITS),
                obj_coefficients: old(self)@.obj_coefficients.push(ZERO_BITS),
                weights: old(self)@.weights.push(Seq::empty()),
                is_integer: old(self)@.is_integer.push(true),
                initial_solution: match old(self)@.initial_solution {
                    Some(s) => Some(s.push(ZERO_BITS)),
                    None => None,
                },
                ..old(self)@
            }),
            final(self)@.wf(),
    {
        let col = self.add_col();
        self.set_binary(col);
        proof {
            assert(old(self)@.is_integer.push(false).update(old(self)@.num_cols, true)
                =~= old(self)@.is_integer.push(true));
            assert(old(self)@.col_lower.push(ZERO_BITS).update(old(self)@.num_cols, ZERO_BITS)
                =~= old(self)@.col_lower.push(ZERO_BITS));
            assert(old(self)@.col_upper.push(POS_INF_BITS).update(old(self)@.num_cols, ONE_BITS)
                =~= old(self)@.col_upper.push(ONE_BITS));
        }
        col
    }

    /// Changes the given column to a binary variable.
    ///
    /// Equivalent to setting the column as integer and restricting it
    /// to `[0, 1]`.
    pub fn set_binary(&mut self, col: Col)
        requires
            old(self)@.wf(),
            col@ < old(self)@.num_cols,
        ensures
            final(self)@ == (ModelView {
                is_integer: old(self)@.is_integer.update(col@, true),
                col_lower: old(self)@.col_lower.update(col@, ZERO_BITS),
                col_upper: old(self)@.col_upper.update(col@, ONE_BITS),
                ..old(self)@
            }),
            final(self)@.wf(),
    {
        self.set_integer(col);
        self.set_col_lower(col, ZERO_BITS);
        self.set_col_upper(col, ONE_BITS);
    }

    /// Adds a special ordered set constraint of type 1, preventing all
    /// but one variable in the set from being non-zero at the same
    /// time.
    ///
    /// Weights can be used as hints to the optimizer to improve the
    /// resolution speed; without better ones, 1, 2, 3, ... serve.
    pub fn add_sos1(&mut self, columns_and_weights: &[(Col, u64)])
        requires
            old(self)@.wf(),
            forall|i: int|
                0 <= i < columns_and_weights@.len() ==> (#[trigger] columns_and_weights@[i]).0@
                    < old(self)@.num_cols,
            old(self)@.sos1.col_indices.len() + columns_and_weights@.len() <= i32::MAX,
        ensures
            final(self)@ == (ModelView {
                sos1: SOSConstraintsView {
                    row_starts: old(self)@.sos1.row_starts.push(
                        (old(self)@.sos1.col_indices.len() + columns_and_weights@.len()) as i32,
                    ),
                    col_indices: old(self)@.sos1.col_indices + Seq::new(
                        columns_and_weights@.len(),
                        |i: int| columns_and_weights@[i].0@ as i32,
                    ),
                    weights: old(self)@.sos1.weights + Seq::new(
                        columns_and_weights@.len(),
                        |i: int| columns_and_weights@[i].1,
                    ),
                },
                ..old(self)@
            }),
            final(self)@.wf(),
    {
        self.sos1.add_constraint_with_weights(columns_and_weights);
        proof {
            assert(self@ =~~= (ModelView { sos1: self@.sos1, ..old(self)@ }));
            assert forall|i: int| 0 <= i < self@.sos1.col_indices.len() implies (
            #[trigger] self@.sos1.col_indices[i]) < old(self)@.num_cols by {
                if i >= old(self)@.sos1.col_indices.len() {
                    let k = i - old(self)@.sos1.col_indices.len();
                    assert(columns_and_weights@[k].0@ < old(self)@.num_cols);
                }
            }
        }
    }

    /// Adds a special ordered set constraint of type 2, preventing all
    /// but two adjacent variables in the set from being non-zero at
    /// the same time.
    ///
    /// Weights determine the adjacency of the variables.
    pub fn add_sos2(&mut self, columns_and_weights: &[(Col, u64)])
        requires
            old(self)@.wf(),
            forall|i: int|
                0 <= i < columns_and_weights@.len() ==> (#[trigger] columns_and_weights@[i]).0@
                    < old(self)@.num_cols,
            old(self)@.sos2.col_indices.len() + columns_and_weights@.len() <= i32::MAX,
        ensures
            final(self)@ == (ModelView {
                sos2: SOSConstraintsView {
                    row_starts: old(self)@.sos2.row_starts.push(
                        (old(self)@.sos2.col_indices.len() + columns_and_weights@.len()) as i32,
                    ),
                    col_indices: old(self)@.sos2.col_indices + Seq::new(
                        columns_and_weights@.len(),
                        |i: int| columns_and_weights@[i].0@ as i32,
                    ),
                    weights: old(self)@.sos2.weights + Seq::new(
                        columns_and_weights@.len(),
                        |i: int| columns_and_weights@[i].1,
                    ),
                },
                ..old(self)@
            }),
            final(self)@.wf(),
    {
        self.sos2.add_constraint_with_weights(columns_and_weights);
        proof {
            assert(self@ =~~= (ModelView { sos2: self@.sos2, ..old(self)@ }));
            assert forall|i: int| 0 <= i < self@.sos2.col_indices.len() implies (
            #[trigger] self@.sos2.col_indices[i]) < old(self)@.num_cols by {
                if i >= old(self)@.sos2.col_indices.len() {
                    let k = i - old(self)@.sos2.col_indices.len();
                    assert(columns_and_weights@[k].0@ < old(self)@.num_cols);
                }
            }
        }
    }

    /// Sets a parameter, overwriting any earlier value of the same
    /// key.
    ///
    /// For documentation, launch the `cbc` binary and type `?`.
    ///
    /// The key and the value travel to the native side as C strings,
    /// so neither may hold an embedded terminator byte; a key or value
    /// that does is rejected, and the table is left as it was.
    pub fn set_parameter(&mut self, key: &str, value: &str) -> (r: Result<(), ConstructionError>)
        requires
            old(self)@.wf(),
        ensures
            final(self)@.wf(),
            (r == Ok::<(), ConstructionError>(())) <==> (params::no_nul(key.spec_bytes())
                && params::no_nul(value.spec_bytes())),
            !params::no_nul(key.spec_bytes()) ==> r == Err::<(), ConstructionError>(
                ConstructionError::KeyHasTerminator,
            ) && final(self)@ == old(self)@,
            params::no_nul(key.spec_bytes()) && !params::no_nul(value.spec_bytes()) ==> r == Err::<
                (),
                ConstructionError,
            >(ConstructionError::ValueHasTerminator) && final(self)@ == old(self)@,
            r == Ok::<(), ConstructionError>(()) ==> final(self)@ == (ModelView {
                parameters: params::spec_upsert(
                    old(self)@.parameters,
                    key.spec_bytes(),
                    value.spec_bytes(),
                ),
                ..old(self)@
            }),
    {
        let kb = key.as_bytes();
        if params::has_nul_byte(kb) {
            return Err(ConstructionError::KeyHasTerminator);
        }
        let vb = value.as_bytes();
        if params::has_nul_byte(vb) {
            return Err(ConstructionError::ValueHasTerminator);
        }
        proof {
            params::lemma_upsert(self@.parameters, key.spec_bytes(), value.spec_bytes());
        }
        params::upsert(
            &mut self.parameters,
            vstd::slice::slice_to_vec(kb),
            vstd::slice::slice_to_vec(vb),
        );
        proof {
            assert(self@ =~~= (ModelView {
                parameters: params::spec_upsert(
                    old(self)@.parameters,
                    key.spec_bytes(),
                    value.spec_bytes(),
                ),
                ..old(self)@
            }));
        }
        Ok(())
    }

    /// Sets parameters from a list of key-value pairs, in order.
    ///
    /// Pairs whose key or value holds an embedded terminator byte are
    /// rejected one by one and change nothing; the remaining pairs are
    /// applied.  To learn whether a single pair was taken, use
    /// [`Model::set_parameter`].
    pub fn set_parameters(&mut self, pairs: &[(String, String)])
        requires
            old(self)@.wf(),
        ensures
            final(self)@.wf(),
            final(self)@ == (ModelView {
                parameters: apply_parameters(old(self)@.parameters, pairs.deep_view()),
                ..old(self)@
            }),
    {
        let n = pairs.len();
        let mut i: usize = 0;
        while i < n
            invariant
                n == pairs@.len(),
                i <= n,
                old(self)@.wf(),
                self@.wf(),
                self@ == (ModelView {
                    parameters: apply_parameters(
                        old(self)@.parameters,
                        pairs.deep_view().take(i as int),
                    ),
                    ..old(self)@
                }),
            decreases n - i,
        {
            let pair = &pairs[i];
            let _ = self.set_parameter(pair.0.as_str(), pair.1.as_str());
            proof {
                let pv = pairs.deep_view();
                assert(pv[i as int] == (pairs@[i as int].0@, pairs@[i as int].1@));
                lemma_apply_parameters_push(
                    old(self)@.parameters,
                    pv.take(i as int),
                    pv[i as int],
                );
                assert(pv.take(i + 1) =~= pv.take(i as int).push(pv[i as int]));
                assert(self@ =~~= (ModelView {
                    parameters: apply_parameters(old(self)@.parameters, pv.take(i + 1)),
                    ..old(self)@
                }));
            }
            i = i + 1;
        }
        proof {
            assert(pairs.deep_view().take(n as int) =~= pairs.deep_view());
        }
    }

    /// The number of nonzero entries over all weight maps: the
    /// length of the flat arrays [`Model::to_raw`] will build.
    pub fn num_elements(&self) -> (r: u64)
        requires
            self@.wf(),
        ensures
            r as int == total_nnz(self@.weights),
    {
        let ghost m = self@;
        let ghost ws = self@.weights;
        let numcols = self.num_cols as usize;
        let mut sum: u64 = 0;
        let mut c: usize = 0;
        while c < numcols
            invariant
                self@.wf(),
                m == self@,
                ws == m.weights,
                numcols == m.num_cols,
                c <= numcols,
                sum as int == total_nnz(ws.take(c as int)),
                sum <= c * m.num_rows,
            decreases numcols - c,
        {
            let n = self.weights[c].len();
            proof {
                assert(ws[c as int] == self.weights@[c as int]@);
                lemma_col_len_le_rows(ws[c as int], m.num_rows);
                lemma_total_nnz_take_succ(ws, c as int);
                assert(sum + n <= (c + 1) * m.num_rows) by (nonlinear_arith)
                    requires
                        sum <= c * m.num_rows,
                        n <= m.num_rows,
                        0 <= m.num_rows,
                {}
                assert((c + 1) * m.num_rows <= 0x8000_0000 * 0x8000_0000i64) by (nonlinear_arith)
                    requires
                        0 <= m.num_rows <= 0x8000_0000,
                        0 <= c + 1 <= 0x8000_0000,
                {}
            }
            sum = sum + (n as u64);
            c = c + 1;
        }
        proof {
            assert(ws.take(numcols as int) =~= ws);
        }
        sum
    }

    /// Sets the weight corresponding to the given row and column in
    /// the constraint matrix.
    ///
    /// A zero weight removes any entry the column's map holds for the
    /// row; a nonzero weight inserts the entry or overwrites it.  The
    /// map stays in row order, stores no zero, and no other entry of
    /// the model moves.
    #[verifier::rlimit(40)]
    pub fn set_weight(&mut self, row: Row, col: Col, weight: u64)
        requires
            old(self)@.wf(),
            col@ < old(self)@.num_cols,
            row@ < old(self)@.num_rows,
        ensures
            final(self)@ == (ModelView {
                weights: old(self)@.weights.update(col@, final(self)@.weights[col@]),
                ..old(self)@
            }),
            col_weights_wf(final(self)@.weights[col@], old(self)@.num_rows),
            ws_lookup(final(self)@.weights[col@], row@) == if is_zero_bits(weight) {
                None
            } else {
                Some(weight)
            },
            forall|r2: int|
                r2 != row@ ==> #[trigger] ws_lookup(final(self)@.weights[col@], r2) == ws_lookup(
                    old(self)@.weights[col@],
                    r2,
                ),
            final(self)@.wf(),
    {
        let ci = col.as_usize();
        let rid = row.0;
        let ghost olds: Seq<(u32, u64)> = self.weights@[ci as int]@;
        proof {
            assert(olds == old(self)@.weights[col@]);
            assert(col_weights_wf(olds, old(self)@.num_rows));
        }
        let n = self.weights[ci].len();
        let mut pos: usize = 0;
        while pos < n && self.weights[ci][pos].0 < rid
            invariant
                ci < self.weights@.len(),
                olds == self.weights@[ci as int]@,
                n == olds.len(),
                pos <= n,
                *self == *old(self),
                forall|j: int| 0 <= j < pos ==> (#[trigger] olds[j]).0 < rid,
            decreases n - pos,
        {
            pos = pos + 1;
        }
        let found = pos < n && self.weights[ci][pos].0 == rid;
        proof {
            if found {
                assert(olds[pos as int].0 == rid);
            } else {
                assert forall|k: int| 0 <= k < olds.len() implies (#[trigger] olds[k]).0 as int
                    != row@ by {
                    if k >= pos {
                        if pos < n {
                            if k > pos {
                                assert(olds[pos as int].0 < olds[k].0);
                            }
                        }
                    }
                }
                lemma_ws_lookup_absent(olds, row@);
            }
        }
        if coeff_is_zero(weight) {
            if found {
                let cw = &mut self.weights[ci];
                cw.remove(pos);
                proof {
                    let news = self.weights@[ci as int]@;
                    olds.remove_ensures(pos as int);
                    assert(news == olds.remove(pos as int));
                    assert forall|i: int, j: int| 0 <= i < j < news.len() implies (
                    #[trigger] news[i]).0 < (#[trigger] news[j]).0 by {
                        let oi: int = if i < pos { i } else { i + 1 };
                        let oj: int = if j < pos { j } else { j + 1 };
                        assert(news[i] == olds[oi]);
                        assert(news[j] == olds[oj]);
                    }
                    assert forall|k: int| 0 <= k < news.len() implies (#[trigger] news[k]).0 as int
                        != row@ by {
                        if k >= pos {
                            assert(news[k] == olds[k + 1]);
                            assert(olds[pos as int].0 < olds[k + 1].0);
                        }
                    }
                    lemma_ws_lookup_absent(news, row@);
                    assert forall|k: int| 0 <= k < news.len() implies (#[trigger] news[k]).0
                        < old(self)@.num_rows && !is_zero_bits(news[k].1) by {
                        if k < pos {
                            assert(news[k] == olds[k]);
                        } else {
                            assert(news[k] == olds[k + 1]);
                        }
                    }
                    assert forall|r2: int| r2 != row@ implies #[trigger] ws_lookup(news, r2)
                        == ws_lookup(olds, r2) by {
                        lemma_set_weight_frame(olds, news, pos as int, r2);
                    }
                }
            }
        } else {
            if found {
                let cw = &mut self.weights[ci];
                cw[pos] = (rid, weight);
                proof {
                    let news = self.weights@[ci as int]@;
                    assert(news == olds.update(pos as int, (rid, weight)));
                    assert forall|i: int, j: int| 0 <= i < j < news.len() implies (
                    #[trigger] news[i]).0 < (#[trigger] news[j]).0 by {
                        assert(news[i].0 == olds[i].0);
                        assert(news[j].0 == olds[j].0);
                    }
                    lemma_ws_lookup_at(news, pos as int);
                    assert forall|k: int| 0 <= k < news.len() implies (#[trigger] news[k]).0
                        < old(self)@.num_rows && !is_zero_bits(news[k].1) by {
                        if k != pos {
                            assert(news[k] == olds[k]);
                        }
                    }
                    assert forall|r2: int| r2 != row@ implies #[trigger] ws_lookup(news, r2)
                        == ws_lookup(olds, r2) by {
                        lemma_set_weight_frame_update(olds, news, pos as int, r2);
                    }
                }
            } else {
                let cw = &mut self.weights[ci];
                cw.insert(pos, (rid, weight));
                proof {
                    let news = self.weights@[ci as int]@;
                    olds.insert_ensures(pos as int, (rid, weight));
                    assert(news == olds.insert(pos as int, (rid, weight)));
                    assert forall|i: int, j: int| 0 <= i < j < news.len() implies (
                    #[trigger] news[i]).0 < (#[trigger] news[j]).0 by {
                        if i < pos {
                            assert(news[i] == olds[i]);
                        }
                        if j < pos {
                            assert(news[j] == olds[j]);
                        }
                        if i > pos {
                            assert(news[i] == olds[i - 1]);
                            assert(olds[pos as int].0 > rid);
                        }
                        if j > pos {
                            assert(news[j] == olds[j - 1]);
                            if j - 1 > pos as int {
                                assert(olds[pos as int].0 < olds[j - 1].0);
                            }
                            assert(olds[j - 1].0 > rid);
                        }
                    }
                    lemma_ws_lookup_at(news, pos as int);
                    assert forall|k: int| 0 <= k < news.len() implies (#[trigger] news[k]).0
                        < old(self)@.num_rows && !is_zero_bits(news[k].1) by {
                        if k < pos {
                            assert(news[k] == olds[k]);
                        } else if k > pos {
                            assert(news[k] == olds[k - 1]);
                        }
                    }
                    assert forall|r2: int| r2 != row@ implies #[trigger] ws_lookup(news, r2)
                        == ws_lookup(olds, r2) by {
                        lemma_set_weight_frame_insert(olds, news, pos as int, (rid, weight), r2);
                    }
                }
            }
        }
        proof {
            let news = self.weights@[ci as int]@;
            assert(self@.weights =~= old(self)@.weights.update(col@, news));
            assert(self@ =~~= (ModelView {
                weights: old(self)@.weights.update(col@, news),
                ..old(self)@
            }));
            assert forall|c: int| 0 <= c < self@.num_cols implies col_weights_wf(
                #[trigger] self@.weights[c],
                self@.num_rows,
            ) by {
                if c != col@ {
                    assert(self@.weights[c] == old(self)@.weights[c]);
                }
            }
        }
    }

    /// Sets the objective sense.
    pub fn set_obj_sense(&mut self, sense: Sense)
        ensures
            final(self)@ == (ModelView { sense: sense, ..old(self)@ }),
            old(self)@.wf() ==> final(self)@.wf(),
    {
        self.sense = sense;
        proof {
            assert(self@ =~~= (ModelView { sense: sense, ..old(self)@ }));
        }
    }
}

impl Model {
    /// Builds the compressed-column arrays: the per-column offsets,
    /// the row indices and the values, each column's weight map
    /// appended in row order.
    #[verifier::rlimit(100)]
    fn build_csc(&self) -> (arrays: (Vec<i32>, Vec<i32>, Vec<u64>))
        requires
            self@.wf(),
            total_nnz(self@.weights) <= i32::MAX,
        ensures
            ({
                let m = self@;
                let start = arrays.0@;
                let index = arrays.1@;
                let value = arrays.2@;
                &&& start.len() == m.num_cols + 1
                &&& start[0] == 0
                &&& forall|d: int|
                    0 <= d < m.num_cols ==> (#[trigger] start[d + 1]) as int == start[d] as int
                        + m.weights[d].len()
                &&& index.len() == total_nnz(m.weights)
                &&& value.len() == total_nnz(m.weights)
                &&& start.last() as int == total_nnz(m.weights)
                &&& forall|d: int, k: int|
                    0 <= d < m.num_cols && 0 <= k < m.weights[d].len() ==> index[start[d] as int
                        + k] as int == (#[trigger] m.weights[d][k]).0 as int && value[start[d] as int + k] == m.weights[d][k].1
                &&& forall|c: int, i: int, j: int|
                    0 <= c < m.num_cols && (#[trigger] start[c]) as int <= i < j < start[c
                        + 1] as int ==> (#[trigger] index[i]) < (#[trigger] index[j])
                &&& forall|t: int|
                    0 <= t < index.len() ==> 0 <= (#[trigger] index[t]) && (index[t] as int)
                        < m.num_rows
                &&& raw::valid_problem(m.num_cols, m.num_rows, start, index, value)
            }),
    {
        let ghost m = self@;
        let ghost ws = self@.weights;
        let numcols = self.num_cols as usize;
        let numrows = self.num_rows as usize;
        let mut start: Vec<i32> = Vec::new();
        let mut index: Vec<i32> = Vec::new();
        let mut value: Vec<u64> = Vec::new();
        start.push(0i32);
        let mut c: usize = 0;
        while c < numcols
            invariant
                self@.wf(),
                m == self@,
                ws == m.weights,
                numcols == m.num_cols,
                numrows == m.num_rows,
                total_nnz(ws) <= i32::MAX,
                c <= numcols,
                start@.len() == c + 1,
                start@[0] == 0,
                forall|d: int|
                    0 <= d < c ==> (#[trigger] start@[d + 1]) as int == start@[d] as int
                        + ws[d].len(),
                forall|d: int, e: int| 0 <= d <= e <= c ==> start@[d] <= start@[e],
                index@.len() == total_nnz(ws.take(c as int)),
                value@.len() == index@.len(),
                start@[c as int] as int == index@.len(),
                forall|d: int, k: int|
                    0 <= d < c && 0 <= k < ws[d].len() ==> index@[start@[d] as int + k] as int == (
                    #[trigger] ws[d][k]).0 as int && value@[start@[d] as int + k] == ws[d][k].1,
                forall|t: int|
                    0 <= t < index@.len() ==> 0 <= (#[trigger] index@[t]) && (index@[t] as int)
                        < m.num_rows,
            decreases numcols - c,
        {
            let ghost pre_index = index@;
            let ghost pre_value = value@;
            let n = self.weights[c].len();
            proof {
                assert(ws[c as int] == self.weights@[c as int]@);
                assert(col_weights_wf(ws[c as int], m.num_rows));
            }
            let mut k: usize = 0;
            while k < n
                invariant
                    self@.wf(),
                    m == self@,
                    ws == m.weights,
                    c < ws.len(),
                    ws[c as int] == self.weights@[c as int]@,
                    n == ws[c as int].len(),
                    col_weights_wf(ws[c as int], m.num_rows),
                    m.num_rows <= i32::MAX,
                    k <= n,
                    index@ == pre_index + Seq::new(
                        k as nat,
                        |t: int| ws[c as int][t].0 as i32,
                    ),
                    value@ == pre_value + Seq::new(k as nat, |t: int| ws[c as int][t].1),
                    forall|t: int|
                        0 <= t < pre_index.len() ==> 0 <= (#[trigger] pre_index[t]) && (
                        pre_index[t] as int) < m.num_rows,
                decreases n - k,
            {
                let e = self.weights[c][k];
                proof {
                    assert(e == ws[c as int][k as int]);
                    assert((e.0 as int) < m.num_rows);
                }
                index.push(e.0 as i32);
                value.push(e.1);
                k = k + 1;
                proof {
                    assert(index@ =~= pre_index + Seq::new(
                        k as nat,
                        |t: int| ws[c as int][t].0 as i32,
                    ));
                    assert(value@ =~= pre_value + Seq::new(k as nat, |t: int| ws[c as int][t].1));
                }
            }
            proof {
                lemma_total_nnz_take_succ(ws, c as int);
                lemma_total_nnz_prefix_le(ws, c as int + 1);
            }
            let total = index.len();
            start.push(total as i32);
            c = c + 1;
            proof {
                let ci = c - 1;
                assert(start@[c as int] as int == index@.len());
                assert forall|d: int, e: int| 0 <= d <= e <= c implies start@[d] <= start@[e] by {
                    if e == c && d < c {
                        assert(start@[d] <= start@[ci as int]);
                    }
                }
                assert forall|d: int, k2: int| 0 <= d < c && 0 <= k2 < ws[d].len() implies index@[
                    start@[d] as int + k2
                ] as int == (#[trigger] ws[d][k2]).0 as int && value@[start@[d] as int + k2]
                    == ws[d][k2].1 by {
                    if d < ci {
                        assert(start@[d + 1] <= start@[ci as int]);
                        assert(start@[d] as int + k2 < start@[d + 1] as int);
                        assert(index@[start@[d] as int + k2] == pre_index[start@[d] as int + k2]);
                        assert(value@[start@[d] as int + k2] == pre_value[start@[d] as int + k2]);
                    } else {
                        assert(start@[d] as int == pre_index.len());
                        assert(index@[pre_index.len() + k2] == ws[d][k2].0 as i32);
                        assert(value@[pre_index.len() + k2] == ws[d][k2].1);
                        assert((ws[d][k2].0 as int) < m.num_rows);
                    }
                }
                assert forall|t: int| 0 <= t < index@.len() implies 0 <= (
                #[trigger] index@[t]) && (index@[t] as int) < m.num_rows by {
                    if t >= pre_index.len() {
                        let k2 = t - pre_index.len();
                        assert(index@[t] == ws[ci as int][k2].0 as i32);
                        assert((ws[ci as int][k2].0 as int) < m.num_rows);
                    }
                }
            }
        }
        proof {
            assert(ws.take(numcols as int) =~= ws);
            assert forall|c2: int| 0 <= c2 < numcols implies raw::window_sorted(
                index@,
                (#[trigger] start@[c2]) as int,
                start@[c2 + 1] as int,
            ) by {
                assert forall|i: int, j: int|
                    start@[c2] as int <= i <= j < start@[c2 + 1] as int implies index@[i]
                    <= index@[j] by {
                    if i < j {
                        let k1 = i - start@[c2] as int;
                        let k2 = j - start@[c2] as int;
                        assert(index@[i] as int == ws[c2][k1].0 as int);
                        assert(index@[j] as int == ws[c2][k2].0 as int);
                        assert(ws[c2][k1].0 < ws[c2][k2].0);
                    }
                }
            }
            assert(start@.last() == start@[numcols as int]);
            assert(raw::valid_problem(numcols as int, numrows as int, start@, index@, value@));
        }
        proof {
            assert forall|c3: int, i3: int, j3: int|
                0 <= c3 < m.num_cols && (#[trigger] start@[c3]) as int <= i3 < j3 < start@[c3
                + 1] as int implies (#[trigger] index@[i3]) < (#[trigger] index@[j3]) by {
                let k1 = i3 - start@[c3] as int;
                let k2 = j3 - start@[c3] as int;
                assert(index@[i3] as int == ws[c3][k1].0 as int);
                assert(index@[j3] as int == ws[c3][k2].0 as int);
                assert(ws[c3][k1].0 < ws[c3][k2].0);
            }
        }
        (start, index, value)
    }

    /// Copies the model's parameter table onto a problem image whose
    /// table is still empty.  The keys are unique, so each entry is
    /// appended in order.
    #[verifier::rlimit(100)]
    fn apply_parameter_table(&self, r: &mut raw::Model)
        requires
            self@.wf(),
            old(r)@.wf(),
            old(r)@.parameters == Seq::<(Seq<u8>, Seq<u8>)>::empty(),
        ensures
            final(r)@ == (raw::RawModelView { parameters: self@.parameters, ..old(r)@ }),
            final(r)@.wf(),
    {
        let ghost m = self@;
        let ghost r1 = r@;
        let np = self.parameters.len();
        let mut i: usize = 0;
        while i < np
            invariant
                self@.wf(),
                m == self@,
                np == self.parameters@.len(),
                i <= np,
                r1.wf(),
                r1.parameters == Seq::<(Seq<u8>, Seq<u8>)>::empty(),
                r@ == (raw::RawModelView { parameters: m.parameters.take(i as int), ..r1 }),
                r@.wf(),
                m.parameters == self.parameters.deep_view(),
            decreases np - i,
        {
            let p = &self.parameters[i];
            proof {
                let pi = self.parameters@[i as int];
                assert(m.parameters[i as int] == (pi.0@, pi.1@));
                assert(params::no_nul(m.parameters[i as int].0));
                assert(params::no_nul(m.parameters[i as int].1));
            }
            r.set_parameter(p.0.as_slice(), p.1.as_slice());
            i = i + 1;
            proof {
                let key = m.parameters[i - 1].0;
                let val = m.parameters[i - 1].1;
                assert forall|j: int| 0 <= j < i - 1 implies (#[trigger] m.parameters.take(
                    i - 1,
                )[j]).0 != key by {
                    assert(m.parameters[j].0 != m.parameters[i - 1].0);
                }
                assert(!params::has_key(m.parameters.take(i - 1), key));
                params::lemma_upsert_fresh(m.parameters.take(i - 1), key, val);
                assert(m.parameters.take(i - 1).push((key, val)) =~= m.parameters.take(i as int));
                assert(r@ =~~= (raw::RawModelView {
                    parameters: m.parameters.take(i as int),
                    ..r1
                }));
            }
        }
        proof {
            assert(m.parameters.take(np as int) =~= m.parameters);
            assert(r@ =~~= (raw::RawModelView { parameters: m.parameters, ..r1 }));
        }
    }

    /// Applies the model's settings to a freshly loaded problem
    /// image: the integrality flags, the sense, the parameter table,
    /// the warm start, and the constraint groups.
    #[verifier::rlimit(100)]
    fn apply_settings(&self, r: &mut raw::Model)
        requires
            self@.wf(),
            old(r)@.wf(),
            old(r)@.num_cols == self@.num_cols,
            old(r)@.parameters == Seq::<(Seq<u8>, Seq<u8>)>::empty(),
            old(r)@.initial_solution == None::<Seq<u64>>,
            old(r)@.sos == Seq::<raw::SosGroupView>::empty(),
        ensures
            final(r)@ == (raw::RawModelView {
                is_integer: self@.is_integer,
                sense: self@.sense,
                parameters: self@.parameters,
                initial_solution: self@.initial_solution,
                sos: sos_groups_view(self@.sos1, self@.sos2),
                ..old(r)@
            }),
            final(r)@.wf(),
    {
        let ghost m = self@;
        r.set_integrality(self.is_integer.as_slice());
        r.set_obj_sense(self.sense);
        self.apply_parameter_table(r);
        match &self.initial_solution {
            Some(sol) => {
                proof {
                    assert(m.initial_solution == Some(sol@));
                }
                r.set_initial_solution(sol.as_slice());
            },
            None => {
                proof {
                    assert(m.initial_solution is None);
                }
            },
        }
        self.sos1.add_to_raw(r, raw::SOSConstraintType::Type1);
        self.sos2.add_to_raw(r, raw::SOSConstraintType::Type2);
        proof {
            assert(r@.sos =~= sos_groups_view(m.sos1, m.sos2));
            assert(r@ =~~= (raw::RawModelView {
                is_integer: m.is_integer,
                sense: m.sense,
                parameters: m.parameters,
                initial_solution: m.initial_solution,
                sos: sos_groups_view(m.sos1, m.sos2),
                ..old(r)@
            }));
        }
    }

    /// Constructs the problem image corresponding to the current
    /// state.
    ///
    /// Each column's weight map is appended to the flat index and
    /// value arrays in row order, and the running length is pushed as
    /// the next offset, so the compressed-column invariants — offsets
    /// that never decrease, strictly increasing row indices within
    /// each column, every index below the row count — hold by
    /// construction.
    #[verifier::rlimit(100)]
    pub fn to_raw(&self) -> (r: raw::Model)
        requires
            self@.wf(),
            total_nnz(self@.weights) <= i32::MAX,
        ensures
            translated_problem(self@, r@),
            r@.wf(),
            r@.status == raw::Status::Unlaunched,
            r@.secondary_status == raw::SecondaryStatus::Unlaunched,
            r@.col_solution.len() == 0,
            r@.row_activity.len() == 0,
            r@.reduced_cost.len() == 0,
    {
        let ghost m = self@;
        let ghost ws = self@.weights;
        let numcols = self.num_cols as usize;
        let numrows = self.num_rows as usize;
        let csc = self.build_csc();
        let start = csc.0;
        let index = csc.1;
        let value = csc.2;
        let mut r = raw::Model::new();
        r.load_problem(
            numcols,
            numrows,
            start.as_slice(),
            index.as_slice(),
            value.as_slice(),
            Some(self.col_lower.as_slice()),
            Some(self.col_upper.as_slice()),
            Some(self.obj_coefficients.as_slice()),
            Some(self.row_lower.as_slice()),
            Some(self.row_upper.as_slice()),
        );
        self.apply_settings(&mut r);
        proof {
            assert(r@.sos =~= sos_groups_view(m.sos1, m.sos2));
            assert(r@.start == start@);
            assert(r@.index == index@);
            assert(r@.value == value@);
            assert(r@.num_cols == m.num_cols);
            assert(r@.start.len() == m.num_cols + 1);
            assert(r@.start[0] == 0);
            assert(r@.index.len() == total_nnz(m.weights));
            assert(r@.start.last() as int == total_nnz(m.weights));
            assert(r@.col_lower == m.col_lower);
            assert(r@.is_integer == m.is_integer);
            assert(r@.parameters == m.parameters);
            assert(r@.initial_solution == m.initial_solution);
            assert(translated_problem(m, r@));
        }
        r
    }

    /// Combines the model with the outcome a solver reported for it:
    /// the problem image is built as [`Model::to_raw`] does, the
    /// outcome is recorded on it, and the pair is wrapped as a
    /// [`Solution`].  The model itself is never mutated by solving.
    #[verifier::rlimit(100)]
    pub fn solve_with(&self, outcome: raw::SolveOutcome) -> (r: Solution)
        requires
            self@.wf(),
            total_nnz(self@.weights) <= i32::MAX,
            outcome.status != raw::Status::Unlaunched,
            outcome.col_solution@.len() == self@.num_cols,
            outcome.row_activity@.len() == self@.num_rows,
            outcome.reduced_cost@.len() == self@.num_cols,
        ensures
            translated_problem(self@, r@),
            r@.wf(),
            r@.status == outcome.status,
            r@.secondary_status == outcome.secondary_status,
            r@.obj_value == outcome.obj_value,
            r@.best_possible_value == outcome.best_possible_value,
            r@.iteration_count == outcome.iteration_count,
            r@.abandoned == outcome.abandoned,
            r@.proven_optimal == outcome.proven_optimal,
            r@.proven_infeasible == outcome.proven_infeasible,
            r@.continuous_unbounded == outcome.continuous_unbounded,
            r@.node_limit_reached == outcome.node_limit_reached,
            r@.seconds_limit_reached == outcome.seconds_limit_reached,
            r@.solution_limit_reached == outcome.solution_limit_reached,
            r@.col_solution == outcome.col_solution@,
            r@.row_activity == outcome.row_activity@,
            r@.reduced_cost == outcome.reduced_cost@,
    {
        let mut raw_model = self.to_raw();
        raw_model.apply_solve_outcome(outcome);
        Solution::new(raw_model)
    }

    /// Sets the initial solution from a [`Solution`], as a warm start
    /// for the next solve: every column of this model takes the
    /// solved value of the column with the same identifier.
    pub fn set_initial_solution(&mut self, solution: &Solution)
        requires
            old(self)@.wf(),
            old(self)@.num_cols <= solution@.col_solution.len(),
        ensures
            final(self)@ == (ModelView {
                initial_solution: Some(
                    Seq::new(
                        old(self)@.num_cols as nat,
                        |i: int| solution@.col_solution[i],
                    ),
                ),
                ..old(self)@
            }),
            final(self)@.wf(),
    {
        let n = self.num_cols as usize;
        let values = solution.raw().col_solution();
        let mut sol: Vec<u64> = Vec::new();
        let mut i: usize = 0;
        while i < n
            invariant
                n <= values@.len(),
                values@ == solution@.col_solution,
                i <= n,
                sol@ == Seq::new(i as nat, |j: int| solution@.col_solution[j]),
            decreases n - i,
        {
            sol.push(values[i]);
            i = i + 1;
            proof {
                assert(sol@ =~= Seq::new(i as nat, |j: int| solution@.col_solution[j]));
            }
        }
        self.initial_solution = Some(sol);
        proof {
            assert(self@ =~~= (ModelView {
                initial_solution: Some(
                    Seq::new(
                        old(self)@.num_cols as nat,
                        |i2: int| solution@.col_solution[i2],
                    ),
                ),
                ..old(self)@
            }));
        }
    }
}

/// A solution to a MILP problem.
///
/// This is a thin wrapper over a problem image carrying a solve
/// outcome, with accessors using the typed identifiers.
pub struct Solution {
    raw: raw::Model,
}

impl View for Solution {
    type V = raw::RawModelView;

    closed spec fn view(&self) -> raw::RawModelView {
        self.raw@
    }
}

impl Solution {
    /// Wraps a solved problem image.
    pub fn new(raw: raw::Model) -> (r: Self)
        ensures
            r@ == raw@,
    {
        Solution { raw }
    }

    /// Gets a shared reference to the internal problem image.
    pub fn raw(&self) -> (r: &raw::Model)
        ensures
            r@ == self@,
    {
        &self.raw
    }

    /// Gets the internal problem image.
    pub fn into_raw(self) -> (r: raw::Model)
        ensures
            r@ == self@,
    {
        self.raw
    }

    /// Gets the value of the given column in the solution, as a bit
    /// pattern.
    pub fn col(&self, col: Col) -> (r: u64)
        requires
            col@ < self@.col_solution.len(),
        ensures
            r == self@.col_solution[col@],
    {
        let values = self.raw.col_solution();
        values[col.as_usize()]
    }

    /// Returns whether the given variable is basic, that is, equal to
    /// zero in the solution.
    pub fn is_basic(&self, col: Col) -> (r: bool)
        requires
            col@ < self@.col_solution.len(),
        ensures
            r == is_zero_bits(self@.col_solution[col@]),
    {
        coeff_is_zero(self.col(col))
    }

    /// Primal row solution: gets the value of the linear expression
    /// in the given constraint, as a bit pattern.
    pub fn row_activity(&self, row: Row) -> (r: u64)
        requires
            row@ < self@.row_activity.len(),
        ensures
            r == self@.row_activity[row@],
    {
        let values = self.raw.row_activity();
        values[row.as_usize()]
    }

    /// For a minimization problem, the reduced cost of a nonbasic
    /// variable (a variable that is null in the solution) is the
    /// amount by which the value of the objective will decrease if we
    /// increase the value of the variable by one, as a bit pattern.
    pub fn reduced_cost(&self, col: Col) -> (r: u64)
        requires
            col@ < self@.reduced_cost.len(),
        ensures
            r == self@.reduced_cost[col@],
    {
        let values = self.raw.reduced_cost();
        values[col.as_usize()]
    }
}

/// A vector of the given length holding the zero bit pattern.
fn zero_vec(n: usize) -> (r: Vec<u64>)
    ensures
        r@ == Seq::new(n as nat, |i: int| ZERO_BITS),
{
    let mut r: Vec<u64> = Vec::new();
    let mut i: usize = 0;
    while i < n
        invariant
            i <= n,
            r@ == Seq::new(i as nat, |j: int| ZERO_BITS),
        decreases n - i,
    {
        r.push(ZERO_BITS);
        i = i + 1;
        proof {
            assert(r@ =~= Seq::new(i as nat, |j: int| ZERO_BITS));
        }
    }
    r
}

} // verus!
