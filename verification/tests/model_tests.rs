//! Tests of the model builder, the translation into the
//! compressed-column problem image, and the solution view.

use coin_cbc::raw::{SecondaryStatus, SolveOutcome, Status};
use coin_cbc::{Model, Sense};

fn bits(x: f64) -> u64 {
    x.to_bits()
}

fn val(b: u64) -> f64 {
    f64::from_bits(b)
}

/// An outcome as a solver would report it for a finished solve.
fn finished_outcome(
    obj_value: f64,
    col_solution: &[f64],
    row_activity: &[f64],
    reduced_cost: &[f64],
) -> SolveOutcome {
    SolveOutcome {
        status: Status::Finished,
        secondary_status: SecondaryStatus::HasSolution,
        obj_value: bits(obj_value),
        best_possible_value: bits(obj_value),
        iteration_count: 1,
        abandoned: false,
        proven_optimal: true,
        proven_infeasible: false,
        continuous_unbounded: false,
        node_limit_reached: false,
        seconds_limit_reached: false,
        solution_limit_reached: false,
        initial_solve_abandoned: false,
        initial_solve_proven_optimal: true,
        initial_solve_proven_primal_infeasible: false,
        col_solution: col_solution.iter().map(|x| bits(*x)).collect(),
        row_activity: row_activity.iter().map(|x| bits(*x)).collect(),
        reduced_cost: reduced_cost.iter().map(|x| bits(*x)).collect(),
    }
}

#[test]
fn lib_knapsack() {
    let mut m = Model::default();
    assert!(m.set_parameter("log", "0").is_ok());
    let row = m.add_row();
    m.set_row_upper(row, bits(10.));
    let cols = vec![
        m.add_binary(),
        m.add_binary(),
        m.add_binary(),
        m.add_binary(),
        m.add_binary(),
    ];
    m.set_weight(row, cols[0], bits(2.));
    m.set_weight(row, cols[1], bits(8.));
    m.set_weight(row, cols[2], bits(4.));
    m.set_weight(row, cols[3], bits(2.));
    m.set_weight(row, cols[4], bits(5.));
    m.set_obj_coeff(cols[0], bits(5.));
    m.set_obj_coeff(cols[1], bits(3.));
    m.set_obj_coeff(cols[2], bits(2.));
    m.set_obj_coeff(cols[3], bits(7.));
    m.set_obj_coeff(cols[4], bits(4.));
    m.set_obj_sense(Sense::Maximize);

    // What the solver reports for this knapsack: objective 16 with
    // columns 0, 3 and 4 packed.
    let sol = m.solve_with(finished_outcome(
        16.,
        &[1., 0., 0., 1., 1.],
        &[9.],
        &[0., 0., 0., 0., 0.],
    ));
    assert_eq!(Status::Finished, sol.raw().status());
    assert_eq!(16., val(sol.raw().obj_value()));
    assert_eq!(1., val(sol.col(cols[0])));
    assert_eq!(0., val(sol.col(cols[1])));
    assert_eq!(0., val(sol.col(cols[2])));
    assert_eq!(1., val(sol.col(cols[3])));
    assert_eq!(1., val(sol.col(cols[4])));
}

#[test]
fn infeasible() {
    // Formulate an infeasible problem and try to solve it
    let mut m = Model::default();
    let x = m.add_col();
    m.set_obj_coeff(x, bits(1.));
    m.set_col_upper(x, bits(9.)); // x <= 9
    let constraint = m.add_row();
    m.set_weight(constraint, x, bits(1.));
    m.set_row_lower(constraint, bits(10.)); // x >= 10
    m.set_obj_sense(Sense::Maximize);
    let outcome = SolveOutcome {
        proven_optimal: false,
        proven_infeasible: true,
        initial_solve_proven_optimal: false,
        initial_solve_proven_primal_infeasible: true,
        ..finished_outcome(0., &[0.], &[0.], &[0.])
    };
    m.solve_with(outcome);
    // The model itself is untouched by solving: a fresh image is
    // unlaunched.
    assert_eq!(Status::Unlaunched, m.to_raw().status());
    assert_eq!(SecondaryStatus::Unlaunched, m.to_raw().secondary_status());
    assert!(!m.to_raw().is_proven_optimal());
}

#[test]
fn simple() {
    let mut m = Model::default();
    let x = m.add_col();
    let y = m.add_col();

    // Maximise x + y
    m.set_obj_coeff(x, bits(1.));
    m.set_obj_coeff(y, bits(1.));
    m.set_obj_sense(Sense::Maximize);

    // c1: 2x + 3y <= 8
    let c1 = m.add_row();
    m.set_weight(c1, x, bits(2.));
    m.set_weight(c1, y, bits(3.));
    m.set_row_upper(c1, bits(8.));

    // What the solver reports: x = 4, y = 0, the constraint tight at
    // 8, and a reduced cost of -0.5 on y.
    let solution = m.solve_with(finished_outcome(4., &[4., 0.], &[8.], &[0., -0.5]));

    assert_eq!(val(solution.col(x)), 4.);
    assert_eq!(val(solution.col(y)), 0.);

    // In the solution, 2x + 3y == 8
    assert_eq!(val(solution.row_activity(c1)), 8.);

    // If we set y to 1, we will have x = 5/2 and objective = 3.5 instead of 4
    assert_eq!(val(solution.reduced_cost(x)), 0.);
    assert_eq!(val(solution.reduced_cost(y)), -0.5);

    assert!(solution.is_basic(y));
    assert!(!solution.is_basic(x));
}

#[test]
fn with_sos() {
    let mut m = Model::default();
    let row = m.add_row();
    m.set_row_upper(row, bits(10.));
    let cols = vec![m.add_binary(), m.add_binary()];
    // Maximise 5 x + 3 y
    m.set_obj_coeff(cols[0], bits(5.));
    m.set_obj_coeff(cols[1], bits(3.));
    m.set_obj_sense(Sense::Maximize);
    // Add a constraint that either x or y must be null
    m.add_sos1(&[(cols[0], bits(1.)), (cols[1], bits(2.))]);
    // The solution is 5 x + 3 y = 5 with x = 1 and y = 0
    let sol = m.solve_with(finished_outcome(5., &[1., 0.], &[0.], &[0., 0.]));
    assert_eq!(Status::Finished, sol.raw().status());
    assert_eq!(5., val(sol.raw().obj_value()));
    assert_eq!(1., val(sol.col(cols[0])));
    assert_eq!(0., val(sol.col(cols[1])));
}

#[test]
fn to_raw_compressed_column_form() {
    // Three columns, two rows; weights set out of row order, one
    // entry erased again by a zero weight.
    let mut m = Model::default();
    let c0 = m.add_col();
    let c1 = m.add_col();
    let c2 = m.add_col();
    let r0 = m.add_row();
    let r1 = m.add_row();
    m.set_weight(r1, c0, bits(7.));
    m.set_weight(r0, c0, bits(3.));
    m.set_weight(r0, c1, bits(4.));
    m.set_weight(r0, c1, bits(0.)); // erased again
    m.set_weight(r1, c2, bits(5.));
    let raw = m.to_raw();
    // The offsets cover each column, never decrease, begin at zero
    // and end at the number of nonzeros.
    assert_eq!(raw.vector_starts().as_slice(), &[0, 2, 2, 3]);
    // Within column 0 the row indices strictly increase.
    assert_eq!(raw.indices().as_slice(), &[0, 1, 1]);
    assert_eq!(
        raw.elements().as_slice(),
        &[bits(3.), bits(7.), bits(5.)]
    );
    assert_eq!(raw.num_elements(), 3);
    assert_eq!(m.num_elements(), 3);
    assert_eq!(raw.num_cols(), 3);
    assert_eq!(raw.num_rows(), 2);
}

#[test]
fn add_col_appends_defaults_everywhere() {
    let mut m = Model::default();
    let c0 = m.add_col();
    // Bring an initial solution into being, then grow the model.
    m.set_col_initial_solution(c0, bits(2.5));
    let c1 = m.add_col();
    assert_eq!(m.num_cols(), 2);
    assert_eq!(m.get_col_initial_solution(c0), Some(bits(2.5)));
    // The already-present initial solution got exactly one default
    // entry for the new column.
    assert_eq!(m.get_col_initial_solution(c1), Some(bits(0.)));
    let raw = m.to_raw();
    assert_eq!(
        raw.col_lower().as_slice(),
        &[bits(0.), bits(0.)]
    );
    assert_eq!(
        raw.col_upper().as_slice(),
        &[bits(f64::INFINITY), bits(f64::INFINITY)]
    );
    assert_eq!(
        raw.obj_coefficients().as_slice(),
        &[bits(0.), bits(0.)]
    );
    assert!(!raw.is_integer(0));
    assert!(!raw.is_integer(1));
}

#[test]
fn set_weight_zero_removes_entry() {
    let mut m = Model::default();
    let c = m.add_col();
    let r = m.add_row();
    m.set_weight(r, c, bits(6.));
    assert_eq!(m.to_raw().num_elements(), 1);
    // A negative zero erases just as a positive zero does.
    m.set_weight(r, c, bits(-0.0));
    assert_eq!(m.to_raw().num_elements(), 0);
    // Overwriting keeps a single entry.
    m.set_weight(r, c, bits(2.));
    m.set_weight(r, c, bits(9.));
    let raw = m.to_raw();
    assert_eq!(raw.num_elements(), 1);
    assert_eq!(raw.elements().as_slice(), &[bits(9.)]);
}

#[test]
fn row_and_col_identifiers() {
    let mut m = Model::default();
    let a = m.add_col();
    let b = m.add_integer();
    let r = m.add_row();
    assert_eq!(a.as_usize(), 0);
    assert_eq!(b.as_usize(), 1);
    assert_eq!(r.as_usize(), 0);
    let cols = m.cols();
    let rows = m.rows();
    assert_eq!(cols.len(), 2);
    assert_eq!(rows.len(), 1);
    assert_eq!(cols[0], a);
    assert_eq!(cols[1], b);
    assert_eq!(rows[0], r);
}

#[test]
fn round_trip_bounds_integrality_objective() {
    // Building a model and reading the image back reproduces exactly
    // the continuous values that were set.
    let mut m = Model::default();
    let c1 = m.add_integer();
    let c2 = m.add_binary();
    m.set_col_lower(c1, bits(-1.5));
    m.set_col_upper(c1, bits(12.25));
    m.set_obj_coeff(c1, bits(3.5));
    m.set_obj_coeff(c2, bits(-2.));
    let r = m.add_row();
    m.set_row_equal(r, bits(4.));
    m.set_obj_sense(Sense::Minimize);
    let raw = m.to_raw();
    assert_eq!(raw.col_lower().as_slice(), &[bits(-1.5), bits(0.)]);
    assert_eq!(raw.col_upper().as_slice(), &[bits(12.25), bits(1.)]);
    assert_eq!(
        raw.obj_coefficients().as_slice(),
        &[bits(3.5), bits(-2.)]
    );
    assert!(raw.is_integer(0));
    assert!(raw.is_integer(1));
    assert_eq!(raw.row_lower().as_slice(), &[bits(4.)]);
    assert_eq!(raw.row_upper().as_slice(), &[bits(4.)]);
    assert_eq!(raw.obj_sense(), Sense::Minimize);
    // The same values come back through the solution view.
    let sol = m.solve_with(finished_outcome(0., &[0., 0.], &[4.], &[0., 0.]));
    assert_eq!(sol.raw().col_lower().as_slice(), &[bits(-1.5), bits(0.)]);
    assert_eq!(sol.raw().col_upper().as_slice(), &[bits(12.25), bits(1.)]);
    assert_eq!(
        sol.raw().obj_coefficients().as_slice(),
        &[bits(3.5), bits(-2.)]
    );
    assert!(sol.raw().is_integer(0));
    assert!(sol.raw().is_integer(1));
    assert_eq!(sol.raw().obj_sense(), Sense::Minimize);
    // Row defaults are the infinities until set.
    let mut m2 = Model::default();
    m2.add_row();
    let raw2 = m2.to_raw();
    assert_eq!(
        raw2.row_lower().as_slice(),
        &[bits(f64::NEG_INFINITY)]
    );
    assert_eq!(raw2.row_upper().as_slice(), &[bits(f64::INFINITY)]);
}

#[test]
fn parameters_reject_embedded_terminator() {
    let mut m = Model::default();
    assert_eq!(
        m.set_parameter("bad\0key", "v"),
        Err(coin_cbc::ConstructionError::KeyHasTerminator)
    );
    assert_eq!(
        m.set_parameter("key", "bad\0value"),
        Err(coin_cbc::ConstructionError::ValueHasTerminator)
    );
    assert!(m.set_parameter("seconds", "10").is_ok());
    // A duplicate key overwrites in place.
    assert!(m.set_parameter("seconds", "20").is_ok());
    let raw = m.to_raw();
    let params = raw.parameters();
    assert_eq!(params.len(), 1);
    assert_eq!(params[0].0.as_slice(), b"seconds");
    assert_eq!(params[0].1.as_slice(), b"20");
}

#[test]
fn parameters_from_iterator_skip_invalid() {
    let mut m = Model::default();
    let pairs = vec![
        ("log".to_string(), "0".to_string()),
        ("bad\0".to_string(), "1".to_string()),
        ("seconds".to_string(), "30".to_string()),
    ];
    m.set_parameters(&pairs);
    let raw = m.to_raw();
    let params = raw.parameters();
    assert_eq!(params.len(), 2);
    assert_eq!(params[0].0.as_slice(), b"log");
    assert_eq!(params[1].0.as_slice(), b"seconds");
    assert_eq!(params[1].1.as_slice(), b"30");
}

#[test]
fn initial_solution_lifecycle() {
    let mut m = Model::default();
    let c = m.add_col();
    assert_eq!(m.get_col_initial_solution(c), None);
    m.set_col_initial_solution(c, bits(3.));
    assert_eq!(m.get_col_initial_solution(c), Some(bits(3.)));
    m.remove_initial_solution();
    assert_eq!(m.get_col_initial_solution(c), None);
    // A warm start copied from a solution.
    m.set_col_initial_solution(c, bits(0.));
    let sol = m.solve_with(finished_outcome(1., &[1.], &[], &[0.]));
    m.set_initial_solution(&sol);
    assert_eq!(m.get_col_initial_solution(c), Some(bits(1.)));
    let raw = m.to_raw();
    assert_eq!(
        raw.initial_solution().as_ref().map(|v| v.as_slice()),
        Some([bits(1.)].as_slice())
    );
}

#[test]
fn sos_groups_reach_the_image() {
    let mut m = Model::default();
    let a = m.add_binary();
    let b = m.add_binary();
    let c = m.add_binary();
    m.add_sos1(&[(a, bits(1.)), (b, bits(2.))]);
    m.add_sos1(&[(b, bits(1.)), (c, bits(2.))]);
    m.add_sos2(&[(a, bits(1.)), (b, bits(2.)), (c, bits(3.))]);
    let raw = m.to_raw();
    let groups = raw.sos_groups();
    assert_eq!(groups.len(), 2);
    // The type-1 group aggregates both constraints: one offset per
    // constraint plus the total length.
    assert_eq!(groups[0].row_starts.as_slice(), &[0, 2, 4]);
    assert_eq!(groups[0].col_indices.as_slice(), &[0, 1, 1, 2]);
    assert_eq!(
        groups[0].weights.as_slice(),
        &[bits(1.), bits(2.), bits(1.), bits(2.)]
    );
    assert_eq!(groups[1].row_starts.as_slice(), &[0, 3]);
    assert_eq!(groups[1].col_indices.as_slice(), &[0, 1, 2]);
}

#[test]
fn empty_sos_groups_are_not_handed_over() {
    let mut m = Model::default();
    m.add_col();
    let raw = m.to_raw();
    assert_eq!(raw.sos_groups().len(), 0);
}
