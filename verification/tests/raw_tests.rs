//! Tests of the problem image in native form: loading, the
//! invariant checks, the settings, and reading an outcome back.

use coin_cbc::raw::{Model, SOSConstraintType, SecondaryStatus, SolveOutcome, Status};
use coin_cbc::Sense;

fn bits(x: f64) -> u64 {
    x.to_bits()
}

fn val(b: u64) -> f64 {
    f64::from_bits(b)
}

fn bits_vec(xs: &[f64]) -> Vec<u64> {
    xs.iter().map(|x| bits(*x)).collect()
}

fn knapsack_outcome() -> SolveOutcome {
    SolveOutcome {
        status: Status::Finished,
        secondary_status: SecondaryStatus::HasSolution,
        obj_value: bits(16.),
        best_possible_value: bits(16.),
        iteration_count: 3,
        abandoned: false,
        proven_optimal: true,
        proven_infeasible: false,
        continuous_unbounded: false,
        node_limit_reached: false,
        seconds_limit_reached: false,
        solution_limit_reached: false,
        initial_solve_abandoned: false,
        initial_solve_proven_optimal: true,
        initial_solve_proven_primal_infeasible: false,
        col_solution: bits_vec(&[1., 0., 0., 1., 1.]),
        row_activity: bits_vec(&[9.]),
        reduced_cost: bits_vec(&[0., 0., 0., 0., 0.]),
    }
}

#[test]
fn knapsack() {
    // Simple knapsack problem
    // Maximize  5x[1] + 3x[2] + 2x[3] + 7x[4] + 4x[5]
    // s.t.      2x[1] + 8x[2] + 4x[3] + 2x[4] + 5x[5] <= 10
    // All x binary
    let start = [0, 1, 2, 3, 4, 5];
    let rowindex = [0, 0, 0, 0, 0];
    let value = bits_vec(&[2., 8., 4., 2., 5.]);
    let collb = bits_vec(&[0., 0., 0., 0., 0.]);
    let colub = bits_vec(&[1., 1., 1., 1., 1.]);
    let obj = bits_vec(&[5., 3., 2., 7., 4.]);
    let feasible = bits_vec(&[1., 1., 0., 0., 0.]);
    let rowlb = bits_vec(&[f64::NEG_INFINITY]);
    let rowub = bits_vec(&[10.]);

    let mut model = Model::new();
    model.load_problem(
        5,
        1,
        &start,
        &rowindex,
        &value,
        Some(&collb),
        Some(&colub),
        Some(&obj),
        Some(&rowlb),
        Some(&rowub),
    );
    assert_eq!(5, model.num_cols());
    assert_eq!(1, model.num_rows());
    for i in 0..5 {
        model.set_integer(i);
        assert!(model.is_integer(i));
    }
    model.set_obj_sense(Sense::Maximize);
    assert_eq!(Sense::Maximize, model.obj_sense());
    model.set_initial_solution(&feasible);

    model.apply_solve_outcome(knapsack_outcome());

    assert!(model.is_proven_optimal());
    assert!((val(model.obj_value()) - 16.).abs() < 1e-6);
    assert!((val(model.best_possible_value()) - 16.).abs() < 1e-6);

    let sol = model.col_solution();
    assert!((val(sol[0]) - 1.).abs() < 1e-6);
    assert!((val(sol[1]) - 0.).abs() < 1e-6);
    assert!((val(sol[2]) - 0.).abs() < 1e-6);
    assert!((val(sol[3]) - 1.).abs() < 1e-6);
    assert!((val(sol[4]) - 1.).abs() < 1e-6);
}

#[test]
fn raw_knapsack() {
    let mut m = Model::new();
    let start = [0, 1, 2, 3, 4, 5];
    let rowindex = [0, 0, 0, 0, 0];
    m.load_problem(
        5,
        1,
        &start,
        &rowindex,
        &bits_vec(&[2., 8., 4., 2., 5.]),
        Some(&bits_vec(&[0., 0., 0., 0., 0.])),
        Some(&bits_vec(&[1., 1., 1., 1., 1.])),
        Some(&bits_vec(&[5., 3., 2., 7., 4.])),
        Some(&bits_vec(&[f64::NEG_INFINITY])),
        Some(&bits_vec(&[10.])),
    );
    assert_eq!(5, m.num_cols());
    assert_eq!(1, m.num_rows());
    m.set_obj_sense(Sense::Maximize);
    assert_eq!(Sense::Maximize, m.obj_sense());
    for i in 0..5 {
        m.set_integer(i);
        assert!(m.is_integer(i));
    }
    m.set_initial_solution(&bits_vec(&[1., 1., 0., 0., 0.]));
    m.apply_solve_outcome(knapsack_outcome());
    assert_eq!(Status::Finished, m.status());
    assert!(m.is_proven_optimal());
    assert!(!m.is_abandoned());
    assert!(!m.is_proven_infeasible());
    assert!(!m.is_continuous_unbounded());
    assert!(!m.is_node_limit_reached());
    assert!(!m.is_seconds_limit_reached());
    assert!(!m.is_solution_limit_reached());
    assert!((val(m.obj_value()) - 16.).abs() < 1e-6);
    assert!((val(m.best_possible_value()) - 16.).abs() < 1e-6);
    let sol = m.col_solution();
    assert!((val(sol[0]) - 1.).abs() < 1e-6);
    assert!((val(sol[1]) - 0.).abs() < 1e-6);
    assert!((val(sol[2]) - 0.).abs() < 1e-6);
    assert!((val(sol[3]) - 1.).abs() < 1e-6);
    assert!((val(sol[4]) - 1.).abs() < 1e-6);
}

#[test]
fn big_row() {
    let mut m = Model::new();
    let numcols = 0;
    let numrows = 1_000_000;
    let start = [1];
    let value = [bits(0.)];
    m.load_problem(
        numcols, numrows, &start, &start, &value, None, None, None, None, None,
    );
    m.set_initial_solution(&[]);
    assert_eq!(&value, &[bits(0.)])
}

#[test]
fn sos_one_constraint() {
    let mut m = Model::new();
    // Minimize 5x + 3y with -1 <= x <= 1 and -1 <= y <= 1
    m.load_problem(
        2,
        0,
        &[0, 0, 0],
        &[],
        &[],
        Some(&bits_vec(&[-1., -1.])),
        Some(&bits_vec(&[1., 1.])),
        Some(&bits_vec(&[5., 3.])),
        None,
        None,
    );
    // Add a constraint that either x or y must be 0
    m.add_sos(
        &[0, 2],
        &[0, 1],
        &bits_vec(&[5., 3.]),
        SOSConstraintType::Type1,
    );
    m.set_integer(0);
    m.set_integer(1);
    // The solution is x = -1 and y = 0
    m.apply_solve_outcome(SolveOutcome {
        col_solution: bits_vec(&[-1., 0.]),
        row_activity: bits_vec(&[]),
        reduced_cost: bits_vec(&[0., 0.]),
        obj_value: bits(-5.),
        best_possible_value: bits(-5.),
        ..knapsack_outcome()
    });
    assert_eq!(&bits_vec(&[-1., 0.]), m.col_solution());
}

#[test]
fn sos_multiple_constraints() {
    let mut m = Model::new();
    // Minimize x + 5y + z with -1 <= x <= 1 and -1 <= y <= 1 and -1 <= z <= 1
    m.load_problem(
        3,
        0,
        &[0, 0, 0, 0],
        &[],
        &[],
        Some(&bits_vec(&[-1., -1., -1.])),
        Some(&bits_vec(&[1., 1., 1.])),
        Some(&bits_vec(&[1., 5., 1.])),
        None,
        None,
    );
    // Two constraints: either x or y must be 0, and either y or z
    // must be 0
    m.add_sos(
        &[0, 2, 4],
        &[0, 1, 1, 2],
        &bits_vec(&[1., 5., 5., 1.]),
        SOSConstraintType::Type1,
    );
    m.set_integer(0);
    m.set_integer(1);
    m.set_integer(2);
    m.apply_solve_outcome(SolveOutcome {
        col_solution: bits_vec(&[0., -1., 0.]),
        row_activity: bits_vec(&[]),
        reduced_cost: bits_vec(&[0., 0., 0.]),
        obj_value: bits(-5.),
        best_possible_value: bits(-5.),
        ..knapsack_outcome()
    });
    assert_eq!(&bits_vec(&[0., -1., 0.]), m.col_solution());
}

#[test]
fn fresh_model_is_unlaunched() {
    let m = Model::new();
    assert_eq!(m.status(), Status::Unlaunched);
    assert_eq!(m.secondary_status(), SecondaryStatus::Unlaunched);
    assert_eq!(m.num_cols(), 0);
    assert_eq!(m.num_rows(), 0);
    assert_eq!(m.num_elements(), 0);
    assert!(!m.is_proven_optimal());
    assert_eq!(m.obj_sense(), Sense::Ignore);
}

#[test]
fn load_problem_defaults_for_absent_arrays() {
    let mut m = Model::new();
    m.load_problem(2, 1, &[0, 0, 0], &[], &[], None, None, None, None, None);
    assert_eq!(m.col_lower().as_slice(), &[bits(0.), bits(0.)]);
    assert_eq!(
        m.col_upper().as_slice(),
        &[bits(f64::INFINITY), bits(f64::INFINITY)]
    );
    assert_eq!(m.obj_coefficients().as_slice(), &[bits(0.), bits(0.)]);
    assert_eq!(m.row_lower().as_slice(), &[bits(f64::NEG_INFINITY)]);
    assert_eq!(m.row_upper().as_slice(), &[bits(f64::INFINITY)]);
}

#[test]
fn setters_reach_the_arrays() {
    let mut m = Model::new();
    m.load_problem(1, 1, &[0, 0], &[], &[], None, None, None, None, None);
    m.set_col_lower(0, bits(-3.));
    m.set_col_upper(0, bits(3.));
    m.set_obj_coeff(0, bits(1.5));
    m.set_row_lower(0, bits(-7.));
    m.set_row_upper(0, bits(7.));
    assert_eq!(m.col_lower().as_slice(), &[bits(-3.)]);
    assert_eq!(m.col_upper().as_slice(), &[bits(3.)]);
    assert_eq!(m.obj_coefficients().as_slice(), &[bits(1.5)]);
    assert_eq!(m.row_lower().as_slice(), &[bits(-7.)]);
    assert_eq!(m.row_upper().as_slice(), &[bits(7.)]);
    m.set_continuous(0);
    assert!(!m.is_integer(0));
}

#[test]
fn parameters_on_the_image() {
    let mut m = Model::new();
    m.set_parameter(b"log", b"0");
    m.set_parameter(b"log", b"1");
    m.set_parameter(b"seconds", b"10");
    let params = m.parameters();
    assert_eq!(params.len(), 2);
    assert_eq!(params[0].0.as_slice(), b"log");
    assert_eq!(params[0].1.as_slice(), b"1");
    assert_eq!(params[1].0.as_slice(), b"seconds");
}

#[test]
fn status_codes_round_trip() {
    let statuses = [
        (Status::Unlaunched, -1),
        (Status::Finished, 0),
        (Status::Stopped, 1),
        (Status::Abandoned, 2),
        (Status::UserEvent, 5),
    ];
    for (s, code) in statuses {
        assert_eq!(s.to_code(), code);
        assert_eq!(Status::from_code(code), Some(s));
    }
    assert_eq!(Status::from_code(3), None);
    assert_eq!(Status::from_code(4), None);
    let secondary = [
        (SecondaryStatus::Unlaunched, -1),
        (SecondaryStatus::HasSolution, 0),
        (SecondaryStatus::LinearRelaxationInfeasible, 1),
        (SecondaryStatus::StoppedOnGap, 2),
        (SecondaryStatus::StoppedOnNodes, 3),
        (SecondaryStatus::StoppedOnTime, 4),
        (SecondaryStatus::StoppedOnUserEvent, 5),
        (SecondaryStatus::StoppedOnSolutions, 6),
        (SecondaryStatus::LinearRelaxationUnbounded, 7),
        (SecondaryStatus::StoppedOnIterationLimit, 8),
    ];
    for (s, code) in secondary {
        assert_eq!(s.to_code(), code);
        assert_eq!(SecondaryStatus::from_code(code), Some(s));
    }
    assert_eq!(SecondaryStatus::from_code(9), None);
    assert_eq!(SOSConstraintType::Type1.to_code(), 1);
    assert_eq!(SOSConstraintType::Type2.to_code(), 2);
}

#[test]
fn validity_check_matches_load_contract() {
    // The knapsack arrays are valid.
    assert!(Model::is_valid_problem(
        5,
        1,
        &[0, 1, 2, 3, 4, 5],
        &[0, 0, 0, 0, 0],
        &bits_vec(&[2., 8., 4., 2., 5.]),
    ));
    // A decreasing offset array is not.
    assert!(!Model::is_valid_problem(
        2,
        1,
        &[0, 2, 1],
        &[0],
        &bits_vec(&[1.]),
    ));
    // An offset array of the wrong length is not.
    assert!(!Model::is_valid_problem(
        2,
        1,
        &[0, 0],
        &[],
        &[],
    ));
    // A row index out of range is not.
    assert!(!Model::is_valid_problem(
        1,
        1,
        &[0, 1],
        &[1],
        &bits_vec(&[1.]),
    ));
    // Decreasing indices inside one column are not.
    assert!(!Model::is_valid_problem(
        1,
        3,
        &[0, 2],
        &[2, 0],
        &bits_vec(&[1., 1.]),
    ));
    // A value array of the wrong length is not.
    assert!(!Model::is_valid_problem(1, 1, &[0, 1], &[0], &[]));
}
