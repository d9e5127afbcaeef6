use simplex::components::polynomial::Polynomial;
use simplex::components::term::Term;
use simplex::components::variable::slack;
use simplex::problem::{Condition, Direction, Problem, Sign};
use simplex::table::{BaseVariable, Pivot, Table};
use simplex::{var, Error, Matrix, Ratio, Solution, Variable};

fn ri(i: i64) -> Ratio {
    Ratio::from_int(i)
}

fn rq(num: i64, den: i64) -> Ratio {
    Ratio::new(num, den).unwrap()
}

fn objective(terms: &[(i64, &str)]) -> Polynomial {
    let mut p = Polynomial::new();
    for (c, name) in terms {
        p = p.plus(Term { coefficient: ri(*c), variable: var(name) });
    }
    p
}

fn mat(rows: &[&[i64]]) -> Matrix<Ratio> {
    Matrix::try_from(rows.iter().map(|r| r.iter().map(|c| ri(*c)).collect()).collect()).unwrap()
}

#[test]
fn test_simplex_method() {
    let problem = Problem::maximize(
        objective(&[(4, "x1"), (5, "x2")]),
        Condition::each_le(
            mat(&[&[2, 5], &[6, 4], &[3, 1]]),
            vec![var("x1"), var("x2")],
            vec![ri(20), ri(27), ri(12)],
        )
        .unwrap(),
    )
    .into_standard_form()
    .unwrap();
    assert_eq!(
        problem,
        Problem {
            direction: Direction::Max,
            objective_function: objective(&[(4, "x1"), (5, "x2")]),
            condition: Condition {
                a: mat(&[
                    &[2, 5, 1, 0, 0],
                    &[6, 4, 0, 1, 0],
                    &[3, 1, 0, 0, 1],
                ]),
                x: vec![var("x1"), var("x2"), slack(1), slack(2), slack(3)],
                sign: Sign::EQ,
                b: vec![ri(20), ri(27), ri(12)],
            },
        }
    );

    let table = Table::from_problem(problem.into_standard_form().unwrap()).unwrap();

    assert_eq!(
        table,
        Table {
            variables: vec![var("x1"), var("x2"), slack(1), slack(2), slack(3)],
            bases: vec![
                BaseVariable { variable: slack(1), value: ri(20) },
                BaseVariable { variable: slack(2), value: ri(27) },
                BaseVariable { variable: slack(3), value: ri(12) },
                BaseVariable { variable: Variable::Object, value: ri(0) },
            ],
            coefficients: mat(&[
                &[2, 5, 1, 0, 0],
                &[6, 4, 0, 1, 0],
                &[3, 1, 0, 0, 1],
                &[-4, -5, 0, 0, 0],
            ]),
        }
    );
    assert_eq!(table.is_optimal(), false);
    assert_eq!(table.pivot().unwrap(), Pivot { row: 0, column: 1, value: ri(5) });

    assert_eq!(
        table.solve().unwrap(),
        Solution {
            variables: vec![(var("x1"), rq(5, 2)), (var("x2"), ri(3))],
            optimal_value: ri(25),
        }
    );
}

#[test]
fn test_various_problems() {
    assert_eq!(
        Problem::maximize(
            objective(&[(4, "x1"), (5, "x2")]),
            Condition::each_le(
                mat(&[&[2, 5], &[6, 4], &[3, 1]]),
                vec![var("x1"), var("x2")],
                vec![ri(20), ri(27), ri(12)],
            )
            .unwrap(),
        )
        .solve()
        .unwrap(),
        Solution {
            variables: vec![(var("x1"), rq(5, 2)), (var("x2"), ri(3))],
            optimal_value: ri(25),
        }
    );

    assert_eq!(
        Problem::maximize(
            objective(&[(20, "x1"), (30, "x2")]),
            Condition::each_le(
                mat(&[&[1, 2], &[3, 4], &[3, 1]]),
                vec![var("x1"), var("x2")],
                vec![ri(800), ri(1800), ri(1500)],
            )
            .unwrap(),
        )
        .solve()
        .unwrap(),
        Solution {
            variables: vec![(var("x1"), ri(200)), (var("x2"), ri(300))],
            optimal_value: ri(13000),
        }
    );
}

#[test]
fn an_unbounded_problem_reports_unbounded() {
    // Maximize x1 with only -x1 <= 1: x1 can grow without bound.
    let r = Problem::maximize(
        objective(&[(1, "x1")]),
        Condition::each_le(mat(&[&[-1]]), vec![var("x1")], vec![ri(1)]).unwrap(),
    )
    .solve();
    assert_eq!(r, Err(Error::Unbounded));
}

#[test]
fn non_basic_decision_variables_are_reported_as_zero() {
    // Maximize x1 under x1 + x2 <= 1: x2 stays non-basic, value zero.
    let s = Problem::maximize(
        objective(&[(1, "x1")]),
        Condition::each_le(mat(&[&[1, 1]]), vec![var("x1"), var("x2")], vec![ri(1)]).unwrap(),
    )
    .solve()
    .unwrap();
    assert_eq!(
        s,
        Solution {
            variables: vec![(var("x1"), ri(1)), (var("x2"), ri(0))],
            optimal_value: ri(1),
        }
    );
}

#[test]
fn minimization_reports_the_unnegated_optimum() {
    // Minimize -4x1 - 5x2 under the constraints of the first example: the
    // internal maximization finds 25, reported back as -25.
    let s = Problem::minimize(
        objective(&[(-4, "x1"), (-5, "x2")]),
        Condition::each_le(
            mat(&[&[2, 5], &[6, 4], &[3, 1]]),
            vec![var("x1"), var("x2")],
            vec![ri(20), ri(27), ri(12)],
        )
        .unwrap(),
    )
    .solve()
    .unwrap();
    assert_eq!(s.optimal_value, ri(-25));
    assert_eq!(s.variables, vec![(var("x1"), rq(5, 2)), (var("x2"), ri(3))]);
}

#[test]
fn repeated_solves_agree() {
    let build = || {
        Problem::maximize(
            objective(&[(4, "x1"), (5, "x2")]),
            Condition::each_le(
                mat(&[&[2, 5], &[6, 4], &[3, 1]]),
                vec![var("x1"), var("x2")],
                vec![ri(20), ri(27), ri(12)],
            )
            .unwrap(),
        )
    };
    let first = build().solve().unwrap();
    let second = build().solve().unwrap();
    assert_eq!(first, second);
    // The first pivot of a fixed tableau is unique as well.
    let t1 = Table::from_problem(build().into_standard_form().unwrap()).unwrap();
    let t2 = Table::from_problem(build().into_standard_form().unwrap()).unwrap();
    assert_eq!(t1.pivot().unwrap(), t2.pivot().unwrap());
}

#[test]
fn a_cycling_problem_hits_the_iteration_limit() {
    // Beale's classic degenerate example cycles under Dantzig's rule with
    // first-index tie-breaking, so the iteration cap must fire.
    let mut p = Polynomial::new();
    p = p.plus(Term { coefficient: rq(3, 4), variable: var("x1") });
    p = p.plus(Term { coefficient: ri(-150), variable: var("x2") });
    p = p.plus(Term { coefficient: rq(1, 50), variable: var("x3") });
    p = p.plus(Term { coefficient: ri(-6), variable: var("x4") });
    let a = Matrix::try_from(vec![
        vec![rq(1, 4), ri(-60), rq(-1, 25), ri(9)],
        vec![rq(1, 2), ri(-90), rq(-1, 50), ri(3)],
        vec![ri(0), ri(0), ri(1), ri(0)],
    ])
    .unwrap();
    let r = Problem::maximize(
        p,
        Condition::each_le(
            a,
            vec![var("x1"), var("x2"), var("x3"), var("x4")],
            vec![ri(0), ri(0), ri(1)],
        )
        .unwrap(),
    )
    .solve();
    assert_eq!(r, Err(Error::IterationLimitExceeded));
}

#[test]
fn tableau_accessors_expose_the_objective_row() {
    let t = Table::from_problem(
        Problem::maximize(
            objective(&[(1, "x1")]),
            Condition::each_le(mat(&[&[1]]), vec![var("x1")], vec![ri(4)]).unwrap(),
        )
        .into_standard_form()
        .unwrap(),
    )
    .unwrap();
    assert_eq!(t.object_value(), ri(0));
    assert_eq!(t.criterions(), &vec![ri(-1), ri(0)]);
    assert!(!t.is_optimal());
}
