use simplex::components::polynomial::Polynomial;
use simplex::components::term::Term;
use simplex::components::variable::{new_slack, slack};
use simplex::problem::condition::{equation, inequality, Condition as ExprCondition, Sign as IneqSign};
use simplex::problem::{Condition, Direction, Problem, Sign};
use simplex::{var, Error, Matrix, Ratio, Variable};

fn ri(i: i64) -> Ratio {
    Ratio::from_int(i)
}

fn objective(terms: &[(i64, &str)]) -> Polynomial {
    let mut p = Polynomial::new();
    for (c, name) in terms {
        p = p.plus(Term { coefficient: ri(*c), variable: var(name) });
    }
    p
}

fn mat(rows: &[&[i64]]) -> Matrix<Ratio> {
    Matrix::try_from(rows.iter().map(|r| r.iter().map(|c| ri(*c)).collect()).collect()).unwrap()
}

#[test]
fn test_into_standard_form() {
    let problem = Problem::maximize(
        objective(&[(4, "x1"), (5, "x2")]),
        Condition::each_le(
            mat(&[&[2, 5], &[6, 4], &[3, 2]]),
            vec![var("x1"), var("x2")],
            vec![ri(20), ri(27), ri(12)],
        )
        .unwrap(),
    );
    assert_eq!(
        problem.into_standard_form().unwrap(),
        Problem {
            direction: Direction::Max,
            objective_function: objective(&[(4, "x1"), (5, "x2")]),
            condition: Condition {
                a: mat(&[
                    &[2, 5, 1, 0, 0],
                    &[6, 4, 0, 1, 0],
                    &[3, 2, 0, 0, 1],
                ]),
                x: vec![var("x1"), var("x2"), slack(1), slack(2), slack(3)],
                sign: Sign::EQ,
                b: vec![ri(20), ri(27), ri(12)],
            },
        }
    );
}

#[test]
fn standardizing_a_standard_problem_changes_nothing() {
    let standard = Problem {
        direction: Direction::Max,
        objective_function: objective(&[(1, "x1")]),
        condition: Condition {
            a: mat(&[&[1, 1]]),
            x: vec![var("x1"), slack(1)],
            sign: Sign::EQ,
            b: vec![ri(5)],
        },
    };
    let again = standard.clone().into_standard_form().unwrap();
    assert_eq!(again, standard);
    // And standardizing once more is still the identity.
    assert_eq!(again.clone().into_standard_form().unwrap(), again);
}

#[test]
fn minimize_negates_the_objective() {
    let problem = Problem::minimize(
        objective(&[(-4, "x1")]),
        Condition::each_le(mat(&[&[2]]), vec![var("x1")], vec![ri(10)]).unwrap(),
    );
    let std = problem.into_standard_form().unwrap();
    assert_eq!(std.direction, Direction::Max);
    assert_eq!(std.objective_function, objective(&[(4, "x1")]));
    assert_eq!(std.condition.sign, Sign::EQ);
}

#[test]
fn each_le_validates_its_input() {
    // Mismatched dimensions.
    assert_eq!(
        Condition::each_le(mat(&[&[1, 2]]), vec![var("x1")], vec![ri(1)]).err(),
        Some(Error::ShapeError)
    );
    assert_eq!(
        Condition::each_le(mat(&[&[1]]), vec![var("x1")], vec![ri(1), ri(2)]).err(),
        Some(Error::ShapeError)
    );
    // A repeated variable.
    assert_eq!(
        Condition::each_le(mat(&[&[1, 2]]), vec![var("x1"), var("x1")], vec![ri(1)]).err(),
        Some(Error::ShapeError)
    );
    // A non-decision variable.
    assert_eq!(
        Condition::each_le(mat(&[&[1]]), vec![slack(1)], vec![ri(1)]).err(),
        Some(Error::ShapeError)
    );
}

#[test]
fn into_standarized_passes_equations_through() {
    let e = equation(vec![(ri(2), var("x"))], ri(7));
    let (c, s) = ExprCondition::Equation(e).into_standarized(0);
    assert!(s.is_none());
    match c {
        ExprCondition::Equation(e2) => {
            assert_eq!(e2.left.terms, vec![(ri(2), var("x"))]);
            assert_eq!(e2.right, ri(7));
        },
        ExprCondition::Inequality(_) => panic!("an equation must stay an equation"),
    }
}

#[test]
fn into_standarized_appends_one_slack_for_le() {
    let i = inequality(vec![(ri(3), var("x"))], IneqSign::LE, ri(9));
    let (c, s) = ExprCondition::Inequality(i).into_standarized(4);
    assert_eq!(s, Some(Variable::Slack { id: 5 }));
    match c {
        ExprCondition::Equation(e) => {
            assert_eq!(e.left.terms, vec![(ri(3), var("x")), (ri(1), slack(5))]);
            assert_eq!(e.right, ri(9));
        },
        ExprCondition::Inequality(_) => panic!("a <= condition must become an equation"),
    }
}

#[test]
fn into_standarized_subtracts_a_surplus_for_ge() {
    let i = inequality(vec![(ri(3), var("x"))], IneqSign::GE, ri(9));
    let (c, s) = ExprCondition::Inequality(i).into_standarized(0);
    assert_eq!(s, Some(new_slack(0)));
    match c {
        ExprCondition::Equation(e) => {
            assert_eq!(e.left.terms, vec![(ri(3), var("x")), (ri(-1), slack(1))]);
            assert_eq!(e.right, ri(9));
        },
        ExprCondition::Inequality(_) => panic!("a >= condition must become an equation"),
    }
}

#[test]
fn variables_are_stable_and_distinct() {
    assert_eq!(var("x1"), var("x1"));
    assert_ne!(var("x1"), var("x2"));
    assert_ne!(slack(1), slack(2));
    assert_ne!(var("x1"), Variable::Object);
    assert!(var("x1").is_normal());
    assert!(!var("x1").is_slack());
    assert!(slack(1).is_slack());
    let left = ExprCondition::Equation(equation(vec![(ri(1), var("y"))], ri(0)));
    assert_eq!(left.left().terms, vec![(ri(1), var("y"))]);
    assert_eq!(*left.right(), ri(0));
}
