use simplex::components::ratio::Ratio;
use simplex::{Error, Matrix};

fn ri(i: i64) -> Ratio {
    Ratio::from_int(i)
}

fn rq(num: i64, den: i64) -> Ratio {
    Ratio::new(num, den).unwrap()
}

#[test]
fn test_matrix_macro() {
    let m = Matrix::try_from(vec![vec![ri(1), ri(2)]]).unwrap();
    assert_eq!(m.row_size, 2);
    assert_eq!(m.column_size, 1);

    let m = Matrix::try_from(vec![
        vec![ri(42), rq(157, 50), ri(1)],
        vec![rq(26, 5), ri(777), rq(46, 5)],
    ])
    .unwrap();
    assert_eq!(m.row_size, 3);
    assert_eq!(m.column_size, 2);

    let m = Matrix::try_from(vec![
        vec![ri(1), ri(2), ri(3), ri(4)],
        vec![ri(5), ri(6), ri(7), ri(8)],
        vec![ri(9), ri(10), ri(11), ri(12)],
    ])
    .unwrap();
    assert_eq!(m.row_size, 4);
    assert_eq!(m.column_size, 3);
}

#[test]
fn try_from_round_trips_rectangular_input() {
    let rows = vec![
        vec![ri(1), ri(2), ri(3)],
        vec![ri(4), ri(5), ri(6)],
    ];
    let m = Matrix::try_from(rows.clone()).unwrap();
    assert_eq!(m.row_size, 3);
    assert_eq!(m.column_size, 2);
    assert_eq!(m.rows, rows);
    assert_eq!(m.rows[1][2], ri(6));
}

#[test]
fn try_from_rejects_empty_input() {
    let r = Matrix::<Ratio>::try_from(vec![]);
    assert_eq!(r, Err(Error::ShapeError));
}

#[test]
fn try_from_rejects_ragged_rows() {
    let r = Matrix::try_from(vec![vec![ri(1), ri(2)], vec![ri(3)]]);
    assert_eq!(r, Err(Error::ShapeError));
}

#[test]
fn try_concat_needs_matching_column_size() {
    let a = Matrix::try_from(vec![vec![ri(1)], vec![ri(2)]]).unwrap();
    let b = Matrix::try_from(vec![vec![ri(3)]]).unwrap();
    assert_eq!(a.try_concat(b), Err(Error::ShapeError));
}

#[test]
fn try_concat_joins_rows_pairwise() {
    let a = Matrix::try_from(vec![vec![ri(1), ri(2)], vec![ri(3), ri(4)]]).unwrap();
    let b = Matrix::try_from(vec![vec![ri(5)], vec![ri(6)]]).unwrap();
    let m = a.try_concat(b).unwrap();
    assert_eq!(m.row_size, 3);
    assert_eq!(m.column_size, 2);
    assert_eq!(m.rows, vec![vec![ri(1), ri(2), ri(5)], vec![ri(3), ri(4), ri(6)]]);
}

#[test]
fn push_row_validates_width() {
    let mut m = Matrix::try_from(vec![vec![ri(1), ri(2)]]).unwrap();
    assert_eq!(m.push_row(vec![ri(9)]), Err(Error::ShapeError));
    assert_eq!(m.column_size, 1);
    assert_eq!(m.push_row(vec![ri(9), ri(8)]), Ok(()));
    assert_eq!(m.column_size, 2);
    assert_eq!(m.rows[1], vec![ri(9), ri(8)]);
}

#[test]
fn with_capacity_starts_empty() {
    let m = Matrix::<Ratio>::with_capacity(4, 3);
    assert_eq!(m.row_size, 4);
    assert_eq!(m.column_size, 0);
    assert!(m.rows.is_empty());
}

#[test]
fn column_iter_copies_one_column() {
    let m = Matrix::try_from(vec![vec![ri(1), ri(2)], vec![ri(3), ri(4)]]).unwrap();
    assert_eq!(m.column_iter(1).unwrap(), vec![ri(2), ri(4)]);
    assert_eq!(m.column_iter(2), Err(Error::ShapeError));
}

#[test]
fn zeroed_and_identity_have_expected_entries() {
    let z = Matrix::zeroed(3, 2);
    assert_eq!(z.row_size, 3);
    assert_eq!(z.column_size, 2);
    assert_eq!(z.rows, vec![vec![ri(0), ri(0), ri(0)], vec![ri(0), ri(0), ri(0)]]);
    let e = Matrix::identity(2);
    assert_eq!(e.rows, vec![vec![ri(1), ri(0)], vec![ri(0), ri(1)]]);
}
