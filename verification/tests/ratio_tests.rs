use simplex::Ratio;

fn rq(num: i64, den: i64) -> Ratio {
    Ratio::new(num, den).unwrap()
}

#[test]
fn new_reduces_to_lowest_terms() {
    assert_eq!(rq(157, 50), Ratio { num: 157, den: 50 });
    assert_eq!(rq(4, 8), Ratio { num: 1, den: 2 });
    assert_eq!(rq(0, 7), Ratio { num: 0, den: 1 });
    assert_eq!(rq(1, -2), Ratio { num: -1, den: 2 });
    assert_eq!(Ratio::new(3, 0), None);
}

#[test]
fn arithmetic_is_exact() {
    let half = rq(1, 2);
    let third = rq(1, 3);
    assert_eq!(half.add(third), Some(rq(5, 6)));
    assert_eq!(half.sub(third), Some(rq(1, 6)));
    assert_eq!(half.mul(third), Some(rq(1, 6)));
    assert_eq!(half.div(third), Some(rq(3, 2)));
    assert_eq!(rq(-7, 4).neg(), Some(rq(7, 4)));
    // Results come out reduced even when the inputs interact.
    assert_eq!(rq(1, 6).add(rq(1, 3)), Some(rq(1, 2)));
}

#[test]
fn arithmetic_reports_overflow() {
    let big = Ratio::from_int(i64::MAX);
    assert_eq!(big.add(Ratio::from_int(1)), None);
    assert_eq!(Ratio::from_int(i64::MIN).neg(), None);
    // A representable result is still found after reduction.
    assert_eq!(big.sub(big), Some(Ratio { num: 0, den: 1 }));
}

#[test]
fn comparisons_follow_values() {
    assert!(rq(1, 3).lt(rq(1, 2)));
    assert!(rq(2, 4).le(rq(1, 2)));
    assert!(rq(2, 4).eq_val(rq(1, 2)));
    assert!(rq(-1, 2).is_neg());
    assert!(!rq(-1, 2).is_nonneg());
    assert!(rq(1, 2).is_pos());
}
