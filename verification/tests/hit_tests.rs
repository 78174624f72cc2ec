use rt::hit::{any_hit_nearer, choose_closer, less_or_equal, less_than, nearest_hit};

fn b(x: f64) -> u64 {
    x.to_bits()
}

const SAMPLES: [f64; 12] = [
    f64::NEG_INFINITY, -3.0, -1e-310, -0.0, 0.0, 1e-310, 0.5, 1.0, 7.25, f64::INFINITY, f64::NAN, 2.0,
];

#[test]
fn less_than_agrees_with_f64_comparison() {
    for x in SAMPLES {
        for y in SAMPLES {
            assert_eq!(less_than(b(x), b(y)), x < y, "{} < {}", x, y);
            assert_eq!(less_or_equal(b(x), b(y)), x <= y, "{} <= {}", x, y);
        }
    }
    assert!(!less_than(b(-0.0), b(0.0)));
    assert!(less_or_equal(b(0.0), b(-0.0)));
    assert!(!less_than(b(f64::NAN), b(1.0)));
    assert!(!less_or_equal(b(-f64::NAN), b(1.0)));
}

#[test]
fn the_nearest_hit_is_found() {
    let hits = vec![None, Some(b(4.0)), Some(b(2.0)), None, Some(b(3.0))];
    assert_eq!(nearest_hit(&hits), Some(2));
}

#[test]
fn no_hit_means_no_object() {
    assert_eq!(nearest_hit(&vec![]), None);
    assert_eq!(nearest_hit(&vec![None, None]), None);
}

#[test]
fn the_first_of_equal_hits_is_kept() {
    let hits = vec![Some(b(1.0)), Some(b(1.0)), Some(b(3.0))];
    assert_eq!(nearest_hit(&hits), Some(0));
    let hits = vec![Some(b(0.0)), Some(b(-0.0))];
    assert_eq!(nearest_hit(&hits), Some(0));
}

#[test]
fn a_nan_hit_found_first_is_kept() {
    let hits = vec![Some(b(f64::NAN)), Some(b(1.0))];
    assert_eq!(nearest_hit(&hits), Some(0));
    let hits = vec![Some(b(1.0)), Some(b(f64::NAN))];
    assert_eq!(nearest_hit(&hits), Some(0));
}

#[test]
fn shadow_test_looks_for_a_nearer_hit() {
    let hits = vec![None, Some(b(9.0)), Some(b(4.0))];
    assert!(any_hit_nearer(&hits, b(5.0)));
    assert!(!any_hit_nearer(&hits, b(4.0)));
    assert!(!any_hit_nearer(&vec![None], b(5.0)));
    assert!(!any_hit_nearer(&vec![Some(b(f64::NAN))], b(5.0)));
}

#[test]
fn choose_closer_keeps_the_nearer_hit() {
    assert_eq!(choose_closer(None, (b(2.0), 'a')), Some((b(2.0), 'a')));
    assert_eq!(choose_closer(Some((b(1.0), 'a')), (b(2.0), 'b')), Some((b(1.0), 'a')));
    assert_eq!(choose_closer(Some((b(3.0), 'a')), (b(2.0), 'b')), Some((b(2.0), 'b')));
    assert_eq!(choose_closer(Some((b(2.0), 'a')), (b(2.0), 'b')), Some((b(2.0), 'a')));
    assert_eq!(choose_closer(Some((b(f64::NAN), 'a')), (b(2.0), 'b')), Some((b(2.0), 'b')));
}
