use lob_labeler::event_time::{due_key, time_key};

fn reached(due: f64, time: f64) -> bool {
    due_key(due.to_bits()) <= time_key(time.to_bits())
}

#[test]
fn keys_follow_float_order() {
    let vals = [
        f64::NEG_INFINITY,
        -1e300,
        -2.5,
        -1.0,
        -1e-300,
        -0.0,
        0.0,
        1e-300,
        1.0,
        2.5,
        1.7e12,
        f64::INFINITY,
    ];
    for &x in &vals {
        for &y in &vals {
            assert_eq!(reached(x, y), x <= y, "{} <= {}", x, y);
            assert_eq!(time_key(x.to_bits()) < time_key(y.to_bits()), x < y);
        }
    }
}

#[test]
fn zeros_share_a_key() {
    assert_eq!(time_key((-0.0f64).to_bits()), time_key(0.0f64.to_bits()));
    assert_eq!(due_key((-0.0f64).to_bits()), due_key(0.0f64.to_bits()));
    assert_eq!(time_key(0.0f64.to_bits()), 0x8000_0000_0000_0000);
}

#[test]
fn exact_keys() {
    assert_eq!(time_key(1.0f64.to_bits()), 0x3FF0_0000_0000_0000 + 0x8000_0000_0000_0000);
    assert_eq!(time_key((-1.0f64).to_bits()), u64::MAX - 0xBFF0_0000_0000_0000);
}

#[test]
fn nan_is_never_reached_and_reaches_nothing() {
    let nans = [f64::NAN, -f64::NAN];
    for &n in &nans {
        assert_eq!(time_key(n.to_bits()), 0);
        assert_eq!(due_key(n.to_bits()), u64::MAX);
        for &x in &[f64::NEG_INFINITY, -1.0, 0.0, 5.0, f64::INFINITY] {
            assert!(!reached(n, x));
            assert!(!reached(x, n));
        }
        assert!(!reached(n, n));
    }
}
