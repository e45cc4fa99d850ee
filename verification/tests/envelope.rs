use music_sync::envelope::{share_after, FixedDecay, Share};

fn value(strength: f64, share: Share) -> f64 {
    strength * share.num as f64 / share.den as f64
}

#[test]
fn envelope_falls_linearly() {
    assert_eq!(value(1.0, share_after(0, 100)), 1.0);
    assert_eq!(value(1.0, share_after(25, 100)), 0.75);
    assert_eq!(value(1.0, share_after(50, 100)), 0.5);
    assert_eq!(value(1.0, share_after(75, 100)), 0.25);
    assert_eq!(value(1.0, share_after(100, 100)), 0.0);
    assert_eq!(value(1.0, share_after(5000, 100)), 0.0);
}

#[test]
fn shares_are_exact_fractions() {
    assert_eq!(share_after(30, 80), Share { num: 50, den: 80 });
    assert_eq!(share_after(80, 80), Share { num: 0, den: 1 });
    assert_eq!(share_after(0, 0), Share { num: 0, den: 1 });
    assert_eq!(share_after(u128::MAX, u128::MAX - 1), Share { num: 0, den: 1 });
    assert_eq!(share_after(0, u128::MAX), Share { num: u128::MAX, den: u128::MAX });
}

#[test]
fn envelope_never_grows_between_triggers() {
    for length in [1u128, 7, 100, 250] {
        let mut last = f64::INFINITY;
        for elapsed in 0..300u128 {
            let now = value(0.8, share_after(elapsed, length));
            assert!(now >= 0.0);
            assert!(now <= last);
            last = now;
        }
    }
}

#[test]
fn triggered_envelope_reads_the_clock() {
    let mut envelope: FixedDecay<f32> = FixedDecay::init(60_000, 0.0);
    assert_eq!(envelope.strength(), 0.0);
    assert_eq!(envelope.length(), 60_000);
    envelope.trigger(0.5);
    assert_eq!(envelope.strength(), 0.5);
    let first = envelope.get_value();
    assert_eq!(first.den, 60_000);
    assert!(first.num <= first.den);
    assert!(first.num > 30_000);
    let second = envelope.get_value();
    assert!(second.num <= first.num);
}

#[test]
fn envelope_without_length_has_nothing_left() {
    let envelope: FixedDecay<f32> = FixedDecay::init(0, 1.0);
    assert_eq!(envelope.get_value(), Share { num: 0, den: 1 });
}

#[test]
fn envelope_value_for_a_given_time() {
    let mut envelope: FixedDecay<f32> = FixedDecay::init(100, 0.0);
    envelope.trigger(1.0);
    assert_eq!(envelope.value_at(0), Share { num: 100, den: 100 });
    assert_eq!(envelope.value_at(25), Share { num: 75, den: 100 });
    assert_eq!(envelope.value_at(50), Share { num: 50, den: 100 });
    assert_eq!(envelope.value_at(75), Share { num: 25, den: 100 });
    assert_eq!(envelope.value_at(97), Share { num: 3, den: 100 });
    assert_eq!(envelope.value_at(100), Share { num: 0, den: 1 });
    assert_eq!(envelope.value_at(1000), Share { num: 0, den: 1 });
}
