use codex_quota::binary64::{Binary64, HALF, HUNDRED, NORMAL, ONE, SIGN, TRILLION};
use codex_quota::storage::{FIFTH, TENTH};
use codex_quota::window::OPAQUE;

fn samples() -> Vec<f64> {
    let mut list = vec![
        0.0,
        -0.0,
        0.1,
        0.2,
        0.25,
        0.5,
        0.5000000001,
        0.75,
        0.999,
        1.0,
        1.5,
        2.5,
        3.5,
        33.3,
        33.333333333333336,
        49.5,
        50.5,
        62.5,
        63.0,
        99.4999999999999,
        99.5,
        99.99999999999999,
        100.0,
        100.00000000000001,
        140.0,
        -20.0,
        -0.4,
        -0.5,
        -1.5,
        -140.7,
        1e-300,
        5e-324,
        2.2250738585072014e-308,
        1.7976931348623157e308,
        -1.7976931348623157e308,
        1e12,
        999999999999.0,
        999999999999.9999,
        1000000000000.1,
        1788000000.0,
        1788000000.25,
        1788000000.0004,
        1788000000123.75,
        4503599627370496.5,
        9007199254740993.0,
        9223372036854774784.0,
        9223372036854775808.0,
        18446744073709549568.0,
        18446744073709551616.0,
        1e20,
        1e25,
        1.2345678901234567e30,
        f64::INFINITY,
        f64::NEG_INFINITY,
        f64::NAN,
    ];
    // A fixed sequence of bit patterns over the whole range.
    let mut state: u64 = 0x1234_5678_9abc_def1;
    for _ in 0..400 {
        state = state.wrapping_mul(6364136223846793005).wrapping_add(1442695040888963407);
        list.push(f64::from_bits(state));
        // The same fraction near the numbers that matter in practice.
        list.push(f64::from_bits((state >> 12) | ((1023 + state % 45) << 52)));
        list.push(f64::from_bits((state >> 12) | ((1000 + state % 30) << 52)));
    }
    list
}

fn held(value: f64) -> Binary64 {
    Binary64 { bits: value.to_bits() }
}

#[test]
fn constants_are_the_numbers_they_name() {
    assert_eq!(HALF, 0.5f64.to_bits());
    assert_eq!(ONE, 1.0f64.to_bits());
    assert_eq!(HUNDRED, 100.0f64.to_bits());
    assert_eq!(TRILLION, 1e12f64.to_bits());
    assert_eq!(TENTH, 0.1f64.to_bits());
    assert_eq!(FIFTH, 0.2f64.to_bits());
    assert_eq!(OPAQUE, 0.999f64.to_bits());
    assert_eq!(SIGN, (-0.0f64).to_bits());
    assert_eq!(NORMAL, f64::MIN_POSITIVE.to_bits());
}

#[test]
fn kinds_and_order_agree_with_the_machine() {
    let list = samples();
    for a in &list {
        assert_eq!(held(*a).is_nan(), a.is_nan());
        assert_eq!(held(*a).is_finite(), a.is_finite());
        for b in &list {
            assert_eq!(held(*a).is_below(held(*b)), a < b, "{a} {b}");
            assert_eq!(held(*a).is_same(held(*b)), a == b, "{a} {b}");
        }
    }
}

#[test]
fn clamping_agrees_with_the_machine() {
    for value in samples() {
        let clamped = held(value).clamp(held(0.5), held(1.0));
        assert_eq!(clamped.bits, value.clamp(0.5, 1.0).to_bits(), "{value}");
    }
}

#[test]
fn remaining_agrees_with_the_machine() {
    for value in samples() {
        if value.is_finite() {
            let expected = (100.0 - value).clamp(0.0, 100.0);
            let found = f64::from_bits(held(value).remaining().bits);
            assert_eq!(found.to_bits(), expected.to_bits(), "{value}");
        }
    }
}

#[test]
fn whole_part_agrees_with_the_machine() {
    for value in samples() {
        assert_eq!(held(value).to_whole(), value.max(0.0) as u64, "{value}");
    }
}

#[test]
fn epoch_millis_agree_with_the_machine() {
    for value in samples() {
        if value.is_finite() {
            let expected = if value > 0.0 {
                Some(if value < 1e12 { (value * 1000.0) as i64 } else { value as i64 })
            } else {
                None
            };
            assert_eq!(held(value).to_epoch_millis(), expected, "{value}");
        }
    }
}

#[test]
fn whole_text_agrees_with_the_machine() {
    for value in samples() {
        let mut text = String::from("<");
        held(value).push_whole_text(&mut text);
        assert_eq!(text, format!("<{value:.0}"), "{value:e}");
    }
}

#[test]
fn byte_agrees_with_the_machine() {
    for value in samples() {
        let value = value.clamp(0.5, 1.0);
        if !value.is_nan() {
            assert_eq!(held(value).to_byte(), (value * 255.0).round() as u8, "{value}");
        }
    }
    assert_eq!(held(0.5).to_byte(), 128);
    assert_eq!(held(1.0).to_byte(), 255);
}
