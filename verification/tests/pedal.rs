use midi_filters::pedal::{pedal_held, HALF, INFINITY};

#[test]
fn threshold_constants_are_the_bits_of_the_numbers() {
    assert_eq!(HALF, 0.5f32.to_bits());
    assert_eq!(INFINITY, f32::INFINITY.to_bits());
}

#[test]
fn threshold_exactly_half_is_not_held() {
    assert!(!pedal_held(0.5f32.to_bits()));
}

#[test]
fn threshold_just_above_half_is_held() {
    assert!(pedal_held(0.51f32.to_bits()));
}

#[test]
fn threshold_just_below_half_is_not_held() {
    assert!(!pedal_held(0.49f32.to_bits()));
}

#[test]
fn threshold_neighbours_of_half() {
    assert!(pedal_held(0.5f32.to_bits() + 1));
    assert!(!pedal_held(0.5f32.to_bits() - 1));
}

#[test]
fn threshold_ends_of_the_normalized_range() {
    assert!(!pedal_held(0.0f32.to_bits()));
    assert!(pedal_held(1.0f32.to_bits()));
}

#[test]
fn threshold_values_outside_the_normalized_range() {
    assert!(pedal_held(2.0f32.to_bits()));
    assert!(pedal_held(f32::MAX.to_bits()));
    assert!(pedal_held(f32::INFINITY.to_bits()));
    assert!(!pedal_held((-0.0f32).to_bits()));
    assert!(!pedal_held((-0.75f32).to_bits()));
    assert!(!pedal_held((-1.0f32).to_bits()));
    assert!(!pedal_held(f32::MIN.to_bits()));
    assert!(!pedal_held(f32::NEG_INFINITY.to_bits()));
    assert!(!pedal_held(f32::MIN_POSITIVE.to_bits()));
    assert!(!pedal_held(1));
}

#[test]
fn threshold_nan_is_not_held() {
    assert!(!pedal_held(f32::NAN.to_bits()));
    assert!(!pedal_held(0x7f80_0001));
    assert!(!pedal_held(0x7fff_ffff));
    assert!(!pedal_held(0xff80_0001));
    assert!(!pedal_held(0xffff_ffff));
}

#[test]
fn threshold_agrees_with_the_comparison_of_floats_on_a_sweep() {
    let mut bits: u32 = 0;
    loop {
        assert_eq!(pedal_held(bits), f32::from_bits(bits) > 0.5, "bits {:#010x}", bits);
        match bits.checked_add(32_749) {
            Some(next) => bits = next,
            None => break,
        }
    }
}

#[test]
fn threshold_agrees_with_the_comparison_of_floats_at_the_edges() {
    let edges: [u32; 6] = [0, 0x3f00_0000, 0x7f80_0000, 0x8000_0000, 0xbf00_0000, 0xff80_0000];
    for edge in edges {
        for offset in 0u32..2000 {
            let above = edge.wrapping_add(offset);
            let below = edge.wrapping_sub(offset);
            assert_eq!(pedal_held(above), f32::from_bits(above) > 0.5, "bits {:#010x}", above);
            assert_eq!(pedal_held(below), f32::from_bits(below) > 0.5, "bits {:#010x}", below);
        }
    }
}

#[test]
fn threshold_agrees_with_the_comparison_of_floats_on_hundredths() {
    for step in 0u32..=100 {
        let value = step as f32 / 100.0;
        assert_eq!(pedal_held(value.to_bits()), value > 0.5, "value {}", value);
    }
}
