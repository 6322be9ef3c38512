use random_number_over_serial::entropy::{
    assemble_bits, random_value_of_bits, reduce_accumulator,
};

fn bits_of_u16(v: u16) -> Vec<bool> {
    let mut bits = Vec::new();
    for i in 0..16 {
        bits.push((v >> i) & 1 == 1);
    }
    bits
}

#[test]
fn assemble_first_draw_is_least_significant() {
    let mut bits = vec![false; 16];
    bits[0] = true;
    bits[2] = true;
    assert_eq!(assemble_bits(&bits), 0b101);
}

#[test]
fn assemble_all_ones_is_max() {
    let bits = vec![true; 16];
    assert_eq!(assemble_bits(&bits), 65535);
}

#[test]
fn assemble_round_trips_sample_patterns() {
    for v in [0u16, 1, 2, 5, 9999, 10000, 12345, 65535] {
        assert_eq!(assemble_bits(&bits_of_u16(v)), v);
    }
}

#[test]
fn reduce_small_accumulator_is_identity() {
    assert_eq!(reduce_accumulator(5), 5);
    assert_eq!(reduce_accumulator(9999), 9999);
}

#[test]
fn reduce_wraps_at_ten_thousand() {
    assert_eq!(reduce_accumulator(10000), 0);
    assert_eq!(reduce_accumulator(10001), 1);
}

#[test]
fn reduce_max_accumulator() {
    assert_eq!(reduce_accumulator(65535), 5535);
}

#[test]
fn value_of_exact_bits_scenario() {
    // bit0 = 1, bit1 = 0, bit2 = 1, rest 0 -> accumulator 5 -> value 5
    let mut bits = vec![false; 16];
    bits[0] = true;
    bits[2] = true;
    assert_eq!(random_value_of_bits(&bits), 5);
}

#[test]
fn value_of_modulo_wrap_scenario() {
    // accumulator 10000 -> reduced 0
    assert_eq!(random_value_of_bits(&bits_of_u16(10000)), 0);
}

#[test]
fn value_of_max_accumulator_scenario() {
    // accumulator 65535 -> reduced 5535
    assert_eq!(random_value_of_bits(&bits_of_u16(65535)), 5535);
}

#[test]
fn value_always_in_decimal_range() {
    for v in [0u16, 1, 9999, 10000, 19999, 20000, 43210, 65535] {
        assert!(random_value_of_bits(&bits_of_u16(v)) < 10000);
    }
}
