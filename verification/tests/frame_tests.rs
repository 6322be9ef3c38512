use random_number_over_serial::frame::{frame_bytes, frame_for_value};
use random_number_over_serial::formatter::format_u64;

#[test]
fn frame_exact_value_scenario() {
    // accumulator bits 1,0,1,0,... -> value 5 -> frame "5\n\r"
    assert_eq!(frame_for_value(5), b"5\n\r".to_vec());
}

#[test]
fn frame_modulo_wrap_scenario() {
    // value 0 has no digit bytes: the frame is the bare terminator
    assert_eq!(frame_for_value(0), b"\n\r".to_vec());
}

#[test]
fn frame_max_accumulator_scenario() {
    // 65535 mod 10000 = 5535 -> frame "5535\n\r"
    assert_eq!(frame_for_value(5535), b"5535\n\r".to_vec());
}

#[test]
fn frame_keeps_interior_zero_digits() {
    assert_eq!(frame_for_value(1005), b"1005\n\r".to_vec());
}

#[test]
fn frame_bytes_skips_zero_bytes_only() {
    let mut buffer = [0u8; 20];
    buffer[1] = 7;
    buffer[5] = 3;
    buffer[19] = 9;
    assert_eq!(frame_bytes(&buffer), vec![7u8, 3, 9, 10, 13]);
}

#[test]
fn frame_always_ends_with_terminator() {
    for v in [0u64, 1, 10, 9999, 10000, u64::MAX] {
        let frame = frame_bytes(&format_u64(v));
        let n = frame.len();
        assert!(n >= 2);
        assert_eq!(frame[n - 2], b'\n');
        assert_eq!(frame[n - 1], b'\r');
    }
}

#[test]
fn frame_digit_run_of_reduced_value_is_at_most_four() {
    for v in [0u64, 1, 9, 10, 100, 999, 1000, 5535, 9999] {
        let frame = frame_for_value(v);
        assert!(frame.len() <= 6);
    }
}
