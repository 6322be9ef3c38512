use random_number_over_serial::formatter::format_u64;

#[test]
fn format_zero_is_all_zero_bytes() {
    let buf = format_u64(0);
    for b in buf.iter() {
        assert_eq!(*b, 0u8);
    }
}

#[test]
fn format_single_digit() {
    let buf = format_u64(5);
    for j in 0..19 {
        assert_eq!(buf[j], 0u8);
    }
    assert_eq!(buf[19], b'5');
}

#[test]
fn format_ten_keeps_trailing_zero_digit() {
    let buf = format_u64(10);
    for j in 0..18 {
        assert_eq!(buf[j], 0u8);
    }
    assert_eq!(buf[18], b'1');
    assert_eq!(buf[19], b'0');
}

#[test]
fn format_interior_zeros_are_emitted() {
    let buf = format_u64(100);
    for j in 0..17 {
        assert_eq!(buf[j], 0u8);
    }
    assert_eq!(&buf[17..], b"100");
}

#[test]
fn format_four_digit_maximum() {
    let buf = format_u64(9999);
    for j in 0..16 {
        assert_eq!(buf[j], 0u8);
    }
    assert_eq!(&buf[16..], b"9999");
}

#[test]
fn format_largest_value_fills_buffer() {
    let buf = format_u64(u64::MAX);
    assert_eq!(&buf[..], b"18446744073709551615");
}

#[test]
fn format_no_leading_zero_byte() {
    for v in [1u64, 9, 10, 99, 100, 1000, 12345, 10000000000000000000] {
        let buf = format_u64(v);
        let first = buf.iter().position(|b| *b != 0).unwrap();
        assert_ne!(buf[first], b'0');
        let run: Vec<u8> = buf[first..].to_vec();
        assert_eq!(run, v.to_string().into_bytes());
    }
}
