use renegadex_patcher::bytesize::human_readable_bytesize;

#[test]
fn test_add() {
    assert_eq!(human_readable_bytesize(4_248_578_547), "4.25 GB");
}

#[test]
fn bytesize_below_a_thousand_keeps_two_decimals() {
    assert_eq!(human_readable_bytesize(512), "512.00 B");
    assert_eq!(human_readable_bytesize(999), "999.00 B");
}

#[test]
fn bytesize_zero_is_written_negative() {
    assert_eq!(human_readable_bytesize(0), "-0.00 B");
}

#[test]
fn bytesize_drops_trailing_zeros() {
    assert_eq!(human_readable_bytesize(1500), "1.5 kB");
    assert_eq!(human_readable_bytesize(2000), "2 kB");
    assert_eq!(human_readable_bytesize(4_248_578), "4.25 MB");
}

#[test]
fn bytesize_rounds_to_two_decimals() {
    assert_eq!(human_readable_bytesize(1_234_567), "1.23 MB");
    assert_eq!(human_readable_bytesize(1_235_678), "1.24 MB");
}

#[test]
fn bytesize_negative_numbers_keep_their_sign() {
    assert_eq!(human_readable_bytesize(-1500), "-1.5 kB");
    assert_eq!(human_readable_bytesize(-12), "-12.00 B");
}
