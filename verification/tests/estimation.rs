use tilings::numerics::decimal::{read_number, write_number};
use tilings::numerics::lerp;

#[test]
fn lerp_on_integers() {
    // (2 + (10 - 2)) * 3
    assert_eq!(lerp(2i64, 10i64, 3i64), 30);
    assert_eq!(lerp(-4i32, 4i32, -1i32), -4);
    assert_eq!(lerp(7u8, 7u8, 0u8), 0);
}

#[test]
fn lerp_on_reals() {
    assert_eq!(lerp(1.5f64, 2.5f64, 0.5f64), 1.25);
}

#[test]
fn numbers_are_written_without_sign_or_leading_zeros() {
    fn text(n: u64) -> String {
        write_number(n).into_iter().collect()
    }

    assert_eq!(text(0), "0");
    assert_eq!(text(7), "7");
    assert_eq!(text(10), "10");
    assert_eq!(text(1234567890), "1234567890");
    assert_eq!(text(u64::MAX), "18446744073709551615");
}

#[test]
fn numbers_are_read_as_std_reads_them() {
    fn read(text: &str) -> Option<usize> {
        read_number(&text.chars().collect())
    }

    for text in ["0", "7", "007", "+7", "+", "", "-7", "7 ", " 7", "7_0", "1e3", "0x10", "٣", "18446744073709551615", "18446744073709551616", "+00000000000000000000000000001"] {
        assert_eq!(read(text), text.parse::<usize>().ok(), "{:?}", text);
    }
    assert_eq!(read("120"), Some(120));
}
