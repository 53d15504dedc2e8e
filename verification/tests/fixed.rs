use texmap::mipmap::fixed::{
    floor_div, is_power_of_2, isqrt, isqrt_ceil, log2_int, log2_with_power, modulo, round_up_pow2, FRAC_BITS, HALF,
    MAX_DIM, ONE, TEXEL_MAX,
};

#[test]
fn fixed_constants() {
    assert_eq!(ONE, 1i64 << FRAC_BITS);
    assert_eq!(HALF * 2, ONE);
    assert_eq!(TEXEL_MAX, 1i64 << 40);
    assert_eq!(MAX_DIM, 32768);
}

#[test]
fn floor_div_rounds_down() {
    assert_eq!(floor_div(7, 2), 3);
    assert_eq!(floor_div(-7, 2), -4);
    assert_eq!(floor_div(-8, 2), -4);
    assert_eq!(floor_div(-1, 65536), -1);
    assert_eq!(floor_div(0, 5), 0);
    assert_eq!(floor_div(65535, 65536), 0);
}

#[test]
fn modulo_is_never_negative() {
    assert_eq!(modulo(7, 4), 3);
    assert_eq!(modulo(-1, 4), 3);
    assert_eq!(modulo(-4, 4), 0);
    assert_eq!(modulo(-5, 4), 3);
    assert_eq!(modulo(0, 4), 0);
}

#[test]
fn log2_int_values() {
    assert_eq!(log2_int(0), 0);
    assert_eq!(log2_int(1), 0);
    assert_eq!(log2_int(2), 1);
    assert_eq!(log2_int(3), 1);
    assert_eq!(log2_int(4), 2);
    assert_eq!(log2_int(1023), 9);
    assert_eq!(log2_int(1024), 10);
    assert_eq!(log2_int(u64::MAX), 63);
}

#[test]
fn log2_with_power_values() {
    assert_eq!(log2_with_power(1), (0, 1));
    assert_eq!(log2_with_power(5), (2, 4));
    assert_eq!(log2_with_power(65536), (16, 65536));
    assert_eq!(log2_with_power(u64::MAX), (63, 1u64 << 63));
}

#[test]
fn power_of_two_checks() {
    assert!(!is_power_of_2(0));
    assert!(is_power_of_2(1));
    assert!(is_power_of_2(2));
    assert!(!is_power_of_2(3));
    assert!(is_power_of_2(4096));
    assert!(!is_power_of_2(4097));
    assert!(!is_power_of_2(6));
}

#[test]
fn round_up_pow2_values() {
    assert_eq!(round_up_pow2(1), 1);
    assert_eq!(round_up_pow2(2), 2);
    assert_eq!(round_up_pow2(3), 4);
    assert_eq!(round_up_pow2(5), 8);
    assert_eq!(round_up_pow2(1000), 1024);
    assert_eq!(round_up_pow2(16385), 32768);
    assert_eq!(round_up_pow2(32768), 32768);
}

#[test]
fn isqrt_values() {
    assert_eq!(isqrt(0), 0);
    assert_eq!(isqrt(1), 1);
    assert_eq!(isqrt(3), 1);
    assert_eq!(isqrt(4), 2);
    assert_eq!(isqrt(99), 9);
    assert_eq!(isqrt(100), 10);
    assert_eq!(isqrt((1i128 << 64) - 1), (1i128 << 32) - 1);
    assert_eq!(isqrt_ceil(0), 0);
    assert_eq!(isqrt_ceil(99), 10);
    assert_eq!(isqrt_ceil(100), 10);
    assert_eq!(isqrt_ceil(101), 11);
}
