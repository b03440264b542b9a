use freq_to_notes::parse::digit_of;
use freq_to_notes::parse::parse_frequency;
use freq_to_notes::parse::MICROHERTZ_PER_HERTZ;
use freq_to_notes::parse::WHOLE_HERTZ_LIMIT;

#[test]
fn whole_numbers_are_hertz() {
    assert_eq!(parse_frequency("440"), Some(440_000_000));
    assert_eq!(parse_frequency("1"), Some(MICROHERTZ_PER_HERTZ));
    assert_eq!(parse_frequency("00440"), Some(440_000_000));
    assert_eq!(parse_frequency("0"), Some(0));
}

#[test]
fn decimals_are_read_to_the_microhertz() {
    assert_eq!(parse_frequency("523.25"), Some(523_250_000));
    assert_eq!(parse_frequency("261.63"), Some(261_630_000));
    assert_eq!(parse_frequency("0.000001"), Some(1));
    assert_eq!(parse_frequency("1.234567"), Some(1_234_567));
    assert_eq!(parse_frequency("0.5"), Some(500_000));
}

#[test]
fn digits_past_the_sixth_place_are_dropped() {
    assert_eq!(parse_frequency("1.23456789"), Some(1_234_567));
    assert_eq!(parse_frequency("0.0000009"), Some(0));
    assert_eq!(parse_frequency("440.0000005"), Some(440_000_000));
}

#[test]
fn the_point_may_stand_at_either_end() {
    assert_eq!(parse_frequency("5."), Some(5_000_000));
    assert_eq!(parse_frequency(".5"), Some(500_000));
    assert_eq!(parse_frequency("."), None);
    assert_eq!(parse_frequency(""), None);
}

#[test]
fn anything_but_digits_and_one_point_is_refused() {
    assert_eq!(parse_frequency("4a4"), None);
    assert_eq!(parse_frequency("1.2.3"), None);
    assert_eq!(parse_frequency(".."), None);
    assert_eq!(parse_frequency("-5"), None);
    assert_eq!(parse_frequency("+5"), None);
    assert_eq!(parse_frequency("1e3"), None);
    assert_eq!(parse_frequency(" 440"), None);
    assert_eq!(parse_frequency("440 "), None);
    assert_eq!(parse_frequency("44O"), None);
    assert_eq!(parse_frequency("4.4x"), None);
    assert_eq!(parse_frequency("٤٤٠"), None);
}

#[test]
fn values_beyond_sixty_four_bits_are_refused() {
    assert_eq!(WHOLE_HERTZ_LIMIT, u64::MAX / 1_000_000);
    assert_eq!(parse_frequency("18446744073709.551615"), Some(u64::MAX));
    assert_eq!(parse_frequency("18446744073709.551616"), None);
    assert_eq!(parse_frequency("18446744073709"), Some(18_446_744_073_709_000_000));
    assert_eq!(parse_frequency("18446744073710"), None);
    assert_eq!(parse_frequency("99999999999999999999999999999999"), None);
    assert_eq!(parse_frequency("000000000000000000000000000001"), Some(1_000_000));
}

#[test]
fn digits_have_their_values() {
    let digits = ['0', '1', '2', '3', '4', '5', '6', '7', '8', '9'];
    let mut value: u8 = 0;
    while value < 10 {
        assert_eq!(digit_of(digits[value as usize]), Some(value));
        value += 1;
    }
    assert_eq!(digit_of('.'), None);
    assert_eq!(digit_of('a'), None);
    assert_eq!(digit_of('/'), None);
    assert_eq!(digit_of(':'), None);
}
