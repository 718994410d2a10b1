use rusthl7::paths::{read_number, read_place};

#[test]
fn read_number_reads_the_digits() {
    assert_eq!(read_number("R2"), Some(2));
    assert_eq!(read_number("F13"), Some(13));
    assert_eq!(read_number("0"), Some(0));
    assert_eq!(read_number("007"), Some(7));
    assert_eq!(read_number("a1b2c3"), Some(123));
    assert_eq!(read_number("4294967296"), Some(4294967296));
}

#[test]
fn read_number_of_a_token_without_digits_is_none() {
    assert_eq!(read_number(""), None);
    assert_eq!(read_number("R"), None);
    assert_eq!(read_number("-"), None);
    assert_eq!(read_number("٣"), None);
}

#[test]
fn read_number_stops_at_the_largest_usize() {
    let largest = format!("R{}", usize::MAX);
    assert_eq!(read_number(&largest), Some(usize::MAX));
    assert_eq!(read_number("R18446744073709551616"), None);
    assert_eq!(read_number("R99999999999999999999999999"), None);
    assert_eq!(read_number("R184467440737095516150"), None);
}

#[test]
fn read_place_counts_from_one() {
    assert_eq!(read_place("R1"), Some(0));
    assert_eq!(read_place("R2"), Some(1));
    assert_eq!(read_place("C10"), Some(9));
    assert_eq!(read_place("R0"), None);
    assert_eq!(read_place("R"), None);
    assert_eq!(read_place(""), None);
    let largest = format!("R{}", usize::MAX);
    assert_eq!(read_place(&largest), Some(usize::MAX - 1));
    assert_eq!(read_place("R18446744073709551616"), None);
}
