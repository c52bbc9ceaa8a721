use iskandar::clock::{current_run_identity, run_identity, LocalTime};

fn at(year: i32, month: u32, day: u32, hour: u32, minute: u32, second: u32) -> LocalTime {
    LocalTime { year, month, day, hour, minute, second }
}

#[test]
fn identity_has_no_separators() {
    assert_eq!(run_identity(&at(2024, 1, 2, 3, 4, 5)), "20240102030405");
    assert_eq!(run_identity(&at(1999, 12, 31, 23, 59, 59)), "19991231235959");
}

#[test]
fn year_is_padded_to_four_digits() {
    assert_eq!(run_identity(&at(5, 6, 7, 8, 9, 10)), "00050607080910");
}

#[test]
fn year_outside_four_digits_carries_a_sign() {
    assert_eq!(run_identity(&at(12345, 1, 1, 0, 0, 0)), "+123450101000000");
    assert_eq!(run_identity(&at(-7, 1, 1, 0, 0, 0)), "-00070101000000");
}

#[test]
fn current_identity_is_all_digits() {
    let id = current_run_identity();
    assert_eq!(id.len(), 14);
    assert!(id.chars().all(|c| c.is_ascii_digit()));
}
