use intcode::password::{Password, PasswordCombinations, PasswordRange};

#[test]
fn detects_112233_as_valid_part2_password() {
    let pass = Password::new(112_233);
    assert!(pass.is_n_digit_long(6));
    assert!(pass.is_not_decreasing());
    assert!(pass.has_strict_adjacent_pair());
}

#[test]
fn detects_123444_as_invalid_part2_password() {
    let pass = Password::new(123_444);
    assert!(pass.is_n_digit_long(6));
    assert!(pass.is_not_decreasing());
    assert!(!pass.has_strict_adjacent_pair());
}

#[test]
fn detects_111122_as_valid_part2_password() {
    let pass = Password::new(111_122);
    assert!(pass.is_n_digit_long(6));
    assert!(pass.is_not_decreasing());
    assert!(pass.has_strict_adjacent_pair());
}

#[test]
fn number_of_digits_works_as_expected() {
    let pass1 = Password::new(1000);
    let pass2 = Password::new(1500);
    let pass3 = Password::new(9999);
    let pass4 = Password::new(999);
    let pass5 = Password::new(10000);

    assert!(pass1.is_n_digit_long(4));
    assert!(pass2.is_n_digit_long(4));
    assert!(pass3.is_n_digit_long(4));
    assert!(!pass4.is_n_digit_long(4));
    assert!(!pass5.is_n_digit_long(4));
}

#[test]
fn range_works_as_expected() {
    let pass1 = Password::new(1000);
    let pass2 = Password::new(1500);
    let pass3 = Password::new(9999);
    let pass4 = Password::new(999);
    let pass5 = Password::new(10000);

    let range = PasswordRange::new("1000-9999");
    assert!(pass1.is_within_range(&range));
    assert!(pass2.is_within_range(&range));
    assert!(pass3.is_within_range(&range));
    assert!(!pass4.is_within_range(&range));
    assert!(!pass5.is_within_range(&range));
}

#[test]
fn adjacent_pairs_work_as_expected() {
    let pass1 = Password::new(1);
    let pass2 = Password::new(12345);
    let pass3 = Password::new(11234);
    let pass4 = Password::new(12234);
    let pass5 = Password::new(12344);
    let pass6 = Password::new(12134);

    assert!(!pass1.has_same_adjacent_pair());
    assert!(!pass2.has_same_adjacent_pair());
    assert!(pass3.has_same_adjacent_pair());
    assert!(pass4.has_same_adjacent_pair());
    assert!(pass5.has_same_adjacent_pair());
    assert!(!pass6.has_same_adjacent_pair());
}

#[test]
fn non_decreasing_works_as_expected() {
    let pass1 = Password::new(1000);
    let pass2 = Password::new(1111);
    let pass3 = Password::new(1234);
    let pass4 = Password::new(1212);

    assert!(!pass1.is_not_decreasing());
    assert!(pass2.is_not_decreasing());
    assert!(pass3.is_not_decreasing());
    assert!(!pass4.is_not_decreasing());
}

#[test]
fn string_digit_pair_works_as_expected() {
    let pass1 = Password::new(1222);
    let pass2 = Password::new(12_345_678);
    let pass3 = Password::new(123_345_678);
    let pass4 = Password::new(123_444_567);
    let pass5 = Password::new(111_122);

    assert!(!pass1.has_strict_adjacent_pair());
    assert!(!pass2.has_strict_adjacent_pair());
    assert!(pass3.has_strict_adjacent_pair());
    assert!(!pass4.has_strict_adjacent_pair());
    assert!(pass5.has_strict_adjacent_pair());
}

#[test]
fn counts_valid_passwords_in_a_small_range() {
    let range = PasswordRange::new("111110-111112");
    // Only 111111 and 111112 are non-decreasing; both have an adjacent
    // pair, neither has a run of exactly two.
    assert_eq!(2, PasswordCombinations::part1_determine(&range));
    assert_eq!(0, PasswordCombinations::part2_determine(&range));
    let strict = PasswordRange::new("122345-122345");
    assert_eq!(1, PasswordCombinations::part1_determine(&strict));
    assert_eq!(1, PasswordCombinations::part2_determine(&strict));
}
