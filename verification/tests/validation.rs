use card_check::card_validity;
use card_check::cc_check_sum;
use card_check::cc_type;
use card_check::cc_type_check;
use card_check::is_check_sum_valid;
use card_check::split_into_int;
use card_check::string_to_digits;
use card_check::validate;
use card_check::CardNetwork;

#[test]
fn parser_accepts_all_digits() {
    let digits = string_to_digits("0123456789").unwrap();
    assert_eq!(digits, vec![0, 1, 2, 3, 4, 5, 6, 7, 8, 9]);
    assert_eq!(digits.len(), "0123456789".len());
}

#[test]
fn parser_accepts_card_number() {
    let digits = string_to_digits("4539148803436467").unwrap();
    assert_eq!(digits, vec![4, 5, 3, 9, 1, 4, 8, 8, 0, 3, 4, 3, 6, 4, 6, 7]);
}

#[test]
fn parser_empty_string_is_empty_sequence() {
    assert_eq!(string_to_digits(""), Some(vec![]));
}

#[test]
fn parser_rejects_letters() {
    assert_eq!(string_to_digits("12ab34"), None);
}

#[test]
fn parser_rejects_spaces_and_signs() {
    assert_eq!(string_to_digits(" 123"), None);
    assert_eq!(string_to_digits("12 34"), None);
    assert_eq!(string_to_digits("+123"), None);
    assert_eq!(string_to_digits("4539-1488"), None);
}

#[test]
fn checksum_accepts_known_good_digits() {
    assert!(cc_check_sum(&vec![4, 5, 3, 9, 1, 4, 8, 8, 0, 3, 4, 3, 6, 4, 6, 7]));
    assert!(cc_check_sum(&vec![3, 7, 8, 2, 8, 2, 2, 4, 6, 3, 1, 0, 0, 0, 5]));
}

#[test]
fn checksum_is_order_sensitive() {
    // The same multiset of digits, with only the first two swapped,
    // changes the outcome.
    assert!(cc_check_sum(&vec![4, 5, 3, 9, 1, 4, 8, 8, 0, 3, 4, 3, 6, 4, 6, 7]));
    assert!(!cc_check_sum(&vec![5, 4, 3, 9, 1, 4, 8, 8, 0, 3, 4, 3, 6, 4, 6, 7]));
}

#[test]
fn checksum_rejects_known_bad_digits() {
    assert!(!cc_check_sum(&vec![1, 2, 3, 4, 5, 6, 7, 8, 9, 0, 1, 2, 3, 4, 5, 6]));
}

#[test]
fn checksum_runs_on_short_sequences() {
    assert!(cc_check_sum(&vec![]));
    assert!(cc_check_sum(&vec![0]));
    assert!(!cc_check_sum(&vec![5]));
}

#[test]
fn split_separates_two_digit_values() {
    assert_eq!(split_into_int(vec![14, 8, 18, 10]), vec![1, 4, 8, 1, 8, 1, 0]);
    assert_eq!(split_into_int(vec![]), Vec::<u8>::new());
    assert_eq!(split_into_int(vec![9, 0]), vec![9, 0]);
}

#[test]
fn checksum_divisibility_rule() {
    assert!(is_check_sum_valid(0));
    assert!(is_check_sum_valid(80));
    assert!(!is_check_sum_valid(83));
}

#[test]
fn classifier_prefix_table() {
    assert_eq!(cc_type_check(&vec![4, 1, 1, 1]), CardNetwork::Visa);
    assert_eq!(cc_type_check(&vec![3, 7, 8]), CardNetwork::AmericanExpress);
    assert_eq!(cc_type_check(&vec![7, 0, 0]), CardNetwork::AmericanExpress);
    assert_eq!(cc_type_check(&vec![1, 2, 3]), CardNetwork::Mastercard);
    assert_eq!(cc_type_check(&vec![2, 2, 3]), CardNetwork::Mastercard);
    assert_eq!(cc_type_check(&vec![5, 5, 5]), CardNetwork::Mastercard);
    assert_eq!(cc_type_check(&vec![0, 1, 2]), CardNetwork::Unknown);
    assert_eq!(cc_type_check(&vec![8, 1, 2]), CardNetwork::Unknown);
    assert_eq!(cc_type_check(&vec![9, 1, 2]), CardNetwork::Unknown);
    assert_eq!(cc_type_check(&vec![]), CardNetwork::Unknown);
}

#[test]
fn classifier_labels() {
    assert_eq!(cc_type(CardNetwork::Visa), "Visa");
    assert_eq!(cc_type(CardNetwork::AmericanExpress), "American Express");
    assert_eq!(cc_type(CardNetwork::Mastercard), "Mastercard");
    assert_eq!(cc_type(CardNetwork::Unknown), "");
}

#[test]
fn reporter_accepts_only_the_four_cases() {
    assert_eq!(
        card_validity(15, CardNetwork::AmericanExpress, true),
        "This 15 digit American Express card is valid"
    );
    assert_eq!(
        card_validity(16, CardNetwork::Mastercard, true),
        "This 16 digit Mastercard is valid"
    );
    assert_eq!(card_validity(13, CardNetwork::Visa, true), "This 13 digit Visa card is valid");
    assert_eq!(card_validity(16, CardNetwork::Visa, true), "This 16 digit Visa card is valid");
}

#[test]
fn reporter_rejects_everything_else() {
    let rejection = "You have typed in an invalid card number";
    assert_eq!(card_validity(16, CardNetwork::Visa, false), rejection);
    assert_eq!(card_validity(14, CardNetwork::Visa, true), rejection);
    assert_eq!(card_validity(16, CardNetwork::Unknown, true), rejection);
    assert_eq!(card_validity(15, CardNetwork::Mastercard, true), rejection);
    assert_eq!(card_validity(16, CardNetwork::AmericanExpress, true), rejection);
    assert_eq!(card_validity(0, CardNetwork::Unknown, true), rejection);
}

#[test]
fn pipeline_valid_visa_sixteen() {
    assert_eq!(
        validate("4111111111111111"),
        Some(String::from("This 16 digit Visa card is valid"))
    );
    assert_eq!(
        validate("4539148803436467"),
        Some(String::from("This 16 digit Visa card is valid"))
    );
}

#[test]
fn pipeline_valid_visa_thirteen() {
    assert_eq!(validate("4222222222222"), Some(String::from("This 13 digit Visa card is valid")));
}

#[test]
fn pipeline_valid_american_express() {
    assert_eq!(
        validate("378282246310005"),
        Some(String::from("This 15 digit American Express card is valid"))
    );
}

#[test]
fn pipeline_valid_mastercard() {
    assert_eq!(
        validate("5555555555554444"),
        Some(String::from("This 16 digit Mastercard is valid"))
    );
}

#[test]
fn pipeline_rejects_failing_checksum() {
    // Classified as Mastercard by the leading 1, but the checksum fails.
    assert_eq!(
        validate("1234567890123456"),
        Some(String::from("You have typed in an invalid card number"))
    );
    // A Visa-shaped number whose Luhn total is 83, not divisible by 10.
    assert_eq!(
        validate("4539373984310009"),
        Some(String::from("You have typed in an invalid card number"))
    );
}

#[test]
fn pipeline_rejects_wrong_combinations() {
    // Unknown network, checksum fine.
    assert_eq!(validate("0"), Some(String::from("You have typed in an invalid card number")));
    // American Express prefix at the wrong length.
    assert_eq!(validate("7"), Some(String::from("You have typed in an invalid card number")));
}

#[test]
fn pipeline_parse_failure_message() {
    assert_eq!(validate("12ab34"), Some(String::from("Please input numbers only")));
}

#[test]
fn pipeline_empty_input_no_message() {
    assert_eq!(validate(""), None);
}

#[test]
fn pipeline_is_idempotent() {
    let inputs = ["", "12ab34", "4111111111111111", "1234567890123456", "378282246310005"];
    for input in inputs.iter() {
        assert_eq!(validate(input), validate(input));
    }
}
