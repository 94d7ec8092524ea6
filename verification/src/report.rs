//! Validity reporter and the full validation pipeline: digit count,
//! classified network and checksum outcome combine into one of a fixed set
//! of messages.

use vstd::prelude::*;
use crate::checksum::cc_check_sum;
use crate::checksum::luhn_valid;
use crate::digits::all_digit_chars;
use crate::digits::digits_of;
use crate::digits::string_to_digits;
use crate::network::cc_type_check;
use crate::network::spec_cc_type_check;
use crate::network::CardNetwork;

verus! {

/// The one message reported for a digit count, network and checksum
/// outcome. Exactly four combinations are ever accepted — a deliberately
/// closed set, not a general rule — and every other combination gets the
/// fixed rejection message.
pub open spec fn spec_card_validity(cc_length: int, network: CardNetwork, checksum: bool) -> Seq<
    char,
> {
    if cc_length == 15 && network == CardNetwork::AmericanExpress && checksum {
        "This 15 digit American Express card is valid"@
    } else if cc_length == 16 && network == CardNetwork::Mastercard && checksum {
        "This 16 digit Mastercard is valid"@
    } else if cc_length == 13 && network == CardNetwork::Visa && checksum {
        "This 13 digit Visa card is valid"@
    } else if cc_length == 16 && network == CardNetwork::Visa && checksum {
        "This 16 digit Visa card is valid"@
    } else {
        "You have typed in an invalid card number"@
    }
}

/// Combines digit count, classified network and checksum outcome into the
/// one fixed message of `spec_card_validity`.
pub fn card_validity(cc_length: usize, network: CardNetwork, checksum: bool) -> (r: String)
    ensures
        r@ == spec_card_validity(cc_length as int, network, checksum),
{
    match (cc_length, network, checksum) {
        (15, CardNetwork::AmericanExpress, true) => String::from_str(
            "This 15 digit American Express card is valid",
        ),
        (16, CardNetwork::Mastercard, true) => String::from_str(
            "This 16 digit Mastercard is valid",
        ),
        (13, CardNetwork::Visa, true) => String::from_str("This 13 digit Visa card is valid"),
        (16, CardNetwork::Visa, true) => String::from_str("This 16 digit Visa card is valid"),
        _ => String::from_str("You have typed in an invalid card number"),
    }
}

/// The message the whole pipeline reports for an input text: a fixed plea
/// for digits when any character is not a decimal digit, no message at all
/// when the text is empty, and otherwise the reporter's message for the
/// text's digits.
pub open spec fn spec_validate(s: Seq<char>) -> Option<Seq<char>> {
    if !all_digit_chars(s) {
        Some("Please input numbers only"@)
    } else if s.len() == 0 {
        None
    } else {
        Some(
            spec_card_validity(
                s.len() as int,
                spec_cc_type_check(digits_of(s)),
                luhn_valid(digits_of(s)),
            ),
        )
    }
}

/// The view of an optional message, for stating what the pipeline returns.
pub open spec fn spec_message_view(r: Option<String>) -> Option<Seq<char>> {
    match r {
        Some(m) => Some(m@),
        None => None,
    }
}

/// The full validation pipeline over one input text: parse the digits,
/// classify the network and run the checksum, then report. A pure function
/// of the text: no state survives a call.
pub fn validate(input: &str) -> (r: Option<String>)
    ensures
        spec_message_view(r) == spec_validate(input@),
{
    match string_to_digits(input) {
        None => Some(String::from_str("Please input numbers only")),
        Some(digits) => {
            if digits.len() == 0 {
                proof {
                    assert(digits_of(input@).len() == input@.len());
                }
                None
            } else {
                let network = cc_type_check(&digits);
                let checksum = cc_check_sum(&digits);
                Some(card_validity(digits.len(), network, checksum))
            }
        },
    }
}

/// Purity of the pipeline: re-running it on the same input yields the
/// identical output, since the result is a function of the input text
/// alone.
pub proof fn lemma_validate_deterministic(
    s: Seq<char>,
    r1: Option<Seq<char>>,
    r2: Option<Seq<char>>,
)
    requires
        r1 == spec_validate(s),
        r2 == spec_validate(s),
    ensures
        r1 == r2,
{
}

} // verus!
