//! Network classifier: maps a digit sequence's leading digit to a card
//! network through a fixed prefix table.

use vstd::prelude::*;

verus! {

/// The card network recognised from a number's leading digit, or `Unknown`
/// when no prefix rule matches.
#[derive(Clone, Copy, Debug, PartialEq, Eq, Structural)]
pub enum CardNetwork {
    Visa,
    AmericanExpress,
    Mastercard,
    Unknown,
}

/// The prefix table over the leading digit, rules tried in order: 4 is Visa;
/// 3 or 7 is American Express; 1, 2 or 5 is Mastercard (the table also lists
/// 3 and 4 for Mastercard, but the earlier rules shadow them). An empty
/// sequence has no leading digit, so no rule matches.
pub open spec fn spec_cc_type_check(s: Seq<u8>) -> CardNetwork {
    if s.len() == 0 {
        CardNetwork::Unknown
    } else if s[0] == 4 {
        CardNetwork::Visa
    } else if s[0] == 3 || s[0] == 7 {
        CardNetwork::AmericanExpress
    } else if s[0] == 1 || s[0] == 2 || s[0] == 5 {
        CardNetwork::Mastercard
    } else {
        CardNetwork::Unknown
    }
}

/// The display label of a network; `Unknown` has no label.
pub open spec fn spec_network_label(n: CardNetwork) -> Seq<char> {
    match n {
        CardNetwork::Visa => "Visa"@,
        CardNetwork::AmericanExpress => "American Express"@,
        CardNetwork::Mastercard => "Mastercard"@,
        CardNetwork::Unknown => ""@,
    }
}

/// Classifies a digit sequence by its leading digit, following the prefix
/// table of `spec_cc_type_check`. A pure lookup: its only failure mode is
/// the `Unknown` answer when no rule matches.
pub fn cc_type_check(cc: &Vec<u8>) -> (r: CardNetwork)
    ensures
        r == spec_cc_type_check(cc@),
{
    if cc.len() == 0 {
        return CardNetwork::Unknown;
    }
    let d = cc[0];
    if d == 4 {
        CardNetwork::Visa
    } else if d == 3 || d == 7 {
        CardNetwork::AmericanExpress
    } else if d == 1 || d == 2 || d == 5 {
        CardNetwork::Mastercard
    } else {
        CardNetwork::Unknown
    }
}

/// Renders a classified network as its display label.
pub fn cc_type(network: CardNetwork) -> (r: String)
    ensures
        r@ == spec_network_label(network),
{
    match network {
        CardNetwork::Visa => String::from_str("Visa"),
        CardNetwork::AmericanExpress => String::from_str("American Express"),
        CardNetwork::Mastercard => String::from_str("Mastercard"),
        CardNetwork::Unknown => String::from_str(""),
    }
}

} // verus!
