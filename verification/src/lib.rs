//! Validation of credit-card numbers typed as text.
//!
//! The pipeline parses a string of decimal digits, classifies the card
//! network from the leading digit, runs the Luhn mod-10 checksum, and
//! assembles one of a fixed set of validity messages.

mod checksum;
mod digits;
mod network;
mod report;

pub use checksum::cc_check_sum;
pub use checksum::is_check_sum_valid;
pub use checksum::split_into_int;
pub use digits::string_to_digits;
pub use network::cc_type;
pub use network::cc_type_check;
pub use network::CardNetwork;
pub use report::card_validity;
pub use report::lemma_validate_deterministic;
pub use report::validate;
