//! Digit parser: turns raw input text into an ordered sequence of decimal
//! digit values, or rejects the text as a whole.

use vstd::prelude::*;

verus! {

/// The character is a decimal digit, `'0'` through `'9'`.
pub open spec fn is_digit_char(c: char) -> bool {
    48 <= c as u32 <= 57
}

/// The numeric value of a decimal digit character.
pub open spec fn char_digit(c: char) -> u8 {
    (c as u32 - 48) as u8
}

/// Every character of the text is a decimal digit.
pub open spec fn all_digit_chars(s: Seq<char>) -> bool {
    forall|i: int| 0 <= i < s.len() ==> is_digit_char(#[trigger] s[i])
}

/// The digit values of a digit-only text, in order.
pub open spec fn digits_of(s: Seq<char>) -> Seq<u8> {
    s.map_values(|c: char| char_digit(c))
}

/// Every element of the sequence is a single decimal digit value.
pub open spec fn digits_in_range(s: Seq<u8>) -> bool {
    forall|i: int| 0 <= i < s.len() ==> #[trigger] s[i] <= 9
}

/// Parses the text into its digit values: the result is present exactly when
/// every character is a decimal digit, and then holds one value per
/// character, in order. A single non-digit character rejects the whole text;
/// no partial digits are handed out. The empty text parses to the empty
/// sequence.
pub fn string_to_digits(s: &str) -> (r: Option<Vec<u8>>)
    ensures
        r is Some <==> all_digit_chars(s@),
        r matches Some(v) ==> v@ == digits_of(s@) && digits_in_range(v@),
{
    let n = s.unicode_len();
    let mut digits: Vec<u8> = Vec::new();
    let mut i: usize = 0;
    while i < n
        invariant
            i <= n,
            n == s@.len(),
            all_digit_chars(s@.take(i as int)),
            digits@ == digits_of(s@.take(i as int)),
            digits_in_range(digits@),
        decreases n - i,
    {
        let c = s.get_char(i);
        let u = c as u32;
        if u < 48 || u > 57 {
            proof {
                assert(!is_digit_char(s@[i as int]));
            }
            return None;
        }
        digits.push((u - 48) as u8);
        proof {
            assert(s@.take(i as int + 1) =~= s@.take(i as int).push(s@[i as int]));
            assert(digits@ =~= digits_of(s@.take(i as int + 1)));
        }
        i += 1;
    }
    proof {
        assert(s@.take(n as int) =~= s@);
    }
    Some(digits)
}

} // verus!
