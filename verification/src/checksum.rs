//! Checksum engine: the Luhn mod-10 algorithm over a digit sequence.
//!
//! Digits are given alternating roles counted from the *end* of the
//! sequence: the 1st, 3rd, 5th, ... digits from the end (the "simple" group)
//! are summed as they stand; the 2nd, 4th, 6th, ... digits from the end (the
//! "complex" group) are doubled first, and a doubled value of 10 or more is
//! replaced by the sum of its two decimal digits. The sequence is valid when
//! the grand total is divisible by 10.

use vstd::prelude::*;
use crate::digits::digits_in_range;

verus! {

/// The value a "complex" digit contributes: doubled, and collapsed to the
/// sum of its two decimal digits when the doubling reaches 10 (for a single
/// decimal digit that collapse equals subtracting 9).
pub open spec fn luhn_double(d: u8) -> int {
    if 2 * d >= 10 {
        2 * d - 9
    } else {
        2 * d
    }
}

/// What one digit contributes to the Luhn total, given its role.
pub open spec fn luhn_contrib(d: u8, doubled: bool) -> int {
    if doubled {
        luhn_double(d)
    } else {
        d as int
    }
}

/// The Luhn total of a digit sequence. A digit's role follows from its
/// distance to the end of the sequence: the digit at distance 0 (the last)
/// is simple, distance 1 is doubled, and so on alternating. The first
/// element of a sequence of length `n` stands at distance `n - 1`.
pub open spec fn luhn_sum(s: Seq<u8>) -> int
    decreases s.len(),
{
    if s.len() == 0 {
        0
    } else {
        luhn_contrib(s[0], (s.len() - 1) % 2 == 1) + luhn_sum(s.drop_first())
    }
}

/// A digit sequence passes the Luhn check when its total is divisible
/// by 10. A sequence of 0 or 1 digits still runs the same rule.
pub open spec fn luhn_valid(s: Seq<u8>) -> bool {
    luhn_sum(s) % 10 == 0
}

/// The part of the Luhn total contributed by the simple group alone.
spec fn simple_sum(s: Seq<u8>) -> int
    decreases s.len(),
{
    if s.len() == 0 {
        0
    } else {
        (if (s.len() - 1) % 2 == 0 {
            s[0] as int
        } else {
            0
        }) + simple_sum(s.drop_first())
    }
}

/// The digits of the complex group, in the order a walk from the end of the
/// sequence meets them: distance 1 first, then distance 3, and so on.
spec fn complex_digits(s: Seq<u8>) -> Seq<u8>
    decreases s.len(),
{
    if s.len() == 0 {
        Seq::empty()
    } else if (s.len() - 1) % 2 == 1 {
        complex_digits(s.drop_first()).push(s[0])
    } else {
        complex_digits(s.drop_first())
    }
}

/// The sum of the doubled-and-collapsed values of a group of digits.
spec fn doubled_sum(s: Seq<u8>) -> int
    decreases s.len(),
{
    if s.len() == 0 {
        0
    } else {
        doubled_sum(s.drop_last()) + luhn_double(s.last())
    }
}

/// The Luhn total splits into the simple group's plain sum and the complex
/// group's doubled sum.
proof fn lemma_luhn_sum_split(s: Seq<u8>)
    ensures
        luhn_sum(s) == simple_sum(s) + doubled_sum(complex_digits(s)),
    decreases s.len(),
{
    if s.len() == 0 {
    } else {
        lemma_luhn_sum_split(s.drop_first());
        if (s.len() - 1) % 2 == 1 {
            assert(complex_digits(s.drop_first()).push(s[0]).drop_last()
                =~= complex_digits(s.drop_first()));
        }
    }
}

/// Splitting a value below 100 into its decimal digits: one digit stays as
/// it is, two digits are listed tens first.
pub open spec fn split_one(d: u8) -> Seq<u8> {
    if d >= 10 {
        seq![(d / 10) as u8, (d % 10) as u8]
    } else {
        seq![d]
    }
}

/// The digit split applied across a whole sequence, in order.
pub open spec fn spec_split_into_int(s: Seq<u8>) -> Seq<u8>
    decreases s.len(),
{
    if s.len() == 0 {
        Seq::empty()
    } else {
        spec_split_into_int(s.drop_last()) + split_one(s.last())
    }
}

/// The plain sum of a sequence's elements.
spec fn seq_sum(s: Seq<u8>) -> int
    decreases s.len(),
{
    if s.len() == 0 {
        0
    } else {
        seq_sum(s.drop_last()) + s.last()
    }
}

/// Summing a concatenation sums the parts.
proof fn lemma_seq_sum_append(a: Seq<u8>, b: Seq<u8>)
    ensures
        seq_sum(a + b) == seq_sum(a) + seq_sum(b),
    decreases b.len(),
{
    if b.len() == 0 {
        assert(a + b =~= a);
    } else {
        lemma_seq_sum_append(a, b.drop_last());
        assert((a + b).drop_last() =~= a + b.drop_last());
        assert((a + b).last() == b.last());
    }
}

/// The sum of collapsed values of an already-doubled sequence, where a value
/// of 10 or more stands for a doubling that overflowed one digit.
spec fn doubled_half_sum(s: Seq<u8>) -> int
    decreases s.len(),
{
    if s.len() == 0 {
        0
    } else {
        doubled_half_sum(s.drop_last()) + (if s.last() >= 10 {
            s.last() - 9
        } else {
            s.last() as int
        })
    }
}

/// For doubled single digits (values up to 18), summing the split digits
/// equals the collapsed value: one digit sums to itself, and a two-digit
/// value `d` sums to `d - 9`.
proof fn lemma_split_sum(s: Seq<u8>)
    requires
        forall|i: int| 0 <= i < s.len() ==> #[trigger] s[i] <= 18,
    ensures
        seq_sum(spec_split_into_int(s)) == doubled_half_sum(s),
    decreases s.len(),
{
    if s.len() == 0 {
    } else {
        assert(forall|i: int|
            0 <= i < s.drop_last().len() ==> #[trigger] s.drop_last()[i] <= 18);
        lemma_split_sum(s.drop_last());
        lemma_seq_sum_append(spec_split_into_int(s.drop_last()), split_one(s.last()));
        let d = s.last();
        assert(seq_sum(Seq::<u8>::empty()) == 0);
        if d >= 10 {
            assert(d / 10 == 1 && d % 10 == d - 10) by {
                assert(10 <= d <= 18);
            }
            let t = split_one(d);
            assert(seq![(d / 10) as u8].drop_last() =~= Seq::<u8>::empty());
            assert(seq_sum(seq![(d / 10) as u8]) == d / 10);
            assert(t.drop_last() =~= seq![(d / 10) as u8]);
            assert(t.last() == (d % 10) as u8);
            assert(seq_sum(t) == d - 9);
        } else {
            let t = split_one(d);
            assert(t.drop_last() =~= Seq::<u8>::empty());
            assert(t.last() == d);
            assert(seq_sum(t) == d as int);
        }
    }
}

/// Doubling a group of digits element by element and collapsing gives the
/// group's doubled sum.
proof fn lemma_doubling(orig: Seq<u8>, doubled: Seq<u8>)
    requires
        orig.len() == doubled.len(),
        digits_in_range(orig),
        forall|i: int| 0 <= i < orig.len() ==> #[trigger] doubled[i] == 2 * orig[i],
    ensures
        doubled_half_sum(doubled) == doubled_sum(orig),
    decreases orig.len(),
{
    if orig.len() > 0 {
        lemma_doubling(orig.drop_last(), doubled.drop_last());
    }
}

/// Whether a completed Luhn total makes the sequence valid: exactly when it
/// is divisible by 10.
pub fn is_check_sum_valid(sum: u128) -> (r: bool)
    ensures
        r == (sum % 10 == 0),
{
    sum % 10 == 0
}

/// Splits every element of a group of doubled digits into its decimal
/// digits: a value of 10 or more becomes its tens digit followed by its ones
/// digit, a smaller value stays as it is. Each doubled single digit is at
/// most 18, so every element the result holds is a single digit.
pub fn split_into_int(complex: Vec<u8>) -> (r: Vec<u8>)
    requires
        forall|i: int| 0 <= i < complex@.len() ==> #[trigger] complex@[i] <= 18,
    ensures
        r@ == spec_split_into_int(complex@),
        digits_in_range(r@),
{
    let mut out: Vec<u8> = Vec::new();
    let mut k: usize = 0;
    while k < complex.len()
        invariant
            k <= complex@.len(),
            forall|i: int| 0 <= i < complex@.len() ==> #[trigger] complex@[i] <= 18,
            out@ == spec_split_into_int(complex@.take(k as int)),
            digits_in_range(out@),
        decreases complex@.len() - k,
    {
        let d = complex[k];
        if d >= 10 {
            out.push(d / 10);
            out.push(d % 10);
        } else {
            out.push(d);
        }
        proof {
            let taken = complex@.take(k as int + 1);
            assert(taken.drop_last() =~= complex@.take(k as int));
            assert(taken.last() == complex@[k as int]);
            assert(out@ =~= spec_split_into_int(complex@.take(k as int)) + split_one(
                complex@[k as int]));
        }
        k += 1;
    }
    proof {
        assert(complex@.take(complex@.len() as int) =~= complex@);
    }
    out
}

/// Runs the Luhn mod-10 checksum over a digit sequence, walking from the
/// last digit toward the first: digits at even distance from the end are
/// summed as they stand, digits at odd distance are collected, doubled,
/// split into decimal digits, and summed; the sequence is valid exactly when
/// the grand total is divisible by 10.
pub fn cc_check_sum(cc: &Vec<u8>) -> (r: bool)
    requires
        digits_in_range(cc@),
    ensures
        r == luhn_valid(cc@),
{
    let n = cc.len();
    let mut simple: u128 = 0;
    let mut complex: Vec<u8> = Vec::new();
    let mut i: usize = n;
    while i > 0
        invariant
            i <= n,
            n == cc@.len(),
            digits_in_range(cc@),
            simple == simple_sum(cc@.subrange(i as int, n as int)),
            simple <= 9 * (n - i),
            complex@ == complex_digits(cc@.subrange(i as int, n as int)),
            digits_in_range(complex@),
        decreases i,
    {
        i -= 1;
        let d = cc[i];
        proof {
            let suffix = cc@.subrange(i as int, n as int);
            assert(suffix.drop_first() =~= cc@.subrange(i as int + 1, n as int));
            assert(suffix[0] == cc@[i as int]);
        }
        if (n - 1 - i) % 2 == 0 {
            simple = simple + d as u128;
        } else {
            complex.push(d);
        }
    }
    proof {
        assert(cc@.subrange(0, n as int) =~= cc@);
    }

    let mut doubled: Vec<u8> = Vec::new();
    let mut j: usize = 0;
    while j < complex.len()
        invariant
            j <= complex@.len(),
            digits_in_range(complex@),
            doubled@.len() == j,
            forall|k: int| 0 <= k < j ==> #[trigger] doubled@[k] == 2 * complex@[k],
        decreases complex@.len() - j,
    {
        doubled.push(2 * complex[j]);
        j += 1;
    }

    let split_complex = split_into_int(doubled);

    let mut total: u128 = simple;
    let mut k: usize = 0;
    while k < split_complex.len()
        invariant
            k <= split_complex@.len(),
            n == cc@.len(),
            digits_in_range(split_complex@),
            total == simple_sum(cc@) + seq_sum(split_complex@.take(k as int)),
            total <= 9 * (n + k),
        decreases split_complex@.len() - k,
    {
        total = total + split_complex[k] as u128;
        proof {
            let taken = split_complex@.take(k as int + 1);
            assert(taken.drop_last() =~= split_complex@.take(k as int));
            assert(taken.last() == split_complex@[k as int]);
        }
        k += 1;
    }

    proof {
        assert(split_complex@.take(split_complex@.len() as int) =~= split_complex@);
        assert(forall|i2: int|
            0 <= i2 < doubled@.len() ==> #[trigger] doubled@[i2] <= 18);
        lemma_split_sum(doubled@);
        lemma_doubling(complex@, doubled@);
        lemma_luhn_sum_split(cc@);
        assert(total == luhn_sum(cc@));
    }
    is_check_sum_valid(total)
}

} // verus!
