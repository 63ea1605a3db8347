//! Validation and check-digit computation for International Securities
//! Identification Numbers (ISINs).
//!
//! An ISIN is a 12-character ASCII code:
//!
//!  * a two-letter country code (`A`-`Z`),
//!  * a nine-character alphanumeric security identifier (`A`-`Z`, `0`-`9`),
//!  * a single decimal check digit (`0`-`9`).
//!
//! The check digit is verified by a Luhn-style scheme: every letter is
//! expanded to the two digits of its value (`A` = 10 ... `Z` = 35), a digit
//! stands for itself, and the expanded digit string, without its final digit,
//! is summed with alternating weights 1 and 2. Doubling starts at the digit
//! immediately before the check digit and alternates backward; a doubled
//! digit of 10 or more contributes the sum of its two decimal digits. The
//! code is valid when the check digit brings the sum up to a multiple of ten.

use vstd::prelude::*;

verus! {

/// `c` is an uppercase Latin letter, `A`-`Z`.
pub open spec fn is_upper_letter(c: char) -> bool {
    65 <= c as int && c as int <= 90
}

/// `c` is a decimal digit, `0`-`9`.
pub open spec fn is_decimal_digit(c: char) -> bool {
    48 <= c as int && c as int <= 57
}

/// `c` may appear in the first eleven positions of an ISIN.
pub open spec fn is_isin_char(c: char) -> bool {
    is_upper_letter(c) || is_decimal_digit(c)
}

/// A well-formed ISIN candidate: exactly 12 characters, a two-letter country
/// code, nine alphanumeric identifier characters, and a decimal check digit.
pub open spec fn valid_isin_format(s: Seq<char>) -> bool {
    &&& s.len() == 12
    &&& is_upper_letter(s[0])
    &&& is_upper_letter(s[1])
    &&& (forall|i: int| 0 <= i < 11 ==> is_isin_char(#[trigger] s[i]))
    &&& is_decimal_digit(s[11])
}

/// Numeric value of a decimal digit character.
pub open spec fn digit_value(c: char) -> int {
    c as int - 48
}

/// Numeric value of a letter in the ISIN alphabet: `A` = 10 ... `Z` = 35.
pub open spec fn letter_value(c: char) -> int {
    c as int - 55
}

/// The digits one character contributes to the expanded digit sequence:
/// a digit stands for itself, a letter for the two digits of its value.
pub open spec fn char_expansion(c: char) -> Seq<int> {
    if is_decimal_digit(c) {
        seq![digit_value(c)]
    } else {
        seq![letter_value(c) / 10, letter_value(c) % 10]
    }
}

/// The expanded digit sequence of a candidate: each character's expansion,
/// concatenated left to right.
pub open spec fn expansion(s: Seq<char>) -> Seq<int>
    decreases s.len(),
{
    if s.len() == 0 {
        Seq::empty()
    } else {
        expansion(s.drop_last()) + char_expansion(s.last())
    }
}

/// Weight-2 contribution of a digit: twice its value, with the two decimal
/// digits summed when the doubling carries (for `0 <= d <= 9` the carry case
/// equals `2 * d - 9`).
pub open spec fn double_cross_sum(d: int) -> int {
    if d < 5 {
        2 * d
    } else {
        2 * d - 9
    }
}

/// Whether the digit at position `i` is doubled when `l` digits are summed:
/// doubling holds at the last summed position, `l - 1`, and at every second
/// position going backward from it.
pub open spec fn is_doubled_position(i: int, l: int) -> bool {
    (l - 1 - i) % 2 == 0
}

/// Weighted sum of the first `n` digits of `e`, of which `l` are summed in
/// all (`l` fixes which positions are doubled).
pub open spec fn weighted_sum_prefix(e: Seq<int>, l: int, n: int) -> int
    decreases n,
{
    if n <= 0 {
        0
    } else {
        weighted_sum_prefix(e, l, n - 1) + if is_doubled_position(n - 1, l) {
            double_cross_sum(e[n - 1])
        } else {
            e[n - 1]
        }
    }
}

/// The Luhn-style sum of a candidate: every expanded digit except the final
/// one (the check digit itself), weighted.
pub open spec fn isin_weighted_sum(s: Seq<char>) -> int {
    let e = expansion(s);
    weighted_sum_prefix(e, e.len() - 1, e.len() - 1)
}

/// The check digit that the weighted sum calls for: what brings the sum up
/// to a multiple of ten.
pub open spec fn computed_check_digit(s: Seq<char>) -> int {
    (10 - isin_weighted_sum(s) % 10) % 10
}

/// The check digit the candidate itself carries at its final position.
pub open spec fn supplied_check_digit(s: Seq<char>) -> int {
    digit_value(s[11])
}

/// What `compute_isin_checksum` returns: `None` on a malformed candidate,
/// otherwise the computed and the supplied check digit.
pub open spec fn spec_compute_isin_checksum(s: Seq<char>) -> Option<(u8, u8)> {
    if valid_isin_format(s) {
        Some((computed_check_digit(s) as u8, supplied_check_digit(s) as u8))
    } else {
        None
    }
}

/// What `validate_isin` returns: the candidate is well formed and carries
/// the check digit its contents call for.
pub open spec fn spec_validate_isin(s: Seq<char>) -> bool {
    valid_isin_format(s) && computed_check_digit(s) == supplied_check_digit(s)
}

/// A `u8` digit buffer, read as the mathematical digit sequence it holds.
spec fn as_int_seq(ds: Seq<u8>) -> Seq<int> {
    ds.map_values(|d: u8| d as int)
}

/// Extending a prefix by one character appends that character's expansion.
proof fn lemma_expansion_step(s: Seq<char>, i: int)
    requires
        0 <= i < s.len(),
    ensures
        expansion(s.take(i + 1)) == expansion(s.take(i)) + char_expansion(s[i]),
{
    assert(s.take(i + 1).drop_last() =~= s.take(i));
    assert(s.take(i + 1).last() == s[i]);
}

/// Every character contributes one or two digits, so the expansion is at
/// least as long as the candidate and at most twice as long.
proof fn lemma_expansion_len(s: Seq<char>)
    ensures
        s.len() <= expansion(s).len() <= 2 * s.len(),
    decreases s.len(),
{
    if s.len() > 0 {
        lemma_expansion_len(s.drop_last());
    }
}

/// Over alphanumeric characters every expanded digit is a decimal digit.
proof fn lemma_expansion_digits_in_range(s: Seq<char>)
    requires
        forall|i: int| 0 <= i < s.len() ==> is_isin_char(#[trigger] s[i]),
    ensures
        forall|j: int| 0 <= j < expansion(s).len() ==> 0 <= #[trigger] expansion(s)[j] <= 9,
    decreases s.len(),
{
    if s.len() > 0 {
        assert(forall|i: int|
            0 <= i < s.drop_last().len() ==> is_isin_char(#[trigger] s.drop_last()[i]));
        lemma_expansion_digits_in_range(s.drop_last());
        let c = s.last();
        assert(is_isin_char(c));
        assert(forall|j: int|
            0 <= j < char_expansion(c).len() ==> 0 <= #[trigger] char_expansion(c)[j] <= 9);
        assert(forall|j: int|
            0 <= j < expansion(s).len() ==> 0 <= #[trigger] expansion(s)[j] <= 9) by {
            let head = expansion(s.drop_last());
            assert(forall|j: int|
                0 <= j < expansion(s).len() && j < head.len() ==> #[trigger] expansion(s)[j]
                    == head[j]);
            assert(forall|j: int|
                head.len() <= j < expansion(s).len() ==> #[trigger] expansion(s)[j]
                    == char_expansion(c)[j - head.len()]);
        }
    }
}

/// Compute an ISIN checksum from the given input, if possible.
///
/// Returns the computed check digit and the supplied check digit (the final
/// character of the input), or `None` if the input is malformed: not exactly
/// 12 characters, a country code that is not two uppercase letters, an
/// identifier character outside `A`-`Z` and `0`-`9`, or a final character
/// that is not a decimal digit.
pub fn compute_isin_checksum(input: &str) -> (r: Option<(u8, u8)>)
    ensures
        r == spec_compute_isin_checksum(input@),
        r is Some <==> valid_isin_format(input@),
        r matches Some((computed, supplied)) ==> computed as int == computed_check_digit(input@)
            && supplied as int == supplied_check_digit(input@) && computed <= 9 && supplied <= 9,
{
    if input.unicode_len() != 12 {
        return None;
    }
    let c0: char = input.get_char(0);
    let c1: char = input.get_char(1);
    if (c0 as u32) < 65 || (c0 as u32) > 90 || (c1 as u32) < 65 || (c1 as u32) > 90 {
        return None;
    }
    let c11: char = input.get_char(11);
    if (c11 as u32) < 48 || (c11 as u32) > 57 {
        return None;
    }

    // Expand the candidate into its digit sequence, one left-to-right pass,
    // rejecting any character outside the ISIN alphabet.
    let mut digits: Vec<u8> = Vec::new();
    let mut i: usize = 0;
    while i < 12
        invariant
            i <= 12,
            input@.len() == 12,
            as_int_seq(digits@) == expansion(input@.take(i as int)),
            forall|j: int| 0 <= j < i ==> is_isin_char(#[trigger] input@[j]),
        decreases 12 - i,
    {
        let c: char = input.get_char(i);
        let v: u32 = c as u32;
        if 48 <= v && v <= 57 {
            digits.push((v - 48) as u8);
        } else if 65 <= v && v <= 90 {
            let d: u8 = (v - 55) as u8;
            digits.push(d / 10);
            digits.push(d % 10);
        } else {
            return None;
        }
        proof {
            lemma_expansion_step(input@, i as int);
            assert(as_int_seq(digits@) =~= expansion(input@.take(i as int + 1)));
        }
        i = i + 1;
    }
    proof {
        assert(input@.take(12) =~= input@);
        assert(valid_isin_format(input@));
        lemma_expansion_len(input@);
        lemma_expansion_digits_in_range(input@);
    }
    let ghost e: Seq<int> = expansion(input@);

    // Sum every expanded digit but the last with alternating weights 1 and 2,
    // doubling from the position just before the check digit backward.
    let p: usize = digits.len();
    let l: usize = p - 1;
    let mut checksum: u32 = 0;
    let mut i: usize = 0;
    while i < l
        invariant
            i <= l,
            l <= 23,
            l == e.len() - 1,
            digits@.len() == e.len(),
            as_int_seq(digits@) == e,
            forall|j: int| 0 <= j < e.len() ==> 0 <= #[trigger] e[j] <= 9,
            checksum == weighted_sum_prefix(e, l as int, i as int),
            checksum <= 9 * i,
        decreases l - i,
    {
        let d: u8 = digits[i];
        assert(d as int == e[i as int]);
        let w: u8 = if (l - 1 - i) % 2 == 0 {
            if d >= 5 {
                2 * d - 9
            } else {
                2 * d
            }
        } else {
            d
        };
        checksum = checksum + (w as u32);
        i = i + 1;
    }

    let computed: u8 = ((10 - checksum % 10) % 10) as u8;
    let supplied: u8 = digits[l];
    proof {
        assert(checksum == isin_weighted_sum(input@));
        assert(e == expansion(input@.drop_last()) + char_expansion(input@[11]));
        assert(e[l as int] == digit_value(input@[11]));
    }
    Some((computed, supplied))
}

/// Check whether the input is a valid ISIN code: well formed, and carrying
/// the check digit its first eleven characters call for. A malformed input
/// and a checksum mismatch both yield `false`.
pub fn validate_isin(input: &str) -> (r: bool)
    ensures
        r == spec_validate_isin(input@),
{
    match compute_isin_checksum(input) {
        Some(pair) => {
            proof {
                lemma_computed_check_digit_in_range(input@);
            }
            pair.0 == pair.1
        },
        None => false,
    }
}

/// The computed check digit of a well-formed candidate is a decimal digit.
pub proof fn lemma_computed_check_digit_in_range(s: Seq<char>)
    requires
        valid_isin_format(s),
    ensures
        0 <= computed_check_digit(s) <= 9,
{
}

/// An input of the wrong length is rejected: the checksum computation
/// reports a malformed input and validation fails.
pub proof fn lemma_wrong_length_rejected(s: Seq<char>)
    requires
        s.len() != 12,
    ensures
        spec_compute_isin_checksum(s) is None,
        !spec_validate_isin(s),
{
}

/// A 12-character input with a character outside the ISIN alphabet in its
/// first eleven positions, a non-letter in its country code, or a non-digit
/// in its final position is rejected.
pub proof fn lemma_malformed_input_rejected(s: Seq<char>)
    requires
        s.len() == 12,
        (exists|i: int| 0 <= i < 11 && !is_isin_char(s[i])) || !is_upper_letter(s[0])
            || !is_upper_letter(s[1]) || !is_decimal_digit(s[11]),
    ensures
        spec_compute_isin_checksum(s) is None,
        !spec_validate_isin(s),
{
}

/// Validation succeeds exactly when the checksum computation succeeds and
/// returns two equal digits: on well-formed inputs the equality of the two
/// returned digits is necessary and sufficient for validity, and a malformed
/// input validates as false.
pub proof fn lemma_validate_characterization(s: Seq<char>)
    ensures
        spec_validate_isin(s) <==> match spec_compute_isin_checksum(s) {
            Some((computed, supplied)) => computed == supplied,
            None => false,
        },
{
    if valid_isin_format(s) {
        lemma_computed_check_digit_in_range(s);
    }
}

} // verus!
