//! Block-range negotiation: reading a provider's suggested range out of the
//! text of an error.
//!
//! Some providers reject a log query as too broad and name, inside the error
//! message, a range that they would accept. The search for that sentence is
//! done by the `regex` crate and the digits are read by `ethers`; everything
//! around the two calls is verified here.

use std::str::FromStr;
use vstd::prelude::*;
use vstd::string::StrSliceExecFns;
use crate::types::{BlockRange, ProviderError};

verus! {

/// The sentence that carries a suggested range, with the two block numbers as
/// capture groups 1 and 2.
pub const RANGE_HINT_PATTERN: &'static str =
    r"this block range should work: \[(0x[0-9a-fA-F]+),\s*(0x[0-9a-fA-F]+)]";

/// The text that capture group number `group` of `pattern` holds in the
/// leftmost match of `pattern` within `haystack`, as the `regex` crate finds
/// it; `None` where the pattern does not compile, nothing matches, or the
/// group took no part in the match.
pub uninterp spec fn regex_capture(pattern: Seq<char>, haystack: Seq<char>, group: nat) -> Option<
    Seq<char>,
>;

/// Calls `regex::Regex::new`, `Regex::captures` and `Captures::get`.
///
/// Trusted: the result is the text of the requested capture group in the
/// first match, which depends on the pattern, the haystack and the group
/// number alone. Nothing is claimed about which text that is.
#[verifier::external_body]
fn capture_group(pattern: &str, haystack: &str, group: usize) -> (r: Option<String>)
    ensures
        text_of(r) == regex_capture(pattern@, haystack@, group as nat),
{
    let re = regex::Regex::new(pattern).ok()?;
    let caps = re.captures(haystack)?;
    Some(caps.get(group)?.as_str().to_owned())
}

/// The characters of an optional string.
pub open spec fn text_of(s: Option<String>) -> Option<Seq<char>> {
    match s {
        Some(t) => Some(t@),
        None => None,
    }
}

/// `c` is one of `0-9`, `a-f`, `A-F`.
pub open spec fn is_hex_digit(c: char) -> bool {
    ('0' <= c && c <= '9') || ('a' <= c && c <= 'f') || ('A' <= c && c <= 'F')
}

/// The number that a hexadecimal digit stands for.
pub open spec fn hex_digit_value(c: char) -> nat {
    if '0' <= c && c <= '9' {
        (c as nat - '0' as nat) as nat
    } else if 'a' <= c && c <= 'f' {
        (c as nat - 'a' as nat + 10) as nat
    } else {
        (c as nat - 'A' as nat + 10) as nat
    }
}

/// The number that a string of hexadecimal digits stands for, most
/// significant digit first.
pub open spec fn hex_value(digits: Seq<char>) -> nat
    decreases digits.len(),
{
    if digits.len() == 0 {
        0
    } else {
        16 * hex_value(digits.drop_last()) + hex_digit_value(digits.last())
    }
}

/// `text` is `0x` followed by one to sixteen hexadecimal digits: a block
/// number that fits in 64 bits.
pub open spec fn is_block_number_literal(text: Seq<char>) -> bool {
    &&& 3 <= text.len() <= 18
    &&& text[0] == '0'
    &&& text[1] == 'x'
    &&& forall|i: int| 2 <= i < text.len() ==> is_hex_digit(#[trigger] text[i])
}

/// The block number that `text` denotes, if it is a block number literal.
pub open spec fn block_number_of(text: Seq<char>) -> Option<u64> {
    if is_block_number_literal(text) {
        Some(hex_value(text.skip(2)) as u64)
    } else {
        None
    }
}

/// At most sixteen hexadecimal digits denote a number below 2^64.
pub proof fn lemma_hex_value_bound(digits: Seq<char>)
    requires
        digits.len() <= 16,
        forall|i: int| 0 <= i < digits.len() ==> is_hex_digit(#[trigger] digits[i]),
    ensures
        hex_value(digits) < pow16(digits.len()),
        hex_value(digits) <= u64::MAX,
    decreases digits.len(),
{
    reveal_with_fuel(pow16, 17);
    if digits.len() > 0 {
        let init = digits.drop_last();
        assert forall|i: int| 0 <= i < init.len() implies is_hex_digit(#[trigger] init[i]) by {
            assert(init[i] == digits[i]);
        }
        lemma_hex_value_bound(init);
        assert(is_hex_digit(digits[digits.len() - 1]));
        assert(hex_digit_value(digits.last()) <= 15);
        assert(pow16(digits.len()) == 16 * pow16(init.len()));
    }
    lemma_pow16_monotonic(digits.len());
}

/// Sixteen to the power `n`.
pub open spec fn pow16(n: nat) -> nat
    decreases n,
{
    if n == 0 {
        1
    } else {
        16 * pow16((n - 1) as nat)
    }
}

proof fn lemma_pow16_monotonic(n: nat)
    requires
        n <= 16,
    ensures
        pow16(n) <= 0x1_0000_0000_0000_0000,
    decreases 16 - n,
{
    reveal_with_fuel(pow16, 17);
    if n < 16 {
        lemma_pow16_monotonic(n + 1);
    } else {
        assert(pow16(8) == 0x1_0000_0000);
        assert(pow16(16) == 0x1_0000_0000_0000_0000);
    }
}

/// Calls `ethers::types::BlockNumber::from_str`.
///
/// Trusted: on `0x` followed by one to sixteen hexadecimal digits the parser
/// returns the number that the digits denote in base sixteen.
#[verifier::external_body]
fn parse_block_number(text: &str) -> (r: Option<u64>)
    requires
        is_block_number_literal(text@),
    ensures
        r == Some(hex_value(text@.skip(2)) as u64),
{
    match ethers::types::BlockNumber::from_str(text) {
        Ok(ethers::types::BlockNumber::Number(n)) => Some(n.as_u64()),
        _ => None,
    }
}

fn hex_digit(c: char) -> (b: bool)
    ensures
        b == is_hex_digit(c),
{
    ('0' <= c && c <= '9') || ('a' <= c && c <= 'f') || ('A' <= c && c <= 'F')
}

/// Reads a block number written as `0x` and one to sixteen hexadecimal
/// digits; any other text is no block number.
pub fn block_number_from_text(text: &str) -> (r: Option<u64>)
    ensures
        r == block_number_of(text@),
        r matches Some(n) ==> n == hex_value(text@.skip(2)),
{
    let n: usize = text.unicode_len();
    if n < 3 || n > 18 {
        return None;
    }
    if text.get_char(0) != '0' || text.get_char(1) != 'x' {
        return None;
    }
    let mut i: usize = 2;
    while i < n
        invariant
            2 <= i <= n,
            n == text@.len(),
            forall|j: int| 2 <= j < i ==> is_hex_digit(#[trigger] text@[j]),
        decreases n - i,
    {
        if !hex_digit(text.get_char(i)) {
            return None;
        }
        i = i + 1;
    }
    proof {
        let digits = text@.skip(2);
        assert forall|j: int| 0 <= j < digits.len() implies is_hex_digit(#[trigger] digits[j]) by {
            assert(digits[j] == text@[j + 2]);
        }
        lemma_hex_value_bound(digits);
    }
    parse_block_number(text)
}

/// The range that two captured texts denote: both must be present and both
/// must be block number literals.
pub open spec fn range_hint(start: Option<Seq<char>>, end: Option<Seq<char>>) -> Option<
    BlockRange,
> {
    match (start, end) {
        (Some(a), Some(b)) => match (block_number_of(a), block_number_of(b)) {
            (Some(from), Some(to)) => Some(BlockRange { from: from, to: to }),
            _ => None,
        },
        _ => None,
    }
}

/// Turns the two captured texts of a range hint into a block range.
pub fn range_from_captures(start: Option<String>, end: Option<String>) -> (r: Option<BlockRange>)
    ensures
        r == range_hint(text_of(start), text_of(end)),
{
    match (start, end) {
        (Some(a), Some(b)) => {
            match (block_number_from_text(a.as_str()), block_number_from_text(b.as_str())) {
                (Some(from), Some(to)) => Some(BlockRange { from: from, to: to }),
                _ => None,
            }
        },
        _ => None,
    }
}

/// The range that the provider suggests in `message`, if it suggests one.
pub open spec fn negotiated_range(message: Seq<char>) -> Option<BlockRange> {
    range_hint(
        regex_capture(RANGE_HINT_PATTERN@, message, 1),
        regex_capture(RANGE_HINT_PATTERN@, message, 2),
    )
}

/// Decides whether a failed query can be retried over a narrower range:
/// searches the error's message for the provider's suggestion and returns
/// the suggested range, or `None` when the message holds no usable one.
pub fn retry_with_block_range(error: &ProviderError) -> (r: Option<BlockRange>)
    ensures
        r == negotiated_range(error.message@),
{
    let start = capture_group(RANGE_HINT_PATTERN, error.message.as_str(), 1);
    let end = capture_group(RANGE_HINT_PATTERN, error.message.as_str(), 2);
    range_from_captures(start, end)
}

} // verus!
