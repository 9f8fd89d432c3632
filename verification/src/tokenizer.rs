//! Token counting against a configured budget.  Counts are advisory
//! reporting only: they never block any operation of the core.

use vstd::prelude::*;

use crate::text;

verus! {

/// The number of tokens the fixed `cl100k_base` byte-pair encoding splits
/// a text into: a function of the characters alone.
pub uninterp spec fn token_count_of(s: Seq<char>) -> nat;

/// Relies on `tiktoken_rs::cl100k_base_singleton` and
/// `tiktoken_rs::CoreBPE::encode_ordinary`: the number of tokens the fixed
/// `cl100k_base` encoding splits `text` into, a deterministic function of
/// the text alone (no special-token handling).
#[verifier::external_body]
pub fn count_tokens(text: &str) -> (r: usize)
    ensures
        r == token_count_of(text@),
{
    tiktoken_rs::cl100k_base_singleton().encode_ordinary(text).len()
}

/// Counts the tokens of the given lines joined with newlines.
pub fn count_tokens_in_lines(lines: &[String]) -> (r: usize)
    ensures
        r == token_count_of(text::join_lines(lines.deep_view())),
{
    let joined = text::join_lines_exec(lines);
    count_tokens(joined.as_str())
}

/// A token count as reported to the user, with the right plural.
pub open spec fn spec_format_token_count(count: nat) -> Seq<char> {
    if count == 1 {
        seq!['1', ' ', 't', 'o', 'k', 'e', 'n']
    } else {
        text::dec_digits(count) + seq![' ', 't', 'o', 'k', 'e', 'n', 's']
    }
}

/// Formats a token count for display.
pub fn format_token_count(count: usize) -> (r: String)
    ensures
        r@ == spec_format_token_count(count as nat),
{
    let mut v: Vec<char> = Vec::new();
    if count == 1 {
        v.push('1');
        v.push(' ');
        v.push('t');
        v.push('o');
        v.push('k');
        v.push('e');
        v.push('n');
        assert(v@ =~= spec_format_token_count(count as nat));
    } else {
        text::push_dec_digits(count as u64, &mut v);
        v.push(' ');
        v.push('t');
        v.push('o');
        v.push('k');
        v.push('e');
        v.push('n');
        v.push('s');
        assert(v@ =~= spec_format_token_count(count as nat));
    }
    text::string_of(&v)
}

} // verus!
