//! Tokenization port. Budgets are counted in tokens; before a model tokenizer
//! is loaded, four characters count as one token.
use vstd::prelude::*;

use crate::error::{BrainError, BrainErrorView};
use crate::text::{chars_of, slice_of};

verus! {

/// Counts and truncates text by model tokens.
pub trait TokenizerPort {
    /// The token count of a text.
    spec fn tokens(&self, text: Seq<char>) -> nat;

    /// The longest part of a text's front that the port keeps for a budget.
    spec fn front(&self, text: Seq<char>, max_tokens: nat) -> Seq<char>;

    /// The model's identifier.
    spec fn name(&self) -> Seq<char>;

    /// Exact token count for `text`.
    fn count(&self, text: &str) -> (n: usize)
        ensures
            n == self.tokens(text@),
    ;

    /// Truncate `text` to at most `max_tokens` tokens, preserving the prefix.
    fn truncate_to(&self, text: &str, max_tokens: usize) -> (r: String)
        ensures
            r@ == self.front(text@, max_tokens as nat),
    ;

    /// Model identifier.
    fn id(&self) -> (r: &str)
        ensures
            r@ == self.name(),
    ;
}

/// Fallback tokenizer: four characters to the token.
#[derive(Debug, Clone, Copy)]
pub struct CharTokenizer;

impl Default for CharTokenizer {
    fn default() -> (r: Self) {
        CharTokenizer
    }
}

impl TokenizerPort for CharTokenizer {
    /// One token for each four characters, and at least one.
    open spec fn tokens(&self, text: Seq<char>) -> nat {
        if text.len() < 4 {
            1
        } else {
            text.len() / 4
        }
    }

    /// The first four characters per token.
    open spec fn front(&self, text: Seq<char>, max_tokens: nat) -> Seq<char> {
        if 4 * max_tokens >= text.len() {
            text
        } else {
            text.take((4 * max_tokens) as int)
        }
    }

    open spec fn name(&self) -> Seq<char> {
        "char-fallback"@
    }

    fn count(&self, text: &str) -> (n: usize) {
        let n: usize = chars_of(text).len() / 4;
        if n < 1 {
            1
        } else {
            n
        }
    }

    fn truncate_to(&self, text: &str, max_tokens: usize) -> (r: String) {
        let chars = chars_of(text);
        if max_tokens >= chars.len() / 4 + 1 {
            assert(4 * max_tokens >= text@.len());
            return text.to_owned();
        }
        let max_chars: usize = 4 * max_tokens;
        let end: usize = if max_chars < chars.len() {
            max_chars
        } else {
            chars.len()
        };
        let r = slice_of(&chars, 0, end);
        assert(text@.subrange(0, end as int) =~= text@.take(end as int));
        assert(end == text@.len() ==> text@.take(end as int) =~= text@);
        r
    }

    fn id(&self) -> (r: &str) {
        "char-fallback"
    }
}

/// Error helper for tokenizers.
pub fn tokenizer_err(msg: &str) -> (r: BrainError)
    ensures
        r.deep_view() == BrainErrorView::Config(msg@),
{
    BrainError::Config(msg.to_owned())
}

/// A text cut to a budget of at least one token fits the budget, and is a
/// front of the text.
pub proof fn law_truncation_fits(t: CharTokenizer, text: Seq<char>, max_tokens: nat)
    requires
        max_tokens >= 1,
    ensures
        t.tokens(t.front(text, max_tokens)) <= max_tokens,
        t.front(text, max_tokens).is_prefix_of(text),
{
}

} // verus!
