//! Thin trusted layer over the `tiktoken-rs` tokenizer.  Only the `cl100k`
//! encoding is ever constructed, so the token count of a text under it is a
//! function of the text alone and is given a name the batcher's contracts
//! can use.

use vstd::prelude::*;

verus! {

#[verifier::external_type_specification]
#[verifier::external_body]
pub struct ExCoreBPE(tiktoken_rs::CoreBPE);

/// The number of tokens `tiktoken-rs` assigns to a text under the `cl100k`
/// encoding.
pub uninterp spec fn cl100k_token_count(s: Seq<char>) -> nat;

/// A byte-pair tokenizer; only the `cl100k` encoding can be constructed.
pub struct Tokenizer {
    bpe: tiktoken_rs::CoreBPE,
}

impl Tokenizer {
    /// Relies on `tiktoken_rs::cl100k_base`: builds the `cl100k` encoding
    /// from the crate's embedded data; fails only if that data cannot be
    /// loaded.
    #[verifier::external_body]
    pub fn cl100k() -> (r: Option<Tokenizer>) {
        tiktoken_rs::cl100k_base().ok().map(|bpe| Tokenizer { bpe })
    }

    /// Relies on `CoreBPE::encode_with_special_tokens`: for a fixed
    /// encoding the token split depends on the text alone.  The call does
    /// not fail: it unwraps an internal regex result whose error path is
    /// unreachable for the `cl100k` special-token set.
    #[verifier::external_body]
    pub fn count(&self, s: &str) -> (r: usize)
        ensures
            r == cl100k_token_count(s@),
    {
        self.bpe.encode_with_special_tokens(s).len()
    }
}

} // verus!
