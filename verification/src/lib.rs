//! Compaction of a source-code symbol index into a hierarchical symbol graph.

use vstd::prelude::*;

pub mod adjacency;
pub mod anchor;
pub mod builder;
pub mod config;
pub mod enricher;
pub mod filefilter;
pub mod framework;
pub mod model;
pub mod semantic;
pub mod serializer;
pub mod sigfmt;
pub mod text;
pub mod uri;

verus! {

/// The number of tokens the `cl100k_base` byte-pair encoding assigns to a
/// text. Named, not defined: the encoding is a pure function of the text.
pub uninterp spec fn token_count_of(text: Seq<char>) -> nat;

/// Relies on `tiktoken_rs::cl100k_base` and `tiktoken_rs::CoreBPE::encode`
/// (with the encoding's own special-token set allowed): the token count is a
/// pure function of the text; a failure to load the encoding or to encode
/// counts zero, so the call never panics.
#[verifier::external_body]
pub fn count_tokens(text: &str) -> (r: usize)
    ensures
        r as nat == token_count_of(text@),
{
    match tiktoken_rs::cl100k_base() {
        Ok(bpe) => {
            let allowed = bpe.special_tokens();
            match bpe.encode(text, &allowed) {
                Ok((tokens, _)) => tokens.len(),
                Err(_) => 0,
            }
        },
        Err(_) => 0,
    }
}

} // verus!
