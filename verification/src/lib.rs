//! A source-code tokenizer's supporting library.
//!
//! The substance of the crate is [`linked_list`]: a verified, generic,
//! singly-linked ordered container intended as the backing store for a
//! token stream. The token-side types here are plain data consumed by an
//! unverified front end.

use vstd::prelude::*;

pub mod linked_list;

verus! {

/// A language tag for source text handed to the tokenizer.
#[derive(Clone, Copy, PartialEq, Eq, Structural, Debug)]
pub enum Language {
    Rust,
    Unknown,
}

/// The lexical class of a classified token.
#[derive(Clone, Copy)]
pub enum TokenType {
    Punctuation,
    Identifier,
    Keyword,
    Number,
    String,
    Comment,
    Class,
    /// A custom class under its own name.
    Other(&'static str),
}

/// One piece of source text after classification: either plain text the
/// tokenizer left alone, or a token with its lexical class and the slice
/// of source it covers.
pub enum Token<'a> {
    Text(std::borrow::Cow<'a, &'a str>),
    Token { token_type: TokenType, content: &'a str },
}

/// What `str::to_lowercase` returns for a given character sequence; a
/// function of the input characters alone.
pub uninterp spec fn lower_of(s: Seq<char>) -> Seq<char>;

/// Relies on `str::to_lowercase`: the Unicode lowercase mapping of the
/// input, determined by the input characters alone.
#[verifier::external_body]
fn to_lowercase(s: &str) -> (r: String)
    ensures
        r@ == lower_of(s@),
{
    s.to_lowercase()
}

impl Language {
    /// The language tag named by `name`, compared case-insensitively: an
    /// input that lowercases to "rs" or "rust" means Rust, anything else
    /// is Unknown.
    pub fn from_name(name: &str) -> (lang: Language)
        ensures
            lang == (if lower_of(name@) == "rs"@ || lower_of(name@) == "rust"@ {
                Language::Rust
            } else {
                Language::Unknown
            }),
    {
        let lower = to_lowercase(name);
        let rs: String = "rs".to_owned();
        let rust: String = "rust".to_owned();
        if lower == rs || lower == rust {
            Language::Rust
        } else {
            Language::Unknown
        }
    }
}

impl core::str::FromStr for Language {
    type Err = ();

    /// Detection never fails: an unrecognized name is `Unknown`.
    fn from_str(s: &str) -> Result<Self, Self::Err> {
        Ok(Language::from_name(s))
    }
}

} // verus!
