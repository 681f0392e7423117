//! Reclassifies a host macro tokenizer's nested token tree into a flat,
//! strongly categorized sequence of spanned tokens, and offers a peekable,
//! single-pass iteration interface over that sequence.

use vstd::prelude::*;

pub mod classify;
pub mod host;
pub mod laws;
pub mod lits;
pub mod stream;
pub mod token;
pub mod tree;

verus! {

/// The host tokenizer's span type, declared opaque: a source-location
/// handle that is carried through and never inspected.
#[verifier::external_type_specification]
#[verifier::external_body]
pub struct ExSpan(proc_macro2::Span);

pub use crate::classify::ClassifyError;
pub use crate::stream::TokenStream;
pub use crate::token::SpannedToken;
pub use crate::token::SpannedTokenV;
pub use crate::token::Token;
pub use crate::token::TokenV;
pub use crate::tree::GroupDelimiter;
pub use crate::tree::LiteralText;
pub use crate::tree::TreeNode;

} // verus!
