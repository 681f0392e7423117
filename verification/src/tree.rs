use vstd::prelude::*;

verus! {

/// The grouping delimiter kinds a host tokenizer distinguishes: parenthesis,
/// brace, bracket, or none (an implicit grouping with no printed bracket).
#[derive(Debug, Clone, Copy, PartialEq, Eq)]
pub enum GroupDelimiter {
    Parenthesis,
    Brace,
    Bracket,
    NoDelim,
}

/// The text of a literal leaf, beside the 64-bit floating reading of that
/// text, held as the raw bit pattern of the value, or `None` where the text
/// does not read as a floating value. Floating-point values cannot be
/// computed inside this crate, so the reading is supplied at the boundary
/// where the leaf is built.
#[derive(Debug)]
pub struct LiteralText {
    pub text: String,
    pub float_bits: Option<u64>,
}

/// This crate's own form of the host's nested token tree: each node is a
/// grouping over an inner sequence, an identifier, a single punctuation
/// character, or a literal; each carries the host's opaque span.
#[derive(Debug)]
pub enum TreeNode {
    Group(GroupDelimiter, proc_macro2::Span, Vec<TreeNode>),
    Ident(String, proc_macro2::Span),
    Punct(char, proc_macro2::Span),
    Literal(LiteralText, proc_macro2::Span),
}

} // verus!
