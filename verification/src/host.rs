//! The boundary to the host tokenizer: its nested token tree is carried
//! over, node for node, into this crate's own tree form. Everything past
//! this boundary is verified against that form.

use vstd::prelude::*;

use crate::tree::GroupDelimiter;
use crate::tree::LiteralText;
use crate::tree::TreeNode;

verus! {

/// The host tokenizer's delimiter kind, declared opaque; it is read only
/// inside the trusted conversion below.
#[verifier::external_type_specification]
#[verifier::external_body]
pub struct ExDelimiter(proc_macro2::Delimiter);

/// The host tokenizer's tree node, declared opaque; it is read only inside
/// the trusted conversion below.
#[verifier::external_type_specification]
#[verifier::external_body]
pub struct ExHostTree(proc_macro2::TokenTree);

/// Relies on proc_macro2::Delimiter: each host delimiter kind is carried to
/// the matching kind of this crate, one for one.
#[verifier::external_body]
fn host_delimiter(d: proc_macro2::Delimiter) -> GroupDelimiter {
    match d {
        proc_macro2::Delimiter::Parenthesis => GroupDelimiter::Parenthesis,
        proc_macro2::Delimiter::Brace => GroupDelimiter::Brace,
        proc_macro2::Delimiter::Bracket => GroupDelimiter::Bracket,
        proc_macro2::Delimiter::None => GroupDelimiter::NoDelim,
    }
}

/// Relies on proc_macro2's accessors Group::delimiter, Group::span,
/// Group::stream (whose iterator yields the inner trees in order),
/// Ident::to_string, Ident::span, Punct::as_char, Punct::span,
/// Literal::to_string and Literal::span: each host node is carried over one
/// for one; a literal's text is handed to `float_reader`, and what it
/// returns is stored beside the text.
#[verifier::external_body]
fn host_tree<F: Fn(&str) -> Option<u64>>(t: proc_macro2::TokenTree, float_reader: &F) -> TreeNode {
    match t {
        proc_macro2::TokenTree::Group(g) => TreeNode::Group(
            host_delimiter(g.delimiter()),
            g.span(),
            host_trees(g.stream().into_iter().collect(), float_reader),
        ),
        proc_macro2::TokenTree::Ident(i) => TreeNode::Ident(i.to_string(), i.span()),
        proc_macro2::TokenTree::Punct(p) => TreeNode::Punct(p.as_char(), p.span()),
        proc_macro2::TokenTree::Literal(l) => {
            let text = l.to_string();
            let float_bits = float_reader(&text);
            TreeNode::Literal(LiteralText { text, float_bits }, l.span())
        },
    }
}

/// Carries a sequence of host trees over the boundary, in their original
/// order, each by `host_tree`.
#[verifier::external_body]
pub(crate) fn host_trees<F: Fn(&str) -> Option<u64>>(
    ts: Vec<proc_macro2::TokenTree>,
    float_reader: &F,
) -> Vec<TreeNode> {
    ts.into_iter().map(|t| host_tree(t, float_reader)).collect()
}

} // verus!
