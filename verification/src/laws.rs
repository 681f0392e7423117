//! The laws the classification obeys, stated and proved over the spec
//! functions that the public contracts speak of.

use vstd::prelude::*;

use crate::classify::classify_tree;
use crate::classify::classify_trees;
use crate::classify::punct_token;
use crate::lits::byte_char_of;
use crate::lits::char_of;
use crate::lits::dec_i128_of;
use crate::lits::hex_i128_of;
use crate::lits::hit_of_float;
use crate::lits::hit_of_int;
use crate::lits::lit_hits;
use crate::lits::lit_tokens;
use crate::lits::byte_string_inner_of;
use crate::lits::string_inner_of;
use crate::token::SpannedTokenV;
use crate::token::TokenV;
use crate::tree::GroupDelimiter;
use crate::tree::LiteralText;
use crate::tree::TreeNode;

verus! {

/// A supported punctuation character classifies to exactly one token, of
/// the matching kind, and never to the catch-all literal kind.
pub proof fn lemma_punct_single(c: char, sp: proc_macro2::Span)
    requires
        punct_token(c) is Some,
    ensures
        classify_tree(TreeNode::Punct(c, sp)) == Some(
            seq![SpannedTokenV { token: punct_token(c)->0, span: sp }],
        ),
        !((punct_token(c)->0) is Literal),
{
}

/// A parenthesized grouping flattens to an open-parenthesis marker, the
/// flattened inner sequence, and a close-parenthesis marker, both markers
/// carrying the grouping's own span.
pub proof fn lemma_group_parenthesis(sp: proc_macro2::Span, inner: Vec<TreeNode>)
    requires
        classify_trees(inner@) is Some,
    ensures
        classify_tree(TreeNode::Group(GroupDelimiter::Parenthesis, sp, inner)) == Some(
            seq![SpannedTokenV { token: TokenV::OpenParen, span: sp }]
                + (classify_trees(inner@)->0) + seq![
                SpannedTokenV { token: TokenV::CloseParen, span: sp },
            ],
        ),
{
}

/// A literal whose text reads as a decimal integer yields that integer as
/// its first token, whatever else the other readings add.
pub proof fn lemma_decimal_integer(text: Seq<char>, float_bits: Option<u64>)
    requires
        dec_i128_of(text) is Some,
    ensures
        lit_tokens(text, float_bits).len() >= 1,
        lit_tokens(text, float_bits)[0] == TokenV::Integer(dec_i128_of(text)->0),
{
    assert(hit_of_int(dec_i128_of(text)).len() == 1);
    assert(lit_hits(text, float_bits)[0] == hit_of_int(dec_i128_of(text))[0]);
}

/// A literal with a hexadecimal reading yields that integer, in addition to
/// whatever other readings matched on the same text.
pub proof fn lemma_hex_integer(text: Seq<char>, float_bits: Option<u64>)
    requires
        hex_i128_of(text) is Some,
    ensures
        lit_tokens(text, float_bits).contains(TokenV::Integer(hex_i128_of(text)->0)),
{
    let i = hit_of_int(dec_i128_of(text)).len() + hit_of_float(float_bits).len();
    assert(lit_hits(text, float_bits)[i as int] == TokenV::Integer(hex_i128_of(text)->0));
    assert(lit_tokens(text, float_bits)[i as int] == TokenV::Integer(hex_i128_of(text)->0));
}

/// A double-quoted literal yields a string token holding what stands inside
/// the quotes, and never a character or byte-character token.
pub proof fn lemma_string_literal(text: Seq<char>, float_bits: Option<u64>)
    requires
        string_inner_of(text) is Some,
    ensures
        lit_tokens(text, float_bits).contains(TokenV::String(string_inner_of(text)->0)),
        forall|i: int|
            0 <= i < lit_tokens(text, float_bits).len() ==> !((
            #[trigger] lit_tokens(text, float_bits)[i]) is Char) && !(lit_tokens(
                text,
                float_bits,
            )[i] is ByteChar),
{
    assert(text[0] == '"');
    assert(byte_char_of(text) is None);
    assert(char_of(text) is None);
    let i = hit_of_int(dec_i128_of(text)).len() + hit_of_float(float_bits).len() + hit_of_int(
        hex_i128_of(text),
    ).len();
    assert(lit_hits(text, float_bits)[i as int] == TokenV::String(string_inner_of(text)->0));
    assert(lit_tokens(text, float_bits)[i as int] == TokenV::String(string_inner_of(text)->0));
}

/// A literal that fails every reading yields exactly one catch-all token
/// holding the raw text unchanged.
pub proof fn lemma_unrecognized_literal(text: Seq<char>, float_bits: Option<u64>)
    requires
        dec_i128_of(text) is None,
        float_bits is None,
        hex_i128_of(text) is None,
        byte_char_of(text) is None,
        char_of(text) is None,
        string_inner_of(text) is None,
        byte_string_inner_of(text) is None,
    ensures
        lit_tokens(text, float_bits) == seq![TokenV::Literal(text)],
{
    assert(lit_hits(text, float_bits).len() == 0);
}

/// Classification never fails for a literal: whatever its text, it yields
/// at least one token.
pub proof fn lemma_literal_never_fails(lt: LiteralText, sp: proc_macro2::Span)
    ensures
        classify_tree(TreeNode::Literal(lt, sp)) is Some,
        (classify_tree(TreeNode::Literal(lt, sp))->0).len() >= 1,
{
    if lit_hits(lt.text@, lt.float_bits).len() == 0 {
        assert(lit_tokens(lt.text@, lt.float_bits).len() == 1);
    }
}

} // verus!
