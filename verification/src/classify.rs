//! The recursive classification pass: flattens the nested token tree into a
//! sequence of spanned tokens, materializing grouping boundaries as explicit
//! open and close markers and reading literals by the ordered heuristics.

use vstd::prelude::*;

use crate::token::SpannedToken;
use crate::token::SpannedTokenV;
use crate::token::Token;
use crate::token::TokenV;
use crate::tree::GroupDelimiter;
use crate::tree::TreeNode;
use crate::lits::lit_tokens;
use crate::lits::literal_tokens;
use crate::lits::toks_view;

verus! {

/// The one failure a classification can meet: a punctuation character
/// outside the supported set, a contract breach by the upstream tokenizer
/// that aborts the whole pass.
#[derive(Debug, PartialEq, Eq, Clone, Copy)]
pub enum ClassifyError {
    UnsupportedPunct,
}

/// The open marker a grouping's delimiter flattens to.
pub open spec fn open_token(d: GroupDelimiter) -> TokenV {
    match d {
        GroupDelimiter::Parenthesis => TokenV::OpenParen,
        GroupDelimiter::Brace => TokenV::OpenBrace,
        GroupDelimiter::Bracket => TokenV::OpenBracket,
        GroupDelimiter::NoDelim => TokenV::NoDelim,
    }
}

/// The close marker a grouping's delimiter flattens to.
pub open spec fn close_token(d: GroupDelimiter) -> TokenV {
    match d {
        GroupDelimiter::Parenthesis => TokenV::CloseParen,
        GroupDelimiter::Brace => TokenV::CloseBrace,
        GroupDelimiter::Bracket => TokenV::CloseBracket,
        GroupDelimiter::NoDelim => TokenV::NoDelim,
    }
}

/// The token kind of a supported punctuation character, and nothing for a
/// character outside the supported set.
pub open spec fn punct_token(c: char) -> Option<TokenV> {
    if c == '+' {
        Some(TokenV::Plus)
    } else if c == '-' {
        Some(TokenV::Minus)
    } else if c == '/' {
        Some(TokenV::Slash)
    } else if c == '*' {
        Some(TokenV::Star)
    } else if c == '@' {
        Some(TokenV::At)
    } else if c == '&' {
        Some(TokenV::Ampersand)
    } else if c == ';' {
        Some(TokenV::Semi)
    } else if c == ':' {
        Some(TokenV::Colon)
    } else if c == '>' {
        Some(TokenV::GreaterThan)
    } else if c == '<' {
        Some(TokenV::LessThan)
    } else if c == '{' {
        Some(TokenV::OpenBrace)
    } else if c == '}' {
        Some(TokenV::CloseBrace)
    } else if c == '[' {
        Some(TokenV::OpenBracket)
    } else if c == ']' {
        Some(TokenV::CloseBracket)
    } else if c == '(' {
        Some(TokenV::OpenParen)
    } else if c == ')' {
        Some(TokenV::CloseParen)
    } else if c == ',' {
        Some(TokenV::Comma)
    } else if c == '\'' {
        Some(TokenV::SingleQuote)
    } else if c == '"' {
        Some(TokenV::DoubleQuote)
    } else if c == '!' {
        Some(TokenV::Bang)
    } else if c == '?' {
        Some(TokenV::Question)
    } else if c == '.' {
        Some(TokenV::Dot)
    } else if c == '~' {
        Some(TokenV::Tilde)
    } else if c == '%' {
        Some(TokenV::Percent)
    } else if c == '^' {
        Some(TokenV::Caret)
    } else if c == '|' {
        Some(TokenV::Pipe)
    } else if c == '#' {
        Some(TokenV::Hash)
    } else if c == '$' {
        Some(TokenV::Dollar)
    } else if c == '=' {
        Some(TokenV::Equal)
    } else {
        None
    }
}

/// The model of a spanned-token sequence.
pub open spec fn stoks_view(s: Seq<SpannedToken>) -> Seq<SpannedTokenV> {
    s.map_values(|x: SpannedToken| x@)
}

/// The tokens of a sequence, each paired with one span.
pub open spec fn spanned_seq(ts: Seq<TokenV>, sp: proc_macro2::Span) -> Seq<SpannedTokenV> {
    ts.map_values(|tv: TokenV| SpannedTokenV { token: tv, span: sp })
}

/// What one tree node classifies to: the flattened spanned tokens, or
/// nothing where an unsupported punctuation character stands anywhere in it.
pub open spec fn classify_tree(t: TreeNode) -> Option<Seq<SpannedTokenV>>
    decreases t,
{
    match t {
        TreeNode::Group(d, sp, ch) => {
            if classify_trees(ch@) is Some {
                Some(
                    seq![SpannedTokenV { token: open_token(d), span: sp }]
                        + (classify_trees(ch@)->0) + seq![
                        SpannedTokenV { token: close_token(d), span: sp },
                    ],
                )
            } else {
                None
            }
        },
        TreeNode::Ident(text, sp) => Some(
            seq![SpannedTokenV { token: TokenV::Ident(text@), span: sp }],
        ),
        TreeNode::Punct(c, sp) => {
            if punct_token(c) is Some {
                Some(seq![SpannedTokenV { token: punct_token(c)->0, span: sp }])
            } else {
                None
            }
        },
        TreeNode::Literal(lt, sp) => Some(spanned_seq(lit_tokens(lt.text@, lt.float_bits), sp)),
    }
}

/// What a sequence of sibling trees classifies to, in order.
pub open spec fn classify_trees(ts: Seq<TreeNode>) -> Option<Seq<SpannedTokenV>>
    decreases ts,
{
    if ts.len() == 0 {
        Some(Seq::empty())
    } else {
        if classify_tree(ts[0]) is Some && classify_trees(ts.drop_first()) is Some {
            Some((classify_tree(ts[0])->0) + (classify_trees(ts.drop_first())->0))
        } else {
            None
        }
    }
}

/// Classification of siblings decomposes at the right end: appending one
/// more tree appends that tree's tokens, and fails exactly where either
/// part fails.
pub proof fn lemma_classify_trees_snoc(s: Seq<TreeNode>, x: TreeNode)
    ensures
        classify_trees(s) is Some && classify_tree(x) is Some ==> classify_trees(s.push(x))
            == Some((classify_trees(s)->0) + (classify_tree(x)->0)),
        classify_trees(s) is None || classify_tree(x) is None ==> classify_trees(s.push(x))
            is None,
    decreases s.len(),
{
    let p = s.push(x);
    assert(p.len() == s.len() + 1);
    if s.len() == 0 {
        assert(p[0] == x);
        assert(p.drop_first() =~= Seq::<TreeNode>::empty());
        if classify_tree(x) is Some {
            assert(classify_trees(Seq::<TreeNode>::empty()) == Some(
                Seq::<SpannedTokenV>::empty(),
            ));
            assert(classify_trees(p.drop_first()) == Some(Seq::<SpannedTokenV>::empty()));
            assert(classify_trees(p) == Some((classify_tree(x)->0) + Seq::<SpannedTokenV>::empty()));
            assert((classify_tree(x)->0) + Seq::<SpannedTokenV>::empty() =~= classify_tree(x)->0);
            assert(Seq::<SpannedTokenV>::empty() + (classify_tree(x)->0) =~= classify_tree(x)->0);
        }
    } else {
        assert(p[0] == s[0]);
        assert(p.drop_first() =~= s.drop_first().push(x));
        lemma_classify_trees_snoc(s.drop_first(), x);
        if classify_trees(s) is Some && classify_tree(x) is Some {
            let a = classify_tree(s[0])->0;
            let b = classify_trees(s.drop_first())->0;
            let c = classify_tree(x)->0;
            assert(a + (b + c) =~= (a + b) + c);
        }
    }
}

/// The exec form of `open_token`.
fn open_token_exec(d: GroupDelimiter) -> (r: Token)
    ensures
        r@ == open_token(d),
{
    match d {
        GroupDelimiter::Parenthesis => Token::OpenParen,
        GroupDelimiter::Brace => Token::OpenBrace,
        GroupDelimiter::Bracket => Token::OpenBracket,
        GroupDelimiter::NoDelim => Token::NoDelim,
    }
}

/// The exec form of `close_token`.
fn close_token_exec(d: GroupDelimiter) -> (r: Token)
    ensures
        r@ == close_token(d),
{
    match d {
        GroupDelimiter::Parenthesis => Token::CloseParen,
        GroupDelimiter::Brace => Token::CloseBrace,
        GroupDelimiter::Bracket => Token::CloseBracket,
        GroupDelimiter::NoDelim => Token::NoDelim,
    }
}

/// The exec form of `punct_token`: the token of a supported punctuation
/// character, or nothing for one outside the supported set.
pub fn punct_token_exec(c: char) -> (r: Option<Token>)
    ensures
        r matches Some(t) ==> punct_token(c) == Some(t@),
        r is None <==> punct_token(c) is None,
{
    if c == '+' {
        Some(Token::Plus)
    } else if c == '-' {
        Some(Token::Minus)
    } else if c == '/' {
        Some(Token::Slash)
    } else if c == '*' {
        Some(Token::Star)
    } else if c == '@' {
        Some(Token::At)
    } else if c == '&' {
        Some(Token::Ampersand)
    } else if c == ';' {
        Some(Token::Semi)
    } else if c == ':' {
        Some(Token::Colon)
    } else if c == '>' {
        Some(Token::GreaterThan)
    } else if c == '<' {
        Some(Token::LessThan)
    } else if c == '{' {
        Some(Token::OpenBrace)
    } else if c == '}' {
        Some(Token::CloseBrace)
    } else if c == '[' {
        Some(Token::OpenBracket)
    } else if c == ']' {
        Some(Token::CloseBracket)
    } else if c == '(' {
        Some(Token::OpenParen)
    } else if c == ')' {
        Some(Token::CloseParen)
    } else if c == ',' {
        Some(Token::Comma)
    } else if c == '\'' {
        Some(Token::SingleQuote)
    } else if c == '"' {
        Some(Token::DoubleQuote)
    } else if c == '!' {
        Some(Token::Bang)
    } else if c == '?' {
        Some(Token::Question)
    } else if c == '.' {
        Some(Token::Dot)
    } else if c == '~' {
        Some(Token::Tilde)
    } else if c == '%' {
        Some(Token::Percent)
    } else if c == '^' {
        Some(Token::Caret)
    } else if c == '|' {
        Some(Token::Pipe)
    } else if c == '#' {
        Some(Token::Hash)
    } else if c == '$' {
        Some(Token::Dollar)
    } else if c == '=' {
        Some(Token::Equal)
    } else {
        None
    }
}

/// Appends one token under the given span.
fn push_spanned(out: &mut Vec<SpannedToken>, t: Token, sp: proc_macro2::Span)
    ensures
        stoks_view(final(out)@) == stoks_view(old(out)@).push(
            SpannedTokenV { token: t@, span: sp },
        ),
{
    let ghost pre = out@;
    let ghost tv = t@;
    out.push(SpannedToken { token: t, span: sp });
    proof {
        assert(stoks_view(out@) =~= stoks_view(pre).push(SpannedTokenV { token: tv, span: sp }));
    }
}

/// Appends a literal's tokens, each under the literal's span.
fn push_with_span(out: &mut Vec<SpannedToken>, toks: &Vec<Token>, sp: proc_macro2::Span)
    ensures
        stoks_view(final(out)@) == stoks_view(old(out)@) + spanned_seq(toks_view(toks@), sp),
{
    let ghost pre = out@;
    let mut i: usize = 0;
    while i < toks.len()
        invariant
            i <= toks.len(),
            stoks_view(out@) == stoks_view(pre) + spanned_seq(
                toks_view(toks@.take(i as int)),
                sp,
            ),
        decreases toks.len() - i,
    {
        let tk = toks[i].clone();
        push_spanned(out, tk, sp);
        proof {
            assert(toks@.take(i + 1) =~= toks@.take(i as int).push(toks@[i as int]));
            assert(toks_view(toks@.take(i + 1)) =~= toks_view(toks@.take(i as int)).push(
                toks@[i as int]@,
            ));
            assert(spanned_seq(toks_view(toks@.take(i + 1)), sp) =~= spanned_seq(
                toks_view(toks@.take(i as int)),
                sp,
            ).push(SpannedTokenV { token: toks@[i as int]@, span: sp }));
            assert(stoks_view(out@) =~= stoks_view(pre) + spanned_seq(
                toks_view(toks@.take(i + 1)),
                sp,
            ));
        }
        i = i + 1;
    }
    proof {
        assert(toks@.take(toks.len() as int) =~= toks@);
    }
}

/// Flattens one tree node onto `out`, or reports the fatal failure; on
/// success, `out` has grown by exactly the node's classification.
fn classify_tree_into(t: &TreeNode, out: &mut Vec<SpannedToken>) -> (r: Result<
    (),
    ClassifyError,
>)
    ensures
        r is Ok ==> classify_tree(*t) is Some && stoks_view(final(out)@) == stoks_view(old(out)@)
            + (classify_tree(*t)->0),
        r is Err ==> classify_tree(*t) is None,
    decreases *t,
{
    let ghost pre = out@;
    match t {
        TreeNode::Group(d, sp, ch) => {
            let ot = open_token_exec(*d);
            push_spanned(out, ot, *sp);
            match classify_trees_into(ch, out) {
                Ok(()) => {},
                Err(e) => {
                    return Err(e);
                },
            }
            let ct = close_token_exec(*d);
            push_spanned(out, ct, *sp);
            proof {
                let a = seq![SpannedTokenV { token: open_token(*d), span: *sp }];
                let b = classify_trees(ch@)->0;
                let c = seq![SpannedTokenV { token: close_token(*d), span: *sp }];
                assert(stoks_view(pre).push(a[0]) =~= stoks_view(pre) + a);
                assert((stoks_view(pre) + a + b).push(c[0]) =~= stoks_view(pre) + (a + b + c));
            }
            Ok(())
        },
        TreeNode::Ident(text, sp) => {
            let tk = Token::Ident(text.clone());
            push_spanned(out, tk, *sp);
            proof {
                let a = seq![SpannedTokenV { token: TokenV::Ident(text@), span: *sp }];
                assert(stoks_view(pre).push(a[0]) =~= stoks_view(pre) + a);
            }
            Ok(())
        },
        TreeNode::Punct(c, sp) => {
            match punct_token_exec(*c) {
                Some(tk) => {
                    push_spanned(out, tk, *sp);
                    proof {
                        let a = seq![SpannedTokenV { token: punct_token(*c)->0, span: *sp }];
                        assert(stoks_view(pre).push(a[0]) =~= stoks_view(pre) + a);
                    }
                    Ok(())
                },
                None => Err(ClassifyError::UnsupportedPunct),
            }
        },
        TreeNode::Literal(lt, sp) => {
            let toks = literal_tokens(lt);
            push_with_span(out, &toks, *sp);
            Ok(())
        },
    }
}

/// Flattens a sequence of sibling trees onto `out`, in order.
fn classify_trees_into(ts: &Vec<TreeNode>, out: &mut Vec<SpannedToken>) -> (r: Result<
    (),
    ClassifyError,
>)
    ensures
        r is Ok ==> classify_trees(ts@) is Some && stoks_view(final(out)@) == stoks_view(
            old(out)@,
        ) + (classify_trees(ts@)->0),
        r is Err ==> classify_trees(ts@) is None,
    decreases ts,
{
    let ghost pre = out@;
    let mut i: usize = 0;
    proof {
        assert(ts@.take(0) =~= Seq::<TreeNode>::empty());
        assert(stoks_view(out@) =~= stoks_view(pre) + Seq::<SpannedTokenV>::empty());
    }
    while i < ts.len()
        invariant
            i <= ts.len(),
            pre == old(out)@,
            classify_trees(ts@.take(i as int)) is Some,
            stoks_view(out@) == stoks_view(pre) + (classify_trees(ts@.take(i as int))->0),
        decreases ts@.len() - i,
    {
        proof {
            assert(decreases_to!(ts@ => ts@[i as int]));
        }
        match classify_tree_into(&ts[i], out) {
            Ok(()) => {},
            Err(e) => {
                proof {
                    lemma_classify_trees_elem_none(ts@, i as int);
                }
                return Err(e);
            },
        }
        proof {
            lemma_classify_trees_snoc(ts@.take(i as int), ts@[i as int]);
            assert(ts@.take(i + 1) =~= ts@.take(i as int).push(ts@[i as int]));
        }
        i = i + 1;
    }
    proof {
        assert(ts@.take(ts@.len() as int) =~= ts@);
    }
    Ok(())
}

/// A tree that fails anywhere makes the whole sibling sequence fail.
proof fn lemma_classify_trees_elem_none(s: Seq<TreeNode>, i: int)
    requires
        0 <= i < s.len(),
        classify_tree(s[i]) is None,
    ensures
        classify_trees(s) is None,
    decreases s.len(),
{
    if i > 0 {
        assert(s.drop_first()[i - 1] == s[i]);
        lemma_classify_trees_elem_none(s.drop_first(), i - 1);
    }
}

/// Classifies a whole input: the flat sequence of spanned tokens of the
/// sibling trees, or the fatal failure where an unsupported punctuation
/// character stands anywhere in them.
pub fn classify(trees: &Vec<TreeNode>) -> (r: Result<Vec<SpannedToken>, ClassifyError>)
    ensures
        r matches Ok(out) ==> classify_trees(trees@) == Some(stoks_view(out@)),
        r is Err <==> classify_trees(trees@) is None,
{
    let mut out: Vec<SpannedToken> = Vec::new();
    proof {
        assert(stoks_view(out@) =~= Seq::<SpannedTokenV>::empty());
    }
    match classify_trees_into(trees, &mut out) {
        Ok(()) => {
            proof {
                assert(Seq::<SpannedTokenV>::empty() + (classify_trees(trees@)->0)
                    =~= classify_trees(trees@)->0);
            }
            Ok(out)
        },
        Err(e) => Err(e),
    }
}

} // verus!
