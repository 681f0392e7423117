//! The iteration wrapper: an owned sequence of classified spanned tokens
//! with a cursor, offering sequential consumption and bounded lookahead.

use vstd::prelude::*;

use crate::classify::classify;
use crate::classify::classify_trees;
use crate::classify::stoks_view;
use crate::classify::ClassifyError;
use crate::host::host_trees;
use crate::token::SpannedToken;
use crate::tree::TreeNode;

verus! {

/// An order-preserving sequence of classified spanned tokens and a cursor.
/// The sequence is built once by a full classification pass and never
/// changed; the cursor only moves forward.
#[derive(Debug)]
pub struct TokenStream {
    tokens: Vec<SpannedToken>,
    cursor: usize,
}

impl TokenStream {
    /// The classified tokens, in order.
    pub closed spec fn toks(self) -> Seq<SpannedToken> {
        self.tokens@
    }

    /// How many tokens have been consumed: the cursor stands just before
    /// the token at this position.
    pub closed spec fn pos(self) -> int {
        self.cursor as int
    }

    /// The stream's invariant: the cursor never passes the end.
    pub open spec fn wf(self) -> bool {
        0 <= self.pos() <= self.toks().len()
    }

    /// Builds a stream by classifying a whole input of sibling trees, the
    /// cursor standing before the first token; fails exactly where the
    /// classification meets an unsupported punctuation character.
    pub fn from_trees(trees: &Vec<TreeNode>) -> (r: Result<TokenStream, ClassifyError>)
        ensures
            r matches Ok(s) ==> classify_trees(trees@) == Some(stoks_view(s.toks())) && s.pos()
                == 0 && s.wf(),
            r is Err <==> classify_trees(trees@) is None,
    {
        match classify(trees) {
            Ok(v) => Ok(TokenStream { tokens: v, cursor: 0 }),
            Err(e) => Err(e),
        }
    }

    /// Converts a host input, given as its top-level trees in order: brings
    /// the host's nested trees over the boundary, then classifies them.
    /// `float_reader` supplies the 64-bit floating reading of a literal's
    /// text, as the value's raw bits, since floating-point values cannot be
    /// computed inside this crate.
    pub fn from_host<F: Fn(&str) -> Option<u64>>(
        value: Vec<proc_macro2::TokenTree>,
        float_reader: &F,
    ) -> (r: Result<TokenStream, ClassifyError>)
        ensures
            r matches Ok(s) ==> s.pos() == 0 && s.wf(),
    {
        let trees = host_trees(value, float_reader);
        Self::from_trees(&trees)
    }

    /// Sequential advance: the next token in order, moving the cursor
    /// forward by one; signals the end once exhausted, and keeps doing so
    /// on every later call.
    pub fn next(&mut self) -> (r: Option<SpannedToken>)
        requires
            old(self).wf(),
        ensures
            final(self).wf(),
            final(self).toks() == old(self).toks(),
            old(self).pos() < old(self).toks().len() ==> final(self).pos() == old(self).pos() + 1
                && r == Some(old(self).toks()[old(self).pos()]),
            old(self).pos() >= old(self).toks().len() ==> final(self).pos() == old(self).pos()
                && r is None,
    {
        if self.cursor < self.tokens.len() {
            let t = self.tokens[self.cursor].clone();
            self.cursor = self.cursor + 1;
            Some(t)
        } else {
            None
        }
    }

    /// Bounded lookahead: the token standing `ahead` places past the cursor,
    /// offset 1 being the next unread token; never moves the cursor, and
    /// signals absence where the offset runs past the end.
    pub fn peek(&mut self, ahead: usize) -> (r: Option<SpannedToken>)
        requires
            old(self).wf(),
            ahead >= 1,
        ensures
            *final(self) == *old(self),
            old(self).pos() + ahead - 1 < old(self).toks().len() ==> r == Some(
                old(self).toks()[old(self).pos() + ahead - 1],
            ),
            old(self).pos() + ahead - 1 >= old(self).toks().len() ==> r is None,
    {
        if ahead - 1 < self.tokens.len() - self.cursor {
            let idx = self.cursor + (ahead - 1);
            Some(self.tokens[idx].clone())
        } else {
            None
        }
    }
}

} // verus!
