//! A cursor over a token stream for the recursive collection and document parsers: it
//! looks at and takes the next token, skips white space and comments, and limits how deep
//! items nest.
use vstd::prelude::*;
use crate::lexer::{Position, Token, TokenKind};
use crate::parser::grammar::productions::{ParseError, ParseErrorKind};

verus! {

/// White space, line breaks and comments carry nothing for the parsers.
pub open spec fn insignificant(k: TokenKind) -> bool {
    k is Whitespace || k is LineBreak || k is Comment
}

/// The tokens from the first significant one on.
pub open spec fn skip_spec(t: Seq<Token>) -> Seq<Token>
    decreases t.len(),
{
    if t.len() > 0 && insignificant(t[0].kind) { skip_spec(t.drop_first()) } else { t }
}

/// The position of the next token, or the end of the input when none is left.
pub open spec fn pos_at(t: Seq<Token>, end: Position) -> Position {
    if t.len() > 0 { t[0].position } else { end }
}

/// An error as plain values: its kind, position and message.
pub type ErrView = (ParseErrorKind, Position, Seq<char>);

/// The plain values of an error.
pub open spec fn err_view(e: ParseError) -> ErrView {
    (e.kind, e.position, e.message@)
}

/// Skipping leaves a suffix.
pub proof fn lemma_skip_suffix(t: Seq<Token>)
    ensures
        skip_spec(t).len() <= t.len(),
        skip_spec(t) == t.skip(t.len() - skip_spec(t).len()),
        skip_spec(t).len() > 0 ==> !insignificant(skip_spec(t)[0].kind),
    decreases t.len(),
{
    if t.len() > 0 && insignificant(t[0].kind) {
        lemma_skip_suffix(t.drop_first());
        assert(t.drop_first().skip(t.drop_first().len() - skip_spec(t).len()) =~= t.skip(t.len() - skip_spec(t).len()));
    } else {
        assert(t.skip(0) =~= t);
    }
}

/// Skipping twice skips no more than once.
pub proof fn lemma_skip_idempotent(t: Seq<Token>)
    ensures
        skip_spec(skip_spec(t)) == skip_spec(t),
    decreases t.len(),
{
    if t.len() > 0 && insignificant(t[0].kind) {
        lemma_skip_idempotent(t.drop_first());
    }
}

/// The reversed sequence read from the front is the sequence read from the back.
pub proof fn lemma_reverse_index(s: Seq<Token>)
    ensures
        s.reverse().len() == s.len(),
        forall|i: int| 0 <= i < s.len() ==> #[trigger] s.reverse()[i] == s[s.len() - 1 - i],
{
}

/// The token stream of a parse, with the nesting depth of items and its limit.
pub struct YamlParser {
    /// The tokens still to come, the next one last
    rest: Vec<Token>,
    recursion_depth: usize,
    max_depth: usize,
    /// Where the input ends
    end: Position,
}

impl YamlParser {
    /// The tokens still to come, in order.
    pub closed spec fn upcoming(&self) -> Seq<Token> {
        self.rest@.reverse()
    }

    /// Where the input ends.
    pub closed spec fn end_position(&self) -> Position {
        self.end
    }

    /// How deeply items nest at this point.
    pub closed spec fn depth(&self) -> nat {
        self.recursion_depth as nat
    }

    /// How deeply items may nest.
    pub closed spec fn depth_limit(&self) -> nat {
        self.max_depth as nat
    }

    /// Enter an item one level deeper.
    pub fn enter_item(&mut self)
        requires
            old(self).depth() < old(self).depth_limit(),
        ensures
            final(self).depth() == old(self).depth() + 1,
            final(self).depth_limit() == old(self).depth_limit(),
            final(self).upcoming() == old(self).upcoming(),
            final(self).end_position() == old(self).end_position(),
    {
        self.recursion_depth = self.recursion_depth + 1;
    }

    /// Leave an item, one level up.
    pub fn leave_item(&mut self)
        requires
            old(self).depth() > 0,
        ensures
            final(self).depth() == old(self).depth() - 1,
            final(self).depth_limit() == old(self).depth_limit(),
            final(self).upcoming() == old(self).upcoming(),
            final(self).end_position() == old(self).end_position(),
    {
        self.recursion_depth = self.recursion_depth - 1;
    }

    /// A parser over `tokens`, ending at `end`, with items nested at most 100 deep.
    pub fn new(tokens: Vec<Token>, end: Position) -> (p: Self)
        ensures
            p.upcoming() == tokens@,
            p.end_position() == end,
            p.depth() == 0,
            p.depth_limit() == 100,
    {
        let ghost all = tokens@;
        let mut tokens = tokens;
        let mut rest: Vec<Token> = Vec::new();
        proof { assert(rest@ =~= all.subrange(all.len() as int, all.len() as int).reverse()); }
        while tokens.len() > 0
            invariant
                tokens@ == all.take(tokens@.len() as int),
                tokens@.len() <= all.len(),
                rest@ == all.subrange(tokens@.len() as int, all.len() as int).reverse(),
            decreases tokens@.len(),
        {
            let ghost k = tokens@.len();
            let t = tokens.pop().unwrap();
            rest.push(t);
            proof {
                assert(tokens@ =~= all.take(k - 1));
                assert(t == all[k - 1]);
                assert(rest@ =~= all.subrange(k - 1, all.len() as int).reverse());
            }
        }
        proof { assert(all.subrange(0, all.len() as int) =~= all); }
        YamlParser { rest, recursion_depth: 0, max_depth: 100, end }
    }

    /// The next token, if any.
    pub fn peek_token(&self) -> (r: Option<&Token>)
        ensures
            self.upcoming().len() > 0 ==> r == Some(&self.upcoming()[0]),
            self.upcoming().len() == 0 ==> r is None,
    {
        let n = self.rest.len();
        if n == 0 {
            None
        } else {
            Some(&self.rest[n - 1])
        }
    }

    /// The token `k` places after the next one, if any.
    pub fn peek_at(&self, k: usize) -> (r: Option<&Token>)
        ensures
            k < self.upcoming().len() ==> r == Some(&self.upcoming()[k as int]),
            k >= self.upcoming().len() ==> r is None,
    {
        let n = self.rest.len();
        if k < n {
            Some(&self.rest[n - 1 - k])
        } else {
            None
        }
    }


    /// The index of the first significant token at or after `k` (or the count of tokens).
    pub fn significant_from(&self, k: usize) -> (j: usize)
        ensures
            k <= self.upcoming().len() ==> k <= j <= self.upcoming().len()
                && self.upcoming().skip(j as int) == skip_spec(self.upcoming().skip(k as int)),
            k > self.upcoming().len() ==> j == k,
    {
        let n = self.rest.len();
        if k > n {
            return k;
        }
        let ghost t = self.upcoming();
        let mut j = k;
        proof { lemma_reverse_index(self.rest@); }
        while j < n
            invariant
                n == self.rest@.len(),
                t == self.upcoming(),
                t.len() == n,
                k <= j <= n,
                skip_spec(t.skip(k as int)) == skip_spec(t.skip(j as int)),
                forall|i: int| 0 <= i < n ==> #[trigger] t[i] == self.rest@[n - 1 - i],
            ensures
                k <= j <= n,
                skip_spec(t.skip(k as int)) == t.skip(j as int),
            decreases n - j,
        {
            let skip = match &self.rest[n - 1 - j].kind {
                TokenKind::Whitespace(_) | TokenKind::LineBreak | TokenKind::Comment(_) => true,
                _ => false,
            };
            if !skip {
                proof {
                    assert(t.skip(j as int)[0] == t[j as int]);
                    assert(skip_spec(t.skip(j as int)) == t.skip(j as int));
                }
                break;
            }
            proof {
                assert(t.skip(j as int)[0] == t[j as int]);
                assert(t.skip(j as int).drop_first() =~= t.skip(j + 1));
            }
            j = j + 1;
            proof {
                if j == n {
                    assert(t.skip(j as int) =~= Seq::<Token>::empty());
                    assert(skip_spec(t.skip(j as int)) == t.skip(j as int));
                }
            }
        }
        j
    }

    /// Take the next token: an error at the end of the input when there is none.
    pub fn consume_token(&mut self) -> (r: Result<Token, ParseError>)
        ensures
            final(self).depth() == old(self).depth(),
            final(self).depth_limit() == old(self).depth_limit(),
            final(self).end_position() == old(self).end_position(),
            old(self).upcoming().len() > 0 ==> r == Ok::<Token, ParseError>(old(self).upcoming()[0])
                && final(self).upcoming() == old(self).upcoming().drop_first(),
            old(self).upcoming().len() == 0 ==> final(self).upcoming() == old(self).upcoming(),
            old(self).upcoming().len() == 0 ==> (r matches Err(e) && err_view(e) == (ParseErrorKind::UnexpectedEndOfInput,
                old(self).end_position(), "unexpected end of input"@)),
    {
        match self.rest.pop() {
            Some(t) => {
                proof { assert(self.rest@.reverse() =~= old(self).rest@.reverse().drop_first()); }
                Ok(t)
            },
            None => Err(ParseError::new(ParseErrorKind::UnexpectedEndOfInput, self.end, "unexpected end of input")),
        }
    }

    /// Skip white space, line breaks and comments.
    pub fn skip_insignificant_tokens(&mut self) -> (r: Result<(), ParseError>)
        ensures
            r is Ok,
            final(self).upcoming() == skip_spec(old(self).upcoming()),
            final(self).depth() == old(self).depth(),
            final(self).depth_limit() == old(self).depth_limit(),
            final(self).end_position() == old(self).end_position(),
    {
        loop
            invariant
                skip_spec(self.upcoming()) == skip_spec(old(self).upcoming()),
                self.recursion_depth == old(self).recursion_depth,
                self.max_depth == old(self).max_depth,
                self.end == old(self).end,
            ensures
                self.upcoming() == skip_spec(old(self).upcoming()),
                self.recursion_depth == old(self).recursion_depth,
                self.max_depth == old(self).max_depth,
                self.end == old(self).end,
            decreases self.rest@.len(),
        {
            let n = self.rest.len();
            if n == 0 {
                break;
            }
            let skip = match &self.rest[n - 1].kind {
                TokenKind::Whitespace(_) | TokenKind::LineBreak | TokenKind::Comment(_) => true,
                _ => false,
            };
            if !skip {
                break;
            }
            let ghost before = self.upcoming();
            let _ = self.rest.pop();
            proof { assert(self.rest@.reverse() =~= before.drop_first()); }
        }
        Ok(())
    }

    /// Where the next token stands, or the end of the input.
    pub fn current_position(&self) -> (p: Position)
        ensures
            p == pos_at(self.upcoming(), self.end_position()),
    {
        let n = self.rest.len();
        if n == 0 {
            self.end
        } else {
            self.rest[n - 1].position
        }
    }

    /// How many tokens are left.
    pub fn remaining(&self) -> (n: usize)
        ensures
            n == self.upcoming().len(),
    {
        self.rest.len()
    }

    /// Whether no token is left.
    pub fn is_at_end(&self) -> (b: bool)
        ensures
            b == (self.upcoming().len() == 0),
    {
        self.rest.len() == 0
    }

    /// An error when items already nest as deep as allowed.
    pub fn check_recursion_depth(&self) -> (r: Result<(), ParseError>)
        ensures
            self.depth() < self.depth_limit() <==> r is Ok,
            r matches Err(e) ==> err_view(e) == (ParseErrorKind::RecursionLimitExceeded,
                pos_at(self.upcoming(), self.end_position()), "maximum recursion depth exceeded"@),
    {
        if self.recursion_depth >= self.max_depth {
            Err(ParseError::new(ParseErrorKind::RecursionLimitExceeded, self.current_position(),
                "maximum recursion depth exceeded"))
        } else {
            Ok(())
        }
    }
}

} // verus!
