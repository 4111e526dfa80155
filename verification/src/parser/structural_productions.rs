//! YAML 1.2 structural productions [63-81]: indentation, line prefixes, empty lines,
//! comments and separation, over a `ScannerState` and a `ParametricContext`.
use vstd::prelude::*;
use crate::error::ScanError;
use crate::parser::character_productions::CharacterProductions;
use crate::parser::grammar::{ChompingMode, ParametricContext, YamlContext};
use crate::lexer::unicode::chars::{spec_is_printable, spec_is_break, spec_is_space};
use crate::scanner::indentation::{push_signed_decimal, signed_decimal};
use crate::scanner::scalars::{apply_block_scalar_folding, folding_spec, after_line};
use crate::lexer::scanner::run_end;
use crate::scanner::state::ScannerState;
use crate::scanner::utils::{consume_line_break, skip_whitespace_and_comments};
use crate::text::{decimal, push_decimal, push_str};

verus! {

/// Structural productions over the scanner state.
pub struct StructuralProductions;

/// The `k` characters from `p` on are all spaces.
pub open spec fn all_spaces(s: Seq<char>, p: int, k: int) -> bool {
    forall|j: int| 0 <= j < k ==> p + j < s.len() && #[trigger] s[p + j] == ' '
}

/// A printable character that is neither white space nor a line break.
pub open spec fn is_ns(ch: char) -> bool {
    spec_is_printable(ch) && !spec_is_space(ch) && !spec_is_break(ch)
}

/// The run of `ns` characters in `s` from `p` on ends at `q`.
pub open spec fn ns_run_ends_at(s: Seq<char>, p: int, q: int) -> bool {
    &&& p <= q <= s.len()
    &&& forall|j: int| p <= j < q ==> is_ns(#[trigger] s[j])
    &&& (q < s.len() ==> !is_ns(s[q]))
}

/// The text of "insufficient input for {n}-space indentation".
pub open spec fn insufficient_message(n: int) -> Seq<char> {
    "insufficient input for "@ + signed_decimal(n) + "-space indentation"@
}

/// The text of "expected {n} spaces of block indentation".
pub open spec fn block_prefix_message(n: int) -> Seq<char> {
    "expected "@ + signed_decimal(n) + " spaces of block indentation"@
}

/// White space skipped: `final` is `old` moved over spaces and tabs only, up to a character
/// that is neither (or the end).
pub open spec fn skipped_white(old: &ScannerState, new: &ScannerState) -> bool {
    &&& new.read_on_from(old)
    &&& forall|j: int| old.spec_pos() <= j < new.spec_pos() ==> spec_is_space(#[trigger] new.spec_source()[j])
}

/// The end of the run of `ns` characters from `i`.
pub open spec fn ns_end(s: Seq<char>, i: int) -> int {
    run_end(s, i, |c: char| is_ns(c))
}

/// A run of `ns` characters from `p` ends at `q` only where `ns_end` says.
pub proof fn lemma_ns_end(s: Seq<char>, p: int, q: int)
    requires
        0 <= p,
        ns_run_ends_at(s, p, q),
    ensures
        q == ns_end(s, p),
    decreases q - p,
{
    if p < q {
        assert(is_ns(s[p]));
        lemma_ns_end(s, p + 1, q);
    }
}

/// The comment lines from `i`: each `#` comment's text, while comments are followed by a
/// line break, and where they end.
pub open spec fn comment_lines(s: Seq<char>, i: int) -> (Seq<Seq<char>>, int)
    decreases s.len() - i,
{
    if 0 <= i < s.len() && s[i] == '#' {
        let e = ns_end(s, i + 1);
        let c = s.subrange(i + 1, e);
        if i + 1 <= e < s.len() && (s[e] == '\n' || s[e] == '\r') {
            let rest = comment_lines(s, after_line(s, e));
            proof { lemma_after_break(s, e); }
            (seq![c] + rest.0, rest.1)
        } else {
            (seq![c], e)
        }
    } else {
        (Seq::empty(), i)
    }
}

/// After a line break at `e`, the line ends past it.
pub proof fn lemma_after_break(s: Seq<char>, e: int)
    requires
        0 <= e < s.len(),
        s[e] == '\n' || s[e] == '\r',
    ensures
        e < after_line(s, e) <= s.len(),
{
}

impl StructuralProductions {
    /// [63] s-indent(n): whether the context is at indentation `n` and the next `n`
    /// characters are spaces; an error when the input ends before a non-space is found.
    pub fn validate_exact_indent(state: &mut ScannerState, context: &ParametricContext, n: i32)
        -> (r: Result<bool, ScanError>)
        requires
            old(state).wf(),
            context.indentation.wf(),
        ensures
            final(state).only_window_grew(old(state)),
            ({
                let s = old(state).spec_source();
                let p = old(state).spec_pos();
                let here = context.indentation.items().last() as i32 == n;
                &&& r == Ok::<bool, ScanError>(true) <==> here && all_spaces(s, p, n as int)
                &&& r == Ok::<bool, ScanError>(false) <==> !here || exists|k: int| 0 <= k < n && all_spaces(s, p, k)
                    && #[trigger] (p + k) < s.len() && s[p + k] != ' '
                &&& r is Err <==> here && exists|k: int| 0 <= k < n && all_spaces(s, p, k) && #[trigger] (p + k) >= s.len()
                &&& r matches Err(e) ==> e.info@ == insufficient_message(n as int) && e.mark == old(state).spec_mark()
            }),
    {
        let current_indent = context.current_indent();
        if current_indent != n {
            return Ok(false);
        }
        let ghost s = state.spec_source();
        let ghost p = state.spec_pos();
        let mut i: i32 = 0;
        while i < n
            invariant
                old(state).wf(),
                state.only_window_grew(old(state)),
                s == old(state).spec_source(),
                p == old(state).spec_pos(),
                0 <= i,
                i <= n || n < 0,
                all_spaces(s, p, i as int),
                context.indentation.items().last() as i32 == n,
            decreases n - i,
        {
            match state.peek_char_at(i as usize) {
                Some(' ') => {},
                Some(_) => {
                    assert(0 <= i < n && all_spaces(s, p, i as int) && p + i < s.len() && s[p + i] != ' ');
                    return Ok(false);
                },
                None => {
                    assert(0 <= i < n && all_spaces(s, p, i as int) && p + i >= s.len());
                    let mut msg = String::new();
                    push_str(&mut msg, "insufficient input for ");
                    push_signed_decimal(&mut msg, n);
                    push_str(&mut msg, "-space indentation");
                    return Err(ScanError::new(state.mark(), msg.as_str()));
                },
            }
            i = i + 1;
        }
        proof {
            if n > 0 {
                assert(i == n);
            } else {
                assert forall|j: int| 0 <= j < n implies p + j < s.len() && #[trigger] s[p + j] == ' ' by {}
            }
            assert forall|k: int| 0 <= k < n && all_spaces(s, p, k) implies !(#[trigger] (p + k) < s.len() && s[p + k] != ' ')
                && (p + k) < s.len() by {
                assert(s[p + k] == ' ');
            }
        }
        Ok(true)
    }

    /// [64] s-indent(<n): the context's indentation when it is less than `n`, else an error.
    pub fn validate_indent_less_than(state: &mut ScannerState, context: &ParametricContext, n: i32)
        -> (r: Result<i32, ScanError>)
        requires
            old(state).wf(),
            context.indentation.wf(),
        ensures
            *final(state) == *old(state),
            ({
                let cur = context.indentation.items().last() as i32;
                &&& r is Ok <==> cur < n
                &&& r matches Ok(m) ==> m == cur
                &&& r matches Err(e) ==> e.mark == old(state).spec_mark()
                    && e.info@ == "indentation "@ + signed_decimal(cur as int) + " not less than "@ + signed_decimal(n as int)
            }),
    {
        let current_indent = context.current_indent();
        if current_indent < n {
            Ok(current_indent)
        } else {
            let mut msg = String::new();
            push_str(&mut msg, "indentation ");
            push_signed_decimal(&mut msg, current_indent);
            push_str(&mut msg, " not less than ");
            push_signed_decimal(&mut msg, n);
            Err(ScanError::new(state.mark(), msg.as_str()))
        }
    }

    /// [65] s-indent(≤n): the context's indentation when it is at most `n`, else an error.
    pub fn validate_indent_less_equal(state: &mut ScannerState, context: &ParametricContext, n: i32)
        -> (r: Result<i32, ScanError>)
        requires
            old(state).wf(),
            context.indentation.wf(),
        ensures
            *final(state) == *old(state),
            ({
                let cur = context.indentation.items().last() as i32;
                &&& r is Ok <==> cur <= n
                &&& r matches Ok(m) ==> m == cur
                &&& r matches Err(e) ==> e.mark == old(state).spec_mark()
                    && e.info@ == "indentation "@ + signed_decimal(cur as int) + " not ≤ "@ + signed_decimal(n as int)
            }),
    {
        let current_indent = context.current_indent();
        if current_indent <= n {
            Ok(current_indent)
        } else {
            let mut msg = String::new();
            push_str(&mut msg, "indentation ");
            push_signed_decimal(&mut msg, current_indent);
            push_str(&mut msg, " not ≤ ");
            push_signed_decimal(&mut msg, n);
            Err(ScanError::new(state.mark(), msg.as_str()))
        }
    }

    /// [67] s-line-prefix(n,c): a block line prefix in block contexts, a flow line prefix
    /// in flow contexts, nothing in key contexts.
    pub fn process_line_prefix(state: &mut ScannerState, context: &mut ParametricContext, n: i32)
        -> (r: Result<(), ScanError>)
        requires
            old(state).wf(),
            old(context).indentation.wf(),
        ensures
            final(state).read_on_from(old(state)),
            *final(context) == *old(context),
            (old(context).current_context == YamlContext::BlockKey || old(context).current_context == YamlContext::FlowKey)
                ==> r is Ok && *final(state) == *old(state),
            (old(context).current_context == YamlContext::BlockOut || old(context).current_context == YamlContext::BlockIn)
                ==> (r is Ok <==> old(context).indentation.items().last() as i32 == n
                    && all_spaces(old(state).spec_source(), old(state).spec_pos(), n as int)),
    {
        match context.current_context {
            YamlContext::BlockOut | YamlContext::BlockIn => Self::process_block_line_prefix(state, context, n),
            YamlContext::FlowOut | YamlContext::FlowIn => Self::process_flow_line_prefix(state, context, n),
            _ => Ok(()),
        }
    }

    /// [68] s-block-line-prefix(n) ::= s-indent(n): an error unless the indentation is
    /// exactly `n` spaces.
    pub fn process_block_line_prefix(state: &mut ScannerState, context: &ParametricContext, n: i32)
        -> (r: Result<(), ScanError>)
        requires
            old(state).wf(),
            context.indentation.wf(),
        ensures
            final(state).only_window_grew(old(state)),
            r is Ok <==> context.indentation.items().last() as i32 == n
                && all_spaces(old(state).spec_source(), old(state).spec_pos(), n as int),
            r matches Err(e) ==> e.mark == old(state).spec_mark()
                && (e.info@ == block_prefix_message(n as int) || e.info@ == insufficient_message(n as int)),
    {
        if !Self::validate_exact_indent(state, context, n)? {
            let mut msg = String::new();
            push_str(&mut msg, "expected ");
            push_signed_decimal(&mut msg, n);
            push_str(&mut msg, " spaces of block indentation");
            return Err(ScanError::new(state.mark(), msg.as_str()));
        }
        Ok(())
    }

    /// [69] s-flow-line-prefix(n) ::= s-indent(n) s-separate-in-line?: the block prefix,
    /// then any white space.
    pub fn process_flow_line_prefix(state: &mut ScannerState, context: &ParametricContext, n: i32)
        -> (r: Result<(), ScanError>)
        requires
            old(state).wf(),
            context.indentation.wf(),
        ensures
            final(state).read_on_from(old(state)),
            r is Ok <==> context.indentation.items().last() as i32 == n
                && all_spaces(old(state).spec_source(), old(state).spec_pos(), n as int),
            r is Err ==> final(state).spec_pos() == old(state).spec_pos(),
            r is Ok ==> !(final(state).spec_pos() < final(state).spec_source().len()
                && spec_is_space(final(state).spec_source()[final(state).spec_pos()])),
    {
        Self::process_block_line_prefix(state, context, n)?;
        skip_white(state);
        Ok(())
    }

    /// [70] l-empty(n,c): a line prefix (or a lesser indentation) followed by a line
    /// break; whether a line break was consumed.
    pub fn process_empty_line(state: &mut ScannerState, context: &mut ParametricContext, n: i32)
        -> (r: Result<bool, ScanError>)
        requires
            old(state).wf(),
            old(context).indentation.wf(),
        ensures
            final(state).read_on_from(old(state)),
            *final(context) == *old(context),
            r matches Ok(true) ==> final(state).spec_pos() > old(state).spec_pos(),
            r is Ok,
            r matches Ok(true) ==> (final(state).spec_source()[final(state).spec_pos() - 1] == '\n'
                || final(state).spec_source()[final(state).spec_pos() - 1] == '\r'),
            (old(context).current_context == YamlContext::BlockKey || old(context).current_context == YamlContext::FlowKey)
                ==> r == Ok::<bool, ScanError>(old(state).spec_pos() < old(state).spec_source().len()
                    && (old(state).spec_source()[old(state).spec_pos()] == '\n'
                        || old(state).spec_source()[old(state).spec_pos()] == '\r')),
    {
        if Self::process_line_prefix(state, context, n).is_ok() {
            return Self::consume_line_break_if_present(state);
        }
        if Self::validate_indent_less_than(state, context, n).is_ok() {
            return Self::consume_line_break_if_present(state);
        }
        Ok(false)
    }

    /// [71-74] Line folding: the block scalar folding and chomping of `lines`.
    pub fn apply_line_folding(lines: &[String], chomping: ChompingMode, literal_style: bool) -> (out: String)
        ensures
            out@ == folding_spec(lines@.map_values(|l: String| l@), chomping, literal_style),
    {
        apply_block_scalar_folding(lines, chomping, literal_style)
    }

    /// [75] c-nb-comment-text ::= "#" nb-char*: the comment's text after `#`, up to the
    /// first character that is not an `ns` character.
    pub fn parse_comment_text(state: &mut ScannerState) -> (r: Result<String, ScanError>)
        requires
            old(state).wf(),
        ensures
            final(state).read_on_from(old(state)),
            ({
                let s = old(state).spec_source();
                let p = old(state).spec_pos();
                &&& r is Ok <==> p < s.len() && s[p] == '#'
                &&& r matches Ok(c) ==> ns_run_ends_at(s, p + 1, final(state).spec_pos())
                    && c@ == s.subrange(p + 1, final(state).spec_pos())
                &&& r matches Err(e) ==> (p < s.len() ==> e.info@ == "expected comment marker '#'"@)
                    && (p >= s.len() ==> e.info@ == "unexpected end of input"@)
            }),
    {
        let ghost s = state.spec_source();
        let ghost p = state.spec_pos();
        if state.peek_char()? != '#' {
            return Err(ScanError::new(state.mark(), "expected comment marker '#'"));
        }
        state.consume_char()?;
        let mut comment = String::new();
        loop
            invariant
                s == old(state).spec_source(),
                p == old(state).spec_pos(),
                old(state).wf(),
                state.read_on_from(old(state)),
                p + 1 <= state.spec_pos(),
                forall|j: int| p + 1 <= j < state.spec_pos() ==> is_ns(#[trigger] s[j]),
                comment@ == s.subrange(p + 1, state.spec_pos()),
            ensures
                ns_run_ends_at(s, p + 1, state.spec_pos()),
                comment@ == s.subrange(p + 1, state.spec_pos()),
                state.read_on_from(old(state)),
            decreases s.len() - state.spec_pos(),
        {
            match state.peek_char() {
                Ok(ch) => {
                    if CharacterProductions::is_ns_char(ch) {
                        let ghost ph = state.spec_pos();
                        let c = state.consume_char()?;
                        crate::text::push_char(&mut comment, c);
                        proof { crate::text::lemma_subrange_extend(s, p + 1, ph); }
                    } else {
                        break;
                    }
                },
                Err(_) => {
                    break;
                },
            }
        }
        Ok(comment)
    }

    /// [76-79] Comment lines: each comment's text, while comments are followed by a line
    /// break.
    pub fn skip_comment_lines(state: &mut ScannerState) -> (r: Result<Vec<String>, ScanError>)
        requires
            old(state).wf(),
        ensures
            final(state).read_on_from(old(state)),
            r is Ok,
            r matches Ok(v) && v@.map_values(|c: String| c@) == comment_lines(old(state).spec_source(), old(state).spec_pos()).0
                && final(state).spec_pos() == comment_lines(old(state).spec_source(), old(state).spec_pos()).1,
    {
        let ghost s = old(state).spec_source();
        let ghost p = old(state).spec_pos();
        let mut comments: Vec<String> = Vec::new();
        loop
            invariant_except_break
                comments@.map_values(|c: String| c@) + comment_lines(s, state.spec_pos()).0 == comment_lines(s, p).0,
                comment_lines(s, state.spec_pos()).1 == comment_lines(s, p).1,
            invariant
                old(state).wf(),
                state.read_on_from(old(state)),
                s == old(state).spec_source(),
                p == old(state).spec_pos(),
            ensures
                state.read_on_from(old(state)),
                comments@.map_values(|c: String| c@) == comment_lines(s, p).0,
                state.spec_pos() == comment_lines(s, p).1,
            decreases state.spec_source().len() - state.spec_pos(),
        {
            let ghost q = state.spec_pos();
            let ghost before = comments@.map_values(|c: String| c@);
            match state.peek_char() {
                Ok('#') => {},
                _ => {
                    proof { assert(comment_lines(s, q).0 =~= Seq::<Seq<char>>::empty()); assert(before =~= before + Seq::<Seq<char>>::empty()); }
                    break;
                },
            }
            let comment = match Self::parse_comment_text(state) {
                Ok(c) => c,
                Err(_) => {
                    break;
                },
            };
            proof { lemma_ns_end(s, q + 1, state.spec_pos()); }
            comments.push(comment);
            proof {
                assert(comments@.map_values(|c: String| c@) =~= before.push(comment@));
            }
            match state.peek_char() {
                Ok('\n') | Ok('\r') => {
                    let _ = consume_line_break(state);
                    proof {
                        let e = ns_end(s, q + 1);
                        assert(comment_lines(s, q).0 == seq![comment@] + comment_lines(s, after_line(s, e)).0);
                        assert(before.push(comment@) + comment_lines(s, state.spec_pos()).0
                            =~= before + (seq![comment@] + comment_lines(s, state.spec_pos()).0));
                    }
                },
                _ => {
                    proof {
                        assert(comment_lines(s, q).0 == seq![comment@]);
                        assert(before.push(comment@) =~= before + seq![comment@]);
                    }
                    break;
                },
            }
        }
        Ok(comments)
    }

    /// [80] s-separate(n,c): white space in key contexts, separation lines elsewhere.
    pub fn process_separation(state: &mut ScannerState, context: &mut ParametricContext, n: i32)
        -> (r: Result<(), ScanError>)
        requires
            old(state).wf(),
            old(context).indentation.wf(),
        ensures
            final(state).read_on_from(old(state)),
            *final(context) == *old(context),
            (old(context).current_context == YamlContext::BlockKey || old(context).current_context == YamlContext::FlowKey)
                ==> r is Ok && skipped_white(old(state), final(state)),
            r is Ok ==> !(final(state).spec_pos() < final(state).spec_source().len()
                && spec_is_space(final(state).spec_source()[final(state).spec_pos()])),
            r is Err ==> final(state).spec_pos() < final(state).spec_source().len()
                && final(state).spec_source()[final(state).spec_pos()] == '\t',
    {
        match context.current_context {
            YamlContext::BlockKey | YamlContext::FlowKey => {
                skip_white(state);
                Ok(())
            },
            _ => Self::process_separation_lines(state, context, n),
        }
    }

    /// [81] s-separate-lines(n): comment lines then a flow line prefix, or else white
    /// space and comments.
    pub fn process_separation_lines(state: &mut ScannerState, context: &mut ParametricContext, n: i32)
        -> (r: Result<(), ScanError>)
        requires
            old(state).wf(),
            old(context).indentation.wf(),
        ensures
            final(state).read_on_from(old(state)),
            *final(context) == *old(context),
            r is Ok ==> !(final(state).spec_pos() < final(state).spec_source().len()
                && spec_is_space(final(state).spec_source()[final(state).spec_pos()])),
            r is Err ==> final(state).spec_pos() < final(state).spec_source().len()
                && final(state).spec_source()[final(state).spec_pos()] == '\t',
    {
        let _comments = Self::skip_comment_lines(state)?;
        if Self::process_flow_line_prefix(state, context, n).is_ok() {
            return Ok(());
        }
        skip_whitespace_and_comments(state)
    }

    /// [66] s-separate-in-line ::= s-white+ | <start-of-line>: at the start of a line
    /// nothing is needed; elsewhere at least one white space character.
    pub fn process_separate_in_line(state: &mut ScannerState) -> (r: Result<(), ScanError>)
        requires
            old(state).wf(),
        ensures
            skipped_white(old(state), final(state)),
            old(state).spec_mark().col == 0 ==> r is Ok && *final(state) == *old(state),
            old(state).spec_mark().col != 0 ==> (r is Ok <==> final(state).spec_pos() > old(state).spec_pos()),
            r matches Err(e) ==> e.info@ == "expected whitespace or start of line for in-line separation"@,
    {
        if state.at_line_start() {
            return Ok(());
        }
        let p0 = state.mark().index;
        skip_white(state);
        if state.mark().index == p0 {
            return Err(ScanError::new(state.mark(), "expected whitespace or start of line for in-line separation"));
        }
        Ok(())
    }

    /// A line break if one comes next; whether it was consumed.
    fn consume_line_break_if_present(state: &mut ScannerState) -> (r: Result<bool, ScanError>)
        requires
            old(state).wf(),
        ensures
            final(state).read_on_from(old(state)),
            r matches Ok(true) ==> final(state).spec_pos() > old(state).spec_pos(),
            r == Ok::<bool, ScanError>(old(state).spec_pos() < old(state).spec_source().len()
                && (old(state).spec_source()[old(state).spec_pos()] == '\n' || old(state).spec_source()[old(state).spec_pos()] == '\r')),
            r == Ok::<bool, ScanError>(true) ==> final(state).spec_pos() == after_line(old(state).spec_source(), old(state).spec_pos()),
            r == Ok::<bool, ScanError>(false) ==> final(state).spec_pos() == old(state).spec_pos(),
    {
        match state.peek_char() {
            Ok('\n') | Ok('\r') => {
                let _ = consume_line_break(state);
                Ok(true)
            },
            _ => Ok(false),
        }
    }
}

/// Skip spaces and tabs.
fn skip_white(state: &mut ScannerState)
    requires
        old(state).wf(),
    ensures
        skipped_white(old(state), final(state)),
        final(state).spec_pos() < final(state).spec_source().len()
            ==> !spec_is_space(final(state).spec_source()[final(state).spec_pos()]),
{
    loop
        invariant
            old(state).wf(),
            skipped_white(old(state), state),
        ensures
            skipped_white(old(state), state),
            state.spec_pos() < state.spec_source().len() ==> !spec_is_space(state.spec_source()[state.spec_pos()]),
        decreases state.spec_source().len() - state.spec_pos(),
    {
        match state.peek_char() {
            Ok(ch) => {
                if CharacterProductions::is_white(ch) {
                    if state.consume_char().is_err() {
                        break;
                    }
                } else {
                    break;
                }
            },
            Err(_) => {
                break;
            },
        }
    }
}

impl ScannerState {
    /// Structural separation [80] on this state.
    pub fn process_structural_separation(&mut self, context: &mut ParametricContext, n: i32) -> (r: Result<(), ScanError>)
        requires
            old(self).wf(),
            old(context).indentation.wf(),
        ensures
            final(self).read_on_from(old(self)),
            *final(context) == *old(context),
    {
        StructuralProductions::process_separation(self, context, n)
    }

    /// Exact indentation [63] on this state.
    pub fn validate_structural_indent(&mut self, context: &ParametricContext, n: i32) -> (r: Result<bool, ScanError>)
        requires
            old(self).wf(),
            context.indentation.wf(),
        ensures
            final(self).only_window_grew(old(self)),
            r == Ok::<bool, ScanError>(true) <==> context.indentation.items().last() as i32 == n
                && all_spaces(old(self).spec_source(), old(self).spec_pos(), n as int),
    {
        StructuralProductions::validate_exact_indent(self, context, n)
    }

    /// Comment lines [76-79] on this state.
    pub fn skip_structural_comments(&mut self) -> (r: Result<Vec<String>, ScanError>)
        requires
            old(self).wf(),
        ensures
            final(self).read_on_from(old(self)),
            r is Ok,
    {
        StructuralProductions::skip_comment_lines(self)
    }
}

} // verus!
