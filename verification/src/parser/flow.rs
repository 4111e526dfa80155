//! Flow style scalar productions: double-quoted, single-quoted and plain scalars read
//! under a parametric context.
use vstd::prelude::*;
use crate::error::{Marker, ScanError};
use crate::lexer::unicode::{EscapeError, unescape};
use crate::lexer::unicode::chars::{spec_is_printable, spec_is_space, spec_plain_start_excluded,
    spec_can_continue_plain_scalar};
use crate::parser::character_productions::{CharacterProductions, spec_is_surrogate};
use crate::parser::grammar::context_types::{ChompingMode, Context};
use crate::parser::grammar::parametric_context::ParametricContext;
use crate::parser::state_machine::{StateMachine, context_name, context_text};
use crate::parser::structural_productions::StructuralProductions;
use crate::scanner::scalars::folding_spec;
use crate::scanner::state::{ScannerState, mark_after};
use crate::text::{push_char, push_str, str_trim_end, trim_end_spec};
use crate::debug_render::{escape_error_debug, escape_error_text};

verus! {

/// The marker after passing each character of `s` in turn.
pub open spec fn marks_over(m: Marker, s: Seq<char>) -> Marker
    decreases s.len(),
{
    if s.len() == 0 { m } else { mark_after(marks_over(m, s.drop_last()), s.last()) }
}

/// [2] nb-json: tab, or a character from U+0020 up that is neither DEL, a C1 control nor
/// a surrogate.
pub open spec fn nb_json(c: char) -> bool {
    c == '\t' || (0x20 <= (c as u32) <= 0x10FFFF && !(0x7F <= (c as u32) <= 0x9F) && !spec_is_surrogate(c))
}

/// The message of an error at the end of the input.
pub open spec fn eof_message() -> Seq<char> {
    "unexpected end of input"@
}

/// A one-line double-quoted body from `i`, escapes kept as written: the text after `acc`
/// and the position where it stops (a quote, a character that is not `nb-json`, or the end).
pub open spec fn dq_one_line(s: Seq<char>, i: int, acc: Seq<char>) -> (Seq<char>, int)
    decreases s.len() - i,
{
    if i >= s.len() || s[i] == '"' {
        (acc, i)
    } else if s[i] == '\\' {
        if i + 1 < s.len() { dq_one_line(s, i + 2, acc + seq!['\\', s[i + 1]]) } else { (acc.push('\\'), i + 1) }
    } else if nb_json(s[i]) {
        dq_one_line(s, i + 1, acc.push(s[i]))
    } else {
        (acc, i)
    }
}

/// `lines` with `cur` added when it is not empty.
pub open spec fn line_list(lines: Seq<Seq<char>>, cur: Seq<char>) -> Seq<Seq<char>> {
    if cur.len() > 0 { lines.push(cur) } else { lines }
}

/// A multi-line double-quoted body from `i`, split at line breaks, escapes kept as
/// written: the lines after `lines` and `cur`, and the position where it stops.
pub open spec fn dq_multi_line(s: Seq<char>, i: int, lines: Seq<Seq<char>>, cur: Seq<char>) -> (Seq<Seq<char>>, int)
    decreases s.len() - i,
{
    if i >= s.len() || s[i] == '"' {
        (line_list(lines, cur), i)
    } else if s[i] == '\\' {
        if i + 1 < s.len() {
            dq_multi_line(s, i + 2, lines, cur + seq!['\\', s[i + 1]])
        } else {
            (line_list(lines, cur.push('\\')), i + 1)
        }
    } else if s[i] == '\n' || s[i] == '\r' {
        dq_multi_line(s, i + 1, lines.push(cur), Seq::empty())
    } else if nb_json(s[i]) {
        dq_multi_line(s, i + 1, lines, cur.push(s[i]))
    } else {
        (line_list(lines, cur), i)
    }
}

/// A double-quoted scalar at `p` under `ctx`: its text (or the position and message of
/// the error) and the position reading stops at. Key contexts read one line; flow
/// contexts read several and fold them; block contexts are refused.
pub open spec fn dq_outcome(s: Seq<char>, p: int, ctx: Context, esc: spec_fn(EscapeError) -> Seq<char>)
    -> (Result<Seq<char>, (int, Seq<char>)>, int)
{
    if p >= s.len() {
        (Err((p, eof_message())), p)
    } else if s[p] != '"' {
        (Err((p, "expected opening double quote"@)), p)
    } else if !(ctx is FlowKey || ctx is BlockKey || ctx is FlowIn || ctx is FlowOut) {
        (Err((p + 1, "invalid context for double-quoted scalar"@)), p + 1)
    } else {
        let (body, e) = if ctx is FlowKey || ctx is BlockKey {
            dq_one_line(s, p + 1, Seq::empty())
        } else {
            let (ls, e) = dq_multi_line(s, p + 1, Seq::empty(), Seq::empty());
            (folding_spec(ls, ChompingMode::Clip, false), e)
        };
        if e >= s.len() {
            (Err((e, eof_message())), e)
        } else if s[e] != '"' {
            (Err((e, "expected closing double quote"@)), e)
        } else {
            match unescape(body) {
                Ok(out) => (Ok(out), e + 1),
                Err(err) => (Err((e + 1, "escape sequence error: "@ + esc(err))), e + 1),
            }
        }
    }
}

/// A single-quoted body from `i`: `''` stands for a quote, a lone quote closes it, any
/// other printable character is itself.
pub open spec fn sq_scan(s: Seq<char>, i: int, acc: Seq<char>) -> (Result<Seq<char>, (int, Seq<char>)>, int)
    decreases s.len() - i,
{
    if i >= s.len() {
        (Err((i, eof_message())), i)
    } else if s[i] == '\'' {
        if i + 1 < s.len() && s[i + 1] == '\'' { sq_scan(s, i + 2, acc.push('\'')) } else { (Ok(acc), i + 1) }
    } else if spec_is_printable(s[i]) {
        sq_scan(s, i + 1, acc.push(s[i]))
    } else {
        (Err((i, "invalid character in single-quoted scalar"@)), i)
    }
}

/// A single-quoted scalar at `p`: its text (or the position and message of the error) and
/// the position reading stops at.
pub open spec fn sq_outcome(s: Seq<char>, p: int) -> (Result<Seq<char>, (int, Seq<char>)>, int) {
    if p >= s.len() {
        (Err((p, eof_message())), p)
    } else if s[p] != '\'' {
        (Err((p, "expected opening single quote"@)), p)
    } else {
        sq_scan(s, p + 1, Seq::empty())
    }
}

/// Whether `c` can start a plain scalar under `ctx`: flow contexts also refuse flow
/// indicators, and flow keys `:`, `?` and `#` as well.
pub open spec fn plain_start_ok(c: char, ctx: Context) -> bool {
    &&& !spec_plain_start_excluded(c)
    &&& (ctx is FlowIn || ctx is FlowOut) ==> !(c == '[' || c == ']' || c == '{' || c == '}' || c == ',')
    &&& ctx is FlowKey ==> !(c == '[' || c == ']' || c == '{' || c == '}' || c == ',' || c == ':' || c == '?'
        || c == '#')
}

/// Whether the plain scalar goes on at `i`: a character that can continue one, where in
/// flow contexts `:`, `,`, `]` and `}` end it, except a `:` followed by a character that is
/// not white space.
pub open spec fn plain_continues(s: Seq<char>, i: int, ctx: Context) -> bool {
    &&& spec_can_continue_plain_scalar(s[i])
    &&& ((ctx is FlowIn || ctx is FlowOut) && (s[i] == ':' || s[i] == ',' || s[i] == ']' || s[i] == '}'))
        ==> (s[i] == ':' && i + 1 < s.len() && !spec_is_space(s[i + 1]))
}

/// Where a plain scalar that goes on at `i` stops.
pub open spec fn plain_end(s: Seq<char>, i: int, ctx: Context) -> int
    decreases s.len() - i,
{
    if i >= s.len() || i < 0 || !plain_continues(s, i, ctx) { i } else { plain_end(s, i + 1, ctx) }
}

/// The message for a character that cannot start a plain scalar under `ctx`.
pub open spec fn plain_start_message(c: char, ctx: Context) -> Seq<char> {
    "character '"@ + seq![c] + "' cannot start plain scalar in "@ + context_name(ctx) + " context"@
}

/// A plain scalar at `p` under `ctx`: its text without trailing white space (or the
/// position and message of the error) and the position reading stops at.
pub open spec fn plain_outcome(s: Seq<char>, p: int, ctx: Context) -> (Result<Seq<char>, (int, Seq<char>)>, int) {
    if p >= s.len() {
        (Err((p, eof_message())), p)
    } else if !plain_start_ok(s[p], ctx) {
        (Err((p, plain_start_message(s[p], ctx))), p)
    } else {
        let e = plain_end(s, p + 1, ctx);
        (Ok(trim_end_spec(s.subrange(p, e))), e)
    }
}

/// What a reading function of this module did to the scanner: it read on from `old` to the
/// position `outcome.1`, the marker followed, and the result is `outcome.0`.
pub open spec fn read_as(old: &ScannerState, new: &ScannerState, r: Result<String, ScanError>,
    outcome: (Result<Seq<char>, (int, Seq<char>)>, int)) -> bool
{
    &&& new.read_on_from(old)
    &&& new.spec_pos() == outcome.1
    &&& new.spec_mark() == marks_over(old.spec_mark(), old.spec_source().subrange(old.spec_pos(), outcome.1))
    &&& match r {
        Ok(v) => outcome.0 == Ok::<Seq<char>, (int, Seq<char>)>(v@),
        Err(e) => outcome.0 matches Err((at, msg)) && at == outcome.1 && e.info@ == msg
            && e.mark == new.spec_mark(),
    }
}

/// Passing one more character moves the marker by that character.
pub proof fn lemma_marks_step(m: Marker, s: Seq<char>, p: int, q: int)
    requires
        0 <= p <= q < s.len(),
    ensures
        marks_over(m, s.subrange(p, q + 1)) == mark_after(marks_over(m, s.subrange(p, q)), s[q]),
{
    assert(s.subrange(p, q + 1).drop_last() =~= s.subrange(p, q));
}

/// Flow style scalar productions [107-135] under a parametric context.
pub struct FlowProductions;

impl FlowProductions {
    /// [107-116] Double-quoted scalar: one line in key contexts, several folded lines in
    /// flow contexts; escapes are then processed.
    pub fn parse_double_quoted_scalar(state: &mut ScannerState, context: &ParametricContext, n: i32)
        -> (r: Result<String, ScanError>)
        requires
            old(state).wf(),
        ensures
            read_as(old(state), final(state), r,
                dq_outcome(old(state).spec_source(), old(state).spec_pos(), context.current_context,
                    |e: EscapeError| escape_error_debug(e))),
    {
        let ghost s = state.spec_source();
        let ghost m0 = state.spec_mark();
        let ghost p0 = state.spec_pos();
        proof { assert(s.subrange(p0, p0) =~= Seq::<char>::empty()); }
        if state.peek_char()? != '"' {
            return Err(ScanError::new(state.mark(), "expected opening double quote"));
        }
        let _ = state.consume_char();
        proof { lemma_marks_step(m0, s, p0, p0); }
        let mut content = String::new();
        match context.current_context {
            Context::FlowKey | Context::BlockKey => {
                Self::parse_double_quoted_single_line(state, &mut content, Ghost(p0), Ghost(m0));
            },
            Context::FlowIn | Context::FlowOut => {
                Self::parse_double_quoted_multi_line(state, &mut content, n, Ghost(p0), Ghost(m0));
            },
            _ => {
                return Err(ScanError::new(state.mark(), "invalid context for double-quoted scalar"));
            },
        }
        let ghost e = state.spec_pos();
        if state.peek_char()? != '"' {
            return Err(ScanError::new(state.mark(), "expected closing double quote"));
        }
        let _ = state.consume_char();
        proof { lemma_marks_step(m0, s, p0, e); }
        match CharacterProductions::process_escape_sequences(content.as_str()) {
            Ok(processed) => Ok(processed),
            Err(err) => {
                let mut msg = String::new();
                push_str(&mut msg, "escape sequence error: ");
                let t = escape_error_text(&err);
                push_str(&mut msg, t.as_str());
                Err(ScanError { mark: state.mark(), info: msg })
            },
        }
    }

    /// [117-125] Single-quoted scalar: `''` stands for a quote; no other escapes.
    pub fn parse_single_quoted_scalar(state: &mut ScannerState, _context: &ParametricContext, _n: i32)
        -> (r: Result<String, ScanError>)
        requires
            old(state).wf(),
        ensures
            read_as(old(state), final(state), r, sq_outcome(old(state).spec_source(), old(state).spec_pos())),
    {
        let ghost s = state.spec_source();
        let ghost m0 = state.spec_mark();
        let ghost p0 = state.spec_pos();
        proof { assert(s.subrange(p0, p0) =~= Seq::<char>::empty()); }
        if state.peek_char()? != '\'' {
            return Err(ScanError::new(state.mark(), "expected opening single quote"));
        }
        let _ = state.consume_char();
        proof { lemma_marks_step(m0, s, p0, p0); }
        let mut content = String::new();
        loop
            invariant
                old(state).wf(),
                state.read_on_from(old(state)),
                s == state.spec_source(),
                0 <= p0 < state.spec_pos() <= s.len(),
                p0 == old(state).spec_pos(),
                m0 == old(state).spec_mark(),
                state.spec_mark() == marks_over(m0, s.subrange(p0, state.spec_pos())),
                sq_outcome(s, p0) == sq_scan(s, state.spec_pos(), content@),
            decreases s.len() - state.spec_pos(),
        {
            let ghost p = state.spec_pos();
            let ch = state.peek_char()?;
            if ch == '\'' {
                let _ = state.consume_char();
                proof { lemma_marks_step(m0, s, p0, p); }
                let next = match state.peek_char() {
                    Ok(c) => c,
                    Err(_) => '\0',
                };
                if next == '\'' {
                    let _ = state.consume_char();
                    proof { lemma_marks_step(m0, s, p0, p + 1); }
                    push_char(&mut content, '\'');
                } else {
                    return Ok(content);
                }
            } else if CharacterProductions::is_printable(ch) {
                let _ = state.consume_char();
                proof { lemma_marks_step(m0, s, p0, p); }
                push_char(&mut content, ch);
            } else {
                return Err(ScanError::new(state.mark(), "invalid character in single-quoted scalar"));
            }
        }
    }

    /// [126-135] Plain scalar: a first character allowed under the context, then
    /// characters while the context's safety rules let it go on; trailing white space is
    /// dropped.
    pub fn parse_plain_scalar(state: &mut ScannerState, context: &ParametricContext, _n: i32)
        -> (r: Result<String, ScanError>)
        requires
            old(state).wf(),
        ensures
            read_as(old(state), final(state), r,
                plain_outcome(old(state).spec_source(), old(state).spec_pos(), context.current_context)),
    {
        let ghost s = state.spec_source();
        let ghost m0 = state.spec_mark();
        let ghost p0 = state.spec_pos();
        proof { assert(s.subrange(p0, p0) =~= Seq::<char>::empty()); }
        let mut content = String::new();
        let first_char = state.peek_char()?;
        if !Self::can_start_plain_scalar_in_context(first_char, context) {
            let mut msg = String::new();
            push_str(&mut msg, "character '");
            push_char(&mut msg, first_char);
            push_str(&mut msg, "' cannot start plain scalar in ");
            push_str(&mut msg, context_text(context.current_context));
            push_str(&mut msg, " context");
            assert(msg@ =~= plain_start_message(first_char, context.current_context));
            return Err(ScanError { mark: state.mark(), info: msg });
        }
        let _ = state.consume_char();
        proof { lemma_marks_step(m0, s, p0, p0); }
        push_char(&mut content, first_char);
        loop
            invariant
                old(state).wf(),
                state.read_on_from(old(state)),
                s == state.spec_source(),
                0 <= p0 < state.spec_pos() <= s.len(),
                p0 == old(state).spec_pos(),
                m0 == old(state).spec_mark(),
                state.spec_mark() == marks_over(m0, s.subrange(p0, state.spec_pos())),
                content@ == s.subrange(p0, state.spec_pos()),
                plain_end(s, p0 + 1, context.current_context) == plain_end(s, state.spec_pos(), context.current_context),
            ensures
                state.read_on_from(old(state)),
                0 <= p0 < state.spec_pos() <= s.len(),
                state.spec_mark() == marks_over(m0, s.subrange(p0, state.spec_pos())),
                content@ == s.subrange(p0, state.spec_pos()),
                plain_end(s, p0 + 1, context.current_context) == state.spec_pos(),
            decreases s.len() - state.spec_pos(),
        {
            let ghost p = state.spec_pos();
            let ch = match state.peek_char() {
                Ok(c) => c,
                Err(_) => { break; },
            };
            let can_continue = Self::can_continue_plain_scalar_in_context(ch, context, state)?;
            if can_continue {
                let _ = state.consume_char();
                proof {
                    lemma_marks_step(m0, s, p0, p);
                    assert(s.subrange(p0, p + 1) =~= s.subrange(p0, p).push(ch));
                }
                push_char(&mut content, ch);
            } else {
                break;
            }
        }
        Ok(str_trim_end(content.as_str()))
    }

    /// Whether `ch` can start a plain scalar under the context (`plain_start_ok`).
    fn can_start_plain_scalar_in_context(ch: char, context: &ParametricContext) -> (b: bool)
        ensures
            b == plain_start_ok(ch, context.current_context),
    {
        if !CharacterProductions::can_start_plain_scalar(ch) {
            return false;
        }
        match context.current_context {
            Context::FlowIn | Context::FlowOut => !(ch == '[' || ch == ']' || ch == '{' || ch == '}' || ch == ','),
            Context::FlowKey => !(ch == '[' || ch == ']' || ch == '{' || ch == '}' || ch == ',' || ch == ':'
                || ch == '?' || ch == '#'),
            _ => true,
        }
    }

    /// A flow sequence needs no more than the state machine already does: this succeeds
    /// and changes nothing.
    pub fn enhance_flow_sequence_parsing<F: Fn(&str) -> Option<String>>(_state_machine: &mut StateMachine<F>)
        -> (r: Result<(), ScanError>)
        ensures
            r is Ok,
    {
        Ok(())
    }

    /// [nb-double-one-line]: reads up to the closing quote, keeping escapes as written.
    fn parse_double_quoted_single_line(state: &mut ScannerState, content: &mut String, Ghost(q0): Ghost<int>,
        Ghost(m0): Ghost<Marker>)
        requires
            old(state).wf(),
            0 <= q0 <= old(state).spec_pos(),
            old(state).spec_mark() == marks_over(m0, old(state).spec_source().subrange(q0, old(state).spec_pos())),
            old(content)@ == Seq::<char>::empty(),
        ensures
            final(state).read_on_from(old(state)),
            final(state).spec_pos() == dq_one_line(old(state).spec_source(), old(state).spec_pos(), Seq::empty()).1,
            final(content)@ == dq_one_line(old(state).spec_source(), old(state).spec_pos(), Seq::empty()).0,
            final(state).spec_mark() == marks_over(m0, old(state).spec_source().subrange(q0, final(state).spec_pos())),
    {
        let ghost s = state.spec_source();
        let ghost p1 = state.spec_pos();
        loop
            invariant
                old(state).wf(),
                state.read_on_from(old(state)),
                s == state.spec_source(),
                0 <= q0 <= p1 <= state.spec_pos() <= s.len(),
                p1 == old(state).spec_pos(),
                state.spec_mark() == marks_over(m0, s.subrange(q0, state.spec_pos())),
                dq_one_line(s, p1, Seq::empty()) == dq_one_line(s, state.spec_pos(), content@),
            ensures
                state.read_on_from(old(state)),
                0 <= q0 <= p1 <= state.spec_pos() <= s.len(),
                state.spec_mark() == marks_over(m0, s.subrange(q0, state.spec_pos())),
                dq_one_line(s, p1, Seq::empty()) == (content@, state.spec_pos() as int),
            decreases s.len() - state.spec_pos(),
        {
            let ghost p = state.spec_pos();
            let ch = match state.peek_char() {
                Ok(c) => c,
                Err(_) => { break; },
            };
            if ch == '"' {
                break;
            } else if ch == '\\' {
                let _ = state.consume_char();
                proof { lemma_marks_step(m0, s, q0, p); }
                let ghost c0 = content@;
                push_char(content, '\\');
                match state.peek_char() {
                    Ok(escaped) => {
                        let _ = state.consume_char();
                        proof { lemma_marks_step(m0, s, q0, p + 1); }
                        push_char(content, escaped);
                        proof { assert(content@ =~= c0 + seq!['\\', escaped]); }
                    },
                    Err(_) => {},
                }
            } else if CharacterProductions::is_nb_json(ch) {
                let _ = state.consume_char();
                proof { lemma_marks_step(m0, s, q0, p); }
                push_char(content, ch);
            } else {
                break;
            }
        }
    }

    /// [nb-double-multi-line(n)]: reads up to the closing quote line by line, keeping
    /// escapes as written, then folds the lines as flow scalars fold (clipped).
    fn parse_double_quoted_multi_line(state: &mut ScannerState, content: &mut String, _n: i32, Ghost(q0): Ghost<int>,
        Ghost(m0): Ghost<Marker>)
        requires
            old(state).wf(),
            0 <= q0 <= old(state).spec_pos(),
            old(state).spec_mark() == marks_over(m0, old(state).spec_source().subrange(q0, old(state).spec_pos())),
            old(content)@ == Seq::<char>::empty(),
        ensures
            final(state).read_on_from(old(state)),
            final(state).spec_pos() == dq_multi_line(old(state).spec_source(), old(state).spec_pos(), Seq::empty(), Seq::empty()).1,
            final(content)@ == folding_spec(
                dq_multi_line(old(state).spec_source(), old(state).spec_pos(), Seq::empty(), Seq::empty()).0,
                ChompingMode::Clip, false),
            final(state).spec_mark() == marks_over(m0, old(state).spec_source().subrange(q0, final(state).spec_pos())),
    {
        let ghost s = state.spec_source();
        let ghost p1 = state.spec_pos();
        let mut lines: Vec<String> = Vec::new();
        let mut current_line = String::new();
        proof { assert(lines@.map_values(|l: String| l@) =~= Seq::<Seq<char>>::empty()); }
        loop
            invariant
                old(state).wf(),
                state.read_on_from(old(state)),
                s == state.spec_source(),
                0 <= q0 <= p1 <= state.spec_pos() <= s.len(),
                p1 == old(state).spec_pos(),
                state.spec_mark() == marks_over(m0, s.subrange(q0, state.spec_pos())),
                dq_multi_line(s, p1, Seq::empty(), Seq::empty())
                    == dq_multi_line(s, state.spec_pos(), lines@.map_values(|l: String| l@), current_line@),
            ensures
                state.read_on_from(old(state)),
                0 <= q0 <= p1 <= state.spec_pos() <= s.len(),
                state.spec_mark() == marks_over(m0, s.subrange(q0, state.spec_pos())),
                dq_multi_line(s, p1, Seq::empty(), Seq::empty())
                    == (line_list(lines@.map_values(|l: String| l@), current_line@), state.spec_pos() as int),
            decreases s.len() - state.spec_pos(),
        {
            let ghost p = state.spec_pos();
            let ch = match state.peek_char() {
                Ok(c) => c,
                Err(_) => { break; },
            };
            if ch == '"' {
                break;
            } else if ch == '\\' {
                let _ = state.consume_char();
                proof { lemma_marks_step(m0, s, q0, p); }
                let ghost c0 = current_line@;
                push_char(&mut current_line, '\\');
                match state.peek_char() {
                    Ok(escaped) => {
                        let _ = state.consume_char();
                        proof { lemma_marks_step(m0, s, q0, p + 1); }
                        push_char(&mut current_line, escaped);
                        proof { assert(current_line@ =~= c0 + seq!['\\', escaped]); }
                    },
                    Err(_) => {},
                }
            } else if ch == '\n' || ch == '\r' {
                let ghost ls = lines@.map_values(|l: String| l@);
                let done = current_line;
                lines.push(done);
                current_line = String::new();
                proof { assert(lines@.map_values(|l: String| l@) =~= ls.push(done@)); }
                let _ = state.consume_char();
                proof { lemma_marks_step(m0, s, q0, p); }
            } else if CharacterProductions::is_nb_json(ch) {
                let _ = state.consume_char();
                proof { lemma_marks_step(m0, s, q0, p); }
                push_char(&mut current_line, ch);
            } else {
                break;
            }
        }
        let ghost ls = lines@.map_values(|l: String| l@);
        if current_line.as_str().unicode_len() > 0 {
            let done = current_line;
            lines.push(done);
            proof { assert(lines@.map_values(|l: String| l@) =~= ls.push(done@)); }
        }
        let folded = StructuralProductions::apply_line_folding(lines.as_slice(), ChompingMode::Clip, false);
        push_str(content, folded.as_str());
    }

    /// Whether a plain scalar goes on with `ch` under the context (`plain_continues`).
    fn can_continue_plain_scalar_in_context(ch: char, context: &ParametricContext, state: &mut ScannerState)
        -> (r: Result<bool, ScanError>)
        requires
            old(state).wf(),
            old(state).spec_pos() < old(state).spec_source().len(),
            ch == old(state).spec_source()[old(state).spec_pos()],
        ensures
            final(state).only_window_grew(old(state)),
            r == Ok::<bool, ScanError>(plain_continues(old(state).spec_source(), old(state).spec_pos(),
                context.current_context)),
    {
        if !CharacterProductions::can_continue_plain_scalar(ch) {
            return Ok(false);
        }
        match context.current_context {
            Context::FlowIn | Context::FlowOut => {
                if ch == ':' || ch == ',' || ch == ']' || ch == '}' {
                    Ok(Self::check_flow_indicator_ambiguity(ch, state))
                } else {
                    Ok(true)
                }
            },
            _ => Ok(true),
        }
    }

    /// Whether an indicator in a flow context is content: only a `:` followed by a
    /// character that is not white space.
    fn check_flow_indicator_ambiguity(ch: char, state: &mut ScannerState) -> (b: bool)
        requires
            old(state).wf(),
        ensures
            final(state).only_window_grew(old(state)),
            b == (ch == ':' && old(state).spec_pos() + 1 < old(state).spec_source().len()
                && !spec_is_space(old(state).spec_source()[old(state).spec_pos() + 1])),
    {
        if ch == ':' {
            match state.peek_char_at(1) {
                Some(next) => !CharacterProductions::is_white(next),
                None => false,
            }
        } else {
            false
        }
    }
}

} // verus!
