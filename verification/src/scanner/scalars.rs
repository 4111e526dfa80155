//! Scalar scanning: plain, single-quoted, double-quoted (with escapes) and block scalars,
//! and the folding and chomping of block scalar lines.
use vstd::prelude::*;
use crate::error::ScanError;
use crate::parser::character_productions::CharacterProductions;
use crate::parser::grammar::context_types::ChompingMode;
use crate::scanner::state::{ScannerConfig, ScannerState, marker_ahead};
use crate::lexer::unicode::{hex_value, leading_hex_len};
use crate::text::{push_char, push_str, push_chars, char_from_u32, str_to_chars, trim_end_spec, trim_spec,
    str_trim_end, str_trim, trim_end_index, is_ws, is_scalar_value};

verus! {

/// The characters of a scanned scalar's text, as positions consumed.
pub open spec fn consumed_from(old: &ScannerState, new: &ScannerState) -> Seq<char> {
    old.spec_source().subrange(old.spec_pos(), new.spec_pos())
}

/// The number of spaces from `i` on.
pub open spec fn space_run(s: Seq<char>, i: int) -> nat
    decreases s.len() - i,
{
    if 0 <= i < s.len() && s[i] == ' ' { 1 + space_run(s, i + 1) } else { 0 }
}

/// A run of spaces stays within the input.
pub proof fn lemma_space_run_bound(s: Seq<char>, i: int)
    requires
        0 <= i <= s.len(),
    ensures
        i + space_run(s, i) <= s.len(),
        i + space_run(s, i) < s.len() ==> s[i + space_run(s, i)] != ' ',
    decreases s.len() - i,
{
    if i < s.len() && s[i] == ' ' {
        lemma_space_run_bound(s, i + 1);
    }
}

/// The text so far with a line break folded in: a space, unless it is empty or already
/// ends with one.
pub open spec fn fold_space(acc: Seq<char>) -> Seq<char> {
    if acc.len() > 0 && acc.last() != ' ' { acc.push(' ') } else { acc }
}

/// Where folding a line break at `i` goes on: past the break and the spaces after it; none
/// where a tab follows them.
pub open spec fn fold_break(s: Seq<char>, i: int) -> Option<int> {
    let j = i + 1 + space_run(s, i + 1);
    if j < s.len() && s[j] == '\t' { None } else { Some(j) }
}

/// The rest of a single-quoted scalar from `i`, after the text `acc`: its text and where it
/// ends, past the closing quote; none without one.
pub open spec fn sq_scan(s: Seq<char>, i: int, acc: Seq<char>) -> Option<(Seq<char>, int)>
    decreases s.len() - i,
{
    if i < 0 || i >= s.len() {
        None
    } else if s[i] == '\'' {
        if i + 1 < s.len() && s[i + 1] == '\'' { sq_scan(s, i + 2, acc.push('\'')) } else { Some((acc, i + 1)) }
    } else if s[i] == '\n' || s[i] == '\r' {
        proof { lemma_space_run_bound(s, i + 1); }
        match fold_break(s, i) {
            Some(j) => sq_scan(s, j, fold_space(acc)),
            None => None,
        }
    } else {
        sq_scan(s, i + 1, acc.push(s[i]))
    }
}

/// The digits that follow `\x`, `\u` and `\U`.
pub open spec fn hex_escape_len(c: char) -> nat {
    if c == 'x' { 2 } else if c == 'u' { 4 } else if c == 'U' { 8 } else { 0 }
}

/// The escape after a backslash at `i`: the character it stands for and where it ends; none
/// for an invalid one.
pub open spec fn escape_scan(s: Seq<char>, i: int) -> Option<(char, int)> {
    if i < 0 || i >= s.len() {
        None
    } else {
        let e = s[i];
        match simple_escape_char(e) {
            Some(c) => Some((c, i + 1)),
            None => if hex_escape_len(e) > 0 {
                let n = hex_escape_len(e);
                if i + 1 + n > s.len() {
                    None
                } else {
                    let d = s.subrange(i + 1, i + 1 + n);
                    let v = hex_value(d);
                    if leading_hex_len(d) < n {
                        None
                    } else if e == 'x' {
                        Some((((v as u32) as u8) as char, i + 1 + n))
                    } else if is_scalar_value(v) {
                        Some(((v as u32) as char, i + 1 + n))
                    } else {
                        None
                    }
                }
            } else if e == '\n' || e == '\r' {
                match fold_break(s, i) {
                    Some(j) => Some((' ', j)),
                    None => None,
                }
            } else {
                None
            },
        }
    }
}

/// The rest of a double-quoted scalar from `i`, after the text `acc`: its text and where
/// it ends, past the closing quote; none without one or with an invalid escape.
pub open spec fn dq_scan(s: Seq<char>, i: int, acc: Seq<char>) -> Option<(Seq<char>, int)>
    decreases s.len() - i,
{
    if i < 0 || i >= s.len() {
        None
    } else if s[i] == '"' {
        Some((acc, i + 1))
    } else if s[i] == '\\' {
        match escape_scan(s, i + 1) {
            Some((c, j)) => if i < j <= s.len() { dq_scan(s, j, acc.push(c)) } else { None },
            None => None,
        }
    } else if s[i] == '\n' || s[i] == '\r' {
        proof { lemma_space_run_bound(s, i + 1); }
        match fold_break(s, i) {
            Some(j) => dq_scan(s, j, fold_space(acc)),
            None => None,
        }
    } else {
        dq_scan(s, i + 1, acc.push(s[i]))
    }
}

/// Where the line at `i` ends: past its line break (`\r\n` counts as one), or the end.
pub open spec fn after_line(s: Seq<char>, i: int) -> int
    decreases s.len() - i,
{
    if i < 0 || i >= s.len() {
        i
    } else if s[i] == '\n' {
        i + 1
    } else if s[i] == '\r' {
        if i + 1 < s.len() && s[i + 1] == '\n' { i + 2 } else { i + 1 }
    } else {
        after_line(s, i + 1)
    }
}

/// The indentation of the first line from `i` with content, blank lines skipped; 0 where
/// none has content.
pub open spec fn first_content_indent(s: Seq<char>, i: int) -> nat
    decreases s.len() - i,
{
    let n = space_run(s, i);
    let j = i + n;
    if i < 0 || j >= s.len() {
        0
    } else if s[j] == '\n' {
        proof { lemma_space_run_bound(s, i); }
        first_content_indent(s, j + 1)
    } else if s[j] == '\r' {
        proof { lemma_space_run_bound(s, i); }
        if j + 1 < s.len() && s[j + 1] == '\n' { first_content_indent(s, j + 2) } else { first_content_indent(s, j + 1) }
    } else {
        n
    }
}

/// The flow indicators that end a plain scalar in flow context.
pub open spec fn plain_flow_char(c: char) -> bool {
    c == ',' || c == '[' || c == ']' || c == '{' || c == '}'
}

fn is_flow_char(ch: char) -> (b: bool)
    ensures
        b == plain_flow_char(ch),
{
    ch == ',' || ch == '[' || ch == ']' || ch == '{' || ch == '}'
}

/// Where a run of line breaks from `i` ends.
pub open spec fn break_run_end(s: Seq<char>, i: int) -> int
    decreases s.len() - i,
{
    if 0 <= i < s.len() && (s[i] == '\n' || s[i] == '\r') { break_run_end(s, i + 1) } else { i }
}

/// A run of line breaks stays within the input and ends at no line break.
pub proof fn lemma_break_run(s: Seq<char>, i: int)
    requires
        0 <= i <= s.len(),
    ensures
        i <= break_run_end(s, i) <= s.len(),
        break_run_end(s, i) < s.len() ==> s[break_run_end(s, i)] != '\n' && s[break_run_end(s, i)] != '\r',
    decreases s.len() - i,
{
    if i < s.len() && (s[i] == '\n' || s[i] == '\r') {
        lemma_break_run(s, i + 1);
    }
}

/// How a plain scalar ends at `i` with the text `res` read: that text without trailing
/// white space, or an error when nothing is left.
pub open spec fn plain_finish(res: Seq<char>, i: int) -> Result<(Seq<char>, int), (int, bool)> {
    if trim_end_spec(res).len() == 0 { Err((i, false)) } else { Ok((trim_end_spec(res), i)) }
}

/// The rest of a plain scalar from `i`, for a scalar that started at column `col`, in flow
/// context or not, after the text `res` and the pending spaces `sp`: its text and where
/// scanning stopped, or where it failed (`true` for a tab, `false` for no text). It ends at
/// the input's end, a flow indicator in flow context, `:` before a blank (or a flow
/// indicator in flow context), ` #`, a document marker, a line break in flow context, or a
/// following line indented less than the scalar or not at all; such a line folds into one
/// space otherwise, and spaces count only before more text.
pub open spec fn plain_scan(s: Seq<char>, i: int, col: usize, flow: bool, res: Seq<char>, sp: Seq<char>)
    -> Result<(Seq<char>, int), (int, bool)>
    decreases s.len() - i,
{
    if i < 0 || i >= s.len() {
        plain_finish(res, i)
    } else {
        let ch = s[i];
        if flow && plain_flow_char(ch) {
            plain_finish(res, i)
        } else if ch == ':' && (i + 1 >= s.len() || s[i + 1] == ' ' || s[i + 1] == '\t' || s[i + 1] == '\n'
            || s[i + 1] == '\r' || (flow && plain_flow_char(s[i + 1]))) {
            plain_finish(res, i)
        } else if ch == '#' && sp.len() > 0 {
            plain_finish(res, i)
        } else if ch == ' ' {
            plain_scan(s, i + 1, col, flow, res, sp.push(' '))
        } else if ch == '\t' {
            Err((i, true))
        } else if ch == '\n' || ch == '\r' {
            if flow {
                plain_finish(res, i)
            } else {
                proof { lemma_break_run(s, i + 1); }
                let j = break_run_end(s, i + 1);
                proof { lemma_space_run_bound(s, j); }
                let k = j + space_run(s, j);
                if k < s.len() && s[k] == '\t' {
                    Err((k, true))
                } else if k - j > 0 && k - j >= col {
                    plain_scan(s, k, col, flow, (if res.len() > 0 && sp.len() > 0 { res + sp } else { res }).push(' '),
                        Seq::empty())
                } else {
                    plain_finish(res, k)
                }
            }
        } else if (ch == '-' || ch == '.') && (marker_ahead(s, i, '-') || marker_ahead(s, i, '.')) {
            plain_finish(res, i)
        } else {
            plain_scan(s, i + 1, col, flow, (if sp.len() > 0 { res + sp } else { res }).push(ch), Seq::empty())
        }
    }
}

/// The plain scalar that scanning from `st` reads (`plain_scan` from its position, column
/// and context).
pub open spec fn plain_scalar_outcome(st: &ScannerState) -> Result<(Seq<char>, int), (int, bool)> {
    plain_scan(st.spec_source(), st.spec_pos(), st.spec_mark().col, st.spec_flow_level() > 0, Seq::empty(), Seq::empty())
}

/// Scan plain scalar: a run of content ending at `: `, ` #`, a flow indicator in flow
/// context, a document marker, or a line that is not indented enough; line breaks fold to
/// spaces and trailing spaces are dropped (`plain_scan`).
pub fn scan_plain_scalar(state: &mut ScannerState, config: &ScannerConfig) -> (r: Result<String, ScanError>)
    requires
        old(state).wf(),
    ensures
        final(state).read_on_from(old(state)),
        match plain_scalar_outcome(old(state)) {
            Ok((v, e)) => r matches Ok(t) && t@ == v && final(state).spec_pos() == e,
            Err((e, tab)) => r matches Err(x) && final(state).spec_pos() == e && x.mark == final(state).spec_mark()
                && x.info@ == (if tab { "tabs are not allowed in YAML, use spaces for indentation"@ } else { "empty plain scalar"@ }),
        },
        r matches Ok(s) ==> s@.len() > 0 && trim_end_spec(s@) == s@,
{
    let mut result = String::new();
    let mut spaces = String::new();
    let start_col = state.column();
    let in_flow = state.in_flow_context();
    let ghost src = old(state).spec_source();
    let ghost goal = plain_scalar_outcome(old(state));
    assert(result@ =~= Seq::<char>::empty() && spaces@ =~= Seq::<char>::empty());
    loop
        invariant_except_break
            plain_scan(src, state.spec_pos(), start_col, in_flow, result@, spaces@) == goal,
        invariant
            old(state).wf(),
            state.read_on_from(old(state)),
            state.spec_flow_level() == old(state).spec_flow_level(),
            src == old(state).spec_source(),
            in_flow == (old(state).spec_flow_level() > 0),
            start_col == old(state).spec_mark().col,
            goal == plain_scalar_outcome(old(state)),
        ensures
            state.read_on_from(old(state)),
            plain_finish(result@, state.spec_pos()) == goal,
        decreases state.spec_source().len() - state.spec_pos(),
    {
        let ghost i = state.spec_pos();
        let ch = match state.peek_char() {
            Ok(c) => c,
            Err(_) => { break; },
        };
        if in_flow && is_flow_char(ch) {
            break;
        }
        if ch == ':' {
            match state.peek_char_at(1) {
                Some(next) => {
                    if next == ' ' || next == '\t' || next == '\n' || next == '\r' || (in_flow && is_flow_char(next)) {
                        break;
                    }
                },
                None => {
                    break;
                },
            }
        }
        if ch == '#' && spaces.as_str().unicode_len() > 0 {
            break;
        }
        if ch == ' ' {
            let c = state.consume_char()?;
            push_char(&mut spaces, c);
            assert(plain_scan(src, state.spec_pos(), start_col, in_flow, result@, spaces@) == goal);
            continue;
        }
        if ch == '\t' {
            return Err(ScanError::new(state.mark(), "tabs are not allowed in YAML, use spaces for indentation"));
        }
        if ch == '\n' || ch == '\r' {
            if !in_flow {
                let ghost p_nl = state.spec_pos();
                state.consume_char()?;
                proof { lemma_break_run(src, p_nl + 1); }
                loop
                    invariant
                        old(state).wf(),
                        state.read_on_from(old(state)),
                        src == old(state).spec_source(),
                        state.spec_pos() > p_nl,
                        state.spec_pos() <= break_run_end(src, p_nl + 1),
                        break_run_end(src, state.spec_pos()) == break_run_end(src, p_nl + 1),
                        p_nl == i,
                        plain_scan(src, i, start_col, in_flow, result@, spaces@) == goal,
                        goal == plain_scalar_outcome(old(state)),
                        0 <= i < src.len() && (src[i] == '\n' || src[i] == '\r'),
                        !in_flow,
                    ensures
                        state.read_on_from(old(state)),
                        state.spec_pos() == break_run_end(src, p_nl + 1),
                    decreases state.spec_source().len() - state.spec_pos(),
                {
                    let ghost q = state.spec_pos();
                    match state.peek_char() {
                        Ok('\n') | Ok('\r') => {
                            proof { lemma_break_run(src, q + 1); }
                            state.consume_char()?;
                        },
                        _ => {
                            break;
                        },
                    }
                }
                let ghost j = state.spec_pos();
                proof { lemma_space_run_bound(src, j); }
                let mut next_col: usize = 0;
                loop
                    invariant
                        old(state).wf(),
                        state.read_on_from(old(state)),
                        src == old(state).spec_source(),
                        j <= state.spec_pos(),
                        next_col == state.spec_pos() - j,
                        state.spec_pos() + space_run(src, state.spec_pos()) == j + space_run(src, j),
                        j == break_run_end(src, i + 1),
                        plain_scan(src, i, start_col, in_flow, result@, spaces@) == goal,
                        goal == plain_scalar_outcome(old(state)),
                        0 <= i < src.len() && (src[i] == '\n' || src[i] == '\r'),
                        !in_flow,
                        start_col == old(state).spec_mark().col,
                    ensures
                        state.read_on_from(old(state)),
                        next_col == state.spec_pos() - j,
                        state.spec_pos() == j + space_run(src, j),
                        state.spec_pos() < src.len() ==> src[state.spec_pos()] != '\t',
                    decreases state.spec_source().len() - state.spec_pos(),
                {
                    match state.peek_char() {
                        Ok(' ') => {
                            state.consume_char()?;
                            next_col = next_col + 1;
                        },
                        Ok('\t') => {
                            proof {
                                assert(space_run(src, state.spec_pos()) == 0);
                                assert(plain_scan(src, i, start_col, in_flow, result@, spaces@)
                                    == Err::<(Seq<char>, int), (int, bool)>((state.spec_pos(), true)));
                            }
                            return Err(ScanError::new(state.mark(), "tabs are not allowed in YAML, use spaces for indentation"));
                        },
                        _ => {
                            break;
                        },
                    }
                }
                if next_col > 0 && next_col >= start_col {
                    if result.as_str().unicode_len() > 0 && spaces.as_str().unicode_len() > 0 {
                        push_str(&mut result, spaces.as_str());
                    }
                    push_char(&mut result, ' ');
                    spaces = String::new();
                    assert(spaces@ =~= Seq::<char>::empty());
                    assert(plain_scan(src, state.spec_pos(), start_col, in_flow, result@, spaces@) == goal);
                } else {
                    break;
                }
                continue;
            } else {
                break;
            }
        }
        if ch == '-' || ch == '.' {
            let ds = state.check_document_start()?;
            let marker = if ds { true } else { state.check_document_end()? };
            if marker {
                break;
            }
        }
        if spaces.as_str().unicode_len() > 0 {
            push_str(&mut result, spaces.as_str());
            spaces = String::new();
        }
        let c = state.consume_char()?;
        push_char(&mut result, c);
        assert(spaces@ =~= Seq::<char>::empty());
        assert(plain_scan(src, state.spec_pos(), start_col, in_flow, result@, spaces@) == goal);
    }
    let trimmed = str_trim_end(result.as_str());
    proof { lemma_trim_end_idempotent(result@); }
    if trimmed.as_str().unicode_len() == 0 {
        return Err(ScanError::new(state.mark(), "empty plain scalar"));
    }
    Ok(trimmed)
}

/// Trimming the end twice is trimming it once.
pub proof fn lemma_trim_end_idempotent(s: Seq<char>)
    ensures
        trim_end_spec(trim_end_spec(s)) == trim_end_spec(s),
    decreases s.len(),
{
    if s.len() > 0 && is_ws(s.last()) {
        lemma_trim_end_idempotent(s.drop_last());
    }
}

/// Skip the spaces that indent a folded line; a tab among them is an error.
fn skip_fold_indent(state: &mut ScannerState) -> (r: Result<(), ScanError>)
    requires
        old(state).wf(),
    ensures
        final(state).read_on_from(old(state)),
        final(state).spec_flow_level() == old(state).spec_flow_level(),
        final(state).spec_pos() == old(state).spec_pos() + space_run(old(state).spec_source(), old(state).spec_pos()),
        r is Ok <==> fold_break(old(state).spec_source(), old(state).spec_pos() - 1) is Some,
        r matches Err(e) ==> e.info@ == "tabs are not allowed in YAML, use spaces for indentation"@,
{
    let ghost s = old(state).spec_source();
    let ghost p = old(state).spec_pos();
    loop
        invariant
            old(state).wf(),
            state.read_on_from(old(state)),
            s == old(state).spec_source(),
            p == old(state).spec_pos(),
            state.spec_pos() + space_run(s, state.spec_pos()) == p + space_run(s, p),
        ensures
            state.read_on_from(old(state)),
            state.spec_pos() == p + space_run(s, p),
            !(state.spec_pos() < s.len() && s[state.spec_pos()] == '\t'),
        decreases state.spec_source().len() - state.spec_pos(),
    {
        match state.peek_char() {
            Ok(' ') => {
                state.consume_char()?;
            },
            Ok('\t') => {
                proof { assert(space_run(s, state.spec_pos() as int) == 0); }
                return Err(ScanError::new(state.mark(), "tabs are not allowed in YAML, use spaces for indentation"));
            },
            _ => {
                proof { assert(space_run(s, state.spec_pos() as int) == 0); }
                break;
            },
        }
    }
    Ok(())
}

fn ends_with_space(s: &String) -> (b: bool)
    ensures
        b == (s@.len() > 0 && s@.last() == ' '),
{
    let n = s.as_str().unicode_len();
    n > 0 && s.as_str().get_char(n - 1) == ' '
}

/// Scan single-quoted scalar: `''` stands for a quote, and line breaks fold to a space.
/// It succeeds only at the closing quote.
pub fn scan_single_quoted(state: &mut ScannerState) -> (r: Result<String, ScanError>)
    requires
        old(state).wf(),
    ensures
        final(state).read_on_from(old(state)),
        r is Ok ==> final(state).spec_pos() > old(state).spec_pos()
            && final(state).spec_source()[final(state).spec_pos() - 1] == '\'',
        match r {
            Ok(x) => sq_scan(old(state).spec_source(), old(state).spec_pos(), Seq::empty())
                == Some((x@, final(state).spec_pos())),
            Err(_) => sq_scan(old(state).spec_source(), old(state).spec_pos(), Seq::empty()) is None,
        },
{
    let ghost s = old(state).spec_source();
    let ghost p = old(state).spec_pos();
    let mut result = String::new();
    loop
        invariant
            old(state).wf(),
            state.read_on_from(old(state)),
            s == old(state).spec_source(),
            p == old(state).spec_pos(),
            sq_scan(s, state.spec_pos(), result@) == sq_scan(s, p, Seq::empty()),
        decreases state.spec_source().len() - state.spec_pos(),
    {
        let ghost p = state.spec_pos();
        let ch = state.peek_char()?;
        if ch == '\'' {
            state.consume_char()?;
            match state.peek_char() {
                Ok('\'') => {
                    state.consume_char()?;
                    push_char(&mut result, '\'');
                },
                _ => {
                    return Ok(result);
                },
            }
        } else if ch == '\n' || ch == '\r' {
            state.consume_char()?;
            skip_fold_indent(state)?;
            if result.as_str().unicode_len() > 0 && !ends_with_space(&result) {
                push_char(&mut result, ' ');
            }
        } else {
            let c = state.consume_char()?;
            push_char(&mut result, c);
        }
    }
}

/// The character a one-letter escape stands for.
pub open spec fn simple_escape_char(c: char) -> Option<char> {
    if c == '0' { Some('\0') }
    else if c == 'a' { Some('\x07') }
    else if c == 'b' { Some('\x08') }
    else if c == 't' { Some('\t') }
    else if c == 'n' { Some('\n') }
    else if c == 'v' { Some('\x0b') }
    else if c == 'f' { Some('\x0c') }
    else if c == 'r' { Some('\r') }
    else if c == 'e' { Some('\x1b') }
    else if c == ' ' { Some(' ') }
    else if c == '"' { Some('"') }
    else if c == '/' { Some('/') }
    else if c == '\\' { Some('\\') }
    else if c == 'N' { Some('\u{85}') }
    else if c == '_' { Some('\u{A0}') }
    else if c == 'L' { Some('\u{2028}') }
    else if c == 'P' { Some('\u{2029}') }
    else { None }
}

fn read_hex_escape(state: &mut ScannerState, n: usize) -> (r: Result<Vec<char>, ScanError>)
    requires
        old(state).wf(),
        n <= 8,
    ensures
        final(state).read_on_from(old(state)),
        r is Ok <==> old(state).spec_pos() + n <= old(state).spec_source().len(),
        r matches Ok(v) ==> v@.len() == n && v@ == consumed_from(old(state), final(state))
            && final(state).spec_pos() == old(state).spec_pos() + n,
{
    let ghost s = old(state).spec_source();
    let ghost p0 = old(state).spec_pos();
    let mut v: Vec<char> = Vec::new();
    let mut i: usize = 0;
    while i < n
        invariant
            s == old(state).spec_source(),
            p0 == old(state).spec_pos(),
            old(state).wf(),
            state.read_on_from(old(state)),
            i <= n,
            v@.len() == i,
            state.spec_pos() == p0 + i,
            v@ == s.subrange(p0, state.spec_pos()),
        decreases n - i,
    {
        let ghost ph = state.spec_pos();
        state.peek_char()?;
        let c = state.consume_char()?;
        v.push(c);
        proof { crate::text::lemma_subrange_extend(s, p0, ph); }
        i = i + 1;
    }
    Ok(v)
}

/// Process an escape after `\`: a one-letter escape, `\x`, `\u` or `\U` with hex digits,
/// or an escaped line break (folded to a space).
fn process_escape_sequence(state: &mut ScannerState) -> (r: Result<char, ScanError>)
    requires
        old(state).wf(),
    ensures
        final(state).read_on_from(old(state)),
        match r {
            Ok(c) => escape_scan(old(state).spec_source(), old(state).spec_pos()) == Some((c, final(state).spec_pos())),
            Err(_) => escape_scan(old(state).spec_source(), old(state).spec_pos()) is None,
        },
{
    let ghost s = old(state).spec_source();
    let ghost i = old(state).spec_pos();
    state.peek_char()?;
    let e = state.consume_char()?;
    match e {
        '0' => Ok('\0'),
        'a' => Ok('\x07'),
        'b' => Ok('\x08'),
        't' => Ok('\t'),
        'n' => Ok('\n'),
        'v' => Ok('\x0b'),
        'f' => Ok('\x0c'),
        'r' => Ok('\r'),
        'e' => Ok('\x1b'),
        ' ' => Ok(' '),
        '"' => Ok('"'),
        '/' => Ok('/'),
        '\\' => Ok('\\'),
        'N' => Ok('\u{85}'),
        '_' => Ok('\u{A0}'),
        'L' => Ok('\u{2028}'),
        'P' => Ok('\u{2029}'),
        'x' | 'u' | 'U' => {
            let n: usize = if e == 'x' { 2 } else if e == 'u' { 4 } else { 8 };
            let digits = read_hex_escape(state, n)?;
            proof {
                crate::lexer::unicode::lemma_hex_prefix_fits(digits@);
                crate::lexer::unicode::lemma_leading_hex_le(digits@);
                assert(digits@ == s.subrange(i + 1, i + 1 + n));
                if leading_hex_len(digits@) == n {
                    assert(digits@.take(n as int) =~= digits@);
                    assert forall|j: int| 0 <= j < digits@.len() implies crate::lexer::unicode::is_hex_digit(#[trigger] digits@[j]) by {
                        crate::lexer::unicode::lemma_leading_hex(digits@, j);
                    }
                    crate::lexer::unicode::lemma_hex_value_bound(digits@);
                }
            }
            match CharacterProductions::parse_hex_chars(digits.as_slice()) {
                Ok(value) => {
                    if e == 'x' {
                        let b = value as u8;
                        proof {
                            assert(value == hex_value(digits@) as u32);
                            assert(hex_escape_len(e) == n);
                            assert(escape_scan(s, i) == Some((b as char, i + 1 + n)));
                        }
                        Ok(b as char)
                    } else {
                        match char_from_u32(value) {
                            Some(c) => {
                                proof {
                                    vstd::utf8::char_u32_cast(c, value);
                                    assert(escape_scan(s, i) == Some((c, i + 1 + n)));
                                }
                                Ok(c)
                            },
                            None => Err(ScanError::new(state.mark(), "invalid Unicode code point")),
                        }
                    }
                },
                Err(_) => {
                    if e == 'x' {
                        Err(ScanError::new(state.mark(), "invalid hex escape"))
                    } else {
                        Err(ScanError::new(state.mark(), "invalid unicode escape"))
                    }
                },
            }
        },
        '\n' | '\r' => {
            skip_fold_indent(state)?;
            proof { assert(escape_scan(s, i) == Some((' ', state.spec_pos()))); }
            Ok(' ')
        },
        _ => {
            let mut msg = String::new();
            push_str(&mut msg, "invalid escape sequence '\\");
            push_char(&mut msg, e);
            push_char(&mut msg, '\'');
            Err(ScanError::new(state.mark(), msg.as_str()))
        },
    }
}

/// Scan double-quoted scalar with escape sequences; line breaks fold to a space. It
/// succeeds only at the closing quote.
pub fn scan_double_quoted(state: &mut ScannerState) -> (r: Result<String, ScanError>)
    requires
        old(state).wf(),
    ensures
        final(state).read_on_from(old(state)),
        r is Ok ==> final(state).spec_pos() > old(state).spec_pos()
            && final(state).spec_source()[final(state).spec_pos() - 1] == '"',
        match r {
            Ok(x) => dq_scan(old(state).spec_source(), old(state).spec_pos(), Seq::empty())
                == Some((x@, final(state).spec_pos())),
            Err(_) => dq_scan(old(state).spec_source(), old(state).spec_pos(), Seq::empty()) is None,
        },
{
    let ghost s = old(state).spec_source();
    let ghost p = old(state).spec_pos();
    let mut result = String::new();
    loop
        invariant
            old(state).wf(),
            state.read_on_from(old(state)),
            s == old(state).spec_source(),
            p == old(state).spec_pos(),
            dq_scan(s, state.spec_pos(), result@) == dq_scan(s, p, Seq::empty()),
        decreases state.spec_source().len() - state.spec_pos(),
    {
        let ch = state.peek_char()?;
        if ch == '"' {
            state.consume_char()?;
            return Ok(result);
        } else if ch == '\\' {
            state.consume_char()?;
            let escaped = process_escape_sequence(state)?;
            push_char(&mut result, escaped);
        } else if ch == '\n' || ch == '\r' {
            state.consume_char()?;
            skip_fold_indent(state)?;
            if result.as_str().unicode_len() > 0 && !ends_with_space(&result) {
                push_char(&mut result, ' ');
            }
        } else {
            let c = state.consume_char()?;
            push_char(&mut result, c);
        }
    }
}

/// `n` line feeds.
pub open spec fn newlines(n: nat) -> Seq<char> {
    Seq::new(n, |i: int| '\n')
}

/// `s` without its trailing line feeds.
pub open spec fn trim_newlines(s: Seq<char>) -> Seq<char>
    decreases s.len(),
{
    if s.len() > 0 && s.last() == '\n' { trim_newlines(s.drop_last()) } else { s }
}

/// Folding block scalar lines: the text so far, the line feeds held back, and whether no
/// content line has been seen yet.
pub open spec fn fold_lines(lines: Seq<Seq<char>>, literal: bool) -> (Seq<char>, nat, bool)
    decreases lines.len(),
{
    if lines.len() == 0 {
        (Seq::empty(), 0, true)
    } else {
        let (res, breaks, first) = fold_lines(lines.drop_last(), literal);
        let line = lines.last();
        if trim_spec(line).len() == 0 {
            (res, breaks + 1, first)
        } else {
            let res1 = if breaks > 0 {
                if literal || breaks > 1 { res + newlines(breaks) } else if res.len() > 0 { res.push(' ') } else { res }
            } else {
                res
            };
            let res2 = if !first && literal { res1.push('\n') } else if !first && !literal && res1.len() > 0 { res1.push(' ') } else { res1 };
            (res2 + trim_end_spec(line), 0, false)
        }
    }
}

/// Block scalar text after chomping: strip drops trailing line feeds, clip keeps one line
/// feed when blank lines were held back, keep keeps all of them.
pub open spec fn folding_spec(lines: Seq<Seq<char>>, chomping: ChompingMode, literal: bool) -> Seq<char> {
    let (res, breaks, _) = fold_lines(lines, literal);
    match chomping {
        ChompingMode::Strip => trim_newlines(res),
        ChompingMode::Clip => if breaks > 0 { res.push('\n') } else { res },
        ChompingMode::Keep => res + newlines(breaks),
    }
}

/// A line with content: some character of it is not White_Space.
pub open spec fn content_line(l: Seq<char>) -> bool {
    exists|k: int| 0 <= k < l.len() && !is_ws(#[trigger] l[k])
}

/// Lines joined into one text with `sep` between consecutive ones.
pub open spec fn joined_lines(ls: Seq<Seq<char>>, sep: char) -> Seq<char>
    decreases ls.len(),
{
    if ls.len() == 0 {
        Seq::empty()
    } else if ls.len() == 1 {
        ls[0]
    } else {
        joined_lines(ls.drop_last(), sep).push(sep) + ls.last()
    }
}

/// Each line without its trailing White_Space.
pub open spec fn trimmed_lines(ls: Seq<Seq<char>>) -> Seq<Seq<char>> {
    ls.map_values(|l: Seq<char>| trim_end_spec(l))
}

/// A line with content keeps it when trimmed, and ends in a character that is not White_Space
/// once its end is trimmed.
pub proof fn lemma_content_line_trim(l: Seq<char>)
    requires
        content_line(l),
    ensures
        trim_spec(l).len() > 0,
        trim_end_spec(l).len() > 0,
        !is_ws(trim_end_spec(l).last()),
{
    let k = choose|k: int| 0 <= k < l.len() && !is_ws(#[trigger] l[k]);
    lemma_trim_start_keeps(l, k);
    let x = crate::text::trim_start_spec(l);
    crate::text::lemma_trim_start_len(l);
    let m = l.len() - x.len();
    assert(x[k - m] == l[k]);
    lemma_trim_end_keeps(x, k - m);
    lemma_trim_end_keeps(l, k);
    lemma_trim_end_last(l);
}

/// Trimming the front stops at the first character that is not White_Space.
proof fn lemma_trim_start_keeps(l: Seq<char>, k: int)
    requires
        0 <= k < l.len(),
        !is_ws(l[k]),
    ensures
        crate::text::trim_start_spec(l).len() >= l.len() - k,
    decreases l.len(),
{
    if l.len() > 0 && is_ws(l[0]) {
        assert(l.drop_first()[k - 1] == l[k]);
        lemma_trim_start_keeps(l.drop_first(), k - 1);
    }
}

/// Trimming the end stops at the last character that is not White_Space.
proof fn lemma_trim_end_keeps(l: Seq<char>, k: int)
    requires
        0 <= k < l.len(),
        !is_ws(l[k]),
    ensures
        trim_end_spec(l).len() > k,
    decreases l.len(),
{
    if l.len() > 0 && is_ws(l.last()) {
        assert(l.drop_last()[k] == l[k]);
        lemma_trim_end_keeps(l.drop_last(), k);
    }
}

/// What trimming the end leaves does not end in White_Space.
proof fn lemma_trim_end_last(l: Seq<char>)
    ensures
        trim_end_spec(l).len() == 0 || !is_ws(trim_end_spec(l).last()),
    decreases l.len(),
{
    if l.len() > 0 && is_ws(l.last()) {
        lemma_trim_end_last(l.drop_last());
    }
}

/// Folding lines that all have content: the trimmed lines joined by a line feed in a literal
/// block, by a space in a folded one.
proof fn lemma_fold_content_lines(lines: Seq<Seq<char>>, literal: bool)
    requires
        forall|i: int| 0 <= i < lines.len() ==> content_line(#[trigger] lines[i]),
    ensures
        fold_lines(lines, literal) == (joined_lines(trimmed_lines(lines), if literal { '\n' } else { ' ' }), 0nat, lines.len() == 0),
        lines.len() > 0 ==> joined_lines(trimmed_lines(lines), if literal { '\n' } else { ' ' }).len() > 0,
        lines.len() > 0 ==> !is_ws(joined_lines(trimmed_lines(lines), if literal { '\n' } else { ' ' }).last()),
    decreases lines.len(),
{
    if lines.len() > 0 {
        let sep = if literal { '\n' } else { ' ' };
        let init = lines.drop_last();
        assert forall|i: int| 0 <= i < init.len() implies content_line(#[trigger] init[i]) by {
            assert(init[i] == lines[i]);
        }
        lemma_fold_content_lines(init, literal);
        let l = lines.last();
        assert(content_line(lines[lines.len() - 1]));
        lemma_content_line_trim(l);
        let t = trimmed_lines(lines);
        assert(t.drop_last() =~= trimmed_lines(init));
        assert(t.last() == trim_end_spec(l));
        let j = joined_lines(t, sep);
        if lines.len() > 1 {
            assert(j == joined_lines(trimmed_lines(init), sep).push(sep) + trim_end_spec(l));
        } else {
            assert(j == trim_end_spec(l));
            assert(joined_lines(trimmed_lines(init), sep) =~= Seq::<char>::empty());
            assert(Seq::<char>::empty() + trim_end_spec(l) =~= trim_end_spec(l));
        }
        assert(j.last() == trim_end_spec(l).last());
    }
}

/// A literal block scalar keeps its line breaks: lines that all have content come out as
/// those lines, each without trailing White_Space, with a line feed between consecutive
/// ones, whatever the chomping.
pub proof fn law_literal_keeps_line_breaks(lines: Seq<Seq<char>>, chomping: ChompingMode)
    requires
        forall|i: int| 0 <= i < lines.len() ==> content_line(#[trigger] lines[i]),
    ensures
        folding_spec(lines, chomping, true) == joined_lines(trimmed_lines(lines), '\n'),
{
    lemma_fold_content_lines(lines, true);
    lemma_trim_newlines_plain(joined_lines(trimmed_lines(lines), '\n'));
    assert(joined_lines(trimmed_lines(lines), '\n') + newlines(0) =~= joined_lines(trimmed_lines(lines), '\n'));
}

/// A folded block scalar joins its lines: lines that all have content come out as those
/// lines, each without trailing White_Space, with a space between consecutive ones, whatever
/// the chomping.
pub proof fn law_folded_joins_lines(lines: Seq<Seq<char>>, chomping: ChompingMode)
    requires
        forall|i: int| 0 <= i < lines.len() ==> content_line(#[trigger] lines[i]),
    ensures
        folding_spec(lines, chomping, false) == joined_lines(trimmed_lines(lines), ' '),
{
    lemma_fold_content_lines(lines, false);
    lemma_trim_newlines_plain(joined_lines(trimmed_lines(lines), ' '));
    assert(joined_lines(trimmed_lines(lines), ' ') + newlines(0) =~= joined_lines(trimmed_lines(lines), ' '));
}

/// A line of a literal block as it stands in the text: a line with content without its
/// trailing White_Space, a blank line as an empty one.
pub open spec fn literal_line(l: Seq<char>) -> Seq<char> {
    if content_line(l) { trim_end_spec(l) } else { Seq::empty() }
}

/// The lines of a literal block as they stand in the text.
pub open spec fn literal_lines(ls: Seq<Seq<char>>) -> Seq<Seq<char>> {
    ls.map_values(|l: Seq<char>| literal_line(l))
}

/// What the chomping indicator leaves after the last line with content, with `m` blank
/// lines after it: no line feed for strip, one where there were blank lines for clip, one
/// per blank line for keep.
pub open spec fn chomp_tail(chomping: ChompingMode, m: nat) -> Seq<char> {
    match chomping {
        ChompingMode::Strip => Seq::empty(),
        ChompingMode::Clip => if m > 0 { seq!['\n'] } else { Seq::empty() },
        ChompingMode::Keep => newlines(m),
    }
}

/// The index of the last line with content, or -1.
spec fn last_content(ls: Seq<Seq<char>>) -> int
    decreases ls.len(),
{
    if ls.len() == 0 {
        -1
    } else if content_line(ls.last()) {
        ls.len() - 1
    } else {
        last_content(ls.drop_last())
    }
}

/// A line of White_Space alone is empty once trimmed.
proof fn lemma_blank_line_trim(l: Seq<char>)
    requires
        !content_line(l),
    ensures
        trim_spec(l).len() == 0,
        crate::text::trim_start_spec(l).len() == 0,
    decreases l.len(),
{
    if l.len() > 0 {
        assert(is_ws(l[0]));
        assert forall|k: int| 0 <= k < l.drop_first().len() implies is_ws(#[trigger] l.drop_first()[k]) by {
            assert(l.drop_first()[k] == l[k + 1]);
        }
        lemma_blank_line_trim(l.drop_first());
    }
}

/// Joining lines after blank ones: each blank line adds one line feed.
proof fn lemma_joined_blank_tail(ls: Seq<Seq<char>>, k: int)
    requires
        0 <= k < ls.len(),
        forall|j: int| k < j < ls.len() ==> !content_line(#[trigger] ls[j]),
    ensures
        joined_lines(literal_lines(ls), '\n')
            == joined_lines(literal_lines(ls.take(k + 1)), '\n') + newlines((ls.len() - 1 - k) as nat),
    decreases ls.len(),
{
    if ls.len() == k + 1 {
        assert(ls.take(k + 1) =~= ls);
        assert(joined_lines(literal_lines(ls), '\n') + newlines(0) =~= joined_lines(literal_lines(ls), '\n'));
    } else {
        let p = ls.drop_last();
        assert forall|j: int| k < j < p.len() implies !content_line(#[trigger] p[j]) by {
            assert(p[j] == ls[j]);
        }
        lemma_joined_blank_tail(p, k);
        assert(p.take(k + 1) =~= ls.take(k + 1));
        assert(literal_lines(ls).drop_last() =~= literal_lines(p));
        assert(!content_line(ls[ls.len() - 1]));
        assert(literal_lines(ls).last() =~= Seq::<char>::empty());
        let a = joined_lines(literal_lines(ls.take(k + 1)), '\n');
        let n = (ls.len() - 1 - k) as nat;
        assert(newlines((n - 1) as nat).push('\n') =~= newlines(n));
        assert(a + newlines((n - 1) as nat).push('\n') =~= (a + newlines((n - 1) as nat)).push('\n'));
        assert(joined_lines(literal_lines(ls), '\n') =~= (a + newlines((n - 1) as nat)).push('\n') + Seq::<char>::empty());
    }
}

/// Joining blank lines alone: one line feed between each two.
proof fn lemma_joined_blank_only(ls: Seq<Seq<char>>)
    requires
        ls.len() > 0,
        forall|j: int| 0 <= j < ls.len() ==> !content_line(#[trigger] ls[j]),
    ensures
        joined_lines(literal_lines(ls), '\n') == newlines((ls.len() - 1) as nat),
    decreases ls.len(),
{
    assert(!content_line(ls[ls.len() - 1]));
    assert(literal_lines(ls).last() =~= Seq::<char>::empty());
    if ls.len() == 1 {
        assert(joined_lines(literal_lines(ls), '\n') =~= newlines(0));
    } else {
        let p = ls.drop_last();
        assert forall|j: int| 0 <= j < p.len() implies !content_line(#[trigger] p[j]) by {
            assert(p[j] == ls[j]);
        }
        lemma_joined_blank_only(p);
        assert(literal_lines(ls).drop_last() =~= literal_lines(p));
        assert(joined_lines(literal_lines(ls), '\n') =~= newlines((ls.len() - 2) as nat).push('\n') + Seq::<char>::empty());
        assert(newlines((ls.len() - 2) as nat).push('\n') + Seq::<char>::empty() =~= newlines((ls.len() - 1) as nat));
    }
}

/// Folding literal lines: with no line of content yet, nothing but the blank lines held
/// back; after one, the lines up to the last with content as they stand in the text, and
/// the blank lines after it held back.
proof fn lemma_fold_literal(ls: Seq<Seq<char>>)
    ensures
        -1 <= last_content(ls) < ls.len(),
        last_content(ls) >= 0 ==> content_line(ls[last_content(ls)]),
        forall|j: int| last_content(ls) < j < ls.len() ==> !content_line(#[trigger] ls[j]),
        last_content(ls) < 0 ==> fold_lines(ls, true) == (Seq::<char>::empty(), ls.len(), true),
        last_content(ls) >= 0 ==> fold_lines(ls, true) == (joined_lines(literal_lines(ls.take(last_content(ls) + 1)), '\n'),
            (ls.len() - 1 - last_content(ls)) as nat, false),
        last_content(ls) >= 0 ==> joined_lines(literal_lines(ls.take(last_content(ls) + 1)), '\n').len() > 0
            && !is_ws(joined_lines(literal_lines(ls.take(last_content(ls) + 1)), '\n').last()),
    decreases ls.len(),
{
    if ls.len() > 0 {
        let p = ls.drop_last();
        let l = ls.last();
        lemma_fold_literal(p);
        assert forall|j: int| 0 <= j < p.len() implies p[j] == ls[j] by {}
        let kp = last_content(p);
        if content_line(l) {
            lemma_content_line_trim(l);
            let k = ls.len() - 1;
            assert(ls.take(k + 1) =~= ls);
            let ll = literal_lines(ls);
            assert(ll.drop_last() =~= literal_lines(p));
            assert(ll.last() == trim_end_spec(l));
            let j = joined_lines(ll, '\n');
            if kp < 0 {
                if p.len() == 0 {
                    assert(j == trim_end_spec(l));
                    assert(Seq::<char>::empty() + trim_end_spec(l) =~= trim_end_spec(l));
                } else {
                    lemma_joined_blank_only(p);
                    assert(j == newlines((p.len() - 1) as nat).push('\n') + trim_end_spec(l));
                    assert(newlines((p.len() - 1) as nat).push('\n') =~= Seq::<char>::empty() + newlines(p.len()));
                }
            } else {
                lemma_joined_blank_tail(p, kp);
                let a = joined_lines(literal_lines(p.take(kp + 1)), '\n');
                let b = (p.len() - 1 - kp) as nat;
                assert(j == joined_lines(literal_lines(p), '\n').push('\n') + trim_end_spec(l));
                if b == 0 {
                    assert(a + newlines(0) =~= a);
                }
            }
            assert(j.last() == trim_end_spec(l).last());
        } else {
            lemma_blank_line_trim(l);
            if kp >= 0 {
                assert(ls.take(kp + 1) =~= p.take(kp + 1));
            }
        }
    }
}

/// A literal block scalar keeps its lines as they stand: for lines up to a last line with
/// content, followed by `m` blank lines, the text is those lines (each without trailing
/// White_Space, blank ones empty) with a line feed between consecutive ones, then what the
/// chomping leaves of the blank lines at the end.
pub proof fn law_literal_block_text(body: Seq<Seq<char>>, blanks: Seq<Seq<char>>, chomping: ChompingMode)
    requires
        body.len() > 0,
        content_line(body.last()),
        forall|i: int| 0 <= i < blanks.len() ==> !content_line(#[trigger] blanks[i]),
    ensures
        folding_spec(body + blanks, chomping, true)
            == joined_lines(literal_lines(body), '\n') + chomp_tail(chomping, blanks.len()),
{
    let ls = body + blanks;
    lemma_fold_literal(ls);
    let k = body.len() - 1;
    assert(ls[k] == body.last());
    if last_content(ls) != k {
        if last_content(ls) > k {
            assert(ls[last_content(ls)] == blanks[last_content(ls) - body.len()]);
        }
        assert(!content_line(ls[k]));
    }
    assert(ls.take(k + 1) =~= body);
    let j = joined_lines(literal_lines(body), '\n');
    lemma_trim_newlines_plain(j);
    match chomping {
        ChompingMode::Strip => { assert(j + Seq::<char>::empty() =~= j); },
        ChompingMode::Clip => {
            if blanks.len() > 0 {
                assert(j.push('\n') =~= j + seq!['\n']);
            } else {
                assert(j + Seq::<char>::empty() =~= j);
            }
        },
        ChompingMode::Keep => {},
    }
}

/// A text that is empty or does not end in White_Space has no trailing line feed to drop.
proof fn lemma_trim_newlines_plain(s: Seq<char>)
    requires
        s.len() == 0 || !is_ws(s.last()),
    ensures
        trim_newlines(s) == s,
{
}

fn push_newlines(s: &mut String, n: usize)
    ensures
        final(s)@ == old(s)@ + newlines(n as nat),
{
    let mut i: usize = 0;
    while i < n
        invariant
            i <= n,
            s@ == old(s)@ + newlines(i as nat),
        decreases n - i,
    {
        push_char(s, '\n');
        assert(old(s)@ + newlines((i + 1) as nat) =~= (old(s)@ + newlines(i as nat)).push('\n'));
        i = i + 1;
    }
}

/// Apply block scalar folding and chomping to the lines of a block scalar
pub fn apply_block_scalar_folding(lines: &[String], chomping: ChompingMode, literal_style: bool) -> (out: String)
    ensures
        out@ == folding_spec(lines@.map_values(|l: String| l@), chomping, literal_style),
{
    let ghost ls = lines@.map_values(|l: String| l@);
    let mut result = String::new();
    let mut breaks: usize = 0;
    let mut first_line = true;
    let mut i: usize = 0;
    while i < lines.len()
        invariant
            ls == lines@.map_values(|l: String| l@),
            i <= lines@.len(),
            breaks <= i,
            fold_lines(ls.take(i as int), literal_style) == (result@, breaks as nat, first_line),
        decreases lines@.len() - i,
    {
        proof {
            assert(ls.take(i + 1).drop_last() =~= ls.take(i as int));
            assert(ls.take(i + 1).last() == lines@[i as int]@);
        }
        let line = lines[i].as_str();
        let t = str_trim(line);
        if t.as_str().unicode_len() == 0 {
            breaks = breaks + 1;
        } else {
            if breaks > 0 {
                if literal_style || breaks > 1 {
                    push_newlines(&mut result, breaks);
                } else if result.as_str().unicode_len() > 0 {
                    push_char(&mut result, ' ');
                }
                breaks = 0;
            }
            if !first_line && literal_style {
                push_char(&mut result, '\n');
            } else if !first_line && !literal_style && result.as_str().unicode_len() > 0 {
                push_char(&mut result, ' ');
            }
            first_line = false;
            let te = str_trim_end(line);
            push_str(&mut result, te.as_str());
        }
        i = i + 1;
    }
    assert(ls.take(i as int) =~= ls);
    match chomping {
        ChompingMode::Strip => {
            let v = str_to_chars(result.as_str());
            let mut e = v.len();
            proof { assert(v@.subrange(0, v@.len() as int) =~= v@); }
            while e > 0 && v[e - 1] == '\n'
                invariant
                    v@ == result@,
                    e <= v@.len(),
                    trim_newlines(v@) == trim_newlines(v@.subrange(0, e as int)),
                decreases e,
            {
                assert(v@.subrange(0, e as int).drop_last() =~= v@.subrange(0, e - 1));
                e = e - 1;
            }
            proof {
                assert(v@.subrange(0, v@.len() as int) =~= v@);
                let s = v@.subrange(0, e as int);
                if s.len() > 0 { assert(s.last() == v@[e - 1]); }
            }
            crate::text::substring(v.as_slice(), 0, e)
        },
        ChompingMode::Clip => {
            if breaks > 0 {
                push_char(&mut result, '\n');
            }
            result
        },
        ChompingMode::Keep => {
            push_newlines(&mut result, breaks);
            result
        },
    }
}

/// A block scalar header character: a chomping indicator or an indentation digit.
pub open spec fn header_char(c: char) -> bool {
    c == '+' || c == '-' || ('1' <= c && c <= '9')
}

/// How many header characters (at most two) stand at `p`.
pub open spec fn header_len(s: Seq<char>, p: int) -> int {
    if 0 <= p < s.len() && header_char(s[p]) {
        if p + 1 < s.len() && header_char(s[p + 1]) { 2 } else { 1 }
    } else {
        0
    }
}

/// The chomping that header characters give: the last indicator among them, or clip.
pub open spec fn header_chomping(h: Seq<char>) -> ChompingMode
    decreases h.len(),
{
    if h.len() == 0 {
        ChompingMode::Clip
    } else if h.last() == '+' {
        ChompingMode::Keep
    } else if h.last() == '-' {
        ChompingMode::Strip
    } else {
        header_chomping(h.drop_last())
    }
}

/// The indentation that header characters give: the last digit among them, if any.
pub open spec fn header_indent(h: Seq<char>) -> Option<usize>
    decreases h.len(),
{
    if h.len() == 0 {
        None
    } else if '1' <= h.last() && h.last() <= '9' {
        Some(((h.last() as u32) - ('0' as u32)) as usize)
    } else {
        header_indent(h.drop_last())
    }
}

/// Read the header of a block scalar: up to two characters, each a chomping indicator or an
/// indentation digit.
fn parse_block_scalar_header(state: &mut ScannerState) -> (r: Result<(ChompingMode, Option<usize>), ScanError>)
    requires
        old(state).wf(),
    ensures
        final(state).read_on_from(old(state)),
        final(state).spec_pos() <= old(state).spec_pos() + 2,
        r matches Ok((_, Some(n))) ==> 1 <= n <= 9,
        final(state).spec_pos() == old(state).spec_pos() + header_len(old(state).spec_source(), old(state).spec_pos()),
        r == Ok::<(ChompingMode, Option<usize>), ScanError>((
            header_chomping(old(state).spec_source().subrange(old(state).spec_pos(), final(state).spec_pos())),
            header_indent(old(state).spec_source().subrange(old(state).spec_pos(), final(state).spec_pos())))),
{
    let ghost s = old(state).spec_source();
    let ghost p = old(state).spec_pos();
    let mut chomping = ChompingMode::Clip;
    let mut indent: Option<usize> = None;
    let mut k: usize = 0;
    proof { assert(s.subrange(p, p) =~= Seq::<char>::empty()); }
    while k < 2
        invariant_except_break
            k < 2 || header_len(s, p) == 2,
        invariant
            old(state).wf(),
            state.read_on_from(old(state)),
            s == old(state).spec_source(),
            p == old(state).spec_pos(),
            k <= 2,
            state.spec_pos() == p + k,
            k <= header_len(s, p),
            chomping == header_chomping(s.subrange(p, state.spec_pos())),
            indent == header_indent(s.subrange(p, state.spec_pos())),
            indent matches Some(n) ==> 1 <= n <= 9,
        ensures
            state.read_on_from(old(state)),
            state.spec_pos() == p + header_len(s, p),
            chomping == header_chomping(s.subrange(p, state.spec_pos())),
            indent == header_indent(s.subrange(p, state.spec_pos())),
            indent matches Some(n) ==> 1 <= n <= 9,
        decreases 2 - k,
    {
        let ghost q = state.spec_pos();
        match state.peek_char() {
            Ok('+') => {
                let _ = state.consume_char();
                chomping = ChompingMode::Keep;
            },
            Ok('-') => {
                let _ = state.consume_char();
                chomping = ChompingMode::Strip;
            },
            Ok(ch) => {
                if '1' <= ch && ch <= '9' {
                    let _ = state.consume_char();
                    indent = Some(((ch as u32) - ('0' as u32)) as usize);
                } else {
                    break;
                }
            },
            Err(_) => {
                break;
            },
        }
        proof {
            assert(s.subrange(p, q + 1).drop_last() =~= s.subrange(p, q));
            assert(s.subrange(p, q + 1).last() == s[q]);
        }
        k = k + 1;
    }
    Ok((chomping, indent))
}

/// The end of a line's text from `i`: the next line break, or the end.
pub open spec fn line_end(s: Seq<char>, i: int) -> int {
    crate::lexer::scanner::run_end(s, i, |c: char| c != '\n' && c != '\r')
}

/// A content line `line` added to the text `acc`, with `breaks` line breaks held back and
/// `first` for the first content line.
pub open spec fn fold_content(acc: Seq<char>, breaks: nat, first: bool, line: Seq<char>, literal: bool) -> Seq<char> {
    let a1 = if breaks > 0 {
        if literal || breaks > 1 { acc + newlines(breaks) } else if acc.len() > 0 { acc.push(' ') } else { acc }
    } else {
        acc
    };
    let a2 = if !first && literal { a1.push('\n') } else if !first && !literal && a1.len() > 0 { a1.push(' ') } else { a1 };
    a2 + line
}

/// The lines of a block scalar body from `i` (`at_start` when `i` starts a line), indented
/// at least `base`: the text so far `acc`, the line breaks held back, and whether no
/// content line was seen yet; it ends at a document marker at a line start, at a line
/// indented less, or at the end. The text, the breaks held back, and where it ends.
pub open spec fn block_body(s: Seq<char>, i: int, at_start: bool, base: nat, literal: bool, acc: Seq<char>,
    breaks: nat, first: bool) -> (Seq<char>, nat, int)
    decreases s.len() - i,
{
    if i < 0 || i > s.len() {
        (acc, breaks, i)
    } else if at_start && (marker_ahead(s, i, '-') || marker_ahead(s, i, '.')) {
        (acc, breaks, i)
    } else {
        let n = space_run(s, i);
        let j = i + n;
        proof { lemma_space_run_bound(s, i); }
        if n < base || j >= s.len() {
            (acc, breaks, j)
        } else if s[j] == '\n' || s[j] == '\r' {
            let k = after_line(s, j);
            block_body(s, k, s[k - 1] == '\n', base, literal, acc, breaks + 1, first)
        } else {
            let e = line_end(s, j);
            proof { crate::lexer::scanner::lemma_run_end(s, j + 1, |c: char| c != '\n' && c != '\r'); }
            let acc2 = fold_content(acc, breaks, first, s.subrange(j, e), literal);
            let k = if e < s.len() { after_line(s, e) } else { e };
            proof { if e < s.len() { crate::lexer::scanner::lemma_run_end(s, j, |c: char| c != '\n' && c != '\r'); } }
            block_body(s, k, s[k - 1] == '\n', base, literal, acc2, 0, false)
        }
    }
}

/// Text after chomping: strip drops trailing line feeds, clip keeps one line feed when line
/// breaks were held back, keep keeps all of them.
pub open spec fn chomped(acc: Seq<char>, breaks: nat, chomping: ChompingMode) -> Seq<char> {
    match chomping {
        ChompingMode::Strip => trim_newlines(acc),
        ChompingMode::Clip => if breaks > 0 { acc.push('\n') } else { acc },
        ChompingMode::Keep => acc + newlines(breaks),
    }
}

/// A block scalar from `p` (after its indicator): its header, the rest of that line, then
/// the body at the header's indentation or, without one, at that of the first line with
/// content; its text and where it ends.
pub open spec fn block_scalar_result(s: Seq<char>, p: int, literal: bool) -> (Seq<char>, int) {
    let q0 = p + header_len(s, p);
    let h = s.subrange(p, q0);
    let q1 = after_line(s, q0);
    let base: nat = match header_indent(h) { Some(n) => n as nat, None => first_content_indent(s, q1) };
    let at0 = q1 == 0 || s[q1 - 1] == '\n';
    let body = block_body(s, q1, at0, base, literal, Seq::empty(), 0, true);
    (chomped(body.0, body.1, header_chomping(h)), body.2)
}

/// Lines each indented by `k` spaces and ended by a line feed.
pub open spec fn indented_lines(ls: Seq<Seq<char>>, k: nat) -> Seq<char>
    decreases ls.len(),
{
    if ls.len() == 0 {
        Seq::empty()
    } else {
        Seq::new(k, |i: int| ' ') + ls[0] + seq!['\n'] + indented_lines(ls.drop_first(), k)
    }
}

/// A line that a block holds as it is: not empty, not starting with a space, with no line
/// break in it.
pub open spec fn bare_line(l: Seq<char>) -> bool {
    l.len() > 0 && l[0] != ' ' && forall|j: int| 0 <= j < l.len() ==> #[trigger] l[j] != '\n' && l[j] != '\r'
}

/// Joining lines from the front: the first line, the separator, then the others joined.
pub proof fn lemma_joined_front(ls: Seq<Seq<char>>, sep: char)
    requires
        ls.len() >= 2,
    ensures
        joined_lines(ls, sep) == ls[0].push(sep) + joined_lines(ls.drop_first(), sep),
    decreases ls.len(),
{
    let r = ls.drop_first();
    if ls.len() == 2 {
        assert(ls.drop_last().len() == 1);
        assert(r.len() == 1);
        assert(joined_lines(r, sep) == r[0]);
        assert(joined_lines(ls.drop_last(), sep) == ls[0]);
    } else {
        lemma_joined_front(ls.drop_last(), sep);
        assert(ls.drop_last().drop_first() =~= r.drop_last());
        assert(r.last() == ls.last());
        assert(ls.drop_last()[0] == ls[0]);
        assert(joined_lines(ls, sep) =~= ls[0].push(sep) + joined_lines(r, sep));
    }
}

/// A run of spaces from `i` up to a character that is not one.
pub proof fn lemma_space_run_exact(s: Seq<char>, i: int, q: int)
    requires
        0 <= i <= q < s.len(),
        forall|j: int| i <= j < q ==> #[trigger] s[j] == ' ',
        s[q] != ' ',
    ensures
        space_run(s, i) == q - i,
    decreases q - i,
{
    if i < q {
        lemma_space_run_exact(s, i + 1, q);
    }
}

/// The body of a block made of lines each indented by `k` spaces: the lines, folded into
/// the text so far, and the end of the input.
proof fn lemma_block_body_lines(s: Seq<char>, i: int, ls: Seq<Seq<char>>, k: nat, literal: bool, acc: Seq<char>,
    first: bool)
    requires
        k >= 1,
        0 < i <= s.len(),
        s.subrange(i, s.len() as int) == indented_lines(ls, k),
        forall|j: int| 0 <= j < ls.len() ==> bare_line(#[trigger] ls[j]),
        !first ==> acc.len() > 0,
    ensures
        block_body(s, i, true, k, literal, acc, 0, first) == (
            if ls.len() == 0 { acc } else {
                (if first { acc } else { acc.push(if literal { '\n' } else { ' ' }) })
                    + joined_lines(ls, if literal { '\n' } else { ' ' })
            }, 0nat, s.len() as int),
    decreases ls.len(),
{
    let sep = if literal { '\n' } else { ' ' };
    let t = s.subrange(i, s.len() as int);
    if ls.len() == 0 {
        assert(t.len() == 0);
        assert(i == s.len());
        assert(space_run(s, i) == 0);
    } else {
        let l = ls[0];
        assert(bare_line(ls[0]));
        let sp = Seq::new(k, |m: int| ' ');
        let rest = indented_lines(ls.drop_first(), k);
        assert(t == sp + l + seq!['\n'] + rest);
        assert(t.len() == s.len() - i);
        assert(t.len() == k + l.len() + 1 + rest.len());
        let j = i + k;
        let e = j + l.len();
        assert forall|m: int| i <= m < j implies #[trigger] s[m] == ' ' by {
            assert(s[m] == t[m - i]);
        }
        assert(s[j] == t[k as int]);
        assert(s[j] == l[0]);
        lemma_space_run_exact(s, i, j);
        assert(s[i] == t[0]);
        assert(!marker_ahead(s, i, '-') && !marker_ahead(s, i, '.'));
        assert forall|m: int| j <= m < e implies (#[trigger] s[m] != '\n' && s[m] != '\r') by {
            assert(s[m] == t[m - i]);
            assert(t[m - i] == l[m - j]);
        }
        assert(s[e] == t[e - i]);
        assert(s[e] == '\n');
        crate::lexer::scanner::lemma_run_end_unique(s, j, e, |c: char| c != '\n' && c != '\r');
        assert(line_end(s, j) == e);
        assert forall|m: int| 0 <= m < l.len() implies #[trigger] s.subrange(j, e)[m] == l[m] by {
            assert(s[j + m] == t[j + m - i]);
        }
        assert(s.subrange(j, e) =~= l);
        assert(after_line(s, e) == e + 1);
        let acc2 = fold_content(acc, 0, first, l, literal);
        let base = if first { acc } else { acc.push(sep) };
        assert(acc2 == base + l);
        assert forall|m: int| 0 <= m < rest.len() implies #[trigger] s.subrange(e + 1, s.len() as int)[m] == rest[m] by {
            assert(s[e + 1 + m] == t[e + 1 + m - i]);
        }
        assert(s.subrange(e + 1, s.len() as int) =~= rest);
        let r = ls.drop_first();
        assert forall|m: int| 0 <= m < r.len() implies bare_line(#[trigger] r[m]) by {
            assert(r[m] == ls[m + 1]);
        }
        lemma_block_body_lines(s, e + 1, r, k, literal, acc2, false);
        if r.len() == 0 {
            assert(joined_lines(ls, sep) == l);
        } else {
            lemma_joined_front(ls, sep);
            assert(acc2.push(sep) + joined_lines(r, sep) =~= base + (l.push(sep) + joined_lines(r, sep)));
        }
    }
}

/// A block scalar whose lines all stand at one indentation keeps them: after `|` or `>` and a
/// line break, lines indented by the same number of spaces (at least one), none of them
/// blank or starting with a space, give those lines with a line feed between consecutive
/// ones in a literal block and a space in a folded one, and the block runs to the end of
/// the input.
pub proof fn law_block_scalar_lines(pre: Seq<char>, ls: Seq<Seq<char>>, k: nat, literal: bool)
    requires
        k >= 1,
        ls.len() > 0,
        forall|j: int| 0 <= j < ls.len() ==> bare_line(#[trigger] ls[j]),
    ensures
        block_scalar_result(pre + seq![if literal { '|' } else { '>' }, '\n'] + indented_lines(ls, k), pre.len() as int + 1,
            literal)
            == (joined_lines(ls, if literal { '\n' } else { ' ' }),
                (pre + seq![if literal { '|' } else { '>' }, '\n'] + indented_lines(ls, k)).len() as int),
{
    let s = pre + seq![if literal { '|' } else { '>' }, '\n'] + indented_lines(ls, k);
    let p = pre.len() as int + 1;
    let q1 = p + 1;
    assert(s[p] == '\n');
    assert(header_len(s, p) == 0);
    assert(s.subrange(p, p) =~= Seq::<char>::empty());
    assert(after_line(s, p) == q1);
    let t = indented_lines(ls, k);
    assert(s.subrange(q1, s.len() as int) =~= t);
    assert(bare_line(ls[0]));
    assert(t == Seq::new(k, |m: int| ' ') + ls[0] + seq!['\n'] + indented_lines(ls.drop_first(), k));
    assert forall|m: int| q1 <= m < q1 + k implies #[trigger] s[m] == ' ' by {
        assert(s[m] == t[m - q1]);
    }
    assert(s[q1 + k] == t[k as int]);
    lemma_space_run_exact(s, q1, q1 + k);
    assert(first_content_indent(s, q1) == k);
    lemma_block_body_lines(s, q1, ls, k, literal, Seq::empty(), true);
    assert(Seq::<char>::empty() + joined_lines(ls, if literal { '\n' } else { ' ' })
        =~= joined_lines(ls, if literal { '\n' } else { ' ' }));
}

/// The indentation of the first line with content lies within the input.
pub proof fn lemma_first_content_indent_bound(s: Seq<char>, i: int)
    ensures
        first_content_indent(s, i) <= s.len(),
    decreases s.len() - i,
{
    if 0 <= i <= s.len() {
        lemma_space_run_bound(s, i);
        let j = i + space_run(s, i);
        if j < s.len() {
            if s[j] == '\n' {
                lemma_first_content_indent_bound(s, j + 1);
            } else if s[j] == '\r' {
                if j + 1 < s.len() && s[j + 1] == '\n' {
                    lemma_first_content_indent_bound(s, j + 2);
                } else {
                    lemma_first_content_indent_bound(s, j + 1);
                }
            }
        }
    }
}

/// A line ends past its line break.
pub proof fn lemma_after_line(s: Seq<char>, i: int)
    requires
        0 <= i <= s.len(),
    ensures
        i <= after_line(s, i) <= s.len(),
        i < s.len() && (s[i] == '\n' || s[i] == '\r') ==> i < after_line(s, i)
            && (s[after_line(s, i) - 1] == '\n' || s[after_line(s, i) - 1] == '\r'),
    decreases s.len() - i,
{
    if i < s.len() && !(s[i] == '\n' || s[i] == '\r') {
        lemma_after_line(s, i + 1);
    }
}

fn consume_line_break(state: &mut ScannerState) -> (r: Result<(), ScanError>)
    requires
        old(state).wf(),
    ensures
        final(state).read_on_from(old(state)),
        r is Ok ==> final(state).spec_pos() > old(state).spec_pos(),
        r is Ok <==> old(state).spec_pos() < old(state).spec_fetched()
            && (old(state).spec_source()[old(state).spec_pos()] == '\n' || old(state).spec_source()[old(state).spec_pos()] == '\r'),
        r is Ok ==> final(state).spec_pos() == after_line(old(state).spec_source(), old(state).spec_pos()),
{
    crate::scanner::utils::consume_line_break(state)
}

/// Skip the rest of the line and its line break.
fn skip_rest_of_line(state: &mut ScannerState) -> (r: Result<(), ScanError>)
    requires
        old(state).wf(),
    ensures
        final(state).read_on_from(old(state)),
        r is Ok,
        final(state).spec_pos() == after_line(old(state).spec_source(), old(state).spec_pos()),
{
    let ghost s = old(state).spec_source();
    let ghost p = old(state).spec_pos();
    loop
        invariant_except_break
            after_line(s, state.spec_pos()) == after_line(s, p),
        invariant
            old(state).wf(),
            state.read_on_from(old(state)),
            s == old(state).spec_source(),
        ensures
            state.read_on_from(old(state)),
            state.spec_pos() == after_line(s, p),
        decreases state.spec_source().len() - state.spec_pos(),
    {
        match state.peek_char() {
            Ok(ch) => {
                if ch == '\n' || ch == '\r' {
                    let _ = consume_line_break(state);
                    break;
                }
                let _ = state.consume_char();
            },
            Err(_) => {
                break;
            },
        }
    }
    Ok(())
}

/// The number of spaces `start_pos` characters ahead, without consuming anything.
fn peek_indentation_at_position(state: &mut ScannerState, start_pos: usize) -> (n: usize)
    requires
        old(state).wf(),
        start_pos < usize::MAX,
    ensures
        final(state).only_window_grew(old(state)),
        n <= old(state).spec_source().len(),
        n == space_run(old(state).spec_source(), old(state).spec_pos() + start_pos),
{
    let ghost s = old(state).spec_source();
    let ghost p = old(state).spec_pos();
    let mut count: usize = 0;
    let mut pos = start_pos;
    while pos < usize::MAX && state.peek_char_at(pos) == Some(' ')
        invariant
            old(state).wf(),
            state.only_window_grew(old(state)),
            s == old(state).spec_source(),
            p == old(state).spec_pos(),
            pos >= start_pos,
            count == pos - start_pos,
            count <= old(state).spec_source().len(),
            count + space_run(s, p + pos) == space_run(s, p + start_pos),
        decreases usize::MAX - pos,
    {
        count = count + 1;
        pos = pos + 1;
    }
    proof {
        if pos < usize::MAX {
            assert(space_run(s, p + pos) == 0);
        }
    }
    count
}

/// The indentation of the first line ahead with content, blank lines skipped; nothing is
/// consumed.
fn detect_block_scalar_indent(state: &mut ScannerState) -> (r: Result<usize, ScanError>)
    requires
        old(state).wf(),
    ensures
        final(state).only_window_grew(old(state)),
        r == Ok::<usize, ScanError>(first_content_indent(old(state).spec_source(), old(state).spec_pos()) as usize),
{
    let ghost s = old(state).spec_source();
    let ghost p = old(state).spec_pos();
    let mut pos: usize = 0;
    loop
        invariant
            old(state).wf(),
            state.only_window_grew(old(state)),
            s == old(state).spec_source(),
            p == old(state).spec_pos(),
            p + pos <= s.len(),
            first_content_indent(s, p + pos) == first_content_indent(s, p),
        decreases s.len() - pos,
    {
        let indent = peek_indentation_at_position(state, pos);
        proof { lemma_space_run_bound(s, p + pos); }
        pos = pos + indent;
        match state.peek_char_at(pos) {
            Some('\n') => {
                pos = pos + 1;
            },
            Some('\r') => {
                pos = pos + 1;
                if state.peek_char_at(pos) == Some('\n') {
                    pos = pos + 1;
                }
            },
            Some(_) => {
                return Ok(indent);
            },
            None => {
                return Ok(0);
            },
        }
    }
}

/// Consume the spaces that indent a line, and count them.
fn count_indentation(state: &mut ScannerState) -> (r: Result<usize, ScanError>)
    requires
        old(state).wf(),
    ensures
        final(state).read_on_from(old(state)),
        r matches Ok(n) && n == final(state).spec_pos() - old(state).spec_pos()
            && n == space_run(old(state).spec_source(), old(state).spec_pos()),
{
    let ghost s = old(state).spec_source();
    let ghost p = old(state).spec_pos();
    let mut count: usize = 0;
    loop
        invariant
            old(state).wf(),
            state.read_on_from(old(state)),
            s == old(state).spec_source(),
            p == old(state).spec_pos(),
            count == state.spec_pos() - old(state).spec_pos(),
            count + space_run(s, state.spec_pos()) == space_run(s, p),
        ensures
            state.read_on_from(old(state)),
            count == state.spec_pos() - old(state).spec_pos(),
            count == space_run(s, p),
        decreases state.spec_source().len() - state.spec_pos(),
    {
        match state.peek_char() {
            Ok(' ') => {
                let _ = state.consume_char();
                count = count + 1;
            },
            _ => {
                proof { assert(space_run(s, state.spec_pos() as int) == 0); }
                break;
            },
        }
    }
    Ok(count)
}

/// Scan block scalar (literal `|` or folded `>`): its header, then the lines indented at
/// least as deep as the first, folded and chomped.
pub fn scan_block_scalar(state: &mut ScannerState, literal: bool) -> (r: Result<String, ScanError>)
    requires
        old(state).wf(),
    ensures
        final(state).read_on_from(old(state)),
        r matches Ok(x) && (x@, final(state).spec_pos())
            == block_scalar_result(old(state).spec_source(), old(state).spec_pos(), literal),
{
    let ghost s = old(state).spec_source();
    let ghost p0 = old(state).spec_pos();
    let mut result = String::new();
    let (chomping, explicit_indent) = match parse_block_scalar_header(state) {
        Ok(h) => h,
        Err(e) => { return Err(e); },
    };
    let ghost q0 = state.spec_pos();
    let ghost h = s.subrange(p0, q0);
    let _ = skip_rest_of_line(state);
    let ghost q1 = state.spec_pos();
    proof { lemma_after_line(s, q0); }
    let base_indent = match explicit_indent {
        Some(indent) => indent,
        None => match detect_block_scalar_indent(state) {
            Ok(n) => n,
            Err(e) => { return Err(e); },
        },
    };
    let ghost base: nat = base_indent as nat;
    proof {
        if explicit_indent is None {
            lemma_first_content_indent_bound(s, q1);
        }
    }
    let ghost at0 = q1 == 0 || s[q1 - 1] == '\n';
    let ghost goal = block_body(s, q1, at0, base, literal, Seq::empty(), 0, true);
    let mut breaks: usize = 0;
    let mut first_line = true;
    loop
        invariant_except_break
            block_body(s, state.spec_pos(), state.spec_pos() == 0 || s[state.spec_pos() - 1] == '\n', base, literal,
                result@, breaks as nat, first_line) == goal,
        invariant
            old(state).wf(),
            state.read_on_from(old(state)),
            s == old(state).spec_source(),
            breaks <= state.spec_pos(),
            base == base_indent as nat,
        ensures
            state.read_on_from(old(state)),
            goal == (result@, breaks as nat, state.spec_pos()),
        decreases state.spec_source().len() - state.spec_pos(),
    {
        let ghost i = state.spec_pos();
        let ghost acc = result@;
        let ghost at_i = i == 0 || s[i - 1] == '\n';
        let ghost bi: nat = breaks as nat;
        let ghost fi = first_line;
        let start = state.mark().index;
        if state.at_line_start() {
            let ds = match state.check_document_start() { Ok(b) => b, Err(_) => false };
            let de = if ds { true } else { match state.check_document_end() { Ok(b) => b, Err(_) => false } };
            if de {
                break;
            }
        }
        let line_indent = match count_indentation(state) { Ok(n) => n, Err(_) => 0 };
        let ghost j = state.spec_pos();
        proof { lemma_space_run_bound(s, i); }
        if line_indent < base_indent {
            break;
        }
        match state.peek_char() {
            Ok('\n') | Ok('\r') => {
                breaks = breaks + 1;
                let _ = consume_line_break(state);
                proof {
                    lemma_after_line(s, j);
                    let k = state.spec_pos();
                    assert(k == after_line(s, j));
                    assert(block_body(s, i, at_i, base, literal, acc, bi, fi)
                        == block_body(s, k, s[k - 1] == '\n', base, literal, acc, bi + 1, fi));
                }
                continue;
            },
            Err(_) => {
                break;
            },
            Ok(_) => {},
        }
        let ghost b0: nat = breaks as nat;
        if breaks > 0 {
            if literal || breaks > 1 {
                push_newlines(&mut result, breaks);
            } else if result.as_str().unicode_len() > 0 {
                push_char(&mut result, ' ');
            }
            breaks = 0;
        }
        if !first_line && literal {
            push_char(&mut result, '\n');
        } else if !first_line && !literal && result.as_str().unicode_len() > 0 {
            push_char(&mut result, ' ');
        }
        let ghost a2 = result@;
        let ghost first0 = first_line;
        first_line = false;
        let mut k = base_indent;
        while k < line_indent
            invariant
                old(state).wf(),
                state.read_on_from(old(state)),
                s == old(state).spec_source(),
                state.spec_pos() == j,
                !(j < s.len() && s[j] == ' '),
            decreases line_indent - k,
        {
            if let Ok(' ') = state.peek_char() {
                let _ = state.consume_char();
            }
            k = k + 1;
        }
        proof { assert(a2 + s.subrange(j, j) =~= a2); }
        loop
            invariant_except_break
                line_end(s, state.spec_pos()) == line_end(s, j),
            invariant
                old(state).wf(),
                state.read_on_from(old(state)),
                s == old(state).spec_source(),
                0 <= j <= state.spec_pos(),
                result@ == a2 + s.subrange(j, state.spec_pos()),
                state.spec_pos() > j || (j < s.len() && s[j] != '\n' && s[j] != '\r'),
            ensures
                state.read_on_from(old(state)),
                state.spec_pos() == line_end(s, j),
                state.spec_pos() > j,
                result@ == a2 + s.subrange(j, state.spec_pos()),
            decreases state.spec_source().len() - state.spec_pos(),
        {
            let ghost q = state.spec_pos();
            match state.peek_char() {
                Ok(ch) => {
                    if ch == '\n' || ch == '\r' {
                        break;
                    }
                    let c = state.consume_char().unwrap();
                    push_char(&mut result, c);
                    proof {
                        assert(c == s[q]);
                        crate::text::lemma_subrange_extend(s, j, q);
                        assert(a2 + s.subrange(j, q + 1) =~= (a2 + s.subrange(j, q)).push(c));
                    }
                },
                Err(_) => {
                    break;
                },
            }
        }
        let ghost e = state.spec_pos();
        proof { crate::lexer::scanner::lemma_run_end(s, j, |c: char| c != '\n' && c != '\r'); }
        match state.peek_char() {
            Ok('\n') | Ok('\r') => {
                let _ = consume_line_break(state);
                proof { lemma_after_line(s, e); }
            },
            _ => {},
        }
        proof {
            assert(result@ == fold_content(acc, b0, first0, s.subrange(j, e), literal));
            let k = state.spec_pos();
            assert(k == if e < s.len() { after_line(s, e) } else { e });
            assert(k > i);
            assert(block_body(s, i, at_i, base, literal, acc, bi, fi)
                == block_body(s, k, s[k - 1] == '\n', base, literal, result@, 0, false));
        }
        if state.mark().index == start {
            break;
        }
    }
    match chomping {
        ChompingMode::Strip => {
            let v = str_to_chars(result.as_str());
            let mut e = v.len();
            proof { assert(v@.subrange(0, v@.len() as int) =~= v@); }
            while e > 0 && v[e - 1] == '\n'
                invariant
                    v@ == result@,
                    e <= v@.len(),
                    trim_newlines(v@) == trim_newlines(v@.subrange(0, e as int)),
                decreases e,
            {
                assert(v@.subrange(0, e as int).drop_last() =~= v@.subrange(0, e - 1));
                e = e - 1;
            }
            proof {
                let t = v@.subrange(0, e as int);
                if t.len() > 0 { assert(t.last() == v@[e - 1]); }
            }
            Ok(crate::text::substring(v.as_slice(), 0, e))
        },
        ChompingMode::Clip => {
            if breaks > 0 {
                push_char(&mut result, '\n');
            }
            Ok(result)
        },
        ChompingMode::Keep => {
            push_newlines(&mut result, breaks);
            Ok(result)
        },
    }
}

} // verus!
