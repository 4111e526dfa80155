//! Document markers: `---` starts a document and `...` ends one. Scanning checks the
//! marker's context and the boundary after it.
use vstd::prelude::*;
use crate::error::{Marker, ScanError};
use crate::scanner::state::{ScannerState, mark_after};
use crate::text::{push_char, push_str, push_decimal, decimal};

verus! {

/// Document marker types
#[derive(Debug, Clone, Copy, PartialEq, Eq, Structural)]
pub enum DocumentMarker {
    /// Document start marker (---)
    Start,
    /// Document end marker (...)
    End,
}

/// The character repeated in a marker.
pub open spec fn spec_marker_char(m: DocumentMarker) -> char {
    match m {
        DocumentMarker::Start => '-',
        DocumentMarker::End => '.',
    }
}

/// The marker's name in messages.
pub open spec fn spec_marker_name(m: DocumentMarker) -> Seq<char> {
    match m {
        DocumentMarker::Start => "document start"@,
        DocumentMarker::End => "document end"@,
    }
}

/// The marker as written.
pub open spec fn spec_marker_string(m: DocumentMarker) -> Seq<char> {
    match m {
        DocumentMarker::Start => "---"@,
        DocumentMarker::End => "..."@,
    }
}

/// A flow indicator: `,` `[` `]` `{` `}`.
pub open spec fn spec_flow_indicator(c: char) -> bool {
    c == ',' || c == '[' || c == ']' || c == '{' || c == '}'
}

/// What may follow a marker: the end of input, a blank, a comment, or (inside a flow
/// collection) a flow indicator.
pub open spec fn marker_boundary_at(s: Seq<char>, i: int, in_flow: bool) -> bool {
    i >= s.len() || s[i] == ' ' || s[i] == '\t' || s[i] == '\n' || s[i] == '\r' || s[i] == '#'
        || (in_flow && spec_flow_indicator(s[i]))
}

/// `m` moved `k` columns to the right on its line.
pub open spec fn col_plus(m: Marker, k: int) -> Marker {
    Marker { index: (m.index + k) as usize, line: m.line, col: (m.col + k) as usize }
}

/// The message for a marker outside its allowed context.
pub open spec fn context_message(m: DocumentMarker) -> Seq<char> {
    spec_marker_name(m) + " marker must be at start of line or after whitespace"@
}

/// The message for a wrong character at position `i` of a marker.
pub open spec fn expected_message(m: DocumentMarker, i: nat, found: char) -> Seq<char> {
    "expected '"@ + seq![spec_marker_char(m)] + "' at position "@ + decimal(i) + " in "@
        + spec_marker_name(m) + " marker, found '"@ + seq![found] + "'"@
}

/// The message for a marker followed by something other than a boundary.
pub open spec fn boundary_message(m: DocumentMarker, found: char) -> Seq<char> {
    spec_marker_name(m) + " marker must be followed by whitespace, comment, or end of input, found '"@
        + seq![found] + "'"@
}

/// The end of input met in the middle of a marker.
pub open spec fn end_message() -> Seq<char> {
    "unexpected end of input"@
}

/// Scanning a marker of kind `m` at `p` over input `s` whose window ends at `f`, with the
/// marker `m0` at `p`: how many characters are consumed, and the outcome.
pub open spec fn marker_scan_outcome(s: Seq<char>, p: int, f: int, m0: Marker, in_flow: bool, m: DocumentMarker)
    -> (int, Result<(), (Marker, Seq<char>)>)
{
    let c = spec_marker_char(m);
    if !(m0.col == 0 || m0.index == 0) {
        (0, Err((m0, context_message(m))))
    } else if p >= f {
        (0, Err((m0, end_message())))
    } else if s[p] != c {
        (1, Err((mark_after(m0, s[p]), expected_message(m, 0, s[p]))))
    } else if p + 1 >= f {
        (1, Err((col_plus(m0, 1), end_message())))
    } else if s[p + 1] != c {
        (2, Err((mark_after(col_plus(m0, 1), s[p + 1]), expected_message(m, 1, s[p + 1]))))
    } else if p + 2 >= f {
        (2, Err((col_plus(m0, 2), end_message())))
    } else if s[p + 2] != c {
        (3, Err((mark_after(col_plus(m0, 2), s[p + 2]), expected_message(m, 2, s[p + 2]))))
    } else if marker_boundary_at(s, p + 3, in_flow) {
        (3, Ok(()))
    } else {
        (3, Err((col_plus(m0, 3), boundary_message(m, s[p + 3]))))
    }
}

/// The effect of a marker scan on the state: it consumed the outcome's count, and returned
/// the outcome.
pub open spec fn marker_scan_done(old: &ScannerState, new: &ScannerState, m: DocumentMarker, r: Result<(), ScanError>) -> bool {
    let (n, out) = marker_scan_outcome(old.spec_source(), old.spec_pos(), old.spec_fetched(), old.spec_mark(),
        old.spec_flow_level() > 0, m);
    &&& new.read_on_from(old)
    &&& new.spec_pos() == old.spec_pos() + n
    &&& match out {
        Ok(()) => r is Ok,
        Err((mk, msg)) => r matches Err(e) && e.mark == mk && e.info@ == msg,
    }
}

fn marker_name(m: DocumentMarker) -> (s: &'static str)
    ensures
        s@ == spec_marker_name(m),
{
    match m {
        DocumentMarker::Start => "document start",
        DocumentMarker::End => "document end",
    }
}

fn scan_marker(state: &mut ScannerState, m: DocumentMarker) -> (r: Result<(), ScanError>)
    requires
        old(state).wf(),
    ensures
        marker_scan_done(old(state), final(state), m, r),
{
    let start_mark = state.mark();
    let c = marker_character(m);
    let name = marker_name(m);
    if !(state.at_line_start() || state.mark().index == 0) {
        let mut msg = String::new();
        push_str(&mut msg, name);
        push_str(&mut msg, " marker must be at start of line or after whitespace");
        return Err(ScanError::new(start_mark, msg.as_str()));
    }
    let ghost s = state.spec_source();
    let ghost p = state.spec_pos();
    let ghost f = state.spec_fetched();
    let mut i: usize = 0;
    while i < 3
        invariant
            old(state).wf(),
            start_mark == old(state).spec_mark(),
            start_mark.col == 0 || start_mark.index == 0,
            s == old(state).spec_source(),
            p == old(state).spec_pos(),
            f == old(state).spec_fetched(),
            c == spec_marker_char(m),
            c != '\n',
            name@ == spec_marker_name(m),
            i <= 3,
            state.read_on_from(old(state)),
            state.spec_fetched() == f,
            state.spec_pos() == p + i,
            p + i <= f,
            state.spec_mark() == col_plus(start_mark, i as int),
            forall|j: int| p <= j < p + i ==> #[trigger] s[j] == c,
        decreases 3 - i,
    {
        let ghost mk = state.spec_mark();
        let ch = state.consume_char()?;
        if ch != c {
            let mut msg = String::new();
            push_str(&mut msg, "expected '");
            push_char(&mut msg, c);
            push_str(&mut msg, "' at position ");
            push_decimal(&mut msg, i);
            push_str(&mut msg, " in ");
            push_str(&mut msg, name);
            push_str(&mut msg, " marker, found '");
            push_char(&mut msg, ch);
            push_char(&mut msg, '\'');
            proof {
                assert(msg@ =~= expected_message(m, i as nat, ch)) by {
                    reveal_strlit("'");
                }
            }
            return Err(ScanError::new(state.mark(), msg.as_str()));
        }
        i = i + 1;
    }
    let in_flow = state.in_flow_context();
    let ghost m3 = state.spec_mark();
    match state.peek_char() {
        Err(_) => Ok(()),
        Ok(ch) => {
            if ch == ' ' || ch == '\t' || ch == '\n' || ch == '\r' || ch == '#'
                || (in_flow && (ch == ',' || ch == '[' || ch == ']' || ch == '{' || ch == '}')) {
                Ok(())
            } else {
                let mut msg = String::new();
                push_str(&mut msg, name);
                push_str(&mut msg, " marker must be followed by whitespace, comment, or end of input, found '");
                push_char(&mut msg, ch);
                push_char(&mut msg, '\'');
                proof {
                    assert(msg@ =~= boundary_message(m, ch)) by {
                        reveal_strlit("'");
                    }
                }
                Err(ScanError::new(state.mark(), msg.as_str()))
            }
        },
    }
}

/// Scan document start marker (---)
pub fn scan_document_start(state: &mut ScannerState) -> (r: Result<(), ScanError>)
    requires
        old(state).wf(),
    ensures
        marker_scan_done(old(state), final(state), DocumentMarker::Start, r),
{
    scan_marker(state, DocumentMarker::Start)
}

/// Scan document end marker (...)
pub fn scan_document_end(state: &mut ScannerState) -> (r: Result<(), ScanError>)
    requires
        old(state).wf(),
    ensures
        marker_scan_done(old(state), final(state), DocumentMarker::End, r),
{
    scan_marker(state, DocumentMarker::End)
}

/// Three `c` at `p` followed by a marker boundary.
pub open spec fn marker_sequence_at(s: Seq<char>, p: int, c: char, in_flow: bool) -> bool {
    p + 3 <= s.len() && s[p] == c && s[p + 1] == c && s[p + 2] == c && marker_boundary_at(s, p + 3, in_flow)
}

fn is_marker_sequence(state: &mut ScannerState, c: char) -> (b: bool)
    requires
        old(state).wf(),
    ensures
        final(state).only_window_grew(old(state)),
        b == marker_sequence_at(old(state).spec_source(), old(state).spec_pos(), c, old(state).spec_flow_level() > 0),
{
    let pattern = [c, c, c];
    let ghost s = state.spec_source();
    let ghost p = state.spec_pos();
    let matched = state.check_chars(&pattern);
    proof {
        assert(pattern@ =~= seq![c, c, c]);
        if p + 3 <= s.len() && s[p] == c && s[p + 1] == c && s[p + 2] == c {
            assert(s.subrange(p, p + 3) =~= pattern@);
        }
        if matched {
            assert(s.subrange(p, p + 3)[0] == s[p]);
            assert(s.subrange(p, p + 3)[1] == s[p + 1]);
            assert(s.subrange(p, p + 3)[2] == s[p + 2]);
        }
    }
    if !matched {
        return false;
    }
    let in_flow = state.in_flow_context();
    match state.peek_char_at(3) {
        None => true,
        Some(ch) => ch == ' ' || ch == '\t' || ch == '\n' || ch == '\r' || ch == '#'
            || (in_flow && (ch == ',' || ch == '[' || ch == ']' || ch == '{' || ch == '}')),
    }
}

/// Check if sequence looks like document start
pub fn is_document_start_sequence(state: &mut ScannerState) -> (b: bool)
    requires
        old(state).wf(),
    ensures
        final(state).only_window_grew(old(state)),
        b == marker_sequence_at(old(state).spec_source(), old(state).spec_pos(), '-', old(state).spec_flow_level() > 0),
{
    is_marker_sequence(state, '-')
}

/// Check if sequence looks like document end
pub fn is_document_end_sequence(state: &mut ScannerState) -> (b: bool)
    requires
        old(state).wf(),
    ensures
        final(state).only_window_grew(old(state)),
        b == marker_sequence_at(old(state).spec_source(), old(state).spec_pos(), '.', old(state).spec_flow_level() > 0),
{
    is_marker_sequence(state, '.')
}

/// The marker ahead of `p`, if any; a start marker is looked for first.
pub open spec fn marker_ahead_spec(s: Seq<char>, p: int, in_flow: bool) -> Option<DocumentMarker> {
    if marker_sequence_at(s, p, '-', in_flow) {
        Some(DocumentMarker::Start)
    } else if marker_sequence_at(s, p, '.', in_flow) {
        Some(DocumentMarker::End)
    } else {
        None
    }
}

/// Peek ahead to check for document markers without consuming
pub fn peek_document_marker(state: &mut ScannerState) -> (r: Option<DocumentMarker>)
    requires
        old(state).wf(),
    ensures
        final(state).only_window_grew(old(state)),
        r == marker_ahead_spec(old(state).spec_source(), old(state).spec_pos(), old(state).spec_flow_level() > 0),
{
    if is_document_start_sequence(state) {
        Some(DocumentMarker::Start)
    } else if is_document_end_sequence(state) {
        Some(DocumentMarker::End)
    } else {
        None
    }
}

/// Consume the given document marker
pub fn consume_document_marker(state: &mut ScannerState, marker_type: DocumentMarker) -> (r: Result<(), ScanError>)
    requires
        old(state).wf(),
    ensures
        marker_scan_done(old(state), final(state), marker_type, r),
{
    match marker_type {
        DocumentMarker::Start => scan_document_start(state),
        DocumentMarker::End => scan_document_end(state),
    }
}

/// Check if we're at a potential document boundary
pub fn at_document_boundary(state: &mut ScannerState) -> (b: bool)
    requires
        old(state).wf(),
    ensures
        final(state).only_window_grew(old(state)),
        b == (marker_ahead_spec(old(state).spec_source(), old(state).spec_pos(), old(state).spec_flow_level() > 0) is Some),
{
    peek_document_marker(state).is_some()
}

/// Validate document marker in current context: an end marker is refused inside a flow
/// collection.
pub fn validate_document_marker_context(state: &ScannerState, marker_type: DocumentMarker) -> (r: Result<(), ScanError>)
    ensures
        r is Err <==> marker_type == DocumentMarker::End && state.spec_flow_level() > 0,
        r matches Err(e) ==> e.mark == state.spec_mark()
            && e.info@ == "document end marker not allowed inside flow collections"@,
{
    if marker_type == DocumentMarker::Start {
        return Ok(());
    }
    if state.in_flow_context() {
        return Err(ScanError::new(state.mark(), "document end marker not allowed inside flow collections"));
    }
    Ok(())
}

/// Get marker character for document marker type
pub fn marker_character(marker_type: DocumentMarker) -> (c: char)
    ensures
        c == spec_marker_char(marker_type),
{
    match marker_type {
        DocumentMarker::Start => '-',
        DocumentMarker::End => '.',
    }
}

/// Get marker string for document marker type
pub fn marker_string(marker_type: DocumentMarker) -> (s: &'static str)
    ensures
        s@ == spec_marker_string(marker_type),
{
    match marker_type {
        DocumentMarker::Start => "---",
        DocumentMarker::End => "...",
    }
}

/// Create formatted error message for document marker: `"{name} marker '{marker}' {context}"`
pub fn format_marker_error(marker_type: DocumentMarker, context: &str) -> (s: String)
    ensures
        s@ == spec_marker_name(marker_type) + " marker '"@ + spec_marker_string(marker_type) + "' "@ + context@,
{
    let mut s = String::new();
    push_str(&mut s, marker_name(marker_type));
    push_str(&mut s, " marker '");
    push_str(&mut s, marker_string(marker_type));
    push_str(&mut s, "' ");
    push_str(&mut s, context);
    s
}

} // verus!
