//! Tags: scanning of handles, suffixes and verbatim `<uri>` tags with `%XX` escapes,
//! their validation, and resolution of the standard handles.
use vstd::prelude::*;
use crate::error::{Marker, ScanError};
use crate::scanner::state::{ScannerConfig, ScannerState, window_after_peek};
use crate::lexer::position::{utf8_len, utf8_len_seq, char_len_utf8};
use crate::lexer::unicode::{is_hex_digit, hex_digit_value, is_ascii_hexdigit, hex_digit_val};
use crate::text::{push_char, push_str, str_eq, str_to_chars, lemma_subrange_extend};

verus! {

/// A character of a named tag handle: ASCII letter or digit, `_` or `-`.
pub open spec fn spec_tag_handle_char(ch: char) -> bool {
    ('a' <= ch <= 'z') || ('A' <= ch <= 'Z') || ('0' <= ch <= '9') || ch == '_' || ch == '-'
}

/// A URI character (RFC 3986 unreserved and reserved characters, and `%`); tag suffixes
/// use the same set.
pub open spec fn spec_uri_char(ch: char) -> bool {
    ('a' <= ch <= 'z') || ('A' <= ch <= 'Z') || ('0' <= ch <= '9') || ch == '-' || ch == '_' || ch == '.'
        || ch == '~' || ch == ':' || ch == '/' || ch == '?' || ch == '#' || ch == '[' || ch == ']'
        || ch == '@' || ch == '!' || ch == '$' || ch == '&' || ch == '\'' || ch == '(' || ch == ')'
        || ch == '*' || ch == '+' || ch == ',' || ch == ';' || ch == '=' || ch == '%'
}

fn is_tag_handle_char(ch: char) -> (b: bool)
    ensures
        b == spec_tag_handle_char(ch),
{
    ('a' <= ch && ch <= 'z') || ('A' <= ch && ch <= 'Z') || ('0' <= ch && ch <= '9') || ch == '_' || ch == '-'
}

fn is_uri_char(ch: char) -> (b: bool)
    ensures
        b == spec_uri_char(ch),
{
    ('a' <= ch && ch <= 'z') || ('A' <= ch && ch <= 'Z') || ('0' <= ch && ch <= '9') || ch == '-' || ch == '_'
        || ch == '.' || ch == '~' || ch == ':' || ch == '/' || ch == '?' || ch == '#' || ch == '['
        || ch == ']' || ch == '@' || ch == '!' || ch == '$' || ch == '&' || ch == '\'' || ch == '('
        || ch == ')' || ch == '*' || ch == '+' || ch == ',' || ch == ';' || ch == '=' || ch == '%'
}

/// `String::from_utf8`: the string the bytes encode, when they are valid UTF-8.
#[verifier::external_body]
fn string_from_utf8(bytes: Vec<u8>) -> (r: Option<String>)
    ensures
        r is Some <==> vstd::utf8::valid_utf8(bytes@),
        r matches Some(s) ==> s@ == vstd::utf8::decode_utf8(bytes@),
{
    String::from_utf8(bytes).ok()
}

/// Why a tag scan stopped short.
pub enum TagScanError {
    /// The lookahead ran out
    EndOfInput,
    /// A `%` escape held a character that is not a hexadecimal digit
    BadHexDigit(char),
    /// The escaped bytes are not UTF-8
    BadUtf8,
    /// The suffix grew past 1024 bytes
    SuffixTooLong,
    /// A verbatim tag held a character that is not a URI character
    BadVerbatimChar(char),
    /// A verbatim tag grew past 4096 bytes
    VerbatimTooLong,
}

/// The message for each way a tag scan stops short.
pub open spec fn tag_scan_message(e: TagScanError) -> Seq<char> {
    match e {
        TagScanError::EndOfInput => "unexpected end of input"@,
        TagScanError::BadHexDigit(c) => "invalid hex digit '"@ + seq![c] + "' in URI escape"@,
        TagScanError::BadUtf8 => "invalid UTF-8 in URI escape sequence"@,
        TagScanError::SuffixTooLong => "tag suffix too long (max 1024 characters)"@,
        TagScanError::BadVerbatimChar(c) => "invalid character '"@ + seq![c] + "' in verbatim tag"@,
        TagScanError::VerbatimTooLong => "verbatim tag URI too long (max 4096 characters)"@,
    }
}

/// The byte a `%XY` escape stands for, given its two digits.
pub open spec fn escape_byte(hi: char, lo: char) -> u8 {
    (hex_digit_value(hi) * 16 + hex_digit_value(lo)) as u8
}

/// Decoding a run of `%XY` escapes whose first digit is at `i` (the `%` already consumed),
/// with the window ending at `f` and the bytes `acc` decoded so far: where it stops, the
/// window then, and the bytes or the reason it failed.
pub open spec fn escapes_outcome(s: Seq<char>, i: int, f: int, acc: Seq<u8>) -> (int, int, Result<Seq<u8>, TagScanError>)
    decreases s.len() - i,
{
    if i >= f {
        (i, f, Err(TagScanError::EndOfInput))
    } else if !is_hex_digit(s[i]) {
        (i + 1, f, Err(TagScanError::BadHexDigit(s[i])))
    } else if i + 1 >= f {
        (i + 1, f, Err(TagScanError::EndOfInput))
    } else if !is_hex_digit(s[i + 1]) {
        (i + 2, f, Err(TagScanError::BadHexDigit(s[i + 1])))
    } else {
        let acc2 = acc.push(escape_byte(s[i], s[i + 1]));
        let f2 = window_after_peek(s, i + 2, f);
        if i + 2 < s.len() && s[i + 2] == '%' && f2 <= s.len() && i + 3 <= s.len() {
            escapes_outcome(s, i + 3, f2, acc2)
        } else {
            (i + 2, f2, Ok(acc2))
        }
    }
}

/// Escape decoding always moves on and keeps the window within the input.
pub proof fn lemma_escapes_progress(s: Seq<char>, i: int, f: int, acc: Seq<u8>)
    requires
        0 <= i <= f <= s.len(),
    ensures
        ({
            let (q, f2, _) = escapes_outcome(s, i, f, acc);
            i <= q <= f2 <= s.len() && f <= f2
        }),
        escapes_outcome(s, i, f, acc).2 is Ok ==> escapes_outcome(s, i, f, acc).0 >= i + 2,
        escapes_outcome(s, i, f, acc).2 matches Err(k) ==> (k is EndOfInput || k is BadHexDigit),
    decreases s.len() - i,
{
    if i < f && is_hex_digit(s[i]) && i + 1 < f && is_hex_digit(s[i + 1]) {
        let acc2 = acc.push(escape_byte(s[i], s[i + 1]));
        let f2 = window_after_peek(s, i + 2, f);
        if i + 2 < s.len() && s[i + 2] == '%' && f2 <= s.len() && i + 3 <= s.len() {
            lemma_escapes_progress(s, i + 3, f2, acc2);
        }
    }
}

fn read_hex_digit(state: &mut ScannerState) -> (r: Result<char, ScanError>)
    requires
        old(state).wf(),
    ensures
        final(state).read_on_from(old(state)),
        final(state).spec_fetched() == old(state).spec_fetched(),
        old(state).spec_pos() >= old(state).spec_fetched() ==> final(state).spec_pos() == old(state).spec_pos()
            && (r matches Err(e) && e.mark == final(state).spec_mark() && e.info@ == tag_scan_message(TagScanError::EndOfInput)),
        old(state).spec_pos() < old(state).spec_fetched() ==> final(state).spec_pos() == old(state).spec_pos() + 1 && ({
            let c = old(state).spec_source()[old(state).spec_pos()];
            if is_hex_digit(c) {
                r == Ok::<char, ScanError>(c)
            } else {
                (r matches Err(e) && e.mark == final(state).spec_mark() && e.info@ == tag_scan_message(TagScanError::BadHexDigit(c)))
            }
        }),
{
    let ch = state.consume_char()?;
    if is_ascii_hexdigit(ch) {
        Ok(ch)
    } else {
        let mut msg = String::new();
        push_str(&mut msg, "invalid hex digit '");
        push_char(&mut msg, ch);
        push_str(&mut msg, "' in URI escape");
        assert(msg@ =~= tag_scan_message(TagScanError::BadHexDigit(ch)));
        Err(ScanError::new(state.mark(), msg.as_str()))
    }
}

/// The result of decoding the escapes: the decoded text, or the error.
pub open spec fn escape_result(out: Result<Seq<u8>, TagScanError>) -> Result<Seq<char>, TagScanError> {
    match out {
        Ok(bytes) => if vstd::utf8::valid_utf8(bytes) {
            Ok(vstd::utf8::decode_utf8(bytes))
        } else {
            Err(TagScanError::BadUtf8)
        },
        Err(e) => Err(e),
    }
}

/// `r` is `out`, with errors reported at `mark`.
pub open spec fn matches_outcome(r: Result<String, ScanError>, out: Result<Seq<char>, TagScanError>, mark: Marker) -> bool {
    match out {
        Ok(t) => r matches Ok(s) && s@ == t,
        Err(k) => r matches Err(e) && e.mark == mark && e.info@ == tag_scan_message(k),
    }
}

fn decode_uri_escape(state: &mut ScannerState) -> (r: Result<String, ScanError>)
    requires
        old(state).wf(),
        old(state).spec_pos() < old(state).spec_fetched(),
        old(state).spec_source()[old(state).spec_pos()] == '%',
    ensures
        final(state).read_on_from(old(state)),
        ({
            let (q, f2, out) = escapes_outcome(old(state).spec_source(), old(state).spec_pos() + 1,
                old(state).spec_fetched(), Seq::empty());
            &&& final(state).spec_pos() == q
            &&& final(state).spec_fetched() == f2
            &&& matches_outcome(r, escape_result(out), final(state).spec_mark())
        }),
{
    let ghost s = old(state).spec_source();
    let ghost p0 = old(state).spec_pos();
    let ghost f0 = old(state).spec_fetched();
    state.consume_char()?;
    let mut bytes: Vec<u8> = Vec::new();
    loop
        invariant_except_break
            escapes_outcome(s, p0 + 1, f0, Seq::empty())
                == escapes_outcome(s, state.spec_pos(), state.spec_fetched(), bytes@),
        invariant
            s == old(state).spec_source(),
            p0 == old(state).spec_pos(),
            f0 == old(state).spec_fetched(),
            state.read_on_from(old(state)),
        ensures
            escapes_outcome(s, p0 + 1, f0, Seq::empty())
                == (state.spec_pos(), state.spec_fetched(), Ok::<Seq<u8>, TagScanError>(bytes@)),
        decreases s.len() - state.spec_pos(),
    {
        let ghost i = state.spec_pos();
        let ghost f = state.spec_fetched();
        let ghost acc = bytes@;
        let hi = read_hex_digit(state)?;
        let lo = read_hex_digit(state)?;
        let b = (hex_digit_val(hi) * 16 + hex_digit_val(lo)) as u8;
        assert(b == escape_byte(hi, lo));
        bytes.push(b);
        let next = state.peek_char();
        proof {
            assert(state.spec_fetched() == window_after_peek(s, i + 2, f));
            assert(bytes@ == acc.push(escape_byte(s[i], s[i + 1])));
        }
        match next {
            Ok('%') => {
                state.consume_char()?;
            },
            _ => {
                break;
            },
        }
    }
    match string_from_utf8(bytes) {
        Some(t) => Ok(t),
        None => Err(ScanError::new(state.mark(), "invalid UTF-8 in URI escape sequence")),
    }
}

/// Where a tag handle scanned from `i` (after its opening `!`) ends: after the run of
/// handle characters, and after a closing `!` if one follows.
pub open spec fn handle_run_end(s: Seq<char>, i: int) -> int
    decreases s.len() - i,
{
    if i < s.len() && spec_tag_handle_char(s[i]) {
        handle_run_end(s, i + 1)
    } else if i < s.len() && s[i] == '!' {
        i + 1
    } else {
        i
    }
}

/// Where the handle starting at `p` ends: nothing is taken unless `p` holds `!`.
pub open spec fn handle_end(s: Seq<char>, p: int) -> int {
    if p < s.len() && s[p] == '!' { handle_run_end(s, p + 1) } else { p }
}

proof fn lemma_handle_run_end_bounds(s: Seq<char>, i: int)
    requires
        0 <= i <= s.len(),
    ensures
        i <= handle_run_end(s, i) <= s.len(),
    decreases s.len() - i,
{
    if i < s.len() && spec_tag_handle_char(s[i]) {
        lemma_handle_run_end_bounds(s, i + 1);
    }
}

/// The larger of two integers.
pub open spec fn max_int(a: int, b: int) -> int {
    if a >= b { a } else { b }
}

/// The window after scanning a handle from `p` with the window ending at `f`: every
/// character taken was looked at first, and so was the one the scan stopped at.
pub open spec fn handle_window(s: Seq<char>, p: int, f: int) -> int {
    let q = handle_end(s, p);
    if !(p < s.len() && s[p] == '!') {
        window_after_peek(s, p, f)
    } else if q > p + 1 && s[q - 1] == '!' {
        max_int(f, q)
    } else {
        max_int(f, if q + 1 <= s.len() { q + 1 } else { s.len() as int })
    }
}

fn scan_tag_handle(state: &mut ScannerState) -> (r: Result<String, ScanError>)
    requires
        old(state).wf(),
    ensures
        final(state).read_on_from(old(state)),
        final(state).spec_pos() == handle_end(old(state).spec_source(), old(state).spec_pos()),
        final(state).spec_fetched() == handle_window(old(state).spec_source(), old(state).spec_pos(), old(state).spec_fetched()),
        r matches Ok(h) && h@ == old(state).spec_source().subrange(old(state).spec_pos(), final(state).spec_pos()),
{
    let ghost s = old(state).spec_source();
    let ghost p0 = old(state).spec_pos();
    let mut handle = String::new();
    if let Ok('!') = state.peek_char() {
        let c = state.consume_char()?;
        push_char(&mut handle, c);
        proof {
            assert(handle@ =~= s.subrange(p0, p0 + 1));
            lemma_handle_run_end_bounds(s, p0 + 1);
        }
        loop
            invariant_except_break
                handle_run_end(s, state.spec_pos()) == handle_run_end(s, p0 + 1),
                state.spec_fetched() == max_int(old(state).spec_fetched(), state.spec_pos()),
                state.spec_pos() == p0 + 1 || spec_tag_handle_char(s[state.spec_pos() - 1]),
            invariant
                s == old(state).spec_source(),
                old(state).wf(),
                p0 == old(state).spec_pos(),
                p0 < s.len() && s[p0] == '!',
                state.read_on_from(old(state)),
                state.spec_pos() > p0,
                handle@ == s.subrange(p0, state.spec_pos()),
            ensures
                state.read_on_from(old(state)),
                state.spec_pos() == handle_run_end(s, p0 + 1),
                handle@ == s.subrange(p0, state.spec_pos()),
                state.spec_fetched() == handle_window(s, p0, old(state).spec_fetched()),
            decreases s.len() - state.spec_pos(),
        {
            let ghost i = state.spec_pos();
            match state.peek_char() {
                Ok(ch) => {
                    if is_tag_handle_char(ch) {
                        let c = state.consume_char()?;
                        push_char(&mut handle, c);
                        proof { lemma_subrange_extend(s, p0, i); }
                    } else if ch == '!' {
                        let c = state.consume_char()?;
                        push_char(&mut handle, c);
                        proof { lemma_subrange_extend(s, p0, i); }
                        break;
                    } else {
                        break;
                    }
                },
                Err(_) => {
                    break;
                },
            }
        }
    }
    Ok(handle)
}

/// Scanning a tag suffix at `i` with window end `f` and the text `acc` so far: where it
/// stops, and the suffix or the reason it failed.
pub open spec fn suffix_outcome(s: Seq<char>, i: int, f: int, acc: Seq<char>) -> (int, Result<Seq<char>, TagScanError>)
    decreases s.len() - i,
{
    let f1 = window_after_peek(s, i, f);
    if i < 0 || i >= s.len() || f > s.len() || f < i {
        (i, Ok(acc))
    } else if s[i] == '%' {
        let (q, f2, out) = escapes_outcome(s, i + 1, f1, Seq::empty());
        match escape_result(out) {
            Err(k) => (q, Err(k)),
            Ok(t) => {
                let acc2 = acc + t;
                if utf8_len_seq(acc2) > 1024 {
                    (q, Err(TagScanError::SuffixTooLong))
                } else if i < q && q <= f2 && f2 <= s.len() {
                    suffix_outcome(s, q, f2, acc2)
                } else {
                    (q, Ok(acc2))
                }
            },
        }
    } else if spec_uri_char(s[i]) {
        let acc2 = acc.push(s[i]);
        if utf8_len_seq(acc2) > 1024 {
            (i + 1, Err(TagScanError::SuffixTooLong))
        } else {
            suffix_outcome(s, i + 1, f1, acc2)
        }
    } else {
        (i, Ok(acc))
    }
}

fn scan_tag_suffix(state: &mut ScannerState) -> (r: Result<String, ScanError>)
    requires
        old(state).wf(),
    ensures
        final(state).read_on_from(old(state)),
        ({
            let (q, out) = suffix_outcome(old(state).spec_source(), old(state).spec_pos(), old(state).spec_fetched(), Seq::empty());
            final(state).spec_pos() == q && matches_outcome(r, out, final(state).spec_mark())
        }),
{
    let ghost s = old(state).spec_source();
    let mut suffix = String::new();
    let mut bytes: usize = 0;
    loop
        invariant
            s == old(state).spec_source(),
            old(state).wf(),
            state.read_on_from(old(state)),
            bytes == utf8_len_seq(suffix@),
            bytes <= 1024,
            suffix_outcome(s, old(state).spec_pos(), old(state).spec_fetched(), Seq::empty())
                == suffix_outcome(s, state.spec_pos(), state.spec_fetched(), suffix@),
        ensures
            state.read_on_from(old(state)),
            suffix_outcome(s, old(state).spec_pos(), old(state).spec_fetched(), Seq::empty())
                == (state.spec_pos(), Ok::<Seq<char>, TagScanError>(suffix@)),
        decreases s.len() - state.spec_pos(),
    {
        let ghost i = state.spec_pos();
        let ghost f = state.spec_fetched();
        match state.peek_char() {
            Ok('%') => {
                let ghost f1 = state.spec_fetched();
                proof { lemma_escapes_progress(s, i + 1, f1, Seq::empty()); }
                let part = decode_uri_escape(state)?;
                let ghost before = suffix@;
                push_str(&mut suffix, part.as_str());
                proof { lemma_utf8_len_append(before, part@); }
                let n = utf8_len_of(part.as_str(), 1024);
                if n > 1024 - bytes {
                    return Err(ScanError::new(state.mark(), "tag suffix too long (max 1024 characters)"));
                }
                bytes = bytes + n;
            },
            Ok(ch) => {
                if is_uri_char(ch) {
                    let c = state.consume_char()?;
                    let ghost before = suffix@;
                    push_char(&mut suffix, c);
                    proof { lemma_utf8_len_append(before, seq![c]); assert(before + seq![c] =~= before.push(c)); }
                    let n = char_len_utf8(c);
                    proof { crate::lexer::position::lemma_utf8_len_single(c); }
                    if n > 1024 - bytes {
                        return Err(ScanError::new(state.mark(), "tag suffix too long (max 1024 characters)"));
                    }
                    bytes = bytes + n;
                } else {
                    break;
                }
            },
            Err(_) => {
                break;
            },
        }
    }
    Ok(suffix)
}

/// Byte counts add up under concatenation.
pub proof fn lemma_utf8_len_append(a: Seq<char>, b: Seq<char>)
    ensures
        utf8_len_seq(a + b) == utf8_len_seq(a) + utf8_len_seq(b),
    decreases b.len(),
{
    if b.len() > 0 {
        lemma_utf8_len_append(a, b.drop_last());
        assert((a + b).drop_last() =~= a + b.drop_last());
        assert((a + b).last() == b.last());
    } else {
        assert(a + b =~= a);
    }
}

/// The UTF-8 byte count of `s`, or any value above `cap` once the count passes `cap`.
fn utf8_len_of(s: &str, cap: usize) -> (n: usize)
    requires
        cap < usize::MAX,
    ensures
        utf8_len_seq(s@) <= cap ==> n == utf8_len_seq(s@),
        utf8_len_seq(s@) > cap ==> n > cap,
{
    let v = str_to_chars(s);
    let mut total: usize = 0;
    let mut i: usize = 0;
    while i < v.len()
        invariant
            v@ == s@,
            cap < usize::MAX,
            i <= v@.len(),
            total == utf8_len_seq(v@.take(i as int)),
            total <= cap,
        decreases v@.len() - i,
    {
        proof {
            assert(v@.take(i + 1).drop_last() =~= v@.take(i as int));
        }
        let n = char_len_utf8(v[i]);
        if n > cap - total {
            proof { crate::scanner::anchors::lemma_utf8_len_prefix_le(v@, i + 1); }
            return cap + 1;
        }
        total = total + n;
        i = i + 1;
    }
    assert(v@.take(i as int) =~= v@);
    total
}

/// Scanning a verbatim tag's URI at `i` (after `<`) with window end `f` and the text
/// `acc` so far: where it stops, and the URI or the reason it failed.
pub open spec fn verbatim_outcome(s: Seq<char>, i: int, f: int, acc: Seq<char>) -> (int, Result<Seq<char>, TagScanError>)
    decreases s.len() - i,
{
    let f1 = window_after_peek(s, i, f);
    if i < 0 || f > s.len() || f < i {
        (i, Ok(acc))
    } else if i >= s.len() {
        (i, Err(TagScanError::EndOfInput))
    } else if s[i] == '>' {
        (i + 1, Ok(acc))
    } else if s[i] == '%' {
        let (q, f2, out) = escapes_outcome(s, i + 1, f1, Seq::empty());
        match escape_result(out) {
            Err(k) => (q, Err(k)),
            Ok(t) => {
                let acc2 = acc + t;
                if utf8_len_seq(acc2) > 4096 {
                    (q, Err(TagScanError::VerbatimTooLong))
                } else if i < q && q <= f2 && f2 <= s.len() {
                    verbatim_outcome(s, q, f2, acc2)
                } else {
                    (q, Ok(acc2))
                }
            },
        }
    } else if spec_uri_char(s[i]) {
        let acc2 = acc.push(s[i]);
        if utf8_len_seq(acc2) > 4096 {
            (i + 1, Err(TagScanError::VerbatimTooLong))
        } else {
            verbatim_outcome(s, i + 1, f1, acc2)
        }
    } else {
        (i, Err(TagScanError::BadVerbatimChar(s[i])))
    }
}

/// The mark a verbatim scan error is reported at: the start for a URI too long, else where
/// the scan stopped.
pub open spec fn verbatim_error_mark(k: TagScanError, start: Marker, at: Marker) -> Marker {
    match k {
        TagScanError::VerbatimTooLong => start,
        _ => at,
    }
}

/// The index of the first character of `s` that is not a URI character, if any.
pub open spec fn first_non_uri(s: Seq<char>) -> Option<int> {
    if exists|i: int| 0 <= i < s.len() && !spec_uri_char(#[trigger] s[i]) {
        Some(choose|i: int| 0 <= i < s.len() && !spec_uri_char(#[trigger] s[i])
            && forall|j: int| 0 <= j < i ==> spec_uri_char(#[trigger] s[j]))
    } else {
        None
    }
}

/// The index of the first character of `s` from 1 on that is not a handle character, if any.
pub open spec fn first_non_handle(s: Seq<char>) -> Option<int> {
    if exists|i: int| 1 <= i < s.len() && !spec_tag_handle_char(#[trigger] s[i]) {
        Some(choose|i: int| 1 <= i < s.len() && !spec_tag_handle_char(#[trigger] s[i])
            && forall|j: int| 1 <= j < i ==> spec_tag_handle_char(#[trigger] s[j]))
    } else {
        None
    }
}

/// What the URI of a verbatim tag is checked for.
pub open spec fn uri_check(u: Seq<char>) -> Result<(), Seq<char>> {
    if u.len() == 0 {
        Err("empty tag URI"@)
    } else if utf8_len_seq(u) > 4096 {
        Err("tag URI too long (max 4096 characters)"@)
    } else if first_non_uri(u) is Some {
        Err("invalid character '"@ + seq![u[first_non_uri(u)->0]] + "' in tag URI"@)
    } else {
        Ok(())
    }
}

fn first_non_uri_char(v: &[char]) -> (r: Option<usize>)
    ensures
        r matches Some(i) ==> i < v@.len() && Some(i as int) == first_non_uri(v@),
        r is None ==> first_non_uri(v@) is None,
{
    let mut i: usize = 0;
    while i < v.len()
        invariant
            i <= v@.len(),
            forall|j: int| 0 <= j < i ==> spec_uri_char(#[trigger] v@[j]),
        decreases v@.len() - i,
    {
        if !is_uri_char(v[i]) {
            proof {
                assert(0 <= i < v@.len() && !spec_uri_char(v@[i as int])
                    && forall|j: int| 0 <= j < i ==> spec_uri_char(#[trigger] v@[j]));
                let k = first_non_uri(v@)->0;
                if k < i { assert(spec_uri_char(v@[k])); }
                if k > i { assert(spec_uri_char(v@[i as int])); }
            }
            return Some(i);
        }
        i = i + 1;
    }
    proof {
        if exists|k: int| 0 <= k < v@.len() && !spec_uri_char(#[trigger] v@[k]) {
            let k = choose|k: int| 0 <= k < v@.len() && !spec_uri_char(#[trigger] v@[k]);
            assert(spec_uri_char(v@[k]));
        }
    }
    None
}

fn validate_tag_uri(uri: &str, position: Marker) -> (r: Result<(), ScanError>)
    ensures
        match uri_check(uri@) {
            Ok(()) => r is Ok,
            Err(msg) => r matches Err(e) && e.mark == position && e.info@ == msg,
        },
{
    let v = str_to_chars(uri);
    if v.len() == 0 {
        return Err(ScanError::new(position, "empty tag URI"));
    }
    if crate::scanner::anchors::utf8_len_exceeds(v.as_slice(), 4096) {
        return Err(ScanError::new(position, "tag URI too long (max 4096 characters)"));
    }
    match first_non_uri_char(v.as_slice()) {
        Some(i) => {
            let mut msg = String::new();
            push_str(&mut msg, "invalid character '");
            push_char(&mut msg, v[i]);
            push_str(&mut msg, "' in tag URI");
            proof {
                assert(msg@ =~= "invalid character '"@ + seq![uri@[first_non_uri(uri@)->0]] + "' in tag URI"@);
            }
            Err(ScanError::new(position, msg.as_str()))
        },
        None => Ok(()),
    }
}

/// The outcome of a verbatim tag scan from `p` (at `<`): where it stops, and the URI or
/// the error with its mark, given the marks at the start and where it stops.
pub open spec fn verbatim_result(s: Seq<char>, p: int, f: int, start: Marker, at: Marker)
    -> (int, Result<Seq<char>, (Marker, Seq<char>)>)
{
    let (q, out) = verbatim_outcome(s, p + 1, f, Seq::empty());
    match out {
        Err(k) => (q, Err((verbatim_error_mark(k, start, at), tag_scan_message(k)))),
        Ok(u) => if u.len() == 0 {
            (q, Err((start, "empty verbatim tag"@)))
        } else {
            match uri_check(u) {
                Err(msg) => (q, Err((start, msg))),
                Ok(()) => (q, Ok(u)),
            }
        },
    }
}

fn scan_verbatim_tag(state: &mut ScannerState) -> (r: Result<(String, String), ScanError>)
    requires
        old(state).wf(),
        old(state).spec_pos() < old(state).spec_fetched(),
        old(state).spec_source()[old(state).spec_pos()] == '<',
    ensures
        final(state).read_on_from(old(state)),
        ({
            let (q, out) = verbatim_result(old(state).spec_source(), old(state).spec_pos(), old(state).spec_fetched(),
                old(state).spec_mark(), final(state).spec_mark());
            &&& final(state).spec_pos() == q
            &&& match out {
                Ok(u) => r matches Ok((h, t)) && h@ == "!"@ && t@ == u,
                Err((m, msg)) => r matches Err(e) && e.mark == m && e.info@ == msg,
            }
        }),
{
    let ghost s = old(state).spec_source();
    let start_mark = state.mark();
    state.consume_char()?;
    let mut uri = String::new();
    let mut bytes: usize = 0;
    loop
        invariant_except_break
            verbatim_outcome(s, old(state).spec_pos() + 1, old(state).spec_fetched(), Seq::empty())
                == verbatim_outcome(s, state.spec_pos(), state.spec_fetched(), uri@),
        invariant
            s == old(state).spec_source(),
            old(state).wf(),
            start_mark == old(state).spec_mark(),
            state.read_on_from(old(state)),
            bytes == utf8_len_seq(uri@),
            bytes <= 4096,
        ensures
            verbatim_outcome(s, old(state).spec_pos() + 1, old(state).spec_fetched(), Seq::empty())
                == (state.spec_pos(), Ok::<Seq<char>, TagScanError>(uri@)),
        decreases s.len() - state.spec_pos(),
    {
        let ghost i = state.spec_pos();
        let ghost f = state.spec_fetched();
        let ch = state.peek_char()?;
        if ch == '>' {
            state.consume_char()?;
            break;
        } else if ch == '%' {
            let ghost f1 = state.spec_fetched();
            proof { lemma_escapes_progress(s, i + 1, f1, Seq::empty()); }
            let part = match decode_uri_escape(state) {
                Ok(part) => part,
                Err(e) => {
                    assert(verbatim_outcome(s, i, f, uri@).0 == state.spec_pos());
                    return Err(e);
                },
            };
            let ghost before = uri@;
            push_str(&mut uri, part.as_str());
            proof { lemma_utf8_len_append(before, part@); }
            let n = utf8_len_of(part.as_str(), 4096);
            if n > 4096 - bytes {
                return Err(ScanError::new(start_mark, "verbatim tag URI too long (max 4096 characters)"));
            }
            bytes = bytes + n;
        } else if is_uri_char(ch) {
            let c = state.consume_char()?;
            let ghost before = uri@;
            push_char(&mut uri, c);
            proof {
                lemma_utf8_len_append(before, seq![c]);
                assert(before + seq![c] =~= before.push(c));
                crate::lexer::position::lemma_utf8_len_single(c);
            }
            let n = char_len_utf8(c);
            if n > 4096 - bytes {
                return Err(ScanError::new(start_mark, "verbatim tag URI too long (max 4096 characters)"));
            }
            bytes = bytes + n;
        } else {
            let mut msg = String::new();
            push_str(&mut msg, "invalid character '");
            push_char(&mut msg, ch);
            push_str(&mut msg, "' in verbatim tag");
            assert(msg@ =~= tag_scan_message(TagScanError::BadVerbatimChar(ch)));
            return Err(ScanError::new(state.mark(), msg.as_str()));
        }
    }
    if uri.as_str().unicode_len() == 0 {
        return Err(ScanError::new(start_mark, "empty verbatim tag"));
    }
    validate_tag_uri(uri.as_str(), start_mark)?;
    let mut h = String::new();
    push_char(&mut h, '!');
    assert(h@ =~= "!"@) by { reveal_strlit("!"); }
    Ok((h, uri))
}

/// What a tag handle is checked for: empty, `!`, `!!`, or `!name!` with a name of handle
/// characters, 64 bytes at most in all.
pub open spec fn handle_check(h: Seq<char>) -> Result<(), Seq<char>> {
    if h.len() == 0 || h == seq!['!'] || h == seq!['!', '!'] {
        Ok(())
    } else if !(h[0] == '!' && h.last() == '!') {
        Err("invalid tag handle format (must be !, !!, or !word!)"@)
    } else if h.len() < 3 {
        Err("named tag handle must have at least one character between !"@)
    } else if first_non_handle(h.drop_last()) is Some {
        Err("invalid character '"@ + seq![h[first_non_handle(h.drop_last())->0]]
            + "' in tag handle"@)
    } else if utf8_len_seq(h) > 64 {
        Err("tag handle too long (max 64 characters)"@)
    } else {
        Ok(())
    }
}

fn validate_tag_handle(handle: &str, position: Marker) -> (r: Result<(), ScanError>)
    ensures
        match handle_check(handle@) {
            Ok(()) => r is Ok,
            Err(msg) => r matches Err(e) && e.mark == position && e.info@ == msg,
        },
{
    let v = str_to_chars(handle);
    let n = v.len();
    if n == 0 {
        return Ok(());
    }
    if n == 1 && v[0] == '!' {
        assert(handle@ =~= seq!['!']);
        return Ok(());
    }
    if n == 2 && v[0] == '!' && v[1] == '!' {
        assert(handle@ =~= seq!['!', '!']);
        return Ok(());
    }
    proof {
        if handle@ == seq!['!'] { assert(handle@.len() == 1); }
        if handle@ == seq!['!', '!'] { assert(handle@.len() == 2 && handle@[1] == '!'); }
    }
    if !(v[0] == '!' && v[n - 1] == '!') {
        return Err(ScanError::new(position, "invalid tag handle format (must be !, !!, or !word!)"));
    }
    if n < 3 {
        return Err(ScanError::new(position, "named tag handle must have at least one character between !"));
    }
    let ghost m = handle@.drop_last();
    let mut i: usize = 1;
    while i < n - 1
        invariant
            handle@[0] == '!' && handle@.last() == '!',
            handle@ != seq!['!'] && handle@ != seq!['!', '!'],
            m == handle@.drop_last(),
            v@ == handle@,
            n == v@.len(),
            n >= 3,
            1 <= i <= n - 1,
            forall|j: int| 1 <= j < i ==> spec_tag_handle_char(#[trigger] m[j]),
        decreases n - 1 - i,
    {
        if !is_tag_handle_char(v[i]) {
            let mut msg = String::new();
            push_str(&mut msg, "invalid character '");
            push_char(&mut msg, v[i]);
            push_str(&mut msg, "' in tag handle");
            proof {
                assert(m[i as int] == v@[i as int]);
                assert(1 <= i < m.len() && !spec_tag_handle_char(m[i as int])
                    && forall|j: int| 1 <= j < i ==> spec_tag_handle_char(#[trigger] m[j]));
                let k = first_non_handle(m)->0;
                if k < i { assert(spec_tag_handle_char(m[k])); }
                if k > i { assert(spec_tag_handle_char(m[i as int])); }
                assert(msg@ =~= "invalid character '"@ + seq![handle@[k]] + "' in tag handle"@);
            }
            return Err(ScanError::new(position, msg.as_str()));
        }
        assert(m[i as int] == v@[i as int]);
        i = i + 1;
    }
    proof {
        if exists|k: int| 1 <= k < m.len() && !spec_tag_handle_char(#[trigger] m[k]) {
            let k = choose|k: int| 1 <= k < m.len() && !spec_tag_handle_char(#[trigger] m[k]);
            assert(spec_tag_handle_char(m[k]));
        }
    }
    if crate::scanner::anchors::utf8_len_exceeds(v.as_slice(), 64) {
        return Err(ScanError::new(position, "tag handle too long (max 64 characters)"));
    }
    Ok(())
}

/// The `%` escapes of a suffix from `i` on: each `%` needs two hexadecimal digits after it.
pub open spec fn percent_check(s: Seq<char>, i: int) -> Result<(), Seq<char>>
    decreases s.len() - i,
{
    if i < 0 || i >= s.len() {
        Ok(())
    } else if s[i] != '%' {
        percent_check(s, i + 1)
    } else if i + 2 >= s.len() {
        Err("incomplete percent encoding in tag suffix"@)
    } else if !is_hex_digit(s[i + 1]) || !is_hex_digit(s[i + 2]) {
        Err("invalid percent encoding in tag suffix"@)
    } else {
        percent_check(s, i + 3)
    }
}

/// What a tag suffix is checked for: not empty, tag characters only, and well-formed escapes.
pub open spec fn suffix_check(u: Seq<char>) -> Result<(), Seq<char>> {
    if u.len() == 0 {
        Err("empty tag suffix"@)
    } else if first_non_uri(u) is Some {
        Err("invalid character '"@ + seq![u[first_non_uri(u)->0]] + "' in tag suffix"@)
    } else {
        percent_check(u, 0)
    }
}

fn validate_tag_suffix(suffix: &str, position: Marker) -> (r: Result<(), ScanError>)
    ensures
        match suffix_check(suffix@) {
            Ok(()) => r is Ok,
            Err(msg) => r matches Err(e) && e.mark == position && e.info@ == msg,
        },
{
    let v = str_to_chars(suffix);
    if v.len() == 0 {
        return Err(ScanError::new(position, "empty tag suffix"));
    }
    match first_non_uri_char(v.as_slice()) {
        Some(i) => {
            let mut msg = String::new();
            push_str(&mut msg, "invalid character '");
            push_char(&mut msg, v[i]);
            push_str(&mut msg, "' in tag suffix");
            proof {
                assert(msg@ =~= "invalid character '"@ + seq![suffix@[first_non_uri(suffix@)->0]]
                    + "' in tag suffix"@);
            }
            return Err(ScanError::new(position, msg.as_str()));
        },
        None => {},
    }
    let mut i: usize = 0;
    while i < v.len()
        invariant
            v@ == suffix@,
            suffix@.len() > 0,
            first_non_uri(suffix@) is None,
            i <= v@.len(),
            percent_check(suffix@, 0) == percent_check(suffix@, i as int),
        decreases v@.len() - i,
    {
        if v[i] == '%' {
            if v.len() - i <= 2 {
                return Err(ScanError::new(position, "incomplete percent encoding in tag suffix"));
            }
            if !is_ascii_hexdigit(v[i + 1]) || !is_ascii_hexdigit(v[i + 2]) {
                return Err(ScanError::new(position, "invalid percent encoding in tag suffix"));
            }
            i = i + 3;
        } else {
            i = i + 1;
        }
    }
    Ok(())
}

/// The outcome of scanning a tag from `p`: a verbatim tag when `<` comes first, else a
/// handle followed by a suffix, both checked.
pub open spec fn tag_result(s: Seq<char>, p: int, f: int, start: Marker, at: Marker)
    -> (int, Result<(Seq<char>, Seq<char>), (Marker, Seq<char>)>)
{
    let f0 = window_after_peek(s, p, f);
    if p < s.len() && s[p] == '<' {
        let (q, out) = verbatim_result(s, p, f0, start, at);
        (q, match out {
            Ok(u) => Ok(("!"@, u)),
            Err(e) => Err(e),
        })
    } else {
        let q1 = handle_end(s, p);
        let h = s.subrange(p, q1);
        let (q2, out) = suffix_outcome(s, q1, handle_window(s, p, f0), Seq::empty());
        (q2, match out {
            Err(k) => Err((at, tag_scan_message(k))),
            Ok(u) => match handle_check(h) {
                Err(msg) => Err((start, msg)),
                Ok(()) => match suffix_check(u) {
                    Err(msg) => Err((start, msg)),
                    Ok(()) => Ok((h, u)),
                },
            },
        })
    }
}

/// Scan tag with handle and suffix resolution
pub fn scan_tag(state: &mut ScannerState, config: &ScannerConfig) -> (r: Result<(String, String), ScanError>)
    requires
        old(state).wf(),
    ensures
        final(state).read_on_from(old(state)),
        ({
            let (q, out) = tag_result(old(state).spec_source(), old(state).spec_pos(), old(state).spec_fetched(),
                old(state).spec_mark(), final(state).spec_mark());
            &&& final(state).spec_pos() == q
            &&& match out {
                Ok((h, u)) => r matches Ok((a, b)) && a@ == h && b@ == u,
                Err((m, msg)) => r matches Err(e) && e.mark == m && e.info@ == msg,
            }
        }),
{
    let start_mark = state.mark();
    if let Ok('<') = state.peek_char() {
        return scan_verbatim_tag(state);
    }
    let handle = scan_tag_handle(state)?;
    let suffix = scan_tag_suffix(state)?;
    validate_tag_handle(handle.as_str(), start_mark)?;
    validate_tag_suffix(suffix.as_str(), start_mark)?;
    Ok((handle, suffix))
}

/// The URI a handle and suffix resolve to: the suffix alone for `""` and `!`, the YAML
/// namespace before it for `!!`; other handles are unresolved.
pub open spec fn resolve_spec(handle: Seq<char>, suffix: Seq<char>) -> Result<Seq<char>, Seq<char>> {
    if handle == ""@ || handle == "!"@ {
        Ok(suffix)
    } else if handle == "!!"@ {
        Ok("tag:yaml.org,2002:"@ + suffix)
    } else {
        Err("unresolved tag handle '"@ + handle + "'"@)
    }
}

/// Resolve tag handle to full URI
pub fn resolve_tag_handle(handle: &str, suffix: &str) -> (r: Result<String, String>)
    ensures
        match resolve_spec(handle@, suffix@) {
            Ok(u) => r matches Ok(s) && s@ == u,
            Err(m) => r matches Err(s) && s@ == m,
        },
{
    if str_eq(handle, "") || str_eq(handle, "!") {
        let mut s = String::new();
        push_str(&mut s, suffix);
        Ok(s)
    } else if str_eq(handle, "!!") {
        let mut s = String::new();
        push_str(&mut s, "tag:yaml.org,2002:");
        push_str(&mut s, suffix);
        Ok(s)
    } else {
        let mut s = String::new();
        push_str(&mut s, "unresolved tag handle '");
        push_str(&mut s, handle);
        push_str(&mut s, "'");
        Err(s)
    }
}

/// Whether `p` is a prefix of `s`.
pub open spec fn has_prefix(s: Seq<char>, p: Seq<char>) -> bool {
    p.len() <= s.len() && s.subrange(0, p.len() as int) == p
}

fn starts_with_yaml_namespace(uri: &str) -> (b: bool)
    ensures
        b == has_prefix(uri@, "tag:yaml.org,2002:"@),
{
    let u = str_to_chars(uri);
    let p = str_to_chars("tag:yaml.org,2002:");
    if p.len() > u.len() {
        return false;
    }
    let mut i: usize = 0;
    while i < p.len()
        invariant
            u@ == uri@,
            p@ == "tag:yaml.org,2002:"@,
            p@.len() <= u@.len(),
            i <= p@.len(),
            forall|j: int| 0 <= j < i ==> u@[j] == p@[j],
        decreases p@.len() - i,
    {
        if u[i] != p[i] {
            assert(uri@.subrange(0, p@.len() as int)[i as int] != p@[i as int]);
            return false;
        }
        i = i + 1;
    }
    assert(uri@.subrange(0, p@.len() as int) =~= p@);
    true
}

/// Check if tag is a standard YAML 1.2 tag
pub fn is_standard_tag(uri: &str) -> (b: bool)
    ensures
        b == has_prefix(uri@, "tag:yaml.org,2002:"@),
{
    starts_with_yaml_namespace(uri)
}

/// Get YAML 1.2 standard tag name from URI: what follows the YAML namespace
pub fn get_standard_tag_name(uri: &str) -> (r: Option<&str>)
    ensures
        has_prefix(uri@, "tag:yaml.org,2002:"@) ==> (r matches Some(n) && n@ == uri@.subrange("tag:yaml.org,2002:"@.len() as int, uri@.len() as int)),
        !has_prefix(uri@, "tag:yaml.org,2002:"@) ==> r is None,
{
    if starts_with_yaml_namespace(uri) {
        let k = str_to_chars("tag:yaml.org,2002:").len();
        Some(uri.substring_char(k, uri.unicode_len()))
    } else {
        None
    }
}

/// Create local tag URI: `"!{suffix}"`
pub fn create_local_tag(suffix: &str) -> (s: String)
    ensures
        s@ == seq!['!'] + suffix@,
{
    let mut s = String::new();
    push_char(&mut s, '!');
    push_str(&mut s, suffix);
    assert(s@ =~= seq!['!'] + suffix@);
    s
}

/// Create global tag URI: the YAML namespace followed by the type name
pub fn create_global_tag(kind: &str) -> (s: String)
    ensures
        s@ == "tag:yaml.org,2002:"@ + kind@,
{
    let mut s = String::new();
    push_str(&mut s, "tag:yaml.org,2002:");
    push_str(&mut s, kind);
    s
}

} // verus!
