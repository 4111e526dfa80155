//! Anchor (`&name`) and alias (`*name`) names: scanning with length and character checks,
//! validation of names given as text, and name helpers.
use vstd::prelude::*;
use crate::error::{Marker, ScanError};
use crate::scanner::state::ScannerState;
use crate::lexer::position::{utf8_len, utf8_len_seq, char_len_utf8};
use crate::lexer::unicode::{is_control_char, is_control};
use crate::text::{push_char, push_str, push_decimal, decimal, str_eq, str_to_chars, lemma_subrange_extend};

verus! {

/// The longest name, in UTF-8 bytes.
pub const MAX_NAME_BYTES: usize = 1024;

/// Zero-width and byte-order-mark characters that names may not hold.
pub open spec fn spec_is_format_char(ch: char) -> bool {
    ch == '\u{200B}' || ch == '\u{200C}' || ch == '\u{200D}' || ch == '\u{2060}' || ch == '\u{FEFF}'
}

/// A character allowed in an anchor or alias name: not an indicator, blank, control or
/// format character.
pub open spec fn spec_name_char(ch: char) -> bool {
    !(ch == ',' || ch == '[' || ch == ']' || ch == '{' || ch == '}' || ch == ' ' || ch == '\t'
        || ch == '\n' || ch == '\r' || ch == '#' || ch == '!' || ch == '&' || ch == '*' || ch == '?'
        || ch == ':' || ch == '\'' || ch == '"' || ch == '|' || ch == '>' || ch == '%' || ch == '@'
        || ch == '`') && !is_control_char(ch) && !spec_is_format_char(ch)
}

/// A character allowed first in a name: an ASCII letter or digit, `_`, `-`, or any other
/// name character but `.`, `+` and `~`.
pub open spec fn spec_valid_first_name_char(ch: char) -> bool {
    ('0' <= ch <= '9') || ('a' <= ch <= 'z') || ('A' <= ch <= 'Z') || ch == '_' || ch == '-'
        || (spec_name_char(ch) && ch != '.' && ch != '+' && ch != '~')
}

fn is_unicode_format_char(ch: char) -> (b: bool)
    ensures
        b == spec_is_format_char(ch),
{
    ch == '\u{200B}' || ch == '\u{200C}' || ch == '\u{200D}' || ch == '\u{2060}' || ch == '\u{FEFF}'
}

fn is_anchor_char(ch: char) -> (b: bool)
    ensures
        b == spec_name_char(ch),
{
    match ch {
        ',' | '[' | ']' | '{' | '}' => false,
        ' ' | '\t' | '\n' | '\r' => false,
        '#' | '!' | '&' | '*' | '?' | ':' => false,
        '\'' | '"' | '|' | '>' | '%' | '@' | '`' => false,
        _ => !is_control(ch) && !is_unicode_format_char(ch),
    }
}

fn is_valid_first_anchor_char(ch: char) -> (b: bool)
    ensures
        b == spec_valid_first_name_char(ch),
{
    if ('0' <= ch && ch <= '9') || ('a' <= ch && ch <= 'z') || ('A' <= ch && ch <= 'Z') || ch == '_' || ch == '-' {
        true
    } else {
        is_anchor_char(ch) && ch != '.' && ch != '+' && ch != '~'
    }
}

/// Names that read as other YAML values or markers.
pub open spec fn spec_is_reserved_name(s: Seq<char>) -> bool {
    s == "true"@ || s == "false"@ || s == "True"@ || s == "False"@ || s == "TRUE"@ || s == "FALSE"@
        || s == "null"@ || s == "Null"@ || s == "NULL"@ || s == "~"@
        || s == "inf"@ || s == "Inf"@ || s == "INF"@ || s == "+inf"@ || s == "+Inf"@ || s == "+INF"@
        || s == "-inf"@ || s == "-Inf"@ || s == "-INF"@ || s == "nan"@ || s == "NaN"@ || s == "NAN"@
        || s == "---"@ || s == "..."@ || s == ""@ || s == " "@ || s == "\t"@
}

fn is_reserved_anchor_name(name: &str) -> (b: bool)
    ensures
        b == spec_is_reserved_name(name@),
{
    str_eq(name, "true") || str_eq(name, "false") || str_eq(name, "True") || str_eq(name, "False")
        || str_eq(name, "TRUE") || str_eq(name, "FALSE") || str_eq(name, "null") || str_eq(name, "Null")
        || str_eq(name, "NULL") || str_eq(name, "~") || str_eq(name, "inf") || str_eq(name, "Inf")
        || str_eq(name, "INF") || str_eq(name, "+inf") || str_eq(name, "+Inf") || str_eq(name, "+INF")
        || str_eq(name, "-inf") || str_eq(name, "-Inf") || str_eq(name, "-INF") || str_eq(name, "nan")
        || str_eq(name, "NaN") || str_eq(name, "NAN") || str_eq(name, "---") || str_eq(name, "...")
        || str_eq(name, "") || str_eq(name, " ") || str_eq(name, "\t")
}

/// Whether the UTF-8 encoding of `v` is longer than `limit` bytes.
pub fn utf8_len_exceeds(v: &[char], limit: usize) -> (b: bool)
    ensures
        b == (utf8_len_seq(v@) > limit),
{
    let mut total: usize = 0;
    let mut i: usize = 0;
    while i < v.len()
        invariant
            i <= v@.len(),
            total == utf8_len_seq(v@.take(i as int)),
            total <= limit,
        decreases v@.len() - i,
    {
        proof {
            assert(v@.take(i + 1).drop_last() =~= v@.take(i as int));
        }
        let n = char_len_utf8(v[i]);
        if n > limit - total {
            proof { lemma_utf8_len_prefix_le(v@, i + 1); }
            return true;
        }
        total = total + n;
        i = i + 1;
    }
    assert(v@.take(i as int) =~= v@);
    false
}

/// The byte count of a prefix is at most that of the whole.
pub proof fn lemma_utf8_len_prefix_le(s: Seq<char>, k: int)
    requires
        0 <= k <= s.len(),
    ensures
        utf8_len_seq(s.take(k)) <= utf8_len_seq(s),
    decreases s.len() - k,
{
    if k < s.len() {
        lemma_utf8_len_prefix_le(s, k + 1);
        assert(s.take(k + 1).drop_last() =~= s.take(k));
    } else {
        assert(s.take(k) =~= s);
    }
}

/// The message for a name longer than the limit.
pub open spec fn too_long_message(name_type: Seq<char>) -> Seq<char> {
    name_type + " name too long (max 1024 characters)"@
}

/// The message for an empty name.
pub open spec fn empty_message(name_type: Seq<char>) -> Seq<char> {
    "empty "@ + name_type + " name"@
}

/// The message for a name whose first character is not allowed there.
pub open spec fn first_char_message(c: char, name_type: Seq<char>) -> Seq<char> {
    "invalid first character '"@ + seq![c] + "' in "@ + name_type + " name"@
}

/// What a name scan from `p0` to `q` over `s` returns: the name, or an error made of
/// a mark and a message, given the mark at the start and the mark at `q`.
pub open spec fn name_scan_result(s: Seq<char>, p0: int, q: int, start: Marker, at_q: Marker, name_type: Seq<char>)
    -> Result<Seq<char>, (Marker, Seq<char>)>
{
    let name = s.subrange(p0, q);
    if utf8_len_seq(name) > MAX_NAME_BYTES {
        Err((at_q, too_long_message(name_type)))
    } else if name.len() == 0 {
        Err((start, empty_message(name_type)))
    } else if !spec_valid_first_name_char(name[0]) {
        Err((start, first_char_message(name[0], name_type)))
    } else {
        Ok(name)
    }
}

/// Where a name scan from `p0` stops: the run of name characters has ended, or has just
/// grown past the byte limit.
pub open spec fn name_scan_stops_at(s: Seq<char>, p0: int, q: int) -> bool {
    &&& p0 <= q <= s.len()
    &&& forall|i: int| p0 <= i < q ==> spec_name_char(#[trigger] s[i])
    &&& forall|k: int| p0 <= k < q ==> utf8_len_seq(#[trigger] s.subrange(p0, k)) <= MAX_NAME_BYTES
    &&& (utf8_len_seq(s.subrange(p0, q)) > MAX_NAME_BYTES || q == s.len() || !spec_name_char(s[q]))
}

fn scan_name(state: &mut ScannerState, name_type: &str) -> (r: Result<String, ScanError>)
    requires
        old(state).wf(),
    ensures
        final(state).read_on_from(old(state)),
        name_scan_stops_at(old(state).spec_source(), old(state).spec_pos(), final(state).spec_pos()),
        match name_scan_result(old(state).spec_source(), old(state).spec_pos(), final(state).spec_pos(),
            old(state).spec_mark(), final(state).spec_mark(), name_type@) {
            Ok(name) => r matches Ok(s) && s@ == name,
            Err((m, msg)) => r matches Err(e) && e.mark == m && e.info@ == msg,
        },
{
    let ghost s0 = old(state).spec_source();
    let ghost p0 = old(state).spec_pos();
    let mut result = String::new();
    let mut bytes: usize = 0;
    let start_mark = state.mark();
    loop
        invariant
            old(state).wf(),
            s0 == old(state).spec_source(),
            p0 == old(state).spec_pos(),
            state.read_on_from(old(state)),
            start_mark == old(state).spec_mark(),
            result@ == s0.subrange(p0, state.spec_pos()),
            bytes == utf8_len_seq(result@),
            bytes <= MAX_NAME_BYTES,
            forall|i: int| p0 <= i < state.spec_pos() ==> spec_name_char(#[trigger] s0[i]),
            forall|k: int| p0 <= k < state.spec_pos() ==> utf8_len_seq(#[trigger] s0.subrange(p0, k)) <= MAX_NAME_BYTES,
        ensures
            state.read_on_from(old(state)),
            result@ == s0.subrange(p0, state.spec_pos()),
            bytes == utf8_len_seq(result@),
            bytes <= MAX_NAME_BYTES,
            name_scan_stops_at(s0, p0, state.spec_pos()),
        decreases s0.len() - state.spec_pos(),
    {
        let ch = match state.peek_char() {
            Ok(c) => c,
            Err(_) => { break; },
        };
        if !is_anchor_char(ch) {
            break;
        }
        let ghost ph = state.spec_pos();
        let c = state.consume_char()?;
        let ghost before = result@;
        push_char(&mut result, c);
        proof {
            lemma_subrange_extend(s0, p0, ph);
            assert(result@.drop_last() =~= before);
        }
        let new_bytes = bytes + char_len_utf8(c);
        if new_bytes > MAX_NAME_BYTES {
            let mut msg = String::new();
            push_str(&mut msg, name_type);
            push_str(&mut msg, " name too long (max 1024 characters)");
            proof {
                assert(name_scan_stops_at(s0, p0, state.spec_pos()));
                assert(msg@ =~= too_long_message(name_type@));
            }
            return Err(ScanError::new(state.mark(), msg.as_str()));
        }
        bytes = new_bytes;
    }
    if result.as_str().is_empty() {
        let mut msg = String::new();
        push_str(&mut msg, "empty ");
        push_str(&mut msg, name_type);
        push_str(&mut msg, " name");
        assert(msg@ =~= empty_message(name_type@));
        return Err(ScanError::new(start_mark, msg.as_str()));
    }
    let first = result.as_str().get_char(0);
    if !is_valid_first_anchor_char(first) {
        let mut msg = String::new();
        push_str(&mut msg, "invalid first character '");
        push_char(&mut msg, first);
        push_str(&mut msg, "' in ");
        push_str(&mut msg, name_type);
        push_str(&mut msg, " name");
        assert(msg@ =~= first_char_message(first, name_type@));
        return Err(ScanError::new(start_mark, msg.as_str()));
    }
    Ok(result)
}

/// Scan anchor name (&anchor)
pub fn scan_anchor_name(state: &mut ScannerState) -> (r: Result<String, ScanError>)
    requires
        old(state).wf(),
    ensures
        final(state).read_on_from(old(state)),
        name_scan_stops_at(old(state).spec_source(), old(state).spec_pos(), final(state).spec_pos()),
        match name_scan_result(old(state).spec_source(), old(state).spec_pos(), final(state).spec_pos(),
            old(state).spec_mark(), final(state).spec_mark(), "anchor"@) {
            Ok(name) => r matches Ok(s) && s@ == name,
            Err((m, msg)) => r matches Err(e) && e.mark == m && e.info@ == msg,
        },
{
    scan_name(state, "anchor")
}

/// Scan alias name (*alias)
pub fn scan_alias_name(state: &mut ScannerState) -> (r: Result<String, ScanError>)
    requires
        old(state).wf(),
    ensures
        final(state).read_on_from(old(state)),
        name_scan_stops_at(old(state).spec_source(), old(state).spec_pos(), final(state).spec_pos()),
        match name_scan_result(old(state).spec_source(), old(state).spec_pos(), final(state).spec_pos(),
            old(state).spec_mark(), final(state).spec_mark(), "alias"@) {
            Ok(name) => r matches Ok(s) && s@ == name,
            Err((m, msg)) => r matches Err(e) && e.mark == m && e.info@ == msg,
        },
{
    scan_name(state, "alias")
}

/// The index of the first character of `s` that is not a name character, if any.
pub open spec fn first_bad_name_char(s: Seq<char>) -> Option<int> {
    if exists|i: int| 0 <= i < s.len() && !spec_name_char(#[trigger] s[i]) {
        Some(choose|i: int| 0 <= i < s.len() && !spec_name_char(#[trigger] s[i])
            && forall|j: int| 0 <= j < i ==> spec_name_char(#[trigger] s[j]))
    } else {
        None
    }
}

/// The outcome of validating an anchor name, as a message on failure.
pub open spec fn validate_name_spec(s: Seq<char>) -> Result<(), Seq<char>> {
    if s.len() == 0 {
        Err("anchor name cannot be empty"@)
    } else if utf8_len_seq(s) > MAX_NAME_BYTES {
        Err("anchor name too long (max 1024 characters)"@)
    } else if !spec_valid_first_name_char(s[0]) {
        Err("invalid first character '"@ + seq![s[0]] + "' in anchor name"@)
    } else if first_bad_name_char(s) is Some {
        let i = first_bad_name_char(s)->0;
        Err("invalid character '"@ + seq![s[i]] + "' at position "@ + decimal(i as nat) + " in anchor name"@)
    } else if spec_is_reserved_name(s) {
        Err("anchor name '"@ + s + "' is reserved"@)
    } else {
        Ok(())
    }
}

/// Validate anchor name for YAML 1.2 compliance
pub fn validate_anchor_name(name: &str) -> (r: Result<(), String>)
    ensures
        match validate_name_spec(name@) {
            Ok(()) => r is Ok,
            Err(msg) => r matches Err(m) && m@ == msg,
        },
{
    let v = str_to_chars(name);
    if v.len() == 0 {
        return Err(owned_string("anchor name cannot be empty"));
    }
    if utf8_len_exceeds(v.as_slice(), MAX_NAME_BYTES) {
        return Err(owned_string("anchor name too long (max 1024 characters)"));
    }
    if !is_valid_first_anchor_char(v[0]) {
        let mut msg = String::new();
        push_str(&mut msg, "invalid first character '");
        push_char(&mut msg, v[0]);
        push_str(&mut msg, "' in anchor name");
        assert(msg@ =~= "invalid first character '"@ + seq![name@[0]] + "' in anchor name"@);
        return Err(msg);
    }
    let mut i: usize = 0;
    while i < v.len()
        invariant
            v@ == name@,
            name@.len() > 0,
            utf8_len_seq(name@) <= MAX_NAME_BYTES,
            spec_valid_first_name_char(name@[0]),
            i <= v@.len(),
            forall|j: int| 0 <= j < i ==> spec_name_char(#[trigger] v@[j]),
        decreases v@.len() - i,
    {
        if !is_anchor_char(v[i]) {
            let mut msg = String::new();
            push_str(&mut msg, "invalid character '");
            push_char(&mut msg, v[i]);
            push_str(&mut msg, "' at position ");
            push_decimal(&mut msg, i);
            push_str(&mut msg, " in anchor name");
            proof {
                let s = name@;
                assert(0 <= i < s.len() && !spec_name_char(s[i as int])
                    && forall|j: int| 0 <= j < i ==> spec_name_char(#[trigger] s[j]));
                assert(exists|k: int| 0 <= k < s.len() && !spec_name_char(#[trigger] s[k]));
                let k = first_bad_name_char(s)->0;
                assert(0 <= k < s.len() && !spec_name_char(s[k]));
                if k < i {
                    assert(spec_name_char(v@[k]));
                }
                if k > i {
                    assert(spec_name_char(s[i as int]));
                }
                assert(k == i);
                assert(msg@ =~= "invalid character '"@ + seq![s[k]] + "' at position "@ + decimal(k as nat)
                    + " in anchor name"@);
            }
            return Err(msg);
        }
        i = i + 1;
    }
    proof {
        let s = name@;
        if exists|k: int| 0 <= k < s.len() && !spec_name_char(#[trigger] s[k]) {
            let k = choose|k: int| 0 <= k < s.len() && !spec_name_char(#[trigger] s[k]);
            assert(spec_name_char(v@[k]));
        }
    }
    if is_reserved_anchor_name(name) {
        let mut msg = String::new();
        push_str(&mut msg, "anchor name '");
        push_str(&mut msg, name);
        push_str(&mut msg, "' is reserved");
        return Err(msg);
    }
    Ok(())
}

fn owned_string(text: &str) -> (s: String)
    ensures
        s@ == text@,
{
    let mut s = String::new();
    push_str(&mut s, text);
    s
}

/// The generated name: `"{prefix}_{counter}"`, with `anchor` for an empty prefix.
pub open spec fn unique_name_spec(prefix: Seq<char>, counter: nat) -> Seq<char> {
    (if prefix.len() == 0 { "anchor"@ } else { prefix }) + "_"@ + decimal(counter)
}

/// Generate unique anchor name with prefix
pub fn generate_unique_anchor_name(prefix: &str, counter: usize) -> (s: String)
    ensures
        s@ == unique_name_spec(prefix@, counter as nat),
{
    let mut s = String::new();
    if prefix.unicode_len() == 0 {
        push_str(&mut s, "anchor");
    } else {
        push_str(&mut s, prefix);
    }
    let ghost head = s@;
    push_char(&mut s, '_');
    push_decimal(&mut s, counter);
    assert(s@ =~= head + "_"@ + decimal(counter as nat)) by {
        reveal_strlit("_");
    }
    s
}

/// Check if two anchor names are equivalent (case-sensitive comparison)
pub fn anchor_names_equal(name1: &str, name2: &str) -> (b: bool)
    ensures
        b == (name1@ == name2@),
{
    str_eq(name1, name2)
}

/// Normalize anchor name for consistent storage: names are kept exactly as written
pub fn normalize_anchor_name(name: &str) -> (s: String)
    ensures
        s@ == name@,
{
    owned_string(name)
}

} // verus!
