//! Unicode normalization utilities
use vstd::prelude::*;
use crate::text::{str_to_chars, push_char};
use super::chars::{is_printable, spec_is_printable};

verus! {

/// `s` with every CRLF pair and every lone CR replaced by LF.
pub open spec fn normalize_spec(s: Seq<char>) -> Seq<char>
    decreases s.len(),
{
    if s.len() == 0 {
        Seq::empty()
    } else if s[0] == '\r' {
        if s.len() >= 2 && s[1] == '\n' {
            seq!['\n'] + normalize_spec(s.skip(2))
        } else {
            seq!['\n'] + normalize_spec(s.skip(1))
        }
    } else {
        seq![s[0]] + normalize_spec(s.skip(1))
    }
}

/// Normalizing the characters `s[i..]` behind an already normalized prefix.
pub proof fn lemma_normalize_step(s: Seq<char>, i: int)
    requires
        0 <= i < s.len(),
    ensures
        normalize_spec(s.skip(i)) == if s[i] == '\r' {
            if i + 1 < s.len() && s[i + 1] == '\n' {
                seq!['\n'] + normalize_spec(s.skip(i + 2))
            } else {
                seq!['\n'] + normalize_spec(s.skip(i + 1))
            }
        } else {
            seq![s[i]] + normalize_spec(s.skip(i + 1))
        },
{
    let t = s.skip(i);
    assert(t[0] == s[i]);
    assert(t.skip(1) =~= s.skip(i + 1));
    if i + 1 < s.len() {
        assert(t[1] == s[i + 1]);
        assert(t.skip(2) =~= s.skip(i + 2));
    }
}

/// The characters of `v` with line endings normalized to LF.
pub fn normalize_chars(v: &[char]) -> (out: String)
    ensures
        out@ == normalize_spec(v@),
{
    let mut result = String::new();
    let n = v.len();
    let mut i: usize = 0;
    assert(v@.skip(0) =~= v@);
    while i < n
        invariant
            n == v@.len(),
            i <= n,
            result@ + normalize_spec(v@.skip(i as int)) == normalize_spec(v@),
        decreases n - i,
    {
        let ghost before = result@;
        proof {
            lemma_normalize_step(v@, i as int);
        }
        let ch = v[i];
        if ch == '\r' {
            if i + 1 < n && v[i + 1] == '\n' {
                i = i + 2;
            } else {
                i = i + 1;
            }
            push_char(&mut result, '\n');
            assert(before + (seq!['\n'] + normalize_spec(v@.skip(i as int))) =~= result@ + normalize_spec(v@.skip(i as int)));
        } else {
            push_char(&mut result, ch);
            i = i + 1;
            assert(before + (seq![ch] + normalize_spec(v@.skip(i as int))) =~= result@ + normalize_spec(v@.skip(i as int)));
        }
    }
    assert(v@.skip(n as int) =~= Seq::<char>::empty());
    assert(result@ + Seq::<char>::empty() =~= result@);
    result
}

/// Normalize line endings to LF
pub fn normalize_line_endings(input: &str) -> (out: String)
    ensures
        out@ == normalize_spec(input@),
{
    let v = str_to_chars(input);
    normalize_chars(v.as_slice())
}

/// Check if text contains only valid YAML characters
pub fn is_valid_yaml_text(text: &str) -> (b: bool)
    ensures
        b == (forall|i: int| 0 <= i < text@.len() ==> spec_is_printable(#[trigger] text@[i])),
{
    let v = str_to_chars(text);
    for i in 0..v.len()
        invariant
            v@ == text@,
            forall|j: int| 0 <= j < i ==> spec_is_printable(#[trigger] text@[j]),
    {
        if !is_printable(v[i]) {
            assert(!spec_is_printable(text@[i as int]));
            return false;
        }
    }
    true
}

/// Remove BOM if present
pub fn remove_bom(input: &str) -> (out: &str)
    ensures
        out@ == if input@.len() > 0 && input@[0] == '\u{FEFF}' {
            input@.skip(1)
        } else {
            input@
        },
{
    let n = input.unicode_len();
    if n > 0 && input.get_char(0) == '\u{FEFF}' {
        let out = input.substring_char(1, n);
        assert(out@ =~= input@.skip(1));
        out
    } else {
        input
    }
}

} // verus!
