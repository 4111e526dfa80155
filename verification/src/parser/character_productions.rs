//! YAML 1.2 character productions [1-62], one interface over the character classes and
//! escape handling of the lexer.
use vstd::prelude::*;
use crate::lexer::unicode::{UnicodeProcessor, EscapeError, EscapeStyle, unescape, escape_spec,
    read_hex_spec, is_hex_digit, hex_value, leading_hex_len, is_ascii_hexdigit, hex_digit_val,
    lemma_hex_value_bound, lemma_leading_hex_exact};
use crate::lexer::unicode::chars::{spec_is_printable, spec_is_break, spec_is_space, spec_is_blank,
    spec_plain_start_excluded, spec_can_continue_plain_scalar};
use crate::lexer::unicode::normalization::normalize_spec;

verus! {

/// YAML 1.2 Character Productions [1-62] - Consolidated Interface
pub struct CharacterProductions;

pub open spec fn spec_is_surrogate(ch: char) -> bool {
    0xD800 <= (ch as u32) <= 0xDFFF
}

impl CharacterProductions {
    /// [1] c-printable - Check if character is printable for YAML
    pub fn is_printable(ch: char) -> (b: bool)
        ensures
            b == spec_is_printable(ch),
    {
        crate::lexer::unicode::chars::is_printable(ch)
    }

    /// [2] nb-json - JSON-compatible characters: tab, or a printable character from U+0020
    /// up that is neither DEL, a C1 control (U+0080 to U+009F) nor a surrogate
    pub fn is_nb_json(ch: char) -> (b: bool)
        ensures
            b == (ch == '\t' || (0x20 <= (ch as u32) <= 0x10FFFF && !(0x7F <= (ch as u32) <= 0x9F)
                && !spec_is_surrogate(ch))),
    {
        let c = ch as u32;
        ch == '\t' || (c >= 0x20 && c <= 0x10FFFF && !(c >= 0x7F && c <= 0x9F) && !Self::is_surrogate(ch))
    }

    /// [3] c-byte-order-mark - Unicode BOM removal
    pub fn remove_bom(input: &str) -> (out: &str)
        ensures
            out@ == if input@.len() > 0 && input@[0] == '\u{FEFF}' { input@.skip(1) } else { input@ },
    {
        crate::lexer::unicode::normalization::remove_bom(input)
    }

    /// [24-26] Line break characters
    pub fn is_break(ch: char) -> (b: bool)
        ensures
            b == spec_is_break(ch),
    {
        crate::lexer::unicode::chars::is_break(ch)
    }

    /// [31-33] White space characters (space and tab only in YAML)
    pub fn is_white(ch: char) -> (b: bool)
        ensures
            b == spec_is_space(ch),
    {
        crate::lexer::unicode::chars::is_white(ch)
    }

    /// [34] ns-char - printable characters that are neither white space nor line breaks
    pub fn is_ns_char(ch: char) -> (b: bool)
        ensures
            b == (spec_is_printable(ch) && !spec_is_space(ch) && !spec_is_break(ch)),
    {
        Self::is_printable(ch) && !Self::is_white(ch) && !Self::is_break(ch)
    }

    /// [42-61] Escape sequence processing
    pub fn process_escape_sequences(input: &str) -> (r: Result<String, EscapeError>)
        ensures
            match r {
                Ok(out) => unescape(input@) == Ok::<Seq<char>, EscapeError>(out@),
                Err(e) => unescape(input@) == Err::<Seq<char>, EscapeError>(e),
            },
    {
        UnicodeProcessor::process_escapes(input)
    }

    /// [62] Escaped line break handling: folded to a single space
    pub fn fold_escaped_line_break() -> (c: char)
        ensures
            c == ' ',
    {
        ' '
    }

    /// Check if character is a Unicode surrogate
    fn is_surrogate(ch: char) -> (b: bool)
        ensures
            b == spec_is_surrogate(ch),
    {
        let code = ch as u32;
        0xD800 <= code && code <= 0xDFFF
    }

    /// Check if character is blank (white space or line break)
    pub fn is_blank(ch: char) -> (b: bool)
        ensures
            b == spec_is_blank(ch),
    {
        crate::lexer::unicode::chars::is_blank(ch)
    }

    /// Check if character can start a plain scalar
    pub fn can_start_plain_scalar(ch: char) -> (b: bool)
        ensures
            b == !spec_plain_start_excluded(ch),
    {
        crate::lexer::unicode::chars::can_start_plain_scalar(ch)
    }

    /// Check if character can continue a plain scalar
    pub fn can_continue_plain_scalar(ch: char) -> (b: bool)
        ensures
            b == spec_can_continue_plain_scalar(ch),
    {
        crate::lexer::unicode::chars::can_continue_plain_scalar(ch)
    }

    /// Escape string for YAML output
    pub fn escape_string(input: &str, style: EscapeStyle) -> (out: String)
        ensures
            out@ == escape_spec(input@, style),
    {
        UnicodeProcessor::escape_string(input, style)
    }

    /// Normalize line endings to LF
    pub fn normalize_line_endings(input: &str) -> (out: String)
        ensures
            out@ == normalize_spec(input@),
    {
        crate::lexer::unicode::normalization::normalize_line_endings(input)
    }

    /// Check if text contains only valid YAML characters
    pub fn is_valid_yaml_text(text: &str) -> (b: bool)
        ensures
            b == (forall|i: int| 0 <= i < text@.len() ==> spec_is_printable(#[trigger] text@[i])),
    {
        crate::lexer::unicode::normalization::is_valid_yaml_text(text)
    }

    /// Read exactly 2 hex digits for \xXX escapes
    pub fn read_2_hex_digits(chars: &[char]) -> (r: Result<u32, EscapeError>)
        ensures
            r == read_hex_spec(chars@, 2),
    {
        UnicodeProcessor::read_hex_digits(chars, 2)
    }

    /// Read exactly 4 hex digits for \uXXXX escapes
    pub fn read_4_hex_digits(chars: &[char]) -> (r: Result<u32, EscapeError>)
        ensures
            r == read_hex_spec(chars@, 4),
    {
        UnicodeProcessor::read_hex_digits(chars, 4)
    }

    /// Read exactly 8 hex digits for \UXXXXXXXX escapes
    pub fn read_8_hex_digits(chars: &[char]) -> (r: Result<u32, EscapeError>)
        ensures
            r == read_hex_spec(chars@, 8),
    {
        UnicodeProcessor::read_hex_digits(chars, 8)
    }

    /// Parse hex characters: their value, or the first character that is not a hex digit.
    /// The digits before the first non-digit must have a value that fits in a `u32`, as the
    /// running sum overflows otherwise.
    pub fn parse_hex_chars(hex_chars: &[char]) -> (r: Result<u32, EscapeError>)
        requires
            hex_value(hex_chars@.take(leading_hex_len(hex_chars@) as int)) <= u32::MAX,
        ensures
            leading_hex_len(hex_chars@) == hex_chars@.len() ==> r == Ok::<u32, EscapeError>(hex_value(hex_chars@) as u32),
            leading_hex_len(hex_chars@) < hex_chars@.len() ==> r == Err::<u32, EscapeError>(
                EscapeError::InvalidHexDigit(hex_chars@[leading_hex_len(hex_chars@) as int])),
    {
        let mut result: u32 = 0;
        let mut i: usize = 0;
        let ghost k = leading_hex_len(hex_chars@);
        proof {
            crate::lexer::unicode::lemma_leading_hex_le(hex_chars@);
            assert forall|j: int| 0 <= j < k implies is_hex_digit(#[trigger] hex_chars@[j]) by {
                crate::lexer::unicode::lemma_leading_hex(hex_chars@, j);
            }
        }
        while i < hex_chars.len()
            invariant
                i <= hex_chars@.len(),
                k == leading_hex_len(hex_chars@),
                k <= hex_chars@.len(),
                forall|j: int| 0 <= j < k ==> is_hex_digit(#[trigger] hex_chars@[j]),
                forall|j: int| 0 <= j < i ==> is_hex_digit(#[trigger] hex_chars@[j]),
                result == hex_value(hex_chars@.take(i as int)),
                hex_value(hex_chars@.take(k as int)) <= u32::MAX,
            decreases hex_chars@.len() - i,
        {
            let ch = hex_chars[i];
            if !is_ascii_hexdigit(ch) {
                proof {
                    lemma_leading_hex_exact(hex_chars@, i as int);
                }
                return Err(EscapeError::InvalidHexDigit(ch));
            }
            proof {
                if i >= k {
                    crate::lexer::unicode::lemma_leading_hex_stop(hex_chars@);
                    if i > k {
                        assert(is_hex_digit(hex_chars@[k as int]));
                    }
                }
                assert(i < k);
                lemma_hex_prefix_mono(hex_chars@, (i + 1) as int, k as int);
                assert(hex_chars@.take(i + 1).drop_last() =~= hex_chars@.take(i as int));
            }
            result = result * 16 + hex_digit_val(ch);
            i = i + 1;
        }
        proof {
            lemma_leading_hex_exact(hex_chars@, i as int);
            assert(hex_chars@.take(i as int) =~= hex_chars@);
        }
        Ok(result)
    }
}

/// The value of a prefix of hex digits grows with its length.
proof fn lemma_hex_prefix_mono(s: Seq<char>, a: int, b: int)
    requires
        0 <= a <= b <= s.len(),
        forall|j: int| 0 <= j < b ==> is_hex_digit(#[trigger] s[j]),
    ensures
        hex_value(s.take(a)) <= hex_value(s.take(b)),
    decreases b - a,
{
    if a < b {
        lemma_hex_prefix_mono(s, a, b - 1);
        assert(s.take(b).drop_last() =~= s.take(b - 1));
        assert(hex_value(s.take(b - 1)) >= 0) by {
            lemma_hex_value_bound(s.take(b - 1));
        }
    }
}

} // verus!
