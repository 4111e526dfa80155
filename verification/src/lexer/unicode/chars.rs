//! YAML character classification functions
use vstd::prelude::*;

verus! {

pub open spec fn spec_is_break(ch: char) -> bool {
    ch == '\n' || ch == '\r'
}

pub open spec fn spec_is_space(ch: char) -> bool {
    ch == ' ' || ch == '\t'
}

pub open spec fn spec_is_blank(ch: char) -> bool {
    spec_is_space(ch) || spec_is_break(ch)
}

pub open spec fn spec_is_ascii_alphanumeric(ch: char) -> bool {
    ('0' <= ch <= '9') || ('a' <= ch <= 'z') || ('A' <= ch <= 'Z')
}

/// Characters that cannot begin a plain scalar: indicators and blanks.
pub open spec fn spec_plain_start_excluded(ch: char) -> bool {
    ch == '-' || ch == '?' || ch == ':' || ch == ',' || ch == '[' || ch == ']' || ch == '{'
        || ch == '}' || ch == '#' || ch == '&' || ch == '*' || ch == '!' || ch == '|' || ch == '>'
        || ch == '\'' || ch == '"' || ch == '%' || ch == '@' || ch == '`' || ch == ' ' || ch == '\t'
        || ch == '\n' || ch == '\r'
}

pub open spec fn spec_can_continue_plain_scalar(ch: char) -> bool {
    !spec_is_blank(ch) && ch != '#'
}

pub open spec fn spec_is_flow_indicator(ch: char) -> bool {
    ch == ',' || ch == '[' || ch == ']' || ch == '{' || ch == '}'
}

pub open spec fn spec_is_anchor_char(ch: char) -> bool {
    !spec_is_blank(ch) && !spec_is_flow_indicator(ch)
}

/// The punctuation allowed in tags and URIs besides alphanumerics.
pub open spec fn spec_uri_punct(ch: char) -> bool {
    ch == '-' || ch == '_' || ch == '.' || ch == '~' || ch == ':' || ch == '/' || ch == '?'
        || ch == '#' || ch == '[' || ch == ']' || ch == '@' || ch == '!' || ch == '$' || ch == '&'
        || ch == '\'' || ch == '(' || ch == ')' || ch == '*' || ch == '+' || ch == ',' || ch == ';'
        || ch == '='
}

pub open spec fn spec_is_tag_char(ch: char) -> bool {
    spec_is_ascii_alphanumeric(ch) || spec_uri_punct(ch)
}

pub open spec fn spec_is_printable(ch: char) -> bool {
    ch == '\t' || ch == '\n' || ch == '\r' || (' ' <= ch <= '\u{7E}') || ch == '\u{85}'
        || ('\u{A0}' <= ch <= '\u{D7FF}') || ('\u{E000}' <= ch <= '\u{FFFD}')
        || ('\u{10000}' <= ch <= '\u{10FFFF}')
}

/// `char::is_ascii_alphanumeric`.
pub fn is_ascii_alphanumeric(ch: char) -> (b: bool)
    ensures
        b == spec_is_ascii_alphanumeric(ch),
{
    ('0' <= ch && ch <= '9') || ('a' <= ch && ch <= 'z') || ('A' <= ch && ch <= 'Z')
}

/// `char::is_ascii_digit`.
pub fn is_ascii_digit(ch: char) -> (b: bool)
    ensures
        b == ('0' <= ch <= '9'),
{
    '0' <= ch && ch <= '9'
}

/// Check if a character is a YAML line break
pub fn is_break(ch: char) -> (b: bool)
    ensures
        b == spec_is_break(ch),
{
    ch == '\n' || ch == '\r'
}

/// Check if a character is YAML whitespace (space or tab)
pub fn is_space(ch: char) -> (b: bool)
    ensures
        b == spec_is_space(ch),
{
    ch == ' ' || ch == '\t'
}

/// Check if a character is YAML blank (whitespace or line break)
pub fn is_blank(ch: char) -> (b: bool)
    ensures
        b == spec_is_blank(ch),
{
    is_space(ch) || is_break(ch)
}

/// Check if a character can start a plain scalar
pub fn can_start_plain_scalar(ch: char) -> (b: bool)
    ensures
        b == !spec_plain_start_excluded(ch),
{
    !(ch == '-' || ch == '?' || ch == ':' || ch == ',' || ch == '[' || ch == ']' || ch == '{'
        || ch == '}' || ch == '#' || ch == '&' || ch == '*' || ch == '!' || ch == '|' || ch == '>'
        || ch == '\'' || ch == '"' || ch == '%' || ch == '@' || ch == '`' || ch == ' ' || ch == '\t'
        || ch == '\n' || ch == '\r')
}

/// Check if a character can continue a plain scalar
pub fn can_continue_plain_scalar(ch: char) -> (b: bool)
    ensures
        b == spec_can_continue_plain_scalar(ch),
{
    !is_blank(ch) && ch != '#'
}

/// Check if a character is a valid YAML identifier character
pub fn is_yaml_identifier(ch: char) -> (b: bool)
    ensures
        b == (spec_is_ascii_alphanumeric(ch) || ch == '_' || ch == '-'),
{
    is_ascii_alphanumeric(ch) || ch == '_' || ch == '-'
}

/// Check if a character is a valid anchor/alias character
pub fn is_anchor_char(ch: char) -> (b: bool)
    ensures
        b == spec_is_anchor_char(ch),
{
    !is_blank(ch) && !(ch == ',' || ch == '[' || ch == ']' || ch == '{' || ch == '}')
}

/// Check if a character is a valid tag character
pub fn is_tag_char(ch: char) -> (b: bool)
    ensures
        b == spec_is_tag_char(ch),
{
    is_ascii_alphanumeric(ch) || ch == '-' || ch == '_' || ch == '.' || ch == '~' || ch == ':'
        || ch == '/' || ch == '?' || ch == '#' || ch == '[' || ch == ']' || ch == '@' || ch == '!'
        || ch == '$' || ch == '&' || ch == '\'' || ch == '(' || ch == ')' || ch == '*' || ch == '+'
        || ch == ',' || ch == ';' || ch == '='
}

/// Check if a character needs URI encoding in a tag
pub fn needs_uri_encoding(ch: char) -> (b: bool)
    ensures
        b == !spec_is_tag_char(ch),
{
    !is_tag_char(ch)
}

/// Check if a character is a white space (space or tab)
pub fn is_white(ch: char) -> (b: bool)
    ensures
        b == spec_is_space(ch),
{
    ch == ' ' || ch == '\t'
}

/// Check if a character is a word character (alphanumeric or hyphen)
pub fn is_word_char(ch: char) -> (b: bool)
    ensures
        b == (spec_is_ascii_alphanumeric(ch) || ch == '-'),
{
    is_ascii_alphanumeric(ch) || ch == '-'
}

/// Check if a character is a URI character
pub fn is_uri_char(ch: char) -> (b: bool)
    ensures
        b == spec_is_tag_char(ch),
{
    is_tag_char(ch)
}

/// Check if a character is printable for YAML
pub fn is_printable(ch: char) -> (b: bool)
    ensures
        b == spec_is_printable(ch),
{
    ch == '\t' || ch == '\n' || ch == '\r' || (ch >= ' ' && ch <= '\u{7E}') || ch == '\u{85}'
        || (ch >= '\u{A0}' && ch <= '\u{D7FF}') || (ch >= '\u{E000}' && ch <= '\u{FFFD}')
        || (ch >= '\u{10000}' && ch <= '\u{10FFFF}')
}

} // verus!
