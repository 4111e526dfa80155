//! The debug renderings of escape errors, tokens and YAML values: each variant's name and
//! fields laid out as `{:?}` lays out a derived `Debug`.
use vstd::prelude::*;
use crate::lexer::tokens::{ScalarStyle, TokenKind};
use crate::lexer::unicode::EscapeError;
use crate::linked_hash_map::LinkedHashMap;
use crate::scanner::indentation::signed_decimal;
use crate::text::{decimal, push_char, push_decimal, push_str};
use crate::yaml::Yaml;

verus! {

/// The text `{:?}` writes for a string: it quoted, with its special characters escaped.
pub uninterp spec fn str_debug_rendering(s: Seq<char>) -> Seq<char>;

/// The text `{:?}` writes for a character: it in single quotes, escaped where needed.
pub uninterp spec fn char_debug_rendering(c: char) -> Seq<char>;

/// `format!("{:?}", s)` for a string slice: `str`'s `Debug`, which quotes the text and
/// escapes its special characters. Only that the result is the rendering of `s` is claimed.
#[verifier::external_body]
pub fn str_debug_text(s: &str) -> (r: String)
    ensures
        r@ == str_debug_rendering(s@),
{
    format!("{:?}", s)
}

/// `format!("{:?}", c)` for a character: `char`'s `Debug`, which quotes it and escapes it
/// where needed. Only that the result is the rendering of `c` is claimed.
#[verifier::external_body]
pub fn char_debug_text(c: char) -> (r: String)
    ensures
        r@ == char_debug_rendering(c),
{
    format!("{:?}", c)
}

/// The debug rendering of an escape error.
pub open spec fn escape_error_debug(e: EscapeError) -> Seq<char> {
    match e {
        EscapeError::InvalidEscape(c) => "InvalidEscape("@ + char_debug_rendering(c) + ")"@,
        EscapeError::InvalidHexDigit(c) => "InvalidHexDigit("@ + char_debug_rendering(c) + ")"@,
        EscapeError::InvalidUnicode(u) => "InvalidUnicode("@ + decimal(u as nat) + ")"@,
        EscapeError::UnterminatedEscape => "UnterminatedEscape"@,
        EscapeError::UnexpectedEndOfInput => "UnexpectedEndOfInput"@,
    }
}

/// The debug rendering of an escape error (`escape_error_debug`).
pub fn escape_error_text(e: &EscapeError) -> (s: String)
    ensures
        s@ == escape_error_debug(*e),
{
    let mut s = String::new();
    match e {
        EscapeError::InvalidEscape(c) => {
            push_str(&mut s, "InvalidEscape(");
            let t = char_debug_text(*c);
            push_str(&mut s, t.as_str());
            push_str(&mut s, ")");
        },
        EscapeError::InvalidHexDigit(c) => {
            push_str(&mut s, "InvalidHexDigit(");
            let t = char_debug_text(*c);
            push_str(&mut s, t.as_str());
            push_str(&mut s, ")");
        },
        EscapeError::InvalidUnicode(u) => {
            push_str(&mut s, "InvalidUnicode(");
            push_decimal(&mut s, *u as usize);
            push_str(&mut s, ")");
        },
        EscapeError::UnterminatedEscape => {
            push_str(&mut s, "UnterminatedEscape");
        },
        EscapeError::UnexpectedEndOfInput => {
            push_str(&mut s, "UnexpectedEndOfInput");
        },
    }
    s
}

/// The debug rendering of a scalar style: its variant's name.
pub open spec fn style_debug(st: ScalarStyle) -> Seq<char> {
    match st {
        ScalarStyle::Plain => "Plain"@,
        ScalarStyle::SingleQuoted => "SingleQuoted"@,
        ScalarStyle::DoubleQuoted => "DoubleQuoted"@,
        ScalarStyle::Literal => "Literal"@,
        ScalarStyle::Folded => "Folded"@,
    }
}

/// The debug rendering of an optional string.
pub open spec fn opt_str_debug(o: Option<String>) -> Seq<char> {
    match o {
        Some(s) => "Some("@ + str_debug_rendering(s@) + ")"@,
        None => "None"@,
    }
}

/// The debug rendering of a token kind.
pub open spec fn token_kind_debug(k: TokenKind) -> Seq<char> {
    match k {
        TokenKind::StreamStart => "StreamStart"@,
        TokenKind::StreamEnd => "StreamEnd"@,
        TokenKind::DocumentStart => "DocumentStart"@,
        TokenKind::DocumentEnd => "DocumentEnd"@,
        TokenKind::BlockEntry => "BlockEntry"@,
        TokenKind::BlockEnd => "BlockEnd"@,
        TokenKind::FlowEntry => "FlowEntry"@,
        TokenKind::FlowSequenceStart => "FlowSequenceStart"@,
        TokenKind::FlowSequenceEnd => "FlowSequenceEnd"@,
        TokenKind::FlowMappingStart => "FlowMappingStart"@,
        TokenKind::FlowMappingEnd => "FlowMappingEnd"@,
        TokenKind::Key => "Key"@,
        TokenKind::Value => "Value"@,
        TokenKind::Scalar { value, style, tag } => "Scalar { value: "@ + str_debug_rendering(value@) + ", style: "@
            + style_debug(style) + ", tag: "@ + opt_str_debug(tag) + " }"@,
        TokenKind::Anchor(n) => "Anchor("@ + str_debug_rendering(n@) + ")"@,
        TokenKind::Alias(n) => "Alias("@ + str_debug_rendering(n@) + ")"@,
        TokenKind::Tag { handle, suffix } => "Tag { handle: "@ + opt_str_debug(handle) + ", suffix: "@
            + str_debug_rendering(suffix@) + " }"@,
        TokenKind::YamlDirective { major, minor } => "YamlDirective { major: "@ + decimal(major as nat) + ", minor: "@
            + decimal(minor as nat) + " }"@,
        TokenKind::TagDirective { handle, prefix } => "TagDirective { handle: "@ + str_debug_rendering(handle@)
            + ", prefix: "@ + str_debug_rendering(prefix@) + " }"@,
        TokenKind::ReservedDirective { name, value } => "ReservedDirective { name: "@ + str_debug_rendering(name@)
            + ", value: "@ + str_debug_rendering(value@) + " }"@,
        TokenKind::Whitespace(w) => "Whitespace("@ + str_debug_rendering(w@) + ")"@,
        TokenKind::LineBreak => "LineBreak"@,
        TokenKind::Comment(c) => "Comment("@ + str_debug_rendering(c@) + ")"@,
        TokenKind::Indent(n) => "Indent("@ + decimal(n as nat) + ")"@,
        TokenKind::Dedent(n) => "Dedent("@ + decimal(n as nat) + ")"@,
        TokenKind::Error(m) => "Error("@ + str_debug_rendering(m@) + ")"@,
    }
}

fn push_style(s: &mut String, st: ScalarStyle)
    ensures
        final(s)@ == old(s)@ + style_debug(st),
{
    match st {
        ScalarStyle::Plain => push_str(s, "Plain"),
        ScalarStyle::SingleQuoted => push_str(s, "SingleQuoted"),
        ScalarStyle::DoubleQuoted => push_str(s, "DoubleQuoted"),
        ScalarStyle::Literal => push_str(s, "Literal"),
        ScalarStyle::Folded => push_str(s, "Folded"),
    }
}

fn push_str_debug(s: &mut String, t: &String)
    ensures
        final(s)@ == old(s)@ + str_debug_rendering(t@),
{
    let d = str_debug_text(t.as_str());
    push_str(s, d.as_str());
}

fn push_opt_str(s: &mut String, o: &Option<String>)
    ensures
        final(s)@ == old(s)@ + opt_str_debug(*o),
{
    match o {
        Some(t) => {
            push_str(s, "Some(");
            push_str_debug(s, t);
            push_str(s, ")");
        },
        None => push_str(s, "None"),
    }
}

/// The debug rendering of a token kind (`token_kind_debug`).
pub fn token_kind_text(k: &TokenKind) -> (s: String)
    ensures
        s@ == token_kind_debug(*k),
{
    let mut s = String::new();
    match k {
        TokenKind::StreamStart => push_str(&mut s, "StreamStart"),
        TokenKind::StreamEnd => push_str(&mut s, "StreamEnd"),
        TokenKind::DocumentStart => push_str(&mut s, "DocumentStart"),
        TokenKind::DocumentEnd => push_str(&mut s, "DocumentEnd"),
        TokenKind::BlockEntry => push_str(&mut s, "BlockEntry"),
        TokenKind::BlockEnd => push_str(&mut s, "BlockEnd"),
        TokenKind::FlowEntry => push_str(&mut s, "FlowEntry"),
        TokenKind::FlowSequenceStart => push_str(&mut s, "FlowSequenceStart"),
        TokenKind::FlowSequenceEnd => push_str(&mut s, "FlowSequenceEnd"),
        TokenKind::FlowMappingStart => push_str(&mut s, "FlowMappingStart"),
        TokenKind::FlowMappingEnd => push_str(&mut s, "FlowMappingEnd"),
        TokenKind::Key => push_str(&mut s, "Key"),
        TokenKind::Value => push_str(&mut s, "Value"),
        TokenKind::Scalar { value, style, tag } => {
            push_str(&mut s, "Scalar { value: ");
            push_str_debug(&mut s, value);
            push_str(&mut s, ", style: ");
            push_style(&mut s, *style);
            push_str(&mut s, ", tag: ");
            push_opt_str(&mut s, tag);
            push_str(&mut s, " }");
        },
        TokenKind::Anchor(n) => {
            push_str(&mut s, "Anchor(");
            push_str_debug(&mut s, n);
            push_str(&mut s, ")");
        },
        TokenKind::Alias(n) => {
            push_str(&mut s, "Alias(");
            push_str_debug(&mut s, n);
            push_str(&mut s, ")");
        },
        TokenKind::Tag { handle, suffix } => {
            push_str(&mut s, "Tag { handle: ");
            push_opt_str(&mut s, handle);
            push_str(&mut s, ", suffix: ");
            push_str_debug(&mut s, suffix);
            push_str(&mut s, " }");
        },
        TokenKind::YamlDirective { major, minor } => {
            push_str(&mut s, "YamlDirective { major: ");
            push_decimal(&mut s, *major as usize);
            push_str(&mut s, ", minor: ");
            push_decimal(&mut s, *minor as usize);
            push_str(&mut s, " }");
        },
        TokenKind::TagDirective { handle, prefix } => {
            push_str(&mut s, "TagDirective { handle: ");
            push_str_debug(&mut s, handle);
            push_str(&mut s, ", prefix: ");
            push_str_debug(&mut s, prefix);
            push_str(&mut s, " }");
        },
        TokenKind::ReservedDirective { name, value } => {
            push_str(&mut s, "ReservedDirective { name: ");
            push_str_debug(&mut s, name);
            push_str(&mut s, ", value: ");
            push_str_debug(&mut s, value);
            push_str(&mut s, " }");
        },
        TokenKind::Whitespace(w) => {
            push_str(&mut s, "Whitespace(");
            push_str_debug(&mut s, w);
            push_str(&mut s, ")");
        },
        TokenKind::LineBreak => push_str(&mut s, "LineBreak"),
        TokenKind::Comment(c) => {
            push_str(&mut s, "Comment(");
            push_str_debug(&mut s, c);
            push_str(&mut s, ")");
        },
        TokenKind::Indent(n) => {
            push_str(&mut s, "Indent(");
            push_decimal(&mut s, *n);
            push_str(&mut s, ")");
        },
        TokenKind::Dedent(n) => {
            push_str(&mut s, "Dedent(");
            push_decimal(&mut s, *n);
            push_str(&mut s, ")");
        },
        TokenKind::Error(m) => {
            push_str(&mut s, "Error(");
            push_str_debug(&mut s, m);
            push_str(&mut s, ")");
        },
    }
    s
}

/// The debug rendering of a YAML value: its variant and fields, a mapping as the
/// `LinkedHashMap` of its entries.
pub open spec fn yaml_debug(y: Yaml) -> Seq<char>
    decreases y, 1nat
    via yaml_debug_decreases
{
    match y {
        Yaml::Real(s) => "Real("@ + str_debug_rendering(s@) + ")"@,
        Yaml::Integer(i) => "Integer("@ + signed_decimal(i as int) + ")"@,
        Yaml::String(s) => "String("@ + str_debug_rendering(s@) + ")"@,
        Yaml::Boolean(b) => "Boolean("@ + (if b { "true"@ } else { "false"@ }) + ")"@,
        Yaml::Array(v) => "Array(["@ + items_debug(v@) + "])"@,
        Yaml::Hash(h) => "Hash(LinkedHashMap { entries: ["@ + pairs_debug(h.entries()) + "] })"@,
        Yaml::Alias(n) => "Alias("@ + decimal(n as nat) + ")"@,
        Yaml::Null => "Null"@,
        Yaml::BadValue => "BadValue"@,
        Yaml::Tagged(t, b) => "Tagged("@ + str_debug_rendering(t@) + ", "@ + yaml_debug(*b) + ")"@,
    }
}

/// The debug renderings of values, separated by `, `.
pub open spec fn items_debug(items: Seq<Yaml>) -> Seq<char>
    decreases items, 0nat
{
    if items.len() == 0 {
        Seq::empty()
    } else {
        items_debug(items.drop_last()) + (if items.len() > 1 { ", "@ } else { Seq::empty() }) + yaml_debug(items.last())
    }
}

/// The debug rendering of an entry: `(key, value)`.
pub open spec fn pair_debug(e: (Yaml, Yaml)) -> Seq<char>
    decreases e, 0nat
{
    "("@ + yaml_debug(e.0) + ", "@ + yaml_debug(e.1) + ")"@
}

/// The debug renderings of entries, separated by `, `.
pub open spec fn pairs_debug(es: Seq<(Yaml, Yaml)>) -> Seq<char>
    decreases es, 0nat
{
    if es.len() == 0 {
        Seq::empty()
    } else {
        pairs_debug(es.drop_last()) + (if es.len() > 1 { ", "@ } else { Seq::empty() }) + pair_debug(es.last())
    }
}

#[via_fn]
proof fn yaml_debug_decreases(y: Yaml) {
    match y {
        Yaml::Array(v) => {
            assert(decreases_to!(y => y->Array_0));
        },
        Yaml::Hash(m) => {
            assert(decreases_to!(y => y->Hash_0));
            crate::linked_hash_map::lemma_entries_seq_decreases(m);
        },
        Yaml::Tagged(_, b) => {
            assert(decreases_to!(y => y->Tagged_1));
        },
        _ => {},
    }
}

/// Decimal rendering of a `u64`.
fn u64_decimal(n: u64) -> (s: String)
    ensures
        s@ == decimal(n as nat),
    decreases n,
{
    if n < 10 {
        let mut s = String::new();
        push_char(&mut s, crate::text::digit_to_char(n as u8));
        s
    } else {
        let mut s = u64_decimal(n / 10);
        push_char(&mut s, crate::text::digit_to_char((n % 10) as u8));
        s
    }
}

fn push_i64(s: &mut String, n: i64)
    ensures
        final(s)@ == old(s)@ + signed_decimal(n as int),
{
    let ghost s0 = s@;
    if n < 0 {
        push_char(s, '-');
        let m: u64 = (-(n as i128)) as u64;
        let d = u64_decimal(m);
        push_str(s, d.as_str());
        assert(s@ =~= s0 + signed_decimal(n as int));
    } else {
        let d = u64_decimal(n as u64);
        push_str(s, d.as_str());
    }
}

/// Append the debug rendering of a YAML value (`yaml_debug`).
fn push_yaml(s: &mut String, y: &Yaml)
    ensures
        final(s)@ == old(s)@ + yaml_debug(*y),
    decreases *y, 1nat,
{
    let ghost s0 = s@;
    match y {
        Yaml::Real(t) => {
            push_str(s, "Real(");
            push_str_debug(s, t);
            push_str(s, ")");
        },
        Yaml::Integer(i) => {
            push_str(s, "Integer(");
            push_i64(s, *i);
            push_str(s, ")");
        },
        Yaml::String(t) => {
            push_str(s, "String(");
            push_str_debug(s, t);
            push_str(s, ")");
        },
        Yaml::Boolean(b) => {
            push_str(s, "Boolean(");
            if *b { push_str(s, "true"); } else { push_str(s, "false"); }
            push_str(s, ")");
        },
        Yaml::Array(v) => {
            proof { assert(decreases_to!(*y => y->Array_0)); }
            push_str(s, "Array([");
            push_items(s, v);
            push_str(s, "])");
        },
        Yaml::Hash(h) => {
            proof { assert(decreases_to!(*y => y->Hash_0)); }
            push_str(s, "Hash(LinkedHashMap { entries: [");
            push_pairs(s, h);
            push_str(s, "] })");
        },
        Yaml::Alias(n) => {
            push_str(s, "Alias(");
            push_decimal(s, *n);
            push_str(s, ")");
        },
        Yaml::Null => push_str(s, "Null"),
        Yaml::BadValue => push_str(s, "BadValue"),
        Yaml::Tagged(t, b) => {
            proof { assert(decreases_to!(*y => y->Tagged_1)); }
            push_str(s, "Tagged(");
            push_str_debug(s, t);
            push_str(s, ", ");
            push_yaml(s, b);
            push_str(s, ")");
        },
    }
    assert(s@ =~= s0 + yaml_debug(*y));
}

fn push_items(s: &mut String, arr: &Vec<Yaml>)
    ensures
        final(s)@ == old(s)@ + items_debug(arr@),
    decreases *arr, 0nat,
{
    let ghost s0 = s@;
    let mut i: usize = 0;
    proof { assert(arr@.take(0) =~= Seq::<Yaml>::empty()); }
    while i < arr.len()
        invariant
            i <= arr@.len(),
            s@ == s0 + items_debug(arr@.take(i as int)),
        decreases arr@.len() - i,
    {
        if i > 0 {
            push_str(s, ", ");
        }
        proof {
            assert(decreases_to!(*arr => arr@));
            assert(decreases_to!(arr@ => arr@[i as int]));
        }
        push_yaml(s, &arr[i]);
        proof {
            let t = arr@.take(i + 1);
            assert(t.drop_last() =~= arr@.take(i as int));
            assert(t.last() == arr@[i as int]);
            assert(s@ =~= s0 + items_debug(t));
        }
        i = i + 1;
    }
    proof { assert(arr@.take(arr@.len() as int) =~= arr@); }
}

fn push_pairs(s: &mut String, h: &LinkedHashMap<Yaml, Yaml>)
    ensures
        final(s)@ == old(s)@ + pairs_debug(h.entries()),
    decreases *h, 0nat,
{
    let ghost s0 = s@;
    let ghost es = h.entries();
    let pairs = h.iter();
    let mut i: usize = 0;
    proof { assert(es.take(0) =~= Seq::<(Yaml, Yaml)>::empty()); }
    while i < pairs.len()
        invariant
            es == h.entries(),
            pairs@.len() == es.len(),
            forall|j: int| 0 <= j < pairs@.len() ==> (#[trigger] pairs@[j]).0 == &es[j].0
                && pairs@[j].1 == &es[j].1,
            i <= es.len(),
            s@ == s0 + pairs_debug(es.take(i as int)),
        decreases es.len() - i,
    {
        let k = pairs[i].0;
        let v = pairs[i].1;
        proof {
            crate::linked_hash_map::lemma_entries_decrease(*h, i as int);
            assert(es[i as int] == (*k, *v));
        }
        if i > 0 {
            push_str(s, ", ");
        }
        push_str(s, "(");
        push_yaml(s, k);
        push_str(s, ", ");
        push_yaml(s, v);
        push_str(s, ")");
        proof {
            let t = es.take(i + 1);
            assert(t.drop_last() =~= es.take(i as int));
            assert(t.last() == es[i as int]);
            assert(pair_debug(es[i as int]) == "("@ + yaml_debug(*k) + ", "@ + yaml_debug(*v) + ")"@);
            assert(pairs_debug(t) == pairs_debug(es.take(i as int)) + (if t.len() > 1 { ", "@ } else { Seq::empty() })
                + pair_debug(es[i as int]));
            assert(s@ =~= s0 + pairs_debug(t));
        }
        i = i + 1;
    }
    proof { assert(es.take(es.len() as int) =~= es); }
}

/// The debug rendering of a YAML value (`yaml_debug`).
pub fn yaml_debug_text(y: &Yaml) -> (s: String)
    ensures
        s@ == yaml_debug(*y),
{
    let mut s = String::new();
    push_yaml(&mut s, y);
    s
}

} // verus!
