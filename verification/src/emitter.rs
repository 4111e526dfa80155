//! Emitting `Yaml` values as YAML text: block sequences and mappings indented by level,
//! flow forms for empty collections, and double quotes for strings that need them.
use vstd::prelude::*;
use crate::linked_hash_map::LinkedHashMap;
use crate::parser::loader::{all_digits, i64_reading, lower_eq, parse_i64, eq_ignore_ascii_case};
use crate::text::{decimal, find_char, push_char, push_str, str_to_chars};
use crate::yaml::Yaml;

verus! {

/// Emission errors: a failed write, or a mapping key that cannot be written.
#[derive(Debug)]
pub enum EmitError {
    FmtError,
    BadHashmapKey,
}

/// The result of emitting.
pub type EmitResult = Result<(), EmitError>;

/// Digits only, at least one.
pub open spec fn digit_run(s: Seq<char>) -> bool {
    s.len() > 0 && all_digits(s)
}

/// `s` without one leading sign.
pub open spec fn unsigned_part(s: Seq<char>) -> Seq<char> {
    if s.len() > 0 && (s[0] == '+' || s[0] == '-') { s.drop_first() } else { s }
}

/// A decimal mantissa: digits with at most one `.`, and at least one digit.
pub open spec fn mantissa_ok(m: Seq<char>) -> bool {
    let d = find_char(m, '.');
    if d >= m.len() {
        digit_run(m)
    } else {
        all_digits(m.take(d)) && all_digits(m.skip(d + 1)) && (d > 0 || m.len() > d + 1)
    }
}

/// The index of the first `e` or `E`, or the length.
pub open spec fn exponent_start(s: Seq<char>) -> int
    decreases s.len(),
{
    if s.len() == 0 {
        0
    } else if s[0] == 'e' || s[0] == 'E' {
        0
    } else {
        1 + exponent_start(s.drop_first())
    }
}

/// Text that `str::parse::<f64>` accepts: an optional sign, then `inf`, `infinity` or
/// `nan` in any case, or a decimal mantissa with an optional exponent (`e` or `E`, an
/// optional sign and digits).
pub open spec fn float_syntax(s: Seq<char>) -> bool {
    let b = unsigned_part(s);
    if lower_eq(b, "inf"@) || lower_eq(b, "infinity"@) || lower_eq(b, "nan"@) {
        true
    } else {
        let k = exponent_start(b);
        mantissa_ok(b.take(k)) && (k >= b.len() || digit_run(unsigned_part(b.skip(k + 1))))
    }
}

/// Characters that need quoting wherever they stand.
pub open spec fn special_char(c: char) -> bool {
    c == '{' || c == '}' || c == '[' || c == ']' || c == ',' || c == '#' || c == '`' || c == '"' || c == '\''
        || c == '\\' || ('\0' <= c <= '\x06') || c == '\t' || c == '\n' || c == '\r' || ('\x0e' <= c <= '\x1f')
}

/// Characters that need quoting at the start.
pub open spec fn special_start(c: char) -> bool {
    c == ':' || c == '&' || c == '*' || c == '?' || c == '|' || c == '-' || c == '<' || c == '>' || c == '='
        || c == '!' || c == '%' || c == '@'
}

/// Whether a string needs quotes: empty, a space at either end, text that reads as an
/// integer, a float, null or a boolean, a special first character, or a special character
/// anywhere.
pub open spec fn need_quotes_spec(s: Seq<char>) -> bool {
    ||| s.len() == 0
    ||| s[0] == ' ' || s.last() == ' '
    ||| i64_reading(s) is Some
    ||| float_syntax(s)
    ||| s == "null"@ || s == "~"@ || s == "NULL"@ || s == "Null"@
    ||| s == "true"@ || s == "false"@ || s == "True"@ || s == "False"@
    ||| special_start(s[0])
    ||| exists|i: int| 0 <= i < s.len() && special_char(#[trigger] s[i])
}

/// Unicode control characters (general category Cc).
pub open spec fn is_control(c: char) -> bool {
    ('\0' <= c <= '\x1f') || ('\x7f' <= c <= '\u{9f}')
}

/// The lower-case hexadecimal digit for a value below sixteen.
pub open spec fn lower_hex_digit(d: int) -> char {
    if d < 10 { ((d + 48) as u32) as char } else { ((d + 87) as u32) as char }
}

/// One character inside double quotes: quote, backslash, line feed, tab and carriage
/// return escaped by letter, other control characters as `\u` and four lower-case hex
/// digits, anything else as itself.
pub open spec fn escaped_char(c: char) -> Seq<char> {
    if c == '"' {
        seq!['\\', '"']
    } else if c == '\\' {
        seq!['\\', '\\']
    } else if c == '\n' {
        seq!['\\', 'n']
    } else if c == '\t' {
        seq!['\\', 't']
    } else if c == '\r' {
        seq!['\\', 'r']
    } else if is_control(c) {
        let n = c as u32 as int;
        seq!['\\', 'u', lower_hex_digit(n / 4096), lower_hex_digit((n / 256) % 16), lower_hex_digit((n / 16) % 16), lower_hex_digit(n % 16)]
    } else {
        seq![c]
    }
}

/// The escaped characters of `s`.
pub open spec fn escaped_body(s: Seq<char>) -> Seq<char>
    decreases s.len(),
{
    if s.len() == 0 { Seq::empty() } else { escaped_body(s.drop_last()) + escaped_char(s.last()) }
}

/// A string in double quotes.
pub open spec fn quoted(s: Seq<char>) -> Seq<char> {
    seq!['"'] + escaped_body(s) + seq!['"']
}

/// `level` times `bi` spaces (none for a level below one).
pub open spec fn indent_text(level: int, bi: nat) -> Seq<char> {
    if level <= 0 { Seq::empty() } else { Seq::new((level * bi) as nat, |i: int| ' ') }
}

/// An integer as `{}` writes it.
pub open spec fn int_text(i: i64) -> Seq<char> {
    if i < 0 { seq!['-'] + decimal((-(i as int)) as nat) } else { decimal(i as nat) }
}

/// The text of a node at `level`, with the indentation step `bi` and compact nesting.
pub open spec fn node_text(y: Yaml, level: int, bi: nat, compact: bool) -> Seq<char>
    decreases y, 0nat
    via node_text_decreases
{
    match y {
        Yaml::Array(v) => if v@.len() == 0 { "[]"@ } else { items_text(v@, level + 1, bi, compact) },
        Yaml::Hash(h) => if h.entries().len() == 0 { "{}"@ } else { entries_text(h.entries(), level + 1, bi, compact) },
        Yaml::String(s) => if need_quotes_spec(s@) { quoted(s@) } else { s@ },
        Yaml::Boolean(b) => if b { "true"@ } else { "false"@ },
        Yaml::Integer(i) => int_text(i),
        Yaml::Real(s) => s@,
        Yaml::Null | Yaml::BadValue => "~"@,
        Yaml::Alias(_) => Seq::empty(),
        Yaml::Tagged(_, b) => node_text(*b, level, bi, compact),
    }
}

/// The text of a value after `- ` or `: `: a non-empty collection not written inline (or
/// not compact) starts on a new line one level deeper.
pub open spec fn val_text(inline: bool, y: Yaml, level: int, bi: nat, compact: bool) -> Seq<char>
    decreases y, 1nat
    via val_text_decreases
{
    match y {
        Yaml::Array(a) => (if (inline && compact) || a@.len() == 0 { Seq::empty() } else { seq!['\n'] + indent_text(level + 1, bi) })
            + (if a@.len() == 0 { "[]"@ } else { items_text(a@, level + 1, bi, compact) }),
        Yaml::Hash(h) => (if (inline && compact) || h.entries().len() == 0 { Seq::empty() } else { seq!['\n'] + indent_text(level + 1, bi) })
            + (if h.entries().len() == 0 { "{}"@ } else { entries_text(h.entries(), level + 1, bi, compact) }),
        _ => node_text(y, level, bi, compact),
    }
}

/// Sequence items at `level`, one `- ` entry per line.
pub open spec fn items_text(items: Seq<Yaml>, level: int, bi: nat, compact: bool) -> Seq<char>
    decreases items, 0nat
{
    if items.len() == 0 {
        Seq::empty()
    } else {
        items_text(items.drop_last(), level, bi, compact)
            + (if items.len() > 1 { seq!['\n'] + indent_text(level, bi) } else { Seq::empty() })
            + "- "@ + val_text(true, items.last(), level, bi, compact)
    }
}

/// One mapping entry at `level`: a collection key as an explicit `? ` key, others as
/// `key: value`.
pub open spec fn entry_text(e: (Yaml, Yaml), level: int, bi: nat, compact: bool) -> Seq<char>
    decreases e, 0nat
{
    if e.0 is Array || e.0 is Hash {
        "? "@ + node_text(e.0, level, bi, compact) + seq!['\n'] + indent_text(level, bi) + ": "@
            + val_text(true, e.1, level, bi, compact)
    } else {
        node_text(e.0, level, bi, compact) + ": "@ + val_text(false, e.1, level, bi, compact)
    }
}

/// Mapping entries at `level`, one per line.
pub open spec fn entries_text(es: Seq<(Yaml, Yaml)>, level: int, bi: nat, compact: bool) -> Seq<char>
    decreases es, 0nat
{
    if es.len() == 0 {
        Seq::empty()
    } else {
        entries_text(es.drop_last(), level, bi, compact)
            + (if es.len() > 1 { seq!['\n'] + indent_text(level, bi) } else { Seq::empty() })
            + entry_text(es.last(), level, bi, compact)
    }
}

#[via_fn]
proof fn val_text_decreases(inline: bool, y: Yaml, level: int, bi: nat, compact: bool) {
    match y {
        Yaml::Array(v) => {
            assert(decreases_to!(y => y->Array_0));
        },
        Yaml::Hash(m) => {
            assert(decreases_to!(y => y->Hash_0));
            crate::linked_hash_map::lemma_entries_seq_decreases(m);
        },
        _ => {},
    }
}

#[via_fn]
proof fn node_text_decreases(y: Yaml, level: int, bi: nat, compact: bool) {
    match y {
        Yaml::Array(v) => {
            assert(decreases_to!(y => y->Array_0));
        },
        Yaml::Hash(m) => {
            assert(decreases_to!(y => y->Hash_0));
            crate::linked_hash_map::lemma_entries_seq_decreases(m);
        },
        Yaml::Tagged(_, b) => {
            assert(decreases_to!(y => y->Tagged_1));
        },
        _ => {},
    }
}


/// How deeply collections nest in a node.
pub open spec fn node_height(y: Yaml) -> nat
    decreases y, 0nat
    via node_height_decreases
{
    match y {
        Yaml::Array(v) => 1 + items_height(v@),
        Yaml::Hash(h) => 1 + entries_height(h.entries()),
        Yaml::Tagged(_, b) => node_height(*b),
        _ => 0,
    }
}

/// The greatest nesting among sequence items.
pub open spec fn items_height(items: Seq<Yaml>) -> nat
    decreases items, 0nat
{
    if items.len() == 0 {
        0
    } else {
        let a = items_height(items.drop_last());
        let b = node_height(items.last());
        if a >= b { a } else { b }
    }
}

/// The greatest nesting among mapping keys and values.
pub open spec fn entries_height(es: Seq<(Yaml, Yaml)>) -> nat
    decreases es, 0nat
{
    if es.len() == 0 {
        0
    } else {
        let a = entries_height(es.drop_last());
        let k = node_height(es.last().0);
        let v = node_height(es.last().1);
        let b = if k >= v { k } else { v };
        if a >= b { a } else { b }
    }
}

#[via_fn]
proof fn node_height_decreases(y: Yaml) {
    match y {
        Yaml::Array(v) => {
            assert(decreases_to!(y => y->Array_0));
        },
        Yaml::Hash(m) => {
            assert(decreases_to!(y => y->Hash_0));
            crate::linked_hash_map::lemma_entries_seq_decreases(m);
        },
        Yaml::Tagged(_, b) => {
            assert(decreases_to!(y => y->Tagged_1));
        },
        _ => {},
    }
}

/// Each item nests no deeper than the items together.
pub proof fn lemma_items_height(items: Seq<Yaml>, i: int)
    requires
        0 <= i < items.len(),
    ensures
        node_height(items[i]) <= items_height(items),
    decreases items.len(),
{
    if i < items.len() - 1 {
        lemma_items_height(items.drop_last(), i);
        assert(items.drop_last()[i] == items[i]);
    }
}

/// Each key and value nests no deeper than the entries together.
pub proof fn lemma_entries_height(es: Seq<(Yaml, Yaml)>, i: int)
    requires
        0 <= i < es.len(),
    ensures
        node_height(es[i].0) <= entries_height(es),
        node_height(es[i].1) <= entries_height(es),
    decreases es.len(),
{
    if i < es.len() - 1 {
        lemma_entries_height(es.drop_last(), i);
        assert(es.drop_last()[i] == es[i]);
    }
}

/// Writing one more entry extends the text of the entries before it.
proof fn lemma_entries_step(es: Seq<(Yaml, Yaml)>, i: int, level: int, bi: nat, compact: bool)
    requires
        0 <= i < es.len(),
    ensures
        entries_text(es.take(i + 1), level, bi, compact) == entries_text(es.take(i), level, bi, compact)
            + (if i > 0 { seq!['\n'] + indent_text(level, bi) } else { Seq::empty() })
            + entry_text(es[i], level, bi, compact),
{
    let t = es.take(i + 1);
    assert(t.drop_last() =~= es.take(i));
    assert(t.last() == es[i]);
}

/// The digit for a value below sixteen, in lower case.
fn lower_hex(d: u32) -> (c: char)
    requires
        d < 16,
    ensures
        c == lower_hex_digit(d as int),
{
    let c = match d {
        0 => '0', 1 => '1', 2 => '2', 3 => '3', 4 => '4', 5 => '5', 6 => '6', 7 => '7',
        8 => '8', 9 => '9', 10 => 'a', 11 => 'b', 12 => 'c', 13 => 'd', 14 => 'e', _ => 'f',
    };
    assert(c == lower_hex_digit(d as int)) by {
        assert('0' as u32 == 48);
        assert('a' as u32 == 97);
    }
    c
}

/// Whether the text is one `str::parse::<f64>` accepts (`float_syntax`).
pub fn is_float_text(v: &[char]) -> (b: bool)
    ensures
        b == float_syntax(v@),
{
    let n = v.len();
    let start: usize = if n > 0 && (v[0] == '+' || v[0] == '-') { 1 } else { 0 };
    let body = crate::text::slice_chars(v, start, n);
    proof {
        if start == 1 { assert(body@ =~= v@.drop_first()); } else { assert(body@ =~= v@); }
    }
    let b = body.as_slice();
    if eq_ignore_ascii_case(b, "inf") || eq_ignore_ascii_case(b, "infinity") || eq_ignore_ascii_case(b, "nan") {
        return true;
    }
    let m = b.len();
    let mut k: usize = 0;
    proof { assert(b@.skip(0) =~= b@); }
    while k < m && b[k] != 'e' && b[k] != 'E'
        invariant
            k <= m == b@.len(),
            exponent_start(b@) == k + exponent_start(b@.skip(k as int)),
        decreases m - k,
    {
        proof { assert(b@.skip(k as int).drop_first() =~= b@.skip(k + 1)); }
        k = k + 1;
    }
    proof {
        if k == m {
            assert(b@.skip(k as int).len() == 0);
        } else {
            assert(b@.skip(k as int)[0] == b@[k as int]);
        }
    }
    let mant = crate::text::slice_chars(b, 0, k);
    proof { assert(mant@ =~= b@.take(k as int)); }
    if !mantissa_is_ok(mant.as_slice()) {
        return false;
    }
    if k >= m {
        return true;
    }
    let rest = crate::text::slice_chars(b, k + 1, m);
    proof { assert(rest@ =~= b@.skip(k + 1)); }
    let r = rest.as_slice();
    let es: usize = if r.len() > 0 && (r[0] == '+' || r[0] == '-') { 1 } else { 0 };
    let ed = crate::text::slice_chars(r, es, r.len());
    proof {
        if es == 1 { assert(ed@ =~= r@.drop_first()); } else { assert(ed@ =~= r@); }
    }
    ed.len() > 0 && digits_only(ed.as_slice())
}

/// All characters are ASCII digits.
fn digits_only(v: &[char]) -> (b: bool)
    ensures
        b == all_digits(v@),
{
    let mut i: usize = 0;
    while i < v.len()
        invariant
            i <= v@.len(),
            forall|j: int| 0 <= j < i ==> '0' <= #[trigger] v@[j] <= '9',
        decreases v@.len() - i,
    {
        if v[i] < '0' || v[i] > '9' {
            return false;
        }
        i = i + 1;
    }
    true
}

/// A decimal mantissa (`mantissa_ok`).
fn mantissa_is_ok(m: &[char]) -> (b: bool)
    ensures
        b == mantissa_ok(m@),
{
    let n = m.len();
    let d = crate::text::find_char_between(m, 0, n, '.');
    proof {
        assert(m@.subrange(0, n as int) =~= m@);
        crate::text::lemma_find_char(m@, '.');
    }
    if d >= n {
        return n > 0 && digits_only(m);
    }
    let before = crate::text::slice_chars(m, 0, d);
    let after = crate::text::slice_chars(m, d + 1, n);
    proof {
        assert(before@ =~= m@.take(d as int));
        assert(after@ =~= m@.skip(d + 1));
    }
    digits_only(before.as_slice()) && digits_only(after.as_slice()) && (d > 0 || n > d + 1)
}

/// Whether a string definitely needs quotes in YAML (`need_quotes_spec`).
pub fn need_quotes(s: &str) -> (b: bool)
    ensures
        b == need_quotes_spec(s@),
{
    let v = str_to_chars(s);
    let n = v.len();
    if n == 0 {
        return true;
    }
    if v[0] == ' ' || v[n - 1] == ' ' {
        return true;
    }
    if parse_i64(v.as_slice()).is_some() {
        return true;
    }
    if is_float_text(v.as_slice()) {
        return true;
    }
    if crate::text::str_eq(s, "null") || crate::text::str_eq(s, "~") || crate::text::str_eq(s, "NULL")
        || crate::text::str_eq(s, "Null")
    {
        return true;
    }
    if crate::text::str_eq(s, "true") || crate::text::str_eq(s, "false") || crate::text::str_eq(s, "True")
        || crate::text::str_eq(s, "False")
    {
        return true;
    }
    let c0 = v[0];
    if c0 == ':' || c0 == '&' || c0 == '*' || c0 == '?' || c0 == '|' || c0 == '-' || c0 == '<' || c0 == '>'
        || c0 == '=' || c0 == '!' || c0 == '%' || c0 == '@'
    {
        return true;
    }
    let mut i: usize = 0;
    while i < n
        invariant
            n == v@.len(),
            v@ == s@,
            i <= n,
            forall|j: int| 0 <= j < i ==> !special_char(#[trigger] v@[j]),
        decreases n - i,
    {
        let c = v[i];
        if c == '{' || c == '}' || c == '[' || c == ']' || c == ',' || c == '#' || c == '`' || c == '"'
            || c == '\'' || c == '\\' || ('\0' <= c && c <= '\x06') || c == '\t' || c == '\n' || c == '\r'
            || ('\x0e' <= c && c <= '\x1f')
        {
            assert(special_char(v@[i as int]));
            return true;
        }
        i = i + 1;
    }
    false
}

/// Append a string in double quotes, escaped (`quoted`).
pub fn escape_str(out: &mut String, s: &str)
    ensures
        final(out)@ == old(out)@ + quoted(s@),
{
    let v = str_to_chars(s);
    let ghost o0 = out@;
    push_char(out, '"');
    let mut i: usize = 0;
    while i < v.len()
        invariant
            v@ == s@,
            i <= v@.len(),
            out@ == o0 + seq!['"'] + escaped_body(v@.take(i as int)),
        decreases v@.len() - i,
    {
        let c = v[i];
        let ghost before = out@;
        if c == '"' {
            push_char(out, '\\');
            push_char(out, '"');
        } else if c == '\\' {
            push_char(out, '\\');
            push_char(out, '\\');
        } else if c == '\n' {
            push_char(out, '\\');
            push_char(out, 'n');
        } else if c == '\t' {
            push_char(out, '\\');
            push_char(out, 't');
        } else if c == '\r' {
            push_char(out, '\\');
            push_char(out, 'r');
        } else if ('\0' <= c && c <= '\x1f') || ('\x7f' <= c && c <= '\u{9f}') {
            let n = c as u32;
            push_char(out, '\\');
            push_char(out, 'u');
            push_char(out, lower_hex(n / 4096));
            push_char(out, lower_hex((n / 256) % 16));
            push_char(out, lower_hex((n / 16) % 16));
            push_char(out, lower_hex(n % 16));
        } else {
            push_char(out, c);
        }
        proof {
            assert(v@.take(i + 1).drop_last() =~= v@.take(i as int));
            assert(out@ =~= before + escaped_char(c));
            assert(out@ =~= o0 + seq!['"'] + escaped_body(v@.take(i + 1)));
        }
        i = i + 1;
    }
    push_char(out, '"');
    proof { assert(v@.take(v@.len() as int) =~= v@); }
    assert(out@ =~= o0 + quoted(s@));
}

/// Append an integer as `{}` writes it.
pub(crate) fn push_int(out: &mut String, i: i64)
    ensures
        final(out)@ == old(out)@ + int_text(i),
{
    let ghost o0 = out@;
    let mag: u64 = if i < 0 {
        if i == i64::MIN { 0x8000_0000_0000_0000u64 } else { (-i) as u64 }
    } else {
        i as u64
    };
    if i < 0 {
        push_char(out, '-');
    }
    let d = u64_decimal(mag);
    push_str(out, d.as_str());
    proof {
        if i < 0 {
            assert(mag as int == -(i as int));
            assert(out@ =~= o0 + int_text(i));
        }
    }
}

/// The decimal rendering of a `u64`.
fn u64_decimal(n: u64) -> (s: String)
    ensures
        s@ == decimal(n as nat),
    decreases n,
{
    if n < 10 {
        let mut s = String::new();
        push_char(&mut s, crate::text::digit_to_char(n as u8));
        s
    } else {
        let mut s = u64_decimal(n / 10);
        push_char(&mut s, crate::text::digit_to_char((n % 10) as u8));
        s
    }
}

/// How deeply collections nest in a node (`node_height`), at most `usize::MAX`.
pub fn nesting_height(y: &Yaml) -> (h: usize)
    ensures
        h == (if node_height(*y) < usize::MAX { node_height(*y) } else { usize::MAX as nat }),
    decreases *y, 2nat,
{
    match y {
        Yaml::Array(v) => {
            proof { assert(decreases_to!(*y => y->Array_0)); }
            let inner = items_nesting(v);
            if inner == usize::MAX { usize::MAX } else { inner + 1 }
        },
        Yaml::Hash(h) => {
            proof { assert(decreases_to!(*y => y->Hash_0)); }
            let inner = entries_nesting(h);
            if inner == usize::MAX { usize::MAX } else { inner + 1 }
        },
        Yaml::Tagged(_, b) => {
            proof { assert(decreases_to!(*y => *y->Tagged_1)); }
            nesting_height(b)
        },
        _ => 0,
    }
}

fn items_nesting(v: &Vec<Yaml>) -> (h: usize)
    ensures
        h == (if items_height(v@) < usize::MAX { items_height(v@) } else { usize::MAX as nat }),
    decreases *v, 1nat,
{
    let mut best: usize = 0;
    let mut i: usize = 0;
    proof { assert(v@.take(0) =~= Seq::<Yaml>::empty()); }
    while i < v.len()
        invariant
            i <= v@.len(),
            best == (if items_height(v@.take(i as int)) < usize::MAX { items_height(v@.take(i as int)) } else { usize::MAX as nat }),
        decreases v@.len() - i,
    {
        proof {
            assert(decreases_to!(*v => v@));
            assert(decreases_to!(v@ => v@[i as int]));
            assert(v@.take(i + 1).drop_last() =~= v@.take(i as int));
        }
        let d = nesting_height(&v[i]);
        if d > best {
            best = d;
        }
        i = i + 1;
    }
    proof { assert(v@.take(v@.len() as int) =~= v@); }
    best
}

fn entries_nesting(m: &LinkedHashMap<Yaml, Yaml>) -> (h: usize)
    ensures
        h == (if entries_height(m.entries()) < usize::MAX { entries_height(m.entries()) } else { usize::MAX as nat }),
    decreases *m, 1nat,
{
    let pairs = m.iter();
    let ghost es = m.entries();
    let mut best: usize = 0;
    let mut i: usize = 0;
    proof { assert(es.take(0) =~= Seq::<(Yaml, Yaml)>::empty()); }
    while i < pairs.len()
        invariant
            es == m.entries(),
            pairs@.len() == es.len(),
            forall|j: int| 0 <= j < pairs@.len() ==> (#[trigger] pairs@[j]).0 == &es[j].0 && pairs@[j].1 == &es[j].1,
            i <= es.len(),
            best == (if entries_height(es.take(i as int)) < usize::MAX { entries_height(es.take(i as int)) } else { usize::MAX as nat }),
        decreases es.len() - i,
    {
        proof {
            crate::linked_hash_map::lemma_entries_decrease(*m, i as int);
            assert(es.take(i + 1).drop_last() =~= es.take(i as int));
        }
        let k = nesting_height(pairs[i].0);
        let w = nesting_height(pairs[i].1);
        let d = if k >= w { k } else { w };
        if d > best {
            best = d;
        }
        i = i + 1;
    }
    proof { assert(es.take(es.len() as int) =~= es); }
    best
}

/// Writes `Yaml` values as YAML text into a string it owns.
pub struct YamlEmitter {
    /// The text written so far.
    pub writer: String,
    pub best_indent: usize,
    pub compact: bool,
    /// The current nesting level (`-1` between documents).
    pub level: isize,
}

impl YamlEmitter {
    /// An emitter with nothing written, an indentation step of two and compact nesting.
    pub fn new() -> (e: Self)
        ensures
            e.writer@ == Seq::<char>::empty(),
            e.best_indent == 2,
            e.compact,
            e.level == -1,
    {
        YamlEmitter { writer: String::new(), best_indent: 2, compact: true, level: -1 }
    }

    /// The text written so far.
    pub fn output(&self) -> (s: &str)
        ensures
            s@ == self.writer@,
    {
        self.writer.as_str()
    }

    /// Writes a document: a `---` line, then the node.
    pub fn dump(&mut self, doc: &Yaml) -> (r: EmitResult)
        requires
            node_height(*doc) < isize::MAX,
        ensures
            r is Ok,
            final(self).writer@ == old(self).writer@ + "---\n"@
                + node_text(*doc, -1, old(self).best_indent as nat, old(self).compact),
            final(self).level == -1,
            final(self).best_indent == old(self).best_indent,
            final(self).compact == old(self).compact,
    {
        push_str(&mut self.writer, "---\n");
        self.level = -1;
        self.emit_node(doc)
    }

    /// Writes a node on its own, with no document marker.
    pub fn emit(&mut self, doc: &Yaml) -> (r: EmitResult)
        requires
            node_height(*doc) < isize::MAX,
        ensures
            r is Ok,
            final(self).writer@ == old(self).writer@
                + node_text(*doc, -1, old(self).best_indent as nat, old(self).compact),
            final(self).level == -1,
            final(self).best_indent == old(self).best_indent,
            final(self).compact == old(self).compact,
    {
        self.level = -1;
        self.emit_node(doc)
    }

    fn emit_node(&mut self, node: &Yaml) -> (r: EmitResult)
        requires
            -1 <= old(self).level,
            old(self).level + node_height(*node) < isize::MAX,
        ensures
            r is Ok,
            final(self).writer@ == old(self).writer@
                + node_text(*node, old(self).level as int, old(self).best_indent as nat, old(self).compact),
            final(self).level == old(self).level,
            final(self).best_indent == old(self).best_indent,
            final(self).compact == old(self).compact,
        decreases *node, 2nat,
    {
        match node {
            Yaml::Array(v) => {
                proof { assert(decreases_to!(*node => node->Array_0)); }
                self.emit_array(v)
            },
            Yaml::Hash(h) => {
                proof { assert(decreases_to!(*node => node->Hash_0)); }
                self.emit_hash(h)
            },
            Yaml::String(s) => {
                if need_quotes(s.as_str()) {
                    escape_str(&mut self.writer, s.as_str());
                } else {
                    push_str(&mut self.writer, s.as_str());
                }
                Ok(())
            },
            Yaml::Boolean(b) => {
                if *b {
                    push_str(&mut self.writer, "true");
                } else {
                    push_str(&mut self.writer, "false");
                }
                Ok(())
            },
            Yaml::Integer(i) => {
                push_int(&mut self.writer, *i);
                Ok(())
            },
            Yaml::Real(s) => {
                push_str(&mut self.writer, s.as_str());
                Ok(())
            },
            Yaml::Null | Yaml::BadValue => {
                push_str(&mut self.writer, "~");
                Ok(())
            },
            Yaml::Alias(_) => {
                proof { assert(self.writer@ =~= old(self).writer@ + Seq::<char>::empty()); }
                Ok(())
            },
            Yaml::Tagged(_, inner) => {
                proof { assert(decreases_to!(*node => *node->Tagged_1)); }
                self.emit_node(inner)
            },
        }
    }

    fn emit_array(&mut self, arr: &Vec<Yaml>) -> (r: EmitResult)
        requires
            -1 <= old(self).level,
            old(self).level + 1 + items_height(arr@) < isize::MAX,
        ensures
            r is Ok,
            final(self).writer@ == old(self).writer@ + (if arr@.len() == 0 { "[]"@ } else {
                items_text(arr@, old(self).level + 1, old(self).best_indent as nat, old(self).compact)
            }),
            final(self).level == old(self).level,
            final(self).best_indent == old(self).best_indent,
            final(self).compact == old(self).compact,
        decreases *arr, 1nat,
    {
        if arr.len() == 0 {
            push_str(&mut self.writer, "[]");
            return Ok(());
        }
        let ghost w0 = self.writer@;
        let ghost bi = self.best_indent as nat;
        let ghost cp = self.compact;
        self.level = self.level + 1;
        let mut i: usize = 0;
        proof { assert(arr@.take(0) =~= Seq::<Yaml>::empty()); }
        while i < arr.len()
            invariant
                i <= arr@.len(),
                0 <= self.level,
                self.level == old(self).level + 1,
                self.level + items_height(arr@) < isize::MAX,
                self.best_indent == bi,
                self.compact == cp,
                self.writer@ == w0 + items_text(arr@.take(i as int), self.level as int, bi, cp),
            decreases arr@.len() - i,
        {
            let ghost before = self.writer@;
            if i > 0 {
                push_char(&mut self.writer, '\n');
                self.write_indent();
            }
            push_str(&mut self.writer, "- ");
            proof {
                lemma_items_height(arr@, i as int);
                assert(decreases_to!(*arr => arr@));
                assert(decreases_to!(arr@ => arr@[i as int]));
            }
            let _ = self.emit_val(true, &arr[i]);
            proof {
                let t = arr@.take(i + 1);
                assert(t.drop_last() =~= arr@.take(i as int));
                assert(t.last() == arr@[i as int]);
                reveal_strlit("- ");
                assert(self.writer@ =~= w0 + items_text(t, self.level as int, bi, cp));
            }
            i = i + 1;
        }
        proof { assert(arr@.take(arr@.len() as int) =~= arr@); }
        self.level = self.level - 1;
        Ok(())
    }

    fn emit_hash(&mut self, h: &LinkedHashMap<Yaml, Yaml>) -> (r: EmitResult)
        requires
            -1 <= old(self).level,
            old(self).level + 1 + entries_height(h.entries()) < isize::MAX,
        ensures
            r is Ok,
            final(self).writer@ == old(self).writer@ + (if h.entries().len() == 0 { "{}"@ } else {
                entries_text(h.entries(), old(self).level + 1, old(self).best_indent as nat, old(self).compact)
            }),
            final(self).level == old(self).level,
            final(self).best_indent == old(self).best_indent,
            final(self).compact == old(self).compact,
        decreases *h, 1nat,
    {
        let pairs = h.iter();
        if pairs.len() == 0 {
            push_str(&mut self.writer, "{}");
            return Ok(());
        }
        let ghost es = h.entries();
        let ghost w0 = self.writer@;
        let ghost bi = self.best_indent as nat;
        let ghost cp = self.compact;
        self.level = self.level + 1;
        let mut i: usize = 0;
        proof { assert(es.take(0) =~= Seq::<(Yaml, Yaml)>::empty()); }
        while i < pairs.len()
            invariant
                es == h.entries(),
                pairs@.len() == es.len(),
                forall|j: int| 0 <= j < pairs@.len() ==> (#[trigger] pairs@[j]).0 == &es[j].0
                    && pairs@[j].1 == &es[j].1,
                i <= es.len(),
                0 <= self.level,
                self.level == old(self).level + 1,
                self.level + entries_height(es) < isize::MAX,
                self.best_indent == bi,
                self.compact == cp,
                self.writer@ == w0 + entries_text(es.take(i as int), self.level as int, bi, cp),
            decreases es.len() - i,
        {
            let k = pairs[i].0;
            let v = pairs[i].1;
            proof {
                lemma_entries_height(es, i as int);
                assert(es[i as int] == (*k, *v));
            }
            if i > 0 {
                push_char(&mut self.writer, '\n');
                self.write_indent();
            }
            self.emit_entry(h, i, k, v);
            proof {
                lemma_entries_step(es, i as int, self.level as int, bi, cp);
            }
            i = i + 1;
        }
        proof { assert(es.take(es.len() as int) =~= es); }
        self.level = self.level - 1;
        Ok(())
    }

    /// Writes the entry at `i` of a mapping: a collection key as an explicit `? ` key,
    /// others as `key: value`.
    fn emit_entry(&mut self, h: &LinkedHashMap<Yaml, Yaml>, i: usize, k: &Yaml, v: &Yaml)
        requires
            0 <= i < h.entries().len(),
            *k == h.entries()[i as int].0,
            *v == h.entries()[i as int].1,
            0 <= old(self).level,
            old(self).level + node_height(*k) < isize::MAX,
            old(self).level + node_height(*v) < isize::MAX,
        ensures
            final(self).writer@ == old(self).writer@
                + entry_text((*k, *v), old(self).level as int, old(self).best_indent as nat, old(self).compact),
            final(self).level == old(self).level,
            final(self).best_indent == old(self).best_indent,
            final(self).compact == old(self).compact,
        decreases *h, 0nat,
    {
        proof { crate::linked_hash_map::lemma_entries_decrease(*h, i as int); }
        let complex = match k {
            Yaml::Array(_) | Yaml::Hash(_) => true,
            _ => false,
        };
        if complex {
            push_str(&mut self.writer, "? ");
            let _ = self.emit_node(k);
            push_char(&mut self.writer, '\n');
            self.write_indent();
            push_str(&mut self.writer, ": ");
            let _ = self.emit_val(true, v);
        } else {
            let _ = self.emit_node(k);
            push_str(&mut self.writer, ": ");
            let _ = self.emit_val(false, v);
        }
        proof {
            reveal_strlit("? ");
            reveal_strlit(": ");
        }
    }

    fn emit_val(&mut self, inline: bool, val: &Yaml) -> (r: EmitResult)
        requires
            -1 <= old(self).level,
            old(self).level + node_height(*val) < isize::MAX,
        ensures
            r is Ok,
            final(self).writer@ == old(self).writer@
                + val_text(inline, *val, old(self).level as int, old(self).best_indent as nat, old(self).compact),
            final(self).level == old(self).level,
            final(self).best_indent == old(self).best_indent,
            final(self).compact == old(self).compact,
        decreases *val, 3nat,
    {
        let ghost w0 = self.writer@;
        match val {
            Yaml::Array(a) => {
                if !((inline && self.compact) || a.len() == 0) {
                    push_char(&mut self.writer, '\n');
                    self.level = self.level + 1;
                    self.write_indent();
                    self.level = self.level - 1;
                }
                proof { assert(decreases_to!(*val => val->Array_0)); }
                self.emit_array(a)
            },
            Yaml::Hash(h) => {
                if !((inline && self.compact) || h.len() == 0) {
                    push_char(&mut self.writer, '\n');
                    self.level = self.level + 1;
                    self.write_indent();
                    self.level = self.level - 1;
                }
                proof { assert(decreases_to!(*val => val->Hash_0)); }
                self.emit_hash(h)
            },
            _ => {
                proof { assert(node_height(*val) == 0 || val is Tagged); }
                self.emit_node(val)
            },
        }
    }

    fn write_indent(&mut self)
        ensures
            final(self).writer@ == old(self).writer@ + indent_text(old(self).level as int, old(self).best_indent as nat),
            final(self).level == old(self).level,
            final(self).best_indent == old(self).best_indent,
            final(self).compact == old(self).compact,
    {
        if self.level <= 0 {
            proof { assert(self.writer@ =~= self.writer@ + Seq::<char>::empty()); }
            return;
        }
        let ghost w0 = self.writer@;
        let ghost bi = self.best_indent as int;
        let n = self.level as usize;
        let mut i: usize = 0;
        while i < n
            invariant
                i <= n,
                n == self.level,
                bi == self.best_indent,
                self.level == old(self).level,
                self.compact == old(self).compact,
                self.writer@ == w0 + Seq::new((i * bi) as nat, |x: int| ' '),
            decreases n - i,
        {
            let mut j: usize = 0;
            let ghost row = self.writer@;
            while j < self.best_indent
                invariant
                    j <= self.best_indent,
                    bi == self.best_indent,
                    self.level == old(self).level,
                    self.compact == old(self).compact,
                    self.writer@ == row + Seq::new(j as nat, |x: int| ' '),
                decreases self.best_indent - j,
            {
                push_char(&mut self.writer, ' ');
                proof {
                    assert(self.writer@ =~= row + Seq::new((j + 1) as nat, |x: int| ' '));
                }
                j = j + 1;
            }
            proof {
                assert((i + 1) * bi == i * bi + bi) by (nonlinear_arith);
                assert(0 <= i * bi) by (nonlinear_arith) requires 0 <= i, 0 <= bi;
                assert(self.writer@ =~= w0 + Seq::new(((i + 1) * bi) as nat, |x: int| ' '));
            }
            i = i + 1;
        }
        proof { assert(w0 + Seq::new((n * bi) as nat, |x: int| ' ') =~= w0 + indent_text(old(self).level as int, bi as nat)); }
    }
}

} // verus!
