//! The loader's fast path: simple documents (a scalar, a one-line or flat block mapping, a
//! one-line flow sequence or mapping) are read without the state machine; anything richer
//! is left to it.
use vstd::prelude::*;
use crate::error::{Marker, ScanError};
use crate::lexer::position::{utf8_len, utf8_len_seq, char_len_utf8};
use crate::linked_hash_map::LinkedHashMap;
use crate::parser::loader::{YamlLoader, reads_any, loads_scalar};
use crate::text::{find_char, has_prefix, is_ws, lines_spec, trim_spec, trim_start_spec, has_char,
    starts_with_str, slice_chars, trim_chars, trim_start_chars, split_lines, str_to_chars, chars_to_string,
    str_trim, find_char_between, find_char_from, push_str, push_decimal, push_chars, decimal};
use crate::yaml::{Yaml, yaml_insert};

verus! {

/// The text the fast path works on: trimmed, then without a leading byte order mark.
pub open spec fn fast_text(s: Seq<char>) -> Seq<char> {
    let t = trim_spec(s);
    if t.len() > 0 && t[0] == '\u{feff}' { t.drop_first() } else { t }
}

/// No indicator that starts a structure: no `:`, `-`, `[`, `{`, `|` or `>`.
pub open spec fn structure_free(t: Seq<char>) -> bool {
    !t.contains(':') && !t.contains('-') && !t.contains('[') && !t.contains('{') && !t.contains('|') && !t.contains('>')
}

/// A directive line: `%YAML `, `%TAG `, or `%` and an upper-case letter, after indentation.
pub open spec fn directive_line(l: Seq<char>) -> bool {
    let lt = trim_start_spec(l);
    has_prefix(lt, "%YAML "@) || has_prefix(lt, "%TAG "@) || (lt.len() > 1 && lt[0] == '%' && 'A' <= lt[1] <= 'Z')
}

/// Three `c` from `i` on, followed by a space, a tab, a line feed or the end.
pub open spec fn marker_at(t: Seq<char>, i: int, c: char) -> bool {
    i + 2 < t.len() && t[i + 1] == c && t[i + 2] == c
        && (i + 3 >= t.len() || t[i + 3] == ' ' || t[i + 3] == '\t' || t[i + 3] == '\n')
}

/// Scanning from `i`, with `line_start` telling whether only blanks came since the last
/// line feed and `count` document starts seen: whether a second document start `---` or a
/// document end `...` is found at the start of a line.
pub open spec fn marker_scan(t: Seq<char>, i: int, line_start: bool, count: nat) -> bool
    decreases t.len() - i,
{
    if i < 0 || i >= t.len() {
        false
    } else {
        let c = t[i];
        if c == '\n' {
            marker_scan(t, i + 1, true, count)
        } else if c == '-' && line_start {
            let count2 = if marker_at(t, i, '-') { count + 1 } else { count };
            if count2 > 1 { true } else { marker_scan(t, i + 1, false, count2) }
        } else if c == '.' && line_start {
            if marker_at(t, i, '.') { true } else { marker_scan(t, i + 1, false, count) }
        } else if c == ' ' || c == '\t' {
            marker_scan(t, i + 1, line_start, count)
        } else {
            marker_scan(t, i + 1, false, count)
        }
    }
}

/// An anchor or alias name may start with an ASCII letter or digit, `_` or `-`.
pub open spec fn name_start(c: char) -> bool {
    ('a' <= c <= 'z') || ('A' <= c <= 'Z') || ('0' <= c <= '9') || c == '_' || c == '-'
}

/// A trimmed line with a tag at its first `!`: at the line start, after white space (the
/// character at the byte offset before it), as `!!`, or before a lower-case letter or `<`.
pub open spec fn tag_at(l: Seq<char>) -> bool {
    let k = find_char(l, '!');
    k < l.len() && {
        let bp = utf8_len_seq(l.take(k)) as int;
        ||| bp == 0
        ||| (bp - 1 < l.len() && is_ws(l[bp - 1]))
        ||| has_prefix(l.skip(k), "!!"@)
        ||| (k + 1 < l.len() && (('a' <= l[k + 1] <= 'z') || l[k + 1] == '<'))
    }
}

/// The first `c` of a trimmed line is followed by a name character.
pub open spec fn name_after(l: Seq<char>, c: char) -> bool {
    let k = find_char(l, c);
    k + 1 < l.len() && name_start(l[k + 1])
}

/// A line with a node property: a tag, an anchor or an alias.
pub open spec fn property_line(l: Seq<char>) -> bool {
    let lt = trim_spec(l);
    tag_at(lt) || name_after(lt, '&') || name_after(lt, '*')
}

/// An explicit key line: `? ` or a lone `?` after indentation.
pub open spec fn explicit_key_line(l: Seq<char>) -> bool {
    let lt = trim_start_spec(l);
    has_prefix(lt, "? "@) || lt == "?"@
}

/// The UTF-8 length of a line's indentation.
pub open spec fn indent_bytes(l: Seq<char>) -> int {
    utf8_len_seq(l) - utf8_len_seq(trim_start_spec(l))
}

/// From line `i` on, with `prev` the indentation of the last mapping line: whether a
/// mapping line is indented differently and not at the margin.
pub open spec fn indent_change(ls: Seq<Seq<char>>, i: int, prev: Option<int>) -> bool
    decreases ls.len() - i,
{
    if i < 0 || i >= ls.len() {
        false
    } else {
        let l = ls[i];
        if trim_spec(l).len() > 0 && l.contains(':') {
            let ind = indent_bytes(l);
            if prev is Some && ind != prev->0 && ind != 0 { true } else { indent_change(ls, i + 1, Some(ind)) }
        } else {
            indent_change(ls, i + 1, prev)
        }
    }
}

/// Whether a line of `ls` satisfies `p`.
pub open spec fn some_line(ls: Seq<Seq<char>>, p: spec_fn(Seq<char>) -> bool) -> bool {
    exists|i: int| 0 <= i < ls.len() && p(#[trigger] ls[i])
}

/// The conditions under which the fast path leaves a non-empty text that is not a block
/// sequence and has structure to the state machine outright.
pub open spec fn needs_full_parser(t: Seq<char>) -> bool {
    let ls = lines_spec(t);
    ||| some_line(ls, |l: Seq<char>| directive_line(l))
    ||| marker_scan(t, 0, true, 0)
    ||| (t.contains(':') && some_line(ls, |l: Seq<char>| property_line(l)))
    ||| (t.contains(':') && ls.len() > 1 && (some_line(ls, |l: Seq<char>| explicit_key_line(l))
        || t.contains('[') || t.contains(']') || t.contains('{') || t.contains('}') || indent_change(ls, 0, None)))
}

/// The pieces of `s` between occurrences of `c` (`str::split`).
pub open spec fn split_on(s: Seq<char>, c: char) -> Seq<Seq<char>>
    decreases s.len(),
{
    let k = find_char(s, c);
    if k >= s.len() {
        seq![s]
    } else {
        proof { crate::text::lemma_find_char(s, c); }
        seq![s.take(k)] + split_on(s.skip(k + 1), c)
    }
}

/// A line that is blank or a comment.
pub open spec fn skipped_line(l: Seq<char>) -> bool {
    trim_spec(l).len() == 0 || trim_spec(l)[0] == '#'
}

/// The key and value texts of a `key: value` line, split at its first `:` and trimmed.
pub open spec fn key_text(l: Seq<char>) -> Seq<char> {
    trim_spec(l.take(find_char(l, ':')))
}

pub open spec fn value_text(l: Seq<char>) -> Seq<char> {
    trim_spec(l.skip(find_char(l, ':') + 1))
}

/// A key slot's value: null for an empty text, else the resolved scalar.
pub open spec fn loads_value<F: Fn(&str) -> Option<String>>(f: F, v: Seq<char>, y: Yaml) -> bool {
    if v.len() == 0 { y == Yaml::Null } else { loads_scalar(f, v, y) }
}

/// Trimming the front never lengthens the UTF-8 encoding.
pub proof fn lemma_trim_start_utf8(l: Seq<char>)
    ensures
        utf8_len_seq(trim_start_spec(l)) <= utf8_len_seq(l),
    decreases l.len(),
{
    if l.len() > 0 && is_ws(l[0]) {
        crate::lexer::position::lemma_utf8_len_front(l);
        lemma_trim_start_utf8(l.drop_first());
    }
}


/// The content lines of `ls` (neither blank nor comments), trimmed.
pub open spec fn content_lines(ls: Seq<Seq<char>>) -> Seq<Seq<char>>
    decreases ls.len(),
{
    if ls.len() == 0 {
        Seq::empty()
    } else {
        content_lines(ls.drop_last()) + (if skipped_line(ls.last()) { Seq::empty() } else { seq![trim_spec(ls.last())] })
    }
}

/// From line `j` on, the first content line is indented (starts with a space or a tab).
pub open spec fn next_content_indented(ls: Seq<Seq<char>>, j: int) -> bool
    decreases ls.len() - j,
{
    if j < 0 || j >= ls.len() {
        false
    } else if skipped_line(ls[j]) {
        next_content_indented(ls, j + 1)
    } else {
        ls[j].len() > 0 && (ls[j][0] == ' ' || ls[j][0] == '\t')
    }
}

/// Line `i` has a key with an empty value and indented content follows it.
pub open spec fn nested_after(ls: Seq<Seq<char>>, i: int) -> bool {
    let l = trim_spec(ls[i]);
    !skipped_line(ls[i]) && l.contains(':') && value_text(l).len() == 0 && i + 1 < ls.len()
        && next_content_indented(ls, i + 1)
}

/// A trimmed content line the flat mapping takes: a non-empty key before a `:`, and no
/// anchor or alias indicator.
pub open spec fn flat_pair_line(l: Seq<char>) -> bool {
    l.contains(':') && !l.contains('&') && !l.contains('*') && key_text(l).len() > 0
}

/// Mapping entries after inserting the keys `ks` with the values `vs` in turn.
pub open spec fn entries_after(e: Seq<(Yaml, Yaml)>, ks: Seq<Yaml>, vs: Seq<Yaml>) -> Seq<(Yaml, Yaml)>
    decreases ks.len(),
{
    if ks.len() == 0 || vs.len() != ks.len() {
        e
    } else {
        yaml_insert(entries_after(e, ks.drop_last(), vs.drop_last()), ks.last(), vs.last())
    }
}

/// `ks` are the string keys of the trimmed lines `ls`, and `vs` their loaded values.
pub open spec fn pairs_of<F: Fn(&str) -> Option<String>>(f: F, ls: Seq<Seq<char>>, ks: Seq<Yaml>, vs: Seq<Yaml>) -> bool {
    &&& ks.len() == ls.len() && vs.len() == ls.len()
    &&& forall|j: int| 0 <= j < ls.len() ==> (#[trigger] ks[j] matches Yaml::String(x) && x@ == key_text(ls[j]))
    &&& forall|j: int| 0 <= j < ls.len() ==> loads_value(f, value_text(ls[j]), #[trigger] vs[j])
}

/// What the flat block mapping of `t` yields: nothing when a key with an empty value has
/// indented content, when a content line is no flat pair, or when there is no content;
/// otherwise the mapping of its lines' keys to their values, in order.
pub open spec fn flat_mapping<F: Fn(&str) -> Option<String>>(f: F, t: Seq<char>, r: Option<Yaml>) -> bool {
    let ls = lines_spec(t);
    let cs = content_lines(ls);
    if (exists|i: int| 0 <= i < ls.len() && #[trigger] nested_after(ls, i))
        || (exists|j: int| 0 <= j < cs.len() && !flat_pair_line(#[trigger] cs[j]))
        || cs.len() == 0
    {
        r is None
    } else {
        r matches Some(Yaml::Hash(h)) && exists|ks: Seq<Yaml>, vs: Seq<Yaml>| pairs_of(f, cs, ks, vs)
            && h.entries() == entries_after(Seq::empty(), ks, vs)
    }
}

/// From line `i` on, with `base` the indentation of the sequence's entries once known:
/// every content line is an entry at that indentation or content indented past it, and
/// at least one entry is found.
pub open spec fn sequence_shape(ls: Seq<Seq<char>>, i: int, base: Option<int>) -> bool
    decreases ls.len() - i,
{
    if i < 0 || i >= ls.len() {
        base is Some
    } else {
        let l = ls[i];
        let ind = indent_bytes(l);
        if skipped_line(l) {
            sequence_shape(ls, i + 1, base)
        } else if has_prefix(trim_spec(l), "- "@) {
            if base is Some && base->0 != ind { false } else { sequence_shape(ls, i + 1, if base is Some { base } else { Some(ind) }) }
        } else if base is Some {
            if ind < base->0 + 2 { false } else { sequence_shape(ls, i + 1, base) }
        } else {
            false
        }
    }
}

/// Every line's indentation is ASCII white space, so that it counts the same in
/// characters and in bytes.
pub open spec fn ascii_indentation(ls: Seq<Seq<char>>) -> bool {
    forall|i: int, j: int| 0 <= i < ls.len() && 0 <= j < ls[i].len() - trim_start_spec(ls[i]).len()
        ==> (#[trigger] ls[i][j] as u32) < 0x80
}

/// A line's indentation in characters.
pub open spec fn indent_chars(l: Seq<char>) -> int {
    l.len() - trim_start_spec(l).len()
}

/// Scanning the lines after an entry from `j` on (`end` the last line taken so far):
/// blank and comment lines are passed, an entry at the same indentation stops the scan
/// and is reported, a line indented less than the entry's content stops it, and deeper
/// lines belong to the entry.
pub open spec fn scan_item(ls: Seq<Seq<char>>, j: int, base: int, end: int) -> (int, Option<int>)
    decreases ls.len() - j,
{
    if j < 0 || j >= ls.len() {
        (end, None)
    } else if skipped_line(ls[j]) {
        scan_item(ls, j + 1, base, end)
    } else if has_prefix(trim_spec(ls[j]), "- "@) && indent_chars(ls[j]) == base {
        (end, Some(j))
    } else if indent_chars(ls[j]) < base + 2 {
        (end, None)
    } else {
        scan_item(ls, j + 1, base, j)
    }
}

/// A continuation line with the entry's content indentation `ici` removed.
pub open spec fn normalized(l: Seq<char>, ici: int) -> Seq<char> {
    if indent_chars(l) >= ici { l.skip(ici) } else { l }
}

/// The continuation lines `j..=end` of an entry, normalized, without blank and comment lines.
pub open spec fn rest_parts(ls: Seq<Seq<char>>, j: int, end: int, ici: int) -> Seq<Seq<char>>
    decreases end + 1 - j,
{
    if j > end || j < 0 || j >= ls.len() {
        Seq::empty()
    } else {
        (if skipped_line(ls[j]) { Seq::empty() } else { seq![normalized(ls[j], ici)] }) + rest_parts(ls, j + 1, end, ici)
    }
}

/// Lines joined with line feeds.
pub open spec fn join_lines(parts: Seq<Seq<char>>) -> Seq<char>
    decreases parts.len(),
{
    if parts.len() == 0 {
        Seq::empty()
    } else if parts.len() == 1 {
        parts[0]
    } else {
        join_lines(parts.drop_last()) + seq!['\n'] + parts.last()
    }
}

/// The text of the entry on line `i` ending at line `end`: the content after `- `, then
/// (for a multi-line entry) its continuation lines, joined.
pub open spec fn entry_text(ls: Seq<Seq<char>>, i: int, end: int, base: int) -> Seq<char> {
    let first = trim_spec(trim_spec(ls[i]).skip(2));
    if end == i {
        first
    } else {
        join_lines((if first.len() > 0 { seq![first] } else { Seq::empty() }) + rest_parts(ls, i + 1, end, base + 2))
    }
}

/// The entry texts of a block sequence from line `i` on, or the line where an entry was
/// expected and none found. After an entry the walk goes on at the next entry's start, or
/// past the entry's last line.
pub open spec fn sequence_walk(ls: Seq<Seq<char>>, i: int) -> Result<Seq<Seq<char>>, int>
    decreases ls.len() - i,
{
    if i < 0 || i >= ls.len() {
        Ok(Seq::empty())
    } else if skipped_line(ls[i]) {
        sequence_walk(ls, i + 1)
    } else if !has_prefix(trim_spec(ls[i]), "- "@) {
        Err(i)
    } else {
        let base = indent_chars(ls[i]);
        let (end, ns) = scan_item(ls, i + 1, base, i);
        let next = match ns {
            Some(n) => if n > i { n } else { i + 1 },
            None => if end + 1 > i { end + 1 } else { i + 1 },
        };
        let next = if next > ls.len() { ls.len() as int } else { next };
        match sequence_walk(ls, next) {
            Ok(rest) => Ok(seq![entry_text(ls, i, end, base)] + rest),
            Err(k) => Err(k),
        }
    }
}

/// An entry's value: null for blank text, else the trimmed text resolved.
pub open spec fn loads_item<F: Fn(&str) -> Option<String>>(f: F, text: Seq<char>, y: Yaml) -> bool {
    if trim_spec(text).len() == 0 { y == Yaml::Null } else { loads_scalar(f, trim_spec(text), y) }
}

/// The message for a line where a sequence entry was expected.
pub open spec fn entry_expected_message(k: int, found: Seq<char>) -> Seq<char> {
    "invalid block sequence: expected '- ' at line "@ + decimal((k + 1) as nat) + ", found '"@ + found + "'"@
}

/// What reading the block sequence `s` gives (`sequence_walk`): its entries' values,
/// nothing when it has no entry, or an error at the first line where an entry was expected.
pub open spec fn block_sequence_outcome<F: Fn(&str) -> Option<String>>(f: F, s: Seq<char>, r: Result<Option<Yaml>, ScanError>) -> bool {
    match sequence_walk(lines_spec(s), 0) {
        Err(k) => r matches Err(e) && e.mark == (Marker { index: 0, line: (k + 1) as usize, col: 0 })
            && e.info@ == entry_expected_message(k, trim_spec(lines_spec(s)[k])),
        Ok(texts) => if texts.len() == 0 {
            r == Ok::<Option<Yaml>, ScanError>(None)
        } else {
            r matches Ok(Some(Yaml::Array(items))) && items@.len() == texts.len()
                && forall|j: int| 0 <= j < texts.len() ==> loads_item(f, texts[j], #[trigger] items@[j])
        },
    }
}

/// A non-empty text with structure that the fast path does not hand over at once.
pub open spec fn fast_candidate(t: Seq<char>) -> bool {
    t.len() > 0 && !has_prefix(t, "- "@) && !structure_free(t) && !needs_full_parser(t)
}

/// A one-line `key: value` the fast path reads: a non-empty key, no flow collection
/// indicators, no further `:` in the value, and no anchor or alias indicators.
pub open spec fn single_line_pair(t: Seq<char>) -> bool {
    let k = key_text(t);
    let v = value_text(t);
    k.len() > 0 && !k.contains('[') && !k.contains('{') && !v.contains('[') && !v.contains('{') && !v.contains(':')
        && !k.contains('&') && !k.contains('*') && !v.contains('&') && !v.contains('*')
}

/// The inside of a one-line flow collection, trimmed.
pub open spec fn flow_inner(t: Seq<char>) -> Seq<char> {
    trim_spec(t.subrange(1, t.len() - 1))
}

/// What the fast path gives for the text `s` (with `f` the float reader): see
/// `YamlLoader::try_fast_parse`.
pub open spec fn fast_outcome<F: Fn(&str) -> Option<String>>(f: F, s: Seq<char>, r: Result<Option<Yaml>, ScanError>) -> bool {
    let t = fast_text(s);
    let ls = lines_spec(t);
    &&& !(t.len() > 0 && has_prefix(t, "- "@)) ==> r is Ok
    &&& t.len() == 0 ==> r == Ok::<Option<Yaml>, ScanError>(Some(Yaml::Null))
    &&& t.len() > 0 && has_prefix(t, "- "@) && needs_full_parser(t) ==> r == Ok::<Option<Yaml>, ScanError>(None)
    &&& t.len() > 0 && has_prefix(t, "- "@) && !needs_full_parser(t) ==> if ls.len() > 0 && sequence_shape(ls, 0, None) {
            block_sequence_outcome(f, t, r)
        } else {
            r == Ok::<Option<Yaml>, ScanError>(None)
        }
    &&& t.len() > 0 && !has_prefix(t, "- "@) && structure_free(t) ==> (r matches Ok(Some(y)) && loads_scalar(f, t, y))
    &&& t.len() > 0 && !has_prefix(t, "- "@) && !structure_free(t) && needs_full_parser(t)
        ==> r == Ok::<Option<Yaml>, ScanError>(None)
    &&& fast_candidate(t) && t.contains(':') && ls.len() > 1 ==> (r matches Ok(o) && flat_mapping(f, t, o))
    &&& fast_candidate(t) && t.contains(':') && ls.len() == 1 && single_line_pair(t) ==> (r matches Ok(Some(Yaml::Hash(h)))
        && h.entries().len() == 1 && (h.entries()[0].0 matches Yaml::String(k) && k@ == key_text(t))
        && loads_value(f, value_text(t), h.entries()[0].1))
    &&& fast_candidate(t) && !(t.contains(':') && ls.len() > 1) && !(t.contains(':') && ls.len() == 1 && single_line_pair(t))
        && t[0] == '[' && t.last() == ']' && ls.len() == 1 ==> (r matches Ok(Some(Yaml::Array(items)))
        && (flow_inner(t).len() == 0 ==> items.len() == 0)
        && (flow_inner(t).len() > 0 ==> items.len() == split_on(flow_inner(t), ',').len()
            && forall|j: int| 0 <= j < items.len() ==> loads_scalar(f, trim_spec(split_on(flow_inner(t), ',')[j]), #[trigger] items[j])))
    &&& fast_candidate(t) && !(t.contains(':') && ls.len() > 1) && !(t.contains(':') && ls.len() == 1 && single_line_pair(t))
        && t[0] == '{' && t.last() == '}' && ls.len() == 1 ==> {
            let inner = flow_inner(t);
            &&& inner.len() == 0 ==> (r matches Ok(Some(Yaml::Hash(h))) && h.entries().len() == 0)
            &&& inner.len() > 0 && inner.contains(',') ==> r == Ok::<Option<Yaml>, ScanError>(None)
            &&& inner.len() > 0 && !inner.contains(',') && inner.contains(':') && key_text(inner).len() > 0 && value_text(inner).len() > 0
                ==> (r matches Ok(Some(Yaml::Hash(h))) && h.entries().len() == 1
                    && (h.entries()[0].0 matches Yaml::String(k) && k@ == key_text(inner))
                    && loads_scalar(f, value_text(inner), h.entries()[0].1))
            &&& inner.len() > 0 && !inner.contains(',') && !(inner.contains(':') && key_text(inner).len() > 0 && value_text(inner).len() > 0)
                ==> r == Ok::<Option<Yaml>, ScanError>(None)
        }
    &&& fast_candidate(t) && !(t.contains(':') && ls.len() > 1) && !(t.contains(':') && ls.len() == 1 && single_line_pair(t))
        && !(t[0] == '[' && t.last() == ']' && ls.len() == 1) && !(t[0] == '{' && t.last() == '}' && ls.len() == 1)
        ==> r == Ok::<Option<Yaml>, ScanError>(None)
}

/// The content lines of a prefix of `ls` begin the content lines of `ls`.
pub proof fn lemma_content_prefix(ls: Seq<Seq<char>>, i: int)
    requires
        0 <= i <= ls.len(),
    ensures
        content_lines(ls.take(i)).len() <= content_lines(ls).len(),
        forall|k: int| 0 <= k < content_lines(ls.take(i)).len() ==> #[trigger] content_lines(ls)[k] == content_lines(ls.take(i))[k],
    decreases ls.len() - i,
{
    if i < ls.len() {
        lemma_content_prefix(ls, i + 1);
        assert(ls.take(i + 1).drop_last() =~= ls.take(i));
        let a = content_lines(ls.take(i));
        let b = content_lines(ls.take(i + 1));
        assert forall|k: int| 0 <= k < a.len() implies #[trigger] content_lines(ls)[k] == a[k] by {
            assert(b[k] == a[k]);
        }
    } else {
        assert(ls.take(i) =~= ls);
    }
}

/// Inserting at least one key leaves at least one entry.
pub proof fn lemma_entries_after_len(e: Seq<(Yaml, Yaml)>, ks: Seq<Yaml>, vs: Seq<Yaml>)
    requires
        ks.len() == vs.len(),
        ks.len() > 0,
    ensures
        entries_after(e, ks, vs).len() > 0,
{
    let prev = entries_after(e, ks.drop_last(), vs.drop_last());
    crate::parser::loader::lemma_yaml_find(prev, ks.last());
}

impl YamlLoader {
    /// Whether a line of `lines` is a directive line.
    fn any_directive_line(lines: &Vec<Vec<char>>) -> (b: bool)
        ensures
            b == exists|i: int| 0 <= i < lines@.len() && directive_line(#[trigger] lines@[i]@),
    {
        let mut i: usize = 0;
        while i < lines.len()
            invariant
                i <= lines@.len(),
                forall|j: int| 0 <= j < i ==> !directive_line(#[trigger] lines@[j]@),
            decreases lines@.len() - i,
        {
            let lt = trim_start_chars(lines[i].as_slice());
            let d = starts_with_str(lt.as_slice(), "%YAML ") || starts_with_str(lt.as_slice(), "%TAG ")
                || (lt.len() > 1 && lt[0] == '%' && 'A' <= lt[1] && lt[1] <= 'Z');
            if d {
                assert(directive_line(lines@[i as int]@));
                return true;
            }
            i = i + 1;
        }
        false
    }

    /// Whether the text has a second document start or a document end at a line start.
    fn document_markers_ahead(t: &[char]) -> (b: bool)
        ensures
            b == marker_scan(t@, 0, true, 0),
    {
        let mut i: usize = 0;
        let mut line_start = true;
        let mut count: u8 = 0;
        while i < t.len()
            invariant
                i <= t@.len(),
                count <= 1,
                marker_scan(t@, 0, true, 0) == marker_scan(t@, i as int, line_start, count as nat),
            decreases t@.len() - i,
        {
            let c = t[i];
            let n = t.len();
            if c == '\n' {
                line_start = true;
            } else if c == '-' && line_start {
                if n - i > 2 && t[i + 1] == '-' && t[i + 2] == '-'
                    && (i + 3 >= n || t[i + 3] == ' ' || t[i + 3] == '\t' || t[i + 3] == '\n')
                {
                    count = count + 1;
                    if count > 1 {
                        return true;
                    }
                }
                line_start = false;
            } else if c == '.' && line_start {
                if n - i > 2 && t[i + 1] == '.' && t[i + 2] == '.'
                    && (i + 3 >= n || t[i + 3] == ' ' || t[i + 3] == '\t' || t[i + 3] == '\n')
                {
                    return true;
                }
                line_start = false;
            } else if c == ' ' || c == '\t' {
            } else {
                line_start = false;
            }
            i = i + 1;
        }
        false
    }

    /// The UTF-8 length of `v[..k]`.
    fn utf8_prefix_len(v: &[char], k: usize) -> (n: u128)
        requires
            k <= v@.len(),
        ensures
            n == utf8_len_seq(v@.take(k as int)),
            n <= 4 * k,
    {
        let mut n: u128 = 0;
        let mut i: usize = 0;
        while i < k
            invariant
                i <= k <= v@.len(),
                n == utf8_len_seq(v@.take(i as int)),
                n <= 4 * i,
            decreases k - i,
        {
            assert(v@.take(i + 1).drop_last() =~= v@.take(i as int));
            n = n + char_len_utf8(v[i]) as u128;
            i = i + 1;
        }
        n
    }

    /// Whether the first `c` of `l` is followed by a name character.
    fn name_follows(l: &[char], c: char) -> (b: bool)
        ensures
            b == name_after(l@, c),
    {
        let k = find_char_between(l, 0, l.len(), c);
        proof { assert(l@.subrange(0, l@.len() as int) =~= l@); }
        if k < l.len() && k + 1 < l.len() {
            let d = l[k + 1];
            ('a' <= d && d <= 'z') || ('A' <= d && d <= 'Z') || ('0' <= d && d <= '9') || d == '_' || d == '-'
        } else {
            false
        }
    }

    /// Whether a trimmed line has a tag at its first `!` (`tag_at`).
    fn tag_follows(l: &[char]) -> (b: bool)
        ensures
            b == tag_at(l@),
    {
        let k = find_char_between(l, 0, l.len(), '!');
        proof { assert(l@.subrange(0, l@.len() as int) =~= l@); }
        if k >= l.len() {
            return false;
        }
        let bp = Self::utf8_prefix_len(l, k);
        if bp == 0 {
            return true;
        }
        if bp - 1 < l.len() as u128 {
            let idx = (bp - 1) as usize;
            if crate::text::char_is_ws(l[idx]) {
                return true;
            }
        }
        let rest = slice_chars(l, k, l.len());
        proof { assert(rest@ =~= l@.skip(k as int)); }
        if starts_with_str(rest.as_slice(), "!!") {
            return true;
        }
        k + 1 < l.len() && (('a' <= l[k + 1] && l[k + 1] <= 'z') || l[k + 1] == '<')
    }

    /// Whether a line of `lines` has a node property.
    fn any_property_line(lines: &Vec<Vec<char>>) -> (b: bool)
        ensures
            b == exists|i: int| 0 <= i < lines@.len() && property_line(#[trigger] lines@[i]@),
    {
        let mut i: usize = 0;
        while i < lines.len()
            invariant
                i <= lines@.len(),
                forall|j: int| 0 <= j < i ==> !property_line(#[trigger] lines@[j]@),
            decreases lines@.len() - i,
        {
            let lt = trim_chars(lines[i].as_slice());
            if Self::tag_follows(lt.as_slice()) || Self::name_follows(lt.as_slice(), '&') || Self::name_follows(lt.as_slice(), '*') {
                assert(property_line(lines@[i as int]@));
                return true;
            }
            i = i + 1;
        }
        false
    }

    /// Whether a line of `lines` is an explicit key line.
    fn any_explicit_key_line(lines: &Vec<Vec<char>>) -> (b: bool)
        ensures
            b == exists|i: int| 0 <= i < lines@.len() && explicit_key_line(#[trigger] lines@[i]@),
    {
        let mut i: usize = 0;
        while i < lines.len()
            invariant
                i <= lines@.len(),
                forall|j: int| 0 <= j < i ==> !explicit_key_line(#[trigger] lines@[j]@),
            decreases lines@.len() - i,
        {
            let lt = trim_start_chars(lines[i].as_slice());
            if starts_with_str(lt.as_slice(), "? ") || (lt.len() == 1 && lt[0] == '?') {
                proof {
                    if lt@.len() == 1 && lt@[0] == '?' {
                        assert(lt@ =~= "?"@) by { reveal_strlit("?"); }
                    }
                }
                assert(explicit_key_line(lines@[i as int]@));
                return true;
            }
            proof {
                if lt@ == "?"@ {
                    reveal_strlit("?");
                    assert(lt@.len() == 1 && lt@[0] == '?');
                }
            }
            i = i + 1;
        }
        false
    }

    /// Whether mapping lines change their indentation away from the margin
    /// (`indent_change`).
    fn indentation_changes(lines: &Vec<Vec<char>>) -> (b: bool)
        ensures
            b == indent_change(lines@.map_values(|l: Vec<char>| l@), 0, None),
    {
        let ghost ls = lines@.map_values(|l: Vec<char>| l@);
        let mut prev: Option<u128> = None;
        let mut i: usize = 0;
        while i < lines.len()
            invariant
                ls == lines@.map_values(|l: Vec<char>| l@),
                i <= lines@.len(),
                indent_change(ls, 0, None) == indent_change(ls, i as int, match prev { Some(p) => Some(p as int), None => None }),
            decreases lines@.len() - i,
        {
            let l = lines[i].as_slice();
            assert(ls[i as int] == l@);
            let lt = trim_chars(l);
            if lt.len() > 0 && has_char(l, ':') {
                let lead = trim_start_chars(l);
                let total = Self::utf8_prefix_len(l, l.len());
                let rest = Self::utf8_prefix_len(lead.as_slice(), lead.len());
                proof {
                    assert(l@.take(l@.len() as int) =~= l@);
                    assert(lead@.take(lead@.len() as int) =~= lead@);
                    lemma_trim_start_utf8(l@);
                }
                let ind = total - rest;
                if let Some(p) = prev {
                    if ind != p && ind != 0 {
                        return true;
                    }
                }
                prev = Some(ind);
            }
            i = i + 1;
        }
        false
    }

    /// The flat block mapping of a text (`flat_mapping`): its `key: value` lines, unless a
    /// key with an empty value has indented content, a line is no flat pair, or there is no
    /// content.
    fn try_parse_block_mapping<F: Fn(&str) -> Option<String>>(s: &[char], float_text: &F) -> (r: Option<Yaml>)
        requires
            reads_any(*float_text),
        ensures
            flat_mapping(*float_text, s@, r),
    {
        let lines = split_lines(s);
        let ghost ls = lines_spec(s@);
        let n = lines.len();
        let mut i: usize = 0;
        while i < n
            invariant
                n == lines@.len(),
                ls == lines_spec(s@),
                ls.len() == n,
                forall|k: int| 0 <= k < n ==> (#[trigger] lines@[k])@ == ls[k],
                i <= n,
                forall|j: int| 0 <= j < i ==> !#[trigger] nested_after(ls, j),
            decreases n - i,
        {
            let l = trim_chars(lines[i].as_slice());
            if l.len() > 0 && l[0] != '#' {
                let c = find_char_between(l.as_slice(), 0, l.len(), ':');
                proof {
                    assert(l@.subrange(0, l@.len() as int) =~= l@);
                    crate::text::lemma_find_char(l@, ':');
                    crate::text::lemma_find_contains(l@, ':');
                }
                if c < l.len() {
                    let after = slice_chars(l.as_slice(), c + 1, l.len());
                    proof { assert(after@ =~= l@.skip(c + 1)); }
                    let v = trim_chars(after.as_slice());
                    if v.len() == 0 && i + 1 < n {
                        assert(value_text(l@) == v@);
                        let mut j = i + 1;
                        while j < n
                            invariant
                                n == lines@.len(),
                                ls.len() == n,
                                forall|k: int| 0 <= k < n ==> (#[trigger] lines@[k])@ == ls[k],
                                i + 1 <= j <= n,
                                i + 1 < n,
                                ls == lines_spec(s@),
                                !skipped_line(ls[i as int]),
                                trim_spec(ls[i as int]).contains(':'),
                                value_text(trim_spec(ls[i as int])).len() == 0,
                                next_content_indented(ls, i + 1) == next_content_indented(ls, j as int),
                            ensures
                                !next_content_indented(ls, i + 1),
                            decreases n - j,
                        {
                            let nt = trim_chars(lines[j].as_slice());
                            if nt.len() == 0 || nt[0] == '#' {
                                j = j + 1;
                            } else {
                                let nl = lines[j].as_slice();
                                if nl.len() > 0 && (nl[0] == ' ' || nl[0] == '\t') {
                                    assert(nested_after(ls, i as int));
                                    return None;
                                }
                                break;
                            }
                        }
                    }
                }
            }
            i = i + 1;
        }
        let ghost cs = content_lines(ls);
        let mut hash: LinkedHashMap<Yaml, Yaml> = LinkedHashMap::new();
        let ghost mut ks: Seq<Yaml> = Seq::empty();
        let ghost mut vs: Seq<Yaml> = Seq::empty();
        i = 0;
        assert(ls.take(0) =~= Seq::<Seq<char>>::empty());
        while i < n
            invariant
                n == lines@.len(),
                ls == lines_spec(s@),
                ls.len() == n,
                cs == content_lines(ls),
                forall|k: int| 0 <= k < n ==> (#[trigger] lines@[k])@ == ls[k],
                i <= n,
                forall|j: int| 0 <= j < n ==> !#[trigger] nested_after(ls, j),
                reads_any(*float_text),
                pairs_of(*float_text, content_lines(ls.take(i as int)), ks, vs),
                forall|j: int| 0 <= j < content_lines(ls.take(i as int)).len() ==> flat_pair_line(#[trigger] content_lines(ls.take(i as int))[j]),
                hash.entries() == entries_after(Seq::empty(), ks, vs),
            decreases n - i,
        {
            proof {
                assert(ls.take(i + 1).drop_last() =~= ls.take(i as int));
                assert(ls.take(i + 1).last() == ls[i as int]);
                lemma_content_prefix(ls, i + 1);
            }
            let ghost before = content_lines(ls.take(i as int));
            let l = trim_chars(lines[i].as_slice());
            if l.len() > 0 && l[0] != '#' {
                assert(content_lines(ls.take(i + 1)) == before.push(l@));
                let c = find_char_between(l.as_slice(), 0, l.len(), ':');
                proof {
                    assert(l@.subrange(0, l@.len() as int) =~= l@);
                    crate::text::lemma_find_char(l@, ':');
                    crate::text::lemma_find_contains(l@, ':');
                    crate::text::lemma_find_contains(l@, '&');
                    crate::text::lemma_find_contains(l@, '*');
                    assert(cs[before.len() as int] == l@);
                }
                if c < l.len() {
                    let head = slice_chars(l.as_slice(), 0, c);
                    let after = slice_chars(l.as_slice(), c + 1, l.len());
                    proof {
                        assert(head@ =~= l@.take(c as int));
                        assert(after@ =~= l@.skip(c + 1));
                    }
                    let key_part = trim_chars(head.as_slice());
                    let value_part = trim_chars(after.as_slice());
                    if has_char(l.as_slice(), '&') || has_char(l.as_slice(), '*') {
                        assert(!flat_pair_line(cs[before.len() as int]));
                        return None;
                    }
                    if key_part.len() > 0 {
                        let key = Yaml::String(chars_to_string(key_part.as_slice()));
                        let value = if value_part.len() == 0 {
                            Yaml::Null
                        } else {
                            let vt = chars_to_string(value_part.as_slice());
                            YamlLoader::parse_scalar_direct(vt.as_str(), float_text)
                        };
                        proof {
                            crate::parser::loader::lemma_yaml_insert(hash.entries(), key, value);
                            let ks2 = ks.push(key);
                            let vs2 = vs.push(value);
                            assert(ks2.drop_last() =~= ks);
                            assert(vs2.drop_last() =~= vs);
                            let now = before.push(l@);
                            assert forall|j: int| 0 <= j < now.len() implies (#[trigger] ks2[j] matches Yaml::String(x) && x@ == key_text(now[j])) by {
                                if j < before.len() { assert(ks2[j] == ks[j]); }
                            }
                            assert forall|j: int| 0 <= j < now.len() implies loads_value(*float_text, value_text(now[j]), #[trigger] vs2[j]) by {
                                if j < before.len() { assert(vs2[j] == vs[j]); }
                            }
                            ks = ks2;
                            vs = vs2;
                        }
                        hash.insert(key, value);
                    } else {
                        assert(!flat_pair_line(cs[before.len() as int]));
                        return None;
                    }
                } else {
                    assert(!flat_pair_line(cs[before.len() as int]));
                    return None;
                }
            } else {
                assert(content_lines(ls.take(i + 1)) =~= before);
            }
            i = i + 1;
        }
        proof {
            assert(ls.take(n as int) =~= ls);
        }
        if hash.is_empty() {
            proof {
                if cs.len() > 0 {
                    lemma_entries_after_len(Seq::empty(), ks, vs);
                }
            }
            None
        } else {
            Some(Yaml::Hash(hash))
        }
    }

    /// Whether the text has the shape of a block sequence (`sequence_shape`).
    fn is_valid_block_sequence(s: &[char]) -> (b: bool)
        ensures
            b == (lines_spec(s@).len() > 0 && sequence_shape(lines_spec(s@), 0, None)),
    {
        let lines = split_lines(s);
        let ghost ls = lines_spec(s@);
        if lines.len() == 0 {
            return false;
        }
        let n = lines.len();
        let mut base: Option<u128> = None;
        let mut i: usize = 0;
        while i < n
            invariant
                n == lines@.len(),
                ls.len() == n,
                forall|k: int| 0 <= k < n ==> (#[trigger] lines@[k])@ == ls[k],
                i <= n,
                n > 0,
                ls == lines_spec(s@),
                base matches Some(b) ==> b <= 4 * usize::MAX,
                sequence_shape(ls, 0, None) == sequence_shape(ls, i as int, match base { Some(b) => Some(b as int), None => None }),
            decreases n - i,
        {
            let line = lines[i].as_slice();
            assert(ls[i as int] == line@);
            let t = trim_chars(line);
            let lead = trim_start_chars(line);
            let total = Self::utf8_prefix_len(line, line.len());
            let rest = Self::utf8_prefix_len(lead.as_slice(), lead.len());
            proof {
                assert(line@.take(line@.len() as int) =~= line@);
                assert(lead@.take(lead@.len() as int) =~= lead@);
                lemma_trim_start_utf8(line@);
            }
            let ind = total - rest;
            if t.len() == 0 || t[0] == '#' {
            } else if starts_with_str(t.as_slice(), "- ") {
                match base {
                    Some(b) => {
                        if b != ind {
                            return false;
                        }
                    },
                    None => {
                        base = Some(ind);
                    },
                }
            } else {
                match base {
                    Some(b) => {
                        if ind < b + 2 {
                            return false;
                        }
                    },
                    None => {
                        return false;
                    },
                }
            }
            i = i + 1;
        }
        base.is_some()
    }

    /// An entry's content: null when blank, else the trimmed text resolved.
    fn parse_item_content<F: Fn(&str) -> Option<String>>(content: &str, float_text: &F) -> (r: Result<Yaml, ScanError>)
        requires
            reads_any(*float_text),
        ensures
            r matches Ok(y) && loads_item(*float_text, content@, y),
    {
        let trimmed = str_trim(content);
        if trimmed.as_str().unicode_len() == 0 {
            return Ok(Yaml::Null);
        }
        let y = YamlLoader::parse_scalar_direct(trimmed.as_str(), float_text);
        proof { crate::text::lemma_trim_idempotent(content@); }
        Ok(y)
    }

    /// A line's indentation in characters.
    fn indentation_of(line: &[char]) -> (n: usize)
        ensures
            n == indent_chars(line@),
            n <= line@.len(),
    {
        let lead = trim_start_chars(line);
        proof { crate::text::lemma_trim_start_len(line@); }
        line.len() - lead.len()
    }

    /// The block sequence of a text (`sequence_walk`): its entries' values, nothing when
    /// it has no entry, or an error at the first line where an entry was expected.
    fn try_parse_block_sequence<F: Fn(&str) -> Option<String>>(s: &[char], float_text: &F)
        -> (r: Result<Option<Yaml>, ScanError>)
        requires
            reads_any(*float_text),
            s@.len() + 2 < usize::MAX,
        ensures
            block_sequence_outcome(*float_text, s@, r),
    {
        let lines = split_lines(s);
        let ghost ls = lines_spec(s@);
        let n = lines.len();
        proof { crate::text::lemma_lines_len(s@); }
        if s.len() == 0 {
            return Ok(None);
        }
        let mut items: Vec<Yaml> = Vec::new();
        let ghost mut texts: Seq<Seq<char>> = Seq::empty();
        let mut i: usize = 0;
        while i < n
            invariant
                n == lines@.len(),
                ls == lines_spec(s@),
                ls.len() == n,
                n <= s@.len() + 1,
                s@.len() + 2 < usize::MAX,
                forall|k: int| 0 <= k < n ==> (#[trigger] lines@[k])@ == ls[k],
                forall|k: int| 0 <= k < n ==> (#[trigger] ls[k]).len() <= s@.len(),
                i <= n,
                reads_any(*float_text),
                sequence_walk(ls, 0) == match sequence_walk(ls, i as int) {
                    Ok(rest) => Ok::<Seq<Seq<char>>, int>(texts + rest),
                    Err(k) => Err::<Seq<Seq<char>>, int>(k),
                },
                items@.len() == texts.len(),
                forall|j: int| 0 <= j < texts.len() ==> loads_item(*float_text, texts[j], #[trigger] items@[j]),
            decreases n - i,
        {
            let t = trim_chars(lines[i].as_slice());
            if t.len() == 0 || t[0] == '#' {
                i = i + 1;
                continue;
            }
            if !starts_with_str(t.as_slice(), "- ") {
                let mut msg = String::new();
                push_str(&mut msg, "invalid block sequence: expected '- ' at line ");
                push_decimal(&mut msg, i + 1);
                push_str(&mut msg, ", found '");
                push_chars(&mut msg, t.as_slice());
                push_str(&mut msg, "'");
                return Err(ScanError::new(Marker { index: 0, line: i + 1, col: 0 }, msg.as_str()));
            }
            proof { reveal_strlit("- "); }
            let base = Self::indentation_of(lines[i].as_slice());
            let ici = base + 2;
            let after = slice_chars(t.as_slice(), 2, t.len());
            proof { assert(after@ =~= t@.skip(2)); }
            let first = trim_chars(after.as_slice());
            let mut end = i;
            let mut ns: Option<usize> = None;
            let mut j = i + 1;
            while j < n
                invariant_except_break
                    ns is None,
                invariant
                    n == lines@.len(),
                    ls.len() == n,
                    forall|k: int| 0 <= k < n ==> (#[trigger] lines@[k])@ == ls[k],
                    i < n,
                    i + 1 <= j <= n,
                    i <= end < j,
                    base + 2 == ici,
                    scan_item(ls, i + 1, base as int, i as int) == scan_item(ls, j as int, base as int, end as int),
                ensures
                    i <= end < n,
                    scan_item(ls, i + 1, base as int, i as int) == (end as int, match ns { Some(x) => Some(x as int), None => None }),
                    ns matches Some(x) ==> i < x < n,
                decreases n - j,
            {
                let nt = trim_chars(lines[j].as_slice());
                if nt.len() == 0 || nt[0] == '#' {
                    j = j + 1;
                    continue;
                }
                let nind = Self::indentation_of(lines[j].as_slice());
                if starts_with_str(nt.as_slice(), "- ") && nind == base {
                    ns = Some(j);
                    break;
                }
                if nind < ici {
                    break;
                }
                end = j;
                j = j + 1;
            }
            let ghost text = entry_text(ls, i as int, end as int, base as int);
            let parsed = if end == i {
                let ft = chars_to_string(first.as_slice());
                Self::parse_item_content(ft.as_str(), float_text)?
            } else {
                let mut joined = String::new();
                let mut count: usize = 0;
                let ghost head = if first@.len() > 0 { seq![first@] } else { Seq::<Seq<char>>::empty() };
                let ghost mut acc: Seq<Seq<char>> = Seq::empty();
                if first.len() > 0 {
                    push_chars(&mut joined, first.as_slice());
                    count = 1;
                }
                proof {
                    acc = head;
                    assert(joined@ == join_lines(acc));
                    assert(rest_parts(ls, i + 1, end as int, ici as int) == Seq::<Seq<char>>::empty() + rest_parts(ls, i + 1, end as int, ici as int));
                }
                let ghost mut accr: Seq<Seq<char>> = Seq::empty();
                let mut k = i + 1;
                while k <= end
                    invariant
                        n == lines@.len(),
                        ls.len() == n,
                        forall|q: int| 0 <= q < n ==> (#[trigger] lines@[q])@ == ls[q],
                        i < k <= end + 1,
                        end < n,
                        acc == head + accr,
                        count == acc.len(),
                        count <= k - i,
                        joined@ == join_lines(acc),
                        rest_parts(ls, i + 1, end as int, ici as int) == accr + rest_parts(ls, k as int, end as int, ici as int),
                    decreases end + 1 - k,
                {
                    let line = lines[k].as_slice();
                    let kt = trim_chars(line);
                    if !(kt.len() == 0 || kt[0] == '#') {
                        let kind = Self::indentation_of(line);
                        let part = if kind >= ici { slice_chars(line, ici, line.len()) } else { slice_chars(line, 0, line.len()) };
                        proof {
                            assert(line@.subrange(0, line@.len() as int) =~= line@);
                            if kind >= ici { assert(line@.subrange(ici as int, line@.len() as int) =~= line@.skip(ici as int)); }
                            assert(part@ == normalized(ls[k as int], ici as int));
                        }
                        if count > 0 {
                            crate::text::push_char(&mut joined, '\n');
                        }
                        push_chars(&mut joined, part.as_slice());
                        proof {
                            let acc2 = acc.push(part@);
                            assert(acc2.drop_last() =~= acc);
                            if acc.len() > 0 {
                                assert(join_lines(acc2) == join_lines(acc) + seq!['\n'] + part@);
                                assert(joined@ =~= join_lines(acc2));
                            } else {
                                assert(joined@ =~= part@);
                            }
                            assert((accr.push(part@)) + rest_parts(ls, k + 1, end as int, ici as int) =~= accr + (seq![part@] + rest_parts(ls, k + 1, end as int, ici as int)));
                            acc = acc2;
                            accr = accr.push(part@);
                            assert(acc =~= head + accr);
                        }
                        count = count + 1;
                    } else {
                        proof {
                            assert(accr + rest_parts(ls, k + 1, end as int, ici as int) =~= accr + (Seq::<Seq<char>>::empty() + rest_parts(ls, k + 1, end as int, ici as int)));
                        }
                    }
                    k = k + 1;
                }
                proof {
                    assert(rest_parts(ls, k as int, end as int, ici as int) == Seq::<Seq<char>>::empty());
                    assert(accr + Seq::<Seq<char>>::empty() =~= accr);
                }
                Self::parse_item_content(joined.as_str(), float_text)?
            };
            let ghost old_texts = texts;
            let ghost prev_items = items@;
            items.push(parsed);
            proof {
                texts = texts.push(text);
                assert forall|q: int| 0 <= q < texts.len() implies loads_item(*float_text, texts[q], #[trigger] items@[q]) by {
                    if q < old_texts.len() { assert(items@[q] == prev_items[q]); }
                }
            }
            let next: usize = match ns {
                Some(x) => x,
                None => end + 1,
            };
            let next = if next > n { n } else { next };
            proof {
                assert(sequence_walk(ls, i as int) == match sequence_walk(ls, next as int) {
                    Ok(rest) => Ok::<Seq<Seq<char>>, int>(seq![text] + rest),
                    Err(k) => Err::<Seq<Seq<char>>, int>(k),
                });
                match sequence_walk(ls, next as int) {
                    Ok(rest) => {
                        assert(old_texts + (seq![text] + rest) =~= texts + rest);
                    },
                    Err(k) => {},
                }
            }
            i = next;
        }
        if items.len() == 0 {
            Ok(None)
        } else {
            Ok(Some(Yaml::Array(items)))
        }
    }

    /// The pieces of `v` between occurrences of `c` (`split_on`).
    fn split_chars(v: &[char], c: char) -> (r: Vec<Vec<char>>)
        ensures
            r@.len() == split_on(v@, c).len(),
            forall|j: int| 0 <= j < r@.len() ==> (#[trigger] r@[j])@ == split_on(v@, c)[j],
    {
        let mut r: Vec<Vec<char>> = Vec::new();
        let mut start: usize = 0;
        let n = v.len();
        assert(v@.skip(0) =~= v@);
        loop
            invariant
                n == v@.len(),
                start <= n,
                split_on(v@, c) == r@.map_values(|x: Vec<char>| x@) + split_on(v@.skip(start as int), c),
            decreases n - start,
        {
            let k = find_char_from(v, start, c);
            let ghost t = v@.skip(start as int);
            proof { crate::text::lemma_find_char(t, c); }
            let piece = slice_chars(v, start, k);
            proof { assert(piece@ =~= t.take(k - start)); }
            let ghost r0 = r@;
            r.push(piece);
            proof {
                assert(r@.map_values(|x: Vec<char>| x@) =~= r0.map_values(|x: Vec<char>| x@).push(piece@));
            }
            if k >= n {
                proof {
                    assert(split_on(t, c) == seq![t]);
                    assert(t =~= piece@);
                    assert(split_on(v@, c) =~= r@.map_values(|x: Vec<char>| x@));
                    assert forall|j: int| 0 <= j < r@.len() implies (#[trigger] r@[j])@ == split_on(v@, c)[j] by {
                        assert(r@.map_values(|x: Vec<char>| x@)[j] == r@[j]@);
                    }
                }
                return r;
            }
            proof {
                assert(t.skip(k - start + 1) =~= v@.skip(k + 1));
                assert(split_on(t, c) == seq![t.take(k - start)] + split_on(v@.skip(k + 1), c));
                assert(r0.map_values(|x: Vec<char>| x@) + (seq![piece@] + split_on(v@.skip(k + 1), c))
                    =~= r@.map_values(|x: Vec<char>| x@) + split_on(v@.skip(k + 1), c));
            }
            start = k + 1;
        }
    }

    /// The fast path: `Some` value for a simple document (empty, a scalar, a block sequence
    /// of simple entries, a flat block mapping, a one-line pair, a one-line flow sequence or
    /// single-pair flow mapping),
    /// `None` where the state machine must read it.
    pub fn try_fast_parse<F: Fn(&str) -> Option<String>>(s: &str, float_text: &F) -> (r: Result<Option<Yaml>, ScanError>)
        requires
            reads_any(*float_text),
            s@.len() + 2 < usize::MAX,
        ensures
            fast_outcome(*float_text, s@, r),
    {
        let tr = str_trim(s);
        let tv0 = str_to_chars(tr.as_str());
        let tv = if tv0.len() > 0 && tv0[0] == '\u{feff}' { slice_chars(tv0.as_slice(), 1, tv0.len()) } else { tv0 };
        proof {
            if tv0@.len() > 0 && tv0@[0] == '\u{feff}' { assert(tv@ =~= tv0@.drop_first()); }
            crate::text::lemma_trim_len(s@);
        }
        let t = tv.as_slice();
        let ghost ts = t@;
        assert(ts == fast_text(s@));
        let n = t.len();
        if n == 0 {
            return Ok(Some(Yaml::Null));
        }
        proof {
            reveal_strlit("- ");
            if has_prefix(ts, "- "@) {
                assert(ts.take(2)[0] == ts[0]);
                assert(ts.contains('-'));
            }
        }
        let has_colon = has_char(t, ':');
        if !has_colon && !has_char(t, '-') && !has_char(t, '[') && !has_char(t, '{') && !has_char(t, '|') && !has_char(t, '>') {
            let text = chars_to_string(t);
            return Ok(Some(YamlLoader::parse_scalar_direct(text.as_str(), float_text)));
        }
        let lines = split_lines(t);
        proof {
            let ls = lines_spec(ts);
            assert(lines@.map_values(|l: Vec<char>| l@) =~= ls);
        }
        if Self::any_directive_line(&lines) {
            return Ok(None);
        }
        if Self::document_markers_ahead(t) {
            return Ok(None);
        }
        if has_colon && Self::any_property_line(&lines) {
            return Ok(None);
        }
        if has_colon && lines.len() > 1 {
            if Self::any_explicit_key_line(&lines) {
                return Ok(None);
            }
            if has_char(t, '[') || has_char(t, ']') || has_char(t, '{') || has_char(t, '}') {
                return Ok(None);
            }
            if Self::indentation_changes(&lines) {
                return Ok(None);
            }
        }
        proof { assert(!needs_full_parser(ts)); }
        if starts_with_str(t, "- ") {
            if Self::is_valid_block_sequence(t) {
                return Self::try_parse_block_sequence(t, float_text);
            } else {
                return Ok(None);
            }
        }
        if has_colon && lines.len() > 1 && !starts_with_str(t, "- ") {
            return Ok(Self::try_parse_block_mapping(t, float_text));
        }
        if has_colon && lines.len() == 1 {
            let c = find_char_between(t, 0, n, ':');
            proof {
                assert(t@.subrange(0, n as int) =~= t@);
                crate::text::lemma_find_char(t@, ':');
                crate::text::lemma_find_contains(t@, ':');
            }
            let head = slice_chars(t, 0, c);
            let after = slice_chars(t, c + 1, n);
            proof {
                assert(head@ =~= t@.take(c as int));
                assert(after@ =~= t@.skip(c + 1));
            }
            let key_part = trim_chars(head.as_slice());
            let value_part = trim_chars(after.as_slice());
            let kp = key_part.as_slice();
            let vp = value_part.as_slice();
            if kp.len() > 0 && !has_char(kp, '[') && !has_char(kp, '{') && !has_char(vp, '[') && !has_char(vp, '{')
                && !has_char(vp, ':') && !has_char(kp, '&') && !has_char(kp, '*') && !has_char(vp, '&') && !has_char(vp, '*')
            {
                let mut hash: LinkedHashMap<Yaml, Yaml> = LinkedHashMap::new();
                let key = Yaml::String(chars_to_string(kp));
                let value = if vp.len() == 0 {
                    Yaml::Null
                } else {
                    let vt = chars_to_string(vp);
                    YamlLoader::parse_scalar_direct(vt.as_str(), float_text)
                };
                proof {
                    crate::parser::loader::lemma_yaml_insert(hash.entries(), key, value);
                    crate::parser::loader::lemma_yaml_find(hash.entries(), key);
                }
                hash.insert(key, value);
                return Ok(Some(Yaml::Hash(hash)));
            }
        }
        if t[0] == '[' && t[n - 1] == ']' && lines.len() == 1 {
            let mid = slice_chars(t, 1, n - 1);
            let inner = trim_chars(mid.as_slice());
            if inner.len() == 0 {
                return Ok(Some(Yaml::Array(Vec::new())));
            }
            let pieces = Self::split_chars(inner.as_slice(), ',');
            let mut items: Vec<Yaml> = Vec::new();
            let mut j: usize = 0;
            while j < pieces.len()
                invariant
                    reads_any(*float_text),
                    j <= pieces@.len(),
                    items@.len() == j,
                    pieces@.len() == split_on(inner@, ',').len(),
                    forall|q: int| 0 <= q < pieces@.len() ==> (#[trigger] pieces@[q])@ == split_on(inner@, ',')[q],
                    forall|q: int| 0 <= q < j ==> loads_scalar(*float_text, trim_spec(split_on(inner@, ',')[q]), #[trigger] items@[q]),
                decreases pieces@.len() - j,
            {
                let p = trim_chars(pieces[j].as_slice());
                let pt = chars_to_string(p.as_slice());
                let y = YamlLoader::parse_scalar_direct(pt.as_str(), float_text);
                proof { crate::text::lemma_trim_idempotent(pieces@[j as int]@); }
                let ghost prev = items@;
                items.push(y);
                proof {
                    assert forall|q: int| 0 <= q < j + 1 implies loads_scalar(*float_text, trim_spec(split_on(inner@, ',')[q]), #[trigger] items@[q]) by {
                        if q < j { assert(items@[q] == prev[q]); }
                    }
                }
                j = j + 1;
            }
            return Ok(Some(Yaml::Array(items)));
        }
        if t[0] == '{' && t[n - 1] == '}' && lines.len() == 1 {
            let mid = slice_chars(t, 1, n - 1);
            let inner = trim_chars(mid.as_slice());
            let iv = inner.as_slice();
            if iv.len() == 0 {
                return Ok(Some(Yaml::Hash(LinkedHashMap::new())));
            }
            if has_char(iv, ',') {
                return Ok(None);
            }
            let c = find_char_between(iv, 0, iv.len(), ':');
            proof {
                assert(iv@.subrange(0, iv@.len() as int) =~= iv@);
                crate::text::lemma_find_char(iv@, ':');
                crate::text::lemma_find_contains(iv@, ':');
            }
            if c < iv.len() {
                let head = slice_chars(iv, 0, c);
                let after = slice_chars(iv, c + 1, iv.len());
                proof {
                    assert(head@ =~= iv@.take(c as int));
                    assert(after@ =~= iv@.skip(c + 1));
                }
                let key_str = trim_chars(head.as_slice());
                let value_str = trim_chars(after.as_slice());
                if key_str.len() > 0 && value_str.len() > 0 {
                    let mut hash: LinkedHashMap<Yaml, Yaml> = LinkedHashMap::new();
                    let key = Yaml::String(chars_to_string(key_str.as_slice()));
                    let vt = chars_to_string(value_str.as_slice());
                    let value = YamlLoader::parse_scalar_direct(vt.as_str(), float_text);
                    proof {
                        crate::parser::loader::lemma_yaml_insert(hash.entries(), key, value);
                        crate::parser::loader::lemma_yaml_find(hash.entries(), key);
                    }
                    hash.insert(key, value);
                    return Ok(Some(Yaml::Hash(hash)));
                }
            }
        }
        Ok(None)
    }
}

} // verus!
