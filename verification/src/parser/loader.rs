//! Loading YAML text into `Yaml` values: a fast path for simple documents, the resolution
//! of plain scalars, and the receiver that builds values from parser events.
use vstd::prelude::*;
use crate::error::{Marker, ScanError};
use crate::linked_hash_map::LinkedHashMap;
use crate::text::{decimal_value, is_ws, trim_spec, str_to_chars, str_trim, substring, chars_to_string,
    trim_start_index, trim_end_index};
use crate::events::{Event, EventReceiver, TScalarStyle, TokenType};
use crate::linked_hash_map::{find_key, insert_spec, MapKey};
use crate::yaml::{Yaml, yaml_eq, yaml_find, yaml_insert, deep_copy};
use crate::parser::state_machine::{State, StateMachine, run_error, fresh_machine};
use std::collections::HashMap;
use vstd::std_specs::cmp::PartialEqSpec;

verus! {

broadcast use vstd::std_specs::hash::group_hash_axioms;

/// The loader: text in, YAML documents out.
pub struct YamlLoader;

/// The code of `c` with ASCII upper case mapped to lower case.
pub open spec fn ascii_lower(c: char) -> int {
    let k = c as u32;
    if 65 <= k <= 90 { k + 32 } else { k as int }
}

/// `t` equals the lower-case word `w` when case is ignored.
pub open spec fn lower_eq(t: Seq<char>, w: Seq<char>) -> bool {
    t.len() == w.len() && forall|i: int| 0 <= i < t.len() ==> ascii_lower(#[trigger] t[i]) == w[i] as u32
}

/// The texts that load as null.
pub open spec fn null_text(t: Seq<char>) -> bool {
    t.len() == 0 || t == "null"@ || t == "~"@
}

/// Text between a matching pair of double or single quotes.
pub open spec fn quoted_text(t: Seq<char>) -> bool {
    t.len() >= 2 && ((t[0] == '"' && t.last() == '"') || (t[0] == '\'' && t.last() == '\''))
}

/// The boolean a word spells, in any case: true, yes and on; false, no and off.
pub open spec fn bool_word(t: Seq<char>) -> Option<bool> {
    if lower_eq(t, "true"@) || lower_eq(t, "yes"@) || lower_eq(t, "on"@) {
        Some(true)
    } else if lower_eq(t, "false"@) || lower_eq(t, "no"@) || lower_eq(t, "off"@) {
        Some(false)
    } else {
        None
    }
}

/// All characters are ASCII digits.
pub open spec fn all_digits(t: Seq<char>) -> bool {
    forall|i: int| 0 <= i < t.len() ==> '0' <= #[trigger] t[i] <= '9'
}

/// The `i64` that `str::parse::<i64>` reads: an optional sign and at least one digit,
/// within range.
pub open spec fn i64_reading(t: Seq<char>) -> Option<i64> {
    let signed = t.len() > 0 && (t[0] == '+' || t[0] == '-');
    let digits = if signed { t.drop_first() } else { t };
    let v: int = if signed && t[0] == '-' { -(decimal_value(digits) as int) } else { decimal_value(digits) as int };
    if digits.len() > 0 && all_digits(digits) && i64::MIN <= v <= i64::MAX {
        Some(v as i64)
    } else {
        None
    }
}

/// A scalar that is none of null, quoted, boolean or integer: only then is a float reading
/// asked for.
pub open spec fn needs_float(t: Seq<char>) -> bool {
    !null_text(t) && !quoted_text(t) && bool_word(t) is None && i64_reading(t) is None
}

/// What a trimmed scalar text `t` loads as, given the float reading `fr` of the text:
/// null, a quoted string without its quotes, a boolean, an integer, a float's text, the
/// special floats, or else the text itself as a string.
pub open spec fn resolves(t: Seq<char>, fr: Option<String>, y: Yaml) -> bool {
    if null_text(t) {
        y == Yaml::Null
    } else if quoted_text(t) {
        y matches Yaml::String(x) && x@ == t.subrange(1, t.len() - 1)
    } else if bool_word(t) is Some {
        y == Yaml::Boolean(bool_word(t)->0)
    } else if i64_reading(t) is Some {
        y == Yaml::Integer(i64_reading(t)->0)
    } else if fr is Some {
        y == Yaml::Real(fr->0)
    } else if lower_eq(t, ".inf"@) || lower_eq(t, "+.inf"@) {
        y matches Yaml::Real(x) && x@ == "+.inf"@
    } else if lower_eq(t, "-.inf"@) {
        y matches Yaml::Real(x) && x@ == "-.inf"@
    } else if lower_eq(t, ".nan"@) {
        y matches Yaml::Real(x) && x@ == ".nan"@
    } else {
        y matches Yaml::String(x) && x@ == t
    }
}

/// `fr` is a reading that the float reader gave for text with the characters `t`.
pub open spec fn float_reading<F: Fn(&str) -> Option<String>>(f: F, t: Seq<char>, fr: Option<String>) -> bool {
    exists|a: &str| a@ == t && f.ensures((a,), fr)
}

/// The float reader can be asked about any text.
pub open spec fn reads_any<F: Fn(&str) -> Option<String>>(f: F) -> bool {
    forall|a: &str| f.requires((a,))
}

/// A scalar text `s` loads as `y` once trimmed, for some reading the float reader gave.
pub open spec fn loads_scalar<F: Fn(&str) -> Option<String>>(f: F, s: Seq<char>, y: Yaml) -> bool {
    exists|fr: Option<String>| resolves(trim_spec(s), fr, y)
        && (needs_float(trim_spec(s)) ==> float_reading(f, trim_spec(s), fr))
}

/// Whether `v` equals the lower-case word `w` when ASCII case is ignored.
pub fn eq_ignore_ascii_case(v: &[char], w: &str) -> (b: bool)
    ensures
        b == lower_eq(v@, w@),
{
    let wv = str_to_chars(w);
    if v.len() != wv.len() {
        return false;
    }
    let mut i: usize = 0;
    while i < v.len()
        invariant
            wv@ == w@,
            v@.len() == wv@.len(),
            i <= v@.len(),
            forall|j: int| 0 <= j < i ==> ascii_lower(#[trigger] v@[j]) == wv@[j] as u32,
        decreases v@.len() - i,
    {
        let c = v[i] as u32;
        let l: u32 = if 65 <= c && c <= 90 { c + 32 } else { c };
        if l != wv[i] as u32 {
            return false;
        }
        i = i + 1;
    }
    true
}

/// The boolean a word spells, in any case (`bool_word`).
pub fn parse_bool_word(v: &[char]) -> (r: Option<bool>)
    ensures
        r == bool_word(v@),
{
    if eq_ignore_ascii_case(v, "true") || eq_ignore_ascii_case(v, "yes") || eq_ignore_ascii_case(v, "on") {
        Some(true)
    } else if eq_ignore_ascii_case(v, "false") || eq_ignore_ascii_case(v, "no") || eq_ignore_ascii_case(v, "off") {
        Some(false)
    } else {
        None
    }
}

/// `str::parse::<i64>`: an optional sign and one or more digits whose value fits.
pub fn parse_i64(v: &[char]) -> (r: Option<i64>)
    ensures
        r == i64_reading(v@),
{
    let n = v.len();
    let mut start: usize = 0;
    let mut neg = false;
    if n > 0 && (v[0] == '+' || v[0] == '-') {
        start = 1;
        neg = v[0] == '-';
    }
    let ghost t = v@;
    let ghost digits = if start == 1 { t.drop_first() } else { t };
    proof { assert(digits =~= t.subrange(start as int, n as int)); }
    if start >= n {
        return None;
    }
    let mut acc: u64 = 0;
    let mut i = start;
    while i < n
        invariant
            t == v@,
            n == v@.len(),
            start <= i <= n,
            digits == t.subrange(start as int, n as int),
            digits == (if t.len() > 0 && (t[0] == '+' || t[0] == '-') { t.drop_first() } else { t }),
            neg == (t.len() > 0 && t[0] == '-'),
            forall|j: int| start <= j < i ==> '0' <= #[trigger] t[j] <= '9',
            acc == decimal_value(t.subrange(start as int, i as int)),
            acc <= 0x8000_0000_0000_0000u64,
        decreases n - i,
    {
        let c = v[i];
        if c < '0' || c > '9' {
            proof {
                assert(digits[i - start] == v@[i as int]);
                assert(!all_digits(digits));
                assert(i64_reading(t) is None);
            }
            return None;
        }
        let d = ((c as u32) - ('0' as u32)) as u64;
        proof {
            assert(t.subrange(start as int, i + 1).drop_last() =~= t.subrange(start as int, i as int));
        }
        let next: u128 = (acc as u128) * 10 + (d as u128);
        if next > 0x8000_0000_0000_0000u128 {
            proof {
                if all_digits(digits) {
                    crate::text::lemma_decimal_value_mono(digits, (i + 1 - start) as int);
                    assert(digits.take((i + 1 - start) as int) =~= t.subrange(start as int, i + 1));
                    assert(decimal_value(t.subrange(start as int, i + 1)) == next);
                    assert(decimal_value(digits) > 0x8000_0000_0000_0000);
                }
                assert(i64_reading(t) is None);
            }
            return None;
        }
        acc = next as u64;
        i = i + 1;
    }
    proof {
        assert(t.subrange(start as int, n as int) =~= digits);
        assert(all_digits(digits));
    }
    if neg {
        if acc == 0x8000_0000_0000_0000u64 {
            Some(i64::MIN)
        } else {
            Some(-(acc as i64))
        }
    } else {
        if acc > 0x7FFF_FFFF_FFFF_FFFFu64 {
            None
        } else {
            Some(acc as i64)
        }
    }
}

impl YamlLoader {
    /// Resolve a scalar's text, trimmed: null, a quoted string without its quotes, a
    /// boolean word, an `i64`, a float as the reader renders it, the special floats, or else
    /// the text as a string.
    pub fn parse_scalar_direct<F: Fn(&str) -> Option<String>>(s: &str, float_text: &F) -> (y: Yaml)
        requires
            reads_any(*float_text),
        ensures
            loads_scalar(*float_text, s@, y),
    {
        let trimmed = str_trim(s);
        let ghost t = trim_spec(s@);
        let tv = str_to_chars(trimmed.as_str());
        let n = tv.len();
        if n == 0 || crate::text::str_eq(trimmed.as_str(), "null") || crate::text::str_eq(trimmed.as_str(), "~") {
            proof { assert(resolves(t, None, Yaml::Null)); }
            return Yaml::Null;
        }
        if n >= 2 && ((tv[0] == '"' && tv[n - 1] == '"') || (tv[0] == '\'' && tv[n - 1] == '\'')) {
            let inner = substring(tv.as_slice(), 1, n - 1);
            let y = Yaml::String(inner);
            proof { assert(resolves(t, None, y)); }
            return y;
        }
        if let Some(b) = parse_bool_word(tv.as_slice()) {
            proof { assert(resolves(t, None, Yaml::Boolean(b))); }
            return Yaml::Boolean(b);
        }
        if let Some(i) = parse_i64(tv.as_slice()) {
            proof { assert(resolves(t, None, Yaml::Integer(i))); }
            return Yaml::Integer(i);
        }
        let ts = trimmed.as_str();
        let fr = float_text(ts);
        proof {
            assert(ts@ == t);
            assert(float_reading(*float_text, t, fr));
        }
        let y = match fr {
            Some(x) => Yaml::Real(x),
            None => {
                if eq_ignore_ascii_case(tv.as_slice(), ".inf") || eq_ignore_ascii_case(tv.as_slice(), "+.inf") {
                    Yaml::Real("+.inf".to_owned())
                } else if eq_ignore_ascii_case(tv.as_slice(), "-.inf") {
                    Yaml::Real("-.inf".to_owned())
                } else if eq_ignore_ascii_case(tv.as_slice(), ".nan") {
                    Yaml::Real(".nan".to_owned())
                } else {
                    Yaml::String(trimmed)
                }
            },
        };
        proof { assert(resolves(t, fr, y)); }
        y
    }
}

/// What `yaml_find` returns: the first index with an equal key, or none when no key is
/// equal.
pub proof fn lemma_yaml_find(s: Seq<(Yaml, Yaml)>, k: Yaml)
    ensures
        yaml_find(s, k) matches Some(i) ==> 0 <= i < s.len() && yaml_eq(s[i].0, k)
            && forall|j: int| 0 <= j < i ==> !yaml_eq((#[trigger] s[j]).0, k),
        yaml_find(s, k) is None ==> forall|j: int| 0 <= j < s.len() ==> !yaml_eq((#[trigger] s[j]).0, k),
{
    if exists|i: int| 0 <= i < s.len() && yaml_eq((#[trigger] s[i]).0, k) {
        let w = choose|i: int| 0 <= i < s.len() && yaml_eq((#[trigger] s[i]).0, k);
        lemma_yaml_first_witness(s, k, w);
    }
}

proof fn lemma_yaml_first_witness(s: Seq<(Yaml, Yaml)>, k: Yaml, w: int)
    requires
        0 <= w < s.len(),
        yaml_eq(s[w].0, k),
    ensures
        exists|i: int| 0 <= i < s.len() && yaml_eq((#[trigger] s[i]).0, k)
            && forall|j: int| 0 <= j < i ==> !yaml_eq((#[trigger] s[j]).0, k),
    decreases w,
{
    if exists|j: int| 0 <= j < w && yaml_eq((#[trigger] s[j]).0, k) {
        let j = choose|j: int| 0 <= j < w && yaml_eq((#[trigger] s[j]).0, k);
        lemma_yaml_first_witness(s, k, j);
    } else {
        assert(0 <= w < s.len() && yaml_eq(s[w].0, k) && forall|j: int| 0 <= j < w ==> !yaml_eq((#[trigger] s[j]).0, k));
    }
}

/// Inserting into a mapping of YAML values by `==` is inserting by YAML equality.
pub proof fn lemma_yaml_insert(s: Seq<(Yaml, Yaml)>, k: Yaml, v: Yaml)
    ensures
        insert_spec(s, k, v) == yaml_insert(s, k, v),
{
    lemma_find_key_is_yaml_find(s, k);
}

/// The node a scalar event builds: a non-plain scalar as a string; under a `!!` tag a
/// boolean, integer, float text or null checked against the text (else a bad value), a
/// string for other core tags; under any other tag the resolved scalar wrapped with the
/// tag's name; untagged, the resolved scalar.
pub open spec fn scalar_event_node<F: Fn(&str) -> Option<String>>(f: F, s: Seq<char>, style: TScalarStyle,
    tag: Option<TokenType>, y: Yaml) -> bool
{
    if style != TScalarStyle::Plain {
        y matches Yaml::String(x) && x@ == s
    } else {
        match tag {
            Some(TokenType::Tag(h, suffix)) => {
                if h@ == "!!"@ {
                    if suffix@ == "bool"@ {
                        y == (if s == "true"@ { Yaml::Boolean(true) } else if s == "false"@ { Yaml::Boolean(false) } else { Yaml::BadValue })
                    } else if suffix@ == "int"@ {
                        y == (match i64_reading(s) { Some(i) => Yaml::Integer(i), None => Yaml::BadValue })
                    } else if suffix@ == "float"@ {
                        (y matches Yaml::Real(x) && x@ == s && exists|r: String| float_reading(f, s, Some(r)))
                            || (y == Yaml::BadValue && float_reading(f, s, None))
                    } else if suffix@ == "null"@ {
                        y == (if s == "~"@ || s == "null"@ { Yaml::Null } else { Yaml::BadValue })
                    } else {
                        y matches Yaml::String(x) && x@ == s
                    }
                } else {
                    y matches Yaml::Tagged(name, inner) && name@ == (if h@.len() == 0 { suffix@ } else { h@ + suffix@ })
                        && loads_scalar(f, s, *inner)
                }
            },
            _ => loads_scalar(f, s, y),
        }
    }
}

/// The builder stacks after a finished node is placed: it becomes the document root when
/// nothing is open, is appended to an open sequence, becomes the waiting key of an open
/// mapping (when the key slot holds the bad-value placeholder) or else is inserted under
/// that key (the slot then holding the placeholder again); other tops are left alone.
pub open spec fn node_placed(st: Seq<(Yaml, usize)>, keys: Seq<Yaml>, node: Yaml,
    st2: Seq<(Yaml, usize)>, keys2: Seq<Yaml>) -> bool
{
    if st.len() == 0 {
        st2 == seq![(node, 0usize)] && keys2 == keys
    } else {
        &&& st2.len() == st.len()
        &&& st2.drop_last() == st.drop_last()
        &&& st2.last().1 == st.last().1
        &&& match st.last().0 {
            Yaml::Array(arr) => keys2 == keys && (st2.last().0 matches Yaml::Array(arr2) && arr2@ == arr@.push(node)),
            Yaml::Hash(h) => if keys.len() == 0 {
                st2 == st && keys2 == keys
            } else if keys.last() is BadValue {
                st2 == st && keys2 == keys.drop_last().push(node)
            } else {
                keys2 == keys.drop_last().push(Yaml::BadValue)
                    && (st2.last().0 matches Yaml::Hash(h2) && h2.entries() == yaml_insert(h.entries(), keys.last(), node))
            },
            _ => st2 == st && keys2 == keys,
        }
    }
}

/// The value an alias to `id` gives, with `count` aliases resolved so far, the anchors
/// being resolved and the anchored values: null past a thousand aliases, for an anchor
/// being resolved or for an unknown one, else a copy of the anchored value.
pub open spec fn alias_node(count: usize, resolving: Seq<usize>, anchors: Map<usize, Yaml>, id: usize, y: Yaml) -> bool {
    let c = if count < usize::MAX { count + 1 } else { count as int };
    if c > 1000 || resolving.contains(id) || !anchors.contains_key(id) {
        y == Yaml::Null
    } else {
        yaml_eq(y, anchors[id])
    }
}

/// The anchors after placing `node` with anchor id `aid`: a copy of it bound to `aid`
/// when `aid` is not zero, else the anchors as they were.
pub open spec fn anchor_recorded(anchors: Map<usize, Yaml>, node: Yaml, aid: usize, anchors2: Map<usize, Yaml>) -> bool {
    if aid > 0 {
        exists|c: Yaml| yaml_eq(c, node) && anchors2 == anchors.insert(aid, c)
    } else {
        anchors2 == anchors
    }
}

/// An alias gives back what its anchor recorded: once a node is placed with an anchor id
/// other than zero, an alias to that id, within the limit of aliases and while that anchor
/// is not being resolved, gives a value equal to the node; the other anchors keep their
/// values.
pub proof fn lemma_alias_reads_anchor(anchors: Map<usize, Yaml>, node: Yaml, aid: usize, anchors2: Map<usize, Yaml>,
    count: usize, resolving: Seq<usize>, y: Yaml, other: usize)
    requires
        aid > 0,
        anchor_recorded(anchors, node, aid, anchors2),
        count < 1000,
        !resolving.contains(aid),
        alias_node(count, resolving, anchors2, aid, y),
    ensures
        yaml_eq(y, node),
        other != aid ==> anchors2.contains_key(other) == anchors.contains_key(other),
        other != aid && anchors.contains_key(other) ==> anchors2[other] == anchors[other],
{
    let c = choose|c: Yaml| yaml_eq(c, node) && anchors2 == anchors.insert(aid, c);
    assert(anchors2.contains_key(aid) && anchors2[aid] == c);
    crate::yaml::lemma_yaml_eq_transitive(y, c, node);
}

/// `e` is an error that a run of the state machine over `s` ended with (`run_error`).
pub open spec fn machine_error<F: Fn(&str) -> Option<String>>(s: Seq<char>, e: ScanError) -> bool {
    exists|m: StateMachine<F>| m.scanner.spec_state().spec_source() == s && #[trigger] run_error(&m, e)
}

/// A scalar event that is not plain, received as a document's only node, is the node
/// that the document's end then finishes: the scalar's text as a string, neither typed
/// nor tagged, whatever tag the event carried.
pub proof fn lemma_non_plain_scalar_document<F: Fn(&str) -> Option<String>>(f: F, s: Seq<char>, style: TScalarStyle,
    tag: Option<TokenType>, y: Yaml, keys: Seq<Yaml>, st1: Seq<(Yaml, usize)>, keys1: Seq<Yaml>)
    requires
        style != TScalarStyle::Plain,
        scalar_event_node(f, s, style, tag, y),
        node_placed(Seq::empty(), keys, y, st1, keys1),
    ensures
        st1.len() == 1,
        st1[0].0 matches Yaml::String(x) && x@ == s,
{
}

/// `m` is a machine over `s` whose last run, from a fresh machine to its end, returned `y`.
pub open spec fn finished_run<F: Fn(&str) -> Option<String>>(m: &StateMachine<F>, s: Seq<char>, y: Yaml) -> bool {
    &&& m.scanner.spec_state().spec_source() == s
    &&& m.state == State::End
    &&& m.spec_ran_from_start()
    &&& m.run.value() == y
}

/// `y` is the document that `parse` returned for a run of a fresh state machine over `s`
/// (which, by `parse`'s contract, is the value of the builder that run finished).
pub open spec fn machine_document<F: Fn(&str) -> Option<String>>(s: Seq<char>, y: Yaml) -> bool {
    exists|m: StateMachine<F>| #[trigger] finished_run(&m, s, y)
}

/// A float reader that can be asked about any text.
pub struct FloatReader<F: Fn(&str) -> Option<String>> {
    f: F,
}

impl<F: Fn(&str) -> Option<String>> FloatReader<F> {
    #[verifier::type_invariant]
    spec fn callable(self) -> bool {
        reads_any(self.f)
    }

    pub closed spec fn spec_f(&self) -> F {
        self.f
    }

    /// Wrap a reader that can be asked about any text.
    pub fn new(f: F) -> (r: Self)
        requires
            reads_any(f),
        ensures
            r.spec_f() == f,
    {
        FloatReader { f }
    }

    /// The reader's answer for `s`.
    pub fn read(&self, s: &str) -> (r: Option<String>)
        ensures
            float_reading(self.spec_f(), s@, r),
    {
        proof { use_type_invariant(self); }
        (self.f)(s)
    }

    /// The scalar `s` resolves to with this reader (`loads_scalar`).
    pub fn resolve(&self, s: &str) -> (y: Yaml)
        ensures
            loads_scalar(self.spec_f(), s@, y),
    {
        proof { use_type_invariant(self); }
        YamlLoader::parse_scalar_direct(s, &self.f)
    }
}

/// The receiver that builds `Yaml` documents from parser events.
pub struct YamlReceiver<F: Fn(&str) -> Option<String>> {
    docs: Vec<Yaml>,
    doc_stack: Vec<(Yaml, usize)>,
    key_stack: Vec<Yaml>,
    anchors: HashMap<usize, Yaml>,
    resolution_stack: Vec<usize>,
    alias_count: usize,
    float_text: FloatReader<F>,
}

impl<F: Fn(&str) -> Option<String>> YamlReceiver<F> {
    pub closed spec fn spec_docs(&self) -> Seq<Yaml> {
        self.docs@
    }

    pub closed spec fn spec_stack(&self) -> Seq<(Yaml, usize)> {
        self.doc_stack@
    }

    pub closed spec fn spec_keys(&self) -> Seq<Yaml> {
        self.key_stack@
    }

    pub closed spec fn spec_anchors(&self) -> Map<usize, Yaml> {
        self.anchors@
    }

    pub closed spec fn spec_alias_count(&self) -> usize {
        self.alias_count
    }

    pub closed spec fn spec_resolving(&self) -> Seq<usize> {
        self.resolution_stack@
    }

    pub closed spec fn spec_float(&self) -> F {
        self.float_text.spec_f()
    }

    /// An empty receiver with the given float reader.
    pub fn new(float_text: F) -> (r: Self)
        requires
            reads_any(float_text),
        ensures
            r.spec_docs().len() == 0,
            r.spec_stack().len() == 0,
            r.spec_keys().len() == 0,
            r.spec_anchors() == Map::<usize, Yaml>::empty(),
            r.spec_resolving().len() == 0,
            r.spec_alias_count() == 0,
            r.spec_float() == float_text,
    {
        YamlReceiver {
            docs: Vec::with_capacity(1),
            doc_stack: Vec::with_capacity(8),
            key_stack: Vec::with_capacity(8),
            anchors: HashMap::with_capacity(16),
            resolution_stack: Vec::with_capacity(8),
            alias_count: 0,
            float_text: FloatReader::new(float_text),
        }
    }

    /// The documents built so far.
    pub fn docs(&self) -> (d: &Vec<Yaml>)
        ensures
            d@ == self.spec_docs(),
    {
        &self.docs
    }

    /// Place a finished node (see `node_placed`); a node with an anchor id is remembered
    /// under it.
    fn insert_new_node(&mut self, pair: (Yaml, usize))
        ensures
            node_placed(old(self).spec_stack(), old(self).spec_keys(), pair.0, final(self).spec_stack(), final(self).spec_keys()),
            pair.1 > 0 ==> exists|c: Yaml| yaml_eq(c, pair.0) && final(self).spec_anchors() == old(self).spec_anchors().insert(pair.1, c),
            pair.1 == 0 ==> final(self).spec_anchors() == old(self).spec_anchors(),
            final(self).spec_docs() == old(self).spec_docs(),
            final(self).spec_alias_count() == old(self).spec_alias_count(),
            final(self).spec_resolving() == old(self).spec_resolving(),
            final(self).spec_float() == old(self).spec_float(),
    {
        let (node, aid) = pair;
        if aid > 0 {
            let c = deep_copy(&node);
            self.anchors.insert(aid, c);
        }
        let n = self.doc_stack.len();
        if n == 0 {
            self.doc_stack.push((node, 0));
            assert(self.doc_stack@ =~= seq![(node, 0usize)]);
        } else {
            let (top, top_aid) = self.doc_stack.pop().unwrap();
            let ghost st = old(self).doc_stack@;
            let ghost keys = old(self).key_stack@;
            match top {
                Yaml::Array(mut arr) => {
                    arr.push(node);
                    self.doc_stack.push((Yaml::Array(arr), top_aid));
                },
                Yaml::Hash(mut h) => {
                    let kn = self.key_stack.len();
                    if kn == 0 {
                        self.doc_stack.push((Yaml::Hash(h), top_aid));
                    } else {
                        let cur_key = self.key_stack.pop().unwrap();
                        if cur_key.is_badvalue() {
                            self.key_stack.push(node);
                        } else {
                            proof { lemma_yaml_insert(h.entries(), cur_key, node); }
                            h.insert(cur_key, node);
                            self.key_stack.push(Yaml::BadValue);
                        }
                        self.doc_stack.push((Yaml::Hash(h), top_aid));
                        proof {
                            assert(keys =~= keys.drop_last().push(keys.last()));
                        }
                    }
                },
                other => {
                    self.doc_stack.push((other, top_aid));
                },
            }
            proof {
                assert(st =~= st.drop_last().push(st.last()));
                assert(self.doc_stack@.drop_last() =~= st.drop_last());
            }
        }
    }

    /// The value behind an alias: a copy of the anchored node, or null past a thousand
    /// aliases, for an alias being resolved, or for an unknown anchor.
    fn resolve_alias(&mut self, id: usize) -> (y: Yaml)
        ensures
            final(self).spec_alias_count() == if old(self).spec_alias_count() < usize::MAX {
                (old(self).spec_alias_count() + 1) as usize } else { old(self).spec_alias_count() },
            final(self).spec_alias_count() > 1000 ==> y == Yaml::Null,
            final(self).spec_alias_count() <= 1000 && old(self).spec_resolving().contains(id) ==> y == Yaml::Null,
            final(self).spec_alias_count() <= 1000 && !old(self).spec_resolving().contains(id) ==>
                (if old(self).spec_anchors().contains_key(id) { yaml_eq(y, old(self).spec_anchors()[id]) } else { y == Yaml::Null }),
            final(self).spec_docs() == old(self).spec_docs(),
            final(self).spec_stack() == old(self).spec_stack(),
            final(self).spec_keys() == old(self).spec_keys(),
            final(self).spec_anchors() == old(self).spec_anchors(),
            final(self).spec_resolving() == old(self).spec_resolving(),
            final(self).spec_float() == old(self).spec_float(),
    {
        if self.alias_count < usize::MAX {
            self.alias_count = self.alias_count + 1;
        }
        if self.alias_count > 1000 {
            return Yaml::Null;
        }
        let ghost pre = *self;
        let mut i: usize = 0;
        while i < self.resolution_stack.len()
            invariant
                *self == pre,
                pre.spec_alias_count() <= 1000,
                pre.spec_alias_count() == if old(self).spec_alias_count() < usize::MAX {
                    (old(self).spec_alias_count() + 1) as usize } else { old(self).spec_alias_count() },
                pre.spec_docs() == old(self).spec_docs(),
                pre.spec_stack() == old(self).spec_stack(),
                pre.spec_keys() == old(self).spec_keys(),
                pre.spec_anchors() == old(self).spec_anchors(),
                pre.spec_resolving() == old(self).spec_resolving(),
                pre.spec_float() == old(self).spec_float(),
                i <= self.resolution_stack@.len(),
                forall|j: int| 0 <= j < i ==> self.resolution_stack@[j] != id,
            decreases self.resolution_stack@.len() - i,
        {
            if self.resolution_stack[i] == id {
                return Yaml::Null;
            }
            i = i + 1;
        }
        match self.anchors.get(&id) {
            Some(node) => deep_copy(node),
            None => Yaml::Null,
        }
    }

    /// Reset alias tracking state (called between documents)
    fn reset_alias_tracking(&mut self)
        ensures
            final(self).spec_alias_count() == 0,
            final(self).spec_resolving().len() == 0,
            final(self).spec_docs() == old(self).spec_docs(),
            final(self).spec_stack() == old(self).spec_stack(),
            final(self).spec_keys() == old(self).spec_keys(),
            final(self).spec_anchors() == old(self).spec_anchors(),
            final(self).spec_float() == old(self).spec_float(),
    {
        self.resolution_stack.clear();
        self.alias_count = 0;
    }

    /// The node a scalar event builds (`scalar_event_node`).
    fn scalar_node(&self, s: String, style: TScalarStyle, tag: Option<TokenType>) -> (y: Yaml)
        ensures
            scalar_event_node(self.spec_float(), s@, style, tag, y),
    {
        if style != TScalarStyle::Plain {
            return Yaml::String(s);
        }
        match tag {
            Some(TokenType::Tag(handle, suffix)) => {
                if crate::text::str_eq(handle.as_str(), "!!") {
                    if crate::text::str_eq(suffix.as_str(), "bool") {
                        if crate::text::str_eq(s.as_str(), "true") {
                            Yaml::Boolean(true)
                        } else if crate::text::str_eq(s.as_str(), "false") {
                            Yaml::Boolean(false)
                        } else {
                            Yaml::BadValue
                        }
                    } else if crate::text::str_eq(suffix.as_str(), "int") {
                        let v = str_to_chars(s.as_str());
                        match parse_i64(v.as_slice()) {
                            Some(i) => Yaml::Integer(i),
                            None => Yaml::BadValue,
                        }
                    } else if crate::text::str_eq(suffix.as_str(), "float") {
                        let fr = self.float_text.read(s.as_str());
                        proof {
                            if fr is Some {
                                assert(float_reading(self.spec_float(), s@, Some(fr->0)));
                            }
                        }
                        match fr {
                            Some(_) => Yaml::Real(s),
                            None => Yaml::BadValue,
                        }
                    } else if crate::text::str_eq(suffix.as_str(), "null") {
                        if crate::text::str_eq(s.as_str(), "~") || crate::text::str_eq(s.as_str(), "null") {
                            Yaml::Null
                        } else {
                            Yaml::BadValue
                        }
                    } else {
                        Yaml::String(s)
                    }
                } else {
                    let tag_name = if handle.as_str().unicode_len() == 0 {
                        suffix
                    } else {
                        let mut t = handle.clone();
                        crate::text::push_str(&mut t, suffix.as_str());
                        t
                    };
                    let inner = self.float_text.resolve(s.as_str());
                    Yaml::Tagged(tag_name, Box::new(inner))
                }
            },
            _ => self.float_text.resolve(s.as_str()),
        }
    }
}

impl<F: Fn(&str) -> Option<String>> EventReceiver for YamlReceiver<F> {
    /// Build from one event: a document start resets alias tracking, a document end
    /// completes the document (a bad value when nothing was built), aliases and scalars
    /// place their nodes, collection starts open a builder (a mapping with its key slot) and
    /// collection ends place the finished collection.
    fn on_event(&mut self, ev: Event)
        ensures
            ev is DocumentStart ==> final(self).spec_alias_count() == 0 && final(self).spec_stack() == old(self).spec_stack()
                && final(self).spec_docs() == old(self).spec_docs(),
            ev is DocumentEnd ==> final(self).spec_docs() == (if old(self).spec_stack().len() == 0 {
                    old(self).spec_docs().push(Yaml::BadValue)
                } else if old(self).spec_stack().len() == 1 {
                    old(self).spec_docs().push(old(self).spec_stack()[0].0)
                } else {
                    old(self).spec_docs()
                })
                && final(self).spec_stack() == (if old(self).spec_stack().len() == 1 { Seq::empty() } else { old(self).spec_stack() }),
            (ev matches Event::SequenceStart(aid) ==> final(self).spec_stack().len() == old(self).spec_stack().len() + 1
                && final(self).spec_stack().drop_last() == old(self).spec_stack()
                && final(self).spec_stack().last().1 == aid
                && (final(self).spec_stack().last().0 matches Yaml::Array(a) && a@.len() == 0)
                && final(self).spec_keys() == old(self).spec_keys()),
            (ev matches Event::MappingStart(aid) ==> final(self).spec_stack().len() == old(self).spec_stack().len() + 1
                && final(self).spec_stack().drop_last() == old(self).spec_stack()
                && final(self).spec_stack().last().1 == aid
                && (final(self).spec_stack().last().0 matches Yaml::Hash(h) && h.entries().len() == 0)
                && final(self).spec_keys() == old(self).spec_keys().push(Yaml::BadValue)),
            (ev matches Event::Scalar(s, style, aid, tag) ==> exists|y: Yaml| scalar_event_node(old(self).spec_float(), s@, style, tag, y)
                && node_placed(old(self).spec_stack(), old(self).spec_keys(), y, final(self).spec_stack(), final(self).spec_keys())
                && anchor_recorded(old(self).spec_anchors(), y, aid, final(self).spec_anchors())),
            ev is SequenceEnd || ev is MappingEnd ==> (if old(self).spec_stack().len() > 0 {
                    anchor_recorded(old(self).spec_anchors(), old(self).spec_stack().last().0, old(self).spec_stack().last().1,
                        final(self).spec_anchors())
                } else {
                    final(self).spec_anchors() == old(self).spec_anchors()
                }),
            !(ev is Scalar || ev is SequenceEnd || ev is MappingEnd) ==> final(self).spec_anchors() == old(self).spec_anchors(),
            ev is SequenceEnd || ev is MappingEnd ==> {
                let keys = if ev is MappingEnd && old(self).spec_keys().len() > 0 { old(self).spec_keys().drop_last() } else { old(self).spec_keys() };
                if old(self).spec_stack().len() > 0 {
                    node_placed(old(self).spec_stack().drop_last(), keys, old(self).spec_stack().last().0,
                        final(self).spec_stack(), final(self).spec_keys())
                } else {
                    final(self).spec_stack() == old(self).spec_stack() && final(self).spec_keys() == keys
                }
            },
            ev is StreamStart || ev is StreamEnd || ev is YamlDirective || ev is TagDirective || ev is Nothing
                ==> final(self).spec_stack() == old(self).spec_stack() && final(self).spec_docs() == old(self).spec_docs()
                    && final(self).spec_keys() == old(self).spec_keys(),
            !(ev is DocumentEnd) ==> final(self).spec_docs() == old(self).spec_docs(),
            (ev matches Event::Alias(id) ==> exists|y: Yaml| alias_node(old(self).spec_alias_count(), old(self).spec_resolving(),
                    old(self).spec_anchors(), id, y)
                && node_placed(old(self).spec_stack(), old(self).spec_keys(), y, final(self).spec_stack(), final(self).spec_keys())
                && final(self).spec_anchors() == old(self).spec_anchors()),
    {
        match ev {
            Event::DocumentStart => {
                self.reset_alias_tracking();
            },
            Event::DocumentEnd => {
                let n = self.doc_stack.len();
                if n == 0 {
                    self.docs.push(Yaml::BadValue);
                } else if n == 1 {
                    let (doc, _) = self.doc_stack.pop().unwrap();
                    self.docs.push(doc);
                    assert(self.doc_stack@ =~= Seq::<(Yaml, usize)>::empty());
                }
            },
            Event::StreamStart => {},
            Event::StreamEnd => {},
            Event::Alias(id) => {
                let node = self.resolve_alias(id);
                proof {
                    assert(alias_node(old(self).spec_alias_count(), old(self).spec_resolving(), old(self).spec_anchors(), id, node));
                }
                self.insert_new_node((node, 0));
            },
            Event::Scalar(s, style, aid, tag) => {
                let node = self.scalar_node(s, style, tag);
                self.insert_new_node((node, aid));
            },
            Event::SequenceStart(aid) => {
                self.doc_stack.push((Yaml::Array(Vec::new()), aid));
            },
            Event::SequenceEnd => {
                if let Some(top) = self.doc_stack.pop() {
                    self.insert_new_node(top);
                }
            },
            Event::MappingStart(aid) => {
                let h = LinkedHashMap::new();
                self.doc_stack.push((Yaml::Hash(h), aid));
                self.key_stack.push(Yaml::BadValue);
            },
            Event::MappingEnd => {
                self.key_stack.pop();
                if let Some(top) = self.doc_stack.pop() {
                    self.insert_new_node(top);
                }
            },
            Event::YamlDirective(_major, _minor) => {},
            Event::TagDirective(_handle, _prefix) => {},
            Event::Nothing => {},
        }
    }
}


impl YamlLoader {
    /// Load the documents of a text: the fast path's value when it has one, else the
    /// documents the state machine builds (one null document when it builds none).
    /// `float_text` renders the float a plain scalar spells, or `None` when it spells none.
    pub fn load_from_str<F: Fn(&str) -> Option<String>>(s: &str, float_text: F) -> (r: Result<Vec<Yaml>, ScanError>)
        requires
            reads_any(float_text),
            s@.len() + 2 < usize::MAX,
        ensures
            exists|fr: Result<Option<Yaml>, ScanError>| #[trigger] crate::parser::fast_path::fast_outcome(float_text, s@, fr)
                && match fr {
                    Ok(Some(y)) => r matches Ok(d) && d@ == seq![y],
                    Ok(None) => (r matches Ok(d) ==> d@.len() == 1 && machine_document::<F>(s@, d@[0]))
                        && (r matches Err(e) ==> machine_error::<F>(s@, e)),
                    Err(e) => r == Err::<Vec<Yaml>, ScanError>(e),
                },
    {
        let fast = Self::try_fast_parse(s, &float_text);
        match fast {
            Ok(Some(result)) => {
                return Ok(vec![result]);
            },
            Ok(None) => {},
            Err(error) => {
                proof { assert(crate::parser::fast_path::fast_outcome(float_text, s@, Err::<Option<Yaml>, ScanError>(error))); }
                return Err(error);
            },
        }
        let mut documents: Vec<Yaml> = Vec::new();
        let ghost reader = float_text;
        assert(crate::parser::fast_path::fast_outcome(reader, s@, Ok::<Option<Yaml>, ScanError>(None)));
        let mut state_machine = StateMachine::new(s, float_text);
        while !state_machine.at_stream_end()
            invariant
                state_machine.wf(),
                crate::parser::fast_path::fast_outcome(reader, s@, Ok::<Option<Yaml>, ScanError>(None)),
                reader == float_text,
                documents@.len() <= 1,
                documents@.len() == 1 ==> state_machine.state == State::End,
                documents@.len() == 1 ==> machine_document::<F>(s@, documents@[0]),
                documents@.len() == 0 ==> state_machine.state == State::StreamStart,
                documents@.len() == 0 ==> fresh_machine(&state_machine),
                state_machine.scanner.spec_state().spec_source() == s@,
            ensures
                crate::parser::fast_path::fast_outcome(reader, s@, Ok::<Option<Yaml>, ScanError>(None)),
                documents@.len() == 1,
                machine_document::<F>(s@, documents@[0]),
            decreases if state_machine.state == State::End { 0int } else { 1int },
        {
            let ghost before = state_machine;
            match state_machine.parse_next_document() {
                Ok(Some(doc)) => {
                    proof {
                        assert(finished_run(&state_machine, s@, doc));
                    }
                    documents.push(doc);
                },
                Ok(None) => {
                    break;
                },
                Err(e) => {
                    proof {
                        assert(run_error(&state_machine, e));
                        assert(state_machine.scanner.spec_state().spec_source() == s@);
                        assert(machine_error::<F>(s@, e));
                        assert(crate::parser::fast_path::fast_outcome(reader, s@, Ok::<Option<Yaml>, ScanError>(None)));
                    }
                    return Err(e);
                },
            }
        }
        if documents.len() == 0 {
            documents.push(Yaml::Null);
        }
        assert(documents@.len() == 1);
        assert(machine_document::<F>(s@, documents@[0]));
        Ok(documents)
    }
}


/// Finding a key by `==` is finding it by YAML equality.
pub proof fn lemma_find_key_is_yaml_find(s: Seq<(Yaml, Yaml)>, k: Yaml)
    ensures
        find_key(s, k) == yaml_find(s, k),
{
    crate::linked_hash_map::lemma_find_key(s, k);
    lemma_yaml_find(s, k);
    match (find_key(s, k), yaml_find(s, k)) {
        (Some(i), Some(j)) => {
            assert(s[i].0.key_eq_spec(&k) == yaml_eq(s[i].0, k));
            assert(s[j].0.key_eq_spec(&k) == yaml_eq(s[j].0, k));
            if i < j {
                assert(!yaml_eq(s[i].0, k));
            } else if j < i {
                assert(!s[j].0.key_eq_spec(&k));
            }
        },
        (Some(i), None) => {
            assert(s[i].0.key_eq_spec(&k) == yaml_eq(s[i].0, k));
        },
        (None, Some(j)) => {
            assert(s[j].0.key_eq_spec(&k) == yaml_eq(s[j].0, k));
        },
        (None, None) => {},
    }
}

/// An entry whose key is the string `key`.
pub open spec fn string_key_at(e: (Yaml, Yaml), key: Seq<char>) -> bool {
    e.0 matches Yaml::String(x) && x@ == key
}

impl Yaml {
    /// Resolve a scalar's text (`YamlLoader::parse_scalar_direct`).
    pub fn parse_str<F: Fn(&str) -> Option<String>>(s: &str, float_text: &F) -> (y: Yaml)
        requires
            reads_any(*float_text),
        ensures
            loads_scalar(*float_text, s@, y),
    {
        YamlLoader::parse_scalar_direct(s, float_text)
    }

    /// The value under a string key of a mapping, if there is one: that of the first entry
    /// whose key is that string.
    pub fn get_key(&self, key: &str) -> (r: Option<&Yaml>)
        ensures
            match *self {
                Yaml::Hash(h) => {
                    &&& r matches Some(v) ==> exists|i: int| 0 <= i < h.entries().len() && string_key_at(#[trigger] h.entries()[i], key@)
                        && *v == h.entries()[i].1 && forall|j: int| 0 <= j < i ==> !string_key_at(#[trigger] h.entries()[j], key@)
                    &&& r is None ==> forall|i: int| 0 <= i < h.entries().len() ==> !string_key_at(#[trigger] h.entries()[i], key@)
                },
                _ => r is None,
            },
    {
        match self {
            Yaml::Hash(h) => {
                let k = Yaml::String(key.to_owned());
                let r = h.get(&k);
                proof {
                    crate::linked_hash_map::lemma_find_key(h.entries(), k);
                    lemma_find_key_is_yaml_find(h.entries(), k);
                    lemma_yaml_find(h.entries(), k);
                    assert forall|i: int| 0 <= i < h.entries().len() implies
                        yaml_eq(#[trigger] h.entries()[i].0, k) == string_key_at(h.entries()[i], key@) by {}
                }
                r
            },
            _ => None,
        }
    }

}

} // verus!
