//! Conversions between Rust strings and the character sequences the library works on,
//! and the decimal and hexadecimal renderings used in messages and escapes.
use vstd::prelude::*;

verus! {

/// The characters of a string slice, in order.
pub fn str_to_chars(s: &str) -> (v: Vec<char>)
    ensures
        v@ == s@,
{
    let mut v: Vec<char> = Vec::new();
    for ch in it: s.chars()
        invariant
            v@ == it.seq().take(it.index()),
    {
        v.push(ch);
    }
    v
}

/// `String::push`: appends one character to a string.
#[verifier::external_body]
pub fn push_char(s: &mut String, c: char)
    ensures
        final(s)@ == old(s)@.push(c),
{
    s.push(c);
}

/// Extending a slice of `s` by the next character.
pub proof fn lemma_subrange_extend(s: Seq<char>, a: int, b: int)
    requires
        0 <= a <= b < s.len(),
    ensures
        s.subrange(a, b + 1) == s.subrange(a, b).push(s[b]),
{
    assert(s.subrange(a, b + 1) =~= s.subrange(a, b).push(s[b]));
}

/// A sequence extended by `c` contains what it contained, and `c`.
pub proof fn lemma_contains_push<A>(s: Seq<A>, c: A, x: A)
    ensures
        s.push(c).contains(x) == (s.contains(x) || c == x),
{
    if s.contains(x) {
        let k = choose|k: int| 0 <= k < s.len() && s[k] == x;
        assert(s.push(c)[k] == x);
    }
    if c == x {
        assert(s.push(c)[s.len() as int] == x);
    }
    if s.push(c).contains(x) {
        let k = choose|k: int| 0 <= k < s.push(c).len() && s.push(c)[k] == x;
        if k < s.len() {
            assert(s[k] == x);
        }
    }
}

/// `char::from_u32`: the character with the given code point, if it is a Unicode scalar value.
#[verifier::external_body]
pub fn char_from_u32(code: u32) -> (r: Option<char>)
    ensures
        r is Some <==> is_scalar_value(code as int),
        r matches Some(c) ==> c as u32 == code,
{
    char::from_u32(code)
}

/// Unicode scalar values: every code point but the surrogates.
pub open spec fn is_scalar_value(code: int) -> bool {
    (0 <= code <= 0xD7FF) || (0xE000 <= code <= 0x10FFFF)
}

/// Appends characters to a string.
pub fn push_chars(s: &mut String, v: &[char])
    ensures
        final(s)@ == old(s)@ + v@,
{
    let ghost s0 = s@;
    for i in 0..v.len()
        invariant
            s@ == s0 + v@.take(i as int),
    {
        push_char(s, v[i]);
        assert(v@.take(i + 1) =~= v@.take(i as int).push(v@[i as int]));
    }
    assert(v@.take(v.len() as int) =~= v@);
}

/// Appends a string slice to a string.
pub fn push_str(s: &mut String, t: &str)
    ensures
        final(s)@ == old(s)@ + t@,
{
    let v = str_to_chars(t);
    push_chars(s, v.as_slice());
}

/// A new string holding the given characters.
pub fn chars_to_string(v: &[char]) -> (s: String)
    ensures
        s@ == v@,
{
    let mut s = String::new();
    push_chars(&mut s, v);
    s
}

/// A new string holding the characters `v[from..to]`.
pub fn substring(v: &[char], from: usize, to: usize) -> (s: String)
    requires
        from <= to <= v@.len(),
    ensures
        s@ == v@.subrange(from as int, to as int),
{
    let mut s = String::new();
    let mut i = from;
    while i < to
        invariant
            from <= i <= to <= v@.len(),
            s@ == v@.subrange(from as int, i as int),
        decreases to - i,
    {
        push_char(&mut s, v[i]);
        assert(v@.subrange(from as int, i + 1) =~= v@.subrange(from as int, i as int).push(v@[i as int]));
        i = i + 1;
    }
    s
}

/// The ASCII digit for a value below ten.
pub open spec fn digit_char(d: int) -> char {
    ((d + 48) as u32) as char
}

/// Decimal rendering of a natural number, most significant digit first, without leading zeros.
pub open spec fn decimal(n: nat) -> Seq<char>
    decreases n,
{
    if n < 10 {
        seq![digit_char(n as int)]
    } else {
        decimal(n / 10) + seq![digit_char((n % 10) as int)]
    }
}

/// The character of one decimal digit.
pub fn digit_to_char(d: u8) -> (c: char)
    requires
        d < 10,
    ensures
        c == digit_char(d as int),
        '0' <= c <= '9',
{
    let c = match d {
        0 => '0',
        1 => '1',
        2 => '2',
        3 => '3',
        4 => '4',
        5 => '5',
        6 => '6',
        7 => '7',
        8 => '8',
        _ => '9',
    };
    assert(c == digit_char(d as int)) by {
        assert('0' as u32 == 48);
    }
    c
}

/// Decimal rendering of a `usize`, as `format!("{}", n)` writes it.
pub fn usize_to_decimal(n: usize) -> (s: String)
    ensures
        s@ == decimal(n as nat),
    decreases n,
{
    if n < 10 {
        let mut s = String::new();
        push_char(&mut s, digit_to_char(n as u8));
        s
    } else {
        let mut s = usize_to_decimal(n / 10);
        push_char(&mut s, digit_to_char((n % 10) as u8));
        s
    }
}

/// Appends the decimal rendering of a `usize`.
pub fn push_decimal(s: &mut String, n: usize)
    ensures
        final(s)@ == old(s)@ + decimal(n as nat),
{
    let d = usize_to_decimal(n);
    push_str(s, d.as_str());
}

/// The uppercase hexadecimal digit for a value below sixteen.
pub open spec fn hex_digit_char(d: int) -> char {
    if d < 10 {
        digit_char(d)
    } else {
        ((d - 10 + 65) as u32) as char
    }
}

/// The uppercase hexadecimal digit for a value below sixteen.
pub fn hex_digit_to_char(d: u32) -> (c: char)
    requires
        d < 16,
    ensures
        c == hex_digit_char(d as int),
{
    if d < 10 {
        digit_to_char(d as u8)
    } else {
        let c = match d {
            10 => 'A',
            11 => 'B',
            12 => 'C',
            13 => 'D',
            14 => 'E',
            _ => 'F',
        };
        assert(c == hex_digit_char(d as int)) by {
            assert('A' as u32 == 65);
        }
        c
    }
}

/// Uppercase hexadecimal rendering of `n` with exactly `width` digits (`n` must fit).
pub open spec fn hex_fixed(n: nat, width: nat) -> Seq<char>
    decreases width,
{
    if width == 0 {
        Seq::empty()
    } else {
        hex_fixed(n / 16, (width - 1) as nat) + seq![hex_digit_char((n % 16) as int)]
    }
}

/// Appends `n` as exactly `width` uppercase hexadecimal digits, as `{:0width$X}` writes a
/// number that fits in that many digits.
pub fn push_hex_fixed(s: &mut String, n: u32, width: u32)
    requires
        width <= 8,
    ensures
        final(s)@ == old(s)@ + hex_fixed(n as nat, width as nat),
    decreases width,
{
    if width > 0 {
        push_hex_fixed(s, n / 16, width - 1);
        push_char(s, hex_digit_to_char(n % 16));
    }
}

/// A character is the one whose code it has.
pub proof fn lemma_char_of_code(a: char, n: u32)
    requires
        a as u32 == n,
    ensures
        a == n as char,
{
}


/// The index of the first `c` in `s`, or the length of `s` when there is none.
pub open spec fn find_char(s: Seq<char>, c: char) -> int
    decreases s.len(),
{
    if s.len() == 0 {
        0
    } else if s[0] == c {
        0
    } else {
        1 + find_char(s.drop_first(), c)
    }
}

pub proof fn lemma_find_char(s: Seq<char>, c: char)
    ensures
        0 <= find_char(s, c) <= s.len(),
        find_char(s, c) < s.len() ==> s[find_char(s, c)] == c,
        forall|i: int| 0 <= i < find_char(s, c) ==> s[i] != c,
    decreases s.len(),
{
    if s.len() > 0 && s[0] != c {
        lemma_find_char(s.drop_first(), c);
        assert forall|i: int| 0 <= i < find_char(s, c) implies s[i] != c by {
            if i > 0 {
                assert(s[i] == s.drop_first()[i - 1]);
            }
        }
    }
}

/// The index of the first `c` at or after `from`, or the length.
pub fn find_char_from(v: &[char], from: usize, c: char) -> (k: usize)
    requires
        from <= v@.len(),
    ensures
        from + find_char(v@.skip(from as int), c) == k,
        from <= k <= v@.len(),
{
    let mut k = from;
    proof { lemma_find_char(v@.skip(from as int), c); }
    while k < v.len() && v[k] != c
        invariant
            from <= k <= v@.len(),
            forall|i: int| from <= i < k ==> v@[i] != c,
        decreases v@.len() - k,
    {
        k = k + 1;
    }
    proof {
        let t = v@.skip(from as int);
        assert forall|i: int| 0 <= i < k - from implies t[i] != c by {
            assert(t[i] == v@[from + i]);
        }
        lemma_find_char_exact(t, c, k - from);
    }
    k
}

pub proof fn lemma_find_char_exact(s: Seq<char>, c: char, k: int)
    requires
        0 <= k <= s.len(),
        forall|i: int| 0 <= i < k ==> s[i] != c,
        k == s.len() || s[k] == c,
    ensures
        find_char(s, c) == k,
    decreases k,
{
    if k > 0 {
        assert forall|i: int| 0 <= i < k - 1 implies s.drop_first()[i] != c by {
            assert(s.drop_first()[i] == s[i + 1]);
        }
        lemma_find_char_exact(s.drop_first(), c, k - 1);
    }
}

/// The lines of `s` as `str::lines` yields them: split after each LF, with the LF and a CR
/// just before it removed; a final line ending adds no empty line.
pub open spec fn lines_spec(s: Seq<char>) -> Seq<Seq<char>>
    decreases s.len(),
{
    if s.len() == 0 {
        Seq::empty()
    } else {
        let k = find_char(s, '\n');
        let piece = s.take(k);
        let line = if k < s.len() && k > 0 && piece.last() == '\r' { piece.drop_last() } else { piece };
        if k < s.len() {
            proof { lemma_find_char(s, '\n'); }
            seq![line] + lines_spec(s.skip(k + 1))
        } else {
            seq![line]
        }
    }
}

/// `c` occurs in `s` exactly when it is found before the end.
pub proof fn lemma_find_contains(s: Seq<char>, c: char)
    ensures
        (find_char(s, c) < s.len()) == s.contains(c),
{
    lemma_find_char(s, c);
    if find_char(s, c) < s.len() {
        assert(s[find_char(s, c)] == c);
    } else {
        assert forall|i: int| 0 <= i < s.len() implies s[i] != c by {}
    }
}

/// The character ranges `(start, end)` of the lines of `v`, as `str::lines` splits them.
pub fn line_ranges(v: &[char]) -> (r: Vec<(usize, usize)>)
    ensures
        r@.len() == lines_spec(v@).len(),
        forall|i: int| 0 <= i < r@.len() ==> {
            &&& #[trigger] r@[i].0 <= r@[i].1 <= v@.len()
            &&& v@.subrange(r@[i].0 as int, r@[i].1 as int) == lines_spec(v@)[i]
        },
{
    let mut r: Vec<(usize, usize)> = Vec::new();
    let n = v.len();
    let mut start: usize = 0;
    assert(v@.skip(0) =~= v@);
    while start < n
        invariant
            n == v@.len(),
            start <= n,
            lines_spec(v@) == r@.map_values(|p: (usize, usize)| v@.subrange(p.0 as int, p.1 as int)) + lines_spec(v@.skip(start as int)),
            forall|i: int| 0 <= i < r@.len() ==> #[trigger] r@[i].0 <= r@[i].1 <= v@.len(),
        decreases n - start,
    {
        let k = find_char_from(v, start, '\n');
        let ghost t = v@.skip(start as int);
        proof { lemma_find_char(t, '\n'); }
        let mut end = k;
        if k < n && k > start && v[k - 1] == '\r' {
            end = k - 1;
        }
        let ghost piece = t.take(k - start);
        proof {
            let line = if k - start < t.len() && k - start > 0 && piece.last() == '\r' { piece.drop_last() } else { piece };
            assert(v@.subrange(start as int, end as int) =~= line);
            if k < n {
                assert(t.skip(k - start + 1) =~= v@.skip(k + 1));
            }
        }
        let ghost old_r = r@;
        assert(start <= end <= n);
        r.push((start, end));
        proof {
            assert forall|i: int| 0 <= i < r@.len() implies #[trigger] r@[i].0 <= r@[i].1 <= v@.len() by {
                if i < old_r.len() {
                    assert(r@[i] == old_r[i]);
                }
            }
            assert(r@.map_values(|p: (usize, usize)| v@.subrange(p.0 as int, p.1 as int)) =~=
                old_r.map_values(|p: (usize, usize)| v@.subrange(p.0 as int, p.1 as int)).push(v@.subrange(start as int, end as int)));
        }
        if k < n {
            start = k + 1;
        } else {
            start = n;
            assert(v@.skip(n as int) =~= Seq::<char>::empty());
        }
        proof {
            let m = r@.map_values(|p: (usize, usize)| v@.subrange(p.0 as int, p.1 as int));
            let m0 = old_r.map_values(|p: (usize, usize)| v@.subrange(p.0 as int, p.1 as int));
            assert(m0 + lines_spec(t) =~= m + lines_spec(v@.skip(start as int)));
        }
    }
    proof {
        assert(v@.skip(start as int) =~= Seq::<char>::empty());
        let m = r@.map_values(|p: (usize, usize)| v@.subrange(p.0 as int, p.1 as int));
        assert(lines_spec(v@) =~= m);
        assert forall|i: int| 0 <= i < r@.len() implies v@.subrange(r@[i].0 as int, r@[i].1 as int) == lines_spec(v@)[i] by {
            assert(m[i] == v@.subrange(r@[i].0 as int, r@[i].1 as int));
        }
    }
    r
}


/// Uppercase hexadecimal rendering without leading zeros, as `{:X}` writes it.
pub open spec fn hex_min(n: nat) -> Seq<char>
    decreases n,
{
    if n < 16 {
        seq![hex_digit_char(n as int)]
    } else {
        hex_min(n / 16) + seq![hex_digit_char((n % 16) as int)]
    }
}

/// Appends `n` in uppercase hexadecimal without leading zeros.
pub fn push_hex_min(s: &mut String, n: u32)
    ensures
        final(s)@ == old(s)@ + hex_min(n as nat),
    decreases n,
{
    if n < 16 {
        push_char(s, hex_digit_to_char(n));
    } else {
        let ghost s0 = s@;
        push_hex_min(s, n / 16);
        push_char(s, hex_digit_to_char(n % 16));
        assert(s@ =~= s0 + hex_min(n as nat));
    }
}

/// The value of a run of decimal digits, most significant first.
pub open spec fn decimal_value(s: Seq<char>) -> nat
    decreases s.len(),
{
    if s.len() == 0 {
        0
    } else {
        decimal_value(s.drop_last()) * 10 + ((s.last() as int - '0' as int) as nat)
    }
}

/// Parses a non-empty run of ASCII digits as a `u32` (`str::parse::<u32>`); `None` when the
/// value does not fit.
pub fn parse_u32_digits(v: &[char], from: usize, to: usize) -> (r: Option<u32>)
    requires
        from < to <= v@.len(),
        forall|i: int| from <= i < to ==> '0' <= #[trigger] v@[i] <= '9',
    ensures
        r matches Some(x) ==> x == decimal_value(v@.subrange(from as int, to as int)),
        r is None <==> decimal_value(v@.subrange(from as int, to as int)) > u32::MAX,
{
    let mut acc: u64 = 0;
    let mut i = from;
    while i < to
        invariant
            from <= i <= to <= v@.len(),
            forall|j: int| from <= j < to ==> '0' <= #[trigger] v@[j] <= '9',
            acc == decimal_value(v@.subrange(from as int, i as int)),
            acc <= u32::MAX,
        decreases to - i,
    {
        let d = (v[i] as u32 - '0' as u32) as u64;
        proof {
            assert(v@.subrange(from as int, i + 1).drop_last() =~= v@.subrange(from as int, i as int));
        }
        acc = acc * 10 + d;
        i = i + 1;
        if acc > 0xFFFF_FFFF {
            proof {
                lemma_decimal_value_mono(v@.subrange(from as int, to as int), (i - from) as int);
                assert(v@.subrange(from as int, to as int).take((i - from) as int) =~= v@.subrange(from as int, i as int));
            }
            return None;
        }
    }
    Some(acc as u32)
}

/// A digit run is worth at least as much as any of its prefixes.
pub proof fn lemma_decimal_value_mono(s: Seq<char>, k: int)
    requires
        0 <= k <= s.len(),
        forall|i: int| 0 <= i < s.len() ==> '0' <= #[trigger] s[i] <= '9',
    ensures
        decimal_value(s.take(k)) <= decimal_value(s),
    decreases s.len() - k,
{
    if k < s.len() {
        lemma_decimal_value_mono(s, k + 1);
        assert(s.take(k + 1).drop_last() =~= s.take(k));
    } else {
        assert(s.take(k) =~= s);
    }
}


/// Whether two strings hold the same characters.
pub fn str_eq(a: &str, b: &str) -> (r: bool)
    ensures
        r == (a@ == b@),
{
    let va = str_to_chars(a);
    let vb = str_to_chars(b);
    chars_eq(va.as_slice(), vb.as_slice())
}

/// Whether two character slices are equal.
pub fn chars_eq(a: &[char], b: &[char]) -> (r: bool)
    ensures
        r == (a@ == b@),
{
    if a.len() != b.len() {
        return false;
    }
    for i in 0..a.len()
        invariant
            a@.len() == b@.len(),
            forall|j: int| 0 <= j < i ==> a@[j] == b@[j],
    {
        if a[i] != b[i] {
            return false;
        }
    }
    assert(a@ =~= b@);
    true
}


/// The index of the first `c` in `v[from..to]`, counted from `from`, or `to - from`.
pub fn find_char_between(v: &[char], from: usize, to: usize, c: char) -> (k: usize)
    requires
        from <= to <= v@.len(),
    ensures
        k == find_char(v@.subrange(from as int, to as int), c),
        k <= to - from,
{
    let ghost t = v@.subrange(from as int, to as int);
    let mut k = from;
    proof { lemma_find_char(t, c); }
    while k < to && v[k] != c
        invariant
            from <= k <= to <= v@.len(),
            forall|i: int| from <= i < k ==> v@[i] != c,
        decreases to - k,
    {
        k = k + 1;
    }
    proof {
        assert forall|i: int| 0 <= i < k - from implies t[i] != c by {
            assert(t[i] == v@[from + i]);
        }
        if k < to {
            assert(t[k - from] == v@[k as int]);
        }
        lemma_find_char_exact(t, c, k - from);
    }
    k - from
}

/// `char::is_whitespace`: the Unicode White_Space characters.
pub open spec fn is_ws(ch: char) -> bool {
    ch == ' ' || ('\t' <= ch <= '\r') || ch == '\u{85}' || ch == '\u{A0}' || ch == '\u{1680}'
        || ('\u{2000}' <= ch <= '\u{200A}') || ch == '\u{2028}' || ch == '\u{2029}' || ch == '\u{202F}'
        || ch == '\u{205F}' || ch == '\u{3000}'
}

/// Whether a character is Unicode White_Space.
pub fn char_is_ws(ch: char) -> (b: bool)
    ensures
        b == is_ws(ch),
{
    ch == ' ' || ('\t' <= ch && ch <= '\r') || ch == '\u{85}' || ch == '\u{A0}' || ch == '\u{1680}'
        || ('\u{2000}' <= ch && ch <= '\u{200A}') || ch == '\u{2028}' || ch == '\u{2029}' || ch == '\u{202F}'
        || ch == '\u{205F}' || ch == '\u{3000}'
}

/// `s` without its trailing White_Space (`str::trim_end`).
pub open spec fn trim_end_spec(s: Seq<char>) -> Seq<char>
    decreases s.len(),
{
    if s.len() > 0 && is_ws(s.last()) { trim_end_spec(s.drop_last()) } else { s }
}

/// `s` without its leading White_Space (`str::trim_start`).
pub open spec fn trim_start_spec(s: Seq<char>) -> Seq<char>
    decreases s.len(),
{
    if s.len() > 0 && is_ws(s[0]) { trim_start_spec(s.drop_first()) } else { s }
}

/// `s` without leading and trailing White_Space (`str::trim`).
pub open spec fn trim_spec(s: Seq<char>) -> Seq<char> {
    trim_end_spec(trim_start_spec(s))
}

/// The end of `v[from..to]` once trailing White_Space is dropped.
pub fn trim_end_index(v: &[char], from: usize, to: usize) -> (e: usize)
    requires
        from <= to <= v@.len(),
    ensures
        from <= e <= to,
        v@.subrange(from as int, e as int) == trim_end_spec(v@.subrange(from as int, to as int)),
{
    let mut e = to;
    while e > from && char_is_ws(v[e - 1])
        invariant
            from <= e <= to <= v@.len(),
            trim_end_spec(v@.subrange(from as int, to as int)) == trim_end_spec(v@.subrange(from as int, e as int)),
        decreases e,
    {
        assert(v@.subrange(from as int, e as int).drop_last() =~= v@.subrange(from as int, e - 1));
        e = e - 1;
    }
    proof {
        let s = v@.subrange(from as int, e as int);
        if s.len() > 0 {
            assert(s.last() == v@[e - 1]);
        }
    }
    e
}

/// The start of `v[from..to]` once leading White_Space is dropped.
pub fn trim_start_index(v: &[char], from: usize, to: usize) -> (b: usize)
    requires
        from <= to <= v@.len(),
    ensures
        from <= b <= to,
        v@.subrange(b as int, to as int) == trim_start_spec(v@.subrange(from as int, to as int)),
{
    let mut b = from;
    while b < to && char_is_ws(v[b])
        invariant
            from <= b <= to <= v@.len(),
            trim_start_spec(v@.subrange(from as int, to as int)) == trim_start_spec(v@.subrange(b as int, to as int)),
        decreases to - b,
    {
        assert(v@.subrange(b as int, to as int).drop_first() =~= v@.subrange(b + 1, to as int));
        b = b + 1;
    }
    proof {
        let s = v@.subrange(b as int, to as int);
        if s.len() > 0 {
            assert(s[0] == v@[b as int]);
        }
    }
    b
}

/// `str::trim`: the text without leading and trailing White_Space.
pub fn str_trim(s: &str) -> (r: String)
    ensures
        r@ == trim_spec(s@),
{
    let v = str_to_chars(s);
    let b = trim_start_index(v.as_slice(), 0, v.len());
    let e = trim_end_index(v.as_slice(), b, v.len());
    assert(v@.subrange(0, v@.len() as int) =~= v@);
    substring(v.as_slice(), b, e)
}

/// `str::trim_end`: the text without trailing White_Space.
pub fn str_trim_end(s: &str) -> (r: String)
    ensures
        r@ == trim_end_spec(s@),
{
    let v = str_to_chars(s);
    let e = trim_end_index(v.as_slice(), 0, v.len());
    assert(v@.subrange(0, v@.len() as int) =~= v@);
    substring(v.as_slice(), 0, e)
}

/// `str::trim_start`: the text without leading White_Space.
pub fn str_trim_start(s: &str) -> (r: String)
    ensures
        r@ == trim_start_spec(s@),
{
    let v = str_to_chars(s);
    let b = trim_start_index(v.as_slice(), 0, v.len());
    assert(v@.subrange(0, v@.len() as int) =~= v@);
    substring(v.as_slice(), b, v.len())
}


/// `p` is a prefix of `s`.
pub open spec fn has_prefix(s: Seq<char>, p: Seq<char>) -> bool {
    p.len() <= s.len() && s.take(p.len() as int) == p
}

/// Whether `v` holds `c`.
pub fn has_char(v: &[char], c: char) -> (b: bool)
    ensures
        b == v@.contains(c),
{
    let mut i: usize = 0;
    while i < v.len()
        invariant
            i <= v@.len(),
            forall|j: int| 0 <= j < i ==> v@[j] != c,
        decreases v@.len() - i,
    {
        if v[i] == c {
            assert(v@[i as int] == c);
            return true;
        }
        i = i + 1;
    }
    false
}

/// Whether `v` starts with the characters of `p`.
pub fn starts_with_str(v: &[char], p: &str) -> (b: bool)
    ensures
        b == has_prefix(v@, p@),
{
    let pv = str_to_chars(p);
    if pv.len() > v.len() {
        return false;
    }
    let mut i: usize = 0;
    while i < pv.len()
        invariant
            pv@ == p@,
            pv@.len() <= v@.len(),
            i <= pv@.len(),
            forall|j: int| 0 <= j < i ==> v@[j] == pv@[j],
        decreases pv@.len() - i,
    {
        if v[i] != pv[i] {
            assert(v@.take(pv@.len() as int)[i as int] != pv@[i as int]);
            return false;
        }
        i = i + 1;
    }
    assert(v@.take(pv@.len() as int) =~= pv@);
    true
}

/// The characters `v[from..to]`.
pub fn slice_chars(v: &[char], from: usize, to: usize) -> (r: Vec<char>)
    requires
        from <= to <= v@.len(),
    ensures
        r@ == v@.subrange(from as int, to as int),
{
    let mut r: Vec<char> = Vec::new();
    let mut i = from;
    while i < to
        invariant
            from <= i <= to <= v@.len(),
            r@ == v@.subrange(from as int, i as int),
        decreases to - i,
    {
        r.push(v[i]);
        assert(r@ =~= v@.subrange(from as int, i + 1));
        i = i + 1;
    }
    r
}

/// `v` without leading and trailing White_Space.
pub fn trim_chars(v: &[char]) -> (r: Vec<char>)
    ensures
        r@ == trim_spec(v@),
{
    let b = trim_start_index(v, 0, v.len());
    let e = trim_end_index(v, b, v.len());
    assert(v@.subrange(0, v@.len() as int) =~= v@);
    slice_chars(v, b, e)
}

/// `v` without leading White_Space.
pub fn trim_start_chars(v: &[char]) -> (r: Vec<char>)
    ensures
        r@ == trim_start_spec(v@),
{
    let b = trim_start_index(v, 0, v.len());
    assert(v@.subrange(0, v@.len() as int) =~= v@);
    slice_chars(v, b, v.len())
}

/// The lines of `v`, as `str::lines` yields them.
pub fn split_lines(v: &[char]) -> (r: Vec<Vec<char>>)
    ensures
        r@.len() == lines_spec(v@).len(),
        forall|i: int| 0 <= i < r@.len() ==> (#[trigger] r@[i])@ == lines_spec(v@)[i],
{
    let ranges = line_ranges(v);
    let mut r: Vec<Vec<char>> = Vec::new();
    let mut i: usize = 0;
    while i < ranges.len()
        invariant
            ranges@.len() == lines_spec(v@).len(),
            forall|k: int| 0 <= k < ranges@.len() ==> {
                &&& #[trigger] ranges@[k].0 <= ranges@[k].1 <= v@.len()
                &&& v@.subrange(ranges@[k].0 as int, ranges@[k].1 as int) == lines_spec(v@)[k]
            },
            i <= ranges@.len(),
            r@.len() == i,
            forall|k: int| 0 <= k < i ==> (#[trigger] r@[k])@ == lines_spec(v@)[k],
        decreases ranges@.len() - i,
    {
        let (a, b) = ranges[i];
        let line = slice_chars(v, a, b);
        r.push(line);
        i = i + 1;
    }
    r
}


/// `trim_start_spec` leaves no leading White_Space.
pub proof fn lemma_trim_start_result(s: Seq<char>)
    ensures
        trim_start_spec(s).len() == 0 || !is_ws(trim_start_spec(s)[0]),
    decreases s.len(),
{
    if s.len() > 0 && is_ws(s[0]) {
        lemma_trim_start_result(s.drop_first());
    }
}

/// `trim_end_spec` keeps a prefix.
pub proof fn lemma_trim_end_prefix(s: Seq<char>)
    ensures
        trim_end_spec(s).len() <= s.len(),
        trim_end_spec(s) == s.take(trim_end_spec(s).len() as int),
    decreases s.len(),
{
    if s.len() > 0 && is_ws(s.last()) {
        lemma_trim_end_prefix(s.drop_last());
        assert(s.drop_last().take(trim_end_spec(s).len() as int) =~= s.take(trim_end_spec(s).len() as int));
    } else {
        assert(s.take(s.len() as int) =~= s);
    }
}

/// Trimming twice is trimming once.
pub proof fn lemma_trim_idempotent(s: Seq<char>)
    ensures
        trim_spec(trim_spec(s)) == trim_spec(s),
{
    let x = trim_start_spec(s);
    lemma_trim_start_result(s);
    lemma_trim_end_prefix(x);
    let y = trim_end_spec(x);
    if y.len() > 0 {
        assert(y[0] == x[0]);
    }
    assert(trim_start_spec(y) == y);
    crate::scanner::scalars::lemma_trim_end_idempotent(x);
}


/// Trimming the front keeps a suffix.
pub proof fn lemma_trim_start_len(s: Seq<char>)
    ensures
        trim_start_spec(s).len() <= s.len(),
        trim_start_spec(s) == s.skip(s.len() - trim_start_spec(s).len()),
    decreases s.len(),
{
    if s.len() > 0 && is_ws(s[0]) {
        lemma_trim_start_len(s.drop_first());
        assert(s.drop_first().skip(s.drop_first().len() - trim_start_spec(s).len()) =~= s.skip(s.len() - trim_start_spec(s).len()));
    } else {
        assert(s.skip(0) =~= s);
    }
}

/// A text has at most as many lines as characters, none longer than the text.
pub proof fn lemma_lines_len(s: Seq<char>)
    ensures
        lines_spec(s).len() <= s.len(),
        forall|i: int| 0 <= i < lines_spec(s).len() ==> (#[trigger] lines_spec(s)[i]).len() <= s.len(),
    decreases s.len(),
{
    if s.len() > 0 {
        let k = find_char(s, '\n');
        lemma_find_char(s, '\n');
        if k < s.len() {
            let t = s.skip(k + 1);
            lemma_lines_len(t);
            assert forall|i: int| 0 <= i < lines_spec(s).len() implies (#[trigger] lines_spec(s)[i]).len() <= s.len() by {
                if i > 0 {
                    assert(lines_spec(s)[i] == lines_spec(t)[i - 1]);
                }
            }
        }
    }
}


/// Trimming never lengthens a text.
pub proof fn lemma_trim_len(s: Seq<char>)
    ensures
        trim_spec(s).len() <= s.len(),
{
    lemma_trim_start_len(s);
    lemma_trim_end_prefix(trim_start_spec(s));
}

/// Whether `needle` occurs in `hay` as a run of consecutive characters.
pub open spec fn occurs_in(needle: Seq<char>, hay: Seq<char>) -> bool {
    exists|i: int| 0 <= i && i + needle.len() <= hay.len() && #[trigger] hay.subrange(i, i + needle.len()) == needle
}

/// Whether `n` occurs in `h` at `i`.
fn occurs_at(h: &[char], n: &[char], i: usize) -> (b: bool)
    requires
        i + n@.len() <= h@.len(),
    ensures
        b == (h@.subrange(i as int, i + n@.len()) == n@),
{
    let hl = h.len();
    let mut j: usize = 0;
    while j < n.len()
        invariant
            hl == h@.len(),
            i + n@.len() <= h@.len(),
            j <= n@.len(),
            forall|t: int| 0 <= t < j ==> h@[i + t] == n@[t],
        decreases n@.len() - j,
    {
        if h[i + j] != n[j] {
            assert(h@.subrange(i as int, i + n@.len())[j as int] != n@[j as int]);
            return false;
        }
        j = j + 1;
    }
    assert(h@.subrange(i as int, i + n@.len()) =~= n@);
    true
}

/// `str::contains` with a string pattern: whether `needle` occurs in `hay`.
pub fn str_contains(hay: &str, needle: &str) -> (b: bool)
    ensures
        b == occurs_in(needle@, hay@),
{
    let h = str_to_chars(hay);
    let n = str_to_chars(needle);
    if n.len() > h.len() {
        return false;
    }
    let count = h.len() - n.len();
    let mut i: usize = 0;
    loop
        invariant
            h@ == hay@,
            n@ == needle@,
            count == h@.len() - n@.len(),
            i <= count,
            forall|k: int| 0 <= k < i ==> #[trigger] h@.subrange(k, k + n@.len()) != n@,
        ensures
            forall|k: int| 0 <= k <= count ==> #[trigger] h@.subrange(k, k + n@.len()) != n@,
        decreases count - i,
    {
        if occurs_at(h.as_slice(), n.as_slice(), i) {
            return true;
        }
        if i == count {
            break;
        }
        i = i + 1;
    }
    assert forall|k: int| 0 <= k && k + needle@.len() <= hay@.len() implies #[trigger] hay@.subrange(k, k + needle@.len()) != needle@ by {
        assert(k <= count);
    }
    false
}

} // verus!
