//! How the emitter, the lexer's quoting, the scanner and the loader fit together: what one
//! writes, the others read back.
use vstd::prelude::*;
use crate::deserialize::scalar_text;
use crate::emitter::{need_quotes_spec, special_char, node_text, int_text, escaped_char, escaped_body, quoted, is_control, lower_hex_digit};
use crate::scanner::scalars::{joined_lines, lemma_joined_front, lemma_space_run_exact, break_run_end, space_run, sq_scan, plain_scan, dq_scan, escape_scan, simple_escape_char, hex_escape_len};
use crate::lexer::unicode::{EscapeStyle, escape_spec, escape_body_dq, escape_body_sq, escape_char_dq, escape_letter,
    is_control_char, hex_value, leading_hex_len, hex_digit_value, is_hex_digit};
use crate::parser::loader::{null_text, quoted_text, all_digits, ascii_lower, lower_eq, bool_word, i64_reading, loads_scalar, needs_float, resolves};
use crate::text::{decimal, decimal_value, digit_char, is_ws, trim_spec, trim_end_spec, trim_start_spec};
use crate::yaml::Yaml;
use crate::scanner::state::{marker_ahead, mark_of};
use crate::scanner::scanned_token;
use crate::scanner::token::Token;
use crate::error::ScanError;
use crate::events::TokenType;

verus! {

/// A decimal rendering is a non-empty run of digits worth the number it renders.
pub proof fn lemma_decimal_reads_back(n: nat)
    ensures
        decimal(n).len() > 0,
        all_digits(decimal(n)),
        decimal_value(decimal(n)) == n,
    decreases n,
{
    assert('0' as u32 == 48);
    let c = digit_char((n % 10) as int);
    assert(c as u32 == n % 10 + 48);
    assert(c as int == n % 10 + 48);
    if n < 10 {
        assert(decimal(n).drop_last() =~= Seq::<char>::empty());
        assert(decimal(n).last() == c);
        assert(decimal_value(decimal(n)) == decimal_value(Seq::<char>::empty()) * 10 + (c as int - '0' as int));
    } else {
        lemma_decimal_reads_back(n / 10);
        let d = decimal(n);
        assert(d.drop_last() =~= decimal(n / 10));
        assert(d.last() == c);
        assert(n == (n / 10) * 10 + n % 10);
        assert forall|i: int| 0 <= i < d.len() implies '0' <= #[trigger] d[i] <= '9' by {
            if i < d.len() - 1 {
                assert(d[i] == decimal(n / 10)[i]);
            }
        }
    }
}

/// A text with no White_Space at either end is its own trimming.
proof fn lemma_trim_unchanged(t: Seq<char>)
    requires
        t.len() > 0,
        !is_ws(t[0]),
        !is_ws(t.last()),
    ensures
        trim_spec(t) == t,
{
    assert(trim_start_spec(t) == t);
    assert(trim_end_spec(t) == t);
}

/// A text that starts with a digit or a sign and ends with a digit is none of null, a
/// quoted string or a boolean word, needs no float reading once it reads as an integer,
/// and is its own trimming.
proof fn lemma_numeric_text(t: Seq<char>)
    requires
        t.len() > 0,
        ('0' <= t[0] <= '9') || t[0] == '-' || t[0] == '+',
        '0' <= t.last() <= '9',
    ensures
        trim_spec(t) == t,
        bool_word(t) is None,
        t != "null"@,
        t != "~"@,
        !(t.len() >= 2 && ((t[0] == '"' && t.last() == '"') || (t[0] == '\'' && t.last() == '\''))),
{
    lemma_trim_unchanged(t);
    reveal_strlit("null");
    reveal_strlit("~");
    reveal_strlit("true");
    reveal_strlit("yes");
    reveal_strlit("on");
    reveal_strlit("false");
    reveal_strlit("no");
    reveal_strlit("off");
    assert(t != "null"@) by { assert("null"@[0] == 'n'); }
    assert(t != "~"@) by { assert("~"@[0] == '~'); }
}

/// Every `i64`, written in decimal as `{}` writes it (a minus sign before the digits of a
/// negative number), reads back as the same `i64`, and a scalar with that text loads as
/// that integer and nothing else.
pub proof fn law_integer_text_round_trip<F: Fn(&str) -> Option<String>>(f: F, i: i64, y: Yaml)
    ensures
        i64_reading(int_text(i)) == Some(i),
        loads_scalar(f, int_text(i), y) <==> y == Yaml::Integer(i),
{
    let t = int_text(i);
    if i < 0 {
        lemma_decimal_reads_back((-(i as int)) as nat);
        let d = decimal((-(i as int)) as nat);
        assert(t.drop_first() =~= d);
        assert(t.last() == d.last());
        assert(d.last() == d[d.len() - 1]);
    } else {
        lemma_decimal_reads_back(i as nat);
        assert(t[0] == decimal(i as nat)[0]);
        assert(t.last() == t[t.len() - 1]);
    }
    lemma_numeric_text(t);
    assert(i64_reading(t) == Some(i));
    assert(!needs_float(t));
    if y == Yaml::Integer(i) {
        assert(resolves(trim_spec(t), None, y));
    }
}

/// A lower-case word equals itself when case is ignored.
proof fn lemma_lower_eq_self(w: Seq<char>)
    requires
        forall|i: int| 0 <= i < w.len() ==> 'a' <= #[trigger] w[i] <= 'z',
    ensures
        lower_eq(w, w),
{
    assert forall|i: int| 0 <= i < w.len() implies ascii_lower(#[trigger] w[i]) == w[i] as u32 by {
        assert('a' as u32 == 97);
    }
}

/// Reading the decimal digits of a number `n` with an optional sign: `n` itself, or `-n`
/// after a minus sign, where that fits in an `i64`, and nothing where it does not.
pub proof fn law_signed_decimal_reading(n: nat)
    ensures
        i64_reading(decimal(n)) == (if n <= i64::MAX { Some(n as i64) } else { None::<i64> }),
        i64_reading(seq!['+'] + decimal(n)) == (if n <= i64::MAX { Some(n as i64) } else { None::<i64> }),
        i64_reading(seq!['-'] + decimal(n)) == (if n <= 0x8000_0000_0000_0000 { Some((-n) as i64) } else { None::<i64> }),
{
    lemma_decimal_reads_back(n);
    let d = decimal(n);
    assert('0' <= d[0] <= '9');
    assert((seq!['+'] + d).drop_first() =~= d);
    assert((seq!['-'] + d).drop_first() =~= d);
}

/// The text a null, boolean or integer value reads as loads back as that value and nothing
/// else: the empty text as null, `true` and `false` as the two booleans, and an integer's
/// decimal text as that integer.
pub proof fn law_scalar_text_loads_back<F: Fn(&str) -> Option<String>>(f: F, y: Yaml, z: Yaml)
    requires
        y is Null || y is Boolean || y is Integer,
    ensures
        scalar_text(y) is Some,
        loads_scalar(f, scalar_text(y)->0, z) <==> z == y,
{
    let t = scalar_text(y)->0;
    match y {
        Yaml::Integer(i) => {
            law_integer_text_round_trip(f, i, z);
        },
        Yaml::Boolean(b) => {
            reveal_strlit("true");
            reveal_strlit("false");
            reveal_strlit("null");
            reveal_strlit("~");
            lemma_trim_unchanged(t);
            assert(t != "null"@) by { assert("null"@[0] == 'n'); }
            assert(t != "~"@);
            if b {
                lemma_lower_eq_self(t);
                assert(bool_word(t) == Some(true));
            } else {
                lemma_lower_eq_self(t);
                assert(!lower_eq(t, "true"@));
                reveal_strlit("yes");
                reveal_strlit("on");
                assert(!lower_eq(t, "yes"@));
                assert(!lower_eq(t, "on"@));
                assert(bool_word(t) == Some(false));
            }
            assert(!needs_float(t));
            if z == y {
                assert(resolves(trim_spec(t), None, z));
            }
        },
        _ => {
            assert(t =~= Seq::<char>::empty());
            assert(trim_start_spec(t) == t);
            assert(trim_end_spec(t) == t);
            assert(!needs_float(t));
            if z == y {
                assert(resolves(trim_spec(t), None, z));
            }
        },
    }
}

/// What the emitter writes for a null, boolean or integer value loads back as that value
/// and nothing else: `~` as null, `true` and `false` as the two booleans, and an integer's
/// decimal text as that integer.
pub proof fn law_emitted_scalar_loads_back<F: Fn(&str) -> Option<String>>(f: F, y: Yaml, z: Yaml, level: int,
    bi: nat, compact: bool)
    requires
        y is Null || y is Boolean || y is Integer,
    ensures
        loads_scalar(f, node_text(y, level, bi, compact), z) <==> z == y,
{
    match y {
        Yaml::Null => {
            let t = node_text(y, level, bi, compact);
            reveal_strlit("~");
            assert(t.len() == 1 && t[0] == '~');
            lemma_trim_unchanged(t);
            assert(!needs_float(t));
            if z == y {
                assert(resolves(trim_spec(t), None, z));
            }
        },
        _ => {
            law_scalar_text_loads_back(f, y, z);
            assert(node_text(y, level, bi, compact) == scalar_text(y)->0);
        },
    }
}

/// Escaping a string character by character from the front.
pub proof fn lemma_escaped_body_front(s: Seq<char>)
    requires
        s.len() > 0,
    ensures
        escaped_body(s) == escaped_char(s[0]) + escaped_body(s.drop_first()),
    decreases s.len(),
{
    if s.len() == 1 {
        assert(s.drop_last() =~= Seq::<char>::empty());
        assert(s.drop_first() =~= Seq::<char>::empty());
        assert(escaped_body(s) =~= escaped_char(s[0]) + escaped_body(s.drop_first()));
    } else {
        let p = s.drop_last();
        lemma_escaped_body_front(p);
        assert(p.drop_first() =~= s.drop_first().drop_last());
        assert(s.drop_first().last() == s.last());
        assert(escaped_body(s) =~= escaped_char(s[0]) + escaped_body(s.drop_first()));
    }
}

/// A lower-case hexadecimal digit is a hexadecimal digit worth its value.
proof fn lemma_lower_hex_digit(d: int)
    requires
        0 <= d < 16,
    ensures
        is_hex_digit(lower_hex_digit(d)),
        hex_digit_value(lower_hex_digit(d)) == d,
{
    assert('0' as u32 == 48);
    assert('9' as u32 == 57);
    assert('a' as u32 == 97);
    assert('f' as u32 == 102);
    assert('A' as u32 == 65);
    let c = lower_hex_digit(d);
    if d < 10 {
        assert(c as u32 == d + 48);
    } else {
        assert(c as u32 == d + 87);
    }
}

/// A run of hexadecimal digits is all leading digits.
proof fn lemma_leading_hex_all(d: Seq<char>)
    requires
        forall|i: int| 0 <= i < d.len() ==> is_hex_digit(#[trigger] d[i]),
    ensures
        leading_hex_len(d) == d.len(),
    decreases d.len(),
{
    if d.len() > 0 {
        assert forall|i: int| 0 <= i < d.drop_first().len() implies is_hex_digit(#[trigger] d.drop_first()[i]) by {
            assert(d.drop_first()[i] == d[i + 1]);
        }
        lemma_leading_hex_all(d.drop_first());
    }
}

/// The escape that stands for a control character other than a line feed, a tab or a
/// carriage return: `\u` and four hexadecimal digits read back as that character.
proof fn lemma_unicode_escape(t: Seq<char>, i: int, c: char)
    requires
        is_control(c),
        0 <= i,
        i + 6 <= t.len(),
        t.subrange(i, i + 6) == escaped_char(c),
        c != '"' && c != '\\' && c != '\n' && c != '\t' && c != '\r',
    ensures
        escape_scan(t, i + 1) == Some((c, i + 6)),
{
    let n = c as u32 as int;
    assert(n < 160);
    let e = escaped_char(c);
    assert(t[i + 1] == e[1]);
    assert(t[i + 1] == 'u');
    assert(simple_escape_char('u') is None);
    assert(hex_escape_len('u') == 4);
    let d = t.subrange(i + 2, i + 6);
    let a = n / 4096;
    let b = (n / 256) % 16;
    let h = (n / 16) % 16;
    let l = n % 16;
    assert(a == 0 && b == 0);
    lemma_lower_hex_digit(a);
    lemma_lower_hex_digit(b);
    lemma_lower_hex_digit(h);
    lemma_lower_hex_digit(l);
    assert(d[0] == e[2] && d[1] == e[3] && d[2] == e[4] && d[3] == e[5]);
    assert(d[0] == lower_hex_digit(a));
    assert(d[1] == lower_hex_digit(b));
    assert(d[2] == lower_hex_digit(h));
    assert(d[3] == lower_hex_digit(l));
    lemma_leading_hex_all(d);
    assert(d.take(1).drop_last() =~= Seq::<char>::empty());
    assert(d.take(2).drop_last() =~= d.take(1));
    assert(d.take(3).drop_last() =~= d.take(2));
    assert(d.drop_last() =~= d.take(3));
    assert(d.take(1).last() == d[0]);
    assert(hex_value(Seq::<char>::empty()) == 0);
    assert(hex_value(d.take(1)) == hex_value(d.take(1).drop_last()) * 16 + hex_digit_value(d[0]));
    assert(hex_value(d.take(1)) == a);
    assert(hex_value(d.take(2)) == a * 16 + b);
    assert(hex_value(d.take(3)) == (a * 16 + b) * 16 + h);
    assert(hex_value(d) == ((a * 16 + b) * 16 + h) * 16 + l);
    assert(hex_value(d) == n);
    assert(crate::text::is_scalar_value(n));
    crate::text::lemma_char_of_code(c, n as u32);
}

/// One escaped character in double quotes, followed by more text, reads back as that
/// character.
proof fn lemma_dq_escaped_char(t: Seq<char>, i: int, c: char, acc: Seq<char>)
    requires
        0 <= i,
        i + escaped_char(c).len() < t.len(),
        t.subrange(i, i + escaped_char(c).len()) == escaped_char(c),
    ensures
        dq_scan(t, i, acc) == dq_scan(t, i + escaped_char(c).len(), acc.push(c)),
{
    let e = escaped_char(c);
    assert(t[i] == e[0]);
    if c == '"' || c == '\\' || c == '\n' || c == '\t' || c == '\r' {
        assert(t[i + 1] == e[1]);
        assert(escape_scan(t, i + 1) == Some((c, i + 2)));
    } else if is_control(c) {
        lemma_unicode_escape(t, i, c);
    } else {
        assert(t[i] == c);
    }
}

/// The escaped text of `s` up to a closing quote reads back as `s`.
proof fn lemma_dq_escaped_body(t: Seq<char>, i: int, s: Seq<char>, acc: Seq<char>)
    requires
        0 <= i,
        i + escaped_body(s).len() < t.len(),
        t.subrange(i, i + escaped_body(s).len()) == escaped_body(s),
        t[i + escaped_body(s).len()] == '"',
    ensures
        dq_scan(t, i, acc) == Some((acc + s, i + escaped_body(s).len() + 1)),
    decreases s.len(),
{
    if s.len() == 0 {
        assert(acc + s =~= acc);
    } else {
        lemma_escaped_body_front(s);
        let e = escaped_char(s[0]);
        let r = escaped_body(s.drop_first());
        let k = i + e.len();
        assert(t.subrange(i, k) =~= escaped_body(s).subrange(0, e.len() as int));
        assert(t.subrange(i, k) =~= e);
        let eb = escaped_body(s);
        assert(eb.subrange(e.len() as int, eb.len() as int) =~= r);
        assert forall|j: int| 0 <= j < r.len() implies t.subrange(k, k + r.len())[j] == r[j] by {
            assert(t.subrange(i, i + eb.len())[e.len() + j] == eb[e.len() + j]);
        }
        assert(t.subrange(k, k + r.len()) =~= r);
        lemma_dq_escaped_char(t, i, s[0], acc);
        lemma_dq_escaped_body(t, k, s.drop_first(), acc.push(s[0]));
        assert(acc.push(s[0]) + s.drop_first() =~= acc + s);
    }
}

/// What the emitter writes in double quotes reads back as the string itself: after any
/// text and just after the opening quote, the double-quoted reader takes every character of `s` back out of its
/// escapes and stops just past the closing quote, whatever text follows.
pub proof fn law_double_quoted_round_trip(pre: Seq<char>, s: Seq<char>, rest: Seq<char>)
    ensures
        dq_scan(pre + quoted(s) + rest, pre.len() as int + 1, Seq::empty())
            == Some((s, (pre.len() + quoted(s).len()) as int)),
{
    let t = pre + quoted(s) + rest;
    let b = escaped_body(s);
    let p = pre.len() as int;
    assert(t.subrange(p + 1, p + 1 + b.len() as int) =~= b);
    assert(t[p + 1 + b.len() as int] == '"');
    lemma_dq_escaped_body(t, p + 1, s, Seq::empty());
    assert(Seq::<char>::empty() + s =~= s);
}

/// Text that the emitter leaves unquoted, with no `:` before a space or at its end, no
/// document marker and no White_Space at its end other than a space.
pub open spec fn plain_readable(s: Seq<char>) -> bool {
    &&& !need_quotes_spec(s)
    &&& (s.len() > 0 ==> s.last() == ' ' || !is_ws(s.last()))
    &&& forall|j: int| 0 <= j < s.len() && #[trigger] s[j] == ':' ==> j + 1 < s.len() && s[j + 1] != ' '
    &&& forall|j: int| 0 <= j < s.len() ==> !(#[trigger] marker_ahead(s, j, '-'))
    &&& forall|j: int| 0 <= j < s.len() ==> !(#[trigger] marker_ahead(s, j, '.'))
}

/// Reading plain text `s` that stands at `i0` from `i` on, with `res` and the pending spaces
/// `sp` read so far after the text `base`: it takes the rest of `s`, and goes on after it
/// at the line feed that follows, if any, with `base + s` read.
proof fn lemma_plain_reads_line(t: Seq<char>, i0: int, s: Seq<char>, col: usize, flow: bool, i: int,
    base: Seq<char>, res: Seq<char>, sp: Seq<char>)
    requires
        plain_readable(s),
        0 <= i0 <= i <= i0 + s.len() <= t.len(),
        t.subrange(i0, i0 + s.len()) == s,
        i0 + s.len() < t.len() ==> t[i0 + s.len()] == '\n',
        res + sp == base + s.take(i - i0),
        forall|k: int| 0 <= k < sp.len() ==> sp[k] == ' ',
        sp.len() > 0 ==> i > i0 && s[i - i0 - 1] == ' ',
    ensures
        i0 + s.len() == t.len() ==> plain_scan(t, i, col, flow, res, sp)
            == Ok::<(Seq<char>, int), (int, bool)>((base + s, t.len() as int)),
        i0 + s.len() < t.len() ==> plain_scan(t, i, col, flow, res, sp)
            == plain_scan(t, i0 + s.len(), col, flow, base + s, Seq::empty()),
    decreases t.len() - i,
{
    let n = t.len() as int;
    let e = i0 + s.len();
    assert(s.len() > 0);
    if i >= e {
        assert(s.take(i - i0) =~= s);
        if sp.len() > 0 {
            assert(s[s.len() - 1] == s.last());
        }
        assert(sp.len() == 0);
        assert(res =~= base + s);
        assert((base + s).last() == s.last());
        assert(crate::text::trim_end_spec(base + s) == base + s);
    } else {
        let ch = t[i];
        let j = i - i0;
        assert(ch == s[j]);
        assert(!special_char(s[j]));
        if j + 1 < s.len() {
            assert(t[i + 1] == s[j + 1]);
            assert(!special_char(s[j + 1]));
        }
        assert(!marker_ahead(s, j, '-') && !marker_ahead(s, j, '.'));
        if ch == '-' || ch == '.' {
            if marker_ahead(t, i, ch) {
                assert(i + 2 < e) by {
                    if i + 1 == e { assert(t[i + 1] == '\n'); }
                    if i + 2 == e { assert(t[i + 2] == '\n'); }
                }
                assert(t[i + 1] == s[j + 1] && t[i + 2] == s[j + 2]);
                if i + 3 < e {
                    assert(t[i + 3] == s[j + 3]);
                }
                assert(marker_ahead(s, j, ch));
            }
        }
        if ch == ' ' {
            assert(res + sp.push(' ') =~= base + s.take(j + 1));
            lemma_plain_reads_line(t, i0, s, col, flow, i + 1, base, res, sp.push(' '));
        } else {
            let r2 = (if sp.len() > 0 { res + sp } else { res }).push(ch);
            assert(r2 + Seq::<char>::empty() =~= base + s.take(j + 1));
            lemma_plain_reads_line(t, i0, s, col, flow, i + 1, base, r2, Seq::empty());
        }
    }
}

/// A string that the emitter writes without quotes reads back as itself: in block or flow
/// context, from any column and after any text, the plain scalar reader takes the whole
/// string up to the end of the input, provided that no `:` in it stands before a space or at
/// its end, that it holds no document marker and that it ends in no White_Space other than
/// a space (texts that the emitter leaves unquoted but reads differently).
pub proof fn law_plain_round_trip(pre: Seq<char>, s: Seq<char>, col: usize, flow: bool)
    requires
        plain_readable(s),
    ensures
        plain_scan(pre + s, pre.len() as int, col, flow, Seq::empty(), Seq::empty())
            == Ok::<(Seq<char>, int), (int, bool)>((s, (pre + s).len() as int)),
{
    let t = pre + s;
    assert(t.subrange(pre.len() as int, t.len() as int) =~= s);
    assert(Seq::<char>::empty() + Seq::<char>::empty() =~= Seq::<char>::empty() + s.take(0));
    assert(Seq::<char>::empty() + s =~= s);
    lemma_plain_reads_line(t, pre.len() as int, s, col, flow, pre.len() as int, Seq::empty(), Seq::empty(),
        Seq::empty());
}

/// Lines of plain text, each after the first on a line of its own indented by `k` spaces.
pub open spec fn plain_lines(ls: Seq<Seq<char>>, k: nat) -> Seq<char>
    decreases ls.len(),
{
    if ls.len() == 0 {
        Seq::empty()
    } else if ls.len() == 1 {
        ls[0]
    } else {
        ls[0] + seq!['\n'] + Seq::new(k, |i: int| ' ') + plain_lines(ls.drop_first(), k)
    }
}

/// Plain lines from `i` to the end, read after the text `base`.
proof fn lemma_plain_lines(t: Seq<char>, i: int, ls: Seq<Seq<char>>, k: nat, col: usize, base: Seq<char>)
    requires
        ls.len() > 0,
        forall|j: int| 0 <= j < ls.len() ==> plain_readable(#[trigger] ls[j]),
        1 <= k,
        col <= k,
        0 <= i <= t.len(),
        t.subrange(i, t.len() as int) == plain_lines(ls, k),
    ensures
        plain_scan(t, i, col, false, base, Seq::empty())
            == Ok::<(Seq<char>, int), (int, bool)>((base + joined_lines(ls, ' '), t.len() as int)),
    decreases ls.len(),
{
    let l = ls[0];
    assert(plain_readable(ls[0]));
    assert(l.len() > 0);
    assert(base + Seq::<char>::empty() =~= base + l.take(0));
    if ls.len() == 1 {
        assert(t.subrange(i, i + l.len()) =~= l);
        lemma_plain_reads_line(t, i, l, col, false, i, base, base, Seq::empty());
    } else {
        let r = ls.drop_first();
        let u = plain_lines(r, k);
        let sp = Seq::new(k, |m: int| ' ');
        let w = t.subrange(i, t.len() as int);
        assert(w == l + seq!['\n'] + sp + u);
        let e = i + l.len();
        assert forall|m: int| 0 <= m < l.len() implies #[trigger] t.subrange(i, e)[m] == l[m] by {
            assert(t[i + m] == w[m]);
        }
        assert(t.subrange(i, e) =~= l);
        assert(t[e] == w[l.len() as int]);
        lemma_plain_reads_line(t, i, l, col, false, i, base, base, Seq::empty());
        let q = e + 1 + k;
        assert forall|m: int| e + 1 <= m < q implies #[trigger] t[m] == ' ' by {
            assert(t[m] == w[m - i]);
        }
        assert(r.len() > 0);
        assert(plain_readable(r[0]));
        assert(r[0] == ls[1]);
        assert(u.len() > 0 && u[0] == r[0][0]) by {
            if r.len() > 1 {
                assert(u == r[0] + seq!['\n'] + sp + plain_lines(r.drop_first(), k));
            }
        }
        assert(t[q] == w[q - i]);
        assert(t[q] == r[0][0]);
        assert(!special_char(r[0][0]));
        assert(r[0][0] != ' ');
        lemma_space_run_exact(t, e + 1, q);
        assert(t[e + 1] == ' ');
        assert(break_run_end(t, e + 1) == e + 1);
        assert(space_run(t, e + 1) == k);
        let b2 = (base + l).push(' ');
        assert forall|m: int| 0 <= m < u.len() implies #[trigger] t.subrange(q, t.len() as int)[m] == u[m] by {
            assert(t[q + m] == w[q + m - i]);
        }
        assert(t.subrange(q, t.len() as int) =~= u);
        assert forall|j: int| 0 <= j < r.len() implies plain_readable(#[trigger] r[j]) by {
            assert(r[j] == ls[j + 1]);
        }
        lemma_plain_lines(t, q, r, k, col, b2);
        assert(plain_scan(t, e, col, false, base + l, Seq::empty()) == plain_scan(t, q, col, false, b2, Seq::empty()));
        lemma_joined_front(ls, ' ');
        assert(b2 + joined_lines(r, ' ') =~= base + joined_lines(ls, ' '));
    }
}

/// A plain scalar over several lines folds them: lines of text that the emitter leaves
/// unquoted and that read back as themselves, each after the first on a line of its own
/// indented by the same number of spaces (at least one, and at least the scalar's column),
/// read in block context as one text with a space in place of each line break.
pub proof fn law_plain_lines_fold(pre: Seq<char>, ls: Seq<Seq<char>>, k: nat, col: usize)
    requires
        ls.len() > 0,
        forall|j: int| 0 <= j < ls.len() ==> plain_readable(#[trigger] ls[j]),
        1 <= k,
        col <= k,
    ensures
        plain_scan(pre + plain_lines(ls, k), pre.len() as int, col, false, Seq::empty(), Seq::empty())
            == Ok::<(Seq<char>, int), (int, bool)>((joined_lines(ls, ' '), (pre + plain_lines(ls, k)).len() as int)),
{
    let t = pre + plain_lines(ls, k);
    assert(t.subrange(pre.len() as int, t.len() as int) =~= plain_lines(ls, k));
    lemma_plain_lines(t, pre.len() as int, ls, k, col, Seq::empty());
    assert(Seq::<char>::empty() + joined_lines(ls, ' ') =~= joined_lines(ls, ' '));
}

/// A string holding `#` is written in double quotes: unquoted, ` #` would start a comment.
pub proof fn law_hash_forces_quotes(x: String, level: int, bi: nat, compact: bool, k: int)
    requires
        0 <= k < x@.len(),
        x@[k] == '#',
    ensures
        node_text(Yaml::String(x), level, bi, compact) == quoted(x@),
{
    assert(special_char(x@[k]));
}

/// A string value as the emitter writes it scans back as one scalar token that holds the
/// same string: wherever the text starts, in block or flow context, the scanner takes the
/// whole text as a double-quoted scalar where the emitter quoted the string, and as a plain
/// scalar where it did not. Texts that the emitter leaves unquoted but reads differently
/// are left out: those with a `:` before a space or at the end, a document marker, White_Space
/// other than a space at the end, or a byte order mark at the start.
pub proof fn law_string_scans_back(x: String, level: int, bi: nat, compact: bool, pre: Seq<char>, fl: usize,
    ended: bool, r: Result<Token, ScanError>, p2: int)
    requires
        need_quotes_spec(x@) || (plain_readable(x@) && x@[0] != '\u{feff}'),
        scanned_token(pre + node_text(Yaml::String(x), level, bi, compact), pre.len() as int, fl, ended, r, p2),
    ensures
        r matches Ok(t) && t.0 == mark_of(pre + node_text(Yaml::String(x), level, bi, compact), pre.len() as int)
            && (t.1 matches TokenType::Scalar(_, v) && v@ == x@),
        p2 == (pre + node_text(Yaml::String(x), level, bi, compact)).len(),
{
    let e = node_text(Yaml::String(x), level, bi, compact);
    let t = pre + e;
    let q = pre.len() as int;
    if need_quotes_spec(x@) {
        law_double_quoted_round_trip(pre, x@, Seq::empty());
        assert(pre + quoted(x@) + Seq::<char>::empty() =~= t);
        assert(t[q] == '"');
    } else {
        assert(x@.len() > 0);
        assert(t[q] == x@[0]);
        assert(!special_char(x@[0]));
        law_plain_round_trip(pre, x@, mark_of(t, q).col, fl > 0);
        assert(!marker_ahead(x@, 0, '.'));
        if marker_ahead(t, q, '.') {
            assert(t[q + 1] == x@[1] && t[q + 2] == x@[2]);
            if q + 3 < t.len() {
                assert(t[q + 3] == x@[3]);
            }
        }
    }
    assert(crate::scanner::utils::ws_skip(t, q) == Ok::<int, int>(q));
}

/// A string that the emitter writes unquoted loads as that same string, once the float
/// reader finds no float in it: its text is none of null, a quoted string, a boolean or an
/// integer. Left out are the texts that the emitter leaves unquoted but that load as
/// something else: White_Space other than a space at either end, the boolean words other
/// than `true` and `false` and their capitalised forms (such as `yes` or `OFF`), and the
/// special float names (such as `.inf`).
pub proof fn law_plain_string_loads_as_string<F: Fn(&str) -> Option<String>>(f: F, x: String, y: Yaml)
    requires
        !need_quotes_spec(x@),
        !is_ws(x@[0]),
        !is_ws(x@.last()),
        bool_word(x@) is Some ==> x@ == "true"@ || x@ == "false"@ || x@ == "True"@ || x@ == "False"@,
        !lower_eq(x@, ".inf"@),
        !lower_eq(x@, "+.inf"@),
        !lower_eq(x@, "-.inf"@),
        !lower_eq(x@, ".nan"@),
    ensures
        node_text(Yaml::String(x), 0, 0, false) == x@,
        resolves(trim_spec(x@), None, y) <==> (y matches Yaml::String(z) && z@ == x@),
        crate::parser::loader::float_reading(f, x@, None) && y == Yaml::String(x) ==> loads_scalar(f, x@, y),
{
    let s = x@;
    assert(s.len() > 0);
    lemma_trim_unchanged(s);
    assert(!null_text(s));
    assert(!special_char(s[0]));
    assert(!special_char(s[s.len() - 1]));
    assert(!quoted_text(s));
    assert(i64_reading(s) is None);
    assert(bool_word(s) is None);
    if crate::parser::loader::float_reading(f, s, None) && y == Yaml::String(x) {
        assert(resolves(trim_spec(s), None, y));
    }
}

/// The scanner decodes each one-letter escape of a double-quoted scalar as the lexer does,
/// and as the parser's scalar reader does for every letter other than a tab.
pub proof fn law_escape_tables_agree(c: char)
    ensures
        simple_escape_char(c) == crate::lexer::unicode::simple_escape(c),
        c != '\t' ==> crate::parser::scalars::dq_simple_escape(c) == simple_escape_char(c),
{
}

/// One character as the lexer writes it in double quotes, followed by more text, reads back
/// as that character.
proof fn lemma_dq_lexer_char(t: Seq<char>, i: int, c: char, acc: Seq<char>)
    requires
        0 <= i,
        i + escape_char_dq(c).len() < t.len(),
        t.subrange(i, i + escape_char_dq(c).len()) == escape_char_dq(c),
    ensures
        dq_scan(t, i, acc) == dq_scan(t, i + escape_char_dq(c).len(), acc.push(c)),
{
    let e = escape_char_dq(c);
    assert(t[i] == e[0]);
    if escape_letter(c) is Some {
        assert(t[i + 1] == e[1]);
        assert(simple_escape_char(escape_letter(c)->0) == Some(c));
        assert(escape_scan(t, i + 1) == Some((c, i + 2)));
    } else if is_control_char(c) {
        let n = c as u32;
        assert(n <= 0x9F);
        crate::lexer::unicode::lemma_hex_fixed_two(n as nat);
        let h = crate::text::hex_fixed(n as nat, 2);
        assert(e =~= seq!['\\', 'x'] + h);
        assert(e.len() == 4);
        assert(t[i + 1] == e[1]);
        assert(t[i + 1] == 'x');
        assert(simple_escape_char('x') is None);
        let d = t.subrange(i + 2, i + 4);
        assert(t[i + 2] == e[2] && t[i + 3] == e[3]);
        assert(d =~= h);
        lemma_leading_hex_all(d);
        assert(((n as u32) as u8) as u32 == n);
        crate::text::lemma_char_of_code(c, n);
        assert(escape_scan(t, i + 1) == Some((c, i + 4)));
    } else {
        assert(t[i] == c);
    }
}

/// The lexer's double-quoted text for `s` up to a closing quote reads back as `s`.
proof fn lemma_dq_lexer_body(t: Seq<char>, i: int, s: Seq<char>, acc: Seq<char>)
    requires
        0 <= i,
        i + escape_body_dq(s).len() < t.len(),
        t.subrange(i, i + escape_body_dq(s).len()) == escape_body_dq(s),
        t[i + escape_body_dq(s).len()] == '"',
    ensures
        dq_scan(t, i, acc) == Some((acc + s, i + escape_body_dq(s).len() + 1)),
    decreases s.len(),
{
    if s.len() == 0 {
        assert(acc + s =~= acc);
    } else {
        crate::lexer::unicode::lemma_escape_body_front(s);
        let e = escape_char_dq(s[0]);
        let r = escape_body_dq(s.drop_first());
        let k = i + e.len();
        let eb = escape_body_dq(s);
        assert(t.subrange(i, k) =~= eb.subrange(0, e.len() as int));
        assert(t.subrange(i, k) =~= e);
        assert(eb.subrange(e.len() as int, eb.len() as int) =~= r);
        assert forall|j: int| 0 <= j < r.len() implies t.subrange(k, k + r.len())[j] == r[j] by {
            assert(t.subrange(i, i + eb.len())[e.len() + j] == eb[e.len() + j]);
        }
        assert(t.subrange(k, k + r.len()) =~= r);
        lemma_dq_lexer_char(t, i, s[0], acc);
        lemma_dq_lexer_body(t, k, s.drop_first(), acc.push(s[0]));
        assert(acc.push(s[0]) + s.drop_first() =~= acc + s);
    }
}

/// Quoting a string from the front: the first character's quoting, then the rest.
proof fn lemma_escape_body_sq_front(s: Seq<char>)
    requires
        s.len() > 0,
    ensures
        escape_body_sq(s) == (if s[0] == '\'' { seq!['\'', '\''] } else { seq![s[0]] }) + escape_body_sq(s.drop_first()),
    decreases s.len(),
{
    let q = if s[0] == '\'' { seq!['\'', '\''] } else { seq![s[0]] };
    if s.len() == 1 {
        assert(s.drop_last() =~= Seq::<char>::empty());
        assert(s.drop_first() =~= Seq::<char>::empty());
        assert(escape_body_sq(s) =~= q + escape_body_sq(s.drop_first()));
    } else {
        lemma_escape_body_sq_front(s.drop_last());
        assert(s.drop_last().drop_first() =~= s.drop_first().drop_last());
        assert(s.drop_first().last() == s.last());
        assert(s.drop_last()[0] == s[0]);
        assert(escape_body_sq(s) =~= q + escape_body_sq(s.drop_first()));
    }
}

/// The lexer's single-quoted text for a string without line breaks, up to a closing quote
/// that no second quote follows, reads back as the string.
proof fn lemma_sq_lexer_body(t: Seq<char>, i: int, s: Seq<char>, acc: Seq<char>)
    requires
        0 <= i,
        i + escape_body_sq(s).len() < t.len(),
        t.subrange(i, i + escape_body_sq(s).len()) == escape_body_sq(s),
        t[i + escape_body_sq(s).len()] == '\'',
        i + escape_body_sq(s).len() + 1 < t.len() ==> t[i + escape_body_sq(s).len() + 1] != '\'',
        forall|j: int| 0 <= j < s.len() ==> #[trigger] s[j] != '\n' && s[j] != '\r',
    ensures
        sq_scan(t, i, acc) == Some((acc + s, i + escape_body_sq(s).len() + 1)),
    decreases s.len(),
{
    if s.len() == 0 {
        assert(acc + s =~= acc);
    } else {
        lemma_escape_body_sq_front(s);
        let c = s[0];
        let e = if c == '\'' { seq!['\'', '\''] } else { seq![c] };
        let r = escape_body_sq(s.drop_first());
        let k = i + e.len();
        let eb = escape_body_sq(s);
        assert(t.subrange(i, i + eb.len())[0] == eb[0]);
        assert(t[i] == e[0]);
        if c == '\'' {
            assert(t.subrange(i, i + eb.len())[1] == eb[1]);
            assert(t[i + 1] == '\'');
        }
        assert(eb.subrange(e.len() as int, eb.len() as int) =~= r);
        assert forall|j: int| 0 <= j < r.len() implies t.subrange(k, k + r.len())[j] == r[j] by {
            assert(t.subrange(i, i + eb.len())[e.len() + j] == eb[e.len() + j]);
        }
        assert(t.subrange(k, k + r.len()) =~= r);
        let d = s.drop_first();
        assert forall|j: int| 0 <= j < d.len() implies #[trigger] d[j] != '\n' && d[j] != '\r' by {
            assert(d[j] == s[j + 1]);
        }
        lemma_sq_lexer_body(t, k, d, acc.push(c));
        assert(acc.push(c) + d =~= acc + s);
    }
}

/// What the lexer writes for a string in quotes scans back as the string: after any text and
/// just after the opening quote, the scanner's double-quoted reader takes every character
/// back out of its escapes, and its single-quoted reader takes back every doubled quote, for
/// a string without line breaks and where no quote follows the closing one; each stops just
/// past the closing quote.
pub proof fn law_lexer_quoting_scans_back(pre: Seq<char>, s: Seq<char>, rest: Seq<char>)
    ensures
        dq_scan(pre + escape_spec(s, EscapeStyle::DoubleQuoted) + rest, pre.len() as int + 1, Seq::empty())
            == Some((s, (pre.len() + escape_spec(s, EscapeStyle::DoubleQuoted).len()) as int)),
        (forall|j: int| 0 <= j < s.len() ==> #[trigger] s[j] != '\n' && s[j] != '\r')
            && (rest.len() == 0 || rest[0] != '\'')
            ==> sq_scan(pre + escape_spec(s, EscapeStyle::SingleQuoted) + rest, pre.len() as int + 1, Seq::empty())
                == Some((s, (pre.len() + escape_spec(s, EscapeStyle::SingleQuoted).len()) as int)),
{
    let p = pre.len() as int;
    let t = pre + escape_spec(s, EscapeStyle::DoubleQuoted) + rest;
    let b = escape_body_dq(s);
    assert(t.subrange(p + 1, p + 1 + b.len() as int) =~= b);
    assert(t[p + 1 + b.len() as int] == '"');
    lemma_dq_lexer_body(t, p + 1, s, Seq::empty());
    assert(Seq::<char>::empty() + s =~= s);
    if (forall|j: int| 0 <= j < s.len() ==> #[trigger] s[j] != '\n' && s[j] != '\r')
        && (rest.len() == 0 || rest[0] != '\'') {
        let u = pre + escape_spec(s, EscapeStyle::SingleQuoted) + rest;
        let c = escape_body_sq(s);
        assert(u.subrange(p + 1, p + 1 + c.len() as int) =~= c);
        assert(u[p + 1 + c.len() as int] == '\'');
        if p + 2 + c.len() < u.len() {
            assert(u[p + 2 + c.len() as int] == rest[0]);
        }
        lemma_sq_lexer_body(u, p + 1, s, Seq::empty());
    }
}

} // verus!
