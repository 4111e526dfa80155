//! The choices a deserializer makes from a `Yaml` value: which integer width to offer,
//! whether an integer fits a width, what text a scalar reads as, and which single
//! character a string holds.
use vstd::prelude::*;
use crate::emitter::int_text;
use crate::text::{push_str, str_to_chars};
use crate::yaml::Yaml;

verus! {

/// The integer visit an integer value is offered as.
#[derive(Debug, Clone, Copy, PartialEq, Eq, Structural)]
pub enum IntegerVisit {
    I8,
    I16,
    I32,
    I64,
    U8,
    U16,
    U32,
    U64,
}

/// The narrowest width that holds an integer: signed widths for negative values, unsigned
/// ones for the others.
pub open spec fn visit_for(v: i64) -> IntegerVisit {
    if v < 0 {
        if v >= -0x80 { IntegerVisit::I8 }
        else if v >= -0x8000 { IntegerVisit::I16 }
        else if v >= -0x8000_0000 { IntegerVisit::I32 }
        else { IntegerVisit::I64 }
    } else if v <= 0xFF {
        IntegerVisit::U8
    } else if v <= 0xFFFF {
        IntegerVisit::U16
    } else if v <= 0xFFFF_FFFF {
        IntegerVisit::U32
    } else {
        IntegerVisit::U64
    }
}

/// The narrowest width that holds an integer (`visit_for`).
pub fn integer_visit(value: i64) -> (w: IntegerVisit)
    ensures
        w == visit_for(value),
{
    if value < 0 {
        if value >= -0x80 {
            IntegerVisit::I8
        } else if value >= -0x8000 {
            IntegerVisit::I16
        } else if value >= -0x8000_0000 {
            IntegerVisit::I32
        } else {
            IntegerVisit::I64
        }
    } else if value <= 0xFF {
        IntegerVisit::U8
    } else if value <= 0xFFFF {
        IntegerVisit::U16
    } else if value <= 0xFFFF_FFFF {
        IntegerVisit::U32
    } else {
        IntegerVisit::U64
    }
}

/// The values an integer width holds.
pub open spec fn visit_holds(w: IntegerVisit, v: int) -> bool {
    match w {
        IntegerVisit::I8 => -128 <= v <= 127,
        IntegerVisit::I16 => -32768 <= v <= 32767,
        IntegerVisit::I32 => -2147483648 <= v <= 2147483647,
        IntegerVisit::I64 => -9223372036854775808 <= v <= 9223372036854775807,
        IntegerVisit::U8 => 0 <= v <= 255,
        IntegerVisit::U16 => 0 <= v <= 65535,
        IntegerVisit::U32 => 0 <= v <= 4294967295,
        IntegerVisit::U64 => 0 <= v <= 18446744073709551615,
    }
}

/// The number of bits of an integer width.
pub open spec fn visit_bits(w: IntegerVisit) -> nat {
    match w {
        IntegerVisit::I8 | IntegerVisit::U8 => 8,
        IntegerVisit::I16 | IntegerVisit::U16 => 16,
        IntegerVisit::I32 | IntegerVisit::U32 => 32,
        IntegerVisit::I64 | IntegerVisit::U64 => 64,
    }
}

/// Whether an integer width is signed.
pub open spec fn visit_signed(w: IntegerVisit) -> bool {
    w is I8 || w is I16 || w is I32 || w is I64
}

/// The width an integer is offered as holds it, is signed exactly for a negative value, and
/// no width of the same kind with fewer bits holds it.
pub proof fn lemma_visit_is_narrowest(v: i64, w: IntegerVisit)
    ensures
        visit_holds(visit_for(v), v as int),
        visit_signed(visit_for(v)) == (v < 0),
        visit_signed(w) == visit_signed(visit_for(v)) && visit_holds(w, v as int)
            ==> visit_bits(visit_for(v)) <= visit_bits(w),
{
}

/// Whether a value fits a signed integer of `bits` bits (8, 16 or 32).
pub fn fits_signed(value: i64, bits: u32) -> (b: bool)
    requires
        bits == 8 || bits == 16 || bits == 32,
    ensures
        b == (if bits == 8 { -0x80 <= value < 0x80 } else if bits == 16 { -0x8000 <= value < 0x8000 }
            else { -0x8000_0000 <= value < 0x8000_0000 }),
{
    if bits == 8 {
        -0x80 <= value && value < 0x80
    } else if bits == 16 {
        -0x8000 <= value && value < 0x8000
    } else {
        -0x8000_0000 <= value && value < 0x8000_0000
    }
}

/// Whether a value fits an unsigned integer of `bits` bits (8, 16, 32 or 64).
pub fn fits_unsigned(value: i64, bits: u32) -> (b: bool)
    requires
        bits == 8 || bits == 16 || bits == 32 || bits == 64,
    ensures
        b == (0 <= value && (if bits == 8 { value <= 0xFF } else if bits == 16 { value <= 0xFFFF }
            else if bits == 32 { value <= 0xFFFF_FFFF } else { true })),
{
    if value < 0 {
        false
    } else if bits == 8 {
        value <= 0xFF
    } else if bits == 16 {
        value <= 0xFFFF
    } else if bits == 32 {
        value <= 0xFFFF_FFFF
    } else {
        true
    }
}

/// The text a scalar value reads as: a string itself, an integer in decimal, a float's
/// text, `true` or `false`, and the empty text for null; other values have none.
pub open spec fn scalar_text(y: Yaml) -> Option<Seq<char>> {
    match y {
        Yaml::String(s) => Some(s@),
        Yaml::Integer(i) => Some(int_text(i)),
        Yaml::Real(s) => Some(s@),
        Yaml::Boolean(b) => Some(if b { "true"@ } else { "false"@ }),
        Yaml::Null => Some(Seq::empty()),
        _ => None,
    }
}

/// The text a scalar value reads as (`scalar_text`).
pub fn scalar_as_text(y: &Yaml) -> (r: Option<String>)
    ensures
        match scalar_text(*y) {
            Some(t) => r matches Some(s) && s@ == t,
            None => r is None,
        },
{
    match y {
        Yaml::String(s) => Some(s.clone()),
        Yaml::Integer(i) => {
            let mut out = String::new();
            crate::emitter::push_int(&mut out, *i);
            Some(out)
        },
        Yaml::Real(s) => Some(s.clone()),
        Yaml::Boolean(b) => {
            let mut out = String::new();
            if *b {
                push_str(&mut out, "true");
            } else {
                push_str(&mut out, "false");
            }
            Some(out)
        },
        Yaml::Null => Some(String::new()),
        _ => None,
    }
}

/// The one character a string holds, if it holds exactly one.
pub fn single_char(s: &str) -> (r: Option<char>)
    ensures
        s@.len() == 1 <==> r is Some,
        r matches Some(c) ==> c == s@[0],
{
    let v = str_to_chars(s);
    if v.len() == 1 { Some(v[0]) } else { None }
}

} // verus!
