//! Scan positions and scan errors.
use vstd::prelude::*;
use crate::text::{push_str, push_decimal, decimal};

verus! {

/// The scanning position for error reporting.
#[derive(Clone, Copy, PartialEq, Debug, Eq, Structural)]
pub struct Marker {
    pub index: usize,
    pub line: usize,
    pub col: usize,
}

impl Default for Marker {
    /// The position at the start of a stream: index 0, line 1, column 0.
    fn default() -> (m: Self)
        ensures
            m == (Marker { index: 0, line: 1, col: 0 }),
    {
        Self { index: 0, line: 1, col: 0 }
    }
}

/// The parse error used by the scanner/parser if something goes wrong.
#[derive(Clone, Debug)]
pub struct ScanError {
    pub mark: Marker,
    pub info: String,
}

impl ScanError {
    /// An error at `mark` with the message `info`.
    pub fn new(mark: Marker, info: &str) -> (e: Self)
        ensures
            e.mark == mark,
            e.info@ == info@,
    {
        Self { mark, info: info.to_owned() }
    }

    /// The message as it is displayed: `"{info} at line {line} col {col + 1}"`.
    pub fn message(&self) -> (s: String)
        requires
            self.mark.col < usize::MAX,
        ensures
            s@ == self.info@ + " at line "@ + decimal(self.mark.line as nat) + " col "@
                + decimal((self.mark.col + 1) as nat),
    {
        let mut s = self.info.clone();
        push_str(&mut s, " at line ");
        push_decimal(&mut s, self.mark.line);
        push_str(&mut s, " col ");
        push_decimal(&mut s, self.mark.col + 1);
        s
    }
}

} // verus!
