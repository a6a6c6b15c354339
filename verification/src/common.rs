use vstd::prelude::*;
use vstd::std_specs::convert::FromSpecImpl;

use crate::eval::text::chars_of;

verus! {

/// Format letter `n`: the field is absent.
pub const FMT_NONE: u8 = 110;

/// Format letter `d`: decimal.
pub const FMT_DEC: u8 = 100;

/// Format letter `x`: hexadecimal.
pub const FMT_HEX: u8 = 120;

/// Format letter `a`: ascii.
pub const FMT_ASCII: u8 = 97;

/// Format letter `b`: binary.
pub const FMT_BIN: u8 = 98;

/// Input or output format: how offsets, lengths and bodies of a record are
/// written (`n` none, `d` decimal, `x` hexadecimal, `b` binary, `a` ascii).
#[derive(Copy, Clone, Debug)]
pub struct InoutFormat {
    pub offset: u8,
    pub length: u8,
    pub body: u8,
}

/// Whether `(o, l, b)` is one of the complete format signatures.
pub open spec fn is_complete_signature(o: char, l: char, b: char) -> bool {
    if o == 'n' && l == 'n' {
        b == 'a' || b == 'b' || b == 'x'
    } else {
        ((o == 'd' && l == 'd') || (o == 'd' && l == 'x') || (o == 'x' && l == 'd') || (o == 'x'
            && l == 'x')) && (b == 'a' || b == 'd' || b == 'x')
    }
}

/// The complete signature a format string stands for: a one-letter
/// shorthand or a complete signature itself; `None` for anything else.
pub open spec fn signature(s: Seq<char>) -> Option<(char, char, char)> {
    if s.len() == 1 && s[0] == 'x' {
        Some(('x', 'x', 'x'))
    } else if s.len() == 1 && s[0] == 'b' {
        Some(('n', 'n', 'b'))
    } else if s.len() == 1 && s[0] == 'd' {
        Some(('d', 'd', 'd'))
    } else if s.len() == 1 && s[0] == 'a' {
        Some(('x', 'x', 'a'))
    } else if s.len() == 3 && is_complete_signature(s[0], s[1], s[2]) {
        Some((s[0], s[1], s[2]))
    } else {
        None
    }
}

/// The ASCII code of a signature letter.
pub open spec fn letter_byte(c: char) -> u8 {
    if c == 'n' {
        FMT_NONE
    } else if c == 'd' {
        FMT_DEC
    } else if c == 'x' {
        FMT_HEX
    } else if c == 'a' {
        FMT_ASCII
    } else if c == 'b' {
        FMT_BIN
    } else {
        0
    }
}

fn letter_byte_exec(c: char) -> (r: u8)
    ensures
        r == letter_byte(c),
{
    if c == 'n' {
        FMT_NONE
    } else if c == 'd' {
        FMT_DEC
    } else if c == 'x' {
        FMT_HEX
    } else if c == 'a' {
        FMT_ASCII
    } else if c == 'b' {
        FMT_BIN
    } else {
        0
    }
}

fn is_complete_signature_exec(o: char, l: char, b: char) -> (r: bool)
    ensures
        r == is_complete_signature(o, l, b),
{
    if o == 'n' && l == 'n' {
        b == 'a' || b == 'b' || b == 'x'
    } else {
        ((o == 'd' && l == 'd') || (o == 'd' && l == 'x') || (o == 'x' && l == 'd') || (o == 'x'
            && l == 'x')) && (b == 'a' || b == 'd' || b == 'x')
    }
}

/// The complete signature of a format string, if it has one.
pub fn signature_of(config: &str) -> (r: Option<(char, char, char)>)
    ensures
        r == signature(config@),
{
    let c = chars_of(config);
    if c.len() == 1 {
        if c[0] == 'x' {
            Some(('x', 'x', 'x'))
        } else if c[0] == 'b' {
            Some(('n', 'n', 'b'))
        } else if c[0] == 'd' {
            Some(('d', 'd', 'd'))
        } else if c[0] == 'a' {
            Some(('x', 'x', 'a'))
        } else {
            None
        }
    } else if c.len() == 3 && is_complete_signature_exec(c[0], c[1], c[2]) {
        Some((c[0], c[1], c[2]))
    } else {
        None
    }
}

impl InoutFormat {
    /// The format that a signature (shorthand or complete) stands for.
    pub fn new(config: &str) -> (r: Self)
        requires
            signature(config@) is Some,
        ensures
            r.offset == letter_byte(signature(config@).unwrap().0),
            r.length == letter_byte(signature(config@).unwrap().1),
            r.body == letter_byte(signature(config@).unwrap().2),
    {
        let (o, l, b) = signature_of(config).unwrap();
        InoutFormat {
            offset: letter_byte_exec(o),
            length: letter_byte_exec(l),
            body: letter_byte_exec(b),
        }
    }

    /// Binary input: no offsets, no lengths, raw bytes.
    pub fn input_default() -> (r: Self)
        ensures
            r.offset == letter_byte('n') && r.length == letter_byte('n') && r.body == letter_byte(
                'b',
            ),
    {
        InoutFormat { offset: FMT_NONE, length: FMT_NONE, body: FMT_BIN }
    }

    /// Hexadecimal output: offsets, lengths and bodies all in hex.
    pub fn output_default() -> (r: Self)
        ensures
            r.offset == letter_byte('x') && r.length == letter_byte('x') && r.body == letter_byte(
                'x',
            ),
    {
        InoutFormat { offset: FMT_HEX, length: FMT_HEX, body: FMT_HEX }
    }

    /// Records carry neither offsets nor lengths.
    pub fn is_gapless(&self) -> (r: bool)
        ensures
            r == (self.offset == letter_byte('n') && self.length == letter_byte('n')),
    {
        self.offset == FMT_NONE && self.length == FMT_NONE
    }

    /// Plain binary: gapless with a binary body.
    pub fn is_binary(&self) -> (r: bool)
        ensures
            r == (self.offset == letter_byte('n') && self.length == letter_byte('n') && self.body
                == letter_byte('b')),
    {
        self.is_gapless() && self.body == FMT_BIN
    }
}

/// A half-open byte range `[pos, pos + len)` of a stream.
#[derive(Copy, Clone, Debug, Default, PartialEq, Eq)]
pub struct Segment {
    pub pos: usize,
    pub len: usize,
}

impl Segment {
    /// End position of the segment (exclusive).
    pub fn tail(&self) -> (r: usize)
        requires
            self.pos + self.len <= usize::MAX,
        ensures
            r == self.pos + self.len,
    {
        self.pos + self.len
    }

    /// The segment as a range of positions.
    pub fn as_range(&self) -> (r: std::ops::Range<usize>)
        requires
            self.pos + self.len <= usize::MAX,
        ensures
            r.start == self.pos,
            r.end == self.pos + self.len,
    {
        self.pos..self.tail()
    }

    /// The same segment seen from `adj` bytes further on.
    pub fn unwind(&self, adj: usize) -> (r: Self)
        requires
            adj <= self.pos,
        ensures
            r.pos == self.pos - adj,
            r.len == self.len,
    {
        Segment { pos: self.pos - adj, len: self.len }
    }
}

/// Number of positions in `start..end` (none when `end < start`).
pub open spec fn range_len(start: usize, end: usize) -> usize {
    if end >= start {
        (end - start) as usize
    } else {
        0
    }
}

impl From<std::ops::Range<usize>> for Segment {
    fn from(other: std::ops::Range<usize>) -> (r: Self) {
        let len = if other.end >= other.start {
            other.end - other.start
        } else {
            0
        };
        Segment { pos: other.start, len }
    }
}

impl FromSpecImpl<std::ops::Range<usize>> for Segment {
    open spec fn obeys_from_spec() -> bool {
        true
    }

    open spec fn from_spec(other: std::ops::Range<usize>) -> Segment {
        Segment { pos: other.start, len: range_len(other.start, other.end) }
    }
}

/// The error for a value that is missing: `std::io::Error::from` an `Other`
/// kind.
#[verifier::external_body]
fn missing_value_error() -> std::io::Error {
    std::io::Error::from(std::io::ErrorKind::Other)
}

/// Turns a missing value into an I/O error.
pub trait ToResult<T>: Sized {
    fn to_result(self) -> std::io::Result<T>;
}

impl<T> ToResult<T> for Option<T> {
    /// `Ok` with the value when there is one, an error otherwise.
    fn to_result(self) -> (r: std::io::Result<T>)
        ensures
            r is Ok <==> self is Some,
            r matches Ok(v) ==> self == Some(v),
    {
        match self {
            Some(v) => Ok(v),
            None => Err(missing_value_error()),
        }
    }
}

} // verus!
