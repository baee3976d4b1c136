//! Command-line settings: the screen resolution argument and the defaults.
use vstd::prelude::*;
use vstd::slice::slice_subrange;
use vstd::utf8::*;

use crate::protocol::ScreenSize;
use crate::text::{
    decimal, lemma_decimal_digits, lemma_parse_decimal, parse_usize, spec_parse_usize,
};

verus! {

/// Port the server listens on unless told otherwise.
pub const DEFAULT_PORT: u16 = 24800;

/// The byte 'x' that separates width and height.
pub const SEPARATOR: u8 = 120;

/// Why a resolution argument is refused.
#[derive(Debug, Clone, Copy, PartialEq, Eq, Structural)]
pub enum ResolutionError {
    /// Width or height is not a number from 0 to 65535.
    WrongFormat,
}

/// Position of the first 'x' in `s`, or its length when there is none.
pub open spec fn first_separator(s: Seq<u8>) -> int
    decreases s.len(),
{
    if s.len() == 0 {
        0
    } else if s[0] == SEPARATOR {
        0
    } else {
        1 + first_separator(s.subrange(1, s.len() as int))
    }
}

/// What `str::parse::<u16>` gives for the text `s`.
pub open spec fn spec_parse_u16(s: Seq<u8>) -> Option<u16> {
    match spec_parse_usize(s) {
        Some(n) => if n <= u16::MAX {
            Some(n as u16)
        } else {
            None
        },
        None => None,
    }
}

/// A resolution text that can be read to an answer: it has an 'x', or
/// the whole text is not a width (a text that is a width and nothing more
/// has no height to read).
pub open spec fn resolution_readable(s: Seq<u8>) -> bool {
    s.contains(SEPARATOR) || spec_parse_u16(s) is None
}

/// The resolution written as `WIDTHxHEIGHT`: the text before the first
/// 'x' is the width, the text after it up to the next 'x' (or the end) is
/// the height. A width that is not a number is refused before the height
/// is looked at.
pub open spec fn spec_parse_resolution(s: Seq<u8>) -> Result<ScreenSize, ResolutionError> {
    let i = first_separator(s);
    match spec_parse_u16(s.subrange(0, i)) {
        None => Err(ResolutionError::WrongFormat),
        Some(x) => {
            let rest = s.subrange(i + 1, s.len() as int);
            let j = first_separator(rest);
            match spec_parse_u16(rest.subrange(0, j)) {
                Some(y) => Ok(ScreenSize { x, y }),
                None => Err(ResolutionError::WrongFormat),
            }
        },
    }
}

proof fn lemma_first_separator(s: Seq<u8>, i: int)
    requires
        0 <= i <= s.len(),
        i < s.len() ==> s[i] == SEPARATOR,
        forall|j: int| 0 <= j < i ==> s[j] != SEPARATOR,
    ensures
        first_separator(s) == i,
    decreases i,
{
    if i > 0 {
        let t = s.subrange(1, s.len() as int);
        assert forall|j: int| 0 <= j < i - 1 implies t[j] != SEPARATOR by {
            assert(t[j] == s[j + 1]);
        }
        if i < s.len() {
            assert(t[i - 1] == s[i]);
        }
        lemma_first_separator(t, i - 1);
    }
}

/// Every width and height from 0 to 65535, written in decimal around an
/// 'x', reads back as that screen size.
pub proof fn lemma_resolution_roundtrip(w: u16, h: u16)
    ensures
        spec_parse_resolution(decimal(w as nat) + seq![SEPARATOR] + decimal(h as nat)) == Ok::<
            _,
            ResolutionError,
        >(ScreenSize { x: w, y: h }),
{
    let dw = decimal(w as nat);
    let dh = decimal(h as nat);
    let s = dw + seq![SEPARATOR] + dh;
    lemma_decimal_digits(w as nat);
    lemma_decimal_digits(h as nat);
    lemma_parse_decimal(w as usize);
    lemma_parse_decimal(h as usize);
    assert forall|j: int| 0 <= j < dw.len() implies s[j] != SEPARATOR by {
        assert(s[j] == dw[j]);
        assert(48 <= dw[j] <= 57);
    }
    lemma_first_separator(s, dw.len() as int);
    assert(s.subrange(0, dw.len() as int) =~= dw);
    let rest = s.subrange(dw.len() as int + 1, s.len() as int);
    assert(rest =~= dh);
    assert forall|j: int| 0 <= j < dh.len() implies rest[j] != SEPARATOR by {
        assert(48 <= dh[j] <= 57);
    }
    lemma_first_separator(rest, dh.len() as int);
    assert(rest.subrange(0, dh.len() as int) =~= dh);
}

/// Finds the first 'x' in `s`, or gives its length.
fn find_separator(s: &[u8]) -> (res: usize)
    ensures
        res as int == first_separator(s@),
        res <= s@.len(),
        forall|j: int| 0 <= j < res ==> s@[j] != SEPARATOR,
{
    let mut i: usize = 0;
    while i < s.len() && s[i] != SEPARATOR
        invariant
            i <= s@.len(),
            forall|j: int| 0 <= j < i ==> s@[j] != SEPARATOR,
        decreases s@.len() - i,
    {
        i = i + 1;
    }
    proof {
        lemma_first_separator(s@, i as int);
    }
    i
}

/// Parses a decimal `u16` the way `str::parse::<u16>` does.
pub fn parse_u16(s: &[u8]) -> (res: Option<u16>)
    ensures
        res == spec_parse_u16(s@),
{
    match parse_usize(s) {
        Some(n) => if n <= 65535 {
            Some(n as u16)
        } else {
            None
        },
        None => None,
    }
}

/// Reads a resolution such as "1920x1080".
pub fn parse_resolution(arg: &str) -> (res: Result<ScreenSize, ResolutionError>)
    requires
        resolution_readable(encode_utf8(arg@)),
    ensures
        res == spec_parse_resolution(encode_utf8(arg@)),
{
    let s = arg.as_bytes();
    let n: usize = s.len();
    let i: usize = find_separator(s);
    let x = match parse_u16(slice_subrange(s, 0, i)) {
        Some(x) => x,
        None => return Err(ResolutionError::WrongFormat),
    };
    proof {
        if i == n {
            assert(s@.subrange(0, i as int) =~= s@);
            assert(s@.contains(SEPARATOR));
            let k = choose|k: int| 0 <= k < s@.len() && s@[k] == SEPARATOR;
            assert(false);
        }
    }
    let rest = slice_subrange(s, i + 1, n);
    let j: usize = find_separator(rest);
    match parse_u16(slice_subrange(rest, 0, j)) {
        Some(y) => Ok(ScreenSize { x, y }),
        None => Err(ResolutionError::WrongFormat),
    }
}

} // verus!
