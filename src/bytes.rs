use vstd::prelude::*;

verus! {

pub const TAB: u8 = 9;

pub const LINE_FEED: u8 = 10;

pub const CARRIAGE_RETURN: u8 = 13;

pub const SPACE: u8 = 32;

pub const DOUBLE_QUOTE: u8 = 34;

pub const HASH: u8 = 35;

pub const AMPERSAND: u8 = 38;

pub const SINGLE_QUOTE: u8 = 39;

pub const COMMA: u8 = 44;

pub const SLASH: u8 = 47;

pub const COLON: u8 = 58;

pub const SEMICOLON: u8 = 59;

pub const BACKSLASH: u8 = 92;

pub const CARET: u8 = 94;

pub const PIPE: u8 = 124;

pub const TILDE: u8 = 126;

/// The section sign in Latin-1.
pub const SECTION_SIGN: u8 = 167;

/// Copy `data[start..end]` into a new vector.
pub fn copy_range(data: &[u8], start: usize, end: usize) -> (r: Vec<u8>)
    requires
        start <= end <= data@.len(),
    ensures
        r@ == data@.subrange(start as int, end as int),
{
    let mut r: Vec<u8> = Vec::new();
    let mut i: usize = start;
    while i < end
        invariant
            start <= i <= end <= data@.len(),
            r@ =~= data@.subrange(start as int, i as int),
        decreases end - i,
    {
        r.push(data[i]);
        i = i + 1;
    }
    r
}

} // verus!
