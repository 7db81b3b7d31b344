//! Places in a source file.

use vstd::prelude::*;

verus! {

/// A span of source text, by byte offsets.
#[derive(Debug, PartialEq, Eq, Structural, Hash, Copy, Clone)]
pub struct TextRange {
    pub start: u32,
    pub end: u32,
}

impl TextRange {
    pub fn new(start: u32, end: u32) -> (res: TextRange)
        ensures
            res == (TextRange { start, end }),
    {
        TextRange { start, end }
    }
}

impl Default for TextRange {
    fn default() -> (res: TextRange)
        ensures
            res == (TextRange { start: 0, end: 0 }),
    {
        TextRange { start: 0, end: 0 }
    }
}

} // verus!
