use vstd::prelude::*;

verus! {

/// Compact identifier for a physical key.
#[derive(Debug, Clone, Copy, PartialEq, Eq, Hash, Structural)]
pub struct KeyId(pub usize);

impl KeyId {
    /// Wraps a raw key number.
    pub fn new(v: usize) -> (r: Self)
        ensures
            r.0 == v,
    {
        KeyId(v)
    }

    /// The raw key number.
    pub fn as_usize(self) -> (r: usize)
        ensures
            r == self.0,
    {
        self.0
    }
}

/// Compact identifier for a character (used in unigram and bigram counts).
#[derive(Debug, Clone, Copy, PartialEq, Eq, Hash, Structural)]
pub struct CharId(pub char);

impl CharId {
    /// Wraps a character.
    pub fn new(v: char) -> (r: Self)
        ensures
            r.0 == v,
    {
        CharId(v)
    }

    /// The wrapped character.
    pub fn as_char(self) -> (r: char)
        ensures
            r == self.0,
    {
        self.0
    }
}

} // verus!
