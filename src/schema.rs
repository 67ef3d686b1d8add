//! The header's layout as data: which field sits at which offset.

use vstd::prelude::*;

verus! {

/// Bytes in each field of the header.
pub const FIELD_WIDTH: usize = 4;

/// Fields in the header.
pub const FIELD_COUNT: usize = 7;

/// Bytes in the whole header: the fields follow one another without padding.
pub const HEADER_LEN: usize = 28;

/// A field of the header, in the order in which the fields are stored.
#[derive(Clone, Copy, Debug, PartialEq, Eq, Structural)]
pub enum Field {
    Dim,
    HiddenDim,
    NLayers,
    NHeads,
    NKvHeads,
    VocabSize,
    SeqLen,
}

impl Field {
    /// The position of the field among the seven.
    pub open spec fn spec_index(self) -> int {
        match self {
            Field::Dim => 0,
            Field::HiddenDim => 1,
            Field::NLayers => 2,
            Field::NHeads => 3,
            Field::NKvHeads => 4,
            Field::VocabSize => 5,
            Field::SeqLen => 6,
        }
    }

    /// The position of the field among the seven.
    pub fn index(&self) -> (r: usize)
        ensures
            r == self.spec_index(),
    {
        match self {
            Field::Dim => 0,
            Field::HiddenDim => 1,
            Field::NLayers => 2,
            Field::NHeads => 3,
            Field::NKvHeads => 4,
            Field::VocabSize => 5,
            Field::SeqLen => 6,
        }
    }

    /// The byte offset of the field within the header.
    pub fn offset(&self) -> (r: usize)
        ensures
            r == self.spec_index() * FIELD_WIDTH,
            r + FIELD_WIDTH <= HEADER_LEN,
    {
        self.index() * FIELD_WIDTH
    }

    /// The field stored at position `i`, if there is one.
    pub fn at(i: usize) -> (r: Option<Field>)
        ensures
            r is Some <==> i < FIELD_COUNT,
            r matches Some(f) ==> f.spec_index() == i,
    {
        match i {
            0 => Some(Field::Dim),
            1 => Some(Field::HiddenDim),
            2 => Some(Field::NLayers),
            3 => Some(Field::NHeads),
            4 => Some(Field::NKvHeads),
            5 => Some(Field::VocabSize),
            6 => Some(Field::SeqLen),
            _ => None,
        }
    }
}

} // verus!
