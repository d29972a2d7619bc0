//! A piece placement descriptor: kind, rotation and board position.

use vstd::prelude::*;

use crate::enums::{BlockType, Rotation};

verus! {

/// A tetromino placement. `position` decomposes to `x = position % WIDTH`
/// and `y = position / WIDTH`.
#[derive(Copy, Clone, Debug, PartialEq, Eq, Structural)]
pub struct Mino {
    pub kind: BlockType,
    pub rotation: Rotation,
    pub position: usize,
}

impl Mino {
    /// Builds a placement from its parts.
    pub fn new(kind: BlockType, rotation: Rotation, position: usize) -> (r: Mino)
        ensures
            r == (Mino { kind, rotation, position }),
    {
        Mino { kind, rotation, position }
    }
}

impl Default for Mino {
    /// An absent placement: no piece, facing north, at position 0.
    fn default() -> (r: Self)
        ensures
            r == (Mino { kind: BlockType::Empty, rotation: Rotation::North, position: 0usize }),
    {
        Mino { kind: BlockType::Empty, rotation: Rotation::North, position: 0 }
    }
}

} // verus!
