//! The closed enumerations that appear in decoded pages: cell/piece kinds and
//! piece rotations, together with their integer representations.

use vstd::prelude::*;

verus! {

/// The kind of a grid cell or of a placed piece. Backed by the integers
/// 0 through 8 (see [`BlockType::repr_spec`]).
#[derive(Copy, Clone, Debug, PartialEq, Eq, Structural)]
pub enum BlockType {
    Empty,
    I,
    L,
    O,
    Z,
    T,
    J,
    S,
    Gray,
}

/// The rotation of a placed piece. Backed by the integers 0 through 3.
#[derive(Copy, Clone, Debug, PartialEq, Eq, Structural)]
pub enum Rotation {
    South,
    East,
    North,
    West,
}

impl BlockType {
    /// The integer that stands for this block kind in the encoding.
    pub open spec fn repr_spec(self) -> int {
        match self {
            BlockType::Empty => 0,
            BlockType::I => 1,
            BlockType::L => 2,
            BlockType::O => 3,
            BlockType::Z => 4,
            BlockType::T => 5,
            BlockType::J => 6,
            BlockType::S => 7,
            BlockType::Gray => 8,
        }
    }

    /// The block kind that the integer `n` stands for; meaningful for
    /// `0 <= n <= 8`.
    pub open spec fn from_repr_spec(n: int) -> BlockType {
        if n == 0 {
            BlockType::Empty
        } else if n == 1 {
            BlockType::I
        } else if n == 2 {
            BlockType::L
        } else if n == 3 {
            BlockType::O
        } else if n == 4 {
            BlockType::Z
        } else if n == 5 {
            BlockType::T
        } else if n == 6 {
            BlockType::J
        } else if n == 7 {
            BlockType::S
        } else {
            BlockType::Gray
        }
    }

    /// The integer that stands for this block kind in the encoding.
    pub fn repr(self) -> (r: usize)
        ensures
            r as int == self.repr_spec(),
    {
        match self {
            BlockType::Empty => 0,
            BlockType::I => 1,
            BlockType::L => 2,
            BlockType::O => 3,
            BlockType::Z => 4,
            BlockType::T => 5,
            BlockType::J => 6,
            BlockType::S => 7,
            BlockType::Gray => 8,
        }
    }

    /// Fallible conversion from the integer representation; `None` exactly
    /// when `n` lies outside the valid range 0 through 8.
    pub fn from_repr(n: usize) -> (r: Option<BlockType>)
        ensures
            r matches Some(b) ==> n <= 8 && b == BlockType::from_repr_spec(n as int),
            r is None <==> n > 8,
    {
        match n {
            0 => Some(BlockType::Empty),
            1 => Some(BlockType::I),
            2 => Some(BlockType::L),
            3 => Some(BlockType::O),
            4 => Some(BlockType::Z),
            5 => Some(BlockType::T),
            6 => Some(BlockType::J),
            7 => Some(BlockType::S),
            8 => Some(BlockType::Gray),
            _ => None,
        }
    }
}

impl Rotation {
    /// The integer that stands for this rotation in the encoding.
    pub open spec fn repr_spec(self) -> int {
        match self {
            Rotation::South => 0,
            Rotation::East => 1,
            Rotation::North => 2,
            Rotation::West => 3,
        }
    }

    /// The rotation that the integer `n` stands for; meaningful for
    /// `0 <= n <= 3`.
    pub open spec fn from_repr_spec(n: int) -> Rotation {
        if n == 0 {
            Rotation::South
        } else if n == 1 {
            Rotation::East
        } else if n == 2 {
            Rotation::North
        } else {
            Rotation::West
        }
    }

    /// Fallible conversion from the integer representation; `None` exactly
    /// when `n` lies outside the valid range 0 through 3.
    pub fn from_repr(n: usize) -> (r: Option<Rotation>)
        ensures
            r matches Some(b) ==> n <= 3 && b == Rotation::from_repr_spec(n as int),
            r is None <==> n > 3,
    {
        match n {
            0 => Some(Rotation::South),
            1 => Some(Rotation::East),
            2 => Some(Rotation::North),
            3 => Some(Rotation::West),
            _ => None,
        }
    }
}

/// `from_repr_spec` inverts `repr_spec` for every block kind.
pub proof fn lemma_block_repr_roundtrip(b: BlockType)
    ensures
        BlockType::from_repr_spec(b.repr_spec()) == b,
        0 <= b.repr_spec() <= 8,
{
}

} // verus!
