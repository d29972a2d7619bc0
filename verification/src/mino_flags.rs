//! The flags codec: one 3-character window decodes to an 18-bit packed value
//! holding the piece placement and five booleans.

use vstd::prelude::*;
use vstd::arithmetic::div_mod::lemma_div_denominator;
use vstd::string::StrSliceExecFns;

use crate::alphabet::{lemma_window_value_bound, window_ok, window_value};
use crate::enums::{BlockType, Rotation};
use crate::error::ErrorKind;
use crate::mino::Mino;
use crate::util::{lemma_pow64_values, poll_at};

verus! {

/// A decoded piece placement together with the page's five boolean flags.
/// `lock` uses inverted polarity in the encoding: a 0 bit means locked.
#[derive(Copy, Clone, Debug, PartialEq, Eq, Structural)]
pub struct MinoFlags {
    pub mino: Mino,
    pub raise: bool,
    pub mirror: bool,
    pub color: bool,
    pub comment: bool,
    pub lock: bool,
}

impl Default for MinoFlags {
    /// No placement and every flag cleared.
    fn default() -> (r: Self)
        ensures
            r == (MinoFlags {
                mino: Mino { kind: BlockType::Empty, rotation: Rotation::North, position: 0usize },
                raise: false,
                mirror: false,
                color: false,
                comment: false,
                lock: false,
            }),
    {
        MinoFlags {
            mino: Mino { kind: BlockType::Empty, rotation: Rotation::North, position: 0 },
            raise: false,
            mirror: false,
            color: false,
            comment: false,
            lock: false,
        }
    }
}

/// The flags that the packed value `v` spells: piece kind, rotation and
/// position, then the bits `raise`, `mirror`, `color`, `comment` and,
/// inverted, `lock`, from least to most significant.
pub open spec fn spec_flags_value(v: int) -> MinoFlags {
    MinoFlags {
        mino: Mino {
            kind: BlockType::from_repr_spec(v % 8),
            rotation: Rotation::from_repr_spec((v / 8) % 4),
            position: (((v / 32) % 240) as usize),
        },
        raise: (v / 7680) % 2 == 1,
        mirror: (v / 15360) % 2 == 1,
        color: (v / 30720) % 2 == 1,
        comment: (v / 61440) % 2 == 1,
        lock: (v / 122880) % 2 == 0,
    }
}

/// One step of flags decoding at `off`: the window read and where the cursor
/// stands afterwards, or the failure and where it arose.
pub ghost enum FlagsStep {
    Done { flags: MinoFlags, off: int },
    Fail { kind: ErrorKind, off: int },
}

/// Decoding the flags window of three characters at `off`.
pub open spec fn spec_flags_decode(data: Seq<char>, off: int) -> FlagsStep {
    if off + 3 > data.len() {
        FlagsStep::Fail { kind: ErrorKind::OffsetOverrun, off }
    } else if !window_ok(data.subrange(off, off + 3)) {
        FlagsStep::Fail { kind: ErrorKind::InvalidSymbol, off }
    } else {
        FlagsStep::Done {
            flags: spec_flags_value(window_value(data.subrange(off, off + 3))),
            off: off + 3,
        }
    }
}

impl MinoFlags {
    /// Decodes the 3-character flags window at `*offset`, advancing the
    /// cursor past it. On failure the cursor stands where the failure arose.
    pub fn decode(data: &str, offset: &mut usize) -> (r: Result<MinoFlags, ErrorKind>)
        ensures
            ({
                let step = spec_flags_decode(data@, *old(offset) as int);
                match r {
                    Ok(f) => step matches FlagsStep::Done { flags, off } && f == flags
                        && *final(offset) == off && f.mino.position < 240,
                    Err(k) => step matches FlagsStep::Fail { kind, off } && k == kind
                        && *final(offset) == off && *final(offset) == *old(offset),
                }
            }),
    {
        let ghost s = data@;
        let len = data.unicode_len();
        if *offset > len || len - *offset < 3 {
            return Err(ErrorKind::OffsetOverrun);
        }
        let mut value = match poll_at(data, *offset, 3) {
            Ok(v) => v,
            Err(k) => {
                return Err(k);
            },
        };
        let ghost v0 = value as int;
        proof {
            lemma_window_value_bound(s.subrange(*offset as int, *offset + 3));
            lemma_pow64_values();
            assert(v0 < 262144);
        }
        *offset = *offset + 3;

        let piece = BlockType::from_repr(value % 8).unwrap();
        value = value / 8;
        let rotation = Rotation::from_repr(value % 4).unwrap();
        value = value / 4;
        proof {
            lemma_div_denominator(v0, 8, 4);
        }
        assert(value as int == v0 / 32);
        let position = value % 240;
        value = value / 240;
        proof {
            lemma_div_denominator(v0, 32, 240);
        }
        assert(value as int == v0 / 7680);
        let flag_raise = value % 2 == 1;
        value = value / 2;
        proof {
            lemma_div_denominator(v0, 7680, 2);
        }
        let flag_mirror = value % 2 == 1;
        value = value / 2;
        proof {
            lemma_div_denominator(v0, 15360, 2);
        }
        let flag_color = value % 2 == 1;
        value = value / 2;
        proof {
            lemma_div_denominator(v0, 30720, 2);
        }
        let flag_comment = value % 2 == 1;
        value = value / 2;
        proof {
            lemma_div_denominator(v0, 61440, 2);
        }
        let flag_lock = value % 2 == 0;

        Ok(
            MinoFlags {
                comment: flag_comment,
                mino: Mino::new(piece, rotation, position),
                raise: flag_raise,
                mirror: flag_mirror,
                color: flag_color,
                lock: flag_lock,
            },
        )
    }
}

} // verus!
