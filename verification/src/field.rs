//! The field codec: a 10x24 grid of block kinds, reconstructed from a
//! predecessor grid plus a run-length diff stream, or reused outright while
//! a repeat count is pending.

use vstd::prelude::*;
use vstd::string::StrSliceExecFns;

use crate::alphabet::{
    is_symbol, lemma_window_value_bound, symbol_lookup, symbol_value, window_ok, window_value,
};
use crate::enums::BlockType;
use crate::error::ErrorKind;
use crate::page::Page;
use crate::util::{lemma_pow64_values, poll_at};

verus! {

/// A grid of `WIDTH * HEIGHT` cells, row-major: the cell at column `x` and
/// row `y` sits at index `x + y * WIDTH`. Row 0 is the top row.
#[derive(Debug, PartialEq)]
pub struct Field(pub Vec<BlockType>);

impl View for Field {
    type V = Seq<BlockType>;

    open spec fn view(&self) -> Seq<BlockType> {
        self.0@
    }
}

impl Field {
    /// A field always holds exactly `WIDTH * HEIGHT` cells.
    pub open spec fn wf(&self) -> bool {
        self@.len() == 240
    }
}

impl Clone for Field {
    /// Cloning keeps every cell.
    fn clone(&self) -> (r: Self)
        ensures
            r@ == self@,
    {
        Field(self.0.clone())
    }
}

/// The all-`Empty` grid, the implicit baseline of a first page.
pub open spec fn empty_field() -> Seq<BlockType> {
    Seq::new(240, |i: int| BlockType::Empty)
}

impl Default for Field {
    /// The all-`Empty` grid.
    fn default() -> (r: Self)
        ensures
            r@ == empty_field(),
            r.wf(),
    {
        let mut cells: Vec<BlockType> = Vec::new();
        let mut i: usize = 0;
        while i < 240
            invariant
                i <= 240,
                cells@.len() == i,
                forall|j: int| 0 <= j < i ==> cells@[j] == BlockType::Empty,
            decreases 240 - i,
        {
            cells.push(BlockType::Empty);
            i = i + 1;
        }
        let r = Field(cells);
        proof {
            assert(r@ =~= empty_field());
        }
        r
    }
}

/// The grid that a field decode reads its diffs against: the predecessor
/// page's grid, or nothing for a first page.
pub open spec fn prev_field_view(p: Option<&Page>) -> Option<Seq<BlockType>> {
    match p {
        Some(pg) => Some(pg.field@),
        None => None,
    }
}

/// The integer a diff run writes into cell `j`: the predecessor cell's
/// representation (0 with no predecessor) plus `diff - 8`.
pub open spec fn cell_repr(prev: Option<Seq<BlockType>>, j: int, diff: int) -> int {
    (match prev {
        Some(p) => p[j].repr_spec(),
        None => 0,
    }) + diff - 8
}

/// Whether every cell the run covers decodes to a valid block kind.
pub open spec fn run_ok(prev: Option<Seq<BlockType>>, total: int, count: int, diff: int) -> bool {
    forall|j: int| total <= j <= total + count ==> 0 <= #[trigger] cell_repr(prev, j, diff) <= 8
}

/// The grid after a run writes cells `total` through `total + count`.
pub open spec fn apply_run(
    prev: Option<Seq<BlockType>>,
    acc: Seq<BlockType>,
    total: int,
    count: int,
    diff: int,
) -> Seq<BlockType> {
    Seq::new(
        acc.len(),
        |j: int|
            if total <= j <= total + count {
                BlockType::from_repr_spec(cell_repr(prev, j, diff))
            } else {
                acc[j]
            },
    )
}

/// The outcome of one field decode: the grid, the cursor after it and the
/// pending repeat count, or the failure and the cursor where it arose.
pub ghost enum FieldStep {
    Done { field: Seq<BlockType>, off: int, rep: int },
    Fail { kind: ErrorKind, off: int },
}

/// The diff-run state machine, decoding runs at `off` until `total` cells
/// are written. A full-width run (`count == 239`) is followed by one more
/// character, the repeat count, and ends the decode.
pub open spec fn spec_runs(
    data: Seq<char>,
    off: int,
    prev: Option<Seq<BlockType>>,
    acc: Seq<BlockType>,
    total: int,
) -> FieldStep
    decreases 240 - total,
        when 0 <= total <= 240
{
    if total == 240 {
        FieldStep::Done { field: acc, off, rep: 0 }
    } else if off + 2 > data.len() {
        FieldStep::Fail { kind: ErrorKind::OffsetOverrun, off }
    } else if !window_ok(data.subrange(off, off + 2)) {
        FieldStep::Fail { kind: ErrorKind::InvalidSymbol, off }
    } else {
        let value = window_value(data.subrange(off, off + 2));
        let diff = value / 240;
        let count = value % 240;
        if total + count + 1 > 240 {
            FieldStep::Fail { kind: ErrorKind::OffsetOverrun, off: off + 2 }
        } else if !run_ok(prev, total, count, diff) {
            FieldStep::Fail { kind: ErrorKind::InvalidDiscriminant, off: off + 2 }
        } else {
            let acc2 = apply_run(prev, acc, total, count, diff);
            if count == 239 {
                if off + 3 > data.len() {
                    FieldStep::Fail { kind: ErrorKind::OffsetOverrun, off: off + 2 }
                } else if !is_symbol(data[off + 2]) {
                    FieldStep::Fail { kind: ErrorKind::InvalidSymbol, off: off + 2 }
                } else {
                    FieldStep::Done { field: acc2, off: off + 3, rep: symbol_value(data[off + 2]) }
                }
            } else {
                spec_runs(data, off + 2, prev, acc2, total + count + 1)
            }
        }
    }
}

/// One field decode at `off` with pending repeat count `rep`: while `rep` is
/// nonzero the predecessor grid is reused and `rep` falls by one; otherwise
/// the diff runs are decoded against the predecessor (or against the empty
/// baseline when there is none).
pub open spec fn spec_field_decode(
    data: Seq<char>,
    off: int,
    prev: Option<Seq<BlockType>>,
    rep: int,
) -> FieldStep {
    if rep != 0 {
        FieldStep::Done {
            field: match prev {
                Some(p) => p,
                None => empty_field(),
            },
            off,
            rep: rep - 1,
        }
    } else {
        spec_runs(data, off, prev, empty_field(), 0)
    }
}

impl Field {
    /// Decodes one grid at `*offset`, advancing the cursor past what it
    /// consumed and updating the pending repeat count. On failure the cursor
    /// stands where the failure arose.
    pub fn decode(
        data: &str,
        offset: &mut usize,
        prev_board: Option<&Page>,
        repeat_count: &mut usize,
    ) -> (r: Result<Field, ErrorKind>)
        requires
            *old(repeat_count) != 0 ==> prev_board is Some,
            prev_board matches Some(p) ==> p.wf(),
        ensures
            ({
                let step = spec_field_decode(
                    data@,
                    *old(offset) as int,
                    prev_field_view(prev_board),
                    *old(repeat_count) as int,
                );
                match r {
                    Ok(f) => step matches FieldStep::Done { field, off, rep } && f@ == field
                        && f.wf() && *final(offset) == off && *final(repeat_count) == rep,
                    Err(k) => step matches FieldStep::Fail { kind, off } && k == kind
                        && *final(offset) == off,
                }
            }),
    {
        let ghost s = data@;
        let ghost prevf = prev_field_view(prev_board);
        let ghost off0 = *offset as int;

        if *repeat_count != 0 {
            let f = match prev_board {
                Some(p) => p.field.clone(),
                None => Field::default(),
            };
            *repeat_count = *repeat_count - 1;
            return Ok(f);
        }

        let ghost target = spec_field_decode(s, off0, prevf, *old(repeat_count) as int);
        let len = data.unicode_len();
        let mut field = Field::default();
        let mut total: usize = 0;

        while total != 240
            invariant
                s == data@,
                len == s.len(),
                total <= 240,
                field.wf(),
                *repeat_count == 0,
                *old(repeat_count) == 0,
                prev_board matches Some(p) ==> p.wf(),
                prevf == prev_field_view(prev_board),
                target == spec_field_decode(s, *old(offset) as int, prevf, *old(
                    repeat_count,
                ) as int),
                spec_runs(s, *offset as int, prevf, field@, total as int) == target,
            decreases 240 - total,
        {
            let ghost off_i = *offset as int;
            let ghost acc_i = field@;
            assert(spec_runs(s, off_i, prevf, acc_i, total as int) == target);
            if *offset > len || len - *offset < 2 {
                assert(spec_runs(s, off_i, prevf, acc_i, total as int) == (FieldStep::Fail {
                    kind: ErrorKind::OffsetOverrun,
                    off: off_i,
                }));
                return Err(ErrorKind::OffsetOverrun);
            }
            let value = match poll_at(data, *offset, 2) {
                Ok(v) => v,
                Err(k) => {
                    assert(spec_runs(s, off_i, prevf, acc_i, total as int) == (FieldStep::Fail {
                        kind: ErrorKind::InvalidSymbol,
                        off: off_i,
                    }));
                    return Err(k);
                },
            };
            proof {
                lemma_window_value_bound(s.subrange(off_i, off_i + 2));
                lemma_pow64_values();
                assert(value < 4096);
            }
            let diff = value / 240;
            let count = value % 240;
            *offset = *offset + 2;

            if total + count + 1 > 240 {
                assert(spec_runs(s, off_i, prevf, acc_i, total as int) == (FieldStep::Fail {
                    kind: ErrorKind::OffsetOverrun,
                    off: off_i + 2,
                }));
                return Err(ErrorKind::OffsetOverrun);
            }

            let mut i: usize = 0;
            while i < count + 1
                invariant
                    s == data@,
                    len == s.len(),
                    total < 240,
                    total + count + 1 <= 240,
                    i <= count + 1,
                    diff <= 17,
                    off_i + 2 <= len,
                    *offset == off_i + 2,
                    acc_i.len() == 240,
                    field@.len() == 240,
                    prev_board matches Some(p) ==> p.wf(),
                    prevf == prev_field_view(prev_board),
                    window_ok(s.subrange(off_i, off_i + 2)),
                    value as int == window_value(s.subrange(off_i, off_i + 2)),
                    diff == value / 240,
                    count == value % 240,
                    target == spec_field_decode(s, *old(offset) as int, prevf, *old(
                        repeat_count,
                    ) as int),
                    spec_runs(s, off_i, prevf, acc_i, total as int) == target,
                    forall|j: int|
                        total <= j < total + i ==> 0 <= #[trigger] cell_repr(prevf, j, diff as int)
                            <= 8,
                    forall|j: int|
                        total <= j < total + i ==> field@[j] == BlockType::from_repr_spec(
                            cell_repr(prevf, j, diff as int),
                        ),
                    forall|j: int|
                        0 <= j < 240 && !(total <= j < total + i) ==> field@[j] == acc_i[j],
                decreases count + 1 - i,
            {
                let base: usize = match prev_board {
                    Some(p) => p.field.0[total + i].repr(),
                    None => 0,
                };
                let v = base + diff;
                if v < 8 || v > 16 {
                    proof {
                        assert(cell_repr(prevf, total + i, diff as int) == base + diff - 8);
                        assert(!run_ok(prevf, total as int, count as int, diff as int));
                        assert(spec_runs(s, off_i, prevf, acc_i, total as int)
                            == (FieldStep::Fail {
                            kind: ErrorKind::InvalidDiscriminant,
                            off: off_i + 2,
                        }));
                    }
                    return Err(ErrorKind::InvalidDiscriminant);
                }
                let cell = BlockType::from_repr(v - 8).unwrap();
                proof {
                    assert(cell == BlockType::from_repr_spec(
                        cell_repr(prevf, total + i, diff as int),
                    ));
                }
                field.0[total + i] = cell;
                i = i + 1;
            }
            proof {
                assert(run_ok(prevf, total as int, count as int, diff as int));
                assert(field@ =~= apply_run(prevf, acc_i, total as int, count as int, diff as int));
            }

            if count == 239 {
                if *offset >= len {
                    assert(spec_runs(s, off_i, prevf, acc_i, total as int) == (FieldStep::Fail {
                        kind: ErrorKind::OffsetOverrun,
                        off: off_i + 2,
                    }));
                    return Err(ErrorKind::OffsetOverrun);
                }
                let c = data.get_char(*offset);
                match symbol_lookup(c) {
                    None => {
                        assert(s[off_i + 2] == c);
                        assert(spec_runs(s, off_i, prevf, acc_i, total as int)
                            == (FieldStep::Fail {
                            kind: ErrorKind::InvalidSymbol,
                            off: off_i + 2,
                        }));
                        return Err(ErrorKind::InvalidSymbol);
                    },
                    Some(v) => {
                        *repeat_count = v as usize;
                        *offset = *offset + 1;
                        proof {
                            assert(s[off_i + 2] == c);
                            assert(spec_runs(s, off_i, prevf, acc_i, total as int)
                                == (FieldStep::Done {
                                field: field@,
                                off: off_i + 3,
                                rep: symbol_value(c),
                            }));
                        }
                        return Ok(field);
                    },
                }
            }
            total = total + count + 1;
        }
        assert(spec_runs(s, *offset as int, prevf, field@, 240) == (FieldStep::Done {
            field: field@,
            off: *offset as int,
            rep: 0,
        }));
        Ok(field)
    }
}

} // verus!
