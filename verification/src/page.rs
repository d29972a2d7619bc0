//! One frame of a fumen: a grid snapshot, a piece placement with flags, and
//! a comment.

use vstd::prelude::*;

use crate::comment::{spec_comment_decode, Comment, TextStep};
use crate::enums::{BlockType, Rotation};
use crate::error::ErrorKind;
use crate::field::{prev_field_view, spec_field_decode, Field, FieldStep};
use crate::mino::Mino;
use crate::mino_flags::{spec_flags_decode, FlagsStep, MinoFlags};
use crate::util::{
    check_valid_pos, clear_lines, mirror_field, place_mino, raise_field, spec_clear_lines,
    spec_mirror, spec_place, spec_raise, spec_valid_pos,
};

verus! {

/// One page of a fumen.
#[derive(Debug)]
pub struct Page {
    pub field: Field,
    pub mino_flags: MinoFlags,
    pub comment: String,
}

/// The mathematical content of a page: its grid, its flags and its comment
/// text.
pub ghost struct PageV {
    pub field: Seq<BlockType>,
    pub mino_flags: MinoFlags,
    pub comment: Seq<char>,
}

impl View for Page {
    type V = PageV;

    open spec fn view(&self) -> PageV {
        PageV { field: self.field@, mino_flags: self.mino_flags, comment: self.comment@ }
    }
}

impl Page {
    /// A page's grid holds exactly 240 cells, its placement position lies
    /// on the board, and its placement kind is a piece or `Empty`, never
    /// `Gray`.
    pub open spec fn wf(&self) -> bool {
        self.field.wf() && self.mino_flags.mino.position < 240 && self.mino_flags.mino.kind
            != BlockType::Gray
    }
}

impl Clone for Page {
    /// Cloning keeps the grid, the flags and the comment.
    fn clone(&self) -> (r: Self)
        ensures
            r@ == self@,
    {
        let r = Page {
            field: self.field.clone(),
            mino_flags: self.mino_flags,
            comment: self.comment.clone(),
        };
        proof {
            assert(r@ =~= self@);
        }
        r
    }
}

impl Default for Page {
    /// An empty grid, no placement, every flag cleared, an empty comment.
    fn default() -> (r: Self)
        ensures
            r@.field == crate::field::empty_field(),
            r@.mino_flags == (MinoFlags {
                mino: Mino { kind: BlockType::Empty, rotation: Rotation::North, position: 0usize },
                raise: false,
                mirror: false,
                color: false,
                comment: false,
                lock: false,
            }),
            r@.comment == Seq::<char>::empty(),
            r.wf(),
    {
        let r = Page {
            field: Field::default(),
            comment: String::new(),
            mino_flags: MinoFlags::default(),
        };
        r
    }
}


/// The grid that page `p` hands to its successor as a baseline. With `lock`
/// set, the placement is stamped where it is allowed, full rows are
/// cleared, and the `raise` and `mirror` transforms are applied in that
/// order; otherwise the grid is handed on unchanged.
pub open spec fn spec_commit(p: PageV) -> Seq<BlockType> {
    if p.mino_flags.lock {
        let kind = p.mino_flags.mino.kind;
        let x = p.mino_flags.mino.position as int % 10;
        let y = p.mino_flags.mino.position as int / 10;
        let f1 = if kind != BlockType::Empty && spec_valid_pos(p.field, kind, x, y) {
            spec_place(p.field, kind, x, y)
        } else {
            p.field
        };
        let f2 = spec_clear_lines(f1);
        let f3 = if p.mino_flags.raise {
            spec_raise(f2)
        } else {
            f2
        };
        if p.mino_flags.mirror {
            spec_mirror(f3)
        } else {
            f3
        }
    } else {
        p.field
    }
}

/// The view of an optional predecessor page.
pub open spec fn opt_view(p: Option<&Page>) -> Option<PageV> {
    match p {
        Some(pg) => Some(pg@),
        None => None,
    }
}

/// The predecessor page with its committed grid: what a page decode reads
/// its field diffs against and inherits its comment from.
pub open spec fn spec_baseline(prev: Option<PageV>) -> Option<PageV> {
    match prev {
        Some(p) => Some(PageV { field: spec_commit(p), ..p }),
        None => None,
    }
}

/// The outcome of one page decode: the page, the cursor after it and the
/// pending repeat count, or the failure and the cursor where it arose.
pub ghost enum PageStep {
    Done { page: PageV, off: int, rep: int },
    Fail { kind: ErrorKind, off: int },
}

/// One page decode at `off`: the predecessor is committed, the field is
/// decoded against it, then the flags window, then a fresh comment when the
/// comment flag is set; otherwise the predecessor's comment is inherited
/// (empty for a first page).
pub open spec fn spec_page_decode(data: Seq<char>, off: int, prev: Option<PageV>, rep: int) -> PageStep {
    let baseline = spec_baseline(prev);
    let basef = match baseline {
        Some(b) => Some(b.field),
        None => None,
    };
    match spec_field_decode(data, off, basef, rep) {
        FieldStep::Fail { kind, off: o } => PageStep::Fail { kind, off: o },
        FieldStep::Done { field, off: off1, rep: rep1 } => match spec_flags_decode(data, off1) {
            FlagsStep::Fail { kind, off: o } => PageStep::Fail { kind, off: o },
            FlagsStep::Done { flags, off: off2 } => {
                if flags.comment {
                    match spec_comment_decode(data, off2) {
                        TextStep::Fail { kind, off: o } => PageStep::Fail { kind, off: o },
                        TextStep::Done { text, off: off3 } => PageStep::Done {
                            page: PageV { field, mino_flags: flags, comment: text },
                            off: off3,
                            rep: rep1,
                        },
                    }
                } else {
                    PageStep::Done {
                        page: PageV {
                            field,
                            mino_flags: flags,
                            comment: match baseline {
                                Some(b) => b.comment,
                                None => Seq::empty(),
                            },
                        },
                        off: off2,
                        rep: rep1,
                    }
                }
            },
        },
    }
}

impl Page {
    /// Decodes one page at `*offset` against the optional predecessor,
    /// advancing the cursor past what it consumed and updating the pending
    /// repeat count. On failure the cursor stands where the failure arose.
    pub fn decode(
        data: &str,
        offset: &mut usize,
        prev_board: Option<&Page>,
        repeat_count: &mut usize,
    ) -> (r: Result<Page, ErrorKind>)
        requires
            *old(repeat_count) != 0 ==> prev_board is Some,
            prev_board matches Some(p) ==> p.wf(),
        ensures
            ({
                let step = spec_page_decode(
                    data@,
                    *old(offset) as int,
                    opt_view(prev_board),
                    *old(repeat_count) as int,
                );
                match r {
                    Ok(p) => step matches PageStep::Done { page, off, rep } && p@ == page && p.wf()
                        && *final(offset) == off && *final(repeat_count) == rep,
                    Err(k) => step matches PageStep::Fail { kind, off } && k == kind
                        && *final(offset) == off,
                }
            }),
    {
        let ghost prevv = opt_view(prev_board);
        let baseline: Option<Page> = match prev_board {
            Some(p) => {
                let mut temp = p.clone();
                if temp.mino_flags.lock {
                    let kind = temp.mino_flags.mino.kind;
                    if kind != BlockType::Empty {
                        let x = temp.mino_flags.mino.position % 10;
                        let y = temp.mino_flags.mino.position / 10;
                        if check_valid_pos(&temp.field, &kind, x, y) {
                            place_mino(&mut temp.field, &kind, x, y);
                        }
                    }
                    clear_lines(&mut temp.field);
                    if temp.mino_flags.raise {
                        raise_field(&mut temp.field);
                    }
                    if temp.mino_flags.mirror {
                        mirror_field(&mut temp.field);
                    }
                }
                proof {
                    assert(temp@.field == spec_commit(p@));
                    assert(temp@.mino_flags == p@.mino_flags);
                    assert(temp@.comment == p@.comment);
                }
                Some(temp)
            },
            None => None,
        };
        let baseline_ref: Option<&Page> = match &baseline {
            Some(b) => Some(b),
            None => None,
        };
        proof {
            assert(opt_view(baseline_ref) == spec_baseline(prevv));
            assert(prev_field_view(baseline_ref) == (match spec_baseline(prevv) {
                Some(b) => Some(b.field),
                None => None,
            }));
        }

        let field = match Field::decode(data, offset, baseline_ref, repeat_count) {
            Ok(f) => f,
            Err(k) => {
                return Err(k);
            },
        };
        let mino_flags = match MinoFlags::decode(data, offset) {
            Ok(f) => f,
            Err(k) => {
                return Err(k);
            },
        };
        proof {
            assert(mino_flags.mino.kind != BlockType::Gray);
        }
        let comment = if mino_flags.comment {
            match Comment::decode(data, offset) {
                Ok(c) => c,
                Err(k) => {
                    return Err(k);
                },
            }
        } else {
            match &baseline {
                Some(b) => b.comment.clone(),
                None => String::new(),
            }
        };
        Ok(Page { field, mino_flags, comment })
    }
}
} // verus!
