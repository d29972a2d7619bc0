//! Decoder for the compact "fumen" text encoding of Tetris board diagrams.
//!
//! A fumen string has the shape `<3-digit-version>@<payload>`. The payload is
//! a stream of characters from the standard base64 alphabet (plus ignorable
//! `?` line-wrap padding) that encodes an ordered sequence of pages: a grid
//! snapshot, a piece placement with flags, and an optional comment. The
//! [`parse`] entry point turns such a string into a [`fumen::Fumen`] value or
//! a classified [`error::DecodeError`].

pub mod alphabet;
pub mod comment;
pub mod enums;
pub mod error;
pub mod field;
pub mod fumen;
pub mod mino;
pub mod mino_flags;
pub mod page;
pub mod properties;
pub mod util;

use vstd::prelude::*;
use vstd::string::StrSliceExecFns;

use crate::error::{DecodeError, ErrorKind};
use crate::fumen::Fumen;
use crate::page::{opt_view, spec_page_decode, Page, PageStep, PageV};
use crate::util::{
    get_prefix_data, spec_header_error, spec_payload, spec_strip, spec_version_value,
    strip_padding,
};

verus! {

/// Width of a fumen grid, in cells.
pub const WIDTH: usize = 10;

/// Height of a fumen grid, in rows.
pub const HEIGHT: usize = 24;

/// The outcome of decoding pages from a payload starting at `off`: the
/// pages and the final cursor, or the failure with the index of the page
/// being decoded and the cursor where it arose.
pub ghost enum PagesStep {
    Done { pages: Seq<PageV>, off: int },
    Fail { kind: ErrorKind, page: int, off: int },
}

/// The page loop: pages are decoded one after another, each against its
/// predecessor, until the cursor stands exactly at the payload's end. An
/// iteration that fails to advance the cursor strictly, or would move it
/// past the end, is a fatal decode error.
#[verifier::opaque]
pub open spec fn spec_pages(data: Seq<char>, off: int, pages: Seq<PageV>, rep: int) -> PagesStep
    decreases data.len() - off,
        when 0 <= off <= data.len()
{
    if off == data.len() {
        PagesStep::Done { pages, off }
    } else {
        let prev = if pages.len() > 0 {
            Some(pages.last())
        } else {
            None
        };
        match spec_page_decode(data, off, prev, rep) {
            PageStep::Fail { kind, off: o } => PagesStep::Fail {
                kind,
                page: pages.len() as int,
                off: o,
            },
            PageStep::Done { page, off: off2, rep: rep2 } => {
                if off < off2 && off2 <= data.len() {
                    spec_pages(data, off2, pages.push(page), rep2)
                } else {
                    PagesStep::Fail { kind: ErrorKind::OffsetOverrun, page: pages.len() as int, off }
                }
            },
        }
    }
}


/// The page loop yields its pages where the cursor stands at the end.
proof fn lemma_pages_done(data: Seq<char>, off: int, pages: Seq<PageV>, rep: int)
    requires
        0 <= off <= data.len(),
        off == data.len(),
    ensures
        spec_pages(data, off, pages, rep) == (PagesStep::Done { pages, off }),
{
    reveal(spec_pages);
}

/// The page loop passes a page decode failure on, with the page index.
proof fn lemma_pages_step_fail(
    data: Seq<char>,
    off: int,
    pages: Seq<PageV>,
    rep: int,
    kind: ErrorKind,
    o: int,
)
    requires
        0 <= off < data.len(),
        spec_page_decode(
            data,
            off,
            if pages.len() > 0 {
                Some(pages.last())
            } else {
                None
            },
            rep,
        ) == (PageStep::Fail { kind, off: o }),
    ensures
        spec_pages(data, off, pages, rep) == (PagesStep::Fail {
            kind,
            page: pages.len() as int,
            off: o,
        }),
{
    reveal(spec_pages);
}

/// The page loop appends a decoded page and continues at the new cursor.
proof fn lemma_pages_step_ok(
    data: Seq<char>,
    off: int,
    pages: Seq<PageV>,
    rep: int,
    page: PageV,
    off2: int,
    rep2: int,
)
    requires
        0 <= off < data.len(),
        spec_page_decode(
            data,
            off,
            if pages.len() > 0 {
                Some(pages.last())
            } else {
                None
            },
            rep,
        ) == (PageStep::Done { page, off: off2, rep: rep2 }),
        off < off2 <= data.len(),
    ensures
        spec_pages(data, off, pages, rep) == spec_pages(data, off2, pages.push(page), rep2),
{
    reveal(spec_pages);
}

/// A page decode that does not advance the cursor strictly, or moves it
/// past the end, is a fatal decode error.
proof fn lemma_pages_step_stuck(
    data: Seq<char>,
    off: int,
    pages: Seq<PageV>,
    rep: int,
    page: PageV,
    off2: int,
    rep2: int,
)
    requires
        0 <= off < data.len(),
        spec_page_decode(
            data,
            off,
            if pages.len() > 0 {
                Some(pages.last())
            } else {
                None
            },
            rep,
        ) == (PageStep::Done { page, off: off2, rep: rep2 }),
        !(off < off2 <= data.len()),
    ensures
        spec_pages(data, off, pages, rep) == (PagesStep::Fail {
            kind: ErrorKind::OffsetOverrun,
            page: pages.len() as int,
            off,
        }),
{
    reveal(spec_pages);
}

/// The outcome of a whole parse: the version and the pages, or the failure
/// with the page index and cursor position at which decoding stopped.
pub ghost enum ParseOutcome {
    Done { version: int, pages: Seq<PageV> },
    Fail { kind: ErrorKind, page: int, off: int },
}

/// One whole parse: the header is split off, `?` padding is stripped from
/// the payload, and pages are decoded until the payload is exhausted.
pub open spec fn spec_parse(s: Seq<char>) -> ParseOutcome {
    match spec_header_error(s) {
        Some(k) => ParseOutcome::Fail { kind: k, page: 0, off: 0 },
        None => {
            let payload = spec_strip(spec_payload(s));
            match spec_pages(payload, 0, Seq::empty(), 0) {
                PagesStep::Done { pages, .. } => ParseOutcome::Done {
                    version: spec_version_value(s),
                    pages,
                },
                PagesStep::Fail { kind, page, off } => ParseOutcome::Fail { kind, page, off },
            }
        },
    }
}

/// Decodes a fumen string of the form `<3-digit-version>@<payload>` into
/// its version and its ordered pages, or reports the first failure with
/// the page index and cursor position at which decoding stopped.
pub fn parse(raw_url: &str) -> (r: Result<Fumen, DecodeError>)
    ensures
        ({
            let out = spec_parse(raw_url@);
            match r {
                Ok(f) => out matches ParseOutcome::Done { version, pages } && f@.version == version
                    && f@.pages == pages && f.wf(),
                Err(e) => out matches ParseOutcome::Fail { kind, page, off } && e.kind == kind
                    && e.page == page && e.offset == off,
            }
        }),
{
    let (version, payload) = match get_prefix_data(raw_url) {
        Ok(vp) => vp,
        Err(k) => {
            return Err(DecodeError { kind: k, page: 0, offset: 0 });
        },
    };
    let data_string = strip_padding(payload.as_str());
    let data_str = data_string.as_str();
    let ghost pl = data_str@;
    let len = data_str.unicode_len();

    let mut pages: Vec<Page> = Vec::new();
    let mut offset: usize = 0;
    let mut repeat_count: usize = 0;
    proof {
        assert(pages@.map_values(|p: Page| p@) =~= Seq::<PageV>::empty());
    }
    while offset != len
        invariant
            pl == data_str@,
            spec_header_error(raw_url@) is None,
            pl == spec_strip(spec_payload(raw_url@)),
            len == pl.len(),
            offset <= len,
            repeat_count != 0 ==> pages@.len() > 0,
            forall|i: int| 0 <= i < pages@.len() ==> (#[trigger] pages@[i]).wf(),
            spec_pages(pl, offset as int, pages@.map_values(|p: Page| p@), repeat_count as int)
                == spec_pages(pl, 0, Seq::empty(), 0),
        decreases len - offset,
    {
        let ghost vpages = pages@.map_values(|p: Page| p@);
        let off_before: usize = offset;
        let ghost old_repeat = repeat_count;
        let prev: Option<&Page> = if pages.len() > 0 {
            Some(&pages[pages.len() - 1])
        } else {
            None
        };
        proof {
            assert(opt_view(prev) == (if vpages.len() > 0 {
                Some(vpages.last())
            } else {
                None
            }));
        }
        let page = match Page::decode(data_str, &mut offset, prev, &mut repeat_count) {
            Ok(p) => p,
            Err(k) => {
                proof {
                    lemma_pages_step_fail(
                        pl,
                        off_before as int,
                        vpages,
                        old_repeat as int,
                        k,
                        offset as int,
                    );
                }
                return Err(DecodeError { kind: k, page: pages.len(), offset });
            },
        };
        if !(offset > off_before && offset <= len) {
            proof {
                lemma_pages_step_stuck(
                    pl,
                    off_before as int,
                    vpages,
                    old_repeat as int,
                    page@,
                    offset as int,
                    repeat_count as int,
                );
            }
            return Err(
                DecodeError {
                    kind: ErrorKind::OffsetOverrun,
                    page: pages.len(),
                    offset: off_before,
                },
            );
        }
        pages.push(page);
        proof {
            lemma_pages_step_ok(
                pl,
                off_before as int,
                vpages,
                old_repeat as int,
                page@,
                offset as int,
                repeat_count as int,
            );
            assert(pages@.map_values(|p: Page| p@) =~= vpages.push(page@));
        }
    }
    proof {
        lemma_pages_done(
            pl,
            offset as int,
            pages@.map_values(|p: Page| p@),
            repeat_count as int,
        );
    }
    let fumen = Fumen { version, pages };
    Ok(fumen)
}

} // verus!
