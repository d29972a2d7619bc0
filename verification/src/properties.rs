//! Properties of the decoder that hold for every input: the shape of
//! decoded grids, exact payload consumption, the behaviour of the repeat
//! counter, and the escape round trip.

use vstd::prelude::*;

use crate::enums::BlockType;
use crate::comment::{spec_comment_decode, spec_groups, TextStep};
use crate::field::{spec_field_decode, spec_runs, FieldStep};
use crate::mino_flags::{spec_flags_decode, FlagsStep};
use crate::page::{spec_commit, spec_page_decode, PageStep, PageV};
use crate::comment::{hex2_value, hex_digit_value, is_hex_digit, unescape_spec};
use crate::util::{
    clear_fold, escape_char, escape_spec, full_rows_from, hex_char, is_plain_char, remove_row,
    row_full, spec_clear_lines,
};
use crate::{spec_pages, spec_parse, PagesStep, ParseOutcome};

verus! {

/// A run loop that completes yields a grid of the accumulator's length.
proof fn lemma_runs_len(
    data: Seq<char>,
    off: int,
    prev: Option<Seq<BlockType>>,
    acc: Seq<BlockType>,
    total: int,
)
    requires
        0 <= total <= 240,
        acc.len() == 240,
        spec_runs(data, off, prev, acc, total) is Done,
    ensures
        spec_runs(data, off, prev, acc, total)->Done_field.len() == 240,
    decreases 240 - total,
{
    if total == 240 {
    } else if off + 2 > data.len() {
    } else {
        let value = crate::alphabet::window_value(data.subrange(off, off + 2));
        let diff = value / 240;
        let count = value % 240;
        if total + count + 1 > 240 {
        } else if !crate::field::run_ok(prev, total, count, diff) {
        } else {
            let acc2 = crate::field::apply_run(prev, acc, total, count, diff);
            assert(acc2.len() == 240);
            if count == 239 {
            } else {
                lemma_runs_len(data, off + 2, prev, acc2, total + count + 1);
            }
        }
    }
}

/// Removing rows keeps the grid at 240 cells.
proof fn lemma_clear_fold_len(f: Seq<BlockType>, ys: Seq<int>)
    requires
        f.len() == 240,
    ensures
        clear_fold(f, ys).len() == 240,
    decreases ys.len(),
{
    if ys.len() == 0 {
    } else {
        assert(remove_row(f, ys[0]).len() == 240);
        lemma_clear_fold_len(remove_row(f, ys[0]), ys.subrange(1, ys.len() as int));
    }
}

/// Committing a page keeps its grid at 240 cells.
proof fn lemma_commit_len(p: PageV)
    requires
        p.field.len() == 240,
    ensures
        spec_commit(p).len() == 240,
{
    if p.mino_flags.lock {
        let kind = p.mino_flags.mino.kind;
        let x = p.mino_flags.mino.position as int % 10;
        let y = p.mino_flags.mino.position as int / 10;
        let f1 = if kind != BlockType::Empty && crate::util::spec_valid_pos(p.field, kind, x, y) {
            crate::util::spec_place(p.field, kind, x, y)
        } else {
            p.field
        };
        assert(f1.len() == 240);
        lemma_clear_fold_len(f1, crate::util::full_rows_from(f1, 0));
        assert(spec_clear_lines(f1).len() == 240);
    }
}

/// A page decode that completes yields a grid of exactly 240 cells,
/// provided the predecessor's grid has 240 cells.
proof fn lemma_page_field_len(data: Seq<char>, off: int, prev: Option<PageV>, rep: int)
    requires
        prev matches Some(p) ==> p.field.len() == 240,
        spec_page_decode(data, off, prev, rep) is Done,
    ensures
        spec_page_decode(data, off, prev, rep)->Done_page.field.len() == 240,
{
    let basef = match prev {
        Some(p) => Some(spec_commit(p)),
        None => None,
    };
    if prev is Some {
        lemma_commit_len(prev->0);
    }
    let step = spec_field_decode(data, off, basef, rep);
    if rep != 0 {
    } else {
        if step is Done {
            lemma_runs_len(data, off, basef, crate::field::empty_field(), 0);
        }
    }
}

/// Every page that the page loop appends carries a grid of exactly 240
/// cells (each cell being, by its type, one of the nine block kinds).
pub proof fn lemma_pages_fields_full(
    data: Seq<char>,
    off: int,
    pages: Seq<PageV>,
    rep: int,
    all: Seq<PageV>,
    fin: int,
)
    requires
        0 <= off <= data.len(),
        forall|i: int| 0 <= i < pages.len() ==> (#[trigger] pages[i]).field.len() == 240,
        spec_pages(data, off, pages, rep) == (PagesStep::Done { pages: all, off: fin }),
    ensures
        forall|i: int| 0 <= i < all.len() ==> (#[trigger] all[i]).field.len() == 240,
    decreases data.len() - off,
{
    reveal(spec_pages);
    if off == data.len() {
    } else {
        let prev = if pages.len() > 0 {
            Some(pages.last())
        } else {
            None
        };
        match spec_page_decode(data, off, prev, rep) {
            PageStep::Fail { .. } => {},
            PageStep::Done { page, off: off2, rep: rep2 } => {
                if off < off2 <= data.len() {
                    lemma_page_field_len(data, off, prev, rep);
                    assert(forall|i: int|
                        0 <= i < pages.push(page).len() ==> (#[trigger] pages.push(
                            page,
                        )[i]).field.len() == 240);
                    lemma_pages_fields_full(data, off2, pages.push(page), rep2, all, fin);
                }
            },
        }
    }
}

/// Every grid of a successfully parsed fumen has exactly 240 cells; each
/// cell is, by its type, one of the nine block kinds.
pub proof fn lemma_parsed_fields_full(s: Seq<char>, version: int, pages: Seq<PageV>)
    requires
        spec_parse(s) == (ParseOutcome::Done { version, pages }),
    ensures
        forall|i: int| 0 <= i < pages.len() ==> (#[trigger] pages[i]).field.len() == 240,
{
    let payload = crate::util::spec_strip(crate::util::spec_payload(s));
    let step = spec_pages(payload, 0, Seq::empty(), 0);
    match step {
        PagesStep::Done { pages: all, off: fin } => {
            lemma_pages_fields_full(payload, 0, Seq::empty(), 0, all, fin);
        },
        PagesStep::Fail { .. } => {},
    }
}

/// When the page loop completes, the cursor stands exactly at the
/// payload's end: no characters are left unconsumed and none were read
/// past the end.
pub proof fn lemma_pages_consume_payload(
    data: Seq<char>,
    off: int,
    pages: Seq<PageV>,
    rep: int,
    all: Seq<PageV>,
    fin: int,
)
    requires
        0 <= off <= data.len(),
        spec_pages(data, off, pages, rep) == (PagesStep::Done { pages: all, off: fin }),
    ensures
        fin == data.len(),
    decreases data.len() - off,
{
    reveal(spec_pages);
    if off == data.len() {
    } else {
        let prev = if pages.len() > 0 {
            Some(pages.last())
        } else {
            None
        };
        match spec_page_decode(data, off, prev, rep) {
            PageStep::Fail { .. } => {},
            PageStep::Done { page, off: off2, rep: rep2 } => {
                if off < off2 <= data.len() {
                    lemma_pages_consume_payload(data, off2, pages.push(page), rep2, all, fin);
                }
            },
        }
    }
}


/// A hexadecimal digit character round-trips through its value, and is
/// neither `%` nor `u`.
proof fn lemma_hex_char_props(d: int)
    requires
        0 <= d < 16,
    ensures
        is_hex_digit(hex_char(d)),
        hex_digit_value(hex_char(d)) == d,
        hex_char(d) != '%',
        hex_char(d) != 'u',
{
}

/// Escaping and then resolving escapes is the identity on any text whose
/// characters all lie at or below code point 0xFF and that holds no
/// literal `%`.
pub proof fn lemma_escape_unescape_identity(s: Seq<char>)
    requires
        forall|i: int| 0 <= i < s.len() ==> ((#[trigger] s[i]) as u32 <= 0xFF && s[i] != '%'),
    ensures
        unescape_spec(escape_spec(s)) == s,
    decreases s.len(),
{
    if s.len() == 0 {
        assert(escape_spec(s) == Seq::<char>::empty());
        assert(unescape_spec(Seq::<char>::empty()) == Seq::<char>::empty());
        assert(unescape_spec(escape_spec(s)) =~= s);
    } else {
        let c = s[0];
        let rest = s.subrange(1, s.len() as int);
        assert(forall|i: int| 0 <= i < rest.len() ==> rest[i] == s[i + 1]);
        lemma_escape_unescape_identity(rest);
        let e = escape_spec(s);
        assert(e == escape_char(c) + escape_spec(rest));
        let u = c as u32 as int;
        assert(c != '%');
        if is_plain_char(c) {
            assert(escape_char(c) == seq![c]);
            assert(e.len() == 1 + escape_spec(rest).len());
            assert(e[0] == c);
            assert(e.subrange(1, e.len() as int) =~= escape_spec(rest));
            assert(unescape_spec(e) == seq![c] + unescape_spec(escape_spec(rest)));
            assert(seq![c] + rest =~= s);
        } else {
            let h1 = hex_char(u / 16);
            let h0 = hex_char(u % 16);
            lemma_hex_char_props(u / 16);
            lemma_hex_char_props(u % 16);
            assert(escape_char(c) == seq!['%', h1, h0]);
            assert(e.len() == 3 + escape_spec(rest).len());
            assert(e[0] == '%' && e[1] == h1 && e[2] == h0);
            assert(e[1] != 'u');
            let h = e.subrange(1, 3);
            assert(h =~= seq![h1, h0]);
            assert(is_hex_digit(h[0]) && is_hex_digit(h[1]));
            assert(hex2_value(h) == 16 * (u / 16) + u % 16);
            assert(16 * (u / 16) + u % 16 == u);
            vstd::utf8::char_u32_cast(c, c as u32);
            assert(((hex2_value(h) as u32) as char) == c);
            assert(e.subrange(3, e.len() as int) =~= escape_spec(rest));
            assert(unescape_spec(e) == seq![((hex2_value(h) as u32) as char)] + unescape_spec(
                escape_spec(rest),
            ));
            assert(seq![c] + rest =~= s);
        }
        assert(unescape_spec(escape_spec(s)) =~= s);
    }
}

/// The pages handed to the page loop are a prefix of what it yields.
proof fn lemma_pages_prefix(
    data: Seq<char>,
    off: int,
    pages: Seq<PageV>,
    rep: int,
    all: Seq<PageV>,
    fin: int,
)
    requires
        0 <= off <= data.len(),
        spec_pages(data, off, pages, rep) == (PagesStep::Done { pages: all, off: fin }),
    ensures
        all.len() >= pages.len(),
        forall|j: int| 0 <= j < pages.len() ==> all[j] == pages[j],
    decreases data.len() - off,
{
    reveal(spec_pages);
    if off == data.len() {
    } else {
        let prev = if pages.len() > 0 {
            Some(pages.last())
        } else {
            None
        };
        match spec_page_decode(data, off, prev, rep) {
            PageStep::Fail { .. } => {},
            PageStep::Done { page, off: off2, rep: rep2 } => {
                if off < off2 <= data.len() {
                    lemma_pages_prefix(data, off2, pages.push(page), rep2, all, fin);
                    assert(forall|j: int| 0 <= j < pages.len() ==> pages.push(page)[j] == pages[j]);
                }
            },
        }
    }
}

/// While a repeat count `R > 0` is pending and at least `R` more pages
/// are decoded, those `R` pages reuse the grid of the page that set the
/// count, and the counter reaches zero exactly after them: there is a
/// cursor from which the loop continues with the counter at 0 and exactly
/// those pages appended. This holds provided committing each predecessor
/// page in that window leaves its grid unchanged (its lock flag cleared,
/// or the commit a no-op on its grid).
pub proof fn lemma_repeat_reuses_fields(
    data: Seq<char>,
    off: int,
    pages: Seq<PageV>,
    rep: int,
    all: Seq<PageV>,
    fin: int,
)
    requires
        0 <= off <= data.len(),
        0 < rep,
        0 < pages.len(),
        pages.len() + rep <= all.len(),
        spec_pages(data, off, pages, rep) == (PagesStep::Done { pages: all, off: fin }),
        forall|j: int|
            pages.len() - 1 <= j < pages.len() - 1 + rep ==> spec_commit(#[trigger] all[j])
                == all[j].field,
    ensures
        forall|j: int|
            pages.len() <= j < pages.len() + rep ==> (#[trigger] all[j]).field == all[pages.len()
                - 1].field,
        exists|o2: int|
            #[trigger] spec_pages(data, o2, all.take((pages.len() + rep) as int), 0)
                == (PagesStep::Done { pages: all, off: fin }),
    decreases rep,
{
    reveal(spec_pages);
    lemma_pages_prefix(data, off, pages, rep, all, fin);
    assert(pages.last() == all[pages.len() - 1]);
    assert(off < data.len()) by {
        if off == data.len() {
            assert(all == pages);
        }
    }
    let prev = Some(pages.last());
    match spec_page_decode(data, off, prev, rep) {
        PageStep::Fail { .. } => {
            assert(false);
        },
        PageStep::Done { page, off: off2, rep: rep2 } => {
            assert(spec_commit(pages.last()) == pages.last().field);
            assert(page.field == pages.last().field && rep2 == rep - 1);
            assert(off < off2 <= data.len()) by {
                if !(off < off2 && off2 <= data.len()) {
                    assert(spec_pages(data, off, pages, rep) is Fail);
                }
            }
            let pages2 = pages.push(page);
            lemma_pages_prefix(data, off2, pages2, rep2, all, fin);
            assert(all[pages.len() as int] == page);
            if rep2 == 0 {
                assert(all.take((pages.len() + rep) as int) =~= pages2);
                assert(spec_pages(data, off2, all.take((pages.len() + rep) as int), 0)
                    == (PagesStep::Done { pages: all, off: fin }));
            } else {
                lemma_repeat_reuses_fields(data, off2, pages2, rep2, all, fin);
                assert(forall|j: int|
                    pages2.len() <= j < pages2.len() + rep2 ==> (#[trigger] all[j]).field
                        == all[pages2.len() - 1].field);
                assert(all[pages2.len() - 1].field == pages.last().field);
                let o2 = choose|o2: int|
                    #[trigger] spec_pages(data, o2, all.take((pages2.len() + rep2) as int), 0)
                        == (PagesStep::Done { pages: all, off: fin });
                assert((pages2.len() + rep2) as int == (pages.len() + rep) as int);
                assert(spec_pages(data, o2, all.take((pages.len() + rep) as int), 0)
                    == (PagesStep::Done { pages: all, off: fin }));
            }
        },
    }
}

/// A run loop that starts inside the grid and completes leaves the cursor
/// strictly advanced and within the payload.
proof fn lemma_runs_bounds(
    data: Seq<char>,
    off: int,
    prev: Option<Seq<BlockType>>,
    acc: Seq<BlockType>,
    total: int,
)
    requires
        0 <= total < 240,
        spec_runs(data, off, prev, acc, total) is Done,
    ensures
        off < spec_runs(data, off, prev, acc, total)->Done_off <= data.len(),
    decreases 240 - total,
{
    if off + 2 > data.len() {
    } else {
        let value = crate::alphabet::window_value(data.subrange(off, off + 2));
        let count = value % 240;
        let total2 = total + count + 1;
        if total2 <= 240 && count != 239 && total2 < 240 {
            let diff = value / 240;
            if crate::field::run_ok(prev, total, count, diff) {
                let acc2 = crate::field::apply_run(prev, acc, total, count, diff);
                if spec_runs(data, off + 2, prev, acc2, total2) is Done {
                    lemma_runs_bounds(data, off + 2, prev, acc2, total2);
                }
            }
        }
    }
}

/// A group loop that starts within the payload and completes leaves the
/// cursor within the payload, never moving it backwards.
proof fn lemma_groups_bounds(data: Seq<char>, off: int, remaining: int, acc: Seq<char>)
    requires
        0 <= off <= data.len(),
        spec_groups(data, off, remaining, acc) is Done,
    ensures
        off <= spec_groups(data, off, remaining, acc)->Done_off <= data.len(),
    decreases (remaining + 3) / 4,
{
    reveal(spec_groups);
    if remaining <= 0 {
    } else if off + 5 > data.len() {
    } else if !crate::alphabet::window_ok(data.subrange(off, off + 5)) {
    } else {
        let acc2 = acc + crate::comment::group_chars(
            crate::alphabet::window_value(data.subrange(off, off + 5)),
        );
        lemma_groups_bounds(data, off + 5, remaining - 4, acc2);
    }
}

/// A page decode that starts within the payload and completes moves the
/// cursor strictly forward and never past the payload's end: together with
/// [`lemma_pages_consume_payload`], decoding neither stalls nor overruns.
pub proof fn lemma_page_decode_advances(data: Seq<char>, off: int, prev: Option<PageV>, rep: int)
    requires
        0 <= off <= data.len(),
        spec_page_decode(data, off, prev, rep) is Done,
    ensures
        off < spec_page_decode(data, off, prev, rep)->Done_off <= data.len(),
{
    let basef = match prev {
        Some(p) => Some(spec_commit(p)),
        None => None,
    };
    match spec_field_decode(data, off, basef, rep) {
        FieldStep::Fail { .. } => {},
        FieldStep::Done { field, off: off1, rep: rep1 } => {
            assert(off <= off1 <= data.len()) by {
                if rep == 0 {
                    if spec_runs(data, off, basef, crate::field::empty_field(), 0) is Done {
                        lemma_runs_bounds(data, off, basef, crate::field::empty_field(), 0);
                    }
                }
            }
            match spec_flags_decode(data, off1) {
                FlagsStep::Fail { .. } => {},
                FlagsStep::Done { flags, off: off2 } => {
                    assert(off2 == off1 + 3 && off2 <= data.len());
                    if flags.comment {
                        match spec_comment_decode(data, off2) {
                            TextStep::Fail { .. } => {},
                            TextStep::Done { text, off: off3 } => {
                                assert(off2 + 2 <= data.len());
                                lemma_groups_bounds(
                                    data,
                                    off2 + 2,
                                    crate::alphabet::window_value(
                                        data.subrange(off2, off2 + 2),
                                    ),
                                    Seq::empty(),
                                );
                            },
                        }
                    }
                },
            }
        },
    }
}

/// Below row `y` there are no full rows, so none are listed.
proof fn lemma_no_full_rows_from(f: Seq<BlockType>, y: int)
    requires
        0 <= y <= 24,
        forall|r: int| y <= r < 24 ==> !row_full(f, r),
    ensures
        full_rows_from(f, y) == Seq::<int>::empty(),
    decreases 24 - y,
{
    if y >= 24 {
        assert(full_rows_from(f, y) =~= Seq::<int>::empty());
    } else {
        lemma_no_full_rows_from(f, y + 1);
    }
}

/// Clearing a grid that has no full row leaves it unchanged.
pub proof fn lemma_clear_lines_identity(f: Seq<BlockType>)
    requires
        forall|r: int| 0 <= r < 24 ==> !row_full(f, r),
    ensures
        spec_clear_lines(f) == f,
{
    lemma_no_full_rows_from(f, 0);
    assert(clear_fold(f, Seq::<int>::empty()) == f);
}

/// Row `r` of a grid, as its ten cells.
pub open spec fn row_of(f: Seq<BlockType>, r: int) -> Seq<BlockType> {
    f.subrange(10 * r, 10 * r + 10)
}

/// A row of ten `Empty` cells.
pub open spec fn empty_row() -> Seq<BlockType> {
    Seq::new(10, |i: int| BlockType::Empty)
}

/// How many listed rows lie strictly below row `r` (at a larger index).
pub open spec fn count_after(ys: Seq<int>, r: int) -> int
    decreases ys.len(),
{
    if ys.len() == 0 {
        0
    } else {
        (if ys[0] > r {
            1int
        } else {
            0int
        }) + count_after(ys.subrange(1, ys.len() as int), r)
    }
}

/// Every listed row lies strictly below `r`, so all of them are counted.
proof fn lemma_count_after_all_greater(ys: Seq<int>, r: int)
    requires
        forall|j: int| 0 <= j < ys.len() ==> ys[j] > r,
    ensures
        count_after(ys, r) == ys.len(),
    decreases ys.len(),
{
    if ys.len() == 0 {
    } else {
        let rest = ys.subrange(1, ys.len() as int);
        assert(forall|j: int| 0 <= j < rest.len() ==> rest[j] == ys[j + 1]);
        lemma_count_after_all_greater(rest, r);
    }
}

/// Folding row removals over an ascending list of board rows clears
/// exactly those rows: each unlisted row of `g` survives unchanged, moved
/// down by the number of listed rows below it, and the top rows, one per
/// listed row, are empty.
proof fn lemma_clear_fold_rows(g: Seq<BlockType>, ys: Seq<int>)
    requires
        g.len() == 240,
        forall|j: int| 0 <= j < ys.len() ==> 0 <= #[trigger] ys[j] < 24,
        forall|i: int, j: int| 0 <= i < j < ys.len() ==> ys[i] < ys[j],
    ensures
        forall|r: int|
            0 <= r < 24 && !ys.contains(r) ==> row_of(
                clear_fold(g, ys),
                r + count_after(ys, r),
            ) == row_of(g, r),
        forall|j: int| 0 <= j < ys.len() ==> row_of(clear_fold(g, ys), j) == empty_row(),
    decreases ys.len(),
{
    if ys.len() == 0 {
        assert(clear_fold(g, ys) == g);
    } else {
        let y0 = ys[0];
        let rest = ys.subrange(1, ys.len() as int);
        let gp = remove_row(g, y0);
        let cf = clear_fold(gp, rest);
        assert(clear_fold(g, ys) == cf);
        assert(forall|j: int| 0 <= j < rest.len() ==> rest[j] == ys[j + 1]);
        assert(forall|j: int| 0 <= j < rest.len() ==> #[trigger] rest[j] > y0);
        lemma_clear_fold_rows(gp, rest);

        assert forall|r: int| 0 <= r < 24 && !ys.contains(r) implies row_of(
            clear_fold(g, ys),
            r + count_after(ys, r),
        ) == row_of(g, r) by {
            assert(r != y0);
            assert(!rest.contains(r)) by {
                if rest.contains(r) {
                    let j = choose|j: int| 0 <= j < rest.len() && rest[j] == r;
                    assert(ys[j + 1] == r);
                }
            }
            if r < y0 {
                let m = r + 1;
                assert(!rest.contains(m)) by {
                    if rest.contains(m) {
                        let j = choose|j: int| 0 <= j < rest.len() && rest[j] == m;
                        assert(rest[j] > y0);
                    }
                }
                assert(row_of(cf, m + count_after(rest, m)) == row_of(gp, m));
                lemma_count_after_all_greater(rest, m);
                lemma_count_after_all_greater(rest, r);
                assert(count_after(ys, r) == 1 + count_after(rest, r));
                assert(row_of(gp, m) =~= row_of(g, r)) by {
                    assert(forall|x: int|
                        0 <= x < 10 ==> #[trigger] gp[10 * m + x] == g[10 * m + x - 10]);
                }
                assert(r + count_after(ys, r) == m + count_after(rest, m));
            } else {
                assert(r > y0);
                assert(row_of(cf, r + count_after(rest, r)) == row_of(gp, r));
                assert(count_after(ys, r) == count_after(rest, r));
                assert(row_of(gp, r) =~= row_of(g, r)) by {
                    assert(forall|x: int| 0 <= x < 10 ==> #[trigger] gp[10 * r + x] == g[10 * r
                        + x]);
                }
            }
        }

        assert forall|j: int| 0 <= j < ys.len() implies row_of(clear_fold(g, ys), j)
            == empty_row() by {
            if j < rest.len() {
                assert(row_of(cf, j) == empty_row());
            } else {
                assert(j == rest.len());
                assert(!rest.contains(0)) by {
                    if rest.contains(0) {
                        let k = choose|k: int| 0 <= k < rest.len() && rest[k] == 0;
                        assert(rest[k] > y0);
                    }
                }
                assert(row_of(cf, 0 + count_after(rest, 0)) == row_of(gp, 0));
                lemma_count_after_all_greater(rest, 0);
                assert(row_of(gp, 0) =~= empty_row()) by {
                    assert(forall|x: int|
                        0 <= x < 10 ==> #[trigger] gp[0 + x] == BlockType::Empty);
                }
            }
        }
    }
}

/// The listed full rows at or below `y` are exactly the full rows there,
/// in ascending order.
proof fn lemma_full_rows_props(f: Seq<BlockType>, y: int)
    requires
        0 <= y <= 24,
    ensures
        forall|j: int| 0 <= j < full_rows_from(f, y).len() ==> y <= #[trigger] full_rows_from(
            f,
            y,
        )[j] < 24,
        forall|i: int, j: int|
            0 <= i < j < full_rows_from(f, y).len() ==> full_rows_from(f, y)[i] < full_rows_from(
                f,
                y,
            )[j],
        forall|r: int|
            full_rows_from(f, y).contains(r) <==> (y <= r < 24 && row_full(f, r)),
    decreases 24 - y,
{
    if y >= 24 {
        assert forall|r: int| full_rows_from(f, y).contains(r) implies (y <= r < 24 && row_full(
            f,
            r,
        )) by {}
    } else {
        lemma_full_rows_props(f, y + 1);
        let tail = full_rows_from(f, y + 1);
        if row_full(f, y) {
            let cur = full_rows_from(f, y);
            assert(cur == seq![y] + tail);
            assert(cur[0] == y);
            assert(forall|j: int| 1 <= j < cur.len() ==> cur[j] == tail[j - 1]);
            assert forall|r: int| cur.contains(r) implies (y <= r < 24 && row_full(f, r)) by {
                let j = choose|j: int| 0 <= j < cur.len() && cur[j] == r;
                if j == 0 {
                } else {
                    assert(tail.contains(r)) by {
                        assert(tail[j - 1] == r);
                    }
                }
            }
            assert forall|r: int| (y <= r < 24 && row_full(f, r)) implies cur.contains(r) by {
                if r == y {
                    assert(cur[0] == r);
                } else {
                    assert(tail.contains(r));
                    let j = choose|j: int| 0 <= j < tail.len() && tail[j] == r;
                    assert(cur[j + 1] == r);
                }
            }
        } else {
            assert(full_rows_from(f, y) == tail);
        }
    }
}

/// Counting the listed full rows below `r` from anywhere at or above `r`
/// counts exactly the full rows below `r`.
proof fn lemma_count_after_full_rows(f: Seq<BlockType>, y: int, r: int)
    requires
        0 <= y <= r + 1,
        r < 24,
    ensures
        count_after(full_rows_from(f, y), r) == full_rows_from(f, r + 1).len(),
    decreases 24 - y,
{
    lemma_full_rows_props(f, y);
    if y == r + 1 {
        assert(forall|j: int| 0 <= j < full_rows_from(f, y).len() ==> #[trigger] full_rows_from(
            f,
            y,
        )[j] > r);
        lemma_count_after_all_greater(full_rows_from(f, y), r);
    } else {
        let cur = full_rows_from(f, y);
        let tail = full_rows_from(f, y + 1);
        lemma_count_after_full_rows(f, y + 1, r);
        if row_full(f, y) {
            assert(cur == seq![y] + tail);
            assert(cur[0] == y);
            assert(y <= r);
            assert(cur.subrange(1, cur.len() as int) =~= tail);
        } else {
            assert(cur == tail);
        }
    }
}

/// Clearing lines removes exactly the full rows: every row that is not
/// full survives unchanged, moved down by the number of full rows below
/// it, and the top of the grid holds one empty row for each cleared row.
pub proof fn lemma_clear_lines_canonical(f: Seq<BlockType>)
    requires
        f.len() == 240,
    ensures
        forall|j: int|
            0 <= j < full_rows_from(f, 0).len() ==> row_of(spec_clear_lines(f), j) == empty_row(),
        forall|r: int|
            0 <= r < 24 && !row_full(f, r) ==> row_of(
                spec_clear_lines(f),
                r + full_rows_from(f, r + 1).len(),
            ) == row_of(f, r),
{
    let ys = full_rows_from(f, 0);
    lemma_full_rows_props(f, 0);
    lemma_clear_fold_rows(f, ys);
    assert forall|r: int| 0 <= r < 24 && !row_full(f, r) implies row_of(
        spec_clear_lines(f),
        r + full_rows_from(f, r + 1).len(),
    ) == row_of(f, r) by {
        assert(!ys.contains(r));
        lemma_count_after_full_rows(f, 0, r);
        assert(row_of(clear_fold(f, ys), r + count_after(ys, r)) == row_of(f, r));
    }
}
} // verus!
