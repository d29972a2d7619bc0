//! Shared decoding utilities: the positional decoder `poll`, the header
//! parser, the grid transforms that derive one page's baseline from its
//! predecessor, and the character-escaping helper.

use vstd::prelude::*;
use vstd::string::StrSliceExecFns;

use crate::alphabet::{
    lemma_window_value_bound, lemma_window_value_push, pow64, symbol_lookup, window_ok,
    window_value,
};
use crate::enums::BlockType;
use crate::error::ErrorKind;
use crate::field::Field;
use crate::{HEIGHT, WIDTH};

verus! {

/// Collects characters into an owned string.
///
/// Relies on `String`'s `FromIterator<char>` impl: collecting yields exactly
/// the iterated characters, in order.
#[verifier::external_body]
pub(crate) fn chars_to_string(chars: &Vec<char>) -> (s: String)
    ensures
        s@ == chars@,
{
    chars.iter().collect()
}

/// Converts a code point to a character.
///
/// Relies on `char::from_u32`: it returns `Some` exactly for values that are
/// not surrogates and lie at or below 0x10FFFF, and the returned character
/// carries that code point.
#[verifier::external_body]
pub(crate) fn char_from_u32(n: u32) -> (r: Option<char>)
    ensures
        r matches Some(c) ==> c as u32 == n,
        r is Some <==> (n < 0xD800 || (0xE000 <= n && n <= 0x10FFFF)),
{
    char::from_u32(n)
}

/// Concrete values of the small powers of 64 that decoding windows use.
pub proof fn lemma_pow64_values()
    ensures
        pow64(0) == 1,
        pow64(1) == 64,
        pow64(2) == 4096,
        pow64(3) == 262144,
        pow64(4) == 16777216,
        pow64(5) == 1073741824,
{
    reveal_with_fuel(pow64, 6);
}

/// Reads a character window as a little-endian base-64 integer: the value is
/// the sum of `symbol_value(data[i]) * 64^i` over the window. Fails with
/// `InvalidSymbol` exactly when some character lies outside the alphabet.
/// Decoding windows are at most five characters wide, which also keeps the
/// value within the machine word.
pub fn poll(data: &str) -> (r: Result<usize, ErrorKind>)
    requires
        data@.len() <= 5,
    ensures
        r matches Ok(v) ==> window_ok(data@) && v as int == window_value(data@),
        r matches Err(k) ==> k == ErrorKind::InvalidSymbol,
        r is Err <==> !window_ok(data@),
{
    let ghost s = data@;
    let len = data.unicode_len();
    let mut value: usize = 0;
    let mut size: usize = 1;
    let mut i: usize = 0;
    while i < len
        invariant
            len == s.len(),
            s == data@,
            i <= len <= 5,
            window_ok(s.take(i as int)),
            value as int == window_value(s.take(i as int)),
            size as nat == pow64(i as nat),
        decreases len - i,
    {
        let c = data.get_char(i);
        match symbol_lookup(c) {
            None => {
                assert(!window_ok(s)) by {
                    assert(s[i as int] == c);
                }
                return Err(ErrorKind::InvalidSymbol);
            },
            Some(v) => {
                proof {
                    lemma_pow64_values();
                    assert(size <= 16777216) by {
                        if i == 0 {
                        } else if i == 1 {
                        } else if i == 2 {
                        } else if i == 3 {
                        } else {
                            assert(i == 4);
                        }
                    }
                    lemma_window_value_push(s.take(i as int), c);
                    assert(s.take(i as int).push(c) =~= s.take(i as int + 1));
                    assert(window_ok(s.take(i as int + 1)));
                    lemma_window_value_bound(s.take(i as int + 1));
                    assert(pow64((i + 1) as nat) <= 1073741824) by {
                        if i == 0 {
                        } else if i == 1 {
                        } else if i == 2 {
                        } else if i == 3 {
                        } else {
                            assert(i == 4);
                        }
                    }
                }
                value = value + (v as usize) * size;
                size = size * 64;
                i = i + 1;
            },
        }
    }
    proof {
        assert(s.take(len as int) =~= s);
    }
    Ok(value)
}

/// Reads the window of `width` characters starting at `offset` as a
/// little-endian base-64 integer.
pub(crate) fn poll_at(data: &str, offset: usize, width: usize) -> (r: Result<usize, ErrorKind>)
    requires
        offset + width <= data@.len() <= usize::MAX,
        width <= 5,
    ensures
        r matches Ok(v) ==> window_ok(data@.subrange(offset as int, offset + width)) && v as int
            == window_value(data@.subrange(offset as int, offset + width)),
        r matches Err(k) ==> k == ErrorKind::InvalidSymbol,
        r is Err <==> !window_ok(data@.subrange(offset as int, offset + width)),
{
    let window = data.substring_char(offset, offset + width);
    poll(window)
}

/// Whether some character of `s` is `@`.
pub open spec fn spec_has_at(s: Seq<char>) -> bool {
    exists|i: int| 0 <= i < s.len() && s[i] == '@'
}

/// The index of the last `@` in `s`, or -1 when there is none.
pub open spec fn spec_last_at(s: Seq<char>) -> int
    decreases s.len(),
{
    if s.len() == 0 {
        -1
    } else if s[s.len() - 1] == '@' {
        s.len() - 1
    } else {
        spec_last_at(s.drop_last())
    }
}

/// `spec_last_at` names the last `@` of `s`, when one exists.
pub proof fn lemma_last_at(s: Seq<char>)
    ensures
        spec_has_at(s) <==> 0 <= spec_last_at(s),
        -1 <= spec_last_at(s) < s.len(),
        0 <= spec_last_at(s) ==> s[spec_last_at(s)] == '@',
        forall|j: int| spec_last_at(s) < j < s.len() ==> s[j] != '@',
    decreases s.len(),
{
    if s.len() == 0 {
    } else if s[s.len() - 1] == '@' {
    } else {
        let d = s.drop_last();
        lemma_last_at(d);
        assert(d =~= s.subrange(0, s.len() - 1));
        assert(spec_last_at(s) == spec_last_at(d));
        assert(forall|i: int| 0 <= i < d.len() ==> d[i] == s[i]);
        if spec_has_at(s) {
            let i = choose|i: int| 0 <= i < s.len() && s[i] == '@';
            assert(i < s.len() - 1);
            assert(d[i] == '@');
            assert(spec_has_at(d));
        }
        if spec_has_at(d) {
            let i = choose|i: int| 0 <= i < d.len() && d[i] == '@';
            assert(s[i] == '@');
        }
        assert forall|j: int| spec_last_at(s) < j < s.len() implies s[j] != '@' by {
            if j == s.len() - 1 {
            } else {
                assert(d[j] == s[j]);
            }
        }
    }
}

/// Whether `c` is a decimal digit.
pub open spec fn is_digit(c: char) -> bool {
    48 <= c as u32 && c as u32 <= 57
}

/// The value of a decimal digit; meaningful when `is_digit(c)`.
pub open spec fn digit_value(c: char) -> int {
    c as u32 - 48
}

/// Whether the three characters before the last `@` are decimal digits.
pub open spec fn spec_version_ok(s: Seq<char>) -> bool {
    let a = spec_last_at(s);
    is_digit(s[a - 3]) && is_digit(s[a - 2]) && is_digit(s[a - 1])
}

/// The version number spelled by the three characters before the last `@`.
pub open spec fn spec_version_value(s: Seq<char>) -> int {
    let a = spec_last_at(s);
    100 * digit_value(s[a - 3]) + 10 * digit_value(s[a - 2]) + digit_value(s[a - 1])
}

/// Everything after the last `@`.
pub open spec fn spec_payload(s: Seq<char>) -> Seq<char> {
    s.subrange(spec_last_at(s) + 1, s.len() as int)
}

/// The failure that parsing the header of `s` reports, or `None` when the
/// header is well-formed.
pub open spec fn spec_header_error(s: Seq<char>) -> Option<ErrorKind> {
    if !spec_has_at(s) || spec_last_at(s) < 3 {
        Some(ErrorKind::MalformedHeader)
    } else if !spec_version_ok(s) {
        Some(ErrorKind::InvalidVersion)
    } else {
        None
    }
}

/// Splits the input at its last `@` into the three-digit version that
/// precedes it and the payload that follows it. Fails with `MalformedHeader`
/// when no `@` exists or fewer than three characters precede it, and with
/// `InvalidVersion` when one of those three characters is not a decimal
/// digit.
pub fn get_prefix_data(raw_url: &str) -> (r: Result<(usize, String), ErrorKind>)
    ensures
        r matches Ok(vp) ==> spec_header_error(raw_url@) is None && vp.0 as int
            == spec_version_value(raw_url@) && vp.1@ == spec_payload(raw_url@),
        r matches Err(k) ==> spec_header_error(raw_url@) == Some(k),
        r is Err <==> spec_header_error(raw_url@) is Some,
{
    let ghost s = raw_url@;
    proof {
        lemma_last_at(s);
    }
    let len = raw_url.unicode_len();
    let mut i = len;
    let mut at_index: Option<usize> = None;
    while i > 0 && at_index.is_none()
        invariant
            len == s.len(),
            s == raw_url@,
            i <= len,
            at_index matches Some(a) ==> a < len && s[a as int] == '@' && (forall|j: int|
                a < j < len ==> s[j] != '@'),
            at_index is None ==> forall|j: int| i <= j < len ==> s[j] != '@',
        decreases i,
    {
        i = i - 1;
        let c = raw_url.get_char(i);
        if c == '@' {
            at_index = Some(i);
        }
    }
    match at_index {
        None => {
            assert(!spec_has_at(s));
            Err(ErrorKind::MalformedHeader)
        },
        Some(a) => {
            proof {
                assert(s[a as int] == '@');
                assert(spec_has_at(s));
                assert(a as int == spec_last_at(s)) by {
                    assert(forall|j: int| a < j < len ==> s[j] != '@');
                    if (a as int) < spec_last_at(s) {
                        assert(s[spec_last_at(s)] == '@');
                    }
                    if spec_last_at(s) < a as int {
                        assert(s[a as int] != '@');
                    }
                }
            }
            if a < 3 {
                Err(ErrorKind::MalformedHeader)
            } else {
                let c0 = raw_url.get_char(a - 3);
                let c1 = raw_url.get_char(a - 2);
                let c2 = raw_url.get_char(a - 1);
                let u0 = c0 as u32;
                let u1 = c1 as u32;
                let u2 = c2 as u32;
                if 48 <= u0 && u0 <= 57 && 48 <= u1 && u1 <= 57 && 48 <= u2 && u2 <= 57 {
                    let version: usize = (100 * (u0 - 48) + 10 * (u1 - 48) + (u2 - 48)) as usize;
                    let payload = raw_url.substring_char(a + 1, len).to_owned();
                    Ok((version, payload))
                } else {
                    Err(ErrorKind::InvalidVersion)
                }
            }
        },
    }
}

/// `s` with every `?` removed; `?` is insertable line-wrap padding and never
/// semantic.
pub open spec fn spec_strip(s: Seq<char>) -> Seq<char>
    decreases s.len(),
{
    if s.len() == 0 {
        Seq::empty()
    } else if s[0] == '?' {
        spec_strip(s.subrange(1, s.len() as int))
    } else {
        seq![s[0]] + spec_strip(s.subrange(1, s.len() as int))
    }
}

/// Appending a character extends the stripped sequence accordingly.
pub proof fn lemma_strip_push(s: Seq<char>, c: char)
    ensures
        spec_strip(s.push(c)) == if c == '?' {
            spec_strip(s)
        } else {
            spec_strip(s).push(c)
        },
    decreases s.len(),
{
    let sp = s.push(c);
    if s.len() == 0 {
        assert(sp.subrange(1, sp.len() as int) =~= Seq::<char>::empty());
        assert(spec_strip(Seq::<char>::empty()) == Seq::<char>::empty());
        assert(spec_strip(s) == Seq::<char>::empty());
        if c == '?' {
            assert(spec_strip(sp) =~= spec_strip(s));
        } else {
            assert(spec_strip(sp) == seq![sp[0]] + spec_strip(Seq::<char>::empty()));
            assert(spec_strip(sp) =~= spec_strip(s).push(c));
        }
    } else {
        let rest = s.subrange(1, s.len() as int);
        assert(sp.subrange(1, sp.len() as int) =~= rest.push(c));
        lemma_strip_push(rest, c);
        assert(sp[0] == s[0]);
        if c == '?' {
            assert(spec_strip(rest.push(c)) == spec_strip(rest));
            if s[0] == '?' {
                assert(spec_strip(sp) == spec_strip(rest.push(c)));
                assert(spec_strip(s) == spec_strip(rest));
            } else {
                assert(spec_strip(sp) == seq![s[0]] + spec_strip(rest.push(c)));
                assert(spec_strip(s) == seq![s[0]] + spec_strip(rest));
            }
            assert(spec_strip(sp) =~= spec_strip(s));
        } else {
            assert(spec_strip(rest.push(c)) == spec_strip(rest).push(c));
            if s[0] == '?' {
                assert(spec_strip(sp) == spec_strip(rest).push(c));
                assert(spec_strip(s) == spec_strip(rest));
            } else {
                assert(spec_strip(sp) == seq![s[0]] + (spec_strip(rest).push(c)));
                assert(spec_strip(s) == seq![s[0]] + spec_strip(rest));
                assert(seq![s[0]] + (spec_strip(rest).push(c)) =~= (seq![s[0]] + spec_strip(
                    rest,
                )).push(c));
            }
            assert(spec_strip(sp) =~= spec_strip(s).push(c));
        }
    }
}

/// Removes every `?` from `data`.
pub(crate) fn strip_padding(data: &str) -> (r: String)
    ensures
        r@ == spec_strip(data@),
{
    let ghost s = data@;
    let len = data.unicode_len();
    let mut out: Vec<char> = Vec::new();
    let mut i: usize = 0;
    while i < len
        invariant
            len == s.len(),
            s == data@,
            i <= len,
            out@ == spec_strip(s.take(i as int)),
        decreases len - i,
    {
        let c = data.get_char(i);
        proof {
            lemma_strip_push(s.take(i as int), c);
            assert(s.take(i as int).push(c) =~= s.take(i as int + 1));
        }
        if c != '?' {
            out.push(c);
        }
        i = i + 1;
    }
    proof {
        assert(s.take(len as int) =~= s);
    }
    chars_to_string(&out)
}


/// Whether row `y` of the grid has no `Empty` cell.
pub open spec fn row_full(f: Seq<BlockType>, y: int) -> bool {
    forall|x: int| 0 <= x < 10 ==> #[trigger] f[x + y * 10] != BlockType::Empty
}

/// The grid with row `y` removed: rows above it shift down by one and an
/// `Empty` row appears at the top.
pub open spec fn remove_row(f: Seq<BlockType>, y: int) -> Seq<BlockType> {
    Seq::new(
        240,
        |i: int|
            if i / 10 == 0 {
                BlockType::Empty
            } else if i / 10 <= y {
                f[i - 10]
            } else {
                f[i]
            },
    )
}

/// The indices of the full rows of `f` at or below row `y`, ascending.
pub open spec fn full_rows_from(f: Seq<BlockType>, y: int) -> Seq<int>
    decreases 24 - y,
        when y <= 24
{
    if y >= 24 {
        Seq::empty()
    } else if row_full(f, y) {
        seq![y] + full_rows_from(f, y + 1)
    } else {
        full_rows_from(f, y + 1)
    }
}

/// Removes the listed rows one after the other, lowest first.
pub open spec fn clear_fold(f: Seq<BlockType>, ys: Seq<int>) -> Seq<BlockType>
    decreases ys.len(),
{
    if ys.len() == 0 {
        f
    } else {
        clear_fold(remove_row(f, ys[0]), ys.subrange(1, ys.len() as int))
    }
}

/// The grid after every full row of `f` is cleared: each full row is
/// removed in ascending order, rows above it shifting down and an `Empty`
/// row entering at the top.
pub open spec fn spec_clear_lines(f: Seq<BlockType>) -> Seq<BlockType> {
    clear_fold(f, full_rows_from(f, 0))
}

/// The grid shifted down one row: the bottom row is discarded and an
/// `Empty` row enters at the top.
pub open spec fn spec_raise(f: Seq<BlockType>) -> Seq<BlockType> {
    Seq::new(
        240,
        |i: int|
            if i / 10 == 0 {
                BlockType::Empty
            } else {
                f[i - 10]
            },
    )
}

/// The grid with every row reversed left to right.
pub open spec fn spec_mirror(f: Seq<BlockType>) -> Seq<BlockType> {
    Seq::new(240, |i: int| f[(i / 10) * 10 + 9 - (i % 10)])
}

/// The cell offsets of each piece shape, relative to its position, in the
/// order of the block kinds' representations. `Empty` and `Gray` have no
/// shape.
pub open spec fn piece_offsets(kind: BlockType) -> Seq<(int, int)> {
    match kind {
        BlockType::I => seq![(0int, 0int), (-1int, 0int), (1int, 0int), (2int, 0int)],
        BlockType::L => seq![(0int, 0int), (-1int, 0int), (1int, 0int), (0int, 1int)],
        BlockType::O => seq![(0int, 0int), (1int, 0int), (0int, 1int), (1int, 1int)],
        BlockType::Z => seq![(0int, 0int), (-1int, 0int), (1int, 0int), (1int, 1int)],
        BlockType::T => seq![(0int, 0int), (-1int, 0int), (1int, 0int), (-1int, 1int)],
        BlockType::J => seq![(0int, 0int), (-1int, 0int), (0int, 1int), (1int, 1int)],
        BlockType::S => seq![(0int, 0int), (1int, 0int), (0int, 1int), (-1int, 1int)],
        _ => Seq::empty(),
    }
}

/// The absolute cells a piece of `kind` occupies when placed at `(x, y)`.
pub open spec fn mino_cells(kind: BlockType, x: int, y: int) -> Seq<(int, int)> {
    piece_offsets(kind).map(|k: int, p: (int, int)| (x + p.0, y + p.1))
}

/// Whether `p` lies on the board.
pub open spec fn cell_in_bounds(p: (int, int)) -> bool {
    0 <= p.0 < 10 && 0 <= p.1 < 24
}

/// Whether `p` lies on the board and its cell is `Empty` in `f`.
pub open spec fn cell_free(f: Seq<BlockType>, p: (int, int)) -> bool {
    cell_in_bounds(p) && f[p.0 + p.1 * 10] == BlockType::Empty
}

/// Whether placing a piece of `kind` at `(x, y)` is allowed: the kind is a
/// real piece and all four of its cells lie on the board and are `Empty`.
pub open spec fn spec_valid_pos(f: Seq<BlockType>, kind: BlockType, x: int, y: int) -> bool {
    kind != BlockType::Empty && forall|k: int|
        0 <= k < mino_cells(kind, x, y).len() ==> cell_free(f, #[trigger] mino_cells(kind, x, y)[k])
}

/// The grid after the piece's cells are stamped with its kind.
pub open spec fn spec_place(f: Seq<BlockType>, kind: BlockType, x: int, y: int) -> Seq<BlockType> {
    Seq::new(
        f.len(),
        |i: int|
            if exists|k: int|
                0 <= k < mino_cells(kind, x, y).len() && (#[trigger] mino_cells(kind, x, y)[k]).0
                    + mino_cells(kind, x, y)[k].1 * 10 == i {
                kind
            } else {
                f[i]
            },
    )
}

/// The absolute cells a piece of `kind` occupies when placed at `(x, y)`,
/// as signed column and row pairs; empty for a kind with no shape.
pub fn get_mino_pos(mino_type: &BlockType, x: usize, y: usize) -> (r: Vec<(i32, i32)>)
    requires
        *mino_type != BlockType::Gray,
        x < 10,
        y < 24,
    ensures
        r@.len() == mino_cells(*mino_type, x as int, y as int).len(),
        forall|k: int|
            0 <= k < r@.len() ==> (#[trigger] r@[k]).0 as int == mino_cells(
                *mino_type,
                x as int,
                y as int,
            )[k].0 && r@[k].1 as int == mino_cells(*mino_type, x as int, y as int)[k].1,
{
    let mut result_pos: Vec<(i32, i32)> = Vec::new();
    let xi = x as i32;
    let yi = y as i32;
    match *mino_type {
        BlockType::I => {
            result_pos.push((xi, yi));
            result_pos.push((xi - 1, yi));
            result_pos.push((xi + 1, yi));
            result_pos.push((xi + 2, yi));
        },
        BlockType::L => {
            result_pos.push((xi, yi));
            result_pos.push((xi - 1, yi));
            result_pos.push((xi + 1, yi));
            result_pos.push((xi, yi + 1));
        },
        BlockType::O => {
            result_pos.push((xi, yi));
            result_pos.push((xi + 1, yi));
            result_pos.push((xi, yi + 1));
            result_pos.push((xi + 1, yi + 1));
        },
        BlockType::Z => {
            result_pos.push((xi, yi));
            result_pos.push((xi - 1, yi));
            result_pos.push((xi + 1, yi));
            result_pos.push((xi + 1, yi + 1));
        },
        BlockType::T => {
            result_pos.push((xi, yi));
            result_pos.push((xi - 1, yi));
            result_pos.push((xi + 1, yi));
            result_pos.push((xi - 1, yi + 1));
        },
        BlockType::J => {
            result_pos.push((xi, yi));
            result_pos.push((xi - 1, yi));
            result_pos.push((xi, yi + 1));
            result_pos.push((xi + 1, yi + 1));
        },
        BlockType::S => {
            result_pos.push((xi, yi));
            result_pos.push((xi + 1, yi));
            result_pos.push((xi, yi + 1));
            result_pos.push((xi - 1, yi + 1));
        },
        _ => {},
    }
    result_pos
}

/// Whether placing a piece of `kind` at `(x, y)` is allowed on `field`:
/// false for `Empty`, and false where any cell leaves the board or covers a
/// non-`Empty` cell.
pub fn check_valid_pos(field: &Field, mino_type: &BlockType, x: usize, y: usize) -> (r: bool)
    requires
        field.wf(),
        *mino_type != BlockType::Gray,
        x < 10,
        y < 24,
    ensures
        r == spec_valid_pos(field@, *mino_type, x as int, y as int),
{
    if *mino_type == BlockType::Empty {
        return false;
    }

    let positions = get_mino_pos(mino_type, x, y);
    let ghost cells = mino_cells(*mino_type, x as int, y as int);
    let mut k: usize = 0;
    let mut ok = true;
    while k < positions.len()
        invariant
            field.wf(),
            positions@.len() == cells.len(),
            forall|j: int|
                0 <= j < positions@.len() ==> (#[trigger] positions@[j]).0 as int == cells[j].0
                    && positions@[j].1 as int == cells[j].1,
            k <= positions@.len(),
            ok == forall|j: int| 0 <= j < k ==> cell_free(field@, #[trigger] cells[j]),
        decreases positions@.len() - k,
    {
        let p = positions[k];
        let good = 0 <= p.0 && p.0 < 10 && 0 <= p.1 && p.1 < 24 && field.0[(p.0 as usize) + (
        p.1 as usize) * 10] == BlockType::Empty;
        assert(good == cell_free(field@, cells[k as int]));
        ok = ok && good;
        k = k + 1;
    }
    ok
}

/// Stamps the four cells of the piece with its kind. The placement must be
/// allowed (see [`spec_valid_pos`]).
pub fn place_mino(field: &mut Field, mino_type: &BlockType, x: usize, y: usize)
    requires
        old(field).wf(),
        *mino_type != BlockType::Gray,
        x < 10,
        y < 24,
        spec_valid_pos(old(field)@, *mino_type, x as int, y as int),
    ensures
        final(field).wf(),
        final(field)@ == spec_place(old(field)@, *mino_type, x as int, y as int),
{
    let ghost f0 = field@;
    let ghost cells = mino_cells(*mino_type, x as int, y as int);
    let positions = get_mino_pos(mino_type, x, y);
    let mut k: usize = 0;
    while k < positions.len()
        invariant
            field@.len() == 240,
            f0.len() == 240,
            positions@.len() == cells.len(),
            forall|j: int|
                0 <= j < positions@.len() ==> (#[trigger] positions@[j]).0 as int == cells[j].0
                    && positions@[j].1 as int == cells[j].1,
            forall|j: int| 0 <= j < cells.len() ==> cell_free(f0, #[trigger] cells[j]),
            k <= positions@.len(),
            forall|i: int|
                0 <= i < 240 ==> field@[i] == (if exists|j: int|
                    0 <= j < k && (#[trigger] cells[j]).0 + cells[j].1 * 10 == i {
                    *mino_type
                } else {
                    f0[i]
                }),
        decreases positions@.len() - k,
    {
        let p = positions[k];
        assert(cell_in_bounds(cells[k as int]));
        let idx = (p.0 as usize) + (p.1 as usize) * 10;
        field.0[idx] = *mino_type;
        proof {
            assert(forall|i: int|
                0 <= i < 240 ==> field@[i] == (if exists|j: int|
                    0 <= j < k + 1 && (#[trigger] cells[j]).0 + cells[j].1 * 10 == i {
                    *mino_type
                } else {
                    f0[i]
                }));
        }
        k = k + 1;
    }
    proof {
        assert(field@ =~= spec_place(f0, *mino_type, x as int, y as int));
    }
}


/// Clears every full row of the grid: rows above each cleared row shift
/// down by one and an `Empty` row enters at the top, lowest cleared row
/// first.
pub fn clear_lines(field: &mut Field)
    requires
        old(field).wf(),
    ensures
        final(field).wf(),
        final(field)@ == spec_clear_lines(old(field)@),
{
    let ghost f0 = field@;
    let mut clear_pos: Vec<usize> = Vec::new();
    let mut y: usize = 0;
    while y < HEIGHT
        invariant
            field@ == f0,
            f0.len() == 240,
            y <= 24,
            forall|k: int| 0 <= k < clear_pos@.len() ==> (#[trigger] clear_pos@[k]) < 24,
            clear_pos@.map_values(|v: usize| v as int) + full_rows_from(f0, y as int)
                == full_rows_from(f0, 0),
        decreases 24 - y,
    {
        let ghost prev_map = clear_pos@.map_values(|v: usize| v as int);
        let mut clear = true;
        let mut x: usize = 0;
        while x < WIDTH
            invariant
                field@ == f0,
                f0.len() == 240,
                y < 24,
                x <= 10,
                clear == (forall|xx: int|
                    0 <= xx < x ==> #[trigger] f0[xx + (y as int) * 10] != BlockType::Empty),
            decreases 10 - x,
        {
            if field.0[x + y * 10] == BlockType::Empty {
                clear = false;
            }
            x = x + 1;
        }
        assert(clear == row_full(f0, y as int));
        if clear {
            clear_pos.push(y);
            proof {
                assert(clear_pos@.map_values(|v: usize| v as int) =~= prev_map.push(y as int));
                assert(full_rows_from(f0, y as int) == seq![y as int] + full_rows_from(
                    f0,
                    y as int + 1,
                ));
                assert(prev_map.push(y as int) + full_rows_from(f0, y as int + 1) =~= prev_map + (
                seq![y as int] + full_rows_from(f0, y as int + 1)));
            }
        } else {
            assert(full_rows_from(f0, y as int) == full_rows_from(f0, y as int + 1));
        }
        y = y + 1;
    }
    let ghost ys = clear_pos@.map_values(|v: usize| v as int);
    proof {
        assert(full_rows_from(f0, 24) =~= Seq::<int>::empty());
        assert(ys + full_rows_from(f0, 24) =~= ys);
        assert(ys == full_rows_from(f0, 0));
    }

    let mut m: usize = 0;
    proof {
        assert(ys.subrange(0, ys.len() as int) =~= ys);
    }
    while m < clear_pos.len()
        invariant
            field@.len() == 240,
            m <= clear_pos@.len(),
            forall|k: int| 0 <= k < clear_pos@.len() ==> (#[trigger] clear_pos@[k]) < 24,
            ys == clear_pos@.map_values(|v: usize| v as int),
            clear_fold(field@, ys.subrange(m as int, ys.len() as int)) == clear_fold(f0, ys),
        decreases clear_pos@.len() - m,
    {
        let yv = clear_pos[m];
        let ghost fcur = field@;
        let ghost rest = ys.subrange(m as int, ys.len() as int);
        assert(rest[0] == yv as int);

        let mut yy: usize = yv;
        while yy >= 1
            invariant
                field@.len() == 240,
                fcur.len() == 240,
                yy <= yv,
                yv < 24,
                forall|i: int|
                    0 <= i < 240 ==> field@[i] == (if yy < i / 10 <= yv as int {
                        fcur[i - 10]
                    } else {
                        fcur[i]
                    }),
            decreases yy,
        {
            let mut x: usize = 0;
            while x < 10
                invariant
                    field@.len() == 240,
                    fcur.len() == 240,
                    1 <= yy <= yv,
                    yv < 24,
                    x <= 10,
                    forall|i: int|
                        0 <= i < 240 ==> field@[i] == (if yy < i / 10 <= yv as int {
                            fcur[i - 10]
                        } else if i / 10 == yy as int && i % 10 < x {
                            fcur[i - 10]
                        } else {
                            fcur[i]
                        }),
                decreases 10 - x,
            {
                let v = field.0[x + (yy - 1) * 10];
                field.0[x + yy * 10] = v;
                x = x + 1;
            }
            yy = yy - 1;
        }
        let mut x: usize = 0;
        while x < 10
            invariant
                field@.len() == 240,
                fcur.len() == 240,
                yv < 24,
                x <= 10,
                forall|i: int|
                    0 <= i < 240 ==> field@[i] == (if i < x {
                        BlockType::Empty
                    } else if 0 < i / 10 <= yv as int {
                        fcur[i - 10]
                    } else {
                        fcur[i]
                    }),
            decreases 10 - x,
        {
            field.0[x] = BlockType::Empty;
            x = x + 1;
        }
        proof {
            assert(field@ =~= remove_row(fcur, yv as int));
            assert(rest.subrange(1, rest.len() as int) =~= ys.subrange(
                m as int + 1,
                ys.len() as int,
            ));
            assert(clear_fold(fcur, rest) == clear_fold(
                remove_row(fcur, yv as int),
                ys.subrange(m as int + 1, ys.len() as int),
            ));
        }
        m = m + 1;
    }
    proof {
        assert(ys.subrange(ys.len() as int, ys.len() as int) =~= Seq::<int>::empty());
        assert(clear_fold(field@, Seq::<int>::empty()) == field@);
    }
}

/// Shifts the whole grid down one row: the bottom row is discarded and an
/// `Empty` row enters at the top.
pub fn raise_field(field: &mut Field)
    requires
        old(field).wf(),
    ensures
        final(field).wf(),
        final(field)@ == spec_raise(old(field)@),
{
    let ghost f0 = field@;
    let mut yy: usize = 23;
    while yy >= 1
        invariant
            field@.len() == 240,
            f0.len() == 240,
            yy <= 23,
            forall|i: int|
                0 <= i < 240 ==> field@[i] == (if yy < i / 10 {
                    f0[i - 10]
                } else {
                    f0[i]
                }),
        decreases yy,
    {
        let mut x: usize = 0;
        while x < 10
            invariant
                field@.len() == 240,
                f0.len() == 240,
                1 <= yy <= 23,
                x <= 10,
                forall|i: int|
                    0 <= i < 240 ==> field@[i] == (if yy < i / 10 {
                        f0[i - 10]
                    } else if i / 10 == yy as int && i % 10 < x {
                        f0[i - 10]
                    } else {
                        f0[i]
                    }),
            decreases 10 - x,
        {
            let v = field.0[x + (yy - 1) * 10];
            field.0[x + yy * 10] = v;
            x = x + 1;
        }
        yy = yy - 1;
    }
    let mut x: usize = 0;
    while x < 10
        invariant
            field@.len() == 240,
            f0.len() == 240,
            x <= 10,
            forall|i: int|
                0 <= i < 240 ==> field@[i] == (if i < x {
                    BlockType::Empty
                } else if 0 < i / 10 {
                    f0[i - 10]
                } else {
                    f0[i]
                }),
        decreases 10 - x,
    {
        field.0[x] = BlockType::Empty;
        x = x + 1;
    }
    proof {
        assert(field@ =~= spec_raise(f0));
    }
}

/// Reverses every row of the grid left to right.
pub fn mirror_field(field: &mut Field)
    requires
        old(field).wf(),
    ensures
        final(field).wf(),
        final(field)@ == spec_mirror(old(field)@),
{
    let ghost f0 = field@;
    let mut y: usize = 0;
    while y < HEIGHT
        invariant
            field@.len() == 240,
            f0.len() == 240,
            y <= 24,
            forall|i: int|
                0 <= i < 240 ==> field@[i] == (if i / 10 < y {
                    f0[(i / 10) * 10 + 9 - i % 10]
                } else {
                    f0[i]
                }),
        decreases 24 - y,
    {
        let mut x: usize = 0;
        while x < WIDTH / 2
            invariant
                field@.len() == 240,
                f0.len() == 240,
                y < 24,
                x <= 5,
                forall|i: int|
                    0 <= i < 240 ==> field@[i] == (if i / 10 < y || (i / 10 == y as int && (i % 10
                        < x || i % 10 > 9 - x)) {
                        f0[(i / 10) * 10 + 9 - i % 10]
                    } else {
                        f0[i]
                    }),
            decreases 5 - x,
        {
            let temp = field.0[x + y * 10];
            let v = field.0[9 - x + y * 10];
            field.0[x + y * 10] = v;
            field.0[9 - x + y * 10] = temp;
            x = x + 1;
        }
        y = y + 1;
    }
    proof {
        assert(field@ =~= spec_mirror(f0));
    }
}

/// Whether `escape` copies `c` verbatim: ASCII alphanumeric or one of
/// `@*_+-./`.
pub open spec fn is_plain_char(c: char) -> bool {
    let u = c as u32;
    (48 <= u && u <= 57) || (65 <= u && u <= 90) || (97 <= u && u <= 122) || u == 64 || u == 42
        || u == 95 || u == 43 || u == 45 || u == 46 || u == 47
}

/// The uppercase hexadecimal digit for `d`; meaningful for `0 <= d < 16`.
pub open spec fn hex_char(d: int) -> char {
    if d == 0 {
        '0'
    } else if d == 1 {
        '1'
    } else if d == 2 {
        '2'
    } else if d == 3 {
        '3'
    } else if d == 4 {
        '4'
    } else if d == 5 {
        '5'
    } else if d == 6 {
        '6'
    } else if d == 7 {
        '7'
    } else if d == 8 {
        '8'
    } else if d == 9 {
        '9'
    } else if d == 10 {
        'A'
    } else if d == 11 {
        'B'
    } else if d == 12 {
        'C'
    } else if d == 13 {
        'D'
    } else if d == 14 {
        'E'
    } else {
        'F'
    }
}

/// The uppercase hexadecimal digits of `n`, most significant first, with
/// no leading zeros; empty for 0.
pub open spec fn hex_digits(n: int) -> Seq<char>
    decreases n,
{
    if n <= 0 {
        Seq::empty()
    } else {
        hex_digits(n / 16).push(hex_char(n % 16))
    }
}

/// What `escape` emits for one character: the character itself where it is
/// plain; `%` plus two uppercase hex digits for other code points at or
/// below 0xFF; `%u` plus four uppercase hex digits up to 0xFFFF; `%u` plus
/// the bare digits above that.
pub open spec fn escape_char(c: char) -> Seq<char> {
    let u = c as u32 as int;
    if is_plain_char(c) {
        seq![c]
    } else if u <= 0xFF {
        seq!['%', hex_char(u / 16), hex_char(u % 16)]
    } else if u <= 0xFFFF {
        seq![
            '%',
            'u',
            hex_char(u / 4096),
            hex_char((u / 256) % 16),
            hex_char((u / 16) % 16),
            hex_char(u % 16),
        ]
    } else {
        seq!['%', 'u'] + hex_digits(u)
    }
}

/// The escape of a text: each character's escape, concatenated in order.
pub open spec fn escape_spec(s: Seq<char>) -> Seq<char>
    decreases s.len(),
{
    if s.len() == 0 {
        Seq::empty()
    } else {
        escape_char(s[0]) + escape_spec(s.subrange(1, s.len() as int))
    }
}

/// Appending a character appends its escape.
pub proof fn lemma_escape_push(s: Seq<char>, c: char)
    ensures
        escape_spec(s.push(c)) == escape_spec(s) + escape_char(c),
    decreases s.len(),
{
    let sp = s.push(c);
    if s.len() == 0 {
        assert(sp.subrange(1, sp.len() as int) =~= Seq::<char>::empty());
        assert(escape_spec(Seq::<char>::empty()) == Seq::<char>::empty());
        assert(escape_spec(s) == Seq::<char>::empty());
        assert(escape_spec(sp) == escape_char(c) + escape_spec(Seq::<char>::empty()));
        assert(escape_char(c) + Seq::<char>::empty() =~= Seq::<char>::empty() + escape_char(c));
    } else {
        let rest = s.subrange(1, s.len() as int);
        assert(sp.subrange(1, sp.len() as int) =~= rest.push(c));
        lemma_escape_push(rest, c);
        assert(sp[0] == s[0]);
        assert(escape_spec(sp) == escape_char(s[0]) + (escape_spec(rest) + escape_char(c)));
        assert(escape_spec(s) == escape_char(s[0]) + escape_spec(rest));
        assert(escape_char(s[0]) + (escape_spec(rest) + escape_char(c)) =~= (escape_char(s[0])
            + escape_spec(rest)) + escape_char(c));
    }
}

/// The uppercase hexadecimal digit character for `d`.
fn hex_char_of(d: u32) -> (c: char)
    requires
        d < 16,
    ensures
        c == hex_char(d as int),
{
    match d {
        0 => '0',
        1 => '1',
        2 => '2',
        3 => '3',
        4 => '4',
        5 => '5',
        6 => '6',
        7 => '7',
        8 => '8',
        9 => '9',
        10 => 'A',
        11 => 'B',
        12 => 'C',
        13 => 'D',
        14 => 'E',
        _ => 'F',
    }
}

/// Escapes a text for embedding: plain characters (ASCII alphanumerics and
/// `@*_+-./`) are copied; any other code point at or below 0xFF becomes
/// `%` plus two uppercase hex digits; anything above becomes `%u` plus its
/// uppercase hex digits, padded to at least four.
pub fn escape(input: &str) -> (r: String)
    ensures
        r@ == escape_spec(input@),
{
    let ghost s = input@;
    let len = input.unicode_len();
    let mut out: Vec<char> = Vec::new();
    let mut i: usize = 0;
    proof {
        assert(s.take(0) =~= Seq::<char>::empty());
        assert(escape_spec(s.take(0)) == Seq::<char>::empty());
        assert(out@ =~= escape_spec(s.take(0)));
    }
    while i < len
        invariant
            s == input@,
            len == s.len(),
            i <= len,
            out@ == escape_spec(s.take(i as int)),
        decreases len - i,
    {
        let c = input.get_char(i);
        let ghost before = out@;
        let u = c as u32;
        if (48 <= u && u <= 57) || (65 <= u && u <= 90) || (97 <= u && u <= 122) || u == 64 || u
            == 42 || u == 95 || u == 43 || u == 45 || u == 46 || u == 47 {
            out.push(c);
            proof {
                assert(out@ =~= before + escape_char(c));
            }
        } else if u <= 0xFF {
            out.push('%');
            out.push(hex_char_of(u / 16));
            out.push(hex_char_of(u % 16));
            proof {
                assert(out@ =~= before + escape_char(c));
            }
        } else if u <= 0xFFFF {
            out.push('%');
            out.push('u');
            out.push(hex_char_of(u / 4096));
            out.push(hex_char_of((u / 256) % 16));
            out.push(hex_char_of((u / 16) % 16));
            out.push(hex_char_of(u % 16));
            proof {
                assert(out@ =~= before + escape_char(c));
            }
        } else {
            out.push('%');
            out.push('u');
            let ghost base = out@;
            let mut tmp: Vec<char> = Vec::new();
            let mut n = u;
            proof {
                vstd::utf8::char_is_scalar(c);
            }
            while n > 0
                invariant
                    n <= 0x110000,
                    hex_digits(u as int) == hex_digits(n as int) + tmp@.reverse(),
                decreases n,
            {
                let ghost tmp0 = tmp@;
                let d = n % 16;
                tmp.push(hex_char_of(d));
                proof {
                    assert(hex_digits(n as int) == hex_digits(n as int / 16).push(
                        hex_char(n as int % 16),
                    ));
                    assert(tmp@.reverse() =~= seq![hex_char(d as int)] + tmp0.reverse());
                    assert(hex_digits(n as int / 16) + tmp@.reverse() =~= (hex_digits(
                        n as int / 16,
                    ).push(hex_char(n as int % 16))) + tmp0.reverse());
                }
                n = n / 16;
            }
            proof {
                assert(hex_digits(0) == Seq::<char>::empty());
                assert(hex_digits(u as int) =~= tmp@.reverse());
            }
            let ghost hd = hex_digits(u as int);
            let mut k: usize = tmp.len();
            proof {
                assert(tmp@.skip(k as int) =~= Seq::<char>::empty());
                assert(tmp@.skip(k as int).reverse() =~= Seq::<char>::empty());
                assert(out@ =~= base + tmp@.skip(k as int).reverse());
            }
            while k > 0
                invariant
                    hd == hex_digits(u as int),
                    hd == tmp@.reverse(),
                    k <= tmp@.len(),
                    out@ == base + tmp@.skip(k as int).reverse(),
                decreases k,
            {
                k = k - 1;
                out.push(tmp[k]);
                proof {
                    assert(tmp@.skip(k as int).reverse() =~= tmp@.skip(k as int + 1)
                        .reverse().push(tmp@[k as int]));
                    assert(out@ =~= base + tmp@.skip(k as int).reverse());
                }
            }
            proof {
                assert(tmp@.skip(0) =~= tmp@);
                assert(out@ =~= before + escape_char(c));
            }
        }
        proof {
            assert(s.take(i as int).push(c) =~= s.take(i as int + 1));
            lemma_escape_push(s.take(i as int), c);
        }
        i = i + 1;
    }
    proof {
        assert(s.take(len as int) =~= s);
    }
    chars_to_string(&out)
}
} // verus!
