//! The fixed 64-symbol alphabet (`A`-`Z`, `a`-`z`, `0`-`9`, `+`, `/` in
//! standard base64 order) and the little-endian base-64 value of a character
//! window.

use vstd::prelude::*;

verus! {

/// Whether `c` belongs to the 64-symbol alphabet.
pub open spec fn is_symbol(c: char) -> bool {
    let u = c as u32;
    (65 <= u && u <= 90)  // 'A'..='Z'
    || (97 <= u && u <= 122)  // 'a'..='z'
    || (48 <= u && u <= 57)  // '0'..='9'
    || u == 43  // '+'
    || u == 47  // '/'
}

/// The 6-bit value of an alphabet symbol; meaningful when `is_symbol(c)`.
pub open spec fn symbol_value(c: char) -> int {
    let u = c as u32;
    if 65 <= u && u <= 90 {
        u - 65
    } else if 97 <= u && u <= 122 {
        u - 97 + 26
    } else if 48 <= u && u <= 57 {
        u - 48 + 52
    } else if u == 43 {
        62
    } else {
        63
    }
}

/// Whether every character of the window belongs to the alphabet.
pub open spec fn window_ok(s: Seq<char>) -> bool {
    forall|i: int| 0 <= i < s.len() ==> is_symbol(#[trigger] s[i])
}

/// The value of a character window read as a little-endian base-64 integer:
/// the character at index 0 is least-significant.
pub open spec fn window_value(s: Seq<char>) -> int
    decreases s.len(),
{
    if s.len() == 0 {
        0
    } else {
        symbol_value(s[0]) + 64 * window_value(s.subrange(1, s.len() as int))
    }
}

/// 64 to the power `n`.
pub open spec fn pow64(n: nat) -> nat
    decreases n,
{
    if n == 0 {
        1
    } else {
        64 * pow64((n - 1) as nat)
    }
}

/// A symbol's value lies below 64.
pub proof fn lemma_symbol_value_bound(c: char)
    requires
        is_symbol(c),
    ensures
        0 <= symbol_value(c) < 64,
{
}

/// A window's value lies below 64 to the power of its length.
pub proof fn lemma_window_value_bound(s: Seq<char>)
    requires
        window_ok(s),
    ensures
        0 <= window_value(s) < pow64(s.len()),
    decreases s.len(),
{
    if s.len() == 0 {
    } else {
        let rest = s.subrange(1, s.len() as int);
        assert(window_ok(rest));
        lemma_window_value_bound(rest);
        lemma_symbol_value_bound(s[0]);
    }
}

/// Appending a symbol to a window adds its value at the next position.
pub proof fn lemma_window_value_push(s: Seq<char>, c: char)
    ensures
        window_value(s.push(c)) == window_value(s) + symbol_value(c) * pow64(s.len()),
    decreases s.len(),
{
    let sp = s.push(c);
    if s.len() == 0 {
        assert(sp.subrange(1, sp.len() as int) =~= Seq::<char>::empty());
        assert(window_value(sp) == symbol_value(c) + 64 * window_value(Seq::<char>::empty()));
        assert(window_value(Seq::<char>::empty()) == 0);
        assert(window_value(s) == 0);
        assert(pow64(s.len()) == 1);
    } else {
        let rest = s.subrange(1, s.len() as int);
        assert(sp.subrange(1, sp.len() as int) =~= rest.push(c));
        lemma_window_value_push(rest, c);
        assert(sp[0] == s[0]);
        assert(window_value(sp) == symbol_value(s[0]) + 64 * window_value(rest.push(c)));
        assert(window_value(sp) == symbol_value(s[0]) + 64 * (window_value(rest) + symbol_value(
            c,
        ) * pow64(rest.len())));
        assert(64 * (window_value(rest) + symbol_value(c) * pow64(rest.len())) == 64 * window_value(
            rest,
        ) + symbol_value(c) * (64 * pow64(rest.len()))) by (nonlinear_arith);
        assert(pow64(s.len()) == 64 * pow64(rest.len()));
        assert(window_value(s) == symbol_value(s[0]) + 64 * window_value(rest));
    }
}

/// The 6-bit value of an alphabet symbol, or `None` for any other character.
pub fn symbol_lookup(c: char) -> (r: Option<u8>)
    ensures
        r matches Some(v) ==> is_symbol(c) && v as int == symbol_value(c),
        r is None <==> !is_symbol(c),
{
    let u = c as u32;
    if 65 <= u && u <= 90 {
        Some((u - 65) as u8)
    } else if 97 <= u && u <= 122 {
        Some((u - 97 + 26) as u8)
    } else if 48 <= u && u <= 57 {
        Some((u - 48 + 52) as u8)
    } else if u == 43 {
        Some(62)
    } else if u == 47 {
        Some(63)
    } else {
        None
    }
}

} // verus!
