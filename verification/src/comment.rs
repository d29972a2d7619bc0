//! The comment codec: a length-prefixed, base-96-packed text blob, followed
//! by percent-escape resolution.

use vstd::prelude::*;
use vstd::string::StrSliceExecFns;

use crate::alphabet::{lemma_window_value_bound, window_ok, window_value};
use crate::error::ErrorKind;
use crate::util::{char_from_u32, chars_to_string, lemma_pow64_values, poll_at};

verus! {

/// Whether `c` is a hexadecimal digit (either case).
pub open spec fn is_hex_digit(c: char) -> bool {
    let u = c as u32;
    (48 <= u && u <= 57) || (97 <= u && u <= 102) || (65 <= u && u <= 70)
}

/// The value of a hexadecimal digit; meaningful when `is_hex_digit(c)`.
pub open spec fn hex_digit_value(c: char) -> int {
    let u = c as u32;
    if 48 <= u && u <= 57 {
        u - 48
    } else if 97 <= u && u <= 102 {
        u - 97 + 10
    } else {
        u - 65 + 10
    }
}

/// The value of four hexadecimal digits, most significant first.
pub open spec fn hex4_value(h: Seq<char>) -> int {
    4096 * hex_digit_value(h[0]) + 256 * hex_digit_value(h[1]) + 16 * hex_digit_value(h[2])
        + hex_digit_value(h[3])
}

/// The value of two hexadecimal digits, most significant first.
pub open spec fn hex2_value(h: Seq<char>) -> int {
    16 * hex_digit_value(h[0]) + hex_digit_value(h[1])
}

/// Escape resolution, scanned left to right: `%u` plus four hex digits
/// yields the code point they spell, `%` plus two hex digits yields that
/// byte's character, and any other character is copied verbatim. A malformed
/// or truncated escape emits nothing: its characters are consumed and
/// dropped.
pub open spec fn unescape_spec(s: Seq<char>) -> Seq<char>
    decreases s.len(),
{
    if s.len() == 0 {
        Seq::empty()
    } else if s[0] != '%' {
        seq![s[0]] + unescape_spec(s.subrange(1, s.len() as int))
    } else if s.len() >= 2 && s[1] == 'u' {
        if s.len() < 6 {
            Seq::empty()
        } else {
            let h = s.subrange(2, 6);
            let rest = unescape_spec(s.subrange(6, s.len() as int));
            if is_hex_digit(h[0]) && is_hex_digit(h[1]) && is_hex_digit(h[2]) && is_hex_digit(
                h[3],
            ) {
                let n = hex4_value(h);
                if n < 0xD800 || n >= 0xE000 {
                    seq![((n as u32) as char)] + rest
                } else {
                    rest
                }
            } else {
                rest
            }
        }
    } else {
        if s.len() < 3 {
            Seq::empty()
        } else {
            let h = s.subrange(1, 3);
            let rest = unescape_spec(s.subrange(3, s.len() as int));
            if is_hex_digit(h[0]) && is_hex_digit(h[1]) {
                seq![((hex2_value(h) as u32) as char)] + rest
            } else {
                rest
            }
        }
    }
}

/// The digit of the packed group value `v` at power `i` of 96, after the
/// higher powers have been removed.
pub open spec fn group_digit(v: int, i: int) -> int {
    if i == 3 {
        v / 884736
    } else if i == 2 {
        (v % 884736) / 9216
    } else if i == 1 {
        (v % 9216) / 96
    } else {
        v % 96
    }
}

/// The character that a nonzero packed digit spells.
pub open spec fn digit_char(d: int) -> char {
    ((d + 32) as u32) as char
}

/// The characters one packed group contributes: each nonzero digit, from
/// the lowest power of 96 upwards, shifted up by 32. A zero digit is a
/// padding marker and contributes nothing.
pub open spec fn group_chars(v: int) -> Seq<char> {
    (if group_digit(v, 0) != 0 {
        seq![digit_char(group_digit(v, 0))]
    } else {
        Seq::empty()
    }) + (if group_digit(v, 1) != 0 {
        seq![digit_char(group_digit(v, 1))]
    } else {
        Seq::empty()
    }) + (if group_digit(v, 2) != 0 {
        seq![digit_char(group_digit(v, 2))]
    } else {
        Seq::empty()
    }) + (if group_digit(v, 3) != 0 {
        seq![digit_char(group_digit(v, 3))]
    } else {
        Seq::empty()
    })
}

/// The outcome of a text decode: the text and the cursor after it, or the
/// failure and the cursor where it arose.
pub ghost enum TextStep {
    Done { text: Seq<char>, off: int },
    Fail { kind: ErrorKind, off: int },
}

/// The group loop: while fewer than `remaining` characters are accounted
/// for, one 5-character window is read and contributes its group, counting
/// four characters whether or not padding digits were skipped.
#[verifier::opaque]
pub open spec fn spec_groups(data: Seq<char>, off: int, remaining: int, acc: Seq<char>) -> TextStep
    decreases (remaining + 3) / 4,
{
    if remaining <= 0 {
        TextStep::Done { text: acc, off }
    } else if off + 5 > data.len() {
        TextStep::Fail { kind: ErrorKind::OffsetOverrun, off }
    } else if !window_ok(data.subrange(off, off + 5)) {
        TextStep::Fail { kind: ErrorKind::InvalidSymbol, off }
    } else {
        spec_groups(
            data,
            off + 5,
            remaining - 4,
            acc + group_chars(window_value(data.subrange(off, off + 5))),
        )
    }
}

/// One comment decode at `off`: a 2-character length prefix, the packed
/// groups, then escape resolution on the packed text.
pub open spec fn spec_comment_decode(data: Seq<char>, off: int) -> TextStep {
    if off + 2 > data.len() {
        TextStep::Fail { kind: ErrorKind::OffsetOverrun, off }
    } else if !window_ok(data.subrange(off, off + 2)) {
        TextStep::Fail { kind: ErrorKind::InvalidSymbol, off }
    } else {
        match spec_groups(
            data,
            off + 2,
            window_value(data.subrange(off, off + 2)),
            Seq::empty(),
        ) {
            TextStep::Done { text, off: off2 } => TextStep::Done {
                text: unescape_spec(text),
                off: off2,
            },
            TextStep::Fail { kind, off: off2 } => TextStep::Fail { kind, off: off2 },
        }
    }
}

/// The value of a hexadecimal digit character, or `None` for any other
/// character.
fn hex_lookup(c: char) -> (r: Option<u32>)
    ensures
        r matches Some(v) ==> is_hex_digit(c) && v as int == hex_digit_value(c),
        r is None <==> !is_hex_digit(c),
{
    let u = c as u32;
    if 48 <= u && u <= 57 {
        Some(u - 48)
    } else if 97 <= u && u <= 102 {
        Some(u - 97 + 10)
    } else if 65 <= u && u <= 70 {
        Some(u - 65 + 10)
    } else {
        None
    }
}

/// Appends the characters of one packed group to `packed`.
fn push_group(packed: &mut Vec<char>, value: usize)
    requires
        value < 1073741824,
    ensures
        final(packed)@ == old(packed)@ + group_chars(value as int),
{
    let ghost v0 = value as int;
    let ghost acc0 = packed@;
    let mut v = value;
    let d3 = v / 884736;
    v = v % 884736;
    let d2 = v / 9216;
    v = v % 9216;
    let d1 = v / 96;
    let d0 = v % 96;
    proof {
        vstd::arithmetic::div_mod::lemma_mod_mod(v0, 9216, 96);
        vstd::arithmetic::div_mod::lemma_mod_mod(v0, 96, 96);
        assert(9216 * 96 == 884736);
        assert(96 * 96 == 9216);
        assert(v as int == v0 % 9216);
        assert(d3 == group_digit(v0, 3) && d2 == group_digit(v0, 2) && d1 == group_digit(v0, 1)
            && d0 == group_digit(v0, 0));
    }
    if d0 != 0 {
        let c = char_from_u32((d0 + 32) as u32).unwrap();
        proof {
            vstd::utf8::char_u32_cast(c, (d0 + 32) as u32);
        }
        packed.push(c);
    }
    if d1 != 0 {
        let c = char_from_u32((d1 + 32) as u32).unwrap();
        proof {
            vstd::utf8::char_u32_cast(c, (d1 + 32) as u32);
        }
        packed.push(c);
    }
    if d2 != 0 {
        let c = char_from_u32((d2 + 32) as u32).unwrap();
        proof {
            vstd::utf8::char_u32_cast(c, (d2 + 32) as u32);
        }
        packed.push(c);
    }
    if d3 != 0 {
        let c = char_from_u32((d3 + 32) as u32).unwrap();
        proof {
            vstd::utf8::char_u32_cast(c, (d3 + 32) as u32);
        }
        packed.push(c);
    }
    proof {
        assert(packed@ =~= acc0 + group_chars(v0));
    }
}

/// One unfolding of the group loop when a full window is available.
proof fn lemma_groups_step(data: Seq<char>, off: int, remaining: int, acc: Seq<char>)
    requires
        remaining > 0,
        off + 5 <= data.len(),
        window_ok(data.subrange(off, off + 5)),
    ensures
        spec_groups(data, off, remaining, acc) == spec_groups(
            data,
            off + 5,
            remaining - 4,
            acc + group_chars(window_value(data.subrange(off, off + 5))),
        ),
{
    reveal(spec_groups);
}

/// When `remaining` is exhausted the group loop yields its accumulator.
proof fn lemma_groups_done(data: Seq<char>, off: int, remaining: int, acc: Seq<char>)
    requires
        remaining <= 0,
    ensures
        spec_groups(data, off, remaining, acc) == (TextStep::Done { text: acc, off }),
{
    reveal(spec_groups);
}

/// The group loop fails where fewer than five characters remain.
proof fn lemma_groups_fail_overrun(data: Seq<char>, off: int, remaining: int, acc: Seq<char>)
    requires
        remaining > 0,
        off + 5 > data.len(),
    ensures
        spec_groups(data, off, remaining, acc) == (TextStep::Fail {
            kind: ErrorKind::OffsetOverrun,
            off,
        }),
{
    reveal(spec_groups);
}

/// The group loop fails where its window holds a character outside the
/// alphabet.
proof fn lemma_groups_fail_symbol(data: Seq<char>, off: int, remaining: int, acc: Seq<char>)
    requires
        remaining > 0,
        off + 5 <= data.len(),
        !window_ok(data.subrange(off, off + 5)),
    ensures
        spec_groups(data, off, remaining, acc) == (TextStep::Fail {
            kind: ErrorKind::InvalidSymbol,
            off,
        }),
{
    reveal(spec_groups);
}

/// The comment codec.
pub struct Comment;

impl Comment {
    /// Resolves percent-escapes in `input`: `%u` plus four hex digits
    /// becomes one code point, `%` plus two hex digits one byte character;
    /// everything else is copied. Malformed escapes are dropped silently.
    pub fn unescape(input: &str) -> (r: String)
        ensures
            r@ == unescape_spec(input@),
    {
        let ghost s = input@;
        let len = input.unicode_len();
        let mut out: Vec<char> = Vec::new();
        let mut i: usize = 0;
        proof {
            assert(s.skip(0) =~= s);
            assert(out@ + unescape_spec(s.skip(0)) =~= unescape_spec(s));
        }
        while i < len
            invariant
                s == input@,
                len == s.len(),
                i <= len,
                unescape_spec(s) == out@ + unescape_spec(s.skip(i as int)),
            decreases len - i,
        {
            let ghost tail = s.skip(i as int);
            assert(tail.len() == len - i);
            assert(tail[0] == s[i as int]);
            let c = input.get_char(i);
            if c != '%' {
                proof {
                    assert(tail.subrange(1, tail.len() as int) =~= s.skip(i as int + 1));
                    assert(unescape_spec(tail) == seq![c] + unescape_spec(s.skip(i as int + 1)));
                    assert(out@ + unescape_spec(tail) =~= out@.push(c) + unescape_spec(
                        s.skip(i as int + 1),
                    ));
                }
                out.push(c);
                i = i + 1;
            } else if i + 1 < len && input.get_char(i + 1) == 'u' {
                assert(tail[1] == 'u');
                if len - i < 6 {
                    proof {
                        assert(unescape_spec(tail) =~= Seq::<char>::empty());
                        assert(s.skip(len as int) =~= Seq::<char>::empty());
                        assert(out@ + unescape_spec(tail) =~= out@ + unescape_spec(
                            s.skip(len as int),
                        ));
                    }
                    i = len;
                } else {
                    let ghost h = tail.subrange(2, 6);
                    proof {
                        assert(h =~= s.subrange(i + 2, i + 6));
                        assert(tail.subrange(6, tail.len() as int) =~= s.skip(i as int + 6));
                        assert(h[0] == s[i + 2] && h[1] == s[i + 3] && h[2] == s[i + 4] && h[3]
                            == s[i + 5]);
                    }
                    let h0 = hex_lookup(input.get_char(i + 2));
                    let h1 = hex_lookup(input.get_char(i + 3));
                    let h2 = hex_lookup(input.get_char(i + 4));
                    let h3 = hex_lookup(input.get_char(i + 5));
                    match (h0, h1, h2, h3) {
                        (Some(v0), Some(v1), Some(v2), Some(v3)) => {
                            let n: u32 = 4096 * v0 + 256 * v1 + 16 * v2 + v3;
                            assert(n as int == hex4_value(h));
                            if n < 0xD800 {
                                let decoded = char_from_u32(n).unwrap();
                                proof {
                                    vstd::utf8::char_u32_cast(decoded, n);
                                    assert(unescape_spec(tail) == seq![decoded] + unescape_spec(
                                        s.skip(i as int + 6),
                                    ));
                                    assert(out@ + unescape_spec(tail) =~= out@.push(decoded)
                                        + unescape_spec(s.skip(i as int + 6)));
                                }
                                out.push(decoded);
                            } else if n >= 0xE000 {
                                let decoded = char_from_u32(n).unwrap();
                                proof {
                                    vstd::utf8::char_u32_cast(decoded, n);
                                    assert(unescape_spec(tail) == seq![decoded] + unescape_spec(
                                        s.skip(i as int + 6),
                                    ));
                                    assert(out@ + unescape_spec(tail) =~= out@.push(decoded)
                                        + unescape_spec(s.skip(i as int + 6)));
                                }
                                out.push(decoded);
                            } else {
                                assert(unescape_spec(tail) == unescape_spec(s.skip(i as int + 6)));
                            }
                        },
                        _ => {
                            assert(unescape_spec(tail) == unescape_spec(s.skip(i as int + 6)));
                        },
                    }
                    i = i + 6;
                }
            } else {
                assert(tail.len() >= 2 ==> tail[1] != 'u');
                if len - i < 3 {
                    proof {
                        assert(unescape_spec(tail) =~= Seq::<char>::empty());
                        assert(s.skip(len as int) =~= Seq::<char>::empty());
                    }
                    i = len;
                } else {
                    let ghost h = tail.subrange(1, 3);
                    proof {
                        assert(h =~= s.subrange(i + 1, i + 3));
                        assert(tail.subrange(3, tail.len() as int) =~= s.skip(i as int + 3));
                        assert(h[0] == s[i + 1] && h[1] == s[i + 2]);
                    }
                    let h0 = hex_lookup(input.get_char(i + 1));
                    let h1 = hex_lookup(input.get_char(i + 2));
                    match (h0, h1) {
                        (Some(v0), Some(v1)) => {
                            let n: u32 = 16 * v0 + v1;
                            assert(n as int == hex2_value(h));
                            let decoded = char_from_u32(n).unwrap();
                            proof {
                                vstd::utf8::char_u32_cast(decoded, n);
                                assert(unescape_spec(tail) == seq![decoded] + unescape_spec(
                                    s.skip(i as int + 3),
                                ));
                                assert(out@ + unescape_spec(tail) =~= out@.push(decoded)
                                    + unescape_spec(s.skip(i as int + 3)));
                            }
                            out.push(decoded);
                        },
                        _ => {
                            assert(unescape_spec(tail) == unescape_spec(s.skip(i as int + 3)));
                        },
                    }
                    i = i + 3;
                }
            }
        }
        proof {
            assert(s.skip(len as int) =~= Seq::<char>::empty());
            assert(out@ + unescape_spec(s.skip(len as int)) =~= out@);
        }
        chars_to_string(&out)
    }

    /// Decodes one comment at `*offset`: the 2-character length prefix, the
    /// packed groups it calls for, then escape resolution. The cursor
    /// advances past what was consumed; on failure it stands where the
    /// failure arose.
    #[verifier::rlimit(50)]
    pub fn decode(data: &str, offset: &mut usize) -> (r: Result<String, ErrorKind>)
        ensures
            ({
                let step = spec_comment_decode(data@, *old(offset) as int);
                match r {
                    Ok(c) => step matches TextStep::Done { text, off } && c@ == text
                        && *final(offset) == off,
                    Err(k) => step matches TextStep::Fail { kind, off } && k == kind
                        && *final(offset) == off,
                }
            }),
    {
        let ghost s = data@;
        let ghost off0 = *offset as int;
        let len = data.unicode_len();
        if *offset > len || len - *offset < 2 {
            return Err(ErrorKind::OffsetOverrun);
        }
        let comment_count = match poll_at(data, *offset, 2) {
            Ok(v) => v,
            Err(k) => {
                return Err(k);
            },
        };
        proof {
            lemma_window_value_bound(s.subrange(off0, off0 + 2));
            lemma_pow64_values();
            assert(comment_count < 4096);
        }
        *offset = *offset + 2;

        let ghost target = spec_groups(s, off0 + 2, comment_count as int, Seq::empty());
        let mut packed: Vec<char> = Vec::new();
        let mut comment_converted: usize = 0;
        proof {
            assert(packed@ =~= Seq::<char>::empty());
        }
        while comment_converted < comment_count
            invariant
                s == data@,
                len == s.len(),
                comment_count < 4096,
                comment_converted <= comment_count + 3,
                off0 == *old(offset) as int,
                off0 + 2 <= len,
                window_ok(s.subrange(off0, off0 + 2)),
                comment_count as int == window_value(s.subrange(off0, off0 + 2)),
                target == spec_groups(s, off0 + 2, comment_count as int, Seq::empty()),
                target == spec_groups(
                    s,
                    *offset as int,
                    comment_count - comment_converted,
                    packed@,
                ),
            decreases comment_count + 4 - comment_converted,
        {
            let ghost off_i = *offset as int;
            let ghost acc_i = packed@;
            if *offset > len || len - *offset < 5 {
                proof {
                    lemma_groups_fail_overrun(s, off_i, comment_count - comment_converted, acc_i);
                }
                return Err(ErrorKind::OffsetOverrun);
            }
            let value = match poll_at(data, *offset, 5) {
                Ok(v) => v,
                Err(k) => {
                    proof {
                        lemma_groups_fail_symbol(
                            s,
                            off_i,
                            comment_count - comment_converted,
                            acc_i,
                        );
                    }
                    return Err(k);
                },
            };
            let ghost v0 = value as int;
            proof {
                lemma_window_value_bound(s.subrange(off_i, off_i + 5));
                lemma_pow64_values();
                assert(v0 < 1073741824);
            }
            push_group(&mut packed, value);
            proof {
                lemma_groups_step(s, off_i, comment_count - comment_converted, acc_i);
                assert(acc_i + group_chars(v0) == packed@);
            }
            *offset = *offset + 5;
            comment_converted = comment_converted + 4;
        }
        proof {
            lemma_groups_done(s, *offset as int, comment_count - comment_converted, packed@);
            assert(target == (TextStep::Done { text: packed@, off: *offset as int }));
        }
        let packed_str = chars_to_string(&packed);
        let resolved = Comment::unescape(packed_str.as_str());
        Ok(resolved)
    }
}

} // verus!
