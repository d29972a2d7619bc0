use fumen::comment::Comment;
use fumen::enums::{BlockType, Rotation};
use fumen::error::ErrorKind;
use fumen::mino::Mino;
use fumen::mino_flags::MinoFlags;
use fumen::util::{escape, get_prefix_data, poll};

#[test]
fn poll_test() {
    let result = poll("abc").unwrap();
    assert_eq!(result, 26 + 27 * 64 + 28 * 4096);
}

#[test]
fn poll_test2() {
    let result = poll("//").unwrap();
    assert_eq!(result, 4095);
}

#[test]
fn version_test() {
    let data = get_prefix_data("v115@cfB8HeC8GeA8IeA8IeA8IeA8IeA8IeA8AeB8GeC8Ge?C8IeA8IeA8geAgHtfA8IeA8IeA8IeA8JeA8JeA8JeA8WeC8?neAAAofAAQeAAFeAALeAASeAAAeAAGeAAAeAAIeAA1eAAAt?fAAIeAA2fAAA7eB8BeA8EeA8AeA8AeC8CeA8AeB8AeC8BeA?8EeB8BeA8EeB8CeA8BeA8AeB8CeA8AeB8AeB8DeA8BeC8De?B8AeC8HeB8EeA8AeA8AeA8EeA8AeA8AeA8EeA8AeA8AeA8E?eA8AeA8GeA8AeA8HeB8AeA8FeD8LeAAA").unwrap();
    assert_eq!(data.0, 115);
}

#[test]
fn decode_comment_test() {
    let mut offset = 0usize;
    let result = Comment::decode("DABUYCA", &mut offset).unwrap();
    assert_eq!(result, "abc".to_owned());
}

#[test]
fn comment_japanese_test() {
    let mut offset = 0usize;
    let result = Comment::decode("SAlvs2A21DfETY9KBlvs2AYbAAA", &mut offset).unwrap();
    assert_eq!(result, "どうも".to_owned());
}

#[test]
fn poll_rejects_foreign_symbol() {
    assert_eq!(poll("a!c"), Err(ErrorKind::InvalidSymbol));
}

#[test]
fn poll_empty_window_is_zero() {
    assert_eq!(poll("").unwrap(), 0);
}

#[test]
fn header_without_at_is_malformed() {
    assert_eq!(get_prefix_data("abc"), Err(ErrorKind::MalformedHeader));
}

#[test]
fn header_with_short_prefix_is_malformed() {
    assert_eq!(get_prefix_data("15@AA"), Err(ErrorKind::MalformedHeader));
}

#[test]
fn header_with_letters_in_version_is_invalid() {
    assert_eq!(get_prefix_data("vvvv@AA"), Err(ErrorKind::InvalidVersion));
}

#[test]
fn header_splits_at_last_at_sign() {
    let (version, payload) = get_prefix_data("x@y123@vhAAgH").unwrap();
    assert_eq!(version, 123);
    assert_eq!(payload, "vhAAgH");
}

#[test]
fn flags_window_decodes_exactly() {
    let mut offset = 0usize;
    let flags = MinoFlags::decode("AgH", &mut offset).unwrap();
    assert_eq!(offset, 3);
    assert_eq!(flags.mino.kind, BlockType::Empty);
    assert_eq!(flags.mino.rotation, Rotation::South);
    assert_eq!(flags.mino.position, 0);
    assert!(!flags.raise);
    assert!(!flags.mirror);
    assert!(flags.color);
    assert!(!flags.comment);
    assert!(flags.lock);
}

#[test]
fn flags_window_needs_three_characters() {
    let mut offset = 0usize;
    assert_eq!(MinoFlags::decode("Ag", &mut offset), Err(ErrorKind::OffsetOverrun));
    assert_eq!(offset, 0);
}

#[test]
fn mino_new_keeps_its_parts() {
    let mino = Mino::new(BlockType::T, Rotation::East, 42);
    assert_eq!(mino.kind, BlockType::T);
    assert_eq!(mino.rotation, Rotation::East);
    assert_eq!(mino.position, 42);
}

#[test]
fn escape_copies_plain_text() {
    assert_eq!(escape("abc019@*_+-./XYZ"), "abc019@*_+-./XYZ");
}

#[test]
fn escape_encodes_latin1_as_two_hex_digits() {
    assert_eq!(escape("café"), "caf%E9");
    assert_eq!(escape(" "), "%20");
    assert_eq!(escape("%"), "%25");
}

#[test]
fn escape_encodes_wide_chars_with_u() {
    assert_eq!(escape("ど"), "%u3069");
    assert_eq!(escape("あA"), "%u3042A");
}

#[test]
fn unescape_decodes_both_escape_forms() {
    assert_eq!(Comment::unescape("%u3069%u3046%u3082"), "どうも");
    assert_eq!(Comment::unescape("a%20b"), "a b");
}

#[test]
fn unescape_drops_malformed_escapes() {
    assert_eq!(Comment::unescape("a%zzb"), "ab");
    assert_eq!(Comment::unescape("x%u12"), "x");
    assert_eq!(Comment::unescape("y%"), "y");
}

#[test]
fn escape_then_unescape_is_identity_below_0x100() {
    let samples = ["", "hello", "caf\u{e9} au lait!", "a=b&c:d", "\u{1}\u{7f}\u{ff}"];
    for s in samples {
        assert_eq!(Comment::unescape(&escape(s)), s);
    }
}
