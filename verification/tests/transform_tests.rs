use fumen::enums::{BlockType, Rotation};
use fumen::field::Field;
use fumen::util::{
    check_valid_pos, clear_lines, get_mino_pos, mirror_field, place_mino, raise_field,
};

fn empty_field() -> Field {
    Field(vec![BlockType::Empty; 240])
}

#[test]
fn block_type_from_repr_covers_the_range() {
    assert_eq!(BlockType::from_repr(0), Some(BlockType::Empty));
    assert_eq!(BlockType::from_repr(8), Some(BlockType::Gray));
    assert_eq!(BlockType::from_repr(9), None);
    assert_eq!(Rotation::from_repr(2), Some(Rotation::North));
    assert_eq!(Rotation::from_repr(4), None);
}

#[test]
fn clear_lines_removes_a_full_row() {
    let mut f = empty_field();
    for x in 0..10 {
        f.0[x + 5 * 10] = BlockType::Gray;
    }
    f.0[3 + 4 * 10] = BlockType::T;
    clear_lines(&mut f);
    assert_eq!(f.0[3 + 5 * 10], BlockType::T);
    assert_eq!(f.0[3 + 4 * 10], BlockType::Empty);
    for x in 0..10 {
        assert_eq!(f.0[x], BlockType::Empty);
    }
}

#[test]
fn clear_lines_keeps_partial_rows() {
    let mut f = empty_field();
    f.0[0] = BlockType::I;
    clear_lines(&mut f);
    assert_eq!(f.0[0], BlockType::I);
}

#[test]
fn raise_field_shifts_rows_down() {
    let mut f = empty_field();
    f.0[7] = BlockType::S;
    f.0[2 + 23 * 10] = BlockType::Z;
    raise_field(&mut f);
    assert_eq!(f.0[7 + 10], BlockType::S);
    assert_eq!(f.0[2 + 23 * 10], BlockType::Empty);
    for x in 0..10 {
        assert_eq!(f.0[x], BlockType::Empty);
    }
}

#[test]
fn mirror_field_reverses_each_row() {
    let mut f = empty_field();
    f.0[3 * 10] = BlockType::L;
    f.0[4 + 6 * 10] = BlockType::J;
    mirror_field(&mut f);
    assert_eq!(f.0[9 + 3 * 10], BlockType::L);
    assert_eq!(f.0[3 * 10], BlockType::Empty);
    assert_eq!(f.0[5 + 6 * 10], BlockType::J);
}

#[test]
fn get_mino_pos_lists_the_piece_cells() {
    let cells = get_mino_pos(&BlockType::I, 4, 2);
    assert_eq!(cells, vec![(4, 2), (3, 2), (5, 2), (6, 2)]);
    assert!(get_mino_pos(&BlockType::Empty, 4, 2).is_empty());
}

#[test]
fn place_mino_stamps_where_valid() {
    let mut f = empty_field();
    assert!(check_valid_pos(&f, &BlockType::O, 4, 2));
    place_mino(&mut f, &BlockType::O, 4, 2);
    assert_eq!(f.0[4 + 2 * 10], BlockType::O);
    assert_eq!(f.0[5 + 2 * 10], BlockType::O);
    assert_eq!(f.0[4 + 3 * 10], BlockType::O);
    assert_eq!(f.0[5 + 3 * 10], BlockType::O);
    assert!(!check_valid_pos(&f, &BlockType::T, 4, 2));
}

#[test]
fn check_valid_pos_rejects_out_of_bounds_and_empty() {
    let f = empty_field();
    assert!(!check_valid_pos(&f, &BlockType::I, 0, 0));
    assert!(!check_valid_pos(&f, &BlockType::Empty, 4, 2));
}
