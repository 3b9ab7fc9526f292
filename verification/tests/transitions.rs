use inbento::board::{max_x, max_y, min_x, min_y};
use inbento::{Board, CopyPaste, Piece, Push, Shape, Swap};

#[test]
fn push_moves_all_digits_at_once() {
    let board = Board::from_str("[123][456][789]").unwrap();
    let push = Push::from_str("(>>.)(...)(...)").unwrap();
    let expected = Board::from_str("[.12][456][789]").unwrap();
    assert_eq!(board.apply_push(&push), expected);
}

#[test]
fn push_lets_the_later_digit_win() {
    let board = Board::from_str("[1.3][...][...]").unwrap();
    let push = Push::from_str("(>.<)(...)(...)").unwrap();
    let expected = Board::from_str("[.3.][...][...]").unwrap();
    assert_eq!(board.apply_push(&push), expected);
}

#[test]
fn push_into_a_slot_that_is_left_keeps_both() {
    let board = Board::from_str("[12.][...][...]").unwrap();
    let push = Push::from_str("(>v.)(...)(...)").unwrap();
    let expected = Board::from_str("[.1.][.2.][...]").unwrap();
    assert_eq!(board.apply_push(&push), expected);
}

#[test]
fn push_ignores_empty_slots() {
    let board = Board::from_str("[.2.][...][...]").unwrap();
    let push = Push::from_str("(>..)(...)(...)").unwrap();
    assert_eq!(board.apply_push(&push), board);
}

#[test]
fn push_never_wraps_left_or_up() {
    let board = Board::from_str("[123][456][789]").unwrap();
    let left = Push::from_str("(...)(<..)(...)").unwrap();
    assert_eq!(board.apply_push(&left), board);
    let up = Push::from_str("(.^.)(...)(...)").unwrap();
    assert_eq!(board.apply_push(&up), board);
}

#[test]
fn push_up_and_left_inside_the_frame() {
    let board = Board::from_str("[...][.5.][...]").unwrap();
    let up = Push::from_str("(...)(.^.)(...)").unwrap();
    assert_eq!(
        board.apply_push(&up),
        Board::from_str("[.5.][...][...]").unwrap()
    );
    let left = Push::from_str("(...)(.<.)(...)").unwrap();
    assert_eq!(
        board.apply_push(&left),
        Board::from_str("[...][5..][...]").unwrap()
    );
}

#[test]
fn piece_overwrites_only_where_it_has_digits() {
    let board = Board::from_str("[123][456][789]").unwrap();
    let piece = Piece::from_str("(0.0)(...)(.0.)").unwrap();
    let expected = Board::from_str("[020][456][709]").unwrap();
    assert_eq!(board.apply_piece(&piece), expected);
    let mut changed = board;
    changed.apply_piece_mut(&piece);
    assert_eq!(changed, expected);
}

#[test]
fn piece_fills_gaps() {
    let board = Board::from_str("[...][...][...]").unwrap();
    let piece = Piece::from_str("(...)(.7.)(...)").unwrap();
    assert_eq!(
        board.apply_piece(&piece),
        Board::from_str("[...][.7.][...]").unwrap()
    );
}

#[test]
fn lift_takes_digits_and_anchors_them() {
    let board = Board::from_str("[123][456][789]").unwrap();
    let lift = Shape::from_str("(...)(.##)(..#)").unwrap();
    let (rest, piece) = board.apply_lift(&lift);
    assert_eq!(rest, Board::from_str("[123][4..][78.]").unwrap());
    assert_eq!((piece.bounding_width(), piece.bounding_height()), (2, 2));
    assert!(piece.is_rotatable());
    assert_eq!(piece.cell(0, 0), Some(5));
    assert_eq!(piece.cell(1, 0), Some(6));
    assert_eq!(piece.cell(0, 1), None);
    assert_eq!(piece.cell(1, 1), Some(9));
    assert_eq!(piece, Piece::from_str("(56)(.9)").unwrap());
}

#[test]
fn lift_keeps_the_flag_of_the_mask() {
    let board = Board::from_str("[123][456][789]").unwrap();
    let lift = Shape::from_str("[#..][...][...]").unwrap();
    let (rest, piece) = board.apply_lift(&lift);
    assert_eq!(rest, Board::from_str("[.23][456][789]").unwrap());
    assert_eq!(piece, Piece::from_str("[1]").unwrap());
}

#[test]
fn lift_of_nothing_gives_an_empty_patch() {
    let board = Board::from_str("[1..][...][...]").unwrap();
    let lift = Shape::from_str("(...)(...)(..#)").unwrap();
    let (rest, piece) = board.apply_lift(&lift);
    assert_eq!(rest, board);
    assert_eq!((piece.bounding_width(), piece.bounding_height()), (0, 0));
    for y in 0..3 {
        for x in 0..3 {
            assert_eq!(piece.cell(x, y), None);
        }
    }
    assert_eq!(piece.all_transformations().len(), 16);
}

#[test]
fn lift_skips_gaps_under_the_mask() {
    let board = Board::from_str("[...][.5.][...]").unwrap();
    let lift = Shape::from_str("(###)(###)(###)").unwrap();
    let (rest, piece) = board.apply_lift(&lift);
    assert_eq!(rest, Board::from_str("[...][...][...]").unwrap());
    assert_eq!(piece, Piece::from_str("(5)").unwrap());
}

#[test]
fn copy_writes_the_digit_to_every_paste_mark() {
    let board = Board::from_str("[123][456][789]").unwrap();
    let copy = CopyPaste::from_str("(V.V)(.C.)(V.V)").unwrap();
    let expected = Board::from_str("[525][456][585]").unwrap();
    assert_eq!(board.apply_copy(&copy), expected);
}

#[test]
fn copy_of_a_gap_empties_the_paste_marks() {
    let board = Board::from_str("[.23][456][789]").unwrap();
    let copy = CopyPaste::from_str("(CVV)(...)(...)").unwrap();
    let expected = Board::from_str("[...][456][789]").unwrap();
    assert_eq!(board.apply_copy(&copy), expected);
}

#[test]
fn copy_without_paste_marks_changes_nothing() {
    let board = Board::from_str("[123][456][789]").unwrap();
    let copy = CopyPaste::from_str("(C..)(...)(...)").unwrap();
    assert_eq!(board.apply_copy(&copy), board);
}

#[test]
fn swap_exchanges_two_digits() {
    let board = Board::from_str("[123][456][789]").unwrap();
    let swap = Swap::from_str("(#..)(...)(..#)").unwrap();
    let expected = Board::from_str("[923][456][781]").unwrap();
    assert_eq!(board.apply_swap(&swap), expected);
}

#[test]
fn swap_exchanges_a_digit_and_a_gap() {
    let board = Board::from_str("[1..][...][...]").unwrap();
    let swap = Swap::from_str("(##.)(...)(...)").unwrap();
    let expected = Board::from_str("[.1.][...][...]").unwrap();
    assert_eq!(board.apply_swap(&swap), expected);
}

#[test]
fn transitions_keep_flag_and_rectangle_of_the_board() {
    let board = Board::from_str("(12)(34)").unwrap();
    let swap = Swap::from_str("(##.)(...)(...)").unwrap();
    let swapped = board.apply_swap(&swap);
    assert_eq!(swapped, Board::from_str("(21)(34)").unwrap());
    assert!(swapped.is_rotatable());
    assert_eq!((swapped.bounding_width(), swapped.bounding_height()), (2, 2));
}

#[test]
fn extents_of_a_layout() {
    let empty: [Option<u8>; 9] = [None; 9];
    assert_eq!(
        (min_x(&empty), min_y(&empty), max_x(&empty), max_y(&empty)),
        (0, 0, 0, 0)
    );
    let mut one = empty;
    one[5] = Some(7);
    assert_eq!(
        (min_x(&one), min_y(&one), max_x(&one), max_y(&one)),
        (3, 2, 3, 2)
    );
    let mut two = one;
    two[6] = Some(1);
    assert_eq!(
        (min_x(&two), min_y(&two), max_x(&two), max_y(&two)),
        (1, 2, 3, 3)
    );
}
