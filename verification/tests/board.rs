use inbento::{Board, Push};

#[test]
fn board_test_push() {
    let board = Board::from_str("[123][456][789]").unwrap();
    let push = Push::from_str("(...)(..v)(..>)").unwrap();
    let expected = Board::from_str("[123][45.][786]").unwrap();
    let actual = board.apply_push(&push);
    assert_eq!(actual, expected);
}

#[test]
fn test_push_no_wrap_right() {
    let board = Board::from_str("[123][456][789]").unwrap();
    let push = Push::from_str("(...)(..>)(...)").unwrap();
    let actual = board.apply_push(&push);
    assert_eq!(actual, board);
}

#[test]
fn test_push_no_wrap_down() {
    let board = Board::from_str("[123][456][789]").unwrap();
    let push = Push::from_str("(...)(...)(.v.)").unwrap();
    let actual = board.apply_push(&push);
    assert_eq!(actual, board);
}
