use inbento::{solve, Board, CopyPaste, Piece, Push, Shape, Swap, Tool};

fn replay(start: &Board, trace: &Vec<(Board, Tool)>) -> Board {
    let mut board = *start;
    for (before, tool) in trace {
        assert_eq!(*before, board);
        board = match tool {
            Tool::Push(fig) => board.apply_push(fig),
            Tool::Lift(fig) => board.apply_lift(fig).0,
            Tool::Piece(fig) => board.apply_piece(fig),
            Tool::Copy(fig) => board.apply_copy(fig),
            Tool::Swap(fig) => board.apply_swap(fig),
        };
    }
    board
}

#[test]
fn solve_finds_the_four_move_solution() {
    let board = Board::from_str("[131][111][113]").unwrap();
    let goal = Board::from_str("[211][121][112]").unwrap();
    let tools = vec![
        Tool::Piece(Piece::from_str("(22)(.2)").unwrap()),
        Tool::Swap(Swap::from_str("(#.#)").unwrap()),
        Tool::Swap(Swap::from_str("(##)").unwrap()),
        Tool::Push(Push::from_str("(v<)").unwrap()),
    ];
    let trace = solve(&board, &goal, &tools).unwrap();
    assert!(!trace.is_empty());
    assert!(trace.len() <= tools.len());
    assert_eq!(replay(&board, &trace), goal);
}

#[test]
fn solve_returns_no_moves_when_the_board_is_the_goal() {
    let board = Board::from_str("[123][456][789]").unwrap();
    let tools = vec![Tool::Push(Push::from_str("(>)").unwrap())];
    let trace = solve(&board, &board, &tools).unwrap();
    assert!(trace.is_empty());
}

#[test]
fn solve_reports_an_unreachable_goal() {
    let board = Board::from_str("[123][456][789]").unwrap();
    let goal = Board::from_str("[999][999][999]").unwrap();
    let tools = vec![
        Tool::Swap(Swap::from_str("(##)").unwrap()),
        Tool::Push(Push::from_str("(>)").unwrap()),
    ];
    assert_eq!(solve(&board, &goal, &tools), Err(()));
}

#[test]
fn solve_without_tools_fails_unless_already_solved() {
    let board = Board::from_str("[123][456][789]").unwrap();
    let goal = Board::from_str("[213][456][789]").unwrap();
    assert_eq!(solve(&board, &goal, &[]), Err(()));
    assert_eq!(solve(&board, &board, &[]), Ok(vec![]));
}

#[test]
fn solve_uses_one_swap() {
    let board = Board::from_str("[123][456][789]").unwrap();
    let goal = Board::from_str("[213][456][789]").unwrap();
    let tools = vec![Tool::Swap(Swap::from_str("(##)").unwrap())];
    let trace = solve(&board, &goal, &tools).unwrap();
    assert_eq!(trace.len(), 1);
    assert_eq!(trace[0].0, board);
    assert_eq!(
        trace[0].1,
        Tool::Swap(Swap::from_str("(##.)(...)(...)").unwrap())
    );
}

#[test]
fn solve_prefers_the_shorter_way() {
    let board = Board::from_str("[12.][...][...]").unwrap();
    let goal = Board::from_str("[21.][...][...]").unwrap();
    let tools = vec![
        Tool::Push(Push::from_str("[>]").unwrap()),
        Tool::Push(Push::from_str("[<]").unwrap()),
        Tool::Swap(Swap::from_str("[##]").unwrap()),
    ];
    let trace = solve(&board, &goal, &tools).unwrap();
    assert_eq!(trace.len(), 1);
    assert_eq!(replay(&board, &trace), goal);
}

#[test]
fn solve_uses_the_patch_of_a_lift() {
    let board = Board::from_str("[1..][...][...]").unwrap();
    let goal = Board::from_str("[...][...][..1]").unwrap();
    let tools = vec![Tool::Lift(Shape::from_str("[#]").unwrap())];
    let trace = solve(&board, &goal, &tools).unwrap();
    assert_eq!(trace.len(), 2);
    assert_eq!(
        trace[0].1,
        Tool::Lift(Shape::from_str("[#..][...][...]").unwrap())
    );
    assert_eq!(trace[1].0, Board::from_str("[...][...][...]").unwrap());
    assert_eq!(
        trace[1].1,
        Tool::Piece(Piece::from_str("[...][...][..1]").unwrap())
    );
    assert_eq!(replay(&board, &trace), goal);
}

#[test]
fn solve_uses_a_copy() {
    let board = Board::from_str("[1..][...][...]").unwrap();
    let goal = Board::from_str("[111][...][...]").unwrap();
    let tools = vec![Tool::Copy(CopyPaste::from_str("[CVV]").unwrap())];
    let trace = solve(&board, &goal, &tools).unwrap();
    assert_eq!(trace.len(), 1);
    assert_eq!(replay(&board, &trace), goal);
}

#[test]
fn solve_compares_the_goal_with_its_flag() {
    let board = Board::from_str("[123][456][789]").unwrap();
    let goal = Board::from_str("(123)(456)(789)").unwrap();
    assert_eq!(solve(&board, &goal, &[]), Err(()));
}

#[test]
fn solve_returns_the_first_of_several_solutions() {
    let board = Board::from_str("[1..][...][...]").unwrap();
    let goal = Board::from_str("[11.][...][...]").unwrap();
    let copy = Tool::Copy(CopyPaste::from_str("[CV]").unwrap());
    let piece = Tool::Piece(Piece::from_str("[1]").unwrap());

    let trace = solve(&board, &goal, &[copy, piece]).unwrap();
    assert_eq!(
        trace,
        vec![(
            board,
            Tool::Copy(CopyPaste::from_str("[CV.][...][...]").unwrap())
        )]
    );

    let trace = solve(&board, &goal, &[piece, copy]).unwrap();
    assert_eq!(
        trace,
        vec![(
            board,
            Tool::Piece(Piece::from_str("[.1.][...][...]").unwrap())
        )]
    );
}

#[test]
fn solve_returns_the_first_way_to_lay_a_tool() {
    let board = Board::from_str("[...][...][...]").unwrap();
    let goal = Board::from_str("[...][...][...]").unwrap();
    let tools = [Tool::Piece(Piece::from_str("[1]").unwrap())];
    assert_eq!(solve(&board, &goal, &tools), Ok(vec![]));

    let board = Board::from_str("[12.][...][...]").unwrap();
    let goal = Board::from_str("[.12][...][...]").unwrap();
    let tools = [
        Tool::Push(Push::from_str("(>>)").unwrap()),
        Tool::Push(Push::from_str("(>>>)").unwrap()),
    ];
    let trace = solve(&board, &goal, &tools).unwrap();
    assert_eq!(
        trace,
        vec![(
            board,
            Tool::Push(Push::from_str("(>>.)(...)(...)").unwrap())
        )]
    );
}
