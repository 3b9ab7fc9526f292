use inbento::figure::try_into_array;
use inbento::solver::{code_of, same_tools, swap_remove_each};
use inbento::{Board, CopyPaste, CopyPasteCell, Direction, InbentoCell, Mark, Piece, Push, Shape, Swap, Tool};

#[test]
fn four_quarter_turns_give_the_pattern_back() {
    for text in ["(123)(4..)", "(1)", "(12)(34)(56)", "(...)(.5.)", "()"] {
        let piece = Piece::from_str(text).unwrap();
        assert_eq!(piece.rotate().rotate().rotate().rotate(), piece);
    }
    let push = Push::from_str("(>v)(<.)(>.)").unwrap();
    assert_eq!(push.rotate().rotate().rotate().rotate(), push);
}

#[test]
fn quarter_turn_of_a_wide_pattern() {
    let piece = Piece::from_str("(123)(4..)").unwrap();
    assert_eq!(piece.rotate(), Piece::from_str("(41)(.2)(.3)").unwrap());
}

#[test]
fn rotations_of_a_pattern_without_symmetry() {
    let push = Push::from_str("(>v)(<.)(>.)").unwrap();
    assert_eq!(
        push.all_rotations(),
        vec![
            Push::from_str("(>v)(<.)(>.)").unwrap(),
            Push::from_str("(.<)(.>)(^<)").unwrap(),
            Push::from_str("(v^v)(..<)").unwrap(),
            Push::from_str("(>..)(^v^)").unwrap(),
        ]
    );
}

#[test]
fn rotations_ignore_the_flag() {
    let fixed = Shape::from_str("[##]").unwrap();
    assert_eq!(
        fixed.all_rotations(),
        vec![
            Shape::from_str("[##]").unwrap(),
            Shape::from_str("[#][#]").unwrap(),
        ]
    );
}

#[test]
fn number_of_rotations_by_symmetry() {
    assert_eq!(Shape::from_str("(#)").unwrap().all_rotations().len(), 1);
    assert_eq!(Shape::from_str("(#.#)").unwrap().all_rotations().len(), 2);
    assert_eq!(Shape::from_str("(##)(#.)").unwrap().all_rotations().len(), 4);
    assert_eq!(Push::from_str("(>)").unwrap().all_rotations().len(), 4);
    assert_eq!(Piece::from_str("(12)").unwrap().all_rotations().len(), 4);
    assert_eq!(Piece::from_str("(11)").unwrap().all_rotations().len(), 2);
}

#[test]
fn shift_moves_and_drops() {
    let piece = Piece::from_str("(56)").unwrap();
    assert_eq!(
        piece.shift(1, 2),
        Piece::from_str("(...)(...)(.56)").unwrap()
    );
    assert_eq!(
        piece.shift(2, 0),
        Piece::from_str("(..5)(...)(...)").unwrap()
    );
    assert_eq!(
        piece.shift(-1, 0),
        Piece::from_str("(6..)(...)(...)").unwrap()
    );
    assert_eq!(
        piece.shift(0, -1),
        Piece::from_str("(...)(...)(...)").unwrap()
    );
    assert_eq!(
        piece.shift(isize::MAX, isize::MIN),
        Piece::from_str("(...)(...)(...)").unwrap()
    );
    assert_eq!(
        piece.shift(0, 3),
        Piece::from_str("(...)(...)(...)").unwrap()
    );
}

#[test]
fn translations_of_a_block() {
    let piece = Piece::from_str("(12)(34)").unwrap();
    assert_eq!(
        piece.all_translations(),
        vec![
            Piece::from_str("(12.)(34.)(...)").unwrap(),
            Piece::from_str("(...)(12.)(34.)").unwrap(),
            Piece::from_str("(.12)(.34)(...)").unwrap(),
            Piece::from_str("(...)(.12)(.34)").unwrap(),
        ]
    );
}

#[test]
fn translations_of_a_full_pattern() {
    let board = Board::from_str("[123][456][789]").unwrap();
    assert_eq!(board.all_translations(), vec![board]);
    assert_eq!(board.all_transformations(), vec![board]);
}

#[test]
fn transformations_of_a_fixed_pattern_are_its_translations() {
    let shape = Shape::from_str("[#.#]").unwrap();
    assert_eq!(shape.all_transformations(), shape.all_translations());
    assert_eq!(shape.all_transformations().len(), 3);
}

#[test]
fn transformations_of_a_pattern_without_symmetry() {
    let piece = Piece::from_str("(123)(4.6)").unwrap();
    assert_eq!(
        piece.all_transformations(),
        vec![
            Piece::from_str("(123)(4.6)(...)").unwrap(),
            Piece::from_str("(...)(123)(4.6)").unwrap(),
            Piece::from_str("(6.4)(321)(...)").unwrap(),
            Piece::from_str("(...)(6.4)(321)").unwrap(),
            Piece::from_str("(41.)(.2.)(63.)").unwrap(),
            Piece::from_str("(.41)(..2)(.63)").unwrap(),
            Piece::from_str("(36.)(2..)(14.)").unwrap(),
            Piece::from_str("(.36)(.2.)(.14)").unwrap(),
        ]
    );
}

#[test]
fn transformations_of_masks_keep_their_marks() {
    let swap = Swap::from_str("(#.#)").unwrap();
    assert_eq!(
        swap.all_transformations(),
        vec![
            Swap::from_str("(#.#)(...)(...)").unwrap(),
            Swap::from_str("(...)(#.#)(...)").unwrap(),
            Swap::from_str("(...)(...)(#.#)").unwrap(),
            Swap::from_str("(#..)(...)(#..)").unwrap(),
            Swap::from_str("(.#.)(...)(.#.)").unwrap(),
            Swap::from_str("(..#)(...)(..#)").unwrap(),
        ]
    );
    let copy = CopyPaste::from_str("[CV]").unwrap();
    assert_eq!(copy.all_transformations().len(), 6);
    for laid in copy.all_transformations() {
        assert_eq!(CopyPaste::from_str(&laid.render()), Ok(laid));
    }
    let turning = CopyPaste::from_str("(CV)").unwrap();
    assert_eq!(turning.all_transformations().len(), 24);
}

#[test]
fn tools_transform_within_their_kind() {
    let push = Push::from_str("(v<)").unwrap();
    let laid = Tool::Push(push).all_transformations();
    assert_eq!(laid.len(), 24);
    let figures = push.all_transformations();
    for (tool, figure) in laid.iter().zip(figures) {
        assert_eq!(*tool, Tool::Push(figure));
    }
    let lift = Shape::from_str("[##]").unwrap();
    assert_eq!(
        Tool::Lift(lift).all_transformations(),
        lift.all_translations()
            .into_iter()
            .map(Tool::Lift)
            .collect::<Vec<_>>()
    );
    let piece = Piece::from_str("[1]").unwrap();
    assert_eq!(Tool::Piece(piece).all_transformations().len(), 9);
    let copy = CopyPaste::from_str("[CV.]").unwrap();
    assert_eq!(Tool::Copy(copy).all_transformations().len(), 3);
    let swap = Swap::from_str("(##)").unwrap();
    assert_eq!(Tool::Swap(swap).all_transformations().len(), 12);
}

#[test]
fn tools_are_written_with_their_kind() {
    assert_eq!(
        Tool::Push(Push::from_str("(v<)").unwrap()).render(),
        "Push((v<))"
    );
    assert_eq!(
        Tool::Piece(Piece::from_str("(22)(.2)").unwrap()).render(),
        "Piece(\n(22)\n(.2)\n)"
    );
    assert_eq!(
        Tool::Lift(Shape::from_str("[#]").unwrap()).render(),
        "Lift([#])"
    );
    assert_eq!(
        Tool::Copy(CopyPaste::from_str("[CV]").unwrap()).render(),
        "Copy([CV])"
    );
    assert_eq!(
        Tool::Swap(Swap::from_str("[##]").unwrap()).render(),
        "Swap([##])"
    );
}

#[test]
fn payloads_turn_and_print() {
    assert_eq!(Direction::Up.rotate(), Direction::Right);
    assert_eq!(Direction::Right.rotate(), Direction::Down);
    assert_eq!(Direction::Down.rotate(), Direction::Left);
    assert_eq!(Direction::Left.rotate(), Direction::Up);
    assert_eq!(Direction::Up.to_char(), '^');
    assert_eq!(Direction::Right.to_char(), '>');
    assert_eq!(Direction::Down.to_char(), 'v');
    assert_eq!(Direction::Left.to_char(), '<');
    assert_eq!(Direction::parse('<'), Ok(Direction::Left));
    assert_eq!(Direction::parse('x'), Err(()));
    assert_eq!(7u8.rotate(), 7);
    assert_eq!(0u8.to_char(), '0');
    assert_eq!(9u8.to_char(), '9');
    assert_eq!(u8::parse('4'), Ok(4));
    assert_eq!(u8::parse('/'), Err(()));
    assert_eq!(u8::parse(':'), Err(()));
    assert_eq!(u8::parse('\u{0664}'), Err(()));
    assert_eq!(Mark.to_char(), '#');
    assert_eq!(Mark::parse('#'), Ok(Mark));
    assert_eq!(Mark::parse('.'), Err(()));
    assert_eq!(Mark.rotate(), Mark);
    assert_eq!(CopyPasteCell::Copy.to_char(), 'C');
    assert_eq!(CopyPasteCell::Paste.to_char(), 'V');
    assert_eq!(CopyPasteCell::parse('C'), Ok(CopyPasteCell::Copy));
    assert_eq!(CopyPasteCell::parse('V'), Ok(CopyPasteCell::Paste));
    assert_eq!(CopyPasteCell::parse('c'), Err(()));
    assert_eq!(CopyPasteCell::Paste.rotate(), CopyPasteCell::Paste);
    assert!(Direction::Up.same(&Direction::Up));
    assert!(!Direction::Up.same(&Direction::Down));
    assert!(3u8.same(&3));
    assert!(!3u8.same(&4));
    assert!(Mark.same(&Mark));
    assert!(!CopyPasteCell::Copy.same(&CopyPasteCell::Paste));
}

#[test]
fn equals_compares_slots_flag_and_rectangle() {
    let piece = Piece::from_str("(12)").unwrap();
    assert!(piece.equals(&Piece::from_str(" ( 1 2 ) ").unwrap()));
    assert!(!piece.equals(&Piece::from_str("[12]").unwrap()));
    assert!(!piece.equals(&Piece::from_str("(12.)").unwrap()));
    assert!(!piece.equals(&Piece::from_str("(12)(..)").unwrap()));
    assert!(!piece.equals(&Piece::from_str("(13)").unwrap()));
    assert!(!piece.equals(&Piece::from_str("(1.)").unwrap()));
    let swap = Swap::from_str("(##)").unwrap();
    assert!(swap.equals(&Swap::from_str("(##)").unwrap()));
    assert!(!swap.equals(&Swap::from_str("(#.#)").unwrap()));
    let copy = CopyPaste::from_str("(CV)").unwrap();
    assert!(copy.equals(&CopyPaste::from_str("(CV)").unwrap()));
    assert!(!copy.equals(&CopyPaste::from_str("(VC)").unwrap()));
    let lift = Tool::Lift(Shape::from_str("(##)").unwrap());
    assert!(lift.equals(&lift));
    assert!(!lift.equals(&Tool::Swap(swap)));
    assert!(Tool::Swap(swap).equals(&Tool::Swap(swap)));
    assert!(!Tool::Piece(piece).equals(&Tool::Piece(Piece::from_str("(21)").unwrap())));
}

#[test]
fn slots_holding_lists_indices_in_order() {
    let piece = Piece::from_str("[121][.1.][1.2]").unwrap();
    assert_eq!(piece.slots_holding(&1), vec![0, 2, 4, 6]);
    assert_eq!(piece.slots_holding(&2), vec![1, 8]);
    assert_eq!(piece.slots_holding(&3), Vec::<usize>::new());
    let swap = Swap::from_str("(.#)(#.)").unwrap();
    assert_eq!(swap.swap_idxs(), [1, 3]);
    let copy = CopyPaste::from_str("(VV)(VC)").unwrap();
    assert_eq!(copy.copy_idx(), 4);
}

#[test]
fn arrays_need_the_exact_number_of_items() {
    assert_eq!(try_into_array::<2>(&vec![4, 7]), Ok([4, 7]));
    assert_eq!(try_into_array::<2>(&vec![4]), Err(()));
    assert_eq!(try_into_array::<2>(&vec![4, 7, 9]), Err(()));
    assert_eq!(try_into_array::<0>(&vec![]), Ok([]));
    assert_eq!(try_into_array::<1>(&vec![]), Err(()));
}

#[test]
fn removing_each_item_moves_the_last_into_its_place() {
    let each = swap_remove_each(&[1, 2, 3, 4]);
    assert_eq!(
        each,
        vec![
            (1, vec![4, 2, 3]),
            (2, vec![1, 4, 3]),
            (3, vec![1, 2, 4]),
            (4, vec![1, 2, 3]),
        ]
    );
    assert_eq!(swap_remove_each::<u8>(&[]), vec![]);
    assert_eq!(swap_remove_each(&[9]), vec![(9, vec![])]);
}

#[test]
fn tool_lists_compare_in_order() {
    let a = Tool::Swap(Swap::from_str("(##)").unwrap());
    let b = Tool::Push(Push::from_str("(>)").unwrap());
    assert!(same_tools(&vec![a, b], &vec![a, b]));
    assert!(!same_tools(&vec![a, b], &vec![b, a]));
    assert!(!same_tools(&vec![a, b], &vec![a]));
    assert!(same_tools(&vec![], &vec![]));
}

#[test]
fn board_codes_count_in_base_eleven() {
    assert_eq!(code_of(&Board::from_str("[...][...][...]").unwrap()), 0);
    assert_eq!(code_of(&Board::from_str("[...][...][..0]").unwrap()), 1);
    assert_eq!(code_of(&Board::from_str("[...][...][.0.]").unwrap()), 11);
    assert_eq!(code_of(&Board::from_str("[...][...][.09]").unwrap()), 21);
    assert_eq!(
        code_of(&Board::from_str("[999][999][999]").unwrap()),
        2357947690
    );
    assert_eq!(
        code_of(&Board::from_str("[123][456][789]").unwrap()),
        (((((((2 * 11 + 3) * 11 + 4) * 11 + 5) * 11 + 6) * 11 + 7) * 11 + 8) * 11 + 9) * 11 + 10
    );
}
