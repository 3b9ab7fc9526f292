use inbento::notation::{strip_whitespace, whitespace};
use inbento::{Board, CopyPaste, Direction, Mark, ParserError, Piece, Push, Shape, Swap};

#[test]
fn empty_text_is_refused() {
    assert_eq!(Shape::from_str(""), Err(ParserError::Empty));
    assert_eq!(Shape::from_str(" \n\t "), Err(ParserError::Empty));
}

#[test]
fn text_without_opening_bracket_is_refused() {
    assert_eq!(Shape::from_str("#.#"), Err(ParserError::NotWrapped));
    assert_eq!(Shape::from_str(")#("), Err(ParserError::NotWrapped));
    assert_eq!(Piece::from_str(".[1]"), Err(ParserError::NotWrapped));
}

#[test]
fn text_without_closing_bracket_is_refused() {
    assert_eq!(Shape::from_str("(#.#"), Err(ParserError::NoClosingDelimiter));
    assert_eq!(Shape::from_str("["), Err(ParserError::NoClosingDelimiter));
}

#[test]
fn wide_first_row_is_refused() {
    assert_eq!(Shape::from_str("(####)"), Err(ParserError::TooWide));
    assert_eq!(Piece::from_str("[1234][5678]"), Err(ParserError::TooWide));
}

#[test]
fn mixed_brackets_are_refused() {
    assert_eq!(Shape::from_str("(#.#]"), Err(ParserError::MixedDelimiters));
    assert_eq!(Shape::from_str("[#.#)"), Err(ParserError::MixedDelimiters));
    assert_eq!(Shape::from_str("(#)[#]"), Err(ParserError::MixedDelimiters));
    assert_eq!(Shape::from_str("[#](#)"), Err(ParserError::MixedDelimiters));
}

#[test]
fn fourth_row_is_refused() {
    assert_eq!(Shape::from_str("(#)(.)(#)(#)"), Err(ParserError::TooManyRows));
    assert_eq!(Shape::from_str("()()()()"), Err(ParserError::TooManyRows));
    assert_eq!(
        Piece::from_str("[123][456][789["),
        Err(ParserError::TooManyRows)
    );
}

#[test]
fn row_inside_row_is_refused() {
    assert_eq!(
        Shape::from_str("(#.#)(.#(.)"),
        Err(ParserError::UnexpectedRowStart)
    );
    assert_eq!(Shape::from_str("((#))"), Err(ParserError::UnexpectedRowStart));
}

#[test]
fn closing_bracket_outside_row_is_refused() {
    assert_eq!(Shape::from_str("(#))"), Err(ParserError::UnexpectedRowEnd));
}

#[test]
fn slot_outside_row_is_refused() {
    assert_eq!(Shape::from_str("(#)#"), Err(ParserError::OutsideRow));
    assert_eq!(Shape::from_str("(#).(#)"), Err(ParserError::OutsideRow));
    assert_eq!(Piece::from_str("[1][2][3]."), Err(ParserError::OutsideRow));
    assert_eq!(Piece::from_str("[1]x"), Err(ParserError::OutsideRow));
}

#[test]
fn unknown_character_is_refused() {
    assert_eq!(Piece::from_str("[1a3]"), Err(ParserError::UnknownCharacter));
    assert_eq!(Piece::from_str("[1#3]"), Err(ParserError::UnknownCharacter));
    assert_eq!(Shape::from_str("(#x#)"), Err(ParserError::UnknownCharacter));
    assert_eq!(Shape::from_str("(1)"), Err(ParserError::UnknownCharacter));
    assert_eq!(Push::from_str("(^>V)"), Err(ParserError::UnknownCharacter));
    assert_eq!(
        CopyPaste::from_str("(CvV)"),
        Err(ParserError::UnknownCharacter)
    );
}

#[test]
fn unknown_character_comes_before_row_length() {
    assert_eq!(Piece::from_str("[1][2x]"), Err(ParserError::UnknownCharacter));
}

#[test]
fn long_row_is_refused() {
    assert_eq!(Piece::from_str("[12][345]"), Err(ParserError::TooManyElements));
    assert_eq!(Piece::from_str("[12][3.5]"), Err(ParserError::TooManyElements));
    assert_eq!(Shape::from_str("()(#)"), Err(ParserError::TooManyElements));
}

#[test]
fn short_row_is_refused() {
    assert_eq!(
        Piece::from_str("[12][3]"),
        Err(ParserError::NotEnoughElements)
    );
    assert_eq!(
        Piece::from_str("[12][]"),
        Err(ParserError::NotEnoughElements)
    );
}

#[test]
fn open_row_at_the_end_is_refused() {
    assert_eq!(
        Shape::from_str("(#.#)(.#"),
        Err(ParserError::UnterminatedRow)
    );
    assert_eq!(Piece::from_str("[1]["), Err(ParserError::UnterminatedRow));
}

#[test]
fn copy_mask_needs_one_copy_mark() {
    assert_eq!(CopyPaste::from_str("(VVV)"), Err(ParserError::CopyCount));
    assert_eq!(CopyPaste::from_str("(CVC)"), Err(ParserError::CopyCount));
    assert_eq!(CopyPaste::from_str("(...)"), Err(ParserError::CopyCount));
    assert!(CopyPaste::from_str("(C)").is_ok());
    assert!(CopyPaste::from_str("(CVV)(VVV)(VVV)").is_ok());
    assert_eq!(
        CopyPaste::from_str("(CV"),
        Err(ParserError::NoClosingDelimiter)
    );
}

#[test]
fn swap_mask_needs_two_marks() {
    assert_eq!(Swap::from_str("(.#)"), Err(ParserError::SwapCount));
    assert_eq!(Swap::from_str("(###)"), Err(ParserError::SwapCount));
    assert_eq!(Swap::from_str("(...)"), Err(ParserError::SwapCount));
    assert!(Swap::from_str("(#.#)").is_ok());
    assert!(Swap::from_str("(#..)(...)(..#)").is_ok());
    assert_eq!(Swap::from_str("(##"), Err(ParserError::NoClosingDelimiter));
}

#[test]
fn errors_have_their_wording() {
    assert_eq!(ParserError::Empty.message(), "figure must not be empty");
    assert_eq!(
        ParserError::NotWrapped.message(),
        "figure must be wrapped in `[` or `(`"
    );
    assert_eq!(
        ParserError::NoClosingDelimiter.message(),
        "figure must have matching closing delimiter (`[ ]`, `( )`)"
    );
    assert_eq!(ParserError::TooWide.message(), "figure is too wide");
    assert_eq!(
        ParserError::MixedDelimiters.message(),
        "figure must be wrapped entirely in `[ ]` or `( )`"
    );
    assert_eq!(ParserError::TooManyRows.message(), "too many rows");
    assert_eq!(
        ParserError::UnexpectedRowStart.message(),
        "unexpected start of row"
    );
    assert_eq!(
        ParserError::UnexpectedRowEnd.message(),
        "unexpected end of row"
    );
    assert_eq!(
        ParserError::OutsideRow.message(),
        "unexpected character outside of row"
    );
    assert_eq!(
        ParserError::UnknownCharacter.message(),
        "could not parse character"
    );
    assert_eq!(
        ParserError::TooManyElements.message(),
        "too many elements in row"
    );
    assert_eq!(
        ParserError::NotEnoughElements.message(),
        "not enough elements in row"
    );
    assert_eq!(ParserError::UnterminatedRow.message(), "unterminated row");
    assert_eq!(
        ParserError::CopyCount.message(),
        "expected exactly one copy cell"
    );
    assert_eq!(
        ParserError::SwapCount.message(),
        "expected exactly two swap cells"
    );
}

#[test]
fn small_patterns_keep_their_rectangle() {
    let tall = Shape::from_str("(#)(.)(#)").unwrap();
    assert_eq!((tall.bounding_width(), tall.bounding_height()), (1, 3));
    assert!(tall.is_rotatable());
    assert_eq!(tall.cell(0, 0), Some(Mark));
    assert_eq!(tall.cell(0, 1), None);
    assert_eq!(tall.cell(0, 2), Some(Mark));
    assert_eq!(tall.cell(1, 0), None);

    let wide = Piece::from_str("[12]").unwrap();
    assert_eq!((wide.bounding_width(), wide.bounding_height()), (2, 1));
    assert!(!wide.is_rotatable());
    assert_eq!(wide.cell(0, 0), Some(1));
    assert_eq!(wide.cell(1, 0), Some(2));
    assert_eq!(wide.cell(2, 0), None);
    assert_eq!(wide.cell(3, 0), None);
    assert_eq!(wide.cell(0, 3), None);

    let block = Push::from_str("(^>)(v<)").unwrap();
    assert_eq!((block.bounding_width(), block.bounding_height()), (2, 2));
    assert_eq!(block.cell(0, 0), Some(Direction::Up));
    assert_eq!(block.cell(1, 0), Some(Direction::Right));
    assert_eq!(block.cell(0, 1), Some(Direction::Down));
    assert_eq!(block.cell(1, 1), Some(Direction::Left));

    let none = Shape::from_str("[]").unwrap();
    assert_eq!((none.bounding_width(), none.bounding_height()), (0, 1));

    let rows = Shape::from_str("[][][]").unwrap();
    assert_eq!((rows.bounding_width(), rows.bounding_height()), (0, 3));

    let full = Board::from_str("[123][456][789]").unwrap();
    assert_eq!((full.bounding_width(), full.bounding_height()), (3, 3));
    assert_eq!(full.cell(2, 1), Some(6));
}

#[test]
fn second_row_goes_below_the_first() {
    let piece = Piece::from_str("[12][34]").unwrap();
    assert_eq!(piece.cell(0, 1), Some(3));
    assert_eq!(piece.cell(1, 1), Some(4));
    assert_eq!(piece.cell(2, 0), None);
}

#[test]
fn whitespace_is_ignored() {
    let plain = Board::from_str("[131][111][113]").unwrap();
    let spread = Board::from_str(
        "
        [131]
        [1 1 1]
        [11\t3]\u{a0}\u{2003}\u{3000}
    ",
    )
    .unwrap();
    assert_eq!(spread, plain);
}

#[test]
fn every_digit_is_read() {
    let low = Piece::from_str("[012][345][678]").unwrap();
    let mut expected: u8 = 0;
    for y in 0..3 {
        for x in 0..3 {
            assert_eq!(low.cell(x, y), Some(expected));
            expected += 1;
        }
    }
    assert_eq!(Piece::from_str("[9]").unwrap().cell(0, 0), Some(9));
}

#[test]
fn whitespace_is_what_the_standard_library_says() {
    let mut code: u32 = 0;
    while code <= 0x10FFFF {
        if let Some(c) = char::from_u32(code) {
            assert_eq!(whitespace(c), c.is_whitespace(), "U+{code:04X}");
        }
        code += 1;
    }
}

#[test]
fn stripping_keeps_the_other_characters_in_order() {
    assert_eq!(
        strip_whitespace(" a\tb \n c\u{2028}"),
        vec!['a', 'b', 'c']
    );
    assert_eq!(strip_whitespace(""), Vec::<char>::new());
}

#[test]
fn notation_is_written_as_it_is_read() {
    assert_eq!(Piece::from_str("[12]").unwrap().render(), "[12]");
    assert_eq!(Shape::from_str("(#.#)").unwrap().render(), "(#.#)");
    assert_eq!(
        Push::from_str("(^>)(v<)").unwrap().render(),
        "\n(^>)\n(v<)\n"
    );
    assert_eq!(
        Board::from_str("[123][4.6][789]").unwrap().render(),
        "\n[123]\n[4.6]\n[789]\n"
    );
    assert_eq!(
        CopyPaste::from_str("(CV.)").unwrap().render(),
        "(CV.)"
    );
    assert_eq!(Swap::from_str("[#][#]").unwrap().render(), "\n[#]\n[#]\n");
    assert_eq!(Shape::from_str("[]").unwrap().render(), "[]");
}

#[test]
fn written_notation_reads_back() {
    let texts = [
        "[12]",
        "(#.#)",
        "(^>)(v<)",
        "[123][4.6][789]",
        "[.][.][1]",
        "()()",
        "(..)(.1)",
    ];
    for text in texts {
        let piece = Piece::from_str(text);
        if let Ok(piece) = piece {
            assert_eq!(Piece::from_str(&piece.render()), Ok(piece));
        }
        let shape = Shape::from_str(text);
        if let Ok(shape) = shape {
            assert_eq!(Shape::from_str(&shape.render()), Ok(shape));
        }
        let push = Push::from_str(text);
        if let Ok(push) = push {
            assert_eq!(Push::from_str(&push.render()), Ok(push));
        }
    }
}
