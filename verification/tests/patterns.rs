use inbento::{Piece, Push, Shape, SIZE};

#[test]
fn test_unterminated_row() {
    let err = Shape::from_str("(#.#)(.#");
    assert!(err.is_err(), "{err:?}");
}

#[test]
fn test_extra_opener() {
    let err = Shape::from_str("(#.#)(.#(.)");
    assert!(err.is_err(), "{err:?}");
}

#[test]
fn test_too_tall() {
    assert_eq!(SIZE, 3);
    let err = Shape::from_str("(#)(.)(#)(#)");
    assert!(err.is_err(), "{err:?}");
}

#[test]
fn test_multirow() {
    let shape = Shape::from_str("(#)(.)(#)");
    assert!(shape.is_ok(), "{shape:?}");
}

#[test]
fn test_rotate() {
    let shape = Piece::from_str("(12)(34)(56)").unwrap();
    assert_eq!(shape.rotate(), Piece::from_str("(531)(642)").unwrap());
}

#[test]
fn test_rotate_directions() {
    let shape = Push::from_str("(^>)").unwrap();
    assert_eq!(shape.rotate(), Push::from_str("(>)(v)").unwrap());
}

#[test]
fn test_rotations() {
    let shape = Push::from_str("(^>)").unwrap();
    assert_eq!(
        shape.all_rotations(),
        vec![
            Push::from_str("(^>)").unwrap(),
            Push::from_str("(<v)").unwrap(),
            Push::from_str("(>)(v)").unwrap(),
            Push::from_str("(^)(<)").unwrap(),
        ]
    );
}

#[test]
fn test_180_sym_rotations() {
    let shape = Shape::from_str("(##)").unwrap();
    assert_eq!(
        shape.all_rotations(),
        vec![
            Shape::from_str("(##)").unwrap(),
            Shape::from_str("(#)(#)").unwrap(),
        ]
    );
}

#[test]
fn test_90_sym_rotations() {
    let shape = Shape::from_str("(##)(##)").unwrap();
    assert_eq!(
        shape.all_rotations(),
        vec![Shape::from_str("(##)(##)").unwrap()]
    );
}

#[test]
fn test_transformations() {
    let shape = Shape::from_str("(#.#)").unwrap();
    assert_eq!(
        shape.all_transformations(),
        vec![
            Shape::from_str("(#.#)(...)(...)").unwrap(),
            Shape::from_str("(...)(#.#)(...)").unwrap(),
            Shape::from_str("(...)(...)(#.#)").unwrap(),
            Shape::from_str("(#..)(...)(#..)").unwrap(),
            Shape::from_str("(.#.)(...)(.#.)").unwrap(),
            Shape::from_str("(..#)(...)(..#)").unwrap(),
        ]
    );
}
