use inbento::display::{inline_lines, inline_multiline_strs};

#[test]
fn lines_stand_side_by_side() {
    assert_eq!(
        inline_multiline_strs("ab\ncd\n", "x\ny\n"),
        "ab   x\ncd   y\n"
    );
    assert_eq!(
        inline_multiline_strs("\n[131]\n[111]\n[113]\n", "Piece(\n(22)\n(.2)\n)"),
        "   Piece(\n[131]   (22)\n[111]   (.2)\n[113]   )\n"
    );
}

#[test]
fn lines_without_a_partner_are_left_out() {
    assert_eq!(inline_multiline_strs("a\nb\nc", "x"), "a   x\n");
    assert_eq!(inline_multiline_strs("a", "x\ny"), "a   x\n");
    assert_eq!(inline_multiline_strs("", "x\ny"), "");
    assert_eq!(inline_multiline_strs("a\r\nb", "x\ny"), "a   x\nb   y\n");
}

#[test]
fn given_lines_stand_side_by_side() {
    let left = vec![String::from("one"), String::from("two")];
    let right = vec![String::from("1"), String::from("2"), String::from("3")];
    assert_eq!(inline_lines(&left, &right), "one   1\ntwo   2\n");
    assert_eq!(inline_lines(&right, &left), "1   one\n2   two\n");
    assert_eq!(inline_lines(&vec![], &right), "");
}
