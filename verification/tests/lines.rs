use edtui_jagged::{Index2, Jagged};

#[test]
fn lines_test_find_closing_bracket() {
    let cursor = Index2::new(0, 0);
    let lines = Jagged::from("{ab\n{{}}c}d");

    let closing_bracket = lines.find_matching_bracket(cursor);
    assert_eq!(closing_bracket, Some(Index2::new(1, 5)));

    let cursor = Index2::new(1, 5);
    let closing_bracket = lines.find_matching_bracket(cursor);
    assert_eq!(closing_bracket, Some(Index2::new(0, 0)));
}

#[test]
fn test_find_closing_bracket() {
    let cursor = Index2::new(0, 0);
    let lines = Jagged::from("{ab\n{{}}c}d");

    let closing_bracket = lines.find_closing_bracket(cursor);
    assert_eq!(closing_bracket, Some(Index2::new(1, 5)));

    let cursor = Index2::new(1, 5);
    let closing_bracket = lines.find_closing_bracket(cursor);
    assert_eq!(closing_bracket, Some(Index2::new(0, 0)));
}

#[test]
fn test_find_matching_bracket_none() {
    let lines = Jagged::from("a(b]\n[(x)");
    assert_eq!(lines.find_matching_bracket(Index2::new(0, 0)), None);
    assert_eq!(lines.find_matching_bracket(Index2::new(0, 1)), None);
    assert_eq!(lines.find_matching_bracket(Index2::new(0, 3)), None);
    assert_eq!(lines.find_matching_bracket(Index2::new(1, 0)), None);
    assert_eq!(lines.find_matching_bracket(Index2::new(9, 0)), None);
    assert_eq!(
        lines.find_matching_bracket(Index2::new(1, 1)),
        Some(Index2::new(1, 3))
    );
    assert_eq!(
        lines.find_matching_bracket(Index2::new(1, 3)),
        Some(Index2::new(1, 1))
    );
}

#[test]
fn test_from_text_line_endings() {
    assert_eq!(Jagged::from(""), Jagged::new(vec![]));
    assert_eq!(Jagged::from("\n"), Jagged::new(vec![vec![], vec![]]));
    assert_eq!(
        Jagged::from("a\r\nb"),
        Jagged::new(vec![vec!['a'], vec!['b']])
    );
    assert_eq!(
        Jagged::from("a\r\n"),
        Jagged::new(vec![vec!['a'], vec![]])
    );
    assert_eq!(Jagged::from("a\r"), Jagged::new(vec![vec!['a', '\r']]));
    assert_eq!(
        Jagged::from("a\rb\n\nc"),
        Jagged::new(vec![vec!['a', '\r', 'b'], vec![], vec!['c']])
    );
}

#[test]
fn test_from_text_agrees_with_std_lines() {
    for text in ["", "x", "x\n", "\n\n", "a\r\n\r\nb\r", "\r\n", "ab\ncd\r\nef\n"] {
        let mut expected: Vec<Vec<char>> = text.lines().map(|l| l.chars().collect()).collect();
        if text.ends_with('\n') {
            expected.push(Vec::new());
        }
        assert_eq!(Jagged::from(text), Jagged::new(expected));
    }
}

#[test]
fn test_to_string() {
    let lines = Jagged::from("H\n");
    assert_eq!(lines.to_string(), "H\n");
    assert_eq!(String::from(lines), "H\n");

    assert_eq!(Jagged::from("Hello\n\nWorld").to_string(), "Hello\n\nWorld");
    assert_eq!(Jagged::from("").to_string(), "");
    assert_eq!(Jagged::new(vec![vec!['a'], vec!['b']]).to_string(), "a\nb");
}
