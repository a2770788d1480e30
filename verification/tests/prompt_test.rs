use ghgrab::prompt::{interpret_selection, parse_usize, SelectionReply};

#[test]
fn answers_at_the_prompt() {
    assert_eq!(interpret_selection("q\n", 3), SelectionReply::Cancel);
    assert_eq!(interpret_selection("  Q ", 3), SelectionReply::Cancel);
    assert_eq!(interpret_selection("2\n", 3), SelectionReply::Choose(1));
    assert_eq!(interpret_selection("+3", 3), SelectionReply::Choose(2));
    assert_eq!(interpret_selection("0", 3), SelectionReply::OutOfRange);
    assert_eq!(interpret_selection("4", 3), SelectionReply::OutOfRange);
    assert_eq!(interpret_selection("two", 3), SelectionReply::NotANumber);
    assert_eq!(interpret_selection("", 3), SelectionReply::NotANumber);
    assert_eq!(interpret_selection("-1", 3), SelectionReply::NotANumber);
    assert_eq!(interpret_selection("qq", 3), SelectionReply::NotANumber);
}

#[test]
fn parses_like_std() {
    let cases = ["0", "42", "+7", "", "+", "-0", "1 2", "007", "18446744073709551615", "18446744073709551616", "99999999999999999999999"];
    for c in cases {
        let chars: Vec<char> = c.chars().collect();
        assert_eq!(parse_usize(&chars), c.parse::<usize>().ok(), "{}", c);
    }
}
