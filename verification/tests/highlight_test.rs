use ghgrab::highlight::{
    highlight_content, pick_theme, split_lines, syntax_extension, term_lines, term_span, terminal_color, StyledPiece, TermColor,
};

#[test]
fn extensions() {
    assert_eq!(syntax_extension("src/main.rs"), Some("rs".to_string()));
    assert_eq!(syntax_extension("archive.tar.gz"), Some("gz".to_string()));
    assert_eq!(syntax_extension("Makefile"), None);
    assert_eq!(syntax_extension("dir/"), None);
    assert_eq!(syntax_extension("file."), None);
    assert_eq!(syntax_extension(".bashrc"), Some("bashrc".to_string()));
}

#[test]
fn colors() {
    assert_eq!(terminal_color(0, 0, 0, 0), TermColor::Black);
    assert_eq!(terminal_color(9, 0, 0, 0), TermColor::LightRed);
    assert_eq!(terminal_color(15, 1, 2, 0), TermColor::White);
    assert_eq!(terminal_color(200, 0, 0, 0), TermColor::Indexed(200));
    assert_eq!(terminal_color(1, 2, 3, 1), TermColor::Reset);
    assert_eq!(terminal_color(1, 2, 3, 255), TermColor::Rgb(1, 2, 3));
}

#[test]
fn theme_is_picked_by_name_then_first() {
    let names = vec!["InspiredGitHub".to_string(), "base16-ocean.dark".to_string()];
    assert_eq!(pick_theme(&names), Some(1));
    let others = vec!["Solarized (dark)".to_string(), "InspiredGitHub".to_string()];
    assert_eq!(pick_theme(&others), Some(0));
    assert_eq!(pick_theme(&[]), None);
}

#[test]
fn pieces_become_terminal_spans() {
    let span = term_span(StyledPiece { r: 3, g: 0, b: 0, a: 0, font_style: 5, text: "fn".to_string() });
    assert_eq!(span.color, TermColor::Yellow);
    assert!(span.bold);
    assert!(span.italic);
    assert!(!span.underlined);
    assert_eq!(span.text, "fn");
    let span = term_span(StyledPiece { r: 10, g: 20, b: 30, a: 255, font_style: 2, text: " x".to_string() });
    assert_eq!(span.color, TermColor::Rgb(10, 20, 30));
    assert!(!span.bold && !span.italic && span.underlined);
    let lines = term_lines(vec![
        Some(vec![]),
        Some(vec![StyledPiece { r: 1, g: 1, b: 1, a: 1, font_style: 0, text: "a".to_string() }]),
        None,
    ]);
    assert_eq!(lines.len(), 3);
    assert!(lines[0].is_empty());
    assert_eq!(lines[1][0].color, TermColor::Reset);
    assert_eq!(lines[1][0].text, "a");
    assert!(lines[2].is_empty());
}

#[test]
fn highlighted_lines_keep_the_text() {
    let content = "fn main() {\n    println!(\"hi\");\n}\n";
    let lines = highlight_content(content, "src/main.rs");
    assert_eq!(lines.len(), 3);
    let texts: Vec<String> = lines.iter().map(|l| l.iter().map(|s| s.text.clone()).collect()).collect();
    assert_eq!(texts, vec!["fn main() {", "    println!(\"hi\");", "}"]);
    let colors: Vec<TermColor> = lines.iter().flatten().map(|s| s.color).collect();
    assert!(colors.iter().any(|c| *c != colors[0]));
}

#[test]
fn unknown_extension_is_plain_text() {
    let lines = highlight_content("a b\nc", "notes.zzzunknown");
    assert_eq!(lines.len(), 2);
    assert_eq!(lines[0].len(), 1);
    assert_eq!(lines[0][0].text, "a b");
    assert_eq!(lines[1][0].text, "c");
}

#[test]
fn text_is_split_as_str_lines_does() {
    for text in ["", "a", "a\n", "a\nb", "a\r\nb\r\n", "a\r", "\n\nx", "a\rb\n", "\r\n"] {
        let expected: Vec<String> = text.lines().map(str::to_string).collect();
        assert_eq!(split_lines(text), expected, "{:?}", text);
    }
}

#[test]
fn one_highlighted_line_per_content_line() {
    let lines = highlight_content("a\nb", "notes.txt");
    assert_eq!(lines.len(), 2);
    let lines = highlight_content("x = 1\r\n\ny = 2\n", "main.py");
    assert_eq!(lines.len(), 3);
    let texts: Vec<String> = lines.iter().map(|l| l.iter().map(|s| s.text.clone()).collect()).collect();
    assert_eq!(texts, vec!["x = 1", "", "y = 2"]);
}
