#[test]
fn test_unicode_cursor_render_logic() {
    let input_text = "café";
    let url_cursor: usize = 3;

    let mut s = input_text.to_string();
    let char_count = s.chars().count();
    assert_eq!(char_count, 4);

    if url_cursor >= char_count {
        s.push('_');
    } else {
        let start = s.char_indices().nth(url_cursor).map(|(i, _)| i).unwrap();
        let end = s
            .char_indices()
            .nth(url_cursor + 1)
            .map(|(i, _)| i)
            .unwrap_or(s.len());
        s.replace_range(start..end, "_");
    }

    assert_eq!(s, "caf_");
}
