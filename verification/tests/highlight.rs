use rysql::highlight::{spans_or_plain, HighlightSpan, Highlighter};

#[test]
fn a_line_is_coloured_and_kept() {
    let mut highlighter = Highlighter::new_dark();
    let line = "SELECT 'a', 1 FROM t -- note\n";
    let spans = highlighter.highlight_line(line);
    let text: String = spans.iter().map(|s| s.text.as_str()).collect();
    assert_eq!(text, line);
    assert!(spans.len() > 1);
    let colours: Vec<[u8; 3]> = spans.iter().map(|s| s.color).collect();
    assert!(colours.iter().any(|c| *c != colours[0]));
}

#[test]
fn every_line_starts_afresh() {
    let mut highlighter = Highlighter::new_dark();
    let first = highlighter.highlight_line("/* open comment\n");
    let second = highlighter.highlight_line("SELECT 1\n");
    let again = highlighter.highlight_line("SELECT 1\n");
    assert_eq!(first.iter().map(|s| s.text.as_str()).collect::<String>(), "/* open comment\n");
    let pairs = |v: &Vec<HighlightSpan>| -> Vec<(String, [u8; 3])> {
        v.iter().map(|s| (s.text.clone(), s.color)).collect()
    };
    assert_eq!(pairs(&second), pairs(&again));
}

#[test]
fn a_line_without_colours_is_grey() {
    let spans = spans_or_plain("x", None);
    assert_eq!(spans.len(), 1);
    assert_eq!(spans[0].text, "x");
    assert_eq!(spans[0].color, [220, 220, 220]);
}
