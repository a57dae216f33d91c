use lexicc::text::{
    envelope, escape, is_blank, is_white_space, join_open_breaks, joins_next, lines_of, normalize,
    repair_lines, split_work_items,
};

fn wrapped(body: &str) -> String {
    format!("<speak><prosody rate=\"x-fast\"><p>{}</p></prosody></speak>", body)
}

#[test]
fn citation_markers_are_removed() {
    let out = normalize("This is known.[12] It works.").unwrap();
    assert!(!out.contains("[12]"));
    assert_eq!(out, wrapped("This is known. It works."));
}

#[test]
fn caret_citations_are_removed() {
    let out = normalize("See this[^3] and that[7].").unwrap();
    assert_eq!(out, wrapped("See this and that."));
}

#[test]
fn quoted_span_is_read_with_markers() {
    let out = normalize("He said \"hello.\"").unwrap();
    assert!(out.contains("(quote) hello (end quote)."));
    assert_eq!(out, wrapped("He said (quote) hello (end quote)."));
}

#[test]
fn curly_quotes_are_read_with_markers() {
    let out = normalize("She wrote \u{201c}yes?\u{201d} twice").unwrap();
    assert_eq!(out, wrapped("She wrote (quote) yes (end quote)? twice"));
}

#[test]
fn stray_quote_and_reserved_characters_are_escaped() {
    let out = normalize("a \"b & c's <d>").unwrap();
    assert_eq!(out, wrapped("a  (quote) b &amp; c&apos;s &lt;d&gt;"));
}

#[test]
fn escape_maps_each_character() {
    assert_eq!(escape("\"&'<>x"), " (quote) &amp;&apos;&lt;&gt;x");
    assert_eq!(escape(""), "");
}

#[test]
fn hyphenated_breaks_are_joined() {
    assert_eq!(repair_lines("exam-\nple.").unwrap(), "example.");
    assert_eq!(repair_lines("exam-\r\nple.").unwrap(), "example.");
}

#[test]
fn open_breaks_become_spaces() {
    assert_eq!(repair_lines("one\ntwo.").unwrap(), "one two.");
    assert_eq!(repair_lines("Line1\nLine2").unwrap(), "Line1 Line2");
    assert_eq!(repair_lines("a\nb\nc").unwrap(), "a b c");
    assert_eq!(repair_lines("a\r\nb").unwrap(), "a b");
    assert_eq!(repair_lines("End.\nNext.").unwrap(), "End.\nNext.");
    assert_eq!(repair_lines("End.\r\nNext.").unwrap(), "End.\r\nNext.");
    assert_eq!(repair_lines("Why?\nBecause!\nSo.").unwrap(), "Why?\nBecause!\nSo.");
}

#[test]
fn break_after_citation_is_joined_and_marker_kept() {
    // Only the character before the break is looked at.
    assert_eq!(repair_lines("cited.[2]\nNext").unwrap(), "cited.[2] Next");
    assert_eq!(repair_lines("see 12\nmore").unwrap(), "see 12 more");
}

#[test]
fn breaks_next_to_blank_lines_are_kept() {
    assert_eq!(repair_lines("Hello\n\n\nWorld").unwrap(), "Hello\n\n\nWorld");
    assert_eq!(repair_lines("x\n  \ny").unwrap(), "x\n  \ny");
    assert_eq!(repair_lines("").unwrap(), "");
    assert_eq!(repair_lines("\n").unwrap(), "\n");
}

#[test]
fn join_decision() {
    assert!(joins_next("wrapped", "line"));
    assert!(joins_next("wrapped\r", "line"));
    assert!(!joins_next("ended.", "line"));
    assert!(!joins_next("ended.\r", "line"));
    assert!(!joins_next("text", ""));
    assert!(!joins_next(" \t", "line"));
}

#[test]
fn lines_are_split_at_line_feeds() {
    assert_eq!(lines_of("a\n\nb"), vec!["a", "", "b"]);
    assert_eq!(lines_of(""), vec![""]);
    assert_eq!(lines_of("x\n"), vec!["x", ""]);
    assert_eq!(join_open_breaks("a\nb"), "a b");
}

#[test]
fn blank_text_detection() {
    assert!(is_blank(""));
    assert!(is_blank(" \t\u{3000}"));
    assert!(!is_blank("  a "));
}

#[test]
fn blank_lines_are_skipped() {
    let items = split_work_items("Hello\n\n\nWorld");
    assert_eq!(items, vec!["Hello".to_string(), "World".to_string()]);
}

#[test]
fn white_space_only_lines_are_skipped() {
    let items = split_work_items(" \t\n\u{a0}\u{3000}\nx\n  y \n");
    assert_eq!(items, vec!["x".to_string(), "  y ".to_string()]);
    assert!(split_work_items("").is_empty());
    assert!(split_work_items("\n\n").is_empty());
}

#[test]
fn white_space_matches_std() {
    for c in ['\t', '\n', '\r', ' ', '\u{85}', '\u{a0}', '\u{2003}', '\u{3000}', 'a', '.', '\u{200b}'] {
        assert_eq!(is_white_space(c), c.is_whitespace());
    }
}

#[test]
fn envelope_escapes_and_wraps() {
    assert_eq!(envelope("x & y"), wrapped("x &amp; y"));
    assert_eq!(envelope(""), wrapped(""));
}
