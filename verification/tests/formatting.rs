use fountain::formatting::parse_content_formatting;

#[test]
fn with_no_formatting_returns_single_unformatted_content() {
    let result = parse_content_formatting("test line");

    assert_eq!(result.len(), 1);

    let content = &result[0];

    assert_eq!(content.raw_content, "test line");
    assert_eq!(content.content, "test line");
    assert_eq!(content.bold, false);
    assert_eq!(content.underline, false);
    assert_eq!(content.italic, false);
    assert_eq!(content.note, false);
}

#[test]
fn parse_underline_correctly() {
    let result = parse_content_formatting("test _line_");

    assert_eq!(result.len(), 2);

    let content = &result[0];

    assert_eq!(content.raw_content, "test ");
    assert_eq!(content.content, "test ");
    assert_eq!(content.bold, false);
    assert_eq!(content.underline, false);
    assert_eq!(content.italic, false);
    assert_eq!(content.note, false);

    let content = &result[1];

    assert_eq!(content.raw_content, "_line_");
    assert_eq!(content.content, "line");
    assert_eq!(content.bold, false);
    assert_eq!(content.underline, true);
    assert_eq!(content.italic, false);
    assert_eq!(content.note, false);
}

#[test]
fn parse_bold_correctly() {
    let result = parse_content_formatting("test **line**");

    assert_eq!(result.len(), 2);

    let content = &result[0];

    assert_eq!(content.content, "test ");
    assert_eq!(content.bold, false);
    assert_eq!(content.underline, false);
    assert_eq!(content.italic, false);
    assert_eq!(content.note, false);

    let content = &result[1];

    assert_eq!(content.raw_content, "**line**");
    assert_eq!(content.bold, true);
    assert_eq!(content.underline, false);
    assert_eq!(content.italic, false);
    assert_eq!(content.note, false);
}

#[test]
fn parse_italic_correctly() {
    let result = parse_content_formatting("test *line*");

    assert_eq!(result.len(), 2);

    let content = &result[0];

    assert_eq!(content.content, "test ");
    assert_eq!(content.bold, false);
    assert_eq!(content.underline, false);
    assert_eq!(content.italic, false);
    assert_eq!(content.note, false);

    let content = &result[1];

    assert_eq!(content.raw_content, "*line*");
    assert_eq!(content.bold, false);
    assert_eq!(content.underline, false);
    assert_eq!(content.italic, true);
    assert_eq!(content.note, false);
}

#[test]
fn parse_bold_italic_correctly() {
    let result = parse_content_formatting("test ***line***");

    assert_eq!(result.len(), 2);

    let content = &result[0];

    assert_eq!(content.content, "test ");
    assert_eq!(content.bold, false);
    assert_eq!(content.underline, false);
    assert_eq!(content.italic, false);
    assert_eq!(content.note, false);

    let content = &result[1];

    assert_eq!(content.raw_content, "***line***");
    assert_eq!(content.bold, true);
    assert_eq!(content.underline, false);
    assert_eq!(content.italic, true);
    assert_eq!(content.note, false);
}

#[test]
fn parse_notes_correctly() {
    let result = parse_content_formatting("test [[line]]");

    assert_eq!(result.len(), 2);

    let content = &result[0];

    assert_eq!(content.content, "test ");
    assert_eq!(content.bold, false);
    assert_eq!(content.underline, false);
    assert_eq!(content.italic, false);
    assert_eq!(content.note, false);

    let content = &result[1];

    assert_eq!(content.raw_content, "[[line]]");
    assert_eq!(content.bold, false);
    assert_eq!(content.underline, false);
    assert_eq!(content.italic, false);
    assert_eq!(content.note, true);
}
