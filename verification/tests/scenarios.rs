use fountain::collapser::{collapse, flatten};
use fountain::exporter::{export_fountain, export_line};
use fountain::formatting::{parse_content_formatting, IterPreviousAndNextTwo};
use fountain::classifier::parse_line;
use fountain::parser::parse_fountain;
use fountain::types::{CharacterLine, Line, LineContent, Script, TextAlignment, Title};

fn span(content: &str, raw: &str) -> LineContent {
    LineContent {
        content: content.to_owned(),
        raw_content: raw.to_owned(),
        ..Default::default()
    }
}

fn plain(text: &str) -> Vec<LineContent> {
    vec![span(text, text)]
}

fn raw_of(spans: &Vec<LineContent>) -> String {
    let mut s = String::new();
    for c in spans {
        s.push_str(&c.raw_content);
    }
    s
}

fn cleaned_of(spans: &Vec<LineContent>) -> String {
    let mut s = String::new();
    for c in spans {
        s.push_str(&c.content);
    }
    s
}

fn round_trip(source: &str) -> String {
    export_fountain(&parse_fountain(source))
}

#[test]
fn empty_text_has_an_empty_title_and_no_lines() {
    let result = parse_fountain("");
    assert_eq!(result.title, Title::default());
    assert_eq!(result.lines, Vec::<Line>::new());
}

#[test]
fn plain_lines_are_counted_one_to_one() {
    let source = "first\n.second\n> third <\n===\nfifth";
    let result = parse_fountain(source);
    assert_eq!(result.lines.len(), source.lines().count());
    assert_eq!(result.lines.len(), 5);
}

#[test]
fn lines_of_a_block_are_counted_after_flattening() {
    let source = "BOB\nhi\n(low)\n~ la";
    let result = parse_fountain(source);
    assert_eq!(result.lines.len(), 1);
    assert_eq!(flatten(&result.lines).len(), 4);
}

#[test]
fn export_is_stable_after_one_pass() {
    let sources = [
        "",
        "plain action",
        "  padded action  \n\n.HEADING\nint. house\n> centered <\n> CUT\n===",
        "BOB\nhi there\n(aside)\n~ la la\n\nALICE ^\nhello",
        "Title: A\nAuthor: B\n\nbody\n\nmore",
        "/* hidden\ntext */",
        "some *italic* and **bold** and ***both*** and _under_ and [[note]]",
        "an action\n\nCUT TO:\n\nanother",
    ];
    for source in sources {
        let once = round_trip(source);
        let twice = round_trip(&once);
        assert_eq!(twice, once, "source: {:?}", source);
    }
}

#[test]
fn a_line_break_after_a_comment_is_an_empty_line() {
    let result = parse_fountain("a\n/* b */\nc");
    assert_eq!(
        result.lines,
        vec![
            Line::Action(plain("a"), TextAlignment::Left),
            Line::Boneyard(plain("b")),
            Line::Empty,
            Line::Action(plain("c"), TextAlignment::Left),
        ]
    );
    assert_eq!(round_trip("a /* b */ c"), "a\n/*\nb\n*/\nc");
    assert_eq!(round_trip("a\n/*\nb\n*/\nc"), "a\n/*\nb\n*/\n\nc");
}

#[test]
fn a_blank_line_at_the_end_is_not_stable() {
    assert_eq!(round_trip("a\n\n"), "a\n");
    assert_eq!(round_trip("a\n"), "a");
}

#[test]
fn a_doubled_arrow_is_not_stable() {
    assert_eq!(round_trip(">> x"), "> x");
    assert_eq!(round_trip("> x"), ">x");
    assert_eq!(round_trip(">x"), ">x");
}

#[test]
fn normalised_lines_are_stable() {
    let sources = [
        ">   wide   <",
        ".  spaced heading",
        ".INT. by a dot",
        ">   fade out",
        "BOB   ^\nhi",
        "BOB\n~   la la",
        "====== break",
    ];
    for source in sources {
        let once = round_trip(source);
        assert_eq!(parse_fountain(&once), parse_fountain(source), "source: {:?}", source);
        assert_eq!(round_trip(&once), once, "source: {:?}", source);
    }
}

#[test]
fn three_dots_are_not_stable() {
    assert_eq!(round_trip("..."), "..");
    assert_eq!(round_trip(".."), ".");
    assert_eq!(round_trip("."), ".");
}

#[test]
fn raw_text_reproduces_the_source() {
    let sources = [
        "**bold**",
        "*italic*",
        "***bold-italic***",
        "_underline_",
        "[[note]]",
        "\\*literal\\*",
        "a ****four stars",
        "*****",
        "open **bold without an end",
        "]] stray [[ and [[[ and ]]]",
        "mixed **bold *and italic*** text",
        "",
    ];
    for source in sources {
        let spans = parse_content_formatting(source);
        assert_eq!(raw_of(&spans), source);
    }
}

#[test]
fn cleaned_text_drops_the_markers() {
    assert_eq!(cleaned_of(&parse_content_formatting("**bold**")), "bold");
    assert_eq!(cleaned_of(&parse_content_formatting("*italic*")), "italic");
    assert_eq!(cleaned_of(&parse_content_formatting("***bold-italic***")), "bold-italic");
    assert_eq!(cleaned_of(&parse_content_formatting("_underline_")), "underline");
    assert_eq!(cleaned_of(&parse_content_formatting("[[note]]")), "note");
    assert_eq!(cleaned_of(&parse_content_formatting("a [b] c")), "a [b] c");
    assert_eq!(cleaned_of(&parse_content_formatting("a \\ b")), "a \\ b");
}

#[test]
fn an_escaped_marker_is_plain_text() {
    let spans = parse_content_formatting("\\*literal\\*");
    assert_eq!(spans, vec![span("*literal*", "\\*literal\\*")]);
    let spans = parse_content_formatting("\\_x\\_ \\[[y\\]]");
    assert_eq!(spans.len(), 1);
    assert_eq!(spans[0].content, "_x_ [[y]]");
    assert_eq!(spans[0].underline, false);
    assert_eq!(spans[0].note, false);
}

#[test]
fn a_marker_at_the_start_closes_an_empty_span() {
    let spans = parse_content_formatting("_line_");
    assert_eq!(
        spans,
        vec![
            span("", ""),
            LineContent { underline: true, ..span("line", "_line_") },
        ]
    );
}

#[test]
fn an_open_marker_stays_in_effect_to_the_end() {
    let spans = parse_content_formatting("a **b");
    assert_eq!(
        spans,
        vec![span("a ", "a "), LineContent { bold: true, ..span("b", "**b") }]
    );
}

#[test]
fn four_stars_are_three_and_one() {
    let spans = parse_content_formatting("****a");
    assert_eq!(
        spans,
        vec![
            span("", ""),
            LineContent { bold: true, italic: true, ..span("", "****") },
            LineContent { bold: true, ..span("a", "a") },
        ]
    );
}

#[test]
fn six_stars_open_and_close() {
    let spans = parse_content_formatting("******");
    assert_eq!(
        spans,
        vec![
            span("", ""),
            LineContent { bold: true, italic: true, ..span("", "******") },
        ]
    );
}

#[test]
fn a_note_marker_inside_a_note_changes_nothing() {
    let spans = parse_content_formatting("[[a [[b]] c]]");
    assert_eq!(
        spans,
        vec![
            span("", ""),
            LineContent { note: true, ..span("a b", "[[a [[b]]") },
            span(" c", " c]]"),
        ]
    );
}

#[test]
fn nested_styles_give_a_span_for_each_combination() {
    let spans = parse_content_formatting("**a _b_ c**");
    assert_eq!(
        spans,
        vec![
            span("", ""),
            LineContent { bold: true, ..span("a ", "**a ") },
            LineContent { bold: true, underline: true, ..span("b", "_b_") },
            LineContent { bold: true, ..span(" c", " c**") },
        ]
    );
}

#[test]
fn a_heading_after_a_dot_is_a_scene_heading() {
    let result = parse_fountain(".A HEADING");
    assert_eq!(result.lines, vec![Line::SceneHeading("A HEADING".to_owned())]);
    assert_eq!(export_fountain(&result), ".A HEADING");
    assert_eq!(export_line(&Line::SceneHeading("A HEADING".to_owned())), ".A HEADING");
}

#[test]
fn a_heading_with_a_scene_word_stays_as_it_is() {
    let result = parse_fountain("INT HEADING");
    assert_eq!(result.lines, vec![Line::SceneHeading("INT HEADING".to_owned())]);
    assert_eq!(export_fountain(&result), "INT HEADING");
}

#[test]
fn a_scene_word_counts_in_any_case() {
    let result = parse_fountain("Int. kitchen\neXt. garden\nI/e car");
    assert_eq!(
        result.lines,
        vec![
            Line::SceneHeading("Int. kitchen".to_owned()),
            Line::SceneHeading("eXt. garden".to_owned()),
            Line::SceneHeading("I/e car".to_owned()),
        ]
    );
    assert_eq!(export_fountain(&result), "Int. kitchen\neXt. garden\nI/e car");
}

#[test]
fn a_character_and_two_lines_are_one_block() {
    let result = parse_fountain("CHARACTER\nline one\nline two");
    assert_eq!(
        result.lines,
        vec![Line::CharacterContent(vec![
            (
                plain("CHARACTER"),
                CharacterLine::CharacterHeading(false),
                "CHARACTER".to_owned()
            ),
            (plain("line one"), CharacterLine::Dialogue, "CHARACTER".to_owned()),
            (plain("line two"), CharacterLine::Dialogue, "CHARACTER".to_owned()),
        ])]
    );
}

#[test]
fn dual_dialogue_is_one_block() {
    let result = parse_fountain("CHARACTER\nhi\n\nCHARACTER TWO ^\nhey");
    assert_eq!(
        result.lines,
        vec![Line::CharacterContent(vec![
            (
                plain("CHARACTER"),
                CharacterLine::CharacterHeading(false),
                "CHARACTER".to_owned()
            ),
            (plain("hi"), CharacterLine::Dialogue, "CHARACTER".to_owned()),
            (vec![], CharacterLine::Empty, "CHARACTER".to_owned()),
            (
                plain("CHARACTER TWO"),
                CharacterLine::CharacterHeading(true),
                "CHARACTER TWO".to_owned()
            ),
            (plain("hey"), CharacterLine::Dialogue, "CHARACTER TWO".to_owned()),
        ])]
    );
    assert_eq!(export_fountain(&result), "CHARACTER\nhi\n\nCHARACTER TWO ^\nhey");
}

#[test]
fn a_second_heading_without_the_mark_begins_a_new_block() {
    let result = parse_fountain("BOB\nhi\n\nBOB\nagain\n\nALICE\nhello");
    assert_eq!(result.lines.len(), 3);
    for line in &result.lines {
        assert!(matches!(line, Line::CharacterContent(_)));
    }
}

#[test]
fn only_one_blank_line_ends_a_block() {
    let result = parse_fountain("BOB\nhi\n\n\nthen");
    assert_eq!(result.lines.len(), 3);
    if let Line::CharacterContent(entries) = &result.lines[0] {
        assert_eq!(entries.len(), 3);
        assert_eq!(entries[2].1, CharacterLine::Empty);
    } else {
        panic!()
    }
    assert_eq!(result.lines[1], Line::Empty);
    assert_eq!(result.lines[2], Line::Action(plain("then"), TextAlignment::Left));
}

#[test]
fn title_and_author_and_body() {
    let result = parse_fountain("Title: A\nAuthor: B\n\nbody");
    assert_eq!(cleaned_of(&result.title.title.clone().unwrap()), "A");
    assert_eq!(cleaned_of(&result.title.author.clone().unwrap()), "B");
    assert_eq!(result.title.credit, None);
    assert_eq!(result.lines, vec![Line::Action(plain("body"), TextAlignment::Left)]);
    assert_eq!(export_fountain(&result), "Title: A\nAuthor: B\n\nbody");
}

#[test]
fn a_first_line_with_two_colons_is_no_title() {
    let result = parse_fountain("a: b: c\n\nbody");
    assert_eq!(result.title, Title::default());
    assert_eq!(result.lines.len(), 3);
}

#[test]
fn a_known_key_does_not_go_to_the_map() {
    let result = parse_fountain("Title: A\nDraft date: today\nNotes: none");
    assert_eq!(result.title.meta.get("Title"), None);
    assert_eq!(result.title.meta.get("Draft date"), None);
    assert_eq!(cleaned_of(&result.title.draft.clone().unwrap()), "today");
    assert_eq!(cleaned_of(result.title.meta.get("Notes").unwrap()), "none");
    assert_eq!(result.lines.len(), 0);
    assert_eq!(export_fountain(&result), "Title: A\nDraft: today");
}

#[test]
fn a_title_value_is_formatted() {
    let result = parse_fountain("Title: A **big** show");
    let title = result.title.title.clone().unwrap();
    assert_eq!(title.len(), 3);
    assert_eq!(title[1].bold, true);
    assert_eq!(export_fountain(&result), "Title: A big show");
}

#[test]
fn a_comment_is_one_line_between_two_actions() {
    let result = parse_fountain("before /* hidden\ntext */ after");
    assert_eq!(
        result.lines,
        vec![
            Line::Action(plain("before"), TextAlignment::Left),
            Line::Boneyard(plain("hidden\ntext")),
            Line::Action(plain("after"), TextAlignment::Left),
        ]
    );
    assert_eq!(export_fountain(&result), "before\n/*\nhidden\ntext\n*/\nafter");
}

#[test]
fn the_text_of_a_comment_is_trimmed() {
    let result = parse_fountain("/*   \n  inner  \n  */");
    assert_eq!(result.lines, vec![Line::Boneyard(plain("inner"))]);
}

#[test]
fn a_comment_without_an_end_runs_to_the_end() {
    let result = parse_fountain("a\n/* b\nc");
    assert_eq!(
        result.lines,
        vec![
            Line::Action(plain("a"), TextAlignment::Left),
            Line::Boneyard(plain("b\nc")),
        ]
    );
}

#[test]
fn a_comment_does_not_change_what_follows_a_heading() {
    let result = parse_fountain("BOB\n/* aside */ hi");
    assert_eq!(result.lines.len(), 3);
    assert!(matches!(&result.lines[1], Line::Boneyard(_)));
    if let Line::CharacterContent(entries) = &result.lines[2] {
        assert_eq!(entries[0].1, CharacterLine::Dialogue);
        assert_eq!(entries[0].2, "BOB");
    } else {
        panic!()
    }
}

#[test]
fn every_kind_of_line_is_told_apart() {
    let empty = Line::Empty;
    let action = Line::Action(plain("x"), TextAlignment::Left);
    assert_eq!(parse_line("   ", &action, ""), (Line::Empty, None));
    assert_eq!(parse_line("====", &action, ""), (Line::PageBreak, None));
    assert_eq!(
        parse_line(">  mid  <", &action, ""),
        (Line::Action(plain("mid"), TextAlignment::Center), None)
    );
    assert_eq!(
        parse_line(". where", &action, ""),
        (Line::SceneHeading(" where".to_owned()), None)
    );
    assert_eq!(
        parse_line("> fade", &action, ""),
        (Line::Transition("fade".to_owned()), None)
    );
    assert_eq!(
        parse_line("CUT TO:", &empty, ""),
        (Line::Transition("CUT TO:".to_owned()), None)
    );
    assert_eq!(
        parse_line("CUT TO:", &action, ""),
        (Line::Action(plain("CUT TO:"), TextAlignment::Left), None)
    );
    assert_eq!(
        parse_line("Cut TO:", &empty, ""),
        (Line::Action(plain("Cut TO:"), TextAlignment::Left), None)
    );
    assert_eq!(
        parse_line("BOB  ^", &empty, "ALICE"),
        (
            Line::CharacterContent(vec![(
                plain("BOB"),
                CharacterLine::CharacterHeading(true),
                "BOB".to_owned()
            )]),
            Some("BOB".to_owned())
        )
    );
    assert_eq!(
        parse_line("Bob", &empty, "ALICE"),
        (Line::Action(plain("Bob"), TextAlignment::Left), None)
    );
    assert_eq!(
        parse_line("~ la", &action, "ALICE"),
        (
            Line::CharacterContent(vec![(plain("la"), CharacterLine::Lyrics, "ALICE".to_owned())]),
            None
        )
    );
    let heading = Line::CharacterContent(vec![(
        plain("ALICE"),
        CharacterLine::CharacterHeading(false),
        "ALICE".to_owned(),
    )]);
    assert_eq!(
        parse_line("(low)", &heading, "ALICE"),
        (
            Line::CharacterContent(vec![(
                plain("(low)"),
                CharacterLine::Parenthetical,
                "ALICE".to_owned()
            )]),
            None
        )
    );
    assert_eq!(
        parse_line("(low", &heading, "ALICE"),
        (
            Line::CharacterContent(vec![(
                plain("(low"),
                CharacterLine::Dialogue,
                "ALICE".to_owned()
            )]),
            None
        )
    );
}

#[test]
fn collapse_and_flatten_are_inverse_on_classified_lines() {
    let heading = Line::CharacterContent(vec![(
        plain("BOB"),
        CharacterLine::CharacterHeading(false),
        "BOB".to_owned(),
    )]);
    let dialogue =
        Line::CharacterContent(vec![(plain("hi"), CharacterLine::Dialogue, "BOB".to_owned())]);
    let flat = vec![
        Line::Action(plain("x"), TextAlignment::Left),
        Line::Empty,
        heading,
        dialogue,
        Line::Empty,
        Line::Empty,
        Line::PageBreak,
    ];
    let blocks = collapse(&flat);
    assert_eq!(blocks.len(), 5);
    assert_eq!(flatten(&blocks), flat);
}

#[test]
fn export_writes_every_kind_of_line() {
    let script = Script {
        title: Title::default(),
        lines: vec![
            Line::CharacterContent(vec![
                (vec![], CharacterLine::CharacterHeading(true), "bob".to_owned()),
                (plain("sings"), CharacterLine::Lyrics, "bob".to_owned()),
                (plain("~sings"), CharacterLine::Lyrics, "bob".to_owned()),
                (plain("low)"), CharacterLine::Parenthetical, "bob".to_owned()),
                (vec![], CharacterLine::Empty, "bob".to_owned()),
            ]),
            Line::Transition("fade to:".to_owned()),
            Line::Transition("fade TO:".to_owned()),
            Line::SceneHeading("est. town".to_owned()),
        ],
    };
    assert_eq!(
        export_fountain(&script),
        "BOB ^\n~sings\n~sings\n(low)\n\n>fade to:\nFADE TO:\nest. town"
    );
}

#[test]
fn the_window_runs_two_places_beyond_the_end() {
    let mut windows = IterPreviousAndNextTwo::create(vec!['a', 'b']);
    assert_eq!(windows.next(), Some((None, None, Some('a'), Some('b'), None)));
    assert_eq!(windows.next(), Some((None, Some('a'), Some('b'), None, None)));
    assert_eq!(windows.next(), Some((Some('a'), Some('b'), None, None, None)));
    assert_eq!(windows.next(), Some((Some('b'), None, None, None, None)));
    assert_eq!(windows.next(), None);
    assert_eq!(windows.next(), None);
    let mut none = IterPreviousAndNextTwo::create(Vec::<char>::new());
    assert_eq!(none.next(), None);
}
