use fountain::exporter::export_fountain;
use fountain::parser::parse_fountain;
use fountain::types::{CharacterLine, Line, LineContent, TextAlignment};

fn plain(text: &str) -> Vec<LineContent> {
    vec![LineContent {
        content: text.to_owned(),
        raw_content: text.to_owned(),
        ..Default::default()
    }]
}

#[test]
fn a_title_field_is_set_and_taken_away() {
    let script = parse_fountain("Title: A\n\nbody");
    let updated = script.update_title_element("Author", "Me".to_owned());
    assert_eq!(updated.title.author, Some(plain("Me")));
    assert_eq!(updated.lines, script.lines);
    assert_eq!(export_fountain(&updated), "Title: A\nAuthor: Me\n\nbody");
    let updated = updated.update_title_element("Title", String::new());
    assert_eq!(updated.title.title, None);
    assert_eq!(export_fountain(&updated), "Author: Me\n\nbody");
    assert_eq!(script.title.author, None);
}

#[test]
fn an_unknown_tag_goes_to_the_map() {
    let script = parse_fountain("body");
    let updated = script.update_title_element("Notes", "first".to_owned());
    assert_eq!(updated.title.meta.get("Notes"), Some(&plain("first")));
    let updated = updated.update_title_element("Notes", "second".to_owned());
    assert_eq!(updated.title.meta.get("Notes"), Some(&plain("second")));
    let updated = updated.update_title_element("Notes", String::new());
    assert_eq!(updated.title.meta.get("Notes"), None);
    assert!(!updated.title.meta.contains_key("Notes"));
}

#[test]
fn a_title_field_is_formatted_anew() {
    let script = parse_fountain("body");
    let updated = script.update_title_element("Draft date", "_now_".to_owned());
    let draft = updated.title.draft.unwrap();
    assert_eq!(draft.len(), 2);
    assert_eq!(draft[1].underline, true);
    assert_eq!(draft[1].content, "now");
}

#[test]
fn a_line_is_replaced() {
    let script = parse_fountain("one\ntwo\nthree");
    let updated = script.update_line(1, "2");
    assert_eq!(export_fountain(&updated), "one\n2\nthree");
    assert_eq!(export_fountain(&script), "one\ntwo\nthree");
}

#[test]
fn a_line_is_replaced_by_several() {
    let script = parse_fountain("one\ntwo\nthree");
    let updated = script.update_line(1, "a\nb\nc");
    assert_eq!(updated.lines.len(), 5);
    assert_eq!(export_fountain(&updated), "one\na\nb\nc\nthree");
}

#[test]
fn a_blank_text_takes_the_line_away() {
    let script = parse_fountain("one\ntwo\nthree");
    let updated = script.update_line(1, "  ");
    assert_eq!(export_fountain(&updated), "one\nthree");
    let updated = script.update_line(2, "");
    assert_eq!(export_fountain(&updated), "one\ntwo");
    let updated = script.update_line(1, "\n ");
    assert_eq!(export_fountain(&updated), "one\n\n\nthree");
}

#[test]
fn a_new_heading_turns_the_next_line_into_dialogue() {
    let script = parse_fountain("one\n\ntwo\nthree\n\nfour");
    assert_eq!(script.lines.len(), 6);
    let updated = script.update_line(2, "BOB");
    assert_eq!(
        updated.lines,
        vec![
            Line::Action(plain("one"), TextAlignment::Left),
            Line::Empty,
            Line::CharacterContent(vec![
                (plain("BOB"), CharacterLine::CharacterHeading(false), "BOB".to_owned()),
                (plain("three"), CharacterLine::Dialogue, "BOB".to_owned()),
                (vec![], CharacterLine::Empty, "BOB".to_owned()),
            ]),
            Line::Action(plain("four"), TextAlignment::Left),
        ]
    );
}

#[test]
fn a_heading_turned_into_action_frees_its_dialogue() {
    let script = parse_fountain("start\n\nBOB\nhi\nthere\n===");
    assert_eq!(script.lines.len(), 4);
    let updated = script.update_line(1, "Bob says");
    assert_eq!(
        updated.lines,
        vec![
            Line::Action(plain("start"), TextAlignment::Left),
            Line::Action(plain("Bob says"), TextAlignment::Left),
            Line::Action(plain("BOB"), TextAlignment::Left),
            Line::Action(plain("hi"), TextAlignment::Left),
            Line::Action(plain("there"), TextAlignment::Left),
            Line::PageBreak,
        ]
    );
}

#[test]
fn a_block_is_replaced_as_a_whole() {
    let script = parse_fountain("start\n\nBOB\nhi\n\nend");
    assert_eq!(script.lines.len(), 4);
    let updated = script.update_line(2, "ALICE\nhello");
    assert_eq!(export_fountain(&updated), "start\n\nALICE\nhello\nend");
}

#[test]
fn the_lines_before_give_the_state() {
    let script = parse_fountain("BOB\nhi\nthere");
    let updated = script.update_line(0, "BOB\nhi\n~ la");
    assert_eq!(
        updated.lines,
        vec![Line::CharacterContent(vec![
            (plain("BOB"), CharacterLine::CharacterHeading(false), "BOB".to_owned()),
            (plain("hi"), CharacterLine::Dialogue, "BOB".to_owned()),
            (plain("la"), CharacterLine::Lyrics, "BOB".to_owned()),
        ])]
    );
    let script = parse_fountain("BOB\nhi\n\nwalks\nx");
    let updated = script.update_line(2, "~ la");
    assert_eq!(export_fountain(&updated), "BOB\nhi\n\nwalks\n~la");
    if let Line::CharacterContent(entries) = &updated.lines[2] {
        assert_eq!(entries[0].2, "BOB");
    } else {
        panic!()
    }
}

#[test]
fn a_comment_behind_the_line_stays() {
    let script = parse_fountain("one\n\ntwo\n/* note */ three");
    let updated = script.update_line(2, "BOB");
    assert_eq!(export_fountain(&updated), "one\n\nBOB\n/*\nnote\n*/\nthree");
    assert!(matches!(&updated.lines[3], Line::Boneyard(_)));
    if let Line::CharacterContent(entries) = &updated.lines[4] {
        assert_eq!(entries[0].1, CharacterLine::Dialogue);
    } else {
        panic!()
    }
}

#[test]
fn a_line_without_a_written_form_ends_the_reading() {
    let mut script = parse_fountain("one\n\ntwo\nthree\nfour");
    script.lines[3] = Line::Section("part".to_owned());
    let updated = script.update_line(2, "BOB");
    assert_eq!(updated.lines[3], Line::Section("part".to_owned()));
    assert_eq!(updated.lines[4], Line::Action(plain("four"), TextAlignment::Left));
}
