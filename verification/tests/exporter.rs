use fountain::exporter::export_fountain;
use fountain::types::{CharacterLine, Line, LineContent, Script, TextAlignment, Title};

fn raw(text: &str) -> Vec<LineContent> {
    vec![LineContent { raw_content: text.to_owned(), ..Default::default() }]
}

fn character_line(text: &str, kind: CharacterLine, character: &str) -> Line {
    Line::CharacterContent(vec![(raw(text), kind, character.to_owned())])
}

#[test]
fn empty_script_results_in_empty_fountain() {
    let script = Script {
        title: Title::default(),
        lines: vec![],
    };

    let result = export_fountain(&script);

    assert_eq!("", result);
}

#[test]
fn when_there_is_a_title_it_is_added_to_the_script() {
    let script = Script {
        title: Title {
            title: Some(vec![LineContent {
                content: "A Show".to_owned(),
                ..Default::default()
            }]),
            credit: Some(vec![LineContent {
                content: "written by".to_owned(),
                ..Default::default()
            }]),
            author: Some(vec![LineContent {
                content: "An author".to_owned(),
                ..Default::default()
            }]),
            ..Default::default()
        },
        lines: vec![],
    };

    let result = export_fountain(&script);

    assert_eq!(
        "Title: A Show
Credit: written by
Author: An author",
        result
    );
}

#[test]
fn exports_action_lines() {
    let script = Script {
        title: Title::default(),
        lines: vec![Line::Action(raw("test me"), TextAlignment::Left)],
    };

    let result = export_fountain(&script);

    assert_eq!("test me", result);
}

#[test]
fn exports_centered_action_lines() {
    let script = Script {
        title: Title::default(),
        lines: vec![Line::Action(raw("test me"), TextAlignment::Center)],
    };

    let result = export_fountain(&script);

    assert_eq!("> test me <", result);
}

#[test]
fn exports_empty_lines() {
    let script = Script {
        title: Title::default(),
        lines: vec![
            Line::Action(raw("line"), TextAlignment::Left),
            Line::Empty,
            Line::Action(raw("line 2"), TextAlignment::Left),
        ],
    };

    let result = export_fountain(&script);

    assert_eq!(
        "line

line 2",
        result
    );
}

#[test]
fn exports_scene_headings() {
    let script = Script {
        title: Title::default(),
        lines: vec![
            Line::SceneHeading("Scene 1".to_owned()),
            Line::SceneHeading(".Scene 2".to_owned()),
            Line::SceneHeading("INT Scene 3".to_owned()),
        ],
    };

    let result = export_fountain(&script);

    assert_eq!(
        ".Scene 1
.Scene 2
INT Scene 3",
        result
    );
}

#[test]
fn exports_page_breaks() {
    let script = Script {
        title: Title::default(),
        lines: vec![
            Line::Action(raw("line"), TextAlignment::Left),
            Line::PageBreak,
            Line::Action(raw("line 2"), TextAlignment::Left),
        ],
    };

    let result = export_fountain(&script);

    assert_eq!(
        "line
===
line 2",
        result
    );
}

#[test]
fn exports_transitions() {
    let script = Script {
        title: Title::default(),
        lines: vec![
            Line::Transition("Scene 1".to_owned()),
            Line::Transition("> Scene 2".to_owned()),
            Line::Transition("Scene 3 TO:".to_owned()),
        ],
    };

    let result = export_fountain(&script);

    assert_eq!(
        ">Scene 1
> Scene 2
SCENE 3 TO:",
        result
    );
}

#[test]
fn exports_boneyard() {
    let script = Script {
        title: Title::default(),
        lines: vec![Line::Boneyard(raw("some content"))],
    };

    let result = export_fountain(&script);

    assert_eq!(
        "/*
some content
*/",
        result
    );
}

#[test]
fn exports_character_heading() {
    let script = Script {
        title: Title::default(),
        lines: vec![
            character_line("Character", CharacterLine::CharacterHeading(false), "CHARACTER"),
            Line::Empty,
            character_line("Character", CharacterLine::CharacterHeading(true), "CHARACTER"),
        ],
    };

    let result = export_fountain(&script);

    assert_eq!("CHARACTER\n\nCHARACTER ^", result);
}

#[test]
fn exports_dialogue() {
    let script = Script {
        title: Title::default(),
        lines: vec![character_line("dialogue", CharacterLine::Dialogue, "CHARACTER")],
    };

    let result = export_fountain(&script);

    assert_eq!("dialogue", result);
}

#[test]
fn exports_parentheticals() {
    let script = Script {
        title: Title::default(),
        lines: vec![
            character_line("parens", CharacterLine::Parenthetical, "CHARACTER"),
            character_line("(parens)", CharacterLine::Parenthetical, "CHARACTER"),
        ],
    };

    let result = export_fountain(&script);

    assert_eq!("(parens)\n(parens)", result);
}

#[test]
fn exports_lyrics() {
    let script = Script {
        title: Title::default(),
        lines: vec![character_line("lyrics", CharacterLine::Lyrics, "CHARACTER")],
    };

    let result = export_fountain(&script);

    assert_eq!("~lyrics", result);
}
