use fountain::parser::parse_fountain;
use fountain::types::{CharacterLine, Line, TextAlignment};

#[test]
fn empty_string_returns_empty_document() {
    let result = parse_fountain("");
    assert_eq!(result.title.title, None);
    assert_eq!(result.lines.len(), 0);
}

#[test]
fn when_there_is_title_info_it_is_parsed_first() {
    let result = parse_fountain(
        "Title: test me
        something more
        Credit: Written by
        Author: Someone Special
        Unknown: Unknown?
        
        the actual script starts here",
    );

    assert_eq!(
        result.title.title.unwrap()[0].content,
        "test me\nsomething more"
    );
    assert_eq!(result.title.credit.unwrap()[0].content, "Written by");
    assert_eq!(result.title.author.unwrap()[0].content, "Someone Special");
    assert_eq!(
        result.title.meta.get("Unknown").unwrap()[0].content,
        "Unknown?"
    );
    assert_eq!(result.lines.len(), 1);
    if let Line::Action(line, _) = &result.lines[0] {
        assert_eq!(line[0].content, "the actual script starts here")
    } else {
        assert!(false, "didn't parse line")
    }
}

#[test]
fn defaults_to_action_if_no_other_option_exists() {
    let result = parse_fountain(
        "well hello there
        how are you",
    );
    assert_eq!(result.lines.len(), 2);
    if let Line::Action(line, _) = &result.lines[0] {
        assert_eq!(line[0].content, "well hello there")
    } else {
        assert!(false, "didn't parse line")
    }
    if let Line::Action(line, _) = &result.lines[1] {
        assert_eq!(line[0].content, "how are you")
    } else {
        assert!(false, "didn't parse line")
    }
}

#[test]
fn correctly_parses_scene_heading() {
    let result = parse_fountain(
        ".A HEADING
        INT Other Heading
EXT More Headings
EST Heading 4
INT./EXT Heading 5
INT/EXT Heading 6
I/E Heading 7
int Other Heading
ext More Headings
est Heading 4
int./ext Heading 5
int/ext Heading 6
i/e Heading 7",
    );
    assert_eq!(result.lines.len(), 13);

    if let Line::SceneHeading(line) = &result.lines[0] {
        assert_eq!(line, "A HEADING")
    } else {
        assert!(false, "didn't parse line")
    }

    if let Line::SceneHeading(line) = &result.lines[1] {
        assert_eq!(line, "INT Other Heading")
    } else {
        assert!(false, "didn't parse line")
    }

    if let Line::SceneHeading(line) = &result.lines[2] {
        assert_eq!(line, "EXT More Headings")
    } else {
        assert!(false, "didn't parse line")
    }

    if let Line::SceneHeading(line) = &result.lines[3] {
        assert_eq!(line, "EST Heading 4")
    } else {
        assert!(false, "didn't parse line")
    }

    if let Line::SceneHeading(line) = &result.lines[4] {
        assert_eq!(line, "INT./EXT Heading 5")
    } else {
        assert!(false, "didn't parse line")
    }

    if let Line::SceneHeading(line) = &result.lines[5] {
        assert_eq!(line, "INT/EXT Heading 6")
    } else {
        assert!(false, "didn't parse line")
    }

    if let Line::SceneHeading(line) = &result.lines[6] {
        assert_eq!(line, "I/E Heading 7")
    } else {
        assert!(false, "didn't parse line")
    }

    if let Line::SceneHeading(line) = &result.lines[7] {
        assert_eq!(line, "int Other Heading")
    } else {
        assert!(false, "didn't parse line")
    }

    if let Line::SceneHeading(line) = &result.lines[8] {
        assert_eq!(line, "ext More Headings")
    } else {
        assert!(false, "didn't parse line")
    }

    if let Line::SceneHeading(line) = &result.lines[9] {
        assert_eq!(line, "est Heading 4")
    } else {
        assert!(false, "didn't parse line")
    }

    if let Line::SceneHeading(line) = &result.lines[10] {
        assert_eq!(line, "int./ext Heading 5")
    } else {
        assert!(false, "didn't parse line")
    }

    if let Line::SceneHeading(line) = &result.lines[11] {
        assert_eq!(line, "int/ext Heading 6")
    } else {
        assert!(false, "didn't parse line")
    }

    if let Line::SceneHeading(line) = &result.lines[12] {
        assert_eq!(line, "i/e Heading 7")
    } else {
        assert!(false, "didn't parse line")
    }
}

#[test]
fn correctly_parses_character_names() {
    let result = parse_fountain(
        "some scene setting
            THIS IS NOT A CHARACTER
            
            THIS IS A CHARACTER
            testing some dialogue and shit",
    );
    // The heading and the dialogue under it are one block.
    assert_eq!(result.lines.len(), 4);
    if let Line::Action(line, _) = &result.lines[1] {
        assert_eq!(line[0].content, "THIS IS NOT A CHARACTER")
    } else {
        assert!(false, "didn't parse line")
    }
    if let Line::CharacterContent(entries) = &result.lines[3] {
        assert_eq!(entries.len(), 2);
        let (_, line_type, character) = &entries[0];
        assert_eq!(character, "THIS IS A CHARACTER");
        assert_eq!(line_type, &CharacterLine::CharacterHeading(false));
        let (line, line_type, character) = &entries[1];
        assert_eq!(line[0].content, "testing some dialogue and shit");
        assert_eq!(character, "THIS IS A CHARACTER");
        assert_eq!(line_type, &CharacterLine::Dialogue);
    } else {
        panic!()
    }
}

#[test]
fn correctly_parses_character_names_with_dual() {
    let result = parse_fountain(
        "some scene setting
            THIS IS NOT A CHARACTER
            
            THIS IS A CHARACTER ^
            testing some dialogue and shit",
    );
    assert_eq!(result.lines.len(), 4);
    if let Line::Action(line, _) = &result.lines[1] {
        assert_eq!(line[0].content, "THIS IS NOT A CHARACTER")
    } else {
        assert!(false, "didn't parse line")
    }
    if let Line::CharacterContent(entries) = &result.lines[3] {
        assert_eq!(entries.len(), 2);
        let (_, line_type, character) = &entries[0];
        assert_eq!(character, "THIS IS A CHARACTER");
        assert_eq!(line_type, &CharacterLine::CharacterHeading(true));
        let (line, line_type, character) = &entries[1];
        assert_eq!(line[0].content, "testing some dialogue and shit");
        assert_eq!(character, "THIS IS A CHARACTER");
        assert_eq!(line_type, &CharacterLine::Dialogue);
    } else {
        panic!()
    }
}

#[test]
fn correctly_parses_character_names_when_there_is_a_title() {
    let result = parse_fountain(
        "Title: WHAT
            
            some scene setting
            THIS IS NOT A CHARACTER
            
            THIS IS A CHARACTER
            testing some dialogue and shit",
    );
    assert_eq!(result.lines.len(), 4);
    if let Line::Action(line, _) = &result.lines[1] {
        assert_eq!(line[0].content, "THIS IS NOT A CHARACTER")
    } else {
        assert!(false, "didn't parse line")
    }
    if let Line::CharacterContent(entries) = &result.lines[3] {
        assert_eq!(entries.len(), 2);
        let (_, line_type, character) = &entries[0];
        assert_eq!(character, "THIS IS A CHARACTER");
        assert_eq!(line_type, &CharacterLine::CharacterHeading(false));
        let (line, line_type, character) = &entries[1];
        assert_eq!(line[0].content, "testing some dialogue and shit");
        assert_eq!(character, "THIS IS A CHARACTER");
        assert_eq!(line_type, &CharacterLine::Dialogue);
    } else {
        panic!()
    }
}

#[test]
fn correctly_parses_dialog() {
    let result = parse_fountain(
        "Title: WHAT
            
            CHARACTER
            I am talking now...",
    );
    assert_eq!(result.lines.len(), 1);
    if let Line::CharacterContent(entries) = &result.lines[0] {
        assert_eq!(entries.len(), 2);
        let (line, line_type, character) = &entries[1];
        assert_eq!(line[0].content, "I am talking now...");
        assert_eq!(character, "CHARACTER");
        assert_eq!(line_type, &CharacterLine::Dialogue);
    } else {
        panic!()
    }
}

#[test]
fn correctly_parses_parenthetical() {
    let result = parse_fountain(
        "Title: WHAT
            
            CHARACTER
            (to everyone)
            I am talking now!
            (aside)
            I think...
            
            and an action",
    );
    // One block of six entries, the blank line after it included, and
    // the action.
    assert_eq!(result.lines.len(), 2);
    if let Line::CharacterContent(entries) = &result.lines[0] {
        assert_eq!(entries.len(), 6);
        let (line, line_type, character) = &entries[1];
        assert_eq!(line[0].content, "(to everyone)");
        assert_eq!(character, "CHARACTER");
        assert_eq!(line_type, &CharacterLine::Parenthetical);
        let (line, line_type, character) = &entries[2];
        assert_eq!(line[0].content, "I am talking now!");
        assert_eq!(character, "CHARACTER");
        assert_eq!(line_type, &CharacterLine::Dialogue);
        let (line, line_type, character) = &entries[3];
        assert_eq!(line[0].content, "(aside)");
        assert_eq!(character, "CHARACTER");
        assert_eq!(line_type, &CharacterLine::Parenthetical);
        let (line, line_type, character) = &entries[4];
        assert_eq!(line[0].content, "I think...");
        assert_eq!(character, "CHARACTER");
        assert_eq!(line_type, &CharacterLine::Dialogue);
        let (line, line_type, character) = &entries[5];
        assert_eq!(line.len(), 0);
        assert_eq!(character, "CHARACTER");
        assert_eq!(line_type, &CharacterLine::Empty);
    } else {
        panic!()
    }

    if let Line::Action(line, _) = &result.lines[1] {
        assert_eq!(line[0].content, "and an action");
    } else {
        assert!(false, "didn't parse line");
    }
}

#[test]
fn correctly_parse_lyrics() {
    let result = parse_fountain(
        "CHARACTER
        ~ part of a song",
    );
    assert_eq!(result.lines.len(), 1);
    if let Line::CharacterContent(entries) = &result.lines[0] {
        assert_eq!(entries.len(), 2);
        let (line, line_type, character) = &entries[1];
        assert_eq!(line[0].content, "part of a song");
        assert_eq!(character, "CHARACTER");
        assert_eq!(line_type, &CharacterLine::Lyrics);
    } else {
        panic!()
    }
}

#[test]
fn correctly_parse_transitions() {
    let result = parse_fountain(
        "some action

        CUT TO:
        
        another action
        
        > Another transition
        
        wow",
    );

    assert_eq!(result.lines.len(), 9);
    if let Line::Transition(line) = &result.lines[2] {
        assert_eq!(line, "CUT TO:");
    } else {
        assert!(false, "didn't parse line");
    }
    if let Line::Transition(line) = &result.lines[6] {
        assert_eq!(line, "Another transition");
    } else {
        assert!(false, "didn't parse line");
    }
}

#[test]
fn correctly_parse_centered_text() {
    let result = parse_fountain("> HEY THERE <");
    assert_eq!(result.lines.len(), 1);
    if let Line::Action(line, centered) = &result.lines[0] {
        assert_eq!(line[0].content, "HEY THERE");
        assert_eq!(centered, &TextAlignment::Center);
    } else {
        assert!(false, "didn't parse line");
    }
}

#[test]
fn correctly_parse_page_breaks() {
    let result = parse_fountain("===");
    assert_eq!(result.lines.len(), 1);
    if let Line::PageBreak = &result.lines[0] {
        assert!(true);
    } else {
        assert!(false, "didn't parse line");
    }
}

#[test]
fn can_parse_the_boneyard() {
    let result = parse_fountain(
        "testing /* wehawe
            wthawet
            wtrwat */ something",
    );

    assert_eq!(result.lines.len(), 3);
    if let Line::Action(line, _) = &result.lines[0] {
        assert_eq!(line[0].content, "testing");
    } else {
        assert!(false, "didn't parse line");
    }
    if let Line::Action(line, _) = &result.lines[2] {
        assert_eq!(line[0].content, "something");
    } else {
        assert!(false, "didn't parse line");
    }
    if let Line::Boneyard(line) = &result.lines[1] {
        assert_eq!(
            line[0].content,
            "wehawe
            wthawet
            wtrwat"
        );
    } else {
        assert!(false, "didn't parse line");
    }
}
