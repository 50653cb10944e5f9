use fountain::collapser::parallel_chunks;
use fountain::display::{
    apply_edit, scene_heading_has_dot, title_alignment, title_elements, transition_has_arrow,
    DisplayMode, FountainEditMsg, TitleAlignment,
};
use fountain::exporter::{all_lines_exportable, export_fountain, try_export_fountain};
use fountain::metadata::Metadata;
use fountain::parser::parse_fountain;
use fountain::types::{Line, LineContent};

fn plain(text: &str) -> Vec<LineContent> {
    vec![LineContent {
        content: text.to_owned(),
        raw_content: text.to_owned(),
        ..Default::default()
    }]
}

#[test]
fn the_modes_show_what_they_should() {
    assert!(DisplayMode::Editor.is_editor());
    assert!(!DisplayMode::Display.is_editor());
    assert!(!DisplayMode::DisplayNotes.is_editor());
    assert!(DisplayMode::Editor.display_notes());
    assert!(DisplayMode::DisplayNotes.display_notes());
    assert!(!DisplayMode::Display.display_notes());
    assert_eq!(DisplayMode::Editor.toggle(), DisplayMode::Display);
    assert_eq!(DisplayMode::Display.toggle(), DisplayMode::Editor);
    assert_eq!(DisplayMode::DisplayNotes.toggle(), DisplayMode::Editor);
}

#[test]
fn a_note_is_hidden_in_the_plain_display() {
    let note = LineContent {
        content: "n".to_owned(),
        raw_content: "[[n]]".to_owned(),
        note: true,
        ..Default::default()
    };
    assert!(!DisplayMode::Display.shows_span(&note));
    assert!(DisplayMode::DisplayNotes.shows_span(&note));
    assert!(DisplayMode::Editor.shows_span(&note));
    assert!(DisplayMode::Display.shows_span(&plain("x")[0]));
    assert_eq!(DisplayMode::Editor.span_text(&note), "[[n]]");
    assert_eq!(DisplayMode::DisplayNotes.span_text(&note), "n");
}

#[test]
fn the_title_page_is_laid_out_in_a_fixed_order() {
    let script = parse_fountain("Contact: me\nTitle: T\nOther: x");
    let elements = title_elements(&script.title);
    let tags: Vec<&str> = elements.iter().map(|e| e.0.as_str()).collect();
    assert_eq!(tags, vec!["Title", "Credit", "Author", "Source", "Draft date", "Contact"]);
    assert_eq!(elements[0].1, plain("T"));
    assert_eq!(elements[1].1, vec![]);
    assert_eq!(elements[5].1, plain("me"));
    assert_eq!(title_alignment("Title"), TitleAlignment::Center);
    assert_eq!(title_alignment("Source"), TitleAlignment::Center);
    assert_eq!(title_alignment("Draft date"), TitleAlignment::Left);
    assert_eq!(title_alignment("Contact"), TitleAlignment::Left);
}

#[test]
fn marks_that_are_written_but_not_kept() {
    assert!(scene_heading_has_dot("A HEADING"));
    assert!(!scene_heading_has_dot(".A HEADING"));
    assert!(!scene_heading_has_dot("ext. garden"));
    assert!(transition_has_arrow("fade"));
    assert!(!transition_has_arrow("> fade"));
    assert!(!transition_has_arrow("CUT TO:"));
}

#[test]
fn an_edit_is_applied() {
    let script = parse_fountain("one\ntwo");
    assert_eq!(apply_edit(&script, &FountainEditMsg::Unchanged), None);
    let edit = FountainEditMsg::ChangedLineElement(1, "three".to_owned());
    let updated = apply_edit(&script, &edit).unwrap();
    assert_eq!(export_fountain(&updated), "one\nthree");
    let edit = FountainEditMsg::ChangedLineElement(2, "three".to_owned());
    assert_eq!(apply_edit(&script, &edit), None);
    let edit = FountainEditMsg::ChangedTitleElement("Title".to_owned(), "T".to_owned());
    let updated = apply_edit(&script, &edit).unwrap();
    assert_eq!(export_fountain(&updated), "Title: T\n\none\ntwo");
}

#[test]
fn a_section_has_no_written_form() {
    let mut script = parse_fountain("one\ntwo");
    assert!(all_lines_exportable(&script.lines));
    assert_eq!(try_export_fountain(&script), Some("one\ntwo".to_owned()));
    script.lines.push(Line::Section("part".to_owned()));
    assert!(!all_lines_exportable(&script.lines));
    assert_eq!(try_export_fountain(&script), None);
    script.lines[2] = Line::Synopsis(plain("what happens"));
    assert_eq!(try_export_fountain(&script), None);
}

#[test]
fn dual_dialogue_has_two_parallel_parts() {
    let script = parse_fountain("CHARACTER\nhi\n\nCHARACTER TWO ^\nhey");
    assert_eq!(script.lines.len(), 1);
    if let Line::CharacterContent(entries) = &script.lines[0] {
        let parts = parallel_chunks(entries);
        assert_eq!(parts.len(), 2);
        assert_eq!(parts[0].len(), 3);
        assert_eq!(parts[1].len(), 2);
        assert_eq!(parts[1][0].2, "CHARACTER TWO");
    } else {
        panic!()
    }
    let script = parse_fountain("CHARACTER\nhi\nthere");
    if let Line::CharacterContent(entries) = &script.lines[0] {
        assert_eq!(parallel_chunks(entries).len(), 1);
    } else {
        panic!()
    }
}

#[test]
fn the_map_holds_one_entry_for_each_key() {
    let mut map = Metadata::new();
    assert_eq!(map.keys(), Vec::<String>::new());
    map.insert("a".to_owned(), plain("1"));
    map.insert("b".to_owned(), plain("2"));
    map.insert("a".to_owned(), plain("3"));
    assert_eq!(map.get("a"), Some(&plain("3")));
    assert_eq!(map.get("b"), Some(&plain("2")));
    assert_eq!(map.get("c"), None);
    let mut keys = map.keys();
    keys.sort();
    assert_eq!(keys, vec!["a".to_owned(), "b".to_owned()]);
    map.remove("a");
    assert!(!map.contains_key("a"));
    assert!(map.contains_key("b"));
    assert_eq!(map.copy(), map);
    map.remove("zzz");
    assert_eq!(map.keys(), vec!["b".to_owned()]);
}

#[test]
fn two_maps_are_equal_whatever_the_order_of_their_entries() {
    let mut one = Metadata::new();
    one.insert("a".to_owned(), plain("1"));
    one.insert("b".to_owned(), plain("2"));
    let mut other = Metadata::new();
    other.insert("b".to_owned(), plain("2"));
    other.insert("a".to_owned(), plain("1"));
    assert_eq!(one, other);
    other.insert("a".to_owned(), plain("3"));
    assert_ne!(one, other);
    other.remove("a");
    assert_ne!(one, other);
    assert_ne!(other, one);
    assert!(other.is_part_of(&one));
    assert!(!one.is_part_of(&other));
}
