use fountain::text::{
    chars_of, count_char, ends_with, find_char, is_whitespace, split_lines, split_pair,
    starts_with, starts_with_ignore_case, subvec, to_ascii_upper, trim,
};

fn chars(s: &str) -> Vec<char> {
    s.chars().collect()
}

fn text(v: &Vec<char>) -> String {
    v.iter().collect()
}

#[test]
fn white_space_is_what_the_standard_library_says() {
    let mut n: u32 = 0;
    while n <= 0x10FFFF {
        if let Some(c) = char::from_u32(n) {
            assert_eq!(is_whitespace(c), c.is_whitespace(), "code point {:x}", n);
        }
        n += 1;
    }
}

#[test]
fn ascii_letters_are_raised() {
    let mut n: u32 = 0;
    while n <= 0x10FFFF {
        if let Some(c) = char::from_u32(n) {
            assert_eq!(to_ascii_upper(c), c.to_ascii_uppercase(), "code point {:x}", n);
        }
        n += 1;
    }
}

#[test]
fn chars_of_gives_the_characters() {
    assert_eq!(chars_of(""), Vec::<char>::new());
    assert_eq!(chars_of("a\u{e9}\u{1F600}z"), vec!['a', '\u{e9}', '\u{1F600}', 'z']);
}

#[test]
fn trim_takes_white_space_from_both_ends() {
    let samples = [
        "",
        " ",
        "a",
        "  a b  ",
        "\t\r\n x \u{a0}\u{3000}",
        "\u{2003}y",
        "no space",
        " \n ",
    ];
    for s in samples {
        assert_eq!(text(&trim(&chars(s))), s.trim(), "sample {:?}", s);
    }
}

#[test]
fn lines_are_split_at_line_feeds() {
    let samples = [
        "",
        "a",
        "a\n",
        "a\nb",
        "a\n\nb",
        "\n",
        "\n\n",
        "a\r\nb\r\n",
        "a\rb",
        "a\r",
        "\r\n",
        "a\r\r\nb",
        "last\n ",
    ];
    for s in samples {
        let expected: Vec<String> = s.lines().map(|l| l.to_owned()).collect();
        let got: Vec<String> = split_lines(&chars(s)).iter().map(text).collect();
        assert_eq!(got, expected, "sample {:?}", s);
    }
}

#[test]
fn a_text_is_split_at_a_pair() {
    let samples = ["", "/*", "a/*b", "a/*b/*c", "/*/*", "/", "a/ *b", "//**", "*/*"];
    for s in samples {
        let expected: Vec<String> = s.split("/*").map(|l| l.to_owned()).collect();
        let got: Vec<String> = split_pair(&chars(s), '/', '*').iter().map(text).collect();
        assert_eq!(got, expected, "sample {:?}", s);
    }
}

#[test]
fn prefixes_and_suffixes_are_found() {
    assert!(starts_with(&chars("===="), "==="));
    assert!(!starts_with(&chars("=="), "==="));
    assert!(starts_with(&chars("abc"), ""));
    assert!(ends_with(&chars("CUT TO:"), "TO:"));
    assert!(!ends_with(&chars("CUT TO: "), "TO:"));
    assert!(!ends_with(&chars("O:"), "TO:"));
    assert!(starts_with_ignore_case(&chars("iNt. here"), "INT"));
    assert!(starts_with_ignore_case(&chars("i/e"), "I/E"));
    assert!(!starts_with_ignore_case(&chars("in"), "INT"));
    assert!(!starts_with_ignore_case(&chars("1NT"), "INT"));
}

#[test]
fn characters_are_counted_and_found() {
    assert_eq!(count_char(&chars("a: b: c"), ':'), 2);
    assert_eq!(count_char(&chars(""), ':'), 0);
    assert_eq!(find_char(&chars("key: value"), ':'), 3);
    assert_eq!(find_char(&chars("none"), ':'), 4);
    assert_eq!(subvec(&chars("abcdef"), 2, 4), vec!['c', 'd']);
}
