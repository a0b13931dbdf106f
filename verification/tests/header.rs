use knowledge::header::{chars_of, get_yaml_header, is_delimiter_line, read_line, ParseError};
use knowledge::yaml::{meta_from_fields, yaml_to_meta, Fields};

#[test]
fn yaml_to_meta_basic() {
    let yaml = "title: my cool title
tags:
    - rust
    - programming languages
";

    assert_eq!(
        yaml_to_meta(&yaml),
        Ok((
            String::from("my cool title"),
            vec!["rust".into(), "programming languages".into()]
        ))
    );
}

#[test]
fn get_yaml_header_basic() {
    let yaml = "---
salut
---
rest
";

    assert_eq!(get_yaml_header(yaml), Ok("salut\n".to_string()));
}

#[test]
fn header_of_several_lines() {
    let text = "---\ntitle: a\ntags:\n  - x\n---\nbody\n---\nmore\n";
    assert_eq!(
        get_yaml_header(text),
        Ok("title: a\ntags:\n  - x\n".to_string())
    );
}

#[test]
fn empty_header() {
    assert_eq!(get_yaml_header("---\n---\n"), Ok(String::new()));
    assert_eq!(get_yaml_header("---\n---"), Ok(String::new()));
}

#[test]
fn missing_opening_delimiter() {
    assert_eq!(get_yaml_header(""), Err(ParseError::NoOpeningDelimiter));
    assert_eq!(
        get_yaml_header("title: a\n---\n"),
        Err(ParseError::NoOpeningDelimiter)
    );
    assert_eq!(
        get_yaml_header("\n---\ntitle: a\n---\n"),
        Err(ParseError::NoOpeningDelimiter)
    );
    assert_eq!(
        get_yaml_header("----\ntitle: a\n---\n"),
        Err(ParseError::NoOpeningDelimiter)
    );
    assert_eq!(
        get_yaml_header("- - -\ntitle: a\n---\n"),
        Err(ParseError::NoOpeningDelimiter)
    );
}

#[test]
fn missing_closing_delimiter() {
    assert_eq!(get_yaml_header("---"), Err(ParseError::NoClosingDelimiter));
    assert_eq!(get_yaml_header("---\n"), Err(ParseError::NoClosingDelimiter));
    assert_eq!(
        get_yaml_header("---\ntitle: a\ntags: []\n"),
        Err(ParseError::NoClosingDelimiter)
    );
    assert_eq!(
        get_yaml_header("---\ntitle: a\n--\n"),
        Err(ParseError::NoClosingDelimiter)
    );
}

#[test]
fn white_space_around_a_delimiter_is_ignored() {
    assert_eq!(
        get_yaml_header("  ---\t\ntitle: a\n\t--- \nbody"),
        Ok("title: a\n".to_string())
    );
    assert_eq!(
        get_yaml_header("\u{a0}---\u{2003}\nx\n---"),
        Ok("x\n".to_string())
    );
}

#[test]
fn carriage_returns_before_line_feeds_are_dropped() {
    assert_eq!(
        get_yaml_header("---\r\ntitle: a\r\ntags: []\r\n---\r\nbody\r\n"),
        Ok("title: a\ntags: []\n".to_string())
    );
    // a carriage return inside a line stays
    assert_eq!(
        get_yaml_header("---\na\rb\n---\n"),
        Ok("a\rb\n".to_string())
    );
}

#[test]
fn characters_beyond_ascii_pass_through() {
    assert_eq!(
        get_yaml_header("---\ntitle: 你好 – été\n---\n"),
        Ok("title: 你好 – été\n".to_string())
    );
    assert_eq!(vec!['é', '你', 'a'], chars_of("é你a"));
}

#[test]
fn lines_are_read_one_by_one() {
    let text = chars_of("ab\r\n\ncd");
    assert_eq!((vec!['a', 'b'], 4), read_line(&text, 0));
    assert_eq!((vec![], 5), read_line(&text, 4));
    assert_eq!((vec!['c', 'd'], 7), read_line(&text, 5));
    // without a line feed after it, a carriage return belongs to the line
    let text = chars_of("ab\r");
    assert_eq!((vec!['a', 'b', '\r'], 3), read_line(&text, 0));
}

#[test]
fn delimiter_lines() {
    assert!(is_delimiter_line(&chars_of("---")));
    assert!(is_delimiter_line(&chars_of(" --- ")));
    assert!(is_delimiter_line(&chars_of("---\r")));
    assert!(!is_delimiter_line(&chars_of("")));
    assert!(!is_delimiter_line(&chars_of("   ")));
    assert!(!is_delimiter_line(&chars_of("--")));
    assert!(!is_delimiter_line(&chars_of("----")));
    assert!(!is_delimiter_line(&chars_of("-- -")));
    assert!(!is_delimiter_line(&chars_of("--- a")));
    assert!(!is_delimiter_line(&chars_of("a ---")));
    assert!(!is_delimiter_line(&chars_of("===")));
}

#[test]
fn yaml_that_does_not_parse() {
    assert_eq!(yaml_to_meta("title: [a"), Err(ParseError::InvalidYaml));
    assert_eq!(yaml_to_meta("a: b: c: d"), Err(ParseError::InvalidYaml));
}

#[test]
fn yaml_without_a_document() {
    assert_eq!(yaml_to_meta(""), Err(ParseError::NoDocument));
}

#[test]
fn yaml_without_a_title() {
    assert_eq!(yaml_to_meta("tags:\n  - a\n"), Err(ParseError::NoTitle));
    assert_eq!(yaml_to_meta("salut\n"), Err(ParseError::NoTitle));
    assert_eq!(yaml_to_meta("- title\n- tags\n"), Err(ParseError::NoTitle));
    // a title must be a string
    assert_eq!(yaml_to_meta("title: 12\n"), Err(ParseError::NoTitle));
    assert_eq!(yaml_to_meta("title:\n  - a\n"), Err(ParseError::NoTitle));
    assert_eq!(yaml_to_meta("Title: a\n"), Err(ParseError::NoTitle));
}

#[test]
fn tags_default_to_none() {
    let none: Vec<String> = vec![];
    assert_eq!(yaml_to_meta("title: a\n"), Ok(("a".to_string(), none.clone())));
    assert_eq!(
        yaml_to_meta("title: a\ntags: b\n"),
        Ok(("a".to_string(), none.clone()))
    );
    assert_eq!(
        yaml_to_meta("title: a\ntags: []\n"),
        Ok(("a".to_string(), none.clone()))
    );
    assert_eq!(
        yaml_to_meta("title: a\ntags:\n  x: y\n"),
        Ok(("a".to_string(), none))
    );
}

#[test]
fn tags_that_are_no_strings_are_passed_over() {
    assert_eq!(
        yaml_to_meta("title: a\ntags: [x, 1, y, true, [z], \"2\"]\n"),
        Ok((
            "a".to_string(),
            vec!["x".to_string(), "y".to_string(), "2".to_string()]
        ))
    );
}

#[test]
fn only_the_first_document_counts() {
    assert_eq!(
        yaml_to_meta("title: a\ntags: [x]\n---\ntitle: b\ntags: [y]\n"),
        Ok(("a".to_string(), vec!["x".to_string()]))
    );
}

#[test]
fn metadata_from_fields() {
    let none: Vec<String> = vec![];
    assert_eq!(meta_from_fields(&vec![]), Err(ParseError::NoDocument));
    assert_eq!(
        meta_from_fields(&vec![Fields {
            text: None,
            list: Some(vec![Some("x".to_string())])
        }]),
        Err(ParseError::NoTitle)
    );
    assert_eq!(
        meta_from_fields(&vec![Fields {
            text: Some("t".to_string()),
            list: None
        }]),
        Ok(("t".to_string(), none))
    );
    assert_eq!(
        meta_from_fields(&vec![
            Fields {
                text: Some("t".to_string()),
                list: Some(vec![
                    Some("x".to_string()),
                    None,
                    Some("y".to_string()),
                    Some("x".to_string())
                ])
            },
            Fields {
                text: Some("u".to_string()),
                list: None
            }
        ]),
        Ok((
            "t".to_string(),
            vec!["x".to_string(), "y".to_string(), "x".to_string()]
        ))
    );
}
