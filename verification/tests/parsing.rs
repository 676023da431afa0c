use tag_parser::{parse_groups, Group, ParseError, TagParser};

fn names(groups: &[Group]) -> Vec<&str> {
    groups.iter().map(|group| group.name.as_str()).collect()
}

fn tags(group: &Group) -> Vec<&str> {
    group.tags.iter().map(|tag| tag.as_str()).collect()
}

#[test]
fn two_headers_give_two_groups() {
    let groups = parse_groups("[A]\nx\n[B]\ny\n").unwrap();
    assert_eq!(groups.len(), 2);
    assert_eq!(groups[0].name, "A");
    assert_eq!(tags(&groups[0]), vec!["x"]);
    assert_eq!(groups[1].name, "B");
    assert_eq!(tags(&groups[1]), vec!["y"]);
}

#[test]
fn as_many_groups_as_headers() {
    let groups = parse_groups("[A]\n[B]\nx\n[C]\ny\nz\n[D]\n[E]").unwrap();
    assert_eq!(names(&groups), vec!["A", "B", "C", "D", "E"]);
}

#[test]
fn no_header_gives_one_unnamed_group() {
    let groups = parse_groups("one\ntwo\n# three\n").unwrap();
    assert_eq!(groups.len(), 1);
    assert_eq!(groups[0].name, "");
    assert!(groups[0].tags.is_empty());
}

#[test]
fn empty_text_gives_one_unnamed_group() {
    let groups = parse_groups("").unwrap();
    assert_eq!(groups.len(), 1);
    assert_eq!(groups[0].name, "");
    assert!(groups[0].tags.is_empty());
}

#[test]
fn new_does_not_parse() {
    let parser = TagParser::new(String::from("[A]\nx\n"));
    assert!(parser.groups().is_empty());
}

#[test]
fn parse_after_new() {
    let mut parser = TagParser::new(String::from("[A]\nx\n"));
    assert_eq!(parser.parse(), Ok(()));
    assert_eq!(names(parser.groups()), vec!["A"]);
    assert_eq!(tags(&parser.groups()[0]), vec!["x"]);
}

#[test]
fn parsing_twice_appends_the_groups_again() {
    let mut parser = TagParser::new(String::from("[A]\nx\n[B]\n"));
    assert_eq!(parser.parse(), Ok(()));
    assert_eq!(names(parser.groups()), vec!["A", "B"]);
    assert_eq!(parser.parse(), Ok(()));
    assert_eq!(names(parser.groups()), vec!["A", "B", "A", "B"]);
    assert_eq!(tags(&parser.groups()[2]), vec!["x"]);
    assert!(parser.groups()[3].tags.is_empty());
}

#[test]
fn parsing_again_after_from_appends() {
    let mut parser = TagParser::from("[A]\nx\n");
    assert_eq!(parser.groups().len(), 1);
    assert_eq!(parser.parse(), Ok(()));
    assert_eq!(names(parser.groups()), vec!["A", "A"]);
}

#[test]
fn orphan_tags_are_dropped() {
    let groups = parse_groups("loose\n[A]\nx\n").unwrap();
    assert_eq!(groups.len(), 1);
    assert_eq!(groups[0].name, "A");
    assert_eq!(tags(&groups[0]), vec!["x"]);
    for group in groups.iter() {
        assert_ne!(group.name, "loose");
        assert!(!group.tags.iter().any(|tag| tag == "loose"));
    }
}

#[test]
fn orphans_change_nothing() {
    let with = parse_groups("loose\n# note\n\nmore loose\n[A]\nx\n[B]\n").unwrap();
    let without = parse_groups("[A]\nx\n[B]\n").unwrap();
    assert_eq!(names(&with), names(&without));
    assert_eq!(tags(&with[0]), tags(&without[0]));
    assert_eq!(tags(&with[1]), tags(&without[1]));
}

#[test]
fn inline_comment_is_stripped() {
    let groups = parse_groups("[A]\ntag # note").unwrap();
    assert_eq!(tags(&groups[0]), vec!["tag"]);
}

#[test]
fn inline_comment_is_stripped_from_header() {
    let groups = parse_groups("[A]   # the first group\nx\n").unwrap();
    assert_eq!(names(&groups), vec!["A"]);
    assert_eq!(tags(&groups[0]), vec!["x"]);
}

#[test]
fn comment_starts_at_the_first_hash() {
    let groups = parse_groups("[A]\none # two # three\n").unwrap();
    assert_eq!(tags(&groups[0]), vec!["one"]);
}

#[test]
fn full_line_comment_is_ignored() {
    let groups = parse_groups("[A]\n# nothing\nx\n#[B]\ny\n").unwrap();
    assert_eq!(names(&groups), vec!["A"]);
    assert_eq!(tags(&groups[0]), vec!["x", "y"]);
}

#[test]
fn indented_comment_leaves_an_empty_tag() {
    let groups = parse_groups("[A]\n  # note\nx\n").unwrap();
    assert_eq!(tags(&groups[0]), vec!["", "x"]);
}

#[test]
fn blank_line_of_spaces_is_an_empty_tag() {
    let groups = parse_groups("[A]\n   \nx\n").unwrap();
    assert_eq!(tags(&groups[0]), vec!["", "x"]);
}

#[test]
fn empty_lines_are_ignored() {
    let groups = parse_groups("\n\n[A]\n\nx\n\n\ny\n\n").unwrap();
    assert_eq!(names(&groups), vec!["A"]);
    assert_eq!(tags(&groups[0]), vec!["x", "y"]);
}

#[test]
fn multi_word_tag_is_one_tag() {
    let groups = parse_groups("[A]\nred_hair female dress\n").unwrap();
    assert_eq!(groups[0].tags.len(), 1);
    assert_eq!(groups[0].tags[0], "red_hair female dress");
}

#[test]
fn inner_white_space_is_kept() {
    let groups = parse_groups("[A]\n  a \t b   c  \n").unwrap();
    assert_eq!(tags(&groups[0]), vec!["a \t b   c"]);
}

#[test]
fn unicode_tag_is_kept() {
    let groups = parse_groups("[A]\n進撃の巨人\nпривет мир\n").unwrap();
    assert_eq!(tags(&groups[0]), vec!["進撃の巨人", "привет мир"]);
}

#[test]
fn unicode_name_is_kept() {
    let groups = parse_groups("[進撃 の 巨人]\nx").unwrap();
    assert_eq!(names(&groups), vec!["進撃 の 巨人"]);
}

#[test]
fn unicode_white_space_is_trimmed() {
    let groups = parse_groups("[A]\n\u{3000}\u{a0}tag\u{2003}\u{85}\n").unwrap();
    assert_eq!(tags(&groups[0]), vec!["tag"]);
}

#[test]
fn duplicate_tags_are_kept() {
    let groups = parse_groups("[A]\nx\nx\ny\nx\n").unwrap();
    assert_eq!(tags(&groups[0]), vec!["x", "x", "y", "x"]);
}

#[test]
fn header_followed_by_header_is_empty_group() {
    let groups = parse_groups("[A]\n[B]\nx\n").unwrap();
    assert_eq!(names(&groups), vec!["A", "B"]);
    assert!(groups[0].tags.is_empty());
    assert_eq!(tags(&groups[1]), vec!["x"]);
}

#[test]
fn header_at_the_end_is_empty_group() {
    let groups = parse_groups("[A]\nx\n[B]").unwrap();
    assert_eq!(names(&groups), vec!["A", "B"]);
    assert!(groups[1].tags.is_empty());
}

#[test]
fn comments_do_not_fill_a_group() {
    let groups = parse_groups("[A]\n# note\n\n# note\n[B]\n").unwrap();
    assert_eq!(names(&groups), vec!["A", "B"]);
    assert!(groups[0].tags.is_empty());
    assert!(groups[1].tags.is_empty());
}

#[test]
fn header_name_is_trimmed() {
    let groups = parse_groups("[  Spaced Name\t]\nx\n").unwrap();
    assert_eq!(names(&groups), vec!["Spaced Name"]);
}

#[test]
fn indented_header_is_a_header() {
    let groups = parse_groups("  [A]  \nx\n").unwrap();
    assert_eq!(names(&groups), vec!["A"]);
    assert_eq!(tags(&groups[0]), vec!["x"]);
}

#[test]
fn inner_brackets_belong_to_the_name() {
    let groups = parse_groups("[A][B]\n[C]]\n").unwrap();
    assert_eq!(names(&groups), vec!["A][B", "C]"]);
}

#[test]
fn bracket_inside_a_tag_is_no_header() {
    let groups = parse_groups("[A]\nx [B]\n").unwrap();
    assert_eq!(names(&groups), vec!["A"]);
    assert_eq!(tags(&groups[0]), vec!["x [B]"]);
}

#[test]
fn unnamed_header_drops_what_follows() {
    let groups = parse_groups("[A]\nx\n[]\ny\n[B]\nz\n").unwrap();
    assert_eq!(names(&groups), vec!["A", "B"]);
    assert_eq!(tags(&groups[0]), vec!["x"]);
    assert_eq!(tags(&groups[1]), vec!["z"]);
}

#[test]
fn unnamed_header_at_the_end_gives_an_unnamed_group() {
    let groups = parse_groups("[A]\nx\n[ ]\ny\n").unwrap();
    assert_eq!(names(&groups), vec!["A", ""]);
    assert!(groups[1].tags.is_empty());
}

#[test]
fn malformed_header_is_an_error() {
    assert_eq!(parse_groups("[Unterminated").err(), Some(ParseError::MalformedHeader));
}

#[test]
fn malformed_header_fails_parse() {
    let mut parser = TagParser::new(String::from("[Unterminated"));
    assert_eq!(parser.parse(), Err(ParseError::MalformedHeader));
    assert!(parser.groups().is_empty());
}

#[test]
fn malformed_header_leaves_nothing_half_done() {
    let mut parser = TagParser::new(String::from("[A]\nx\n[B]\ny\n[C\nz\n"));
    assert_eq!(parser.parse(), Err(ParseError::MalformedHeader));
    assert!(parser.groups().is_empty());
    let parser = TagParser::from("[A]\nx\n[B]\ny\n[C\nz\n");
    assert!(parser.groups().is_empty());
}

#[test]
fn malformed_header_forms() {
    assert_eq!(parse_groups("[").err(), Some(ParseError::MalformedHeader));
    assert_eq!(parse_groups("[A]x").err(), Some(ParseError::MalformedHeader));
    assert_eq!(parse_groups("[A # ]").err(), Some(ParseError::MalformedHeader));
    assert_eq!(parse_groups("x\n  [A\n").err(), Some(ParseError::MalformedHeader));
    assert_eq!(parse_groups("[é").err(), Some(ParseError::MalformedHeader));
    assert!(parse_groups("#[A").is_ok());
    assert!(parse_groups("[]").is_ok());
    assert!(parse_groups("x [A").is_ok());
}

#[test]
fn carriage_return_line_feed_ends_a_line() {
    let groups = parse_groups("[A]\r\nx\r\n\r\ny # note\r\n[B]\r\n").unwrap();
    assert_eq!(names(&groups), vec!["A", "B"]);
    assert_eq!(tags(&groups[0]), vec!["x", "y"]);
    assert!(groups[1].tags.is_empty());
}

#[test]
fn lone_carriage_return_ends_a_line() {
    let groups = parse_groups("[A]\rx\ry # note\r\r[B]\rz").unwrap();
    assert_eq!(names(&groups), vec!["A", "B"]);
    assert_eq!(tags(&groups[0]), vec!["x", "y"]);
    assert_eq!(tags(&groups[1]), vec!["z"]);
}

#[test]
fn mixed_line_ends() {
    let groups = parse_groups("[A]\r\nx\ry\nz\n\r\r\n\n\rw").unwrap();
    assert_eq!(names(&groups), vec!["A"]);
    assert_eq!(tags(&groups[0]), vec!["x", "y", "z", "w"]);
}

#[test]
fn last_line_needs_no_line_feed() {
    let with = parse_groups("[A]\nx\n").unwrap();
    let without = parse_groups("[A]\nx").unwrap();
    assert_eq!(names(&with), names(&without));
    assert_eq!(tags(&with[0]), tags(&without[0]));
}

#[test]
fn same_groups_as_line_by_line() {
    let text = "loose\n[Generic]\r\nred_hair female dress\n\ndancing fire smile # description\n  [ IDs ] # numbers\n102349\n#[Hidden]\n[EmptyGroup]";
    let groups = parse_groups(text).unwrap();
    let mut expected: Vec<(String, Vec<String>)> = Vec::new();
    let mut current: (String, Vec<String>) = (String::new(), Vec::new());
    for line in text.lines() {
        if line.is_empty() || line.starts_with('#') {
            continue;
        }
        let body = line.split('#').next().unwrap().trim();
        if body.starts_with('[') {
            assert!(body.len() >= 2 && body.ends_with(']'));
            if !current.0.is_empty() {
                expected.push(current);
            }
            current = (body[1..body.len() - 1].trim().to_string(), Vec::new());
        } else if !current.0.is_empty() {
            current.1.push(body.to_string());
        }
    }
    expected.push(current);
    assert_eq!(groups.len(), expected.len());
    assert_eq!(groups.len(), 3);
    for (group, (name, tags)) in groups.iter().zip(expected.iter()) {
        assert_eq!(&group.name, name);
        assert_eq!(&group.tags, tags);
    }
}
