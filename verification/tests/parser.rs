use chess_study::study::{
    check_content, parse_study, quoted, tag_value_of, StudyError, StudyParser,
};

fn feed(parser: &mut StudyParser, line: &str) {
    let chars: Vec<char> = line.chars().collect();
    parser.feed_line(&chars);
}

#[test]
fn pairs_are_read_in_order() {
    let text = "[ChapterName \"One\"]\n[FEN \"8/8/8/8/8/8/8/8 w - - 0 1\"]\n\
                [ChapterName \"Two\"]\n[FEN \"k7/8/8/8/8/8/8/K7 b - - 0 1\"]\n\
                [ChapterName \"Three\"]\n[FEN \"8/8/8/8/8/8/8/R7 w - - 0 1\"]\n";
    let doc = parse_study(text).unwrap();
    assert_eq!(doc.records.len(), 3);
    assert_eq!(doc.records[0].sequence_number, 1);
    assert_eq!(doc.records[1].sequence_number, 2);
    assert_eq!(doc.records[2].sequence_number, 3);
    assert_eq!(doc.records[0].caption, "One");
    assert_eq!(doc.records[1].caption, "Two");
    assert_eq!(doc.records[2].caption, "Three");
    assert_eq!(doc.records[0].board_string, "8/8/8/8/8/8/8/8 w - - 0 1");
    assert_eq!(doc.records[1].board_string, "k7/8/8/8/8/8/8/K7 b - - 0 1");
    assert_eq!(doc.records[2].board_string, "8/8/8/8/8/8/8/R7 w - - 0 1");
}

#[test]
fn board_line_may_come_before_caption_line() {
    let text = "[FEN \"8/8/8/8/8/8/8/Q7 w - - 0 1\"]\n[ChapterName \"Late caption\"]\n\
                [ChapterName \"Early caption\"]\n[FEN \"8/8/8/8/8/8/8/q7 b - - 0 1\"]";
    let doc = parse_study(text).unwrap();
    assert_eq!(doc.records.len(), 2);
    assert_eq!(doc.records[0].sequence_number, 1);
    assert_eq!(doc.records[0].caption, "Late caption");
    assert_eq!(doc.records[0].board_string, "8/8/8/8/8/8/8/Q7 w - - 0 1");
    assert!(!doc.records[0].side_to_move_is_second);
    assert_eq!(doc.records[1].sequence_number, 2);
    assert_eq!(doc.records[1].caption, "Early caption");
    assert_eq!(doc.records[1].board_string, "8/8/8/8/8/8/8/q7 b - - 0 1");
    assert!(doc.records[1].side_to_move_is_second);
}

#[test]
fn a_pair_is_used_once_and_later_values_overwrite() {
    let text = "[ChapterName \"A\"]\n[ChapterName \"B\"]\n[FEN \"8/8 w\"]\n[FEN \"7k w\"]\n";
    let doc = parse_study(text).unwrap();
    assert_eq!(doc.records.len(), 1);
    assert_eq!(doc.records[0].caption, "B");
    assert_eq!(doc.records[0].board_string, "8/8 w");
}

#[test]
fn side_to_move_needs_the_marker_between_spaces() {
    let text = "[ChapterName \"bishop b\"]\n[FEN \"b7/8/8/8/8/8/8/8 w - - 0 1\"]\n\
                [ChapterName \"x\"]\n[FEN \"8/8/8/8/8/8/8/8 b\"]\n\
                [ChapterName \"y\"]\n[FEN \"8/8/8/8/8/8/8/8 b KQkq - 0 1\"]\n";
    let doc = parse_study(text).unwrap();
    assert_eq!(doc.records.len(), 3);
    assert!(!doc.records[0].side_to_move_is_second);
    assert!(!doc.records[1].side_to_move_is_second);
    assert!(doc.records[2].side_to_move_is_second);
}

#[test]
fn explicit_name_wins_over_event() {
    let text = "[StudyName \"X\"]\n[Event \"WM25: Y\"]\n[ChapterName \"c\"]\n[FEN \"8 w\"]\n";
    assert_eq!(parse_study(text).unwrap().title, "X");
    let text = "[Event \"WM25: Y\"]\n[StudyName \"X\"]\n[ChapterName \"c\"]\n[FEN \"8 w\"]\n";
    assert_eq!(parse_study(text).unwrap().title, "X");
    let text = "[Event \"WM25: Y\"]\n[StudyName \"X\"]\n[Event \"Z\"]\n[ChapterName \"c\"]\n[FEN \"8 w\"]\n";
    assert_eq!(parse_study(text).unwrap().title, "X");
}

#[test]
fn event_gives_the_title_without_its_prefix() {
    let text = "[Event \"WM25: Y\"]\n[ChapterName \"c\"]\n[FEN \"8 w\"]\n";
    assert_eq!(parse_study(text).unwrap().title, "Y");
    let text = "[Event \"Open: WM25: Y\"]\n[ChapterName \"c\"]\n[FEN \"8 w\"]\n";
    assert_eq!(parse_study(text).unwrap().title, "Open: WM25: Y");
}

#[test]
fn only_the_first_event_gives_the_title() {
    let text = "[Event \"First\"]\n[ChapterName \"c\"]\n[FEN \"8 w\"]\n\
                [Event \"Second\"]\n[ChapterName \"d\"]\n[FEN \"8 b \"]\n";
    let doc = parse_study(text).unwrap();
    assert_eq!(doc.title, "First");
    assert_eq!(doc.records.len(), 2);
}

#[test]
fn later_name_tag_overwrites_earlier_one() {
    let text = "[StudyName \"Old\"]\n[StudyName \"New\"]\n[ChapterName \"c\"]\n[FEN \"8 w\"]\n";
    assert_eq!(parse_study(text).unwrap().title, "New");
}

#[test]
fn title_defaults_when_no_tag_names_one() {
    let text = "[ChapterName \"c\"]\n[FEN \"8 w\"]\n";
    assert_eq!(parse_study(text).unwrap().title, "Chess Positions");
    let text = "[Event \"WM25: \"]\n[ChapterName \"c\"]\n[FEN \"8 w\"]\n";
    assert_eq!(parse_study(text).unwrap().title, "Chess Positions");
}

#[test]
fn text_without_a_complete_pair_is_refused() {
    assert_eq!(parse_study(""), Err(StudyError::NoPositions));
    assert_eq!(parse_study("[Event \"E\"]\n[StudyName \"S\"]\n"), Err(StudyError::NoPositions));
    assert_eq!(parse_study("[ChapterName \"only a caption\"]\n"), Err(StudyError::NoPositions));
    assert_eq!(parse_study("[FEN \"8/8/8/8/8/8/8/8 w - - 0 1\"]\n"), Err(StudyError::NoPositions));
    assert_eq!(
        parse_study("[ChapterName \"\"]\n[FEN \"8/8/8/8/8/8/8/8 w - - 0 1\"]\n"),
        Err(StudyError::NoPositions)
    );
}

#[test]
fn lines_are_trimmed_and_other_lines_are_passed_over() {
    let text = "  \t[ChapterName \"Indented\"]  \r\n\
                1. e4 e5 2. Nf3 { [%cal Ge2e4] } *\r\n\
                [Site \"https://example.org\"]\r\n\
                \u{a0}[FEN \"8/8/8/8/8/8/8/8 b - - 0 1\"]\u{2003}\r\n";
    let doc = parse_study(text).unwrap();
    assert_eq!(doc.records.len(), 1);
    assert_eq!(doc.records[0].caption, "Indented");
    assert_eq!(doc.records[0].board_string, "8/8/8/8/8/8/8/8 b - - 0 1");
    assert!(doc.records[0].side_to_move_is_second);
}

#[test]
fn value_runs_from_first_to_last_quote() {
    let text = "[ChapterName \"The \"quiet\" move\"] trailing\n[FEN \"8 w\"]\n";
    let doc = parse_study(text).unwrap();
    assert_eq!(doc.records[0].caption, "The \"quiet\" move");
}

#[test]
fn tag_with_a_single_quote_sets_nothing() {
    let text = "[ChapterName \"\n[FEN \"8 w\"]\n";
    assert_eq!(parse_study(text), Err(StudyError::NoPositions));
}

#[test]
fn tag_opening_must_match_exactly() {
    let text = "[chaptername \"c\"]\n[ChapterName\"c\"]\n[ ChapterName \"c\"]\n[FEN \"8 w\"]\n";
    assert_eq!(parse_study(text), Err(StudyError::NoPositions));
}

#[test]
fn captions_keep_characters_outside_ascii() {
    let text = "[ChapterName \"Schl\u{fc}sselzug \u{2654}\"]\n[FEN \"8 w\"]\n";
    let doc = parse_study(text).unwrap();
    assert_eq!(doc.records[0].caption, "Schl\u{fc}sselzug \u{2654}");
}

#[test]
fn parser_records_when_the_pair_is_complete() {
    let mut parser = StudyParser::new();
    assert_eq!(parser.recorded(), 0);
    feed(&mut parser, "[ChapterName \"c\"]");
    assert_eq!(parser.recorded(), 0);
    feed(&mut parser, "some moves");
    assert_eq!(parser.recorded(), 0);
    feed(&mut parser, "[FEN \"8/8 b - -\"]");
    assert_eq!(parser.recorded(), 1);
    feed(&mut parser, "[FEN \"8/8 w - -\"]");
    assert_eq!(parser.recorded(), 1);
    feed(&mut parser, "[ChapterName \"d\"]");
    assert_eq!(parser.recorded(), 2);
    let doc = parser.finish().unwrap();
    assert_eq!(doc.title, "Chess Positions");
    assert_eq!(doc.records[0].sequence_number, 1);
    assert_eq!(doc.records[0].caption, "c");
    assert!(doc.records[0].side_to_move_is_second);
    assert_eq!(doc.records[1].sequence_number, 2);
    assert_eq!(doc.records[1].caption, "d");
    assert_eq!(doc.records[1].board_string, "8/8 w - -");
    assert!(!doc.records[1].side_to_move_is_second);
}

#[test]
fn parser_without_positions_fails() {
    let mut parser = StudyParser::new();
    feed(&mut parser, "[StudyName \"S\"]");
    assert_eq!(parser.finish(), Err(StudyError::NoPositions));
}

#[test]
fn many_pairs_are_numbered_from_one() {
    let mut text = String::new();
    for i in 0..200 {
        if i % 2 == 0 {
            text.push_str(&format!("[ChapterName \"c{}\"]\n[FEN \"8/8 w {}\"]\n", i, i));
        } else {
            text.push_str(&format!("[FEN \"8/8 w {}\"]\n[ChapterName \"c{}\"]\n", i, i));
        }
    }
    let doc = parse_study(&text).unwrap();
    assert_eq!(doc.records.len(), 200);
    for (i, record) in doc.records.iter().enumerate() {
        assert_eq!(record.sequence_number, i as u64 + 1);
        assert_eq!(record.caption, format!("c{}", i));
        assert_eq!(record.board_string, format!("8/8 w {}", i));
    }
}

#[test]
fn blank_or_unmarked_content_is_not_a_study() {
    assert_eq!(check_content(""), Err(StudyError::NotFound));
    assert_eq!(check_content("  \n\t \r\n"), Err(StudyError::NotFound));
    assert_eq!(check_content("<html>not found</html>"), Err(StudyError::NotFound));
    assert_eq!(check_content("[ChapterName \"c\"]\n[FEN \"8 w\"]\n"), Err(StudyError::NotFound));
    assert_eq!(check_content("[event \"lower case\"]"), Err(StudyError::NotFound));
}

#[test]
fn content_with_a_marker_is_a_study() {
    assert_eq!(check_content("[Event \"E\"]\n"), Ok(()));
    assert_eq!(check_content("\n\n  [StudyName \"S\"]"), Ok(()));
    assert_eq!(check_content("x[Event"), Ok(()));
    assert_eq!(check_content("[StudyName"), Ok(()));
}

#[test]
fn errors_describe_themselves() {
    assert_eq!(
        StudyError::NotFound.message(),
        "Study not found or invalid: no chess positions detected"
    );
    assert_eq!(StudyError::NoPositions.message(), "No chess positions found in the study");
}

#[test]
fn quoted_text_lies_between_first_and_last_quote() {
    let value = |line: &str| -> Option<String> {
        let chars: Vec<char> = line.chars().collect();
        quoted(&chars).map(|v| v.iter().collect())
    };
    assert_eq!(value("[FEN \"8/8 w\"]"), Some(String::from("8/8 w")));
    assert_eq!(value("\"\""), Some(String::new()));
    assert_eq!(value("a\"b\"c\"d"), Some(String::from("b\"c")));
    assert_eq!(value("only one \" here"), None);
    assert_eq!(value("none"), None);
    assert_eq!(value(""), None);
}

#[test]
fn tag_value_needs_the_opening() {
    let value = |line: &str, opening: &str| -> Option<String> {
        let chars: Vec<char> = line.chars().collect();
        tag_value_of(&chars, opening).map(|v| v.iter().collect())
    };
    assert_eq!(value("[FEN \"8/8 w\"]", "[FEN \""), Some(String::from("8/8 w")));
    assert_eq!(value("[FEN \"8/8 w\"]", "[Event \""), None);
    assert_eq!(value(" [FEN \"8/8 w\"]", "[FEN \""), None);
    assert_eq!(value("[FEN \"", "[FEN \""), None);
    assert_eq!(value("[FEN \"\"", "[FEN \""), Some(String::new()));
}
