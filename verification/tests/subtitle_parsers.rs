use ferrex_player::subtitle::{
    parse_html_color, parse_html_to_segments, parse_subtitle, parse_subtitle_checked, ParsedSubtitle, Rgb,
    StyledSegment, SubtitleData, SubtitleFormat, SubtitleParseError, TextStyle,
};

fn data(format: SubtitleFormat, text: &str) -> SubtitleData {
    SubtitleData { format, data: text.as_bytes().to_vec() }
}

fn segments(r: Result<Option<ParsedSubtitle>, SubtitleParseError>) -> Vec<StyledSegment> {
    match r {
        Ok(Some(ParsedSubtitle::Text(t))) => t.segments,
        other => panic!("expected text, got {:?}", other),
    }
}

#[test]
fn plain_text_is_one_unstyled_segment() {
    let segs = segments(parse_subtitle(&data(SubtitleFormat::PlainText, "Hello there")));
    assert_eq!(segs.len(), 1);
    assert_eq!(segs[0].text, "Hello there");
    assert_eq!(segs[0].style, TextStyle::default());
}

#[test]
fn blank_plain_text_gives_nothing() {
    assert!(matches!(parse_subtitle(&data(SubtitleFormat::PlainText, "  \n\t ")), Ok(None)));
    assert!(matches!(parse_subtitle(&data(SubtitleFormat::Unknown, "")), Ok(None)));
}

#[test]
fn unknown_format_parses_as_plain_text() {
    let segs = segments(parse_subtitle(&data(SubtitleFormat::Unknown, "<i>x</i>")));
    assert_eq!(segs.len(), 1);
    assert_eq!(segs[0].text, "<i>x</i>");
}

#[test]
fn invalid_utf8_is_replaced() {
    let d = SubtitleData { format: SubtitleFormat::PlainText, data: vec![b'a', 0xff, b'b'] };
    let segs = segments(parse_subtitle(&d));
    assert_eq!(segs[0].text, "a\u{FFFD}b");
}

#[test]
fn html_italic_and_bold_runs() {
    let segs = segments(parse_subtitle(&data(SubtitleFormat::Html, "<i>Hello</i> <b>world</b>!")));
    assert_eq!(segs.len(), 4);
    assert_eq!(segs[0].text, "Hello");
    assert!(segs[0].style.italic && !segs[0].style.bold);
    assert_eq!(segs[1].text, " ");
    assert!(!segs[1].style.italic);
    assert_eq!(segs[2].text, "world");
    assert!(segs[2].style.bold);
    assert_eq!(segs[3].text, "!");
    assert!(!segs[3].style.bold);
}

#[test]
fn html_line_break_and_stray_angle_brackets() {
    // The text before a tag is its own segment; the break starts the next one.
    let segs = parse_html_to_segments("a<br>b");
    assert_eq!(segs.len(), 2);
    assert_eq!(segs[0].text, "a");
    assert_eq!(segs[1].text, "\nb");
    let segs = parse_html_to_segments("x < y > z");
    assert_eq!(segs.len(), 1);
    assert_eq!(segs[0].text, "x < y > z");
    let segs = parse_html_to_segments("1 <2");
    assert_eq!(segs[0].text, "1 <2");
    let segs = parse_html_to_segments("<>");
    assert_eq!(segs[0].text, "<>");
}

#[test]
fn font_color_stays_after_closing_tag() {
    let segs = parse_html_to_segments("<font color=\"#ff0000\">A</font>B");
    assert_eq!(segs.len(), 2);
    assert_eq!(segs[0].style.color, Some(Rgb { r: 255, g: 0, b: 0 }));
    assert_eq!(segs[1].text, "B");
    assert_eq!(segs[1].style.color, Some(Rgb { r: 255, g: 0, b: 0 }));
}

#[test]
fn mismatched_closing_tag_keeps_style() {
    let segs = parse_html_to_segments("<i>a</b>b");
    assert_eq!(segs.len(), 2);
    assert!(segs[0].style.italic);
    assert!(segs[1].style.italic);
}

#[test]
fn empty_html_gives_nothing() {
    assert!(matches!(parse_subtitle(&data(SubtitleFormat::Html, "<i></i>")), Ok(None)));
}

#[test]
fn html_colors() {
    assert_eq!(parse_html_color("#00FF00"), Some(Rgb { r: 0, g: 255, b: 0 }));
    assert_eq!(parse_html_color("White"), Some(Rgb { r: 255, g: 255, b: 255 }));
    assert_eq!(parse_html_color("magenta"), Some(Rgb { r: 255, g: 0, b: 255 }));
    assert_eq!(parse_html_color("#12345"), None);
    assert_eq!(parse_html_color("#+1+2+3"), Some(Rgb { r: 1, g: 2, b: 3 }));
    assert_eq!(parse_html_color("teal"), None);
}

#[test]
fn bitmap_formats_give_nothing_and_others_need_their_parsers() {
    assert!(matches!(parse_subtitle(&data(SubtitleFormat::Dvb, "x")), Ok(None)));
    assert!(matches!(parse_subtitle(&data(SubtitleFormat::DvdSub, "x")), Ok(None)));
    assert!(matches!(
        parse_subtitle(&data(SubtitleFormat::Srt, "1")),
        Err(SubtitleParseError::ParserUnavailable(SubtitleFormat::Srt))
    ));
    assert!(matches!(
        parse_subtitle(&data(SubtitleFormat::Ssa, "1")),
        Err(SubtitleParseError::ParserUnavailable(SubtitleFormat::Ssa))
    ));
}

#[test]
fn color_value_splitting_a_character_is_reported() {
    // Six bytes after '#', but byte 2 falls inside the three-byte euro sign.
    let d = data(SubtitleFormat::Html, "<font color=#a\u{20AC}aa>x</font>");
    assert!(matches!(parse_subtitle_checked(&d), Err(SubtitleParseError::ColorSplitsCharacter)));
    let ok = data(SubtitleFormat::Html, "<font color=#00ff00>x</font>");
    let segs = segments(parse_subtitle_checked(&ok));
    assert_eq!(segs[0].style.color, Some(Rgb { r: 0, g: 255, b: 0 }));
}
