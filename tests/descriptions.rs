use booksync::markup::{
    detect_convention, parse_text, try_parse_tag, ParagraphConvention, ParseError, RichText, TagType,
    TextFragment, TextStyle,
};

fn chars(s: &str) -> Vec<char> {
    s.chars().collect()
}

fn joined(rich: &RichText) -> String {
    rich.fragments.iter().map(|f| f.text.as_str()).collect()
}

#[test]
fn simple_bold() {
    assert_eq!(
        parse_text("Partially <b>bold</b> text.").unwrap(),
        RichText {
            fragments: vec![
                TextFragment::new("Partially ", TextStyle::unstyled()),
                TextFragment::new("bold", TextStyle::bold()),
                TextFragment::new(" text.", TextStyle::unstyled())
            ]
        }
    );
}

#[test]
fn simple_italic() {
    assert_eq!(
        parse_text("Partially <i>italic</i> text.").unwrap(),
        RichText {
            fragments: vec![
                TextFragment::new("Partially ", TextStyle::unstyled()),
                TextFragment::new("italic", TextStyle::italic()),
                TextFragment::new(" text.", TextStyle::unstyled())
            ]
        }
    );
}

#[test]
fn normal_paragraphs_and_line_breaks() {
    assert_eq!(
        parse_text("<p>A sensible paragraph.</p> <p>Another paragraph that<br>contains two<br>line breaks.</p>").unwrap(),
        RichText {
            fragments: vec![
                TextFragment::new("A sensible paragraph.\nAnother paragraph that\ncontains two\nline breaks.", TextStyle::unstyled()),
            ]
        }
    );
}

#[test]
fn wonky_paragraphs() {
    assert_eq!(
        parse_text("Some text with <p> wonky paragraphs.").unwrap(),
        RichText {
            fragments: vec![TextFragment::new(
                "Some text with\nwonky paragraphs.",
                TextStyle::unstyled()
            )]
        }
    );
}

#[test]
fn mixed_styles_and_paragraphs() {
    assert_eq!(
        parse_text("<p>A paragraph, that is <b>partially bold</b>.</p><p>And a <i>partially italic</i> one.</p>Plus some text that <b><i>is both.</i></b>").unwrap(),
        RichText {
            fragments: vec![
                TextFragment::new("A paragraph, that is ", TextStyle::unstyled()),
                TextFragment::new("partially bold", TextStyle::bold()),
                TextFragment::new(".\nAnd a ", TextStyle::unstyled()),
                TextFragment::new("partially italic", TextStyle::italic()),
                TextFragment::new(" one.\nPlus some text that ", TextStyle::unstyled()),
                TextFragment::new("is both.", TextStyle::bold_italic()),
            ]
        }
    );
}

#[test]
fn well_formed_short_paragraphs() {
    assert_eq!(
        parse_text("<p>A.</p> <p>B<br>C.</p>").unwrap(),
        RichText { fragments: vec![TextFragment::new("A.\nB\nC.", TextStyle::unstyled())] }
    );
}

#[test]
fn mixed_short_paragraphs() {
    assert_eq!(
        parse_text("<p>A <b>bold</b>.</p><p>C.</p>").unwrap(),
        RichText {
            fragments: vec![
                TextFragment::new("A ", TextStyle::unstyled()),
                TextFragment::new("bold", TextStyle::bold()),
                TextFragment::new(".\nC.", TextStyle::unstyled()),
            ]
        }
    );
}

#[test]
fn untagged_input_is_one_trimmed_fragment() {
    assert_eq!(
        parse_text("Just text, a < b and <u>under</u>.  \n").unwrap(),
        RichText {
            fragments: vec![TextFragment::new(
                "Just text, a < b and <u>under</u>.",
                TextStyle::unstyled()
            )]
        }
    );
}

#[test]
fn empty_input_has_no_fragments() {
    assert_eq!(parse_text("").unwrap(), RichText { fragments: vec![] });
}

#[test]
fn whitespace_only_input_has_no_fragments() {
    assert_eq!(parse_text("   ").unwrap(), RichText { fragments: vec![] });
    assert_eq!(parse_text(" <b>\t</b> <br> ").unwrap(), RichText { fragments: vec![] });
}

#[test]
fn trailing_whitespace_is_trimmed_across_fragments() {
    let rich = parse_text("a <b><i> </i></b>").unwrap();
    assert_eq!(rich, RichText { fragments: vec![TextFragment::new("a", TextStyle::unstyled())] });
    assert_eq!(joined(&rich), "a");
    assert_eq!(
        parse_text("<b>a</b> ").unwrap(),
        RichText { fragments: vec![TextFragment::new("a", TextStyle::bold())] }
    );
    assert_eq!(
        parse_text("x <i>y </i>\u{3000}").unwrap(),
        RichText {
            fragments: vec![
                TextFragment::new("x ", TextStyle::unstyled()),
                TextFragment::new("y", TextStyle::italic()),
            ]
        }
    );
}

#[test]
fn text_without_breaks_is_input_without_tags() {
    let rich = parse_text("One <b>two <i>three</i></b> four  ").unwrap();
    assert_eq!(joined(&rich), "One two three four");
}

#[test]
fn trailing_open_marker_is_text() {
    assert_eq!(
        parse_text("a <b>b</b> c <").unwrap(),
        RichText {
            fragments: vec![
                TextFragment::new("a ", TextStyle::unstyled()),
                TextFragment::new("b", TextStyle::bold()),
                TextFragment::new(" c <", TextStyle::unstyled()),
            ]
        }
    );
}

#[test]
fn unterminated_tag_is_text() {
    assert_eq!(
        parse_text("x <b y").unwrap(),
        RichText { fragments: vec![TextFragment::new("x <b y", TextStyle::unstyled())] }
    );
}

#[test]
fn rejected_marker_stays_before_a_tag() {
    assert_eq!(
        parse_text("1 < 2 <i>yes</i>").unwrap(),
        RichText {
            fragments: vec![
                TextFragment::new("1 < 2 ", TextStyle::unstyled()),
                TextFragment::new("yes", TextStyle::italic()),
            ]
        }
    );
}

#[test]
fn unmatched_close_is_an_error() {
    assert_eq!(parse_text("text</b> more"), Err(ParseError::UnmatchedClosingTag));
    assert_eq!(parse_text("<i>a</i></i>"), Err(ParseError::UnmatchedClosingTag));
}

#[test]
fn close_restores_by_position_not_name() {
    assert_eq!(
        parse_text("<b>x</i>y").unwrap(),
        RichText {
            fragments: vec![
                TextFragment::new("x", TextStyle::bold()),
                TextFragment::new("y", TextStyle::unstyled()),
            ]
        }
    );
}

#[test]
fn nested_styles_combine_and_revert() {
    assert_eq!(
        parse_text("a<i>b<b>c</b>d</i>e").unwrap(),
        RichText {
            fragments: vec![
                TextFragment::new("a", TextStyle::unstyled()),
                TextFragment::new("b", TextStyle::italic()),
                TextFragment::new("c", TextStyle::bold_italic()),
                TextFragment::new("d", TextStyle::italic()),
                TextFragment::new("e", TextStyle::unstyled()),
            ]
        }
    );
    assert_eq!(
        parse_text("<b>b<i>c</i>d</b>").unwrap(),
        RichText {
            fragments: vec![
                TextFragment::new("b", TextStyle::bold()),
                TextFragment::new("c", TextStyle::bold_italic()),
                TextFragment::new("d", TextStyle::bold()),
            ]
        }
    );
}

#[test]
fn text_is_kept_apart_from_whitespace() {
    let input = "One <b>two</b> <p>three<br>  four </p>five";
    let rich = parse_text(input).unwrap();
    let out: String = joined(&rich).chars().filter(|c| !c.is_whitespace()).collect();
    assert_eq!(out, "Onetwothreefourfive");
    assert_eq!(joined(&rich), "One two three\nfour\nfive");
}

#[test]
fn reconversion_gives_one_fragment() {
    let once = parse_text("a <b><i> </i></b>").unwrap();
    let text = joined(&once);
    assert_eq!(
        parse_text(&text).unwrap(),
        RichText { fragments: vec![TextFragment::new(&text, TextStyle::unstyled())] }
    );
    let first = parse_text("<p>A <b>bold</b> move.</p><p>Then <i>more</i>.</p>").unwrap();
    let text = joined(&first);
    assert_eq!(text, "A bold move.\nThen more.");
    assert_eq!(
        parse_text(&text).unwrap(),
        RichText { fragments: vec![TextFragment::new(&text, TextStyle::unstyled())] }
    );
}

#[test]
fn fragments_are_clean() {
    let rich = parse_text("<b></b>a <i> </i>b <br> ").unwrap();
    assert_eq!(
        rich,
        RichText {
            fragments: vec![
                TextFragment::new("a ", TextStyle::unstyled()),
                TextFragment::new(" ", TextStyle::italic()),
                TextFragment::new("b", TextStyle::unstyled()),
            ]
        }
    );
    for f in &rich.fragments {
        assert!(!f.text.is_empty());
    }
    assert!(!rich.fragments.last().unwrap().text.ends_with(char::is_whitespace));
}

#[test]
fn break_removes_surrounding_whitespace() {
    assert_eq!(
        parse_text("end of line   <br>\n\t next").unwrap(),
        RichText { fragments: vec![TextFragment::new("end of line\nnext", TextStyle::unstyled())] }
    );
    assert_eq!(
        parse_text("a<br><br>b").unwrap(),
        RichText { fragments: vec![TextFragment::new("a\nb", TextStyle::unstyled())] }
    );
}

#[test]
fn opening_paragraph_is_silent_when_well_formed() {
    assert_eq!(
        parse_text("x<p>y</p>z").unwrap(),
        RichText { fragments: vec![TextFragment::new("xy\nz", TextStyle::unstyled())] }
    );
    assert_eq!(
        parse_text("x<p>y<p>z").unwrap(),
        RichText { fragments: vec![TextFragment::new("x\ny\nz", TextStyle::unstyled())] }
    );
}

#[test]
fn non_ascii_text_is_kept() {
    assert_eq!(
        parse_text("Café <b>naïve</b> été\u{3000}").unwrap(),
        RichText {
            fragments: vec![
                TextFragment::new("Café ", TextStyle::unstyled()),
                TextFragment::new("naïve", TextStyle::bold()),
                TextFragment::new(" été", TextStyle::unstyled()),
            ]
        }
    );
}

#[test]
fn tags_are_recognised() {
    let (tag, len) = try_parse_tag(&chars("<b>rest")).unwrap();
    assert_eq!((tag.ty, tag.open, len), (TagType::Bold, true, 3));
    let (tag, len) = try_parse_tag(&chars("</br>")).unwrap();
    assert_eq!((tag.ty, tag.open, len), (TagType::Linebreak, false, 5));
    let (tag, len) = try_parse_tag(&chars("<p>")).unwrap();
    assert_eq!((tag.ty, tag.open, len), (TagType::Paragraph, true, 3));
    let (tag, len) = try_parse_tag(&chars("</i> x")).unwrap();
    assert_eq!((tag.ty, tag.open, len), (TagType::Italic, false, 4));
    assert!(try_parse_tag(&chars("<")).is_none());
    assert!(try_parse_tag(&chars("<B>")).is_none());
    assert!(try_parse_tag(&chars("<b class=x>")).is_none());
    assert!(try_parse_tag(&chars("<b")).is_none());
    assert!(try_parse_tag(&chars("< b>")).is_none());
}

#[test]
fn style_tags_and_styles() {
    assert!(TagType::Bold.is_style());
    assert!(TagType::Italic.is_style());
    assert!(!TagType::Paragraph.is_style());
    assert!(!TagType::Linebreak.is_style());
    assert_eq!(TextStyle::unstyled(), TextStyle { bold: false, italic: false });
    assert_eq!(TextStyle::bold(), TextStyle { bold: true, italic: false });
    assert_eq!(TextStyle::italic(), TextStyle { bold: false, italic: true });
    assert_eq!(TextStyle::bold_italic(), TextStyle { bold: true, italic: true });
}

#[test]
fn convention_is_detected() {
    assert_eq!(detect_convention(&chars("<p>a</p>")), ParagraphConvention::WellFormed);
    assert_eq!(detect_convention(&chars("a<p>b")), ParagraphConvention::Separator);
    assert_eq!(detect_convention(&chars("")), ParagraphConvention::Separator);
    assert_eq!(detect_convention(&chars("</p")), ParagraphConvention::Separator);
}

#[test]
fn fragment_keeps_its_text() {
    let f = TextFragment::new("héllo", TextStyle::bold());
    assert_eq!(f.text, "héllo");
    assert_eq!(f.style, TextStyle::bold());
}
