use samup::{char_to_digit, transcribe, SamupError, Tag, Transcriber, C};

fn render(input: &[u8]) -> Result<String, SamupError> {
    let mut output = Vec::new();
    transcribe(input, &mut output)?;
    Ok(String::from_utf8(output).unwrap())
}

#[test]
fn empty_input_writes_nothing() {
    assert_eq!(render(b"").unwrap(), "");
}

#[test]
fn plain_document_is_one_paragraph() {
    assert_eq!(render(b"plain text 42").unwrap(), "<p>plain text 42</p>");
    assert_eq!(render(b"7 up").unwrap(), "<p>7 up</p>");
}

#[test]
fn output_is_appended() {
    let mut output = b"head:".to_vec();
    transcribe(b"abc", &mut output).unwrap();
    assert_eq!(output, b"head:<p>abc</p>".to_vec());
}

#[test]
fn underscore_inside_a_word_is_kept() {
    assert_eq!(render(b"x_y").unwrap(), "<p>x_y</p>");
}

#[test]
fn doubled_delimiter_is_one_literal() {
    assert_eq!(render(b"a__b").unwrap(), "<p>a_b</p>");
    assert_eq!(render(b"a**b").unwrap(), "<p>a*b</p>");
}

#[test]
fn mismatched_close_is_literal() {
    assert_eq!(render(b"*a_ b*").unwrap(), "\n<p><strong>a_ b</strong></p>");
}

#[test]
fn emphasis_closes_at_line_break() {
    assert_eq!(render(b"_a_\nb").unwrap(), "\n<p><i>a</i>\nb</p>");
}

#[test]
fn digit_after_footnote_marker_is_syntax_error() {
    assert!(matches!(render(b"[^1]2"), Err(SamupError::Syntax)));
}

#[test]
fn line_break_inside_footnote_marker_is_syntax_error() {
    assert!(matches!(render(b"x[^1\n]"), Err(SamupError::Syntax)));
}

#[test]
fn footnote_definition() {
    assert_eq!(
        render(b"[^1]: note").unwrap(),
        "\n<p class=\"footnote\" id=\"ref-1\"><span class=\"footnote\">1:</span> note<a href=\"#link-1\">\u{1f519}</a></p>"
    );
}

#[test]
fn footnote_reference_followed_by_text() {
    assert_eq!(
        render(b"a[^1] b").unwrap(),
        "<p>a<a id=\"link-1\" target=\"#ref-1\"><sup>1</sup></a> b</p>"
    );
}

#[test]
fn footnote_index_is_not_truncated() {
    assert_eq!(
        render(b"x[^300]").unwrap(),
        "<p>x<a id=\"link-300\" target=\"#ref-300\"><sup>300</sup></a></p>"
    );
}

#[test]
fn largest_footnote_index() {
    assert_eq!(
        render(b"x[^18446744073709551615]").unwrap(),
        "<p>x<a id=\"link-18446744073709551615\" target=\"#ref-18446744073709551615\"><sup>18446744073709551615</sup></a></p>"
    );
}

#[test]
fn footnote_index_past_u64_is_syntax_error() {
    assert!(matches!(render(b"x[^18446744073709551616]"), Err(SamupError::Syntax)));
}

#[test]
fn blank_line_ends_open_emphasis_and_paragraph() {
    assert_eq!(render(b"_a\n\nb").unwrap(), "\n<p><i>a</i></p>\n<p>b</p>");
}

#[test]
fn line_break_ends_heading_with_open_emphasis() {
    assert_eq!(render(b"# _a\nb").unwrap(), "\n<h1><i>a</i></h1>\n<p>b</p>");
}

#[test]
fn tags_describe_themselves() {
    assert_eq!(Tag::I.describe(), b"<i>".to_vec());
    assert_eq!(Tag::P.describe(), b"<p>".to_vec());
    assert_eq!(Tag::Strong.describe(), b"<strong>".to_vec());
}

#[test]
fn unterminated_link_is_written_back() {
    assert_eq!(render(b"[abc").unwrap(), "\n<p>[abc</p>");
}

#[test]
fn link_target_keeps_every_byte() {
    assert_eq!(
        render(b"[a b]").unwrap(),
        "\n<p><a href=\"a b\" target=\"_blank\">a b</a></p>"
    );
}

#[test]
fn nested_bracket_gives_up_the_first_link() {
    assert_eq!(
        render(b"[a[b]").unwrap(),
        "\n<p>[a<a href=\"b\" target=\"_blank\">b</a></p>"
    );
}

#[test]
fn label_may_hold_emphasis() {
    assert_eq!(
        render(b"[u](*x*)").unwrap(),
        "\n<p><a href=\"u\" target=\"_blank\"><strong>x</strong></a></p>"
    );
}

#[test]
fn stray_brackets_and_parens_are_text() {
    assert_eq!(render(b"a]").unwrap(), "<p>a]</p>");
    assert_eq!(render(b"(x)").unwrap(), "\n<p>(x)</p>");
    assert_eq!(render(b"a^b:c").unwrap(), "<p>a^b:c</p>");
}

#[test]
fn heading_ends_open_paragraph() {
    assert_eq!(render(b"abc\n# h").unwrap(), "<p>abc</p>\n<h1>h</h1>");
}

#[test]
fn blank_line_ends_heading() {
    assert_eq!(render(b"# a\n\nb").unwrap(), "\n<h1>a</h1>\n<p>b</p>");
}

#[test]
fn six_markers_make_h6() {
    assert_eq!(render(b"###### six").unwrap(), "\n<h6>six</h6>");
}

#[test]
fn hash_inside_text_is_literal() {
    assert_eq!(render(b"a #1").unwrap(), "<p>a #1</p>");
}

#[test]
fn classification() {
    assert_eq!(C::from(b' '), C::Whitespace);
    assert_eq!(C::from(b'\t'), C::Whitespace);
    assert_eq!(C::from(b'\n'), C::Newline);
    assert_eq!(C::from(b'\r'), C::Newline);
    assert_eq!(C::from(b'_'), C::Underscore);
    assert_eq!(C::from(b'*'), C::Asterisk);
    assert_eq!(C::from(b'#'), C::Octothorpe);
    assert_eq!(C::from(b'^'), C::Caret);
    assert_eq!(C::from(b':'), C::Colon);
    assert_eq!(C::from(b'['), C::SqBracketL);
    assert_eq!(C::from(b']'), C::SqBracketR);
    assert_eq!(C::from(b'('), C::ParenL);
    assert_eq!(C::from(b')'), C::ParenR);
    assert_eq!(C::from(b'0'), C::Digit);
    assert_eq!(C::from(b'9'), C::Digit);
    assert_eq!(C::from(b'a'), C::Content);
    assert_eq!(C::from(0xffu8), C::Content);
}

#[test]
fn classification_is_repeatable() {
    for b in 0..=255u8 {
        assert_eq!(C::from(b), C::from(b));
    }
}

#[test]
fn digit_values() {
    assert_eq!(char_to_digit(b'0'), 0);
    assert_eq!(char_to_digit(b'7'), 7);
    assert_eq!(char_to_digit(b'9'), 9);
}

#[test]
fn engine_byte_by_byte() {
    let input = b"_a_ b";
    let mut t = Transcriber::new();
    let mut output = Vec::new();
    while t.ix() < input.len() {
        t.transcribe(input, &mut output).unwrap();
    }
    t.finish(&mut output).unwrap();
    let mut whole = Vec::new();
    transcribe(input, &mut whole).unwrap();
    assert_eq!(output, whole);
    assert_eq!(output, b"\n<p><i>a</i> b</p>".to_vec());
}

#[test]
fn default_engine_starts_at_zero() {
    let t = Transcriber::default();
    assert_eq!(t.ix(), 0);
}

#[test]
fn heading_of_plain_text() {
    assert_eq!(render(b"### title 3").unwrap(), "\n<h3>title 3</h3>");
}

#[test]
fn strong_of_plain_text() {
    assert_eq!(render(b"*bold 1*").unwrap(), "\n<p><strong>bold 1</strong></p>");
}

#[test]
fn link_target_takes_markup_bytes_literally() {
    assert_eq!(
        render(b"[42 is: a_b*c]").unwrap(),
        "\n<p><a href=\"42 is: a_b*c\" target=\"_blank\">42 is: a_b*c</a></p>"
    );
}

#[test]
fn link_with_plain_label() {
    assert_eq!(
        render(b"[x](two words 2)").unwrap(),
        "\n<p><a href=\"x\" target=\"_blank\">two words 2</a></p>"
    );
}

#[test]
fn footnote_reference_with_three_digits() {
    assert_eq!(
        render(b"see 2[^123]").unwrap(),
        "<p>see 2<a id=\"link-123\" target=\"#ref-123\"><sup>123</sup></a></p>"
    );
}

#[test]
fn heading_closes_everything_open() {
    assert_eq!(render(b"_a\n# b").unwrap(), "\n<p><i>a</i></p>\n<h1>b</h1>");
}
