use styled_print::layout::BorderType;
use styled_print::output::{
    print, print_line, print_line_with_style, print_line_with_style_box, raw_command,
    styled_output, Command, PrintError, TextBox,
};
use styled_print::style::{Style, StyleCommand, StyleLayer, UnderlineMode};

#[test]
fn print_encodes_in_cp437() {
    assert_eq!(print("a½"), Ok(Command::Raw(vec![0x61, 0xAB])));
    assert_eq!(print(""), Ok(Command::Raw(vec![])));
}

#[test]
fn print_rejects_unencodable_text() {
    assert_eq!(print("Żurek"), Err(PrintError::Unencodable));
    assert_eq!(print_line("Ż"), Err(PrintError::Unencodable));
}

#[test]
fn print_line_feeds_after_text() {
    assert_eq!(print_line("hi"), Ok(vec![Command::Raw(b"hi".to_vec()), Command::Feed]));
}

#[test]
fn raw_command_maps_encoding() {
    assert_eq!(raw_command(Some(vec![1, 2])), Ok(Command::Raw(vec![1, 2])));
    assert_eq!(raw_command(None), Err(PrintError::Unencodable));
}

#[test]
fn styled_output_wraps_lines_in_style() {
    let style = Style::new(vec![StyleLayer::Bold]);
    assert_eq!(
        styled_output(&style, vec![Some(vec![7]), Some(vec![])]),
        Ok(vec![
            Command::Style(StyleCommand::Bold(true)),
            Command::Raw(vec![7]),
            Command::Feed,
            Command::Raw(vec![]),
            Command::Feed,
            Command::Style(StyleCommand::Bold(false)),
        ])
    );
    assert_eq!(styled_output(&style, vec![Some(vec![7]), None]), Err(PrintError::Unencodable));
}

#[test]
fn styled_line() {
    let style = Style::new(vec![StyleLayer::Bold, StyleLayer::Underline(UnderlineMode::Single)]);
    assert_eq!(
        print_line_with_style(&style, "ok"),
        Ok(vec![
            Command::Style(StyleCommand::Bold(true)),
            Command::Style(StyleCommand::Underline(UnderlineMode::Single)),
            Command::Raw(b"ok".to_vec()),
            Command::Feed,
            Command::Style(StyleCommand::Bold(false)),
            Command::Style(StyleCommand::Underline(UnderlineMode::Off)),
        ])
    );
    assert_eq!(print_line_with_style(&style, "→"), Err(PrintError::Unencodable));
}

#[test]
fn styled_box_wraps_and_frames() {
    let style = Style::new(vec![StyleLayer::Reverse]);
    let tb = TextBox::new(Some(2), Some(BorderType::Single));
    assert_eq!(
        print_line_with_style_box(&style, "hi yo", &tb),
        Ok(vec![
            Command::Style(StyleCommand::Reverse(true)),
            Command::Raw(vec![0xDA, 0xC4, 0xC4, 0xC4, 0xC4, 0xBF]),
            Command::Feed,
            Command::Raw(vec![0xB3, b' ', b'h', b'i', b' ', 0xB3]),
            Command::Feed,
            Command::Raw(vec![0xB3, b' ', b'y', b'o', b' ', 0xB3]),
            Command::Feed,
            Command::Raw(vec![0xC0, 0xC4, 0xC4, 0xC4, 0xC4, 0xD9]),
            Command::Feed,
            Command::Style(StyleCommand::Reverse(false)),
        ])
    );
}

#[test]
fn styled_box_without_wrap_or_border() {
    let style = Style::new(vec![]);
    let tb = TextBox::new(None, None);
    assert_eq!(
        print_line_with_style_box(&style, "a b", &tb),
        Ok(vec![Command::Raw(b"a b".to_vec()), Command::Feed])
    );
}

#[test]
fn styled_box_rejects_unencodable_text() {
    let style = Style::new(vec![StyleLayer::Bold]);
    let tb = TextBox::new(Some(10), Some(BorderType::Double));
    assert_eq!(print_line_with_style_box(&style, "ok Ż", &tb), Err(PrintError::Unencodable));
}

#[test]
fn styled_box_of_blank_text_is_two_rules() {
    let style = Style::new(vec![]);
    let tb = TextBox::new(Some(5), Some(BorderType::Single));
    assert_eq!(
        print_line_with_style_box(&style, "  ", &tb),
        Ok(vec![
            Command::Raw(vec![0xDA, 0xC4, 0xC4, 0xBF]),
            Command::Feed,
            Command::Raw(vec![0xC0, 0xC4, 0xC4, 0xD9]),
            Command::Feed,
        ])
    );
}
