use styled_print::style::{
    set_style, undo_style, Font, JustifyMode, Style, StyleCommand, StyleLayer, UnderlineMode,
};

#[test]
fn bold_and_underline_apply_then_revert() {
    let style = Style::new(vec![StyleLayer::Bold, StyleLayer::Underline(UnderlineMode::Single)]);
    let mut all = set_style(&style);
    all.extend(undo_style(&style));
    assert_eq!(
        all,
        vec![
            StyleCommand::Bold(true),
            StyleCommand::Underline(UnderlineMode::Single),
            StyleCommand::Bold(false),
            StyleCommand::Underline(UnderlineMode::Off),
        ]
    );
}

#[test]
fn every_layer_has_its_command_and_reset() {
    let style = Style::new(vec![
        StyleLayer::Font(Font::C),
        StyleLayer::Size((2, 3)),
        StyleLayer::Justify(JustifyMode::Center),
        StyleLayer::UpsideDown,
        StyleLayer::Reverse,
        StyleLayer::DoubleStrike,
        StyleLayer::LineSpacing(40),
    ]);
    assert_eq!(
        set_style(&style),
        vec![
            StyleCommand::Font(Font::C),
            StyleCommand::Size(2, 3),
            StyleCommand::Justify(JustifyMode::Center),
            StyleCommand::UpsideDown(true),
            StyleCommand::Reverse(true),
            StyleCommand::DoubleStrike(true),
            StyleCommand::LineSpacing(40),
        ]
    );
    assert_eq!(
        undo_style(&style),
        vec![
            StyleCommand::Font(Font::A),
            StyleCommand::ResetSize,
            StyleCommand::Justify(JustifyMode::Left),
            StyleCommand::UpsideDown(false),
            StyleCommand::Reverse(false),
            StyleCommand::DoubleStrike(false),
            StyleCommand::ResetLineSpacing,
        ]
    );
}

#[test]
fn revert_depends_on_kind_only() {
    let a = Style::new(vec![StyleLayer::Font(Font::B), StyleLayer::Underline(UnderlineMode::Double)]);
    let b = Style::new(vec![StyleLayer::Font(Font::C), StyleLayer::Underline(UnderlineMode::Single)]);
    assert_eq!(undo_style(&a), undo_style(&b));
    assert_eq!(undo_style(&a).len(), set_style(&a).len());
}

#[test]
fn empty_style_has_no_commands() {
    let style = Style::new(vec![]);
    assert!(set_style(&style).is_empty());
    assert!(undo_style(&style).is_empty());
}
