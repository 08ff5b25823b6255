use styled_print::layout::{border_characters, frame, wrap, BorderType};

fn strings(v: &[&str]) -> Vec<String> {
    v.iter().map(|s| s.to_string()).collect()
}

#[test]
fn wrap_packs_words_greedily() {
    assert_eq!(wrap("the quick brown fox", Some(10)), strings(&["the quick", "brown fox"]));
}

#[test]
fn wrap_keeps_oversized_word_whole() {
    assert_eq!(
        wrap("supercalifragilisticexpialidocious", Some(10)),
        strings(&["supercalifragilisticexpialidocious"])
    );
}

#[test]
fn wrap_oversized_word_between_short_ones() {
    assert_eq!(
        wrap("a verylongword b", Some(5)),
        strings(&["a", "verylongword", "b"])
    );
}

#[test]
fn wrap_without_width_is_one_line() {
    assert_eq!(wrap("a  b\tc ", None), strings(&["a  b\tc "]));
    assert_eq!(wrap("", None), strings(&[""]));
}

#[test]
fn wrap_empty_text_gives_no_lines() {
    assert_eq!(wrap("", Some(10)), Vec::<String>::new());
}

#[test]
fn wrap_word_of_exact_width() {
    assert_eq!(wrap("hello world", Some(5)), strings(&["hello", "world"]));
    assert_eq!(wrap("ab cd", Some(5)), strings(&["ab cd"]));
}

#[test]
fn wrap_keeps_literal_spaces() {
    assert_eq!(wrap("a  b", Some(10)), strings(&["a  b"]));
    assert_eq!(wrap(" a", Some(10)), strings(&["a"]));
}

#[test]
fn wrap_counts_characters_not_bytes() {
    assert_eq!(wrap("ñañá ñu", Some(7)), strings(&["ñañá ñu"]));
}

#[test]
fn wrap_lines_fit_the_width() {
    let text = "lorem ipsum dolor sit amet consectetur adipiscing elit sed do";
    for w in 1..30u32 {
        for line in wrap(text, Some(w)) {
            let n = line.chars().count() as u32;
            assert!(n <= w || (!line.contains(' ') && text.split(' ').any(|x| x == line)));
        }
    }
}

#[test]
fn wrap_rejoins_to_the_same_words() {
    let text = "one  two three   four five six seven";
    for w in 0..20u32 {
        let joined = wrap(text, Some(w)).join(" ");
        let a: Vec<&str> = joined.split(' ').filter(|x| !x.is_empty()).collect();
        let b: Vec<&str> = text.split(' ').filter(|x| !x.is_empty()).collect();
        assert_eq!(a, b);
    }
}

#[test]
fn frame_single_line() {
    assert_eq!(
        frame(&strings(&["hi"]), Some(BorderType::Single)),
        strings(&["┌────┐", "│ hi │", "└────┘"])
    );
}

#[test]
fn frame_pads_to_widest_line() {
    assert_eq!(
        frame(&strings(&["a", "abc"]), Some(BorderType::Black)),
        strings(&["▄▄▄▄▄▄▄", "▐ a   ▌", "▐ abc ▌", "▀▀▀▀▀▀▀"])
    );
}

#[test]
fn frame_empty_is_two_rules() {
    assert_eq!(
        frame(&Vec::new(), Some(BorderType::Double)),
        strings(&["╔══╗", "╚══╝"])
    );
}

#[test]
fn frame_without_border_is_unchanged() {
    assert_eq!(frame(&strings(&["x", "yy"]), None), strings(&["x", "yy"]));
}

#[test]
fn frame_is_rectangular() {
    let lines = strings(&["short", "a much longer line", "", "mid"]);
    for b in [
        BorderType::Single,
        BorderType::Double,
        BorderType::LightShade,
        BorderType::MediumShade,
        BorderType::DarkShade,
        BorderType::Black,
    ] {
        let framed = frame(&lines, Some(b));
        assert_eq!(framed.len(), lines.len() + 2);
        for l in &framed {
            assert_eq!(l.chars().count(), 18 + 4);
        }
    }
}

#[test]
fn border_tables() {
    let d = border_characters(BorderType::Double);
    assert_eq!((d.top_left, d.top, d.bottom_right), ('╔', '═', '╝'));
    let l = border_characters(BorderType::LightShade);
    assert_eq!((l.left, l.right, l.bottom), ('░', '░', '░'));
    let m = border_characters(BorderType::MediumShade);
    assert_eq!(m.top_right, '▒');
    let k = border_characters(BorderType::DarkShade);
    assert_eq!(k.bottom_left, '▓');
    let b = border_characters(BorderType::Black);
    assert_eq!((b.top, b.left, b.right, b.bottom), ('▄', '▐', '▌', '▀'));
}

#[test]
fn wrap_at_width_zero() {
    assert_eq!(wrap("", Some(0)), Vec::<String>::new());
    assert_eq!(wrap("a  b", Some(0)), strings(&["a", "b"]));
    assert_eq!(wrap("ab c", Some(0)), strings(&["ab", "c"]));
}

#[test]
fn wrap_never_emits_empty_lines() {
    let text = "  x  yy   zzz  ";
    for w in 0..10u32 {
        for line in wrap(text, Some(w)) {
            assert!(!line.is_empty());
        }
    }
    assert_eq!(wrap("   ", Some(3)), Vec::<String>::new());
}
