use card_compose::{split_words, text_width, wrap_text, GlyphAdvances, MAX_TEXT_WIDTH};

/// Every glyph advances half the font height: 14 px at pixel size 28.
fn half_em() -> GlyphAdvances {
    GlyphAdvances::new(28, 14)
}

#[test]
fn hello_world_fits_on_one_line() {
    let lines = wrap_text("hello world", MAX_TEXT_WIDTH, 28, &half_em());
    assert_eq!(lines, vec!["hello world".to_string()]);
}

#[test]
fn long_token_is_one_unsplit_line() {
    let token = "x".repeat(500);
    let lines = wrap_text(&token, MAX_TEXT_WIDTH, 28, &half_em());
    assert_eq!(lines.len(), 1);
    assert_eq!(lines[0].chars().count(), 500);
    assert_eq!(lines[0], token);
}

#[test]
fn empty_text_has_no_lines() {
    assert!(wrap_text("", MAX_TEXT_WIDTH, 28, &half_em()).is_empty());
    assert!(wrap_text(" \t\n ", MAX_TEXT_WIDTH, 28, &half_em()).is_empty());
}

#[test]
fn whitespace_is_normalized_on_one_line() {
    let lines = wrap_text("  hello \t\n world  ", MAX_TEXT_WIDTH, 28, &half_em());
    assert_eq!(lines, vec!["hello world".to_string()]);
}

#[test]
fn greedy_wrap_breaks_before_overflow() {
    // 17 characters of 14 px fit in 240 px; 19 do not.
    let lines = wrap_text("aaaa bbbb cccc dddd", MAX_TEXT_WIDTH, 28, &half_em());
    assert_eq!(lines, vec!["aaaa bbbb cccc".to_string(), "dddd".to_string()]);
}

#[test]
fn exactly_full_line_fits() {
    let text = "a".repeat(17);
    let lines = wrap_text(&text, MAX_TEXT_WIDTH, 28, &half_em());
    assert_eq!(lines, vec![text]);
    let longer = "a".repeat(18);
    let lines = wrap_text(&longer, MAX_TEXT_WIDTH, 28, &half_em());
    assert_eq!(lines, vec![longer]);
}

#[test]
fn wide_word_in_the_middle_stands_alone() {
    let wide = "x".repeat(20);
    let text = format!("ab {} cd", wide);
    let lines = wrap_text(&text, MAX_TEXT_WIDTH, 28, &half_em());
    assert_eq!(lines, vec!["ab".to_string(), wide, "cd".to_string()]);
}

#[test]
fn smaller_scale_fits_more() {
    // At pixel size 20 a glyph takes 10 px: 24 characters fit.
    let text = "abcde fghij klmno pqrst uvwxy";
    let lines = wrap_text(text, MAX_TEXT_WIDTH, 20, &half_em());
    assert_eq!(
        lines,
        vec!["abcde fghij klmno pqrst".to_string(), "uvwxy".to_string()]
    );
}

#[test]
fn narrow_space_lets_words_join() {
    let mut m = GlyphAdvances::new(28, 14);
    m.set_advance(' ', 0);
    // 17 letters and two zero-width spaces fit exactly.
    let lines = wrap_text("aaaaaa bbbbbb ccccc", MAX_TEXT_WIDTH, 28, &m);
    assert_eq!(lines, vec!["aaaaaa bbbbbb ccccc".to_string()]);
}

#[test]
fn words_split_on_unicode_white_space() {
    let ws = split_words("a\u{3000}b\u{a0}c  d\u{2028}e");
    assert_eq!(ws, vec!["a", "b", "c", "d", "e"]);
    assert!(split_words("").is_empty());
    assert_eq!(split_words("  one  "), vec!["one"]);
}

#[test]
fn width_sums_advances() {
    let mut m = half_em();
    m.set_advance('a', 5);
    assert_eq!(m.advance('a'), 5);
    assert_eq!(m.advance('b'), 14);
    assert_eq!(text_width("abc", &m), 33);
    assert_eq!(text_width("", &m), 0);
    m.set_advance('a', 7);
    assert_eq!(text_width("aa", &m), 14);
}
