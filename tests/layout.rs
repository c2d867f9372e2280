use card_compose::{layout_block, layout_card, GlyphAdvances, Role, CENTER_X};

/// Every glyph advances half the font height: at pixel size 28, 18 and 20 a
/// glyph takes 14, 9 and 10 px.
fn half_em() -> GlyphAdvances {
    GlyphAdvances::new(28, 14)
}

#[test]
fn role_table() {
    assert_eq!(Role::Title.scale(), 28);
    assert_eq!(Role::Breakdown.scale(), 18);
    assert_eq!(Role::Example.scale(), 20);
    assert_eq!(Role::Example.color(), [0, 0, 0, 255]);
}

#[test]
fn one_line_block_is_centred() {
    let b = layout_block("hello world", Role::Title, CENTER_X, 100, &half_em());
    assert_eq!(b.lines.len(), 1);
    assert_eq!(b.lines[0].text, "hello world");
    // 154 px wide, centred on 140.
    assert_eq!((b.lines[0].x, b.lines[0].y), (63, 100));
    // One line of 28 * 1.3 = 36.4 px, rounded.
    assert_eq!(b.height, 36);
    assert_eq!(b.start_y, 100);
    assert_eq!(b.role, Role::Title);
}

#[test]
fn lines_flow_down_by_whole_line_steps() {
    let b = layout_block("aaaa bbbb cccc dddd", Role::Title, CENTER_X, 0, &half_em());
    let got: Vec<(String, i32, i32)> =
        b.lines.iter().map(|l| (l.text.clone(), l.x, l.y)).collect();
    assert_eq!(
        got,
        vec![("aaaa bbbb cccc".to_string(), 42, 0), ("dddd".to_string(), 112, 36)]
    );
    // Two lines of 36.4 px: 72.8, rounded.
    assert_eq!(b.height, 73);
}

#[test]
fn half_pixel_left_edge_truncates_toward_zero() {
    // 27 px wide: 140 - 13.5 = 126.5.
    let b = layout_block("abc", Role::Breakdown, CENTER_X, 0, &half_em());
    assert_eq!(b.lines[0].x, 126);
    // 297 px wide: 140 - 148.5 = -8.5.
    let wide = "x".repeat(33);
    let b = layout_block(&wide, Role::Breakdown, CENTER_X, 0, &half_em());
    assert_eq!(b.lines[0].x, -8);
    // One line of 18 * 1.3 = 23.4 px.
    assert_eq!(b.height, 23);
}

#[test]
fn oversized_token_overflows_left() {
    let token = "x".repeat(500);
    let b = layout_block(&token, Role::Title, CENTER_X, 0, &half_em());
    assert_eq!(b.lines.len(), 1);
    assert_eq!(b.lines[0].x, -3360);
}

#[test]
fn empty_text_makes_an_empty_block() {
    let b = layout_block("", Role::Example, CENTER_X, 50, &half_em());
    assert!(b.lines.is_empty());
    assert_eq!(b.height, 0);
}

#[test]
fn card_zones_follow_in_order() {
    let breakdown = vec!["one".to_string(), "two".to_string()];
    let examples = vec!["first example".to_string()];
    let card = layout_card(230, "hello world", &breakdown, &examples, &half_em());
    let starts: Vec<(Role, u128)> = card.blocks.iter().map(|b| (b.role, b.start_y)).collect();
    assert_eq!(
        starts,
        vec![
            (Role::Title, 255),
            (Role::Breakdown, 306),
            (Role::Breakdown, 336),
            (Role::Example, 373),
        ]
    );
    assert_eq!(card.cursor, 414);
    assert_eq!(card.breakdown_shown, 2);
    assert_eq!(card.examples_shown, 1);
    assert_eq!((card.blocks[1].lines[0].x, card.blocks[1].lines[0].y), (126, 306));
    assert_eq!(card.blocks[3].lines[0].text, "first example");
}

#[test]
fn cursor_never_moves_up() {
    let breakdown: Vec<String> = (0..10).map(|i| format!("item number {i}")).collect();
    let examples: Vec<String> = (0..10).map(|i| format!("sentence {i} is here")).collect();
    let card = layout_card(200, "a title that wraps onto more lines", &breakdown, &examples, &half_em());
    let starts: Vec<u128> = card.blocks.iter().map(|b| b.start_y).collect();
    assert!(starts.windows(2).all(|w| w[0] <= w[1]));
    assert!(starts.iter().all(|s| *s >= 225 && *s <= card.cursor));
    for b in &card.blocks {
        if b.role == Role::Breakdown {
            assert!(b.start_y < 445);
        }
        if b.role == Role::Example {
            assert!(b.start_y < 441);
        }
    }
}

#[test]
fn fifty_examples_are_truncated() {
    let examples: Vec<String> = (0..50).map(|_| "example sentence".to_string()).collect();
    let card = layout_card(230, "", &Vec::new(), &examples, &half_em());
    // Starts at 255, each sentence takes 26 + 15 px: 255, 296, 337, 378, 419.
    assert_eq!(card.examples_shown, 5);
    assert!(card.examples_shown < 50);
    assert_eq!(card.blocks.len(), 5);
    assert_eq!(card.cursor, 460);
}

#[test]
fn breakdown_is_truncated_and_examples_skipped_when_full() {
    let breakdown: Vec<String> = (0..20).map(|_| "item".to_string()).collect();
    let examples = vec!["never shown".to_string()];
    let card = layout_card(230, "", &breakdown, &examples, &half_em());
    // From 255 each item takes 23 + 7 px; 465 is the first at or past the
    // stop line 480 - 1.5 * 23.4 = 444.9.
    assert_eq!(card.breakdown_shown, 7);
    assert_eq!(card.examples_shown, 0);
    assert_eq!(card.cursor, 472);
}

#[test]
fn blank_title_still_takes_padding() {
    let card = layout_card(230, "   ", &Vec::new(), &Vec::new(), &half_em());
    assert_eq!(card.blocks.len(), 1);
    assert!(card.blocks[0].lines.is_empty());
    assert_eq!(card.cursor, 270);
    let card = layout_card(230, "", &Vec::new(), &Vec::new(), &half_em());
    assert!(card.blocks.is_empty());
    assert_eq!(card.cursor, 255);
}

#[test]
fn line_tops_are_rounded_multiples_of_line_height() {
    // Four lines at pixel size 28: tops at 0, 36.4, 72.8 and 109.2.
    let text = "aaaaaaaaaaaaaaa bbbbbbbbbbbbbbb ccccccccccccccc ddddddddddddddd";
    let b = layout_block(text, Role::Title, CENTER_X, 10, &half_em());
    let ys: Vec<i32> = b.lines.iter().map(|l| l.y).collect();
    assert_eq!(ys, vec![10, 46, 83, 119]);
    assert_eq!(b.height, 146);
}

#[test]
fn breakdown_stops_one_and_a_half_line_heights_above_bottom() {
    // The text starts 25 px below the image: at 450, past 444.9.
    let items = vec!["x".to_string()];
    let card = layout_card(425, "", &items, &Vec::new(), &half_em());
    assert_eq!(card.breakdown_shown, 0);
    assert_eq!(card.cursor, 457);
    // At 444 it is still laid out.
    let card = layout_card(419, "", &items, &Vec::new(), &half_em());
    assert_eq!(card.breakdown_shown, 1);
    assert_eq!(card.blocks[0].start_y, 444);
}

#[test]
fn examples_stop_at_four_hundred_forty_one() {
    let items = vec!["x".to_string()];
    let card = layout_card(416, "", &Vec::new(), &items, &half_em());
    assert_eq!(card.examples_shown, 0);
    let card = layout_card(415, "", &Vec::new(), &items, &half_em());
    assert_eq!(card.examples_shown, 1);
}
