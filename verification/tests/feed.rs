//! The feed and its layout.

use zerostack_ui::color::Color;
use zerostack_ui::feed::{style_from_color, BlockStyle, Feed};
use zerostack_ui::line::LineEntry;
use zerostack_ui::width::{CharRange, CharWidths};

fn feed() -> Feed {
    Feed::new(CharWidths::narrow())
}

fn texts(lines: &[LineEntry]) -> Vec<&str> {
    lines.iter().map(|l| l.as_str()).collect()
}

#[test]
fn plain_blocks_are_wrapped_in_their_color() {
    let mut f = feed();
    f.push_block(BlockStyle::Error, "one two three\r\n\nfour");
    let lines = f.lines(8);
    assert_eq!(texts(&lines), vec!["one two", "three", "", "four"]);
    assert!(lines.iter().all(|l| l.color == Color::Red));
}

#[test]
fn a_new_block_leaves_the_rows_before_it() {
    let mut f = feed();
    f.push_block(BlockStyle::Agent, "some *answer*");
    f.push_block(BlockStyle::User, "a question");
    let before = f.lines(8);
    f.push_block(BlockStyle::Tool, "one two three\r\n\nfour");
    let after = f.lines(8);
    assert_eq!(texts(&after[..before.len()]), texts(&before));
    assert_eq!(texts(&after[before.len()..]), vec!["one two", "three", "", "four"]);
    assert!(after[before.len()..].iter().all(|l| l.color == Color::Yellow));
}

#[test]
fn agent_blocks_are_marked_and_parsed() {
    let mut f = feed();
    f.push_block(BlockStyle::Agent, "# Title\n\nbody");
    let lines = f.lines(40);
    assert!(lines[0].as_str().starts_with("< "));
    assert!(lines[0].as_str().contains("Title"));
    assert_eq!(lines[0].color, Color::Cyan);
}

#[test]
fn running_block_shows_its_last_line_plain() {
    let mut f = feed();
    f.push_streaming_block(BlockStyle::Agent);
    assert!(f.append_to_last("**bold**\n**tail"));
    let lines = f.lines(40);
    assert_eq!(lines[lines.len() - 1].as_str(), "**tail");
    assert!(!lines[0].as_str().contains("**"));
    f.append_to_last("**");
    f.finalize_last();
    let done = f.lines(40);
    let mut other = feed();
    other.push_block(BlockStyle::Agent, "**bold**\n**tail**");
    assert_eq!(texts(&done), texts(&other.lines(40)));
}

#[test]
fn generation_counts_changes() {
    let mut f = feed();
    assert_eq!(f.generation(), 0);
    f.push_line(BlockStyle::Plain, "a");
    f.append_to_last("b");
    f.finalize_last();
    assert_eq!(f.generation(), 2);
    f.truncate_blocks(0);
    assert_eq!(f.generation(), 3);
    assert!(f.is_empty());
    assert!(!f.append_to_last("c"));
    f.replace_last(BlockStyle::User, "x");
    assert_eq!(f.block_count(), 1);
    f.replace_last(BlockStyle::User, "y");
    assert_eq!(f.block_count(), 1);
    f.clear();
    assert_eq!(f.block_count(), 0);
}

#[test]
fn visible_range_sticks_to_the_bottom() {
    let mut f = feed();
    for i in 0..10 {
        f.push_line(BlockStyle::Plain, &format!("line {}", i));
    }
    assert_eq!(f.line_count(80), 10);
    assert_eq!(f.visible_range(80, 0, 4), (6, 10));
    assert_eq!(f.visible_range(80, 3, 4), (3, 7));
    assert_eq!(f.visible_range(80, 100, 4), (0, 4));
    assert_eq!(f.visible_range(80, 0, 40), (0, 10));
}

#[test]
fn rows_map_to_visible_lines_only() {
    let mut f = feed();
    for i in 0..10 {
        f.push_line(BlockStyle::Plain, &format!("line {}", i));
    }
    assert_eq!(f.line_at_visual_row(80, 0, 4, 0), Some(6));
    assert_eq!(f.line_at_visual_row(80, 0, 4, 3), Some(9));
    assert_eq!(f.line_at_visual_row(80, 0, 4, 4), None);
    assert_eq!(f.line_at_visual_row(80, 3, 4, 3), Some(6));
    // Row 4 lies below the viewport, although there are more lines.
    assert_eq!(f.line_at_visual_row(80, 3, 4, 4), None);
    // Two rows of padding above ten lines in twelve rows.
    assert_eq!(f.line_at_visual_row(80, 0, 12, 1), None);
    assert_eq!(f.line_at_visual_row(80, 0, 12, 2), Some(0));
    assert_eq!(feed().line_at_visual_row(80, 0, 4, 0), None);
}

#[test]
fn selection_joins_lines() {
    let mut f = feed();
    f.push_line(BlockStyle::Plain, "");
    f.push_line(BlockStyle::Plain, "a");
    f.push_line(BlockStyle::Plain, "");
    f.push_line(BlockStyle::Plain, "b");
    assert_eq!(f.selected_text(80, 0, 3), Some("a\n\nb".to_string()));
    assert_eq!(f.selected_text(80, 3, 1), Some("a\n\nb".to_string()));
    assert_eq!(f.selected_text(80, 0, 0), None);
    assert_eq!(f.selected_text(80, 9, 12), None);
}

#[test]
fn colors_map_to_roles() {
    assert_eq!(style_from_color(Color::Green), BlockStyle::User);
    assert_eq!(style_from_color(Color::Red), BlockStyle::Error);
    assert_eq!(BlockStyle::Error.color(), Color::Red);
    assert_eq!(BlockStyle::User.color(), Color::Green);
}

#[test]
fn widths_follow_the_table() {
    let widths = CharWidths {
        zero: vec![CharRange { first: 0x300, last: 0x36f }],
        wide: vec![CharRange { first: 0x4e00, last: 0x9fff }],
    };
    assert_eq!(widths.char_display_width('a'), 1);
    assert_eq!(widths.char_display_width('\u{301}'), 0);
    assert_eq!(widths.char_display_width('\u{4e2d}'), 2);
    assert_eq!(widths.display_width("a\u{301}\u{4e2d}"), 3);
}
