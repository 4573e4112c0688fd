//! The status line.

use zerostack_ui::color::Color;
use zerostack_ui::draw::{DrawOp, TermSize};
use zerostack_ui::statusline::{draw_statusline, StatusSpan};
use zerostack_ui::width::CharWidths;

fn text(s: &str) -> StatusSpan {
    StatusSpan::Text { text: s.to_string(), fg: None, bg: None }
}

fn draw(status: Vec<Vec<StatusSpan>>, height: u16, cols: u16, scrolling: bool) -> Vec<DrawOp> {
    let mut out = Vec::new();
    let size = TermSize { cols, rows: 10 };
    draw_statusline(&mut out, &status, height, size, scrolling, None, &CharWidths::narrow());
    out
}

/// The text of each row, by its number.
fn rows(ops: &[DrawOp]) -> Vec<(u16, String)> {
    let mut rows: Vec<(u16, String)> = Vec::new();
    for op in ops {
        match op {
            DrawOp::MoveTo(_, y) => {
                if rows.last().map(|r| r.0) != Some(*y) {
                    rows.push((*y, String::new()));
                }
            }
            DrawOp::Print(s) => rows.last_mut().unwrap().1.push_str(s),
            _ => {}
        }
    }
    rows
}

#[test]
fn flexible_space_fills_the_row() {
    let one = draw(vec![vec![text("ab"), StatusSpan::Flex, text("c")]], 1, 10, false);
    assert_eq!(rows(&one), vec![(9, "ab       c".to_string())]);
    let two = draw(
        vec![vec![text("a"), StatusSpan::Flex, text("b"), StatusSpan::Flex, text("c")]],
        1,
        12,
        false,
    );
    // Nine columns are shared: the first space gets five, the second four.
    assert_eq!(rows(&two), vec![(9, "a     b    c".to_string())]);
    let three = draw(
        vec![vec![StatusSpan::Flex, text("x"), StatusSpan::Flex, text("y"), StatusSpan::Flex]],
        1,
        10,
        false,
    );
    assert_eq!(rows(&three), vec![(9, "   x   y  ".to_string())]);
}

#[test]
fn long_texts_are_cut() {
    let ops = draw(vec![vec![text("abcdef"), StatusSpan::Flex, text("gh")]], 1, 4, false);
    assert_eq!(rows(&ops), vec![(9, "abcd".to_string())]);
}

#[test]
fn fewer_lines_leave_the_upper_rows_blank() {
    let ops = draw(vec![vec![text("last")]], 3, 20, false);
    assert_eq!(
        rows(&ops),
        vec![(7, String::new()), (8, String::new()), (9, "last".to_string())]
    );
}

#[test]
fn scroll_mark_stands_in_the_top_row() {
    let ops = draw(vec![vec![text("a")], vec![text("b")]], 2, 20, true);
    assert_eq!(rows(&ops), vec![(8, "-- SCROLL -- a".to_string()), (9, "b".to_string())]);
    assert!(ops.contains(&DrawOp::SetForeground(Color::DarkYellow)));
}
