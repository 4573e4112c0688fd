//! Wrapping and tables.

use zerostack_ui::color::Color;
use zerostack_ui::line::LineEntry;
use zerostack_ui::table::{flush_table, format_table_row, format_table_rule, push_table_line, Align};
use zerostack_ui::width::{CharRange, CharWidths};
use zerostack_ui::wrap::word_wrap;

fn wrapped(text: &str, width: usize) -> Vec<String> {
    let w = word_wrap(text, width, &CharWidths::narrow());
    (0..w.len()).map(|i| w.line(i).to_string()).collect()
}

#[test]
fn words_are_wrapped() {
    assert_eq!(wrapped("one two three", 8), vec!["one two", "three"]);
    assert_eq!(wrapped("one", 80), vec!["one"]);
    assert_eq!(wrapped("", 10), vec![""]);
}

#[test]
fn many_lines_are_kept_in_order() {
    let lines = wrapped("a b c d e f g", 1);
    assert_eq!(lines, vec!["a", "b", "c", "d", "e", "f", "g"]);
}

#[test]
fn long_words_are_cut() {
    assert_eq!(wrapped("abcdefgh", 3), vec!["abc", "def", "gh"]);
    // What is written is neither lost nor reordered.
    let joined: String = wrapped("the quickbrownfox jumps", 6).concat();
    let ink: String = joined.chars().filter(|c| *c != ' ').collect();
    assert_eq!(ink, "thequickbrownfoxjumps");
}

#[test]
fn words_that_fit_are_kept_whole() {
    // The words of the lines are the words of the text.
    let text = " the  quick\tbrown fox\n jumps over ";
    let lines = wrapped(text, 7);
    let words: Vec<&str> = lines.iter().flat_map(|l| l.split_whitespace()).collect();
    assert_eq!(words, text.split_whitespace().collect::<Vec<&str>>());
    assert!(lines.len() > 1);
}

#[test]
fn lines_end_only_where_they_have_to() {
    let text = "a bb ccc dddd e ff ggg hhhh i";
    for max in 4..30 {
        let lines = wrapped(text, max);
        for l in &lines {
            assert!(!l.is_empty() && l.trim() == l);
        }
        for pair in lines.windows(2) {
            let next = pair[1].split_whitespace().next().unwrap();
            assert!(pair[0].len() + 1 + next.len() >= max);
        }
    }
}

#[test]
fn wide_characters_take_two_columns() {
    let widths = CharWidths { zero: vec![], wide: vec![CharRange { first: 0x4e00, last: 0x9fff }] };
    let w = word_wrap("\u{4e2d}\u{4e2d}\u{4e2d}", 4, &widths);
    assert_eq!(w.len(), 2);
    assert_eq!(w.line(0), "\u{4e2d}\u{4e2d}");
}

#[test]
fn rules_span_the_columns() {
    assert_eq!(format_table_rule(&[1, 3], '<', '+', '>'), "<\u{2500}\u{2500}\u{2500}+\u{2500}\u{2500}\u{2500}\u{2500}\u{2500}>");
}

#[test]
fn cells_are_aligned() {
    let cells = vec!["a".to_string(), "b".to_string(), "c".to_string()];
    let rows = format_table_row(
        &cells,
        &[3, 3, 3],
        &[Align::Left, Align::Center, Align::Right],
        &CharWidths::narrow(),
    );
    assert_eq!(rows, vec!["\u{2502} a   \u{2502}  b  \u{2502}   c \u{2502}"]);
}

#[test]
fn tables_are_framed() {
    let mut out: Vec<LineEntry> = Vec::new();
    let rows = vec![
        vec!["h".to_string(), "k".to_string()],
        vec!["1".to_string(), "22".to_string()],
    ];
    flush_table(&rows, &[Align::Unset, Align::Right], 40, &CharWidths::narrow(), &mut out);
    let texts: Vec<&str> = out.iter().map(|l| l.as_str()).collect();
    assert_eq!(texts.len(), 5);
    assert!(texts[0].starts_with('\u{250c}') && texts[0].ends_with('\u{2510}'));
    assert!(texts[4].starts_with('\u{2514}'));
    let widths: Vec<usize> = texts.iter().map(|t| t.chars().count()).collect();
    assert!(widths.iter().all(|w| *w == widths[0]));
    // The border is straight where cells are broken into lines, too.
    let mut cut: Vec<LineEntry> = Vec::new();
    let long = vec![
        vec!["some heading".to_string(), "x".to_string()],
        vec!["".to_string(), "a much longer cell than that".to_string()],
    ];
    flush_table(&long, &[Align::Center], 24, &CharWidths::narrow(), &mut cut);
    assert!(cut.len() > 5);
    assert!(cut.iter().all(|l| l.as_str().chars().count() == cut[0].as_str().chars().count()));
    let mut none: Vec<LineEntry> = Vec::new();
    flush_table(&[], &[], 40, &CharWidths::narrow(), &mut none);
    assert!(none.is_empty());
    push_table_line("x", Color::Blue, &mut none);
    assert_eq!((none[0].as_str(), none[0].color), ("x", Color::Blue));
}
