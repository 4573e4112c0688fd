//! Links, the clipboard and byte offsets.

use zerostack_ui::bytes::{base64_encode, bytes_of, char_len, offset_of, position_at};
use zerostack_ui::clipboard::{clipboard_helpers, clipboard_sequence, url_openers};
use zerostack_ui::urls::UrlScanner;
use zerostack_ui::width::{CharRange, CharWidths};

#[test]
fn addresses_are_found_as_character_positions() {
    let s = UrlScanner::new();
    assert_eq!(s.scan("no address"), vec![]);
    assert_eq!(s.scan("\u{e9} http://a.b https://c<x>"), vec![(2, 12), (13, 22)]);
    // A scheme alone is none.
    assert_eq!(s.scan("http:// x"), vec![]);
}

#[test]
fn addresses_become_links() {
    let s = UrlScanner::new();
    assert_eq!(s.wrap_urls_osc8("plain"), "plain");
    assert_eq!(
        s.wrap_urls_osc8("see http://a.b now"),
        "see \u{1b}]8;;http://a.b\u{1b}\\http://a.b\u{1b}]8;;\u{1b}\\ now"
    );
}

#[test]
fn address_under_a_column() {
    let s = UrlScanner::new();
    let w = CharWidths { zero: vec![], wide: vec![CharRange { first: 0x4e00, last: 0x9fff }] };
    let text = "\u{4e2d} http://a.b";
    assert_eq!(s.url_at_column(text, 2, &w), None);
    assert_eq!(s.url_at_column(text, 3, &w), Some("http://a.b".to_string()));
    assert_eq!(s.url_at_column(text, 12, &w), Some("http://a.b".to_string()));
    assert_eq!(s.url_at_column(text, 13, &w), None);
}

#[test]
fn base64_of_known_texts() {
    assert_eq!(base64_encode(b""), "");
    assert_eq!(base64_encode(b"f"), "Zg==");
    assert_eq!(base64_encode(b"fo"), "Zm8=");
    assert_eq!(base64_encode(b"foo"), "Zm9v");
    assert_eq!(base64_encode(b"foobar"), "Zm9vYmFy");
    assert_eq!(base64_encode(&[0xff, 0xfe, 0xfd, 0xfc]), "//79/A==");
}

#[test]
fn clipboard_request_of_the_terminal() {
    assert_eq!(clipboard_sequence(b"foo"), "\u{1b}]52;c;Zm9v\u{7}");
}

#[test]
fn helpers_are_tried_in_order() {
    let h = clipboard_helpers();
    let names: Vec<&str> = h.iter().map(|x| x.program.as_str()).collect();
    assert_eq!(names, vec!["wl-copy", "xclip", "pbcopy", "clip.exe"]);
    assert_eq!(h[1].args, vec!["-selection", "clipboard"]);
    let o = url_openers("http://a.b");
    assert_eq!(o[0].program, "xdg-open");
    assert_eq!(o[2].args, vec!["/c", "start", "http://a.b"]);
}

#[test]
fn byte_offsets_of_characters() {
    assert_eq!(char_len('a'), 1);
    assert_eq!(char_len('\u{e9}'), 2);
    assert_eq!(char_len('\u{20ac}'), 3);
    assert_eq!(char_len('\u{1f600}'), 4);
    let v: Vec<char> = "a\u{e9}b".chars().collect();
    assert_eq!(bytes_of(&v), 4);
    assert_eq!(offset_of(&v, 2), 3);
    assert_eq!(position_at(&v, 3), 2);
}
