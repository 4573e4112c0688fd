//! Pickers.

use zerostack_ui::keys::{Key, KeyCode, KeyModifiers};
use zerostack_ui::line::CompactText;
use zerostack_ui::pickers::{
    handle_command_picker_key, handle_file_picker_key, handle_models_picker_key,
    handle_prompt_picker_key, handle_theme_picker_key, prev_char_boundary, Names, Picker,
    PickerKind, PickerReply, PickerState,
};

fn key(code: KeyCode) -> Key {
    Key {
        code,
        modifiers: KeyModifiers { shift: false, control: false, alt: false, other: false },
    }
}

fn control(c: char) -> Key {
    Key {
        code: KeyCode::Char(c),
        modifiers: KeyModifiers { shift: false, control: true, alt: false, other: false },
    }
}

fn shift(code: KeyCode) -> Key {
    Key {
        code,
        modifiers: KeyModifiers { shift: true, control: false, alt: false, other: false },
    }
}

fn picker() -> PickerState {
    PickerState::open("", vec![])
}

fn names() -> Names {
    Names {
        prompts: vec!["ask".to_string()],
        themes: vec![],
        models: vec!["fast".to_string()],
    }
}

#[test]
fn pickers_open_and_close() {
    let mut p = Picker::Theme(PickerState::open("/theme ", vec!["dark".to_string()]));
    assert!(p.active());
    p.set_monochrome(true);
    let (kind, state) = p.draw();
    assert_eq!(kind, PickerKind::Theme);
    assert!(state.monochrome);
    assert_eq!(state.items, vec!["dark"]);
    if let Picker::Theme(s) = &mut p {
        s.deactivate();
    }
    assert!(!p.active());
}

#[test]
fn boundaries_before_an_offset() {
    let v: Vec<char> = "a\u{e9}b".chars().collect();
    assert_eq!(prev_char_boundary(&v, 0), 0);
    assert_eq!(prev_char_boundary(&v, 1), 0);
    assert_eq!(prev_char_boundary(&v, 3), 1);
    assert_eq!(prev_char_boundary(&v, 2), 1);
    assert_eq!(prev_char_boundary(&v, 9), 4);
}

#[test]
fn a_file_is_filled_in() {
    let mut buffer = CompactText::of("see @sr now");
    let mut cursor = 7;
    let mut p = picker();
    p.query = vec!['s', 'r'];
    p.cursor = 2;
    p.selected = Some("src/lib.rs".to_string());
    let r = handle_file_picker_key(&mut buffer, &mut cursor, &mut p, key(KeyCode::Enter));
    assert_eq!(r, PickerReply::Closed);
    assert_eq!(buffer.text(), "see src/lib.rs now");
    assert_eq!(cursor, 14);
    assert!(!p.active);
}

#[test]
fn a_file_query_is_typed_and_erased() {
    let mut buffer = CompactText::of("@");
    let mut cursor = 1;
    let mut p = picker();
    for c in ['\u{e9}', 'x'] {
        let r = handle_file_picker_key(&mut buffer, &mut cursor, &mut p, key(KeyCode::Char(c)));
        assert_eq!(r, PickerReply::Query);
    }
    assert_eq!(buffer.text(), "@\u{e9}x");
    assert_eq!(cursor, 4);
    handle_file_picker_key(&mut buffer, &mut cursor, &mut p, key(KeyCode::Backspace));
    handle_file_picker_key(&mut buffer, &mut cursor, &mut p, control('h'));
    assert_eq!(buffer.text(), "@");
    assert_eq!(cursor, 1);
    // Erasing with an empty query takes the sign away and closes.
    let r = handle_file_picker_key(&mut buffer, &mut cursor, &mut p, key(KeyCode::Char('\u{8}')));
    assert_eq!(r, PickerReply::Closed);
    assert_eq!(buffer.text(), "");
    assert_eq!(cursor, 0);
}

#[test]
fn a_file_query_is_given_up() {
    let mut buffer = CompactText::of("a @qu b");
    let mut cursor = 5;
    let mut p = picker();
    p.query = vec!['q', 'u'];
    p.cursor = 2;
    let r = handle_file_picker_key(&mut buffer, &mut cursor, &mut p, key(KeyCode::Esc));
    assert_eq!(r, PickerReply::Closed);
    assert_eq!(buffer.text(), "a  b");
    assert_eq!(cursor, 2);
}

#[test]
fn the_selection_moves() {
    let mut buffer = CompactText::of("@");
    let mut cursor = 1;
    let mut p = picker();
    let replies: Vec<PickerReply> = [
        key(KeyCode::Tab),
        shift(KeyCode::Tab),
        key(KeyCode::Up),
        key(KeyCode::Down),
        key(KeyCode::Insert),
    ]
    .into_iter()
    .map(|k| handle_file_picker_key(&mut buffer, &mut cursor, &mut p, k))
    .collect();
    assert_eq!(
        replies,
        vec![
            PickerReply::Next,
            PickerReply::Prev,
            PickerReply::Prev,
            PickerReply::Next,
            PickerReply::Ignored
        ]
    );
    assert_eq!(buffer.text(), "@");
}

#[test]
fn a_command_is_filled_in() {
    let mut buffer = CompactText::of("/he");
    let mut cursor = 3;
    let mut p = picker();
    p.query = vec!['h', 'e'];
    p.cursor = 2;
    p.selected = Some("/help".to_string());
    let (r, next) =
        handle_command_picker_key(&mut buffer, &mut cursor, &names(), &mut p, key(KeyCode::Enter));
    assert_eq!(r, PickerReply::Closed);
    assert!(next.is_none());
    assert_eq!(buffer.text(), "/help ");
    assert_eq!(cursor, 6);
}

#[test]
fn commands_open_pickers_for_their_arguments() {
    let mut open = |command: &str| {
        let mut buffer = CompactText::of("/");
        let mut cursor = 1;
        let mut p = picker();
        p.selected = Some(command.to_string());
        let (_, next) = handle_command_picker_key(
            &mut buffer,
            &mut cursor,
            &names(),
            &mut p,
            key(KeyCode::Enter),
        );
        next.map(|n| {
            let (kind, state) = n.draw();
            (kind, state.prefix.clone(), state.items.clone())
        })
    };
    assert_eq!(
        open("/prompt"),
        Some((PickerKind::Prompt, "/prompt ".to_string(), vec!["ask".to_string()]))
    );
    assert_eq!(
        open("/models"),
        Some((PickerKind::Models, "/models ".to_string(), vec!["fast".to_string()]))
    );
    // There are no themes to choose from.
    assert_eq!(open("/theme"), None);
    assert_eq!(
        open("/queue"),
        Some((
            PickerKind::Prompt,
            "/queue ".to_string(),
            vec!["ls".to_string(), "clear".to_string(), "pop".to_string()]
        ))
    );
    assert_eq!(open("/help"), None);
}

#[test]
fn a_command_is_given_up() {
    let mut buffer = CompactText::of("/he rest");
    let mut cursor = 3;
    let mut p = picker();
    p.query = vec!['h', 'e'];
    p.cursor = 2;
    let (r, _) =
        handle_command_picker_key(&mut buffer, &mut cursor, &names(), &mut p, key(KeyCode::Esc));
    assert_eq!(r, PickerReply::Closed);
    assert_eq!(buffer.text(), "/ rest");
    assert_eq!(cursor, 1);
}

#[test]
fn a_command_query_is_typed_and_erased() {
    let mut buffer = CompactText::of("/");
    let mut cursor = 1;
    let mut p = picker();
    let n = names();
    handle_command_picker_key(&mut buffer, &mut cursor, &n, &mut p, key(KeyCode::Char('a')));
    assert_eq!((buffer.text(), cursor), ("/a", 2));
    handle_command_picker_key(&mut buffer, &mut cursor, &n, &mut p, key(KeyCode::Backspace));
    assert_eq!((buffer.text(), cursor), ("/", 1));
    let (r, _) =
        handle_command_picker_key(&mut buffer, &mut cursor, &n, &mut p, key(KeyCode::Backspace));
    assert_eq!(r, PickerReply::Closed);
    assert_eq!(buffer.text(), "/");
}

#[test]
fn an_argument_is_filled_in() {
    let mut buffer = CompactText::of("/models fa");
    let mut cursor = 10;
    let mut p = PickerState::open("/models ", vec![]);
    p.query = vec!['f', 'a'];
    p.cursor = 2;
    p.selected = Some("fast".to_string());
    handle_models_picker_key(&mut buffer, &mut cursor, &mut p, key(KeyCode::Enter));
    assert_eq!((buffer.text(), cursor), ("/models fast", 12));
    let mut buffer = CompactText::of("/theme d");
    let mut cursor = 8;
    let mut p = PickerState::open("/theme ", vec![]);
    p.query = vec!['d'];
    p.cursor = 1;
    handle_theme_picker_key(&mut buffer, &mut cursor, &mut p, key(KeyCode::Esc));
    assert_eq!((buffer.text(), cursor), ("/theme ", 7));
    let mut buffer = CompactText::of("/queue ");
    let mut cursor = 7;
    let mut p = PickerState::open("/queue ", vec![]);
    handle_prompt_picker_key(&mut buffer, &mut cursor, &mut p, key(KeyCode::Char('l')));
    assert_eq!((buffer.text(), cursor), ("/queue l", 8));
    assert_eq!(p.query, vec!['l']);
    handle_prompt_picker_key(&mut buffer, &mut cursor, &mut p, key(KeyCode::Backspace));
    assert_eq!((buffer.text(), cursor), ("/queue ", 7));
}
