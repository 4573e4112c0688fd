//! The renderer: what is painted, scrolled and marked.

use zerostack_ui::bottom::{
    bottom_redraw_plan, input_cursor_for_click, BottomRedrawPlan, BottomSnapshot, InputArea,
    InputView, PromptSnapshot,
};
use zerostack_ui::color::Color;
use zerostack_ui::control::{
    begin_handoff, copy_selection, end_handoff, handle_user_event, handoff_key, interruption,
    key_action, later_action, toggle_reasoning, Interruption, KeyAction, KeyContext, UserReply,
};
use zerostack_ui::display::refresh_display;
use zerostack_ui::draw::{DrawOp, TermSize};
use zerostack_ui::feed::BlockStyle;
use zerostack_ui::flow::ChainAnswer;
use zerostack_ui::interactive::handle_plain_event;
use zerostack_ui::keys::{Key, KeyCode, KeyModifiers, UserEvent};
use zerostack_ui::renderer::Renderer;
use zerostack_ui::statusline::StatusSpan;
use zerostack_ui::steps::{take_step, Action, Step, Telling};
use zerostack_ui::turn::RunState;
use zerostack_ui::width::CharWidths;

const SIZE: TermSize = TermSize { cols: 20, rows: 10 };

fn renderer() -> Renderer {
    Renderer::new(CharWidths::narrow())
}

fn filled(n: usize) -> Renderer {
    let mut r = renderer();
    for i in 0..n {
        r.write_line(&format!("line {}", i), Color::White, SIZE);
    }
    r
}

fn key(code: KeyCode) -> Key {
    Key {
        code,
        modifiers: KeyModifiers { shift: false, control: false, alt: false, other: false },
    }
}

fn control(c: char) -> Key {
    Key {
        code: KeyCode::Char(c),
        modifiers: KeyModifiers { shift: false, control: true, alt: false, other: false },
    }
}

fn printed(ops: &[DrawOp]) -> String {
    ops.iter()
        .map(|op| match op {
            DrawOp::Print(s) => s.as_str(),
            _ => "",
        })
        .collect()
}

#[test]
fn lines_written_are_painted_once() {
    let mut r = renderer();
    let drawn = r.write_line("hello", Color::Green, SIZE).unwrap();
    assert!(printed(&drawn).contains("hello"));
    // Until the frame is known to be on the screen, it is painted again.
    assert!(r.render_viewport(SIZE).is_some());
    r.record_chat_drawn(SIZE);
    assert!(r.render_viewport(SIZE).is_none());
    r.invalidate();
    assert!(r.render_viewport(SIZE).is_some());
}

#[test]
fn partial_lines_are_completed() {
    let mut r = renderer();
    r.write("ab", Color::White, SIZE);
    assert_eq!(r.partial.text(), "ab");
    assert_eq!(r.feed().block_count(), 0);
    r.write("c\nd", Color::White, SIZE);
    assert_eq!(r.feed().block_count(), 2);
    assert_eq!(r.partial.text(), "d");
    r.write_line("e", Color::White, SIZE);
    assert_eq!(r.feed().block_count(), 4);
    assert_eq!(r.partial.text(), "");
}

#[test]
fn the_chat_is_scrolled_within_its_bounds() {
    let mut r = filled(30);
    let visible = r.visible_lines(SIZE);
    assert!(!r.is_scrolling());
    r.scroll_page_up(SIZE);
    assert!(r.is_scrolling());
    r.scroll_page_down(SIZE);
    assert!(!r.is_scrolling());
    r.scroll_to_top(SIZE);
    assert_eq!(r.scroll_offset, 30 - visible);
    r.scroll_line_up(SIZE);
    assert_eq!(r.scroll_offset, 30 - visible);
    r.scroll_line_down();
    assert_eq!(r.scroll_offset, 29 - visible);
    r.scroll_to_bottom(SIZE);
    assert_eq!(r.scroll_offset, 0);
    r.scroll_line_down();
    assert_eq!(r.scroll_offset, 0);
}

#[test]
fn lines_are_found_by_row() {
    let mut r = filled(30);
    let visible = r.visible_lines(SIZE);
    assert_eq!(r.buffer_line_at_row(0, SIZE), Some(30 - visible));
    let mut short = filled(1);
    assert_eq!(short.buffer_line_at_row(0, SIZE), None);
    assert_eq!(
        short.buffer_line_at_row(visible as u16 - 1, SIZE),
        Some(0)
    );
}

#[test]
fn text_is_marked_and_copied() {
    let mut r = filled(30);
    let first = 30 - r.visible_lines(SIZE);
    let down = UserEvent::MouseDown { row: 0, col: 0 };
    assert_eq!(handle_user_event(down, &mut r, "", SIZE), UserReply::Nothing);
    assert!(r.selection_active);
    handle_user_event(UserEvent::MouseDrag { row: 1, col: 0 }, &mut r, "", SIZE);
    let up = UserEvent::MouseUp { row: 1, col: 0 };
    assert_eq!(
        handle_user_event(up, &mut r, "", SIZE),
        UserReply::Copy(format!("line {}\nline {}", first, first + 1))
    );
    assert!(!r.selection_active);
    r.selection_active = true;
    r.selection_start = Some(0);
    r.selection_end = Some(0);
    let (text, steps) = copy_selection(&mut r, SIZE);
    assert_eq!(text, Some("line 0".to_string()));
    assert_eq!(steps, vec![Step::WriteLine("copied selection".to_string(), Color::Green)]);
}

#[test]
fn links_are_opened() {
    let mut r = renderer();
    r.write_line("http://a.b", Color::White, SIZE);
    let row = r.visible_lines(SIZE) as u16 - 1;
    let margin = r.chat_margin;
    let down = UserEvent::MouseDown { row, col: margin + 2 };
    assert_eq!(
        handle_user_event(down, &mut r, "", SIZE),
        UserReply::OpenUrl("http://a.b".to_string())
    );
    // The plain session marks the line all the same.
    let down = UserEvent::MouseDown { row, col: margin + 2 };
    assert_eq!(handle_plain_event(down, &mut r, SIZE), UserReply::Nothing);
    assert!(r.selection_active);
}

#[test]
fn the_wheel_moves_input_and_chat() {
    let mut r = filled(30);
    handle_user_event(UserEvent::ScrollUp, &mut r, "", SIZE);
    assert_eq!(r.scroll_offset, 1);
    handle_user_event(UserEvent::ScrollDown, &mut r, "", SIZE);
    assert_eq!(r.scroll_offset, 0);
    r.input.max_vscroll = 1;
    handle_user_event(UserEvent::ScrollDown, &mut r, "", SIZE);
    assert_eq!(r.input.vscroll, 1);
    handle_user_event(UserEvent::ScrollUp, &mut r, "", SIZE);
    assert_eq!((r.input.vscroll, r.scroll_offset), (0, 0));
    handle_plain_event(UserEvent::ScrollUp, &mut r, SIZE);
    assert_eq!(r.scroll_offset, 1);
}

#[test]
fn other_events_are_handed_on() {
    let mut r = renderer();
    let paste = UserEvent::Paste("p".to_string());
    assert_eq!(handle_user_event(paste, &mut r, "", SIZE), UserReply::Insert("p".to_string()));
    for c in ['c', 'd'] {
        assert_eq!(
            handle_user_event(UserEvent::Key(control(c)), &mut r, "", SIZE),
            UserReply::Interrupt
        );
    }
    let k = key(KeyCode::Char('c'));
    assert_eq!(handle_user_event(UserEvent::Key(k), &mut r, "", SIZE), UserReply::Press(k));
    assert_eq!(interruption(1, true), Interruption::SideQuestions);
    assert_eq!(interruption(0, true), Interruption::MainRun);
    assert_eq!(interruption(0, false), Interruption::Leave);
}

#[test]
fn keys_have_meanings() {
    let idle = KeyContext {
        selection_active: false,
        picker_active: false,
        chain_prompt: false,
        but_mode: false,
    };
    let marked = KeyContext { selection_active: true, ..idle };
    let asked = KeyContext { chain_prompt: true, ..idle };
    let but = KeyContext { but_mode: true, ..idle };
    let picking = KeyContext { picker_active: true, ..asked };
    assert_eq!(key_action(&key(KeyCode::Char('y')), marked), KeyAction::CopySelection);
    assert_eq!(key_action(&key(KeyCode::Esc), marked), KeyAction::ClearSelection);
    assert_eq!(key_action(&control('r'), idle), KeyAction::ToggleReasoning);
    assert_eq!(key_action(&key(KeyCode::PageUp), idle), KeyAction::PageUp);
    assert_eq!(key_action(&key(KeyCode::PageDown), idle), KeyAction::PageDown);
    assert_eq!(key_action(&key(KeyCode::Home), picking), KeyAction::ToTop);
    assert_eq!(key_action(&key(KeyCode::End), idle), KeyAction::ToBottom);
    assert_eq!(key_action(&key(KeyCode::Char('y')), picking), KeyAction::Picker);
    assert_eq!(
        later_action(&key(KeyCode::Char('y')), picking),
        KeyAction::Answer(ChainAnswer::Yes)
    );
    assert_eq!(key_action(&control('g'), asked), KeyAction::OpenEditor);
    assert_eq!(key_action(&control('h'), asked), KeyAction::Lazygit);
    assert_eq!(key_action(&key(KeyCode::Char('N')), asked), KeyAction::Answer(ChainAnswer::No));
    assert_eq!(key_action(&key(KeyCode::Char('b')), asked), KeyAction::Answer(ChainAnswer::But));
    assert_eq!(key_action(&key(KeyCode::Enter), asked), KeyAction::Swallow);
    assert_eq!(key_action(&key(KeyCode::Esc), but), KeyAction::CancelBut);
    assert_eq!(key_action(&key(KeyCode::Char('y')), but), KeyAction::Edit);
    assert_eq!(key_action(&key(KeyCode::Esc), idle), KeyAction::Edit);
}

#[test]
fn reasoning_is_toggled() {
    let mut show = false;
    assert_eq!(
        toggle_reasoning(&mut show),
        Step::WriteLine("reasoning visibility: on".to_string(), Color::White)
    );
    assert!(show);
    toggle_reasoning(&mut show);
    assert!(!show);
}

#[test]
fn guidance_is_asked_for() {
    let mut run = RunState::idle();
    run.agent_line_started = true;
    let steps = begin_handoff("a\nb", &mut run);
    assert_eq!(steps.len(), 6);
    assert_eq!(steps[2], Step::WriteLine("  | a".to_string(), Color::Green));
    assert!(!run.agent_line_started);
    let mut buffer: Vec<char> = Vec::new();
    assert_eq!(
        handoff_key(&mut buffer, KeyCode::Char('x')),
        (None, vec![Step::WriteLine("  > x".to_string(), Color::Green)])
    );
    handoff_key(&mut buffer, KeyCode::Char('y'));
    handoff_key(&mut buffer, KeyCode::Backspace);
    assert_eq!(handoff_key(&mut buffer, KeyCode::Up), (None, vec![]));
    assert_eq!(handoff_key(&mut buffer, KeyCode::Enter), (Some("x".to_string()), vec![]));
    assert_eq!(handoff_key(&mut buffer, KeyCode::Esc), (Some(String::new()), vec![]));
    assert_eq!(
        end_handoff("x")[0],
        Step::WriteLine("  [sent: x]".to_string(), Color::Green)
    );
    assert_eq!(
        end_handoff("")[0],
        Step::WriteLine("  [cancelled]".to_string(), Color::Green)
    );
}

fn snapshot(input: &str) -> BottomSnapshot {
    BottomSnapshot {
        cols: 20,
        rows: 10,
        statusline_height: 1,
        input: input.to_string(),
        cursor_pos: 0,
        is_running: false,
        spinner_frame: 0,
        input_vscroll_offset: 0,
        prompt: PromptSnapshot::Input,
        statusline: vec![],
        scroll_indicator: false,
        monochrome: false,
        input_bg: None,
        status_bg: None,
    }
}

#[test]
fn the_bottom_is_painted_as_far_as_it_changed() {
    let a = snapshot("x");
    assert_eq!(bottom_redraw_plan(None, &a, false), BottomRedrawPlan::Full);
    assert_eq!(bottom_redraw_plan(Some(&a), &snapshot("x"), false), BottomRedrawPlan::Skip);
    assert_eq!(bottom_redraw_plan(Some(&a), &snapshot("x"), true), BottomRedrawPlan::Full);
    assert_eq!(bottom_redraw_plan(Some(&a), &snapshot("y"), false), BottomRedrawPlan::Full);
    let mut b = snapshot("x");
    b.scroll_indicator = true;
    assert_eq!(bottom_redraw_plan(Some(&a), &b, false), BottomRedrawPlan::StatuslineOnly);
}

#[test]
fn clicks_place_the_cursor() {
    let mut view = InputView::new();
    view.base_row = 5;
    view.visible_count = 2;
    view.prompt_width = 2;
    assert_eq!(
        input_cursor_for_click(&view, 6, 3, "ab\ncd", &CharWidths::narrow()),
        Some((1, 1))
    );
    assert_eq!(input_cursor_for_click(&view, 4, 3, "ab\ncd", &CharWidths::narrow()), None);
    assert_eq!(input_cursor_for_click(&view, 7, 3, "ab\ncd", &CharWidths::narrow()), None);
    assert_eq!(
        input_cursor_for_click(&view, 5, 30, "ab\ncd", &CharWidths::narrow()),
        Some((0, 2))
    );
}

#[test]
fn the_caret_stays_in_view() {
    let area = InputArea {
        lines: vec!["abcdefghijklmnopqrstuvwxyz".chars().collect()],
        cursor_pos: 26,
        cursor_line: 0,
        cursor_col: 26,
        prompt_width: 2,
        cols: 20,
        available: 8,
    };
    let last = InputView::new();
    let layout = area.layout(&last, &CharWidths::narrow());
    // Eighteen columns are left for the text, so the first eight are scrolled away.
    assert_eq!(layout.h_scroll, 8);
    assert_eq!(area.caret(&last, &layout, &CharWidths::narrow()), (20, 8));
}

#[test]
fn a_settled_display_is_left_alone() {
    let mut r = renderer();
    r.write_line("hello", Color::White, SIZE);
    let status = vec![vec![StatusSpan::Text { text: "st".to_string(), fg: None, bg: None }]];
    let f = refresh_display(&mut r, "in", 2, (0, 2), &status, false, None, SIZE);
    assert!(f.chat.is_none() || printed(f.chat.as_ref().unwrap()).contains("hello"));
    assert!(printed(f.bottom.as_ref().unwrap()).contains("in"));
    let f = refresh_display(&mut r, "in", 2, (0, 2), &status, false, None, SIZE);
    assert!(f.chat.is_none());
    let again = refresh_display(&mut r, "in", 2, (0, 2), &status, false, None, SIZE);
    assert!(again.chat.is_none());
    // An open picker paints over both regions, which are painted again after it.
    let f = refresh_display(&mut r, "in", 2, (0, 2), &status, false, Some(true), SIZE);
    assert!(f.picker);
    let f = refresh_display(&mut r, "in", 2, (0, 2), &status, false, Some(false), SIZE);
    assert!(f.chat.is_some() && f.bottom.is_some());
}

#[test]
fn steps_change_the_screen() {
    let mut r = renderer();
    take_step(&mut r, &Step::Tell(Telling::ShowChainPrompt, "go?".to_string()), SIZE);
    assert_eq!(r.chain_prompt.as_ref().unwrap().question.text(), "go?");
    take_step(&mut r, &Step::Act(Action::ButModeOn), SIZE);
    assert!(r.chain_but_mode);
    take_step(&mut r, &Step::Act(Action::HideChainPrompt), SIZE);
    assert!(r.chain_prompt.is_none());
    take_step(&mut r, &Step::Block(BlockStyle::Agent, "a".to_string()), SIZE);
    take_step(&mut r, &Step::Block(BlockStyle::Agent, "b".to_string()), SIZE);
    take_step(&mut r, &Step::TruncateBlocks(1), SIZE);
    assert_eq!(r.feed().block_count(), 1);
}

#[test]
fn changes_to_the_feed_are_noticed() {
    let mut r = filled(3);
    r.record_chat_drawn(SIZE);
    assert!(!r.chat_needs_redraw(SIZE));
    r.feed_mut().push_line(BlockStyle::Plain, "behind its back");
    assert!(r.chat_needs_redraw(SIZE));
    r.record_chat_drawn(SIZE);
    // The same width with another margin is another frame.
    r.set_chat_margin(1, SIZE);
    assert!(r.chat_needs_redraw(TermSize { cols: 21, rows: 10 }));
}

#[test]
fn a_painted_chat_is_left_alone_until_it_changes() {
    assert!(renderer().chat_needs_redraw(SIZE));
    let mut r = filled(3);
    r.record_chat_drawn(SIZE);
    assert!(!r.chat_needs_redraw(SIZE));
    assert!(!r.chat_needs_redraw(SIZE));
    r.invalidate();
    assert!(r.chat_needs_redraw(SIZE));
    r.record_chat_drawn(SIZE);
    r.clear_selection();
    assert!(r.chat_needs_redraw(SIZE));
    r.record_chat_drawn(SIZE);
    r.selection_active = true;
    assert!(r.chat_needs_redraw(SIZE));
    r.record_chat_drawn(SIZE);
    r.selection_start = Some(1);
    assert!(r.chat_needs_redraw(SIZE));
    r.record_chat_drawn(SIZE);
    r.selection_end = Some(2);
    assert!(r.chat_needs_redraw(SIZE));
    r.record_chat_drawn(SIZE);
    r.feed_mut().append_to_last("more");
    assert!(r.chat_needs_redraw(SIZE));
    r.record_chat_drawn(SIZE);
    r.feed_mut().truncate_blocks(1);
    assert!(r.chat_needs_redraw(SIZE));
    r.record_chat_drawn(SIZE);
    r.feed_mut().clear();
    assert!(r.chat_needs_redraw(SIZE));
}

#[test]
fn a_running_spinner_is_painted_on() {
    let mut r = renderer();
    let status: Vec<Vec<StatusSpan>> = vec![];
    let first = refresh_display(&mut r, "", 0, (0, 0), &status, true, None, SIZE);
    let second = refresh_display(&mut r, "", 0, (0, 0), &status, true, None, SIZE);
    let a = printed(first.bottom.as_ref().unwrap());
    let b = printed(second.bottom.as_ref().unwrap());
    assert!(a.contains('\u{280b}') && b.contains('\u{2819}'));
    refresh_display(&mut r, "", 0, (0, 0), &status, false, None, SIZE);
    let idle = refresh_display(&mut r, "", 0, (0, 0), &status, false, None, SIZE);
    assert!(idle.bottom.is_none());
}

#[test]
fn the_chat_is_painted_above_the_input() {
    let mut r = filled(30);
    let one_line = r.visible_lines(SIZE);
    let freed = r.sync_input_height("a\nb\nc", SIZE);
    assert!(freed.is_empty());
    assert_eq!(r.visible_lines(SIZE), one_line - 2);
    let status: Vec<Vec<StatusSpan>> = vec![];
    refresh_display(&mut r, "a\nb\nc", 0, (0, 0), &status, false, None, SIZE);
    assert_eq!(r.prev_input_height, 3);
    let freed = r.sync_input_height("a", SIZE);
    assert!(!freed.is_empty());
    assert_eq!(r.visible_lines(SIZE), one_line);
    // A tall input is cut short, with the cursor's line in view.
    let tall = "x\n".repeat(40);
    let f = refresh_display(&mut r, &tall, 80, (40, 0), &status, false, None, SIZE);
    assert!(f.bottom.is_some());
    assert_eq!(r.prev_input_height, 5);
    assert_eq!(r.input.first_visible, 36);
    let (_, row) = r.bottom_cursor.unwrap();
    assert!(row >= r.input.base_row && row < r.input.base_row + 5);
}
