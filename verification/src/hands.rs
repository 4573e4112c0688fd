//! What the user's hands do: the mouse, the keys, and the commands that are typed.

use vstd::prelude::*;

use crate::bottom::click_target;
use crate::commands::{behind, request_in, route, RequestView, Route};
use crate::control::{
    handoff_steps, handoff_typed, mouse_down, mouse_up, question_lines, user_event,
    wheel_down, wheel_up, ReplyView,
};
use crate::draw::TermSize;
use crate::events::{clean, lemma_clean_unchanged};
use crate::feed::selection_text;
use crate::interactive::{plain_request_in, PlainView};
use crate::keys::{Key, KeyCode, UserEvent};
use crate::prompts::{known, phase_after, prompt_of, ContextView, RuleView};
use crate::renderer::RendererView;
use crate::sent::lemma_find_from;
use crate::shown::{lemma_lines_clean, line_texts};
use crate::slash::splitn;
use crate::submit::{is_command, preview};
use crate::text::{
    find_from, is_whitespace, join, lemma_lines_joined, lines, split, starts_with, trim,
    trim_start,
};
use crate::turn::{line_end, RunView};

verus! {

// ---------------------------------------------------------------------------
// The mouse
// ---------------------------------------------------------------------------

/// Pressing the mouse on one line of the chat and releasing it on another copies
/// the text from the one to the other, as they stand in their rows on the screen,
/// and leaves nothing marked. The rows are counted from the last one upwards.
pub proof fn lemma_drag_copies(
    r: RendererView,
    col: u16,
    input: Seq<char>,
    size: TermSize,
    j1: nat,
    j2: nat,
)
    requires
        r.scroll_offset == 0 || r.scroll_offset <= r.max_offset(size),
        j1 < r.visible(size) <= u16::MAX,
        j2 < r.visible(size),
        r.screen_lines(size).len() <= usize::MAX,
        r.screen_lines(size).len() - 1 - r.scroll_offset - j1 >= 0,
        r.screen_lines(size).len() - 1 - r.scroll_offset - j2 >= 0,
        click_target(
            r.feed.widths,
            r.input,
            (r.visible(size) - 1 - j1) as nat,
            col as nat,
            split(input, '\n'),
        ) is None,
        r.link_at(
            (r.screen_lines(size).len() - 1 - r.scroll_offset - j1) as usize,
            col,
            size,
        ) is None,
    ensures
        ({
            let ls = r.screen_lines(size);
            let i1 = (ls.len() - 1 - r.scroll_offset - j1) as nat;
            let i2 = (ls.len() - 1 - r.scroll_offset - j2) as nat;
            let pressed = mouse_down(r, (r.visible(size) - 1 - j1) as u16, col, input, size);
            let released = mouse_up(pressed.0, (r.visible(size) - 1 - j2) as u16, size);
            let text = selection_text(ls, i1, i2);
            &&& pressed.1 is Nothing
            &&& pressed.0.selection_active
            &&& released.1 == if text.len() > 0 {
                ReplyView::Copy(text)
            } else {
                ReplyView::Nothing
            }
            &&& !released.0.selection_active
            &&& released.0.selection_start is None && released.0.selection_end is None
            &&& released.0.feed == r.feed && released.0.scroll_offset == r.scroll_offset
        }),
{
    let ls = r.screen_lines(size);
    let row1 = (r.visible(size) - 1 - j1) as u16;
    let row2 = (r.visible(size) - 1 - j2) as u16;
    let i1 = (ls.len() - 1 - r.scroll_offset - j1) as usize;
    let i2 = (ls.len() - 1 - r.scroll_offset - j2) as usize;
    assert(r.line_at(row1, size) == Some(i1));
    let p = mouse_down(r, row1, col, input, size).0;
    assert(p.screen_lines(size) == ls);
    assert(p.line_at(row2, size) == Some(i2));
}

/// Turning the wheel down takes back what turning it up did, where it did
/// anything: first the input is scrolled up and then the chat, and down the other
/// way round.
pub proof fn lemma_wheel_turns_back(r: RendererView, size: TermSize)
    requires
        r.input.vscroll > 0 ==> r.scroll_offset == 0,
        r.input.vscroll <= r.input.max_vscroll,
        r.max_offset(size) <= usize::MAX,
    ensures
        ({
            let up = wheel_up(r, size);
            let down = wheel_down(up);
            &&& r.input.vscroll > 0 ==> up.input.vscroll == r.input.vscroll - 1 && up.scroll_offset
                == r.scroll_offset
            &&& r.input.vscroll == 0 && r.scroll_offset < r.max_offset(size) ==> up.scroll_offset
                == r.scroll_offset + 1
            &&& r.input.vscroll > 0 || r.scroll_offset < r.max_offset(size) ==> down.input
                == r.input && down.scroll_offset == r.scroll_offset
            &&& up.feed == r.feed && down.feed == r.feed
        }),
{
}

/// Whatever the screen shows, C and D held with the control key interrupt, every
/// other key is handled as a key, and a pasted text goes into the input as it is.
pub proof fn lemma_events_passed_on(
    r: RendererView,
    key: Key,
    text: String,
    input: Seq<char>,
    size: TermSize,
)
    ensures
        user_event(r, UserEvent::Key(key), input, size).1 == if key.is_control('c')
            || key.is_control('d') {
            ReplyView::Interrupt
        } else {
            ReplyView::Press(key)
        },
        user_event(r, UserEvent::Key(key), input, size).0 == r,
        user_event(r, UserEvent::Paste(text), input, size) == (r, ReplyView::Insert(text@)),
{
}

// ---------------------------------------------------------------------------
// Answers to the model
// ---------------------------------------------------------------------------

/// What stands there once all characters of `s` have been typed.
pub open spec fn typed_all(buffer: Seq<char>, s: Seq<char>) -> Seq<char>
    decreases s.len(),
{
    if s.len() == 0 {
        buffer
    } else {
        handoff_typed(typed_all(buffer, s.drop_last()), KeyCode::Char(s.last())).1
    }
}

proof fn lemma_typed_all(buffer: Seq<char>, s: Seq<char>)
    ensures
        typed_all(buffer, s) == buffer + s,
    decreases s.len(),
{
    if s.len() == 0 {
        assert(buffer + s =~= buffer);
    } else {
        lemma_typed_all(buffer, s.drop_last());
        assert((buffer + s.drop_last()).push(s.last()) =~= buffer + s);
    }
}

/// What the user types is the answer that the model gets, to the character; a
/// character that is erased is as if it had not been typed; and giving up answers
/// nothing.
pub proof fn lemma_answer_typed(s: Seq<char>, c: char)
    ensures
        handoff_typed(typed_all(Seq::empty(), s), KeyCode::Enter).0 == Some(s),
        handoff_typed(handoff_typed(s, KeyCode::Char(c)).1, KeyCode::Backspace) == (
            None::<Seq<char>>,
            s,
        ),
        handoff_typed(s, KeyCode::Esc).0 == Some(Seq::<char>::empty()),
        handoff_typed(s, KeyCode::Char(c)).0 is None,
{
    lemma_typed_all(Seq::empty(), s);
    assert(Seq::<char>::empty() + s =~= s);
    assert(s.push(c).drop_last() =~= s);
}

/// The question of the model is shown to the user, all of it and line by line.
pub proof fn lemma_question_shown(run: RunView, question: Seq<char>) -> (from: int)
    requires
        clean(question),
        !question.contains('\r'),
        question.len() > 0,
        question.last() != '\n',
    ensures
        ({
            let steps = handoff_steps(run, question);
            let n = lines(question).len();
            &&& 0 <= from && from + n <= steps.len()
            &&& join(
                line_texts(steps.subrange(from, from + n)).map_values(|t: Seq<char>| t.skip(4)),
                '\n',
            ) == question
        }),
{
    let steps = handoff_steps(run, question);
    let ls = lines(question);
    let shown = question_lines(ls);
    let from = line_end(run).len() as int + 1;
    reveal_strlit("  | ");
    lemma_lines_clean(question);
    lemma_lines_joined(question);
    assert(steps.subrange(from, from + ls.len()) =~= shown);
    let bare = line_texts(shown).map_values(|t: Seq<char>| t.skip(4));
    assert forall|i: int| 0 <= i < ls.len() implies bare[i] == ls[i] by {
        lemma_clean_unchanged(ls[i]);
        assert(("  | "@ + ls[i]).skip(4) =~= ls[i]);
    }
    assert(bare =~= ls);
    from
}

// ---------------------------------------------------------------------------
// Prompts
// ---------------------------------------------------------------------------

/// The step after a prompt is that of the first rule for the prompt, and there is
/// none exactly where no rule is for it.
pub proof fn lemma_first_rule(rules: Seq<RuleView>, prompt: Seq<char>)
    ensures
        phase_after(rules, prompt) is None ==> forall|i: int|
            0 <= i < rules.len() ==> (#[trigger] rules[i]).prompt != prompt,
        phase_after(rules, prompt) matches Some(phase) ==> exists|i: int|
            0 <= i < rules.len() && (#[trigger] rules[i]).prompt == prompt && rules[i].phase
                == phase && forall|j: int|
                0 <= j < i ==> (#[trigger] rules[j]).prompt != prompt,
    decreases rules.len(),
{
    if rules.len() > 0 && rules[0].prompt != prompt {
        let rest = rules.skip(1);
        lemma_first_rule(rest, prompt);
        match phase_after(rules, prompt) {
            None => {
                assert forall|i: int| 0 <= i < rules.len() implies (#[trigger] rules[i]).prompt
                    != prompt by {
                    if i > 0 {
                        assert(rest[i - 1] == rules[i]);
                    }
                }
            },
            Some(phase) => {
                let i = choose|i: int|
                    0 <= i < rest.len() && (#[trigger] rest[i]).prompt == prompt && rest[i].phase
                        == phase && forall|j: int|
                        0 <= j < i ==> (#[trigger] rest[j]).prompt != prompt;
                assert(rules[i + 1] == rest[i]);
                assert forall|j: int| 0 <= j < i + 1 implies (#[trigger] rules[j]).prompt
                    != prompt by {
                    if j > 0 {
                        assert(rest[j - 1] == rules[j]);
                    }
                }
            },
        }
    }
}

/// The prompt that is put in use is the one of that name, with its own text; the
/// rest of the context stays. An unknown name changes nothing.
pub proof fn lemma_prompt_in_use(ctx: ContextView, i: int, unknown: Seq<char>)
    requires
        ctx.wf(),
        0 <= i < ctx.prompts.len(),
        forall|j: int| 0 <= j < ctx.prompts.len() ==> (#[trigger] ctx.prompts[j]).name != unknown,
    ensures
        ({
            let p = ctx.prompts[i];
            ctx.using(p.name) == (ContextView {
                current_prompt: Some(p.text.text()),
                current_prompt_name: Some(p.name),
                ..ctx
            })
        }),
        ctx.using(unknown) == ctx,
{
    let name = ctx.prompts[i].name;
    assert(known(ctx.prompts, name));
    let k = choose|k: int| 0 <= k < ctx.prompts.len() && (#[trigger] ctx.prompts[k]).name == name;
    assert(k == i) by {
        if k < i {
            assert(ctx.prompts[k].name != ctx.prompts[i].name);
        } else if i < k {
            assert(ctx.prompts[i].name != ctx.prompts[k].name);
        }
    }
    assert(prompt_of(ctx.prompts, name) == ctx.prompts[i].text);
}

// ---------------------------------------------------------------------------
// What commands leave to be done
// ---------------------------------------------------------------------------

proof fn lemma_prefix(prefix: Seq<char>, s: Seq<char>)
    ensures
        starts_with(prefix + s, prefix),
        behind(prefix + s, prefix) == s,
{
    assert((prefix + s).take(prefix.len() as int) =~= prefix);
    assert((prefix + s).skip(prefix.len() as int) =~= s);
}

/// Two prefixes that differ in their seventh character: what begins with one does
/// not begin with the other.
proof fn lemma_other_prefix(prefix: Seq<char>, other: Seq<char>, s: Seq<char>)
    requires
        prefix.len() > 6,
        other.len() > 6,
        prefix[6] != other[6],
    ensures
        !starts_with(prefix + s, other),
{
    let all = prefix + s;
    if starts_with(all, other) {
        assert(all.take(other.len() as int)[6] == other[6]);
        assert(all[6] == prefix[6]);
    }
}

/// What a command leaves to be done is read back as it was left: the text of a
/// first run or the path of a file to the character, instructions and a server's
/// name without whitespace around them.
pub proof fn lemma_request_read(s: Seq<char>)
    ensures
        request_in("DEFER_INIT:"@ + s) == RequestView::Init(s),
        request_in("DEFER_EDITOR:"@ + s) == RequestView::Editor(s),
        request_in("DEFER_MCP_LOGIN:"@ + s) == RequestView::McpLogin(trim(s)),
        trim(s).len() > 0 && trim(s) != "(none)"@ ==> request_in("DEFER_COMPRESS:"@ + s)
            == RequestView::Compress(Some(trim(s))),
        trim(s).len() == 0 ==> request_in("DEFER_COMPRESS:"@ + s) == RequestView::Compress(None),
{
    let (c, m, i, r, e) = (
        "DEFER_COMPRESS:"@,
        "DEFER_MCP_LOGIN:"@,
        "DEFER_INIT:"@,
        "DEFER_REVIEW:"@,
        "DEFER_EDITOR:"@,
    );
    reveal_strlit("DEFER_COMPRESS:");
    reveal_strlit("DEFER_MCP_LOGIN:");
    reveal_strlit("DEFER_INIT:");
    reveal_strlit("DEFER_REVIEW:");
    reveal_strlit("DEFER_EDITOR:");
    assert(c[6] == 'C' && m[6] == 'M' && i[6] == 'I' && r[6] == 'R' && e[6] == 'E');
    lemma_prefix(c, s);
    lemma_prefix(m, s);
    lemma_prefix(i, s);
    lemma_prefix(e, s);
    lemma_other_prefix(m, c, s);
    lemma_other_prefix(i, c, s);
    lemma_other_prefix(i, m, s);
    lemma_other_prefix(e, c, s);
    lemma_other_prefix(e, m, s);
    lemma_other_prefix(e, i, s);
    lemma_other_prefix(e, r, s);
}

proof fn lemma_first_part(a: Seq<char>, rest: Seq<char>, n: nat)
    requires
        !a.contains(':'),
        n > 1,
    ensures
        splitn(a.push(':') + rest, ':', n) == seq![a] + splitn(rest, ':', (n - 1) as nat),
{
    let s = a.push(':') + rest;
    let i = find_from(s, ':', 0);
    lemma_find_from(s, ':', 0);
    assert(s[a.len() as int] == ':');
    if i < a.len() {
        assert(s[i] == a[i]);
        assert(a.contains(a[i]));
    }
    assert(i == a.len());
    assert(s.take(i) =~= a);
    assert(s.skip(i + 1) =~= rest);
}

/// A merge that is left to be done is read back field by field.
pub proof fn lemma_merge_read(
    branch: Seq<char>,
    target: Seq<char>,
    main_path: Seq<char>,
    wt_path: Seq<char>,
    rest: Seq<char>,
)
    requires
        !branch.contains(':'),
        !target.contains(':'),
        !main_path.contains(':'),
        !wt_path.contains(':'),
    ensures
        plain_request_in(
            "DEFER_WT_MERGE:"@ + (branch.push(':') + (target.push(':') + (main_path.push(':') + (
            wt_path.push(':') + rest)))),
        ) == (PlainView::Merge { branch, target, main_path, wt_path }),
        plain_request_in("DEFER_WT_EXIT:"@ + (main_path.push(':') + rest)) == (PlainView::Exit {
            main_path,
        }),
{
    let (c, m, x) = ("DEFER_COMPRESS:"@, "DEFER_WT_MERGE:"@, "DEFER_WT_EXIT:"@);
    reveal_strlit("DEFER_COMPRESS:");
    reveal_strlit("DEFER_WT_MERGE:");
    reveal_strlit("DEFER_WT_EXIT:");
    let s4 = wt_path.push(':') + rest;
    let s3 = main_path.push(':') + s4;
    let s2 = target.push(':') + s3;
    let s1 = branch.push(':') + s2;
    lemma_first_part(branch, s2, 5);
    lemma_first_part(target, s3, 4);
    lemma_first_part(main_path, s4, 3);
    lemma_first_part(wt_path, rest, 2);
    assert(splitn(rest, ':', 1) =~= seq![rest]);
    let p = splitn(s1, ':', 5);
    assert(p =~= seq![branch, target, main_path, wt_path, rest]);
    lemma_prefix(m, s1);
    lemma_other_prefix(m, c, s1);
    let q = main_path.push(':') + rest;
    lemma_first_part(main_path, rest, 2);
    assert(splitn(q, ':', 2) =~= seq![main_path, rest]);
    lemma_prefix(x, q);
    lemma_other_prefix(x, c, q);
    let all = x + q;
    if starts_with(all, m) {
        assert(all.take(m.len() as int)[9] == m[9]);
        assert(all[9] == x[9]);
    }
}

/// The preview of a message is its start, on one line.
pub proof fn lemma_preview(content: Seq<char>)
    ensures
        preview(content).len() <= 80,
        preview(content).len() <= content.len(),
        content.len() <= 80 ==> preview(content).len() == content.len(),
        forall|i: int|
            0 <= i < preview(content).len() ==> (#[trigger] preview(content)[i]) != '\n' && (
            content[i] != '\n' ==> preview(content)[i] == content[i]),
{
}

// ---------------------------------------------------------------------------
// Submitted lines
// ---------------------------------------------------------------------------

/// Whether a line begins with one of the signs of a command.
pub open spec fn signed(text: Seq<char>) -> bool {
    text.len() > 0 && (text[0] == '/' || text[0] == '.' || text[0] == '!')
}

/// A line that is no command is an input for the agent where nothing runs, and
/// waits where something does; a command is acted on where nothing runs, and refused
/// where something does, but for the two that may run beside it; nothing at all is
/// ignored during a run. A loop and a question to the user come first.
pub proof fn lemma_lines_routed(text: Seq<char>, running: bool)
    requires
        text.len() > 0,
        !is_whitespace(text[0]),
    ensures
        !signed(text) ==> route(text, running, false, false) == if running {
            Route::Waiting
        } else {
            Route::Input
        },
        text[0] == '!' ==> route(text, running, false, false) == if running {
            Route::Refused
        } else {
            Route::Bang
        },
        text[0] == '.' ==> route(text, running, false, false) == if running {
            Route::Refused
        } else {
            Route::Dot
        },
        text[0] == '/' && !starts_with(text, "/queue"@) && !starts_with(text, "/btw"@) ==> route(
            text,
            running,
            false,
            false,
        ) == if running {
            Route::Refused
        } else {
            Route::Slash
        },
        starts_with(text, "/btw "@) ==> route(text, running, false, false) == Route::SideQuestion,
        starts_with(text, "/queue "@) ==> route(text, running, false, false)
            == Route::QueueCommand,
        text[0] != '/' ==> route(text, running, true, false) == Route::LoopActive,
        route(text, false, false, true) == Route::ChainReply,
        route(seq![' '], true, false, false) == Route::Ignore,
{
    reveal_strlit("/queue");
    reveal_strlit("/btw");
    reveal_strlit("/queue ");
    reveal_strlit("/btw ");
    assert(trim_start(text) == text);
    assert("/queue"@.push(' ') =~= "/queue "@);
    assert("/btw"@.push(' ') =~= "/btw "@);
    lemma_command_head(text, "/queue"@);
    lemma_command_head(text, "/btw"@);
    if starts_with(text, "/btw "@) {
        assert(text.take(5)[1] == 'b');
        if is_command(text, "/queue"@) {
            assert(text.take(6)[1] == 'q');
            assert(text[1] == 'q');
        }
    }
    let blank = seq![' '];
    assert(blank.skip(1) =~= Seq::<char>::empty());
    assert(trim_start(blank.skip(1)) =~= Seq::<char>::empty());
    assert(trim_start(blank) == trim_start(blank.skip(1)));
    lemma_command_head(trim_start(blank), "/queue"@);
    lemma_command_head(trim_start(blank), "/btw"@);
}

proof fn lemma_command_head(text: Seq<char>, name: Seq<char>)
    requires
        name.len() > 0,
    ensures
        is_command(text, name) ==> starts_with(text, name) && text.len() > 0 && text[0] == name[0],
{
    if is_command(text, name) {
        if text != name {
            let p = name.push(' ');
            assert(text.take(p.len() as int) == p);
            assert(text.take(name.len() as int) =~= p.take(name.len() as int));
            assert(p.take(name.len() as int) =~= name);
            assert(text[0] == text.take(p.len() as int)[0]);
        } else {
            assert(text.take(name.len() as int) =~= name);
        }
    }
}

} // verus!
