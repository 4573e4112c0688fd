//! What is shown of a conversation: every message of a session, and what the
//! events of a turn say.

use vstd::prelude::*;

use crate::color::{Color, C_AGENT, C_BTW, C_ERROR, C_TOOL};
use crate::commands::{
    answer_lines, btw_event_steps, queue_left, queue_steps, shell_steps, BtwEvent,
};
use crate::events::{
    block, clean, dropped_control, gap, heading_end, lemma_clean_unchanged, marked_lines,
    message_blocks, messages_to, notices, sanitized, session_blocks, tool_output, InfoView,
    ToolDetails,
};
use crate::feed::{BlockStyle, BlockView};
use crate::session::{MessageRole, MessageView, SessionView};
use crate::steps::{act, echo, Action, StepView};
use crate::text::{
    decimal, join, lemma_lines_joined, lemma_split_nonempty, lemma_split_pieces, lines, split,
};
use crate::turn::{steps_after, AgentView, EventSettings, RunView};

verus! {

// ---------------------------------------------------------------------------
// Sessions
// ---------------------------------------------------------------------------

/// Whether blocks show a text line by line, each line behind a mark.
pub open spec fn shows_lines(
    bs: Seq<BlockView>,
    style: BlockStyle,
    mark: Seq<char>,
    text: Seq<char>,
) -> bool {
    &&& forall|i: int|
        0 <= i < bs.len() ==> (#[trigger] bs[i]).style == style && !bs[i].running
            && bs[i].text.len() >= mark.len() && bs[i].text.take(mark.len() as int) == mark
    &&& !text.contains('\r') && text.len() > 0 && text.last() != '\n' ==> join(
        behind_mark(bs, mark),
        '\n',
    ) == text
}

/// The texts of blocks behind their marks.
pub open spec fn behind_mark(bs: Seq<BlockView>, mark: Seq<char>) -> Seq<Seq<char>> {
    bs.map_values(|b: BlockView| b.text.skip(mark.len() as int))
}

/// Whether blocks show a message in the role of its author.
pub open spec fn shows_message(
    bs: Seq<BlockView>,
    m: MessageView,
    details: Option<ToolDetails>,
) -> bool {
    match m.role {
        MessageRole::User => shows_lines(bs, BlockStyle::User, "> "@, m.content),
        MessageRole::System => shows_lines(bs, BlockStyle::System, "# "@, m.content),
        MessageRole::ToolCall => shows_lines(bs, BlockStyle::Tool, "\u{25c8} "@, m.content),
        MessageRole::SubagentToolCall => shows_lines(
            bs,
            BlockStyle::Tool,
            "\u{2325} "@,
            m.content,
        ),
        MessageRole::Assistant => bs.len() == 1 && bs[0] == (BlockView {
            style: BlockStyle::Agent,
            text: m.content,
            running: false,
        }),
        MessageRole::ToolResult => bs.len() == 1 && bs[0].style is ToolResult && (
        details == Some(ToolDetails::Unlimited) && clean(tool_output(m.content)) ==> exists|
            head: Seq<char>,
        |
            #[trigger] (head + tool_output(m.content)) == bs[0].text),
    }
}

proof fn lemma_marked(style: BlockStyle, mark: Seq<char>, text: Seq<char>)
    ensures
        shows_lines(marked_lines(style, mark, text), style, mark, text),
{
    let bs = marked_lines(style, mark, text);
    assert forall|i: int| 0 <= i < bs.len() implies (#[trigger] bs[i]).style == style
        && !bs[i].running && bs[i].text.len() >= mark.len() && bs[i].text.take(mark.len() as int)
        == mark by {
        assert(bs[i] == block(style, mark + lines(text)[i]));
        assert((mark + lines(text)[i]).take(mark.len() as int) =~= mark);
    }
    assert forall|i: int| 0 <= i < bs.len() implies behind_mark(bs, mark)[i] == lines(text)[i] by {
        assert(bs[i] == block(style, mark + lines(text)[i]));
        assert((mark + lines(text)[i]).skip(mark.len() as int) =~= lines(text)[i]);
    }
    assert(behind_mark(bs, mark) =~= lines(text));
    if !text.contains('\r') {
        lemma_lines_joined(text);
    }
}

proof fn lemma_message_blocks(m: MessageView, details: Option<ToolDetails>)
    ensures
        shows_message(message_blocks(m, details), m, details),
{
    lemma_marked(BlockStyle::User, "> "@, m.content);
    lemma_marked(BlockStyle::System, "# "@, m.content);
    lemma_marked(BlockStyle::Tool, "\u{25c8} "@, m.content);
    lemma_marked(BlockStyle::Tool, "\u{2325} "@, m.content);
    if m.role is ToolResult && details == Some(ToolDetails::Unlimited) && clean(
        tool_output(m.content),
    ) {
        let out = tool_output(m.content);
        lemma_clean_unchanged(out);
        let head = "\u{25c8} result ("@ + decimal(out.len()) + " chars):\n"@;
        assert(head + out == message_blocks(m, details)[0].text);
    }
}

proof fn lemma_in_messages(
    ms: Seq<MessageView>,
    details: Option<ToolDetails>,
    i: nat,
    n: nat,
)
    requires
        i < n <= ms.len(),
    ensures
        ({
            let all = messages_to(ms, details, n);
            let from = messages_to(ms, details, i).len() as int;
            let bs = message_blocks(ms[i as int], details);
            &&& from + bs.len() < all.len()
            &&& all.subrange(from, from + bs.len()) == bs
            &&& all[from + bs.len()] == gap()
            &&& messages_to(ms, details, i + 1).len() == from + bs.len() + 1
        }),
    decreases n,
{
    let all = messages_to(ms, details, n);
    let before = messages_to(ms, details, (n - 1) as nat);
    let from = messages_to(ms, details, i).len() as int;
    let bs = message_blocks(ms[i as int], details);
    if i < n - 1 {
        lemma_in_messages(ms, details, i, (n - 1) as nat);
        assert(all.subrange(from, from + bs.len()) =~= before.subrange(from, from + bs.len()));
    } else {
        assert(all.subrange(from, from + bs.len()) =~= bs);
    }
}

/// Every message of a session is shown, in the order of the messages, in the role
/// of its author and as it was kept, with one empty block behind it.
pub proof fn lemma_message_shown(s: SessionView, info: InfoView, i: nat) -> (r: (int, int))
    requires
        i < s.messages.len(),
    ensures
        ({
            let all = session_blocks(s, info);
            let start = notices(s.compactions, info).len();
            &&& 0 <= r.0 <= r.1 < all.len()
            &&& shows_message(all.subrange(r.0, r.1), s.messages[i as int], info.details)
            &&& all[r.1] == gap()
            &&& r.0 == start + messages_to(s.messages, info.details, i).len()
            &&& r.1 + 1 == start + messages_to(s.messages, info.details, i + 1).len()
        }),
{
    let all = session_blocks(s, info);
    let head = notices(s.compactions, info);
    let ms = messages_to(s.messages, info.details, s.messages.len());
    let bs = message_blocks(s.messages[i as int], info.details);
    lemma_in_messages(s.messages, info.details, i, s.messages.len());
    lemma_message_blocks(s.messages[i as int], info.details);
    let at = messages_to(s.messages, info.details, i).len() as int;
    let from = head.len() + at;
    let to = from + bs.len();
    assert(all.subrange(from, to) =~= ms.subrange(at, at + bs.len()));
    assert(all[to] == ms[at + bs.len()]);
    (from, to)
}

proof fn lemma_heading_end(s: Seq<char>, i: int, j: int)
    requires
        0 <= i <= j,
        j + 1 < s.len(),
        s[j] == ':',
        s[j + 1] == '\n',
        forall|k: int| i < k <= j ==> #[trigger] s[k] != '\n',
    ensures
        heading_end(s, i) == j,
    decreases j - i,
{
    if i < j {
        assert(s[i + 1] != '\n');
        lemma_heading_end(s, i + 1, j);
    }
}

/// The heading line of a tool's result is left out, and nothing else.
pub proof fn lemma_heading_left_out(heading: Seq<char>, output: Seq<char>)
    requires
        !heading.contains('\n'),
    ensures
        tool_output(heading + seq![':', '\n'] + output) == output,
{
    let s = heading + seq![':', '\n'] + output;
    let j = heading.len() as int;
    assert forall|k: int| 0 < k <= j implies #[trigger] s[k] != '\n' by {
        if k < j {
            assert(s[k] == heading[k]);
            assert(heading.contains(heading[k]));
        }
    }
    lemma_heading_end(s, 0, j);
    assert(s.skip(j + 2) =~= output);
}

// ---------------------------------------------------------------------------
// Events
// ---------------------------------------------------------------------------

/// Whether the steps write a line.
pub open spec fn writes(steps: Seq<StepView>, text: Seq<char>, color: Color) -> bool {
    steps.contains(StepView::WriteLine(text, color))
}

/// What an event says is shown: the summary of a tool's call behind its mark, an
/// error, and how often something was tried. An error also ends the run. This is
/// said of texts without control characters, which are left out.
pub proof fn lemma_event_shown(run: RunView, ev: AgentView, set: EventSettings)
    ensures
        ({
            let steps = steps_after(run, ev, set);
            match ev {
                AgentView::ToolCall { name: _, args: _, summary } => clean(summary) ==> writes(
                    steps,
                    "\u{25c8} "@ + summary,
                    C_TOOL,
                ),
                AgentView::SubagentToolCall { name: _, args: _, summary } => clean(summary)
                    ==> writes(steps, "\u{2325} "@ + summary, C_TOOL),
                AgentView::Error(text) => {
                    &&& clean(text) ==> writes(steps, "error: "@ + text, C_ERROR)
                    &&& steps.contains(act(Action::SignalStop))
                    &&& steps.contains(act(Action::DropReceiver))
                    &&& !set.no_session ==> steps.contains(act(Action::SaveSession))
                },
                AgentView::Retrying { attempt, max } => writes(
                    steps,
                    "retrying... ("@ + decimal(attempt as nat) + "/"@ + decimal(max as nat)
                        + ")"@,
                    Color::Yellow,
                ),
                AgentView::Reasoning(text) => set.show_reasoning && clean(text) ==> steps.len() > 0
                    && steps.last() == StepView::Write(text, Color::DarkMagenta),
                AgentView::ToolResult { name, output, digest: _, tasks } => {
                    &&& name != "todo_write"@ && set.details == Some(ToolDetails::Unlimited)
                        && clean(output) ==> exists|head: Seq<char>|
                        writes(steps, #[trigger] (head + output), Color::DarkGrey)
                    &&& name != "todo_write"@ && set.details == Some(ToolDetails::Off) ==> forall|
                        i: int,
                    |
                        0 <= i < steps.len() ==> !((#[trigger] steps[i]) is WriteLine)
                },
                _ => true,
            }
        }),
{
    let steps = steps_after(run, ev, set);
    let n = steps.len() as int;
    match ev {
        AgentView::ToolCall { name: _, args: _, summary } => {
            if clean(summary) {
                lemma_marked_clean("\u{25c8} "@, summary);
                assert(steps[n - 1] == StepView::WriteLine("\u{25c8} "@ + summary, C_TOOL));
            }
        },
        AgentView::SubagentToolCall { name: _, args: _, summary } => {
            if clean(summary) {
                lemma_marked_clean("\u{2325} "@, summary);
                assert(steps[n - 1] == StepView::WriteLine("\u{2325} "@ + summary, C_TOOL));
            }
        },
        AgentView::Error(text) => {
            if clean(text) {
                lemma_clean_unchanged(text);
                assert(steps[0] == StepView::WriteLine("error: "@ + text, C_ERROR));
            }
            assert(steps[1] == act(Action::SignalStop));
            assert(steps[2] == act(Action::DropReceiver));
            if !set.no_session {
                assert(steps[3] == act(Action::SaveSession));
            }
        },
        AgentView::Retrying { attempt, max } => {
            assert(steps[n - 1] == StepView::WriteLine(
                "retrying... ("@ + decimal(attempt as nat) + "/"@ + decimal(max as nat) + ")"@,
                Color::Yellow,
            ));
        },
        AgentView::Reasoning(text) => {
            if clean(text) {
                lemma_clean_unchanged(text);
            }
        },
        AgentView::ToolResult { name, output, digest: _, tasks } => {
            if name != "todo_write"@ && set.details == Some(ToolDetails::Unlimited) && clean(
                output,
            ) {
                lemma_clean_unchanged(output);
                let head = "\u{25c8} result ("@ + decimal(output.len()) + " chars):\n"@;
                assert(steps[n - 1] == StepView::WriteLine(head + output, Color::DarkGrey));
                assert(writes(steps, head + output, Color::DarkGrey));
            }
        },
        _ => {},
    }
}

/// A mark before a text without control characters is left as it is.
proof fn lemma_marked_clean(mark: Seq<char>, s: Seq<char>)
    requires
        clean(s),
        mark == "\u{25c8} "@ || mark == "\u{2325} "@,
    ensures
        sanitized(mark + s) == mark + s,
{
    reveal_strlit("\u{25c8} ");
    reveal_strlit("\u{2325} ");
    let all = mark + s;
    assert forall|i: int| 0 <= i < all.len() implies !dropped_control(#[trigger] all[i]) by {
        if i < 2 {
            assert(all[i] == mark[i]);
        } else {
            assert(all[i] == s[i - 2]);
        }
    }
    lemma_clean_unchanged(all);
}

// ---------------------------------------------------------------------------
// Lines
// ---------------------------------------------------------------------------

/// The texts of steps that all write lines.
pub open spec fn line_texts(steps: Seq<StepView>) -> Seq<Seq<char>> {
    steps.map_values(
        |s: StepView|
            match s {
                StepView::WriteLine(text, _) => text,
                _ => Seq::empty(),
            },
    )
}

/// The lines of a text without control characters have none.
pub proof fn lemma_lines_clean(s: Seq<char>)
    requires
        clean(s),
        !s.contains('\r'),
    ensures
        forall|i: int| 0 <= i < lines(s).len() ==> clean(#[trigger] lines(s)[i]),
{
    let pieces = split(s, '\n');
    lemma_split_pieces(s, '\n');
    lemma_split_nonempty(s, '\n');
    assert forall|i: int| 0 <= i < lines(s).len() implies clean(#[trigger] lines(s)[i]) by {
        let l = lines(s)[i];
        assert forall|j: int| 0 <= j < l.len() implies !dropped_control(#[trigger] l[j]) by {
            assert(l[j] == pieces[i][j]);
            let c = pieces[i][j];
            assert(s.contains(c));
            let k = choose|k: int| 0 <= k < s.len() && s[k] == c;
            assert(!dropped_control(s[k]));
        }
    }
}

/// Lines that are shown one by one are the text that they were divided from.
proof fn lemma_answer_shown(text: Seq<char>, color: Color)
    requires
        clean(text),
        !text.contains('\r'),
        text.len() > 0,
        text.last() != '\n',
    ensures
        ({
            let steps = answer_lines(lines(text), color);
            &&& forall|i: int|
                0 <= i < steps.len() ==> ((#[trigger] steps[i]) matches StepView::WriteLine(_, c)
                    && c == color)
            &&& join(line_texts(steps), '\n') == text
        }),
{
    let steps = answer_lines(lines(text), color);
    lemma_lines_clean(text);
    lemma_lines_joined(text);
    assert forall|i: int| 0 <= i < steps.len() implies line_texts(steps)[i] == lines(text)[i] by {
        lemma_clean_unchanged(lines(text)[i]);
    }
    assert(line_texts(steps) =~= lines(text));
}

/// The answer to a side question is shown under its number, all of it and line by
/// line, and an error with its message. This is said of texts without control
/// characters and without a line feed at their end.
pub proof fn lemma_side_answer_shown(ev: BtwEvent)
    ensures
        match ev {
            BtwEvent::Done { id, response, usage: _ } => {
                let steps = btw_event_steps(ev);
                let n = steps.len() as int;
                clean(response@) && !response@.contains('\r') && response@.len() > 0
                    && response@.last() != '\n' ==> {
                    &&& n >= 2
                    &&& steps[0] == StepView::WriteLine(
                        "[btw #"@ + decimal(id as nat) + "] answer:"@,
                        C_BTW,
                    )
                    &&& join(line_texts(steps.subrange(1, n - 1)), '\n') == response@
                }
            },
            BtwEvent::Error { id, message } => clean(message@) ==> writes(
                btw_event_steps(ev),
                "[btw #"@ + decimal(id as nat) + "] error: "@ + message@,
                C_ERROR,
            ),
        },
{
    let steps = btw_event_steps(ev);
    match ev {
        BtwEvent::Done { id, response, usage: _ } => {
            if clean(response@) && !response@.contains('\r') && response@.len() > 0
                && response@.last() != '\n' {
                lemma_answer_shown(response@, C_AGENT);
                let shown = answer_lines(lines(response@), C_AGENT);
                assert(steps.subrange(1, steps.len() - 1) =~= shown);
            }
        },
        BtwEvent::Error { id, message } => {
            if clean(message@) {
                lemma_clean_unchanged(message@);
                assert(steps[0] == StepView::WriteLine(
                    "[btw #"@ + decimal(id as nat) + "] error: "@ + message@,
                    C_ERROR,
                ));
            }
        },
    }
}

/// What a shell command printed is shown, all of it and line by line, as an error
/// where the command failed.
pub proof fn lemma_shell_shown(
    text: Seq<char>,
    result: Seq<char>,
    success: bool,
    no_session: bool,
)
    requires
        clean(result),
        !result.contains('\r'),
        result.len() > 0,
        result.last() != '\n',
    ensures
        ({
            let steps = shell_steps(text, result, success, no_session);
            let n = lines(result).len() as int;
            &&& n <= steps.len()
            &&& join(line_texts(steps.take(n)), '\n') == result
            &&& forall|i: int|
                0 <= i < n ==> ((#[trigger] steps[i]) matches StepView::WriteLine(_, c) && c == if success {
                    C_AGENT
                } else {
                    C_ERROR
                })
        }),
{
    let color = if success {
        C_AGENT
    } else {
        C_ERROR
    };
    let steps = shell_steps(text, result, success, no_session);
    let shown = answer_lines(lines(result), color);
    lemma_answer_shown(result, color);
    assert(steps.take(shown.len() as int) =~= shown);
    assert forall|i: int| 0 <= i < shown.len() implies ((#[trigger] steps[i]) matches StepView::WriteLine(_, c) && c == color) by {
        assert(steps[i] == shown[i]);
    }
}

/// An input is echoed line by line behind the user's mark, and an empty line
/// follows it.
pub proof fn lemma_input_echoed(text: Seq<char>)
    requires
        clean(text),
        !text.contains('\r'),
        text.len() > 0,
        text.last() != '\n',
    ensures
        ({
            let steps = echo(text);
            let n = steps.len() - 1;
            &&& n >= 0
            &&& steps[n] == StepView::WriteLine(Seq::empty(), Color::White)
            &&& forall|i: int|
                0 <= i < n ==> ((#[trigger] steps[i]) matches StepView::WriteLine(t, c) && c
                    == Color::Green && t.len() >= 2 && t[0] == '>' && t[1] == ' ')
            &&& join(
                line_texts(steps.take(n)).map_values(|t: Seq<char>| t.skip(2)),
                '\n',
            ) == text
        }),
{
    let steps = echo(text);
    let n = steps.len() - 1;
    let ls = lines(text);
    reveal_strlit("> ");
    lemma_lines_clean(text);
    lemma_lines_joined(text);
    assert forall|i: int| 0 <= i < n implies steps[i] == StepView::WriteLine(
        "> "@ + ls[i],
        Color::Green,
    ) by {
        lemma_clean_unchanged(ls[i]);
    }
    let bare = line_texts(steps.take(n)).map_values(|t: Seq<char>| t.skip(2));
    assert forall|i: int| 0 <= i < n implies bare[i] == ls[i] by {
        assert(("> "@ + ls[i]).skip(2) =~= ls[i]);
    }
    assert(bare =~= ls);
}

/// The list of waiting inputs names every one of them, numbered from one in the
/// order in which they will be sent.
pub proof fn lemma_queue_listed(q: Seq<Seq<char>>, i: int)
    requires
        0 <= i < q.len(),
        clean(q[i]),
    ensures
        queue_steps("ls"@, q).len() == q.len() + 1,
        queue_steps("ls"@, q)[i + 1] == StepView::WriteLine(
            "  "@ + decimal((i + 1) as nat) + ". "@ + q[i],
            C_TOOL,
        ),
        queue_left("ls"@, q) == q,
        queue_left("clear"@, q).len() == 0,
{
    reveal_strlit("ls");
    reveal_strlit("clear");
    reveal_strlit("pop");
    assert("ls"@.len() == 2 && "clear"@.len() == 5 && "pop"@.len() == 3);
    lemma_clean_unchanged(q[i]);
}

} // verus!
