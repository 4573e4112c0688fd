//! What the events of a turn leave in the session: its messages, the tools it
//! used, and the tokens that were spent.

use vstd::prelude::*;

use crate::events::{clean, lemma_clean_unchanged};
use crate::session::MessageRole;
use crate::steps::{act, Action, StepView, ToolNote, TurnUsage};
use crate::turn::{
    run_after, settling, steps_after, AgentView, EventSettings, FeedEnd, RunView,
};

verus! {

/// A message as it is kept: who it is from, and its text.
pub type Kept = (MessageRole, Seq<char>);

/// The messages of a session after a list of steps.
pub open spec fn messages_after(ms: Seq<Kept>, steps: Seq<StepView>) -> Seq<Kept>
    decreases steps.len(),
{
    if steps.len() == 0 {
        ms
    } else {
        let before = messages_after(ms, steps.drop_last());
        match steps.last() {
            StepView::AddMessage(role, text) => before.push((role, text)),
            StepView::TruncateMessages(n) => if n < before.len() {
                before.take(n as int)
            } else {
                before
            },
            _ => before,
        }
    }
}

/// The tools that a list of steps notes.
pub open spec fn tools_noted(steps: Seq<StepView>) -> Seq<(ToolNote, Seq<char>, Seq<char>)>
    decreases steps.len(),
{
    if steps.len() == 0 {
        Seq::empty()
    } else {
        let before = tools_noted(steps.drop_last());
        match steps.last() {
            StepView::NoteTool(note, name, text) => before.push((note, name, text)),
            _ => before,
        }
    }
}

/// The usages that a list of steps adds to the session's tokens and cost.
pub open spec fn usages_added(steps: Seq<StepView>) -> Seq<TurnUsage>
    decreases steps.len(),
{
    if steps.len() == 0 {
        Seq::empty()
    } else {
        let before = usages_added(steps.drop_last());
        match steps.last() {
            StepView::AddUsage(u) => before.push(u),
            _ => before,
        }
    }
}

/// Whether a step leaves the session as it is.
pub open spec fn silent(step: StepView) -> bool {
    !(step is AddMessage || step is TruncateMessages || step is NoteTool || step is AddUsage)
}

/// What one more step leaves.
pub proof fn lemma_push(ms: Seq<Kept>, steps: Seq<StepView>, step: StepView)
    ensures
        silent(step) ==> messages_after(ms, steps.push(step)) == messages_after(ms, steps),
        silent(step) ==> tools_noted(steps.push(step)) == tools_noted(steps),
        silent(step) ==> usages_added(steps.push(step)) == usages_added(steps),
        step matches StepView::AddMessage(role, text) ==> {
            &&& messages_after(ms, steps.push(step)) == messages_after(ms, steps).push((role, text))
            &&& tools_noted(steps.push(step)) == tools_noted(steps)
            &&& usages_added(steps.push(step)) == usages_added(steps)
        },
        step matches StepView::NoteTool(note, name, text) ==> {
            &&& messages_after(ms, steps.push(step)) == messages_after(ms, steps)
            &&& tools_noted(steps.push(step)) == tools_noted(steps).push((note, name, text))
            &&& usages_added(steps.push(step)) == usages_added(steps)
        },
        step matches StepView::AddUsage(u) ==> {
            &&& messages_after(ms, steps.push(step)) == messages_after(ms, steps)
            &&& tools_noted(steps.push(step)) == tools_noted(steps)
            &&& usages_added(steps.push(step)) == usages_added(steps).push(u)
        },
{
    assert(steps.push(step).drop_last() =~= steps);
}

/// Steps that leave the session as it is, behind others.
pub proof fn lemma_silent_tail(ms: Seq<Kept>, a: Seq<StepView>, b: Seq<StepView>)
    requires
        forall|i: int| 0 <= i < b.len() ==> silent(#[trigger] b[i]),
    ensures
        messages_after(ms, a + b) == messages_after(ms, a),
        tools_noted(a + b) == tools_noted(a),
        usages_added(a + b) == usages_added(a),
    decreases b.len(),
{
    if b.len() == 0 {
        assert(a + b =~= a);
    } else {
        let init = b.drop_last();
        assert forall|i: int| 0 <= i < init.len() implies silent(#[trigger] init[i]) by {
            assert(init[i] == b[i]);
        }
        lemma_silent_tail(ms, a, init);
        assert(silent(b[b.len() - 1]));
        assert(a + b =~= (a + init).push(b.last()));
        lemma_push(ms, a + init, b.last());
    }
}

/// Steps that leave the session as it is.
pub proof fn lemma_silent(ms: Seq<Kept>, steps: Seq<StepView>)
    requires
        forall|i: int| 0 <= i < steps.len() ==> silent(#[trigger] steps[i]),
    ensures
        messages_after(ms, steps) == ms,
        tools_noted(steps) == Seq::<(ToolNote, Seq<char>, Seq<char>)>::empty(),
        usages_added(steps) == Seq::<TurnUsage>::empty(),
{
    let none = Seq::<StepView>::empty();
    lemma_silent_tail(ms, none, steps);
    assert(none + steps =~= steps);
}

/// The end of an answer adds exactly one message to the session, whatever the
/// state of the run: the assistant's, with the whole answer. What the answer used
/// is added once.
#[verifier::spinoff_prover]
pub proof fn lemma_answer_kept(
    run: RunView,
    set: EventSettings,
    ms: Seq<Kept>,
    response: Seq<char>,
    usage: TurnUsage,
)
    ensures
        ({
            let steps = steps_after(run, AgentView::Done { response, usage }, set);
            &&& messages_after(ms, steps) == ms.push((MessageRole::Assistant, response))
            &&& usages_added(steps) == seq![usage]
            &&& tools_noted(steps).len() == 0
            &&& steps.len() > 0 && steps.last() == StepView::Calibrate(usage)
        }),
{
    let steps = steps_after(run, AgentView::Done { response, usage }, set);
    let n = steps.len();
    let add = StepView::AddMessage(MessageRole::Assistant, response);
    let spent = StepView::AddUsage(usage);
    let shown = steps.take(n - 3);
    assert forall|i: int| 0 <= i < shown.len() implies silent(#[trigger] shown[i]) by {}
    lemma_silent(ms, shown);
    let s1 = shown.push(add);
    let s2 = s1.push(spent);
    lemma_push(ms, shown, add);
    lemma_push(ms, s1, spent);
    lemma_push(ms, s2, StepView::Calibrate(usage));
    assert(steps =~= s2.push(StepView::Calibrate(usage)));
    assert(usages_added(steps) =~= seq![usage]);
}

/// Only the end of an answer adds a message. Of the other events, a call of a tool
/// and its result are noted, once and as they came, and a report of the provider
/// is added to what was spent; nothing else touches the session.
#[verifier::spinoff_prover]
pub proof fn lemma_events_kept(run: RunView, set: EventSettings, ms: Seq<Kept>, ev: AgentView)
    requires
        !(ev is Done),
    ensures
        ({
            let steps = steps_after(run, ev, set);
            &&& messages_after(ms, steps) == ms
            &&& tools_noted(steps) == match ev {
                AgentView::ToolCall { name, args, summary: _ } => seq![
                    (ToolNote::Call, name, args),
                ],
                AgentView::SubagentToolCall { name, args, summary: _ } => seq![
                    (ToolNote::SubagentCall, name, args),
                ],
                AgentView::ToolResult { name, output, digest: _, tasks: _ } => seq![
                    (ToolNote::Result, name, output),
                ],
                _ => Seq::empty(),
            }
            &&& usages_added(steps) == match ev {
                AgentView::CompletionCall(usage) => seq![usage],
                _ => Seq::empty(),
            }
        }),
{
    let steps = steps_after(run, ev, set);
    let none = Seq::<StepView>::empty();
    match ev {
        AgentView::ToolCall { name, args, summary: _ } => {
            let k = if run.agent_line_started {
                1int
            } else {
                0
            };
            lemma_one_note(ms, steps, k, ToolNote::Call, name, args);
        },
        AgentView::SubagentToolCall { name, args, summary: _ } => {
            lemma_one_note(ms, steps, 0, ToolNote::SubagentCall, name, args);
        },
        AgentView::ToolResult { name, output, digest: _, tasks: _ } => {
            lemma_one_note(ms, steps, 0, ToolNote::Result, name, output);
        },
        AgentView::CompletionCall(usage) => {
            let raise = StepView::RaiseEstimate(usage);
            lemma_push(ms, none, raise);
            lemma_push(ms, none.push(raise), StepView::AddUsage(usage));
            assert(steps =~= none.push(raise).push(StepView::AddUsage(usage)));
            assert(usages_added(steps) =~= seq![usage]);
        },
        _ => {
            assert forall|i: int| 0 <= i < steps.len() implies silent(#[trigger] steps[i]) by {}
            lemma_silent(ms, steps);
        },
    }
}

/// Steps of which only number `k` touches the session, by noting a tool.
proof fn lemma_one_note(
    ms: Seq<Kept>,
    steps: Seq<StepView>,
    k: int,
    note: ToolNote,
    name: Seq<char>,
    text: Seq<char>,
)
    requires
        0 <= k < steps.len(),
        steps[k] == StepView::NoteTool(note, name, text),
        forall|i: int| 0 <= i < steps.len() && i != k ==> silent(#[trigger] steps[i]),
    ensures
        messages_after(ms, steps) == ms,
        tools_noted(steps) == seq![(note, name, text)],
        usages_added(steps) == Seq::<TurnUsage>::empty(),
{
    let head = steps.take(k);
    let rest = steps.skip(k + 1);
    assert forall|i: int| 0 <= i < head.len() implies silent(#[trigger] head[i]) by {
        assert(head[i] == steps[i]);
    }
    assert forall|i: int| 0 <= i < rest.len() implies silent(#[trigger] rest[i]) by {
        assert(rest[i] == steps[i + k + 1]);
    }
    lemma_silent(ms, head);
    lemma_push(ms, head, steps[k]);
    lemma_silent_tail(ms, head.push(steps[k]), rest);
    assert(steps =~= head.push(steps[k]) + rest);
    assert(tools_noted(steps) =~= seq![(note, name, text)]);
}

/// An answer that has ended is settled: the session is written to disk where
/// sessions are kept, after it was shortened where it has grown too large, and
/// nothing listens to the run any more.
pub proof fn lemma_answer_settled(no_session: bool, compact: bool)
    ensures
        ({
            let steps = settling(no_session, compact);
            let n = steps.len();
            &&& n >= 2 && steps[n - 2] == act(Action::SignalStop) && steps[n - 1] == act(
                Action::DropReceiver,
            )
            &&& !no_session ==> n >= 3 && steps[n - 3] == act(Action::SaveSession)
            &&& !no_session && compact ==> n == 4 && (steps[0] matches StepView::Compress {
                instructions,
                auto,
                on_error: _,
            } && auto && instructions is None)
            &&& no_session ==> n == 2
            &&& !compact ==> n <= 3
        }),
{
}

/// Answers do not run into one another: the first piece of an answer after the end
/// of another is all that there is of it, and it begins a block of its own.
pub proof fn lemma_answers_apart(
    run: RunView,
    set: EventSettings,
    feed: FeedEnd,
    response: Seq<char>,
    usage: TurnUsage,
    text: Seq<char>,
)
    ensures
        ({
            let over = run_after(run, AgentView::Done { response, usage }, set, feed);
            let next = run_after(over, AgentView::Token(text), set, feed);
            &&& over.response_buf.len() == 0 && over.response_start_block is None
            &&& clean(text) ==> next.response_buf == text
            &&& clean(text) && text.len() > 0 ==> steps_after(
                over,
                AgentView::Token(text),
                set,
            ).contains(act(Action::StartBlock))
        }),
{
    let over = run_after(run, AgentView::Done { response, usage }, set, feed);
    if clean(text) {
        lemma_clean_unchanged(text);
        assert(Seq::<char>::empty() + text =~= text);
        let steps = steps_after(over, AgentView::Token(text), set);
        if text.len() > 0 {
            assert(steps[0] == act(Action::StartBlock));
        }
    }
}

} // verus!
