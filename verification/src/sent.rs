//! What becomes of an input: it is kept, it starts one run, and it is given back
//! where that run fails.

use vstd::prelude::*;

use crate::color::C_ERROR;
use crate::commands::{
    argument, behind, btw_steps, dot_message, dot_name, dot_request, dot_steps, request_steps, shell_output,
    shell_steps, spawn_steps, word_end, DotRequest, RequestView,
};
use crate::flow::{
    answer_steps, continue_prompt, final_steps, loop_steps, main_run, recap, relief_steps,
    reply_steps, start_steps, started, trace_text, transition_steps, transition_text,
    ChainAnswer, ChainView, Tail,
};
use crate::interactive::{normal_steps, plain_run, side_steps};
use crate::prompts::{known, ContextView, PhaseView, RuleView};
use crate::record::{
    lemma_push, lemma_silent_tail, messages_after, silent, Kept,
};
use crate::session::MessageRole;
use crate::slash::splitn;
use crate::steps::{echo, RunKind, StepView, Telling};
use crate::text::{find_from, is_whitespace, join, starts_with, trim, trim_start};
use crate::turn::RunView;
use crate::verbatim::lemma_trim_ink;
use crate::wrap::{ink, ink_of_lines, lemma_ink_concat, lemma_ink_lines_push, lemma_ink_push};

verus! {

// ---------------------------------------------------------------------------
// What steps start and tell
// ---------------------------------------------------------------------------

/// The runs that a list of steps starts, with what each is started on.
pub open spec fn runs(steps: Seq<StepView>) -> Seq<(Seq<char>, RunKind)>
    decreases steps.len(),
{
    if steps.len() == 0 {
        Seq::empty()
    } else {
        let before = runs(steps.drop_last());
        match steps.last() {
            StepView::Spawn(prompt, kind) => before.push((prompt, kind)),
            _ => before,
        }
    }
}

/// What a list of steps puts into the input line.
pub open spec fn loaded(steps: Seq<StepView>) -> Seq<Seq<char>>
    decreases steps.len(),
{
    if steps.len() == 0 {
        Seq::empty()
    } else {
        let before = loaded(steps.drop_last());
        match steps.last() {
            StepView::Tell(Telling::LoadInput, text) => before.push(text),
            _ => before,
        }
    }
}

/// What a list of steps notes in the history of inputs.
pub open spec fn remembered(steps: Seq<StepView>) -> Seq<Seq<char>>
    decreases steps.len(),
{
    if steps.len() == 0 {
        Seq::empty()
    } else {
        let before = remembered(steps.drop_last());
        match steps.last() {
            StepView::Tell(Telling::AppendHistory, text) => before.push(text),
            _ => before,
        }
    }
}

/// Whether a step starts no run and tells nothing about inputs.
spec fn mute(step: StepView) -> bool {
    &&& !(step is Spawn)
    &&& !(step matches StepView::Tell(what, _) && (what is LoadInput || what is AppendHistory))
}

proof fn lemma_told(steps: Seq<StepView>, step: StepView)
    ensures
        runs(steps.push(step)) == match step {
            StepView::Spawn(prompt, kind) => runs(steps).push((prompt, kind)),
            _ => runs(steps),
        },
        loaded(steps.push(step)) == match step {
            StepView::Tell(Telling::LoadInput, text) => loaded(steps).push(text),
            _ => loaded(steps),
        },
        remembered(steps.push(step)) == match step {
            StepView::Tell(Telling::AppendHistory, text) => remembered(steps).push(text),
            _ => remembered(steps),
        },
{
    assert(steps.push(step).drop_last() =~= steps);
}

proof fn lemma_mute_tail(a: Seq<StepView>, b: Seq<StepView>)
    requires
        forall|i: int| 0 <= i < b.len() ==> mute(#[trigger] b[i]),
    ensures
        runs(a + b) == runs(a),
        loaded(a + b) == loaded(a),
        remembered(a + b) == remembered(a),
    decreases b.len(),
{
    if b.len() == 0 {
        assert(a + b =~= a);
    } else {
        let init = b.drop_last();
        assert forall|i: int| 0 <= i < init.len() implies mute(#[trigger] init[i]) by {
            assert(init[i] == b[i]);
        }
        lemma_mute_tail(a, init);
        assert(mute(b[b.len() - 1]));
        assert(a + b =~= (a + init).push(b.last()));
        lemma_told(a + init, b.last());
    }
}

/// Steps behind others that neither touch the session nor start or tell anything.
proof fn lemma_idle_tail(ms: Seq<Kept>, a: Seq<StepView>, b: Seq<StepView>)
    requires
        forall|i: int| 0 <= i < b.len() ==> silent(#[trigger] b[i]) && mute(b[i]),
    ensures
        messages_after(ms, a + b) == messages_after(ms, a),
        runs(a + b) == runs(a),
        loaded(a + b) == loaded(a),
        remembered(a + b) == remembered(a),
{
    lemma_silent_tail(ms, a, b);
    assert forall|i: int| 0 <= i < b.len() implies mute(#[trigger] b[i]) by {
        assert(silent(b[i]));
    }
    lemma_mute_tail(a, b);
}

/// The text of an input as it is echoed changes nothing else.
proof fn lemma_echo_idle(ms: Seq<Kept>, a: Seq<StepView>, text: Seq<char>)
    ensures
        messages_after(ms, a + echo(text)) == messages_after(ms, a),
        runs(a + echo(text)) == runs(a),
        loaded(a + echo(text)) == loaded(a),
        remembered(a + echo(text)) == remembered(a),
{
    let b = echo(text);
    assert forall|i: int| 0 <= i < b.len() implies silent(#[trigger] b[i]) && mute(b[i]) by {}
    lemma_idle_tail(ms, a, b);
}

#[verifier::spinoff_prover]
proof fn lemma_start_taken(ms: Seq<Kept>, a: Seq<StepView>, text: Seq<char>, no_session: bool)
    ensures
        ({
            let r = a + start_steps(text, no_session);
            &&& messages_after(ms, r) == messages_after(ms, a).push((MessageRole::User, text))
            &&& runs(r) == runs(a).push((text, main_run()))
            &&& loaded(r) == loaded(a)
            &&& remembered(r) == if no_session {
                remembered(a)
            } else {
                remembered(a).push(text)
            }
        }),
{
    let s = start_steps(text, no_session);
    let run = StepView::Spawn(text, main_run());
    let add = StepView::AddMessage(MessageRole::User, text);
    let s0 = s.take(2);
    let a1 = a + s0;
    assert forall|i: int| 0 <= i < s0.len() implies silent(#[trigger] s0[i]) && mute(s0[i]) by {}
    lemma_idle_tail(ms, a, s0);
    let a2 = a1.push(run);
    lemma_push(ms, a1, run);
    lemma_told(a1, run);
    let a3 = a2.push(s[3]);
    lemma_push(ms, a2, s[3]);
    lemma_told(a2, s[3]);
    let a4 = a3.push(add);
    lemma_push(ms, a3, add);
    lemma_told(a3, add);
    let a5 = a4.push(s[5]);
    lemma_push(ms, a4, s[5]);
    lemma_told(a4, s[5]);
    let r = a + s;
    if no_session {
        assert(r =~= a5);
    } else {
        let note = StepView::Tell(Telling::AppendHistory, text);
        lemma_push(ms, a5, note);
        lemma_told(a5, note);
        assert(r =~= a5.push(note));
    }
}

// ---------------------------------------------------------------------------
// Sending
// ---------------------------------------------------------------------------

/// An input that is sent is kept as the user's message, once and as it was
/// entered; exactly one run starts, on that input, and it goes on from the messages
/// so far and can be stopped. It is remembered where sessions are kept.
pub proof fn lemma_input_sent(ms: Seq<Kept>, text: Seq<char>, no_session: bool)
    ensures
        ({
            let steps = echo(text) + start_steps(text, no_session);
            &&& messages_after(ms, steps) == ms.push((MessageRole::User, text))
            &&& runs(steps) == seq![
                (text, (RunKind { fresh: false, abortable: true, iteration: None })),
            ]
            &&& loaded(steps).len() == 0
            &&& remembered(steps) == if no_session {
                Seq::empty()
            } else {
                seq![text]
            }
        }),
{
    let none = Seq::<StepView>::empty();
    lemma_echo_idle(ms, none, text);
    assert(none + echo(text) =~= echo(text));
    lemma_start_taken(ms, echo(text), text, no_session);
    let steps = echo(text) + start_steps(text, no_session);
    assert(runs(steps) =~= seq![
        (text, (RunKind { fresh: false, abortable: true, iteration: None })),
    ]);
    assert(!no_session ==> remembered(steps) =~= seq![text]);
}

/// The same in the plain session, whose runs cannot be stopped from outside.
#[verifier::spinoff_prover]
pub proof fn lemma_plain_input_sent(ms: Seq<Kept>, text: Seq<char>, no_session: bool)
    ensures
        ({
            let steps = normal_steps(text, no_session);
            &&& messages_after(ms, steps) == ms.push((MessageRole::User, text))
            &&& runs(steps) == seq![
                (text, (RunKind { fresh: false, abortable: false, iteration: None })),
            ]
            &&& remembered(steps) == if no_session {
                Seq::empty()
            } else {
                seq![text]
            }
        }),
{
    let none = Seq::<StepView>::empty();
    let e = echo(text);
    lemma_echo_idle(ms, none, text);
    assert(none + e =~= e);
    let s = normal_steps(text, no_session);
    let n = e.len() as int;
    let ready = seq![s[n], s[n + 1]];
    assert forall|i: int| 0 <= i < ready.len() implies silent(#[trigger] ready[i]) && mute(
        ready[i],
    ) by {}
    lemma_idle_tail(ms, e, ready);
    let a1 = e + ready;
    let run = StepView::Spawn(text, plain_run());
    let add = StepView::AddMessage(MessageRole::User, text);
    lemma_push(ms, a1, run);
    lemma_told(a1, run);
    let a2 = a1.push(run);
    lemma_push(ms, a2, add);
    lemma_told(a2, add);
    let a3 = a2.push(add);
    if no_session {
        assert(s =~= a3);
    } else {
        let note = StepView::Tell(Telling::AppendHistory, text);
        lemma_push(ms, a3, note);
        lemma_told(a3, note);
        assert(s =~= a3.push(note));
        assert(remembered(s) =~= seq![text]);
    }
    assert(runs(s) =~= seq![
        (text, (RunKind { fresh: false, abortable: false, iteration: None })),
    ]);
}

/// At the end of a turn that went well the oldest waiting input is sent, and no
/// other.
#[verifier::spinoff_prover]
pub proof fn lemma_next_input_sent(
    run: RunView,
    chain: ChainView,
    ctx: ContextView,
    rules: Seq<RuleView>,
    tail: Tail,
    no_session: bool,
    ms: Seq<Kept>,
)
    requires
        !run.is_running,
    ensures
        ({
            let steps = final_steps(run, chain, ctx, rules, false, tail, no_session);
            let first = run.pending_inputs[0];
            if run.pending_inputs.len() == 0 {
                &&& messages_after(ms, steps) == ms
                &&& runs(steps).len() == 0
                &&& loaded(steps).len() == 0
            } else {
                &&& messages_after(ms, steps) == ms.push((MessageRole::User, first))
                &&& runs(steps) == seq![(first, main_run())]
                &&& loaded(steps).len() == 0
            }
        }),
{
    let steps = final_steps(run, chain, ctx, rules, false, tail, no_session);
    let none = Seq::<StepView>::empty();
    if run.pending_inputs.len() == 0 {
        assert forall|i: int| 0 <= i < steps.len() implies silent(#[trigger] steps[i]) && mute(
            steps[i],
        ) by {}
        lemma_idle_tail(ms, none, steps);
        assert(none + steps =~= steps);
    } else {
        let first = run.pending_inputs[0];
        let start = start_steps(first, no_session);
        let head = steps.take(steps.len() - start.len());
        assert(steps =~= head + start);
        assert forall|i: int| 0 <= i < head.len() implies silent(#[trigger] head[i]) && mute(
            head[i],
        ) by {}
        lemma_idle_tail(ms, none, head);
        assert(none + head =~= head);
        lemma_start_taken(ms, head, first, no_session);
        assert(runs(steps) =~= seq![(first, main_run())]);
    }
}

/// A run that fails leaves nothing behind: the messages are those from before the
/// input was sent, and the input is put back into the input line.
#[verifier::spinoff_prover]
pub proof fn lemma_failed_input_given_back(
    run: RunView,
    chain: ChainView,
    ctx: ContextView,
    rules: Seq<RuleView>,
    text: Seq<char>,
    no_session: bool,
    ms: Seq<Kept>,
)
    requires
        run.pending_inputs.len() == 0,
        ms.len() < usize::MAX,
    ensures
        ({
            let sent = messages_after(ms, echo(text) + start_steps(text, no_session));
            let failed = RunView { is_running: false, ..started(run, text) };
            let tail = Tail { len: sent.len() as usize, from_user: sent.last().0 is User };
            let steps = final_steps(failed, chain, ctx, rules, true, tail, no_session);
            &&& messages_after(sent, steps) == ms
            &&& loaded(steps) == seq![text]
            &&& runs(steps).len() == 0
        }),
{
    lemma_input_sent(ms, text, no_session);
    let sent = ms.push((MessageRole::User, text));
    let failed = RunView { is_running: false, ..started(run, text) };
    let tail = Tail { len: sent.len() as usize, from_user: true };
    let steps = final_steps(failed, chain, ctx, rules, true, tail, no_session);
    let none = Seq::<StepView>::empty();
    let cut = StepView::TruncateMessages((tail.len - 1) as usize);
    let load = StepView::Tell(Telling::LoadInput, text);
    let a1 = none.push(cut);
    assert(a1.drop_last() =~= none);
    assert(messages_after(sent, none) == sent);
    assert(sent.take(ms.len() as int) =~= ms);
    assert(messages_after(sent, a1) == ms);
    lemma_told(none, cut);
    let a2 = a1.push(load);
    lemma_push(sent, a1, load);
    lemma_told(a1, load);
    let rest = steps.skip(2);
    assert(steps =~= a2 + rest);
    assert forall|i: int| 0 <= i < rest.len() implies silent(#[trigger] rest[i]) && mute(
        rest[i],
    ) by {
        assert(rest[i] == steps[i + 2]);
    }
    lemma_idle_tail(sent, a2, rest);
    assert(loaded(steps) =~= seq![text]);
}

/// The next prompt of a chain is run on its message, with the user's additional
/// instructions behind it where there are any: one run, on the text that is kept
/// last.
#[verifier::spinoff_prover]
pub proof fn lemma_chain_goes_on(
    ms: Seq<Kept>,
    phase: PhaseView,
    extra: Option<Seq<char>>,
    no_session: bool,
)
    ensures
        ({
            let steps = transition_steps(phase, extra, no_session);
            let msg = transition_text(phase, extra);
            &&& runs(steps) == seq![(msg, main_run())]
            &&& messages_after(ms, steps).len() > ms.len()
            &&& messages_after(ms, steps).take(ms.len() as int) == ms
            &&& messages_after(ms, steps).last() == (MessageRole::User, msg)
            &&& starts_with(msg, phase.message)
            &&& ink(msg) == ink(phase.message) + match extra {
                Some(e) => ink("\n\nAdditional instructions: "@) + ink(e),
                None => Seq::empty(),
            }
        }),
{
    let steps = transition_steps(phase, extra, no_session);
    let msg = transition_text(phase, extra);
    let start = start_steps(msg, no_session);
    let none = Seq::<StepView>::empty();
    let head = seq![StepView::Tell(Telling::ApplyPromptModel, phase.next_prompt)] + echo(msg);
    assert forall|i: int| 0 <= i < head.len() implies silent(#[trigger] head[i]) && mute(
        head[i],
    ) by {}
    lemma_idle_tail(ms, none, head);
    assert(none + head =~= head);
    let add = StepView::AddMessage(MessageRole::User, msg);
    lemma_push(ms, head, add);
    lemma_told(head, add);
    let n = head.len() as int;
    let a2 = head.push(add).push(steps[n + 1]);
    lemma_push(ms, head.push(add), steps[n + 1]);
    lemma_told(head.push(add), steps[n + 1]);
    lemma_start_taken(ms, a2, msg, no_session);
    assert(steps =~= a2 + start);
    assert(runs(steps) =~= seq![(msg, main_run())]);
    assert(messages_after(ms, steps).take(ms.len() as int) =~= ms);
    assert(msg.take(phase.message.len() as int) =~= phase.message);
    match extra {
        Some(e) => {
            let lead = "\n\nAdditional instructions: "@;
            lemma_ink_concat(phase.message, lead);
            lemma_ink_concat(phase.message + lead, e);
            assert(ink(msg) =~= ink(phase.message) + (ink(lead) + ink(e)));
        },
        None => {
            assert(ink(msg) =~= ink(phase.message) + Seq::<char>::empty());
        },
    }
}

/// Steps that neither touch the session nor start or tell anything.
proof fn lemma_idle(ms: Seq<Kept>, steps: Seq<StepView>)
    requires
        forall|i: int| 0 <= i < steps.len() ==> silent(#[trigger] steps[i]) && mute(steps[i]),
    ensures
        messages_after(ms, steps) == ms,
        runs(steps).len() == 0,
        loaded(steps).len() == 0,
        remembered(steps).len() == 0,
{
    let none = Seq::<StepView>::empty();
    lemma_idle_tail(ms, none, steps);
    assert(none + steps =~= steps);
}

#[verifier::spinoff_prover]
proof fn lemma_transition_taken(
    ms: Seq<Kept>,
    a: Seq<StepView>,
    phase: PhaseView,
    extra: Option<Seq<char>>,
    no_session: bool,
)
    ensures
        runs(a + transition_steps(phase, extra, no_session)) == runs(a).push(
            (transition_text(phase, extra), main_run()),
        ),
        messages_after(ms, a + transition_steps(phase, extra, no_session)).last() == (
            MessageRole::User,
            transition_text(phase, extra),
        ),
{
    let steps = transition_steps(phase, extra, no_session);
    let msg = transition_text(phase, extra);
    let head = seq![StepView::Tell(Telling::ApplyPromptModel, phase.next_prompt)] + echo(msg);
    assert forall|i: int| 0 <= i < head.len() implies silent(#[trigger] head[i]) && mute(
        head[i],
    ) by {}
    lemma_idle_tail(ms, a, head);
    let a1 = a + head;
    let add = StepView::AddMessage(MessageRole::User, msg);
    let drop = steps[head.len() as int + 1];
    lemma_push(ms, a1, add);
    lemma_told(a1, add);
    lemma_push(ms, a1.push(add), drop);
    lemma_told(a1.push(add), drop);
    lemma_start_taken(ms, a1.push(add).push(drop), msg, no_session);
    assert(a + steps =~= a1.push(add).push(drop) + start_steps(msg, no_session));
}

/// The user decides whether a chain goes on: a yes runs the offered step on its own
/// message, additional instructions run it with them behind the message, and any
/// other answer, or a reply without text, runs nothing.
#[verifier::spinoff_prover]
pub proof fn lemma_chain_answered(
    ms: Seq<Kept>,
    chain: ChainView,
    phase: PhaseView,
    text: Seq<char>,
    no_session: bool,
)
    requires
        chain.pending == Some(phase),
    ensures
        runs(answer_steps(chain, ChainAnswer::Yes, no_session)) == seq![
            (phase.message, main_run()),
        ],
        runs(answer_steps(chain, ChainAnswer::No, no_session)).len() == 0,
        runs(answer_steps(chain, ChainAnswer::But, no_session)).len() == 0,
        trim(text).len() > 0 ==> runs(reply_steps(phase, text, no_session)) == seq![
            (phase.message + "\n\nAdditional instructions: "@ + trim(text), main_run()),
        ],
        trim(text).len() == 0 ==> runs(reply_steps(phase, text, no_session)).len() == 0
            && reply_steps(phase, text, no_session).contains(
            StepView::Tell(Telling::ShowChainPrompt, phase.label),
        ),
{
    let none = Seq::<StepView>::empty();
    let yes = answer_steps(chain, ChainAnswer::Yes, no_session);
    let hide = seq![yes[0]];
    lemma_idle(ms, hide);
    lemma_transition_taken(ms, hide, phase, None, no_session);
    assert(yes =~= hide + transition_steps(phase, None, no_session));
    assert(runs(yes) =~= seq![(phase.message, main_run())]);
    lemma_idle(ms, answer_steps(chain, ChainAnswer::No, no_session));
    lemma_idle(ms, answer_steps(chain, ChainAnswer::But, no_session));
    let reply = reply_steps(phase, text, no_session);
    if trim(text).len() > 0 {
        let off = seq![reply[0]];
        lemma_idle(ms, off);
        lemma_transition_taken(ms, off, phase, Some(trim(text)), no_session);
        assert(reply =~= off + transition_steps(phase, Some(trim(text)), no_session));
        assert(runs(reply) =~= seq![
            (phase.message + "\n\nAdditional instructions: "@ + trim(text), main_run()),
        ]);
    } else {
        assert(reply[1] == StepView::Tell(Telling::ShowChainPrompt, phase.label));
        lemma_idle(ms, reply);
    }
}

proof fn lemma_spawn_taken(ms: Seq<Kept>, a: Seq<StepView>, prompt: Seq<char>)
    ensures
        messages_after(ms, a + spawn_steps(prompt)) == messages_after(ms, a),
        runs(a + spawn_steps(prompt)) == runs(a).push((prompt, main_run())),
{
    let s = spawn_steps(prompt);
    let a1 = a.push(s[0]);
    let a2 = a1.push(s[1]);
    lemma_push(ms, a, s[0]);
    lemma_told(a, s[0]);
    lemma_push(ms, a1, s[1]);
    lemma_told(a1, s[1]);
    lemma_push(ms, a2, s[2]);
    lemma_told(a2, s[2]);
    assert(a + s =~= a2.push(s[2]));
}

/// A review is kept as the user's message and runs once on it; a first look at a
/// project runs once on its text and is not kept; no other request runs anything.
#[verifier::spinoff_prover]
pub proof fn lemma_request_runs(ms: Seq<Kept>, req: RequestView, can_login: bool)
    ensures
        ({
            let steps = request_steps(req, can_login);
            match req {
                RequestView::Review(msg) => {
                    &&& messages_after(ms, steps) == ms.push((MessageRole::User, msg))
                    &&& runs(steps) == seq![(msg, main_run())]
                },
                RequestView::Init(prompt) => {
                    &&& messages_after(ms, steps) == ms
                    &&& runs(steps) == seq![(prompt, main_run())]
                },
                _ => messages_after(ms, steps) == ms && runs(steps).len() == 0,
            }
        }),
{
    let steps = request_steps(req, can_login);
    let none = Seq::<StepView>::empty();
    match req {
        RequestView::Review(msg) => {
            let add = StepView::AddMessage(MessageRole::User, msg);
            lemma_push(ms, none, add);
            lemma_told(none, add);
            assert(messages_after(ms, none) == ms);
            lemma_spawn_taken(ms, none.push(add), msg);
            assert(steps =~= none.push(add) + spawn_steps(msg));
            assert(runs(steps) =~= seq![(msg, main_run())]);
        },
        RequestView::Init(prompt) => {
            lemma_spawn_taken(ms, none, prompt);
            assert(messages_after(ms, none) == ms);
            assert(steps =~= none + spawn_steps(prompt));
            assert(runs(steps) =~= seq![(prompt, main_run())]);
        },
        _ => {
            lemma_idle(ms, steps);
        },
    }
}

/// An iteration of a loop runs by itself, without the messages so far, on the loop's
/// prompt and under its own number; a loop that stops runs nothing more.
pub proof fn lemma_loop_runs(
    ms: Seq<Kept>,
    iteration: usize,
    prompt: Seq<char>,
    label: Seq<char>,
)
    ensures
        runs(loop_steps(iteration, false, prompt, label)) == seq![
            (
                prompt,
                (RunKind { fresh: true, abortable: false, iteration: Some(iteration) }),
            ),
        ],
        runs(loop_steps(iteration, true, prompt, label)).len() == 0,
        messages_after(ms, loop_steps(iteration, false, prompt, label)) == ms,
{
    let s = loop_steps(iteration, false, prompt, label);
    let none = Seq::<StepView>::empty();
    lemma_idle(ms, loop_steps(iteration, true, prompt, label));
    let a1 = none.push(s[0]);
    let a2 = a1.push(s[1]);
    let a3 = a2.push(s[2]);
    lemma_push(ms, none, s[0]);
    lemma_told(none, s[0]);
    lemma_push(ms, a1, s[1]);
    lemma_told(a1, s[1]);
    lemma_push(ms, a2, s[2]);
    lemma_told(a2, s[2]);
    lemma_push(ms, a3, s[3]);
    lemma_told(a3, s[3]);
    assert(messages_after(ms, none) == ms);
    assert(s =~= a3.push(s[3]));
    assert(runs(s) =~= seq![
        (prompt, (RunKind { fresh: true, abortable: false, iteration: Some(iteration) })),
    ]);
}

/// A message behind a known prompt is what is left to be acted on, with that prompt
/// and its model in use; an unknown prompt leaves nothing and is named.
pub proof fn lemma_dot_acted_on(
    name: Seq<char>,
    message: Seq<char>,
    ctx: ContextView,
    no_session: bool,
)
    requires
        name.len() > 0,
        forall|i: int| 0 <= i < name.len() ==> !is_whitespace(#[trigger] name[i]),
    ensures
        ({
            let text = seq!['.'] + name.push(' ') + message;
            let steps = dot_steps(text, ctx, no_session);
            &&& dot_name(text) == Some(name)
            &&& known(ctx.prompts, name) ==> dot_message(text, ctx) == Some(trim(message))
                && steps.contains(StepView::Tell(Telling::ApplyPromptModel, name))
            &&& !known(ctx.prompts, name) ==> dot_message(text, ctx) is None && steps.contains(
                StepView::WriteLine("error: unknown prompt '"@ + name + "'"@, C_ERROR),
            )
        }),
{
    lemma_dot_read(name, message);
    let text = seq!['.'] + name.push(' ') + message;
    let steps = dot_steps(text, ctx, no_session);
    let n = echo(text).len() as int;
    if known(ctx.prompts, name) {
        assert(steps[n] == StepView::Tell(Telling::ApplyPromptModel, name));
    } else {
        assert(steps[n] == StepView::WriteLine(
            "error: unknown prompt '"@ + name + "'"@,
            C_ERROR,
        ));
    }
}

/// A side question is asked as it was entered, without whitespace around it, and
/// leaves the session alone: beside the main run it starts none, and in the plain
/// session it is the one run.
#[verifier::spinoff_prover]
pub proof fn lemma_side_question_asked(ms: Seq<Kept>, question: Seq<char>, id: u32)
    requires
        trim(question).len() > 0,
    ensures
        ({
            let text = "/btw"@ + question;
            &&& btw_steps(text, id).contains(StepView::AskAside(id, trim(question)))
            &&& runs(btw_steps(text, id)).len() == 0
            &&& messages_after(ms, btw_steps(text, id)) == ms
            &&& runs(side_steps(text)) == seq![(trim(question), plain_run())]
            &&& messages_after(ms, side_steps(text)) == ms
        }),
{
    let text = "/btw"@ + question;
    reveal_strlit("/btw");
    assert("/btw"@[0] == '/');
    lemma_argument_read("/btw"@, question);
    let steps = btw_steps(text, id);
    let n = echo(text).len() as int;
    assert(steps[n] == StepView::AskAside(id, trim(question)));
    assert forall|i: int| 0 <= i < steps.len() implies silent(#[trigger] steps[i]) && mute(
        steps[i],
    ) by {}
    lemma_idle(ms, steps);
    assert(behind(text, "/btw"@) =~= question);
    let side = side_steps(text);
    let head = side.take(n + 2);
    assert forall|i: int| 0 <= i < head.len() implies silent(#[trigger] head[i]) && mute(
        head[i],
    ) by {}
    lemma_idle(ms, head);
    let run = StepView::Spawn(trim(question), plain_run());
    lemma_push(ms, head, run);
    lemma_told(head, run);
    assert(side =~= head.push(run));
    assert(runs(side) =~= seq![(trim(question), plain_run())]);
}

// ---------------------------------------------------------------------------
// Relief in the middle of a turn
// ---------------------------------------------------------------------------

proof fn lemma_trace_ink(trace: Seq<Seq<char>>, n: nat)
    requires
        n <= trace.len(),
    ensures
        ink(trace_text(trace, n)) == ink_of_lines(trace.take(n as int)),
    decreases n,
{
    if n == 0 {
        assert(trace.take(0) =~= Seq::<Seq<char>>::empty());
    } else {
        let m = (n - 1) as nat;
        lemma_trace_ink(trace, m);
        lemma_ink_concat(trace_text(trace, m), trace[n - 1].push('\n'));
        lemma_ink_push(trace[n - 1], '\n');
        assert(trace.take(n as int) =~= trace.take(m as int).push(trace[n - 1]));
        lemma_ink_lines_push(trace.take(m as int), trace[n - 1]);
    }
}

/// Nothing of a turn is lost that starts again on a shortened context: what it has
/// come to is kept as the assistant's message, the answer so far and then all that
/// was done, and one run starts. A turn that has come to nothing adds no message.
#[verifier::spinoff_prover]
pub proof fn lemma_relief_keeps_progress(ms: Seq<Kept>, run: RunView, percent: u64)
    ensures
        ({
            let steps = relief_steps(run, percent);
            let kept = messages_after(ms, steps);
            let progress = ink(run.response_buf) + if run.turn_trace.len() > 0 {
                ink("[Progress this turn before context compaction]\n"@) + ink_of_lines(
                    run.turn_trace,
                )
            } else {
                Seq::empty()
            };
            &&& runs(steps) == seq![(continue_prompt(), main_run())]
            &&& progress.len() == 0 ==> kept == ms
            &&& progress.len() > 0 ==> kept.len() == ms.len() + 1 && kept.drop_last() == ms
                && kept.last().0 is Assistant && ink(kept.last().1) == progress
        }),
{
    let steps = relief_steps(run, percent);
    let head = "[Progress this turn before context compaction]\n"@;
    let answer = trim(run.response_buf);
    let none = Seq::<StepView>::empty();
    let trace = trace_text(run.turn_trace, run.turn_trace.len());
    lemma_trim_ink(run.response_buf);
    lemma_trace_ink(run.turn_trace, run.turn_trace.len());
    assert(run.turn_trace.take(run.turn_trace.len() as int) =~= run.turn_trace);
    let part1 = if answer.len() > 0 {
        answer + "\n\n"@
    } else {
        Seq::empty()
    };
    let part2 = if run.turn_trace.len() > 0 {
        head + trace
    } else {
        Seq::empty()
    };
    reveal_strlit("\n\n");
    let e = Seq::<char>::empty();
    assert("\n\n"@ =~= e.push('\n').push('\n'));
    lemma_ink_push(e, '\n');
    lemma_ink_push(e.push('\n'), '\n');
    lemma_ink_concat(answer, "\n\n"@);
    assert(ink(part1) =~= ink(run.response_buf));
    lemma_ink_concat(head, trace);
    lemma_ink_concat(part1, part2);
    lemma_trim_ink(part1 + part2);
    let progress = ink(run.response_buf) + if run.turn_trace.len() > 0 {
        ink(head) + ink_of_lines(run.turn_trace)
    } else {
        Seq::empty()
    };
    assert(ink(recap(run)) =~= progress);
    assert(recap(run) == trim(part1 + part2));
    assert(recap(run).len() > 0 <==> progress.len() > 0);
    let s0 = steps.take(2);
    assert forall|i: int| 0 <= i < s0.len() implies silent(#[trigger] s0[i]) && mute(s0[i]) by {}
    lemma_idle_tail(ms, none, s0);
    assert(none + s0 =~= s0);
    let a1 = if recap(run).len() > 0 {
        s0.push(StepView::AddMessage(MessageRole::Assistant, recap(run)))
    } else {
        s0
    };
    lemma_push(ms, s0, StepView::AddMessage(MessageRole::Assistant, recap(run)));
    lemma_told(s0, StepView::AddMessage(MessageRole::Assistant, recap(run)));
    let n = a1.len() as int;
    let mid = seq![steps[n], steps[n + 1], steps[n + 2]];
    assert forall|i: int| 0 <= i < mid.len() implies silent(#[trigger] mid[i]) && mute(
        mid[i],
    ) by {}
    lemma_idle_tail(ms, a1, mid);
    let run_step = StepView::Spawn(continue_prompt(), main_run());
    let a2 = a1 + mid;
    lemma_push(ms, a2, run_step);
    lemma_told(a2, run_step);
    lemma_push(ms, a2.push(run_step), steps[n + 4]);
    lemma_told(a2.push(run_step), steps[n + 4]);
    assert(steps =~= a2.push(run_step).push(steps[n + 4]));
    assert(runs(steps) =~= seq![(continue_prompt(), main_run())]);
    assert(progress.len() > 0 ==> messages_after(ms, steps).drop_last() =~= ms);
}

// ---------------------------------------------------------------------------
// Shell commands
// ---------------------------------------------------------------------------

/// A shell command is kept with all that it printed, its output and then its
/// errors, and starts no run.
#[verifier::spinoff_prover]
pub proof fn lemma_shell_kept(
    ms: Seq<Kept>,
    text: Seq<char>,
    stdout: Seq<char>,
    stderr: Seq<char>,
    success: bool,
    no_session: bool,
)
    ensures
        ({
            let result = shell_output(stdout, stderr);
            let steps = shell_steps(text, result, success, no_session);
            &&& ink(result) == ink(stdout) + ink(stderr)
            &&& messages_after(ms, steps) == ms.push((MessageRole::User, text)).push(
                (MessageRole::Assistant, result),
            )
            &&& runs(steps).len() == 0
            &&& remembered(steps) == if no_session {
                Seq::empty()
            } else {
                seq![text]
            }
        }),
{
    let result = shell_output(stdout, stderr);
    let steps = shell_steps(text, result, success, no_session);
    let all = if stderr.len() == 0 {
        stdout
    } else if stdout.len() == 0 {
        stderr
    } else {
        stdout + "\n"@ + stderr
    };
    reveal_strlit("\n");
    let e = Seq::<char>::empty();
    assert("\n"@ =~= e.push('\n'));
    lemma_ink_push(e, '\n');
    lemma_ink_concat(stdout, "\n"@);
    lemma_ink_concat(stdout + "\n"@, stderr);
    lemma_trim_ink(all);
    assert(ink(result) =~= ink(stdout) + ink(stderr));
    let none = Seq::<StepView>::empty();
    let ask = StepView::AddMessage(MessageRole::User, text);
    let answer = StepView::AddMessage(MessageRole::Assistant, result);
    let k = steps.len() - 2 - if no_session {
        0int
    } else {
        1
    };
    let head = steps.take(k);
    assert forall|i: int| 0 <= i < head.len() implies silent(#[trigger] head[i]) && mute(
        head[i],
    ) by {}
    lemma_idle_tail(ms, none, head);
    assert(none + head =~= head);
    lemma_push(ms, head, ask);
    lemma_told(head, ask);
    lemma_push(ms, head.push(ask), answer);
    lemma_told(head.push(ask), answer);
    let a = head.push(ask).push(answer);
    if no_session {
        assert(steps =~= a);
    } else {
        let note = StepView::Tell(Telling::AppendHistory, text);
        lemma_push(ms, a, note);
        lemma_told(a, note);
        assert(steps =~= a.push(note));
        assert(remembered(steps) =~= seq![text]);
    }
}

// ---------------------------------------------------------------------------
// Reading commands
// ---------------------------------------------------------------------------

proof fn lemma_trim_start_stays(s: Seq<char>)
    requires
        s.len() > 0 ==> !is_whitespace(s[0]),
    ensures
        trim_start(s) == s,
{
}

/// What follows a command's name is its argument, whatever whitespace stands
/// before the name, behind it and at the end.
pub proof fn lemma_argument_read(name: Seq<char>, arg: Seq<char>)
    requires
        name.len() > 0,
        !is_whitespace(name[0]),
    ensures
        argument(name + arg, name) == trim(arg),
        argument(name.push(' ') + arg, name) == trim(arg),
{
    let a = name + arg;
    let b = name.push(' ') + arg;
    assert(a[0] == name[0] && b[0] == name[0]);
    lemma_trim_start_stays(a);
    lemma_trim_start_stays(b);
    assert(a.take(name.len() as int) =~= name);
    assert(b.take(name.len() as int) =~= name);
    assert(a.skip(name.len() as int) =~= arg);
    let spaced = b.skip(name.len() as int);
    assert(spaced[0] == ' ');
    assert(spaced.skip(1) =~= arg);
    assert(trim_start(spaced) == trim_start(arg));
}

proof fn lemma_word_end(s: Seq<char>, from: int, to: int)
    requires
        0 <= from <= to <= s.len(),
        forall|i: int| from <= i < to ==> !is_whitespace(#[trigger] s[i]),
        to < s.len() ==> is_whitespace(s[to]),
    ensures
        word_end(s, from) == to,
    decreases to - from,
{
    if from < to {
        assert(!is_whitespace(s[from]));
        lemma_word_end(s, from + 1, to);
    }
}

/// A line with a prompt behind a dot and a message behind that names the prompt for
/// one message; without a message it names the prompt from now on.
pub proof fn lemma_dot_read(name: Seq<char>, message: Seq<char>)
    requires
        name.len() > 0,
        forall|i: int| 0 <= i < name.len() ==> !is_whitespace(#[trigger] name[i]),
    ensures
        dot_request(seq!['.'] + name.push(' ') + message) == (DotRequest::Once {
            name,
            message: trim(message),
        }),
        dot_request(seq!['.'] + name) == (DotRequest::Switch { name }),
{
    let n = name.len() as int;
    let a = seq!['.'] + name.push(' ') + message;
    let b = seq!['.'] + name;
    let ta = name.push(' ') + message;
    assert(a.skip(1) =~= ta);
    assert(b.skip(1) =~= name);
    assert(!is_whitespace(name[0]));
    assert(ta[0] == name[0]);
    lemma_trim_start_stays(ta);
    lemma_trim_start_stays(name);
    assert forall|i: int| 0 <= i < n implies !is_whitespace(#[trigger] ta[i]) by {
        assert(ta[i] == name[i]);
    }
    assert(ta[n] == ' ');
    lemma_word_end(ta, 0, n);
    lemma_word_end(name, 0, n);
    assert(ta.take(n) =~= name);
    assert(ta.skip(n + 1) =~= message);
}

/// The place that is found is the first of its kind.
pub proof fn lemma_find_from(s: Seq<char>, c: char, from: int)
    requires
        0 <= from <= s.len(),
    ensures
        from <= find_from(s, c, from) <= s.len(),
        find_from(s, c, from) < s.len() ==> s[find_from(s, c, from)] == c,
        forall|i: int| from <= i < find_from(s, c, from) ==> #[trigger] s[i] != c,
    decreases s.len() - from,
{
    if from < s.len() && s[from] != c {
        lemma_find_from(s, c, from + 1);
    }
}

proof fn lemma_join_front(a: Seq<char>, rest: Seq<Seq<char>>, c: char)
    requires
        rest.len() > 0,
    ensures
        join(seq![a] + rest, c) == a.push(c) + join(rest, c),
    decreases rest.len(),
{
    let all = seq![a] + rest;
    if rest.len() == 1 {
        assert(all.drop_last() =~= seq![a]);
        assert(join(all.drop_last(), c) == a);
    } else {
        let init = rest.drop_last();
        assert(all.drop_last() =~= seq![a] + init);
        lemma_join_front(a, init, c);
        assert(a.push(c) + join(init, c).push(c) + rest.last() =~= a.push(c) + join(rest, c));
        assert(join(all, c) =~= join(all.drop_last(), c).push(c) + rest.last());
        assert(join(all, c) =~= a.push(c) + join(rest, c));
    }
}

/// The parts of a command, put together again, are the command; there are no more
/// than asked for, and only the last can hold what they were split at.
pub proof fn lemma_parts_joined(s: Seq<char>, c: char, n: nat)
    requires
        n > 0,
    ensures
        0 < splitn(s, c, n).len() <= n,
        join(splitn(s, c, n), c) == s,
        forall|k: int|
            0 <= k < splitn(s, c, n).len() - 1 ==> !(#[trigger] splitn(s, c, n)[k]).contains(c),
        splitn(s, c, n).len() < n ==> !splitn(s, c, n).last().contains(c),
    decreases n,
{
    let i = find_from(s, c, 0);
    lemma_find_from(s, c, 0);
    let all = splitn(s, c, n);
    if n <= 1 || i >= s.len() {
        assert(all =~= seq![s]);
    } else {
        let rest = splitn(s.skip(i + 1), c, (n - 1) as nat);
        lemma_parts_joined(s.skip(i + 1), c, (n - 1) as nat);
        lemma_join_front(s.take(i), rest, c);
        assert(s.take(i).push(c) + s.skip(i + 1) =~= s);
        assert forall|k: int| 0 <= k < all.len() - 1 implies !(#[trigger] all[k]).contains(c) by {
            if k > 0 {
                assert(all[k] == rest[k - 1]);
            }
        }
        assert(all.last() == rest.last());
    }
}

} // verus!
