//! Slash commands: who handles them, shortening the session, models of prompts,
//! and reviews.

use vstd::prelude::*;

use crate::color::{Color, C_AGENT, C_ERROR};
use crate::commands::{behind, request_in, RequestView};
use crate::help::Features;
use crate::prompts::{
    apply_prompt_mode, known, prompt_applied, ContextFiles, ContextView, PermState,
};
use crate::sent::lemma_parts_joined;
use crate::session::{MessageRole, MessageView, Session};
use crate::steps::{
    act, blank, cat, cat3, cat5, copy_text, push_act, push_blank, push_says, push_tell, says,
    step_views, Action, Step, StepView, Telling,
};
use crate::text::{
    chars_of, decimal, decimal_of, find_from, join, same_text, slice_of, starts_with, string_of,
    string_seqs, trim, trim_of,
};

verus! {

// ---------------------------------------------------------------------------
// The parts of a command
// ---------------------------------------------------------------------------

/// At most `n` pieces of `s` between occurrences of `c`: the last one holds all
/// that is left.
pub open spec fn splitn(s: Seq<char>, c: char, n: nat) -> Seq<Seq<char>>
    decreases n,
{
    let i = find_from(s, c, 0);
    if n <= 1 || i >= s.len() {
        seq![s]
    } else {
        seq![s.take(i)] + splitn(s.skip(i + 1), c, (n - 1) as nat)
    }
}

/// The name of a command and its arguments: at most three parts.
pub open spec fn command_parts(text: Seq<char>) -> Seq<Seq<char>> {
    splitn(trim(text), ' ', 3)
}

/// Position of the first `c`; the length where there is none.
fn find(v: &Vec<char>, c: char) -> (r: usize)
    ensures
        r == find_from(v@, c, 0),
        r <= v@.len(),
{
    let n: usize = v.len();
    for i in 0..n
        invariant
            n == v@.len(),
            find_from(v@, c, 0) == find_from(v@, c, i as int),
    {
        if v[i] == c {
            return i;
        }
    }
    n
}

/// At most `n` pieces between occurrences of `c`.
pub fn splitn_of(v: &Vec<char>, c: char, n: usize) -> (r: Vec<String>)
    ensures
        string_seqs(r@) == splitn(v@, c, n as nat),
        r@.len() >= 1,
{
    let mut r: Vec<String> = Vec::new();
    let mut rest = crate::text::copy_of(v);
    let mut left: usize = n;
    let ghost goal = splitn(v@, c, n as nat);
    assert(string_seqs(r@) + splitn(rest@, c, left as nat) =~= goal);
    while left > 1 && find(&rest, c) < rest.len()
        invariant
            string_seqs(r@) + splitn(rest@, c, left as nat) == goal,
        decreases left,
    {
        let i = find(&rest, c);
        let head = slice_of(&rest, 0, i);
        let tail = slice_of(&rest, i + 1, rest.len());
        assert(head@ =~= rest@.take(i as int));
        assert(tail@ =~= rest@.skip(i + 1));
        let ghost before = string_seqs(r@);
        r.push(string_of(&head));
        assert(string_seqs(r@) =~= before.push(head@));
        assert(before + splitn(rest@, c, left as nat) =~= before.push(head@) + splitn(
            tail@,
            c,
            (left - 1) as nat,
        ));
        rest = tail;
        left = left - 1;
    }
    let ghost before = string_seqs(r@);
    r.push(string_of(&rest));
    assert(string_seqs(r@) =~= before.push(rest@));
    assert(before + seq![rest@] =~= before.push(rest@));
    r
}

/// The name of a command and its arguments.
pub fn parts_of(text: &str) -> (r: Vec<String>)
    ensures
        string_seqs(r@) == command_parts(text@),
        r@.len() >= 1,
{
    splitn_of(&trim_of(&chars_of(text)), ' ', 3)
}

/// Who handles a command.
#[derive(Clone, Copy, Debug, PartialEq, Eq, Structural)]
pub enum CommandGroup {
    Providers,
    Content,
    Settings,
    Session,
    Help,
    Welcome,
    Tutor,
    Files,
    Init,
    Review,
    Memory,
    Features,
    Hooks,
    Unknown,
}

/// Whether `name` is one of `names`.
pub open spec fn one_of(name: Seq<char>, names: Seq<Seq<char>>) -> bool {
    names.contains(name)
}

/// Commands about providers and models.
pub open spec fn provider_commands() -> Seq<Seq<char>> {
    seq![
        "/provider"@,
        "/model"@,
        "/models"@,
        "/models-add"@,
        "/model-subagent"@,
        "/models-subagent"@,
    ]
}

/// Commands about prompts and themes.
pub open spec fn content_commands() -> Seq<Seq<char>> {
    seq!["/prompt"@, "/theme"@, "/regen-prompts"@, "/regen-themes"@]
}

/// Commands about settings.
pub open spec fn settings_commands() -> Seq<Seq<char>> {
    seq![
        "/reasoning"@,
        "/thinking"@,
        "/mode"@,
        "/toggle"@,
        "/mcp"@,
        "/editsys"@,
        "/advisor"@,
    ]
}

/// Commands about sessions.
pub open spec fn session_commands() -> Seq<Seq<char>> {
    seq![
        "/sessions"@,
        "/rename"@,
        "/clear"@,
        "/new"@,
        "/undo"@,
        "/redo"@,
        "/rewind"@,
        "/retry"@,
        "/quit"@,
        "/exit"@,
        "/history"@,
    ]
}

/// Commands about files of sessions.
pub open spec fn export_commands() -> Seq<Seq<char>> {
    seq!["/export"@, "/import"@, "/share"@]
}

/// Commands about files in the context.
pub open spec fn file_commands() -> Seq<Seq<char>> {
    seq!["/add"@, "/drop"@, "/drop-all"@]
}

/// Commands about what is built in or not.
pub open spec fn feature_commands() -> Seq<Seq<char>> {
    seq!["/compress"@, "/compact"@, "/loop"@, "/worktree"@, "/wt-merge"@, "/wt-exit"@]
}

/// Who handles a command.
pub open spec fn group_of(name: Seq<char>, f: Features) -> CommandGroup {
    if one_of(name, provider_commands()) {
        CommandGroup::Providers
    } else if one_of(name, content_commands()) {
        CommandGroup::Content
    } else if one_of(name, settings_commands()) {
        CommandGroup::Settings
    } else if one_of(name, session_commands()) {
        CommandGroup::Session
    } else if f.export && one_of(name, export_commands()) {
        CommandGroup::Session
    } else if name == "/help"@ {
        CommandGroup::Help
    } else if one_of(name, seq!["/welcome"@, "/tutorial"@]) {
        CommandGroup::Welcome
    } else if name == "/tutor"@ {
        CommandGroup::Tutor
    } else if one_of(name, file_commands()) {
        CommandGroup::Files
    } else if name == "/init"@ {
        CommandGroup::Init
    } else if name == "/review"@ {
        CommandGroup::Review
    } else if name == "/memory"@ {
        CommandGroup::Memory
    } else if one_of(name, feature_commands()) {
        CommandGroup::Features
    } else if f.hooks && name == "/hooks"@ {
        CommandGroup::Hooks
    } else {
        CommandGroup::Unknown
    }
}

/// The views of a list of literals.
pub open spec fn literal_views(v: Seq<&str>) -> Seq<Seq<char>> {
    v.map_values(|s: &str| s@)
}

/// Whether `name` is one of `names`.
fn is_one_of(name: &str, names: Vec<&str>) -> (r: bool)
    ensures
        r == one_of(name@, literal_views(names@)),
{
    let n: usize = names.len();
    let ghost ns = literal_views(names@);
    assert(ns.len() == n);
    for i in 0..n
        invariant
            n == names@.len(),
            ns == literal_views(names@),
            ns.len() == n,
            forall|j: int| 0 <= j < i ==> (#[trigger] ns[j]) != name@,
    {
        assert(ns[i as int] == names@[i as int]@);
        if same_text(names[i], name) {
            assert(ns.contains(name@));
            return true;
        }
    }
    false
}

/// Whether a command is about providers and models.
fn is_provider(name: &str) -> (r: bool)
    ensures
        r == one_of(name@, provider_commands()),
{
    let names = vec![
        "/provider",
        "/model",
        "/models",
        "/models-add",
        "/model-subagent",
        "/models-subagent",
    ];
    assert(literal_views(names@) =~= provider_commands());
    is_one_of(name, names)
}

/// Whether a command is about prompts and themes.
fn is_content(name: &str) -> (r: bool)
    ensures
        r == one_of(name@, content_commands()),
{
    let names = vec!["/prompt", "/theme", "/regen-prompts", "/regen-themes"];
    assert(literal_views(names@) =~= content_commands());
    is_one_of(name, names)
}

/// Whether a command is about settings.
fn is_settings(name: &str) -> (r: bool)
    ensures
        r == one_of(name@, settings_commands()),
{
    let names = vec![
        "/reasoning",
        "/thinking",
        "/mode",
        "/toggle",
        "/mcp",
        "/editsys",
        "/advisor",
    ];
    assert(literal_views(names@) =~= settings_commands());
    is_one_of(name, names)
}

/// Whether a command is about sessions.
fn is_session(name: &str) -> (r: bool)
    ensures
        r == one_of(name@, session_commands()),
{
    let names = vec![
        "/sessions",
        "/rename",
        "/clear",
        "/new",
        "/undo",
        "/redo",
        "/rewind",
        "/retry",
        "/quit",
        "/exit",
        "/history",
    ];
    assert(literal_views(names@) =~= session_commands());
    is_one_of(name, names)
}

/// Whether a command is about files of sessions.
fn is_export(name: &str) -> (r: bool)
    ensures
        r == one_of(name@, export_commands()),
{
    let names = vec!["/export", "/import", "/share"];
    assert(literal_views(names@) =~= export_commands());
    is_one_of(name, names)
}

/// Whether a command shows the introduction.
fn is_welcome(name: &str) -> (r: bool)
    ensures
        r == one_of(name@, seq!["/welcome"@, "/tutorial"@]),
{
    let names = vec!["/welcome", "/tutorial"];
    assert(literal_views(names@) =~= seq!["/welcome"@, "/tutorial"@]);
    is_one_of(name, names)
}

/// Whether a command is about files in the context.
fn is_file(name: &str) -> (r: bool)
    ensures
        r == one_of(name@, file_commands()),
{
    let names = vec!["/add", "/drop", "/drop-all"];
    assert(literal_views(names@) =~= file_commands());
    is_one_of(name, names)
}

/// Whether a command is about what is built in or not.
fn is_feature(name: &str) -> (r: bool)
    ensures
        r == one_of(name@, feature_commands()),
{
    let names = vec!["/compress", "/compact", "/loop", "/worktree", "/wt-merge", "/wt-exit"];
    assert(literal_views(names@) =~= feature_commands());
    is_one_of(name, names)
}

/// Who handles a command.
pub fn command_group(name: &str, f: &Features) -> (r: CommandGroup)
    ensures
        r == group_of(name@, *f),
{
    if is_provider(name) {
        CommandGroup::Providers
    } else if is_content(name) {
        CommandGroup::Content
    } else if is_settings(name) {
        CommandGroup::Settings
    } else if is_session(name) {
        CommandGroup::Session
    } else if f.export && is_export(name) {
        CommandGroup::Session
    } else if same_text(name, "/help") {
        CommandGroup::Help
    } else if is_welcome(name) {
        CommandGroup::Welcome
    } else if same_text(name, "/tutor") {
        CommandGroup::Tutor
    } else if is_file(name) {
        CommandGroup::Files
    } else if same_text(name, "/init") {
        CommandGroup::Init
    } else if same_text(name, "/review") {
        CommandGroup::Review
    } else if same_text(name, "/memory") {
        CommandGroup::Memory
    } else if is_feature(name) {
        CommandGroup::Features
    } else if f.hooks && same_text(name, "/hooks") {
        CommandGroup::Hooks
    } else {
        CommandGroup::Unknown
    }
}

/// How an unknown command is answered.
pub open spec fn unknown_command(name: Seq<char>) -> StepView {
    says("unknown command: "@ + name + " (try /help)"@, C_ERROR)
}

/// Takes a slash command apart: who handles it, its parts, and, where nobody
/// does, the answer.
pub fn handle_slash(text: &str, f: &Features) -> (r: (CommandGroup, Vec<String>, Vec<Step>))
    ensures
        string_seqs(r.1@) == command_parts(text@),
        r.0 == group_of(command_parts(text@)[0], *f),
        step_views(r.2@) == if r.0 is Unknown {
            seq![unknown_command(command_parts(text@)[0])]
        } else {
            Seq::empty()
        },
{
    let parts = parts_of(text);
    assert(string_seqs(parts@)[0] == parts@[0]@);
    let mut out: Vec<Step> = Vec::new();
    assert(step_views(out@) =~= Seq::<StepView>::empty());
    let group = command_group(parts[0].as_str(), f);
    if group == CommandGroup::Unknown {
        let line = cat3("unknown command: ", parts[0].as_str(), " (try /help)");
        push_says(&mut out, line.as_str(), C_ERROR);
        assert(step_views(out@) =~= seq![unknown_command(command_parts(text@)[0])]);
    }
    (group, parts, out)
}

// ---------------------------------------------------------------------------
// Shortening the session
// ---------------------------------------------------------------------------

/// Whether the session is to be shortened at all: always where the user asks
/// for it, else where it takes more than the window less a reserve.
pub fn compress_wanted(auto: bool, effective: u64, window: u64, reserve: u64) -> (r: bool)
    ensures
        r == (!auto || effective > if window > reserve {
            window - reserve
        } else {
            0
        }),
{
    let max: u64 = if window > reserve {
        window - reserve
    } else {
        0
    };
    !auto || effective > max
}

/// How the shortening is announced, where the first `cut` messages can be
/// summarized. Where there are none, only the user who asked for it is told.
pub open spec fn compress_opening(auto: bool, cut: usize) -> Seq<StepView> {
    if cut == 0 {
        if auto {
            Seq::empty()
        } else {
            seq![says("not enough conversation history to compact yet"@, C_AGENT)]
        }
    } else {
        seq![
            if auto {
                says("auto-compacting..."@, Color::DarkGrey)
            } else {
                says("compressing..."@, C_AGENT)
            },
            blank(),
        ]
    }
}

/// Announces the shortening. It goes on where there are messages to be
/// summarized.
pub fn begin_compress(auto: bool, cut: usize) -> (r: (bool, Vec<Step>))
    ensures
        r.0 == (cut > 0),
        step_views(r.1@) == compress_opening(auto, cut),
{
    let mut out: Vec<Step> = Vec::new();
    if cut == 0 {
        if !auto {
            push_says(&mut out, "not enough conversation history to compact yet", C_AGENT);
        }
    } else {
        if auto {
            push_says(&mut out, "auto-compacting...", Color::DarkGrey);
        } else {
            push_says(&mut out, "compressing...", C_AGENT);
        }
        push_blank(&mut out);
    }
    assert(step_views(out@) =~= compress_opening(auto, cut));
    (cut > 0, out)
}

/// Tokens of the first `n` messages.
pub open spec fn tokens_to(ms: Seq<MessageView>, n: nat) -> nat
    decreases n,
{
    if n == 0 {
        0
    } else {
        tokens_to(ms, (n - 1) as nat) + ms[n - 1].estimated_tokens as nat
    }
}

proof fn lemma_tokens_monotonic(ms: Seq<MessageView>, i: nat, j: nat)
    requires
        i <= j,
    ensures
        tokens_to(ms, i) <= tokens_to(ms, j),
    decreases j - i,
{
    if i < j {
        lemma_tokens_monotonic(ms, i, (j - 1) as nat);
    }
}

/// Tokens of the messages that are summarized.
pub fn tokens_before(session: &Session, cut: usize) -> (r: u64)
    requires
        cut <= session@.messages.len(),
        tokens_to(session@.messages, cut as nat) <= u64::MAX,
    ensures
        r == tokens_to(session@.messages, cut as nat),
{
    let ghost ms = session@.messages;
    assert(ms.len() == session.messages@.len());
    let mut sum: u64 = 0;
    for i in 0..cut
        invariant
            ms == session@.messages,
            cut <= session.messages@.len(),
            tokens_to(ms, cut as nat) <= u64::MAX,
            sum == tokens_to(ms, i as nat),
    {
        assert(ms[i as int] == session.messages@[i as int]@);
        proof {
            lemma_tokens_monotonic(ms, (i + 1) as nat, cut as nat);
        }
        sum = sum + session.messages[i].estimated_tokens;
    }
    sum
}

/// What follows once the session has been shortened.
pub fn end_compress(cut: usize, tokens: u64) -> (r: Vec<Step>)
    ensures
        step_views(r@) == seq![
            act(Action::RebuildAgent),
            act(Action::RenderSession),
            says(
                "compressed "@ + decimal(cut as nat) + " messages (saved ~"@ + decimal(
                    tokens as nat,
                ) + " tokens)"@,
                C_AGENT,
            ),
        ],
{
    let mut out: Vec<Step> = Vec::new();
    push_act(&mut out, Action::RebuildAgent);
    push_act(&mut out, Action::RenderSession);
    let line = cat5(
        "compressed ",
        decimal_of(cut as u64).as_str(),
        " messages (saved ~",
        decimal_of(tokens).as_str(),
        " tokens)",
    );
    push_says(&mut out, line.as_str(), C_AGENT);
    assert(step_views(out@) =~= seq![
        act(Action::RebuildAgent),
        act(Action::RenderSession),
        says(
            "compressed "@ + decimal(cut as nat) + " messages (saved ~"@ + decimal(tokens as nat)
                + " tokens)"@,
            C_AGENT,
        ),
    ]);
    out
}

// ---------------------------------------------------------------------------
// Models of prompts
// ---------------------------------------------------------------------------

/// A model under a short name.
pub struct QuickModel {
    pub name: String,
    pub model: String,
    pub provider: String,
    /// What a token costs, as the bits of the price.
    pub input_cost: u64,
    pub output_cost: u64,
    /// How many tokens its context has room for, as configured for it.
    pub window: u64,
}

/// What a prompt does to the model in use.
#[derive(Clone, Copy, Debug, PartialEq, Eq, Structural)]
pub enum ModelPlan {
    /// Nothing.
    Keep,
    /// The model changes.
    SwitchModel,
    /// The model and its provider change.
    SwitchProvider,
}

/// What a prompt does to the model in use: `quick` is the model that it asks
/// for, `provider` the one in use.
pub fn plan_prompt_model(quick: Option<&QuickModel>, provider: &str) -> (r: ModelPlan)
    ensures
        r == match quick {
            None => ModelPlan::Keep,
            Some(q) => if q.provider@ == provider@ {
                ModelPlan::SwitchModel
            } else {
                ModelPlan::SwitchProvider
            },
        },
{
    match quick {
        None => ModelPlan::Keep,
        Some(q) => {
            if same_text(q.provider.as_str(), provider) {
                ModelPlan::SwitchModel
            } else {
                ModelPlan::SwitchProvider
            }
        },
    }
}

/// The model in use.
pub struct ModelInUse {
    pub provider: String,
    pub model: String,
    /// What a token costs, as the bits of the price.
    pub input_cost: u64,
    pub output_cost: u64,
    /// How many tokens the context has room for.
    pub window: u64,
}

/// What a [`ModelInUse`] holds.
pub struct ModelView {
    pub provider: Seq<char>,
    pub model: Seq<char>,
    pub input_cost: u64,
    pub output_cost: u64,
    pub window: u64,
}

impl View for ModelInUse {
    type V = ModelView;

    open spec fn view(&self) -> ModelView {
        ModelView {
            provider: self.provider@,
            model: self.model@,
            input_cost: self.input_cost,
            output_cost: self.output_cost,
            window: self.window,
        }
    }
}

/// The model in use once `q` has been taken over.
pub open spec fn taken_over(q: QuickModel) -> ModelView {
    ModelView {
        provider: q.provider@,
        model: q.model@,
        input_cost: q.input_cost,
        output_cost: q.output_cost,
        window: q.window,
    }
}

/// A model that is taken over is used with its own name, provider, prices and
/// window.
pub proof fn lemma_taken_over(q: QuickModel)
    ensures
        taken_over(q).model == q.model@,
        taken_over(q).provider == q.provider@,
        taken_over(q).input_cost == q.input_cost,
        taken_over(q).output_cost == q.output_cost,
        taken_over(q).window == q.window,
{
}

/// How the switch to a prompt's model is told; `failure` is why its provider
/// could not be used.
pub open spec fn switch_told(name: Seq<char>, prompt: Seq<char>, failure: Option<Seq<char>>) -> StepView {
    match failure {
        None => says("switched to model: "@ + name + " (from prompt '"@ + prompt + "')"@, C_AGENT),
        Some(e) => says("failed to switch provider for prompt '"@ + prompt + "': "@ + e, C_ERROR),
    }
}

/// Switches to the model that a prompt asks for, with its provider, its costs
/// and its window. `failure` is why the provider could not be used, where it
/// changes: then there is no switch, and the model in use is as before. Returns
/// whether the switch took place, and how it is told.
pub fn switch_to_prompt_model(
    prompt: &str,
    quick: Option<&QuickModel>,
    failure: Option<&str>,
    in_use: &mut ModelInUse,
) -> (r: (bool, Option<Step>))
    ensures
        match quick {
            None => {
                &&& !r.0
                &&& r.1 is None
                &&& final(in_use)@ == old(in_use)@
            },
            Some(q) => {
                let failed = q.provider@ != old(in_use).provider@ && failure is Some;
                &&& r.0 == !failed
                &&& final(in_use)@ == if failed {
                    old(in_use)@
                } else {
                    taken_over(*q)
                }
                &&& r.1 matches Some(s) && s@ == switch_told(
                    q.name@,
                    prompt@,
                    if failed {
                        Some(failure->0@)
                    } else {
                        None
                    },
                )
            },
        },
        !r.0 ==> final(in_use)@ == old(in_use)@,
{
    match quick {
        None => (false, None),
        Some(q) => {
            let changes = !same_text(q.provider.as_str(), in_use.provider.as_str());
            if changes {
                if let Some(e) = failure {
                    let mut line = cat3("failed to switch provider for prompt '", prompt, "': ");
                    line.push_str(e);
                    return (false, Some(Step::WriteLine(line, C_ERROR)));
                }
                in_use.provider = copy_text(q.provider.as_str());
            }
            in_use.model = copy_text(q.model.as_str());
            in_use.input_cost = q.input_cost;
            in_use.output_cost = q.output_cost;
            in_use.window = q.window;
            let line = cat5(
                "switched to model: ",
                q.name.as_str(),
                " (from prompt '",
                prompt,
                "')",
            );
            (true, Some(Step::WriteLine(line, C_AGENT)))
        },
    }
}

// ---------------------------------------------------------------------------
// Reviews
// ---------------------------------------------------------------------------

/// Whether the user has said nothing yet.
pub open spec fn no_user_message(ms: Seq<MessageView>) -> bool {
    forall|i: int| 0 <= i < ms.len() ==> !((#[trigger] ms[i]).role is User)
}

/// Whether the user has said nothing yet.
pub fn is_session_empty(session: &Session) -> (r: bool)
    ensures
        r == no_user_message(session@.messages),
{
    let n: usize = session.messages.len();
    let ghost ms = session@.messages;
    assert(ms.len() == n);
    for i in 0..n
        invariant
            n == session.messages@.len(),
            ms == session@.messages,
            ms.len() == n,
            forall|j: int| 0 <= j < i ==> !((#[trigger] ms[j]).role is User),
    {
        assert(ms[i as int] == session.messages@[i as int]@);
        if session.messages[i].role == MessageRole::User {
            return false;
        }
    }
    true
}

/// Whether a worktree is worked in: `detected` is its branch, where worktrees
/// are supported.
pub fn is_in_worktree(supported: bool, detected: Option<&str>) -> (r: bool)
    ensures
        r == (supported && detected is Some),
{
    supported && detected.is_some()
}

/// What is reviewed where nothing is said about it.
pub open spec fn default_review(session_empty: bool, in_worktree: bool) -> Seq<char> {
    if session_empty && in_worktree {
        "Review the current worktree state. Check the diff from the base branch for correctness, design, testing, and security."@
    } else if session_empty {
        "Review the current codebase for correctness, design, testing, and security."@
    } else if in_worktree {
        "Review the changes in this worktree session. Consider the diff from main since the branch was created. Check for correctness, design, testing, and security."@
    } else {
        "Review the changes discussed in this session for correctness, design, testing, and security."@
    }
}

/// What is reviewed where nothing is said about it.
pub fn build_default_review_message(session_empty: bool, in_worktree: bool) -> (r: String)
    ensures
        r@ == default_review(session_empty, in_worktree),
{
    if session_empty && in_worktree {
        copy_text(
            "Review the current worktree state. Check the diff from the base branch for correctness, design, testing, and security.",
        )
    } else if session_empty {
        copy_text("Review the current codebase for correctness, design, testing, and security.")
    } else if in_worktree {
        copy_text(
            "Review the changes in this worktree session. Consider the diff from main since the branch was created. Check for correctness, design, testing, and security.",
        )
    } else {
        copy_text(
            "Review the changes discussed in this session for correctness, design, testing, and security.",
        )
    }
}

/// All parts but the first, with spaces between them.
pub open spec fn rest_joined(parts: Seq<Seq<char>>, n: nat) -> Seq<char>
    decreases n,
{
    if n <= 1 {
        Seq::empty()
    } else if n == 2 {
        parts[1]
    } else {
        rest_joined(parts, (n - 1) as nat).push(' ') + parts[n - 1]
    }
}

/// What is to be reviewed.
pub open spec fn review_message(
    parts: Seq<Seq<char>>,
    ms: Seq<MessageView>,
    in_worktree: bool,
) -> Seq<char> {
    if parts.len() > 1 {
        rest_joined(parts, parts.len())
    } else {
        default_review(no_user_message(ms), in_worktree)
    }
}

/// All parts but the first, with spaces between them.
fn join_rest(parts: &Vec<String>) -> (r: String)
    requires
        parts@.len() > 1,
    ensures
        r@ == rest_joined(string_seqs(parts@), parts@.len()),
{
    let ghost ps = string_seqs(parts@);
    let n: usize = parts.len();
    assert(ps.len() == n);
    let mut r = copy_text(parts[1].as_str());
    assert(r@ =~= rest_joined(ps, 2));
    for i in 2..n
        invariant
            n == parts@.len(),
            ps == string_seqs(parts@),
            r@ == rest_joined(ps, i as nat),
    {
        assert(ps[i as int] == parts@[i as int]@);
        r.push(' ');
        r.push_str(parts[i].as_str());
        assert(r@ =~= rest_joined(ps, (i + 1) as nat));
    }
    r
}

/// What `/review` does.
pub open spec fn review_steps(known_prompt: bool, msg: Seq<char>) -> Seq<StepView> {
    if known_prompt {
        seq![
            StepView::Tell(Telling::SwitchPromptModel, "review"@),
            says("review: "@ + msg, C_AGENT),
        ]
    } else {
        seq![says("no 'review' prompt found. Run /regen-prompts first."@, C_ERROR)]
    }
}

/// Runs `/review`: the review prompt is put in use for one run. Returns the
/// message that leaves the run to be started, where there is such a prompt.
pub fn handle_review(
    parts: &Vec<String>,
    session: &Session,
    in_worktree: bool,
    context: &mut ContextFiles,
    perm: &mut Option<PermState>,
) -> (r: (Option<String>, Vec<Step>))
    requires
        old(context).wf(),
    ensures
        final(context).wf(),
        ({
            let found = known(old(context)@.prompts, "review"@);
            let msg = review_message(string_seqs(parts@), session@.messages, in_worktree);
            &&& step_views(r.1@) == review_steps(found, msg)
            &&& r.0 is Some <==> found
            &&& r.0 matches Some(s) ==> s@ == "DEFER_REVIEW:"@ + msg
            &&& final(context)@ == (if found {
                ContextView {
                    one_shot_restore: old(context)@.current_prompt_name,
                    ..old(context)@.using("review"@)
                }
            } else {
                old(context)@
            })
            &&& *final(perm) == if found {
                prompt_applied(old(context)@, *old(perm), "review"@).0
            } else {
                *old(perm)
            }
        }),
{
    let ghost msg_view = review_message(string_seqs(parts@), session@.messages, in_worktree);
    let mut out: Vec<Step> = Vec::new();
    if !context.contains("review") {
        push_says(&mut out, "no 'review' prompt found. Run /regen-prompts first.", C_ERROR);
        assert(step_views(out@) =~= review_steps(false, msg_view));
        return (None, out);
    }
    assert(string_seqs(parts@).len() == parts@.len());
    let msg = if parts.len() > 1 {
        join_rest(parts)
    } else {
        build_default_review_message(is_session_empty(session), in_worktree)
    };
    let before = match &context.current_prompt_name {
        Some(n) => Some(copy_text(n.as_str())),
        None => None,
    };
    apply_prompt_mode("review", context, perm);
    context.one_shot_restore = before;
    push_tell(&mut out, Telling::SwitchPromptModel, "review");
    push_says(&mut out, cat("review: ", msg.as_str()).as_str(), C_AGENT);
    assert(step_views(out@) =~= review_steps(true, msg_view));
    (Some(cat("DEFER_REVIEW:", msg.as_str())), out)
}

/// A review runs on the message that `/review` built, whatever it says.
pub proof fn lemma_review_runs(msg: Seq<char>)
    ensures
        request_in("DEFER_REVIEW:"@ + msg) == RequestView::Review(msg),
{
    let s = "DEFER_REVIEW:"@ + msg;
    reveal_strlit("DEFER_REVIEW:");
    reveal_strlit("DEFER_COMPRESS:");
    reveal_strlit("DEFER_MCP_LOGIN:");
    reveal_strlit("DEFER_INIT:");
    assert(s[6] == 'R');
    assert("DEFER_COMPRESS:"@[6] == 'C');
    assert("DEFER_MCP_LOGIN:"@[6] == 'M');
    assert("DEFER_INIT:"@[6] == 'I');
    if starts_with(s, "DEFER_COMPRESS:"@) {
        assert(s.take("DEFER_COMPRESS:"@.len() as int)[6] == 'C');
    }
    if starts_with(s, "DEFER_MCP_LOGIN:"@) {
        assert(s.take("DEFER_MCP_LOGIN:"@.len() as int)[6] == 'M');
    }
    if starts_with(s, "DEFER_INIT:"@) {
        assert(s.take("DEFER_INIT:"@.len() as int)[6] == 'I');
    }
    assert(s.take("DEFER_REVIEW:"@.len() as int) =~= "DEFER_REVIEW:"@);
    assert(behind(s, "DEFER_REVIEW:"@) =~= msg);
}

proof fn lemma_rest_joined(parts: Seq<Seq<char>>, n: nat)
    requires
        2 <= n <= parts.len(),
    ensures
        join(parts.take(n as int), ' ') == parts[0].push(' ') + rest_joined(parts, n),
    decreases n,
{
    let p = parts.take(n as int);
    if n == 2 {
        assert(p.drop_last() =~= seq![parts[0]]);
        assert(join(p.drop_last(), ' ') == parts[0]);
    } else {
        let m = (n - 1) as nat;
        lemma_rest_joined(parts, m);
        assert(p.drop_last() =~= parts.take(m as int));
        assert((parts[0].push(' ') + rest_joined(parts, m)).push(' ') + parts[n - 1] =~= parts[0].push(
            ' ',
        ) + rest_joined(parts, n));
    }
}

/// What is to be reviewed is all that stands behind the command's name, to the
/// character, but for whitespace at the end.
pub proof fn lemma_review_text(text: Seq<char>, ms: Seq<MessageView>, in_worktree: bool)
    requires
        command_parts(text).len() > 1,
    ensures
        command_parts(text)[0].push(' ') + review_message(command_parts(text), ms, in_worktree)
            == trim(text),
{
    let parts = command_parts(text);
    lemma_parts_joined(trim(text), ' ', 3);
    lemma_rest_joined(parts, parts.len());
    assert(parts.take(parts.len() as int) =~= parts);
}

/// The tokens of a conversation are those of the part that is summarized and of
/// the part that is kept.
pub proof fn lemma_tokens_divided(ms: Seq<MessageView>, cut: nat, n: nat)
    requires
        cut + n <= ms.len(),
    ensures
        tokens_to(ms, cut + n) == tokens_to(ms, cut) + tokens_to(ms.skip(cut as int), n),
        n == 1 ==> tokens_to(ms, cut + n) == tokens_to(ms, cut) + ms[cut as int].estimated_tokens,
    decreases n,
{
    if n > 0 {
        lemma_tokens_divided(ms, cut, (n - 1) as nat);
        assert(ms.skip(cut as int)[n - 1] == ms[cut + n - 1]);
    }
}

} // verus!
