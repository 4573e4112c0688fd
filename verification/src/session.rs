//! The conversation as it is kept.

use vstd::prelude::*;

verus! {

/// Who a message is from.
#[derive(Clone, Copy, Debug, PartialEq, Eq, Structural)]
pub enum MessageRole {
    User,
    Assistant,
    System,
    ToolCall,
    ToolResult,
    SubagentToolCall,
}

/// A message of the conversation.
pub struct Message {
    pub role: MessageRole,
    pub content: String,
    pub estimated_tokens: u64,
}

/// What a [`Message`] holds.
pub struct MessageView {
    pub role: MessageRole,
    pub content: Seq<char>,
    pub estimated_tokens: u64,
}

impl View for Message {
    type V = MessageView;

    open spec fn view(&self) -> MessageView {
        MessageView {
            role: self.role,
            content: self.content@,
            estimated_tokens: self.estimated_tokens,
        }
    }
}

/// The views of a list of messages.
pub open spec fn message_views(v: Seq<Message>) -> Seq<MessageView> {
    v.map_values(|m: Message| m@)
}

/// A part of the conversation replaced by a summary.
pub struct Compaction {
    pub summary: String,
    pub token_savings: u64,
}

/// What a [`Compaction`] holds.
pub struct CompactionView {
    pub summary: Seq<char>,
    pub token_savings: u64,
}

impl View for Compaction {
    type V = CompactionView;

    open spec fn view(&self) -> CompactionView {
        CompactionView { summary: self.summary@, token_savings: self.token_savings }
    }
}

/// A conversation.
pub struct Session {
    pub messages: Vec<Message>,
    pub compactions: Vec<Compaction>,
    /// What was cut off last, so that it can be restored.
    pub undone: Vec<Message>,
}

/// What a [`Session`] holds.
pub struct SessionView {
    pub messages: Seq<MessageView>,
    pub compactions: Seq<CompactionView>,
    pub undone: Seq<MessageView>,
}

impl View for Session {
    type V = SessionView;

    open spec fn view(&self) -> SessionView {
        SessionView {
            messages: message_views(self.messages@),
            compactions: self.compactions@.map_values(|c: Compaction| c@),
            undone: message_views(self.undone@),
        }
    }
}

impl SessionView {
    /// Cut off after the first `len` messages.
    pub open spec fn rewound(self, len: int) -> SessionView {
        SessionView {
            messages: self.messages.take(len),
            undone: self.messages.skip(len),
            ..self
        }
    }

    /// With a summary in the place of the first `cut` messages.
    pub open spec fn compressed(self, summary: Seq<char>, cut: int, tokens: u64) -> SessionView {
        SessionView {
            messages: self.messages.skip(cut),
            compactions: self.compactions.push(
                (CompactionView { summary, token_savings: tokens }),
            ),
            ..self
        }
    }
}

/// How many messages the last exchange has: an answer with its question, a
/// question without an answer, or an answer alone.
pub open spec fn last_exchange(messages: Seq<MessageView>) -> nat {
    let n = messages.len();
    if n == 0 {
        0
    } else if messages[n - 1].role is Assistant {
        if n >= 2 && messages[n - 2].role is User {
            2
        } else {
            1
        }
    } else if messages[n - 1].role is User {
        1
    } else {
        0
    }
}

impl Session {
    /// Cuts the conversation off after its first `len` messages. What is cut
    /// off can be restored.
    pub fn rewind_to(&mut self, len: usize)
        requires
            len <= old(self)@.messages.len(),
        ensures
            final(self)@ == old(self)@.rewound(len as int),
    {
        let ghost before = message_views(self.messages@);
        let tail = self.messages.split_off(len);
        assert(message_views(self.messages@) =~= before.take(len as int));
        assert(message_views(tail@) =~= before.skip(len as int));
        self.undone = tail;
    }

    /// Puts a summary in the place of the first `cut` messages; `tokens` is how
    /// many tokens they had.
    pub fn compress(&mut self, summary: String, cut: usize, tokens: u64)
        requires
            cut <= old(self)@.messages.len(),
        ensures
            final(self)@ == old(self)@.compressed(summary@, cut as int, tokens),
    {
        let ghost before = message_views(self.messages@);
        let tail = self.messages.split_off(cut);
        assert(message_views(tail@) =~= before.skip(cut as int));
        self.messages = tail;
        self.compactions.push(Compaction { summary, token_savings: tokens });
        assert(self@.compactions =~= old(self)@.compactions.push(
            (CompactionView { summary: summary@, token_savings: tokens }),
        ));
    }
}

/// Takes back the last exchange. Returns how many messages it had.
pub fn undo_last(session: &mut Session) -> (r: usize)
    ensures
        r == last_exchange(old(session)@.messages),
        ({
            let ms = old(session)@.messages;
            final(session)@ == if r == 0 {
                old(session)@
            } else {
                old(session)@.rewound(ms.len() - r)
            }
        }),
{
    let ghost ms = session@.messages;
    let len: usize = session.messages.len();
    if len == 0 {
        return 0;
    }
    assert(ms[len - 1] == session.messages@[len - 1]@);
    let last = session.messages[len - 1].role;
    let removed: usize = if last == MessageRole::Assistant {
        if len >= 2 {
            assert(ms[len - 2] == session.messages@[len - 2]@);
        }
        if len >= 2 && session.messages[len - 2].role == MessageRole::User {
            2
        } else {
            1
        }
    } else if last == MessageRole::User {
        1
    } else {
        0
    };
    if removed > 0 {
        session.rewind_to(len - removed);
    }
    removed
}

/// What is taken back is the end of the conversation: with it put back the
/// conversation is what it was.
pub proof fn lemma_undo_reversible(messages: Seq<MessageView>)
    ensures
        ({
            let cut = messages.len() - last_exchange(messages);
            messages.take(cut) + messages.skip(cut) == messages
        }),
{
    let cut = messages.len() - last_exchange(messages);
    assert(messages.take(cut) + messages.skip(cut) =~= messages);
}

/// Cutting the conversation off loses nothing: what is left and what can be restored
/// are together the conversation as it was. Its summaries stay.
pub proof fn lemma_rewound(s: SessionView, len: int)
    requires
        0 <= len <= s.messages.len(),
    ensures
        s.rewound(len).messages.len() == len,
        s.rewound(len).messages + s.rewound(len).undone == s.messages,
        s.rewound(len).compactions == s.compactions,
{
    assert(s.messages.take(len) + s.messages.skip(len) =~= s.messages);
}

/// Shortening the conversation keeps the messages behind the cut, all of them and
/// in order, and one summary for those before it behind the summaries so far.
pub proof fn lemma_compressed(s: SessionView, summary: Seq<char>, cut: int, tokens: u64)
    requires
        0 <= cut <= s.messages.len(),
    ensures
        ({
            let r = s.compressed(summary, cut, tokens);
            &&& r.messages.len() == s.messages.len() - cut
            &&& forall|i: int|
                0 <= i < r.messages.len() ==> #[trigger] r.messages[i] == s.messages[cut + i]
            &&& r.compactions.len() == s.compactions.len() + 1
            &&& r.compactions.drop_last() == s.compactions
            &&& r.compactions.last().summary == summary
            &&& r.compactions.last().token_savings == tokens
            &&& r.undone == s.undone
        }),
{
    let r = s.compressed(summary, cut, tokens);
    assert(r.compactions.drop_last() =~= s.compactions);
}

} // verus!
