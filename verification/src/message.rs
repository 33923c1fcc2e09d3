//! What the transport hands over: an incoming message, its sender, and the
//! bot's own identity, as plain values.

use crate::db::{observed, RecordView};
use vstd::prelude::*;

verus! {

/// The kind of a conversation, told by the sign of its identifier.
#[derive(Debug, Clone, Copy, PartialEq, Eq, Structural)]
pub enum ConversationKind {
    /// A conversation of two: the identifier is positive.
    Private,
    /// A group or a broadcast: the identifier is negative.
    Group,
    /// The identifier 0, which names no conversation of either kind.
    Unknown,
}

/// The kind of the conversation with identifier `chat_id`.
pub open spec fn kind_of(chat_id: i64) -> ConversationKind {
    if chat_id > 0 {
        ConversationKind::Private
    } else if chat_id < 0 {
        ConversationKind::Group
    } else {
        ConversationKind::Unknown
    }
}

/// Who sent a message.
#[derive(Debug, Clone, PartialEq, Eq)]
pub struct Sender {
    pub id: u64,
    pub username: Option<String>,
    pub is_bot: bool,
}

/// A sender as a mathematical value.
pub struct SenderView {
    pub id: u64,
    pub username: Option<Seq<char>>,
    pub is_bot: bool,
}

/// A text that may be missing, as a mathematical value.
pub open spec fn text_of(text: Option<String>) -> Option<Seq<char>> {
    match text {
        Some(t) => Some(t@),
        None => None,
    }
}

/// A text that may be missing, read as empty where it is.
pub open spec fn or_empty(text: Option<Seq<char>>) -> Seq<char> {
    match text {
        Some(t) => t,
        None => Seq::empty(),
    }
}

impl View for Sender {
    type V = SenderView;

    open spec fn view(&self) -> SenderView {
        SenderView { id: self.id, username: text_of(self.username), is_bot: self.is_bot }
    }
}

/// A sender who may be missing, as a mathematical value.
pub open spec fn sender_of(sender: Option<Sender>) -> Option<SenderView> {
    match sender {
        Some(s) => Some(s@),
        None => None,
    }
}

/// An incoming message.
#[derive(Debug, Clone, PartialEq, Eq)]
pub struct Inbound {
    /// The conversation.
    pub chat_id: i64,
    /// The message's number within the conversation.
    pub id: i32,
    /// The sender, where the transport names one.
    pub from: Option<Sender>,
    /// The text, where the message has one.
    pub text: Option<String>,
    /// When the message was sent, in seconds since the epoch.
    pub date: i64,
    /// The sender of the message that this one answers, where it answers one
    /// whose sender is known.
    pub reply_to: Option<Sender>,
    /// The message as it came.
    pub raw: String,
}

/// An incoming message as a mathematical value.
pub struct InboundView {
    pub chat_id: i64,
    pub id: i32,
    pub from: Option<SenderView>,
    pub text: Option<Seq<char>>,
    pub date: i64,
    pub reply_to: Option<SenderView>,
    pub raw: Seq<char>,
}

impl View for Inbound {
    type V = InboundView;

    open spec fn view(&self) -> InboundView {
        InboundView {
            chat_id: self.chat_id,
            id: self.id,
            from: sender_of(self.from),
            text: text_of(self.text),
            date: self.date,
            reply_to: sender_of(self.reply_to),
            raw: self.raw@,
        }
    }
}

/// The name under which the message is stored: the sender's user name, or
/// nothing where there is no sender or the sender has none.
pub open spec fn sender_name(m: InboundView) -> Seq<char> {
    match m.from {
        Some(s) => or_empty(s.username),
        None => Seq::empty(),
    }
}

/// The number under which the message's sender is known: 0 without a sender.
pub open spec fn sender_id(m: InboundView) -> u64 {
    match m.from {
        Some(s) => s.id,
        None => 0,
    }
}

/// The record that stores the message.
pub open spec fn record_of(m: InboundView) -> RecordView {
    observed(m.chat_id, m.id, sender_name(m), m.text, m.date, sender_id(m), m.raw)
}

/// The bot's own identity.
#[derive(Debug, Clone, PartialEq, Eq)]
pub struct Me {
    pub id: u64,
    pub username: Option<String>,
}

/// The bot's identity as a mathematical value.
pub struct MeView {
    pub id: u64,
    pub username: Option<Seq<char>>,
}

impl View for Me {
    type V = MeView;

    open spec fn view(&self) -> MeView {
        MeView { id: self.id, username: text_of(self.username) }
    }
}

/// The kind of the conversation with identifier `chat_id`.
pub fn conversation_kind(chat_id: i64) -> (kind: ConversationKind)
    ensures
        kind == kind_of(chat_id),
{
    if chat_id > 0 {
        ConversationKind::Private
    } else if chat_id < 0 {
        ConversationKind::Group
    } else {
        ConversationKind::Unknown
    }
}

/// The text, or the empty text where there is none.
pub fn text_or_empty(text: &Option<String>) -> (s: &str)
    ensures
        s@ == or_empty(text_of(*text)),
{
    match text {
        Some(t) => t.as_str(),
        None => {
            let empty = "";
            proof {
                reveal_strlit("");
            }
            assert(empty@ =~= Seq::<char>::empty());
            empty
        },
    }
}

impl Inbound {
    /// The kind of the message's conversation.
    pub fn kind(&self) -> (kind: ConversationKind)
        ensures
            kind == kind_of(self.chat_id),
    {
        conversation_kind(self.chat_id)
    }

    /// The name under which the message is stored.
    pub fn username(&self) -> (name: &str)
        ensures
            name@ == sender_name(self@),
    {
        match &self.from {
            Some(s) => text_or_empty(&s.username),
            None => text_or_empty(&None),
        }
    }

    /// The number under which the message's sender is known.
    pub fn user_id(&self) -> (id: u64)
        ensures
            id == sender_id(self@),
    {
        match &self.from {
            Some(s) => s.id,
            None => 0,
        }
    }
}

impl Me {
    /// The bot's user name, or the empty text where it has none.
    pub fn name(&self) -> (name: &str)
        ensures
            name@ == or_empty(self@.username),
    {
        text_or_empty(&self.username)
    }
}

} // verus!
