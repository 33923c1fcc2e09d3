//! The way of a message that is no command: whether it deserves a generated
//! reply, and the conversation that is handed to the backend for one.

use crate::consts::{DRAW_RANGE, MAX_CONTEXT_MESSAGES, RANDOM_REPLY_CHANCE};
use crate::db::names::{latest_names, name_views};
use crate::db::window::{
    histories, lemma_recent_window, recent_window, speaks, window_history, HistoryView,
    MessageHistory,
};
use crate::db::{append_result, appended, has_key, Chat, RecordView, StoreError};
use crate::handlers::commands::{parsed, Command, CommandView, ParseErrorView};
use crate::message::{
    kind_of, or_empty, record_of, ConversationKind, Inbound, InboundView, Me, MeView,
};
use crate::text::{chars_of, contains, has_substring};
use rand::Rng;
use std::collections::HashMap;
use vstd::prelude::*;

verus! {

broadcast use vstd::std_specs::hash::group_hash_axioms;

/// What is to be done for an incoming message, once it is stored.
#[derive(Debug, Clone, PartialEq, Eq)]
pub enum Reaction {
    /// Nothing is sent.
    Nothing,
    /// This text is sent: the answer to a command.
    Reply(String),
    /// The backend is asked for a reply to this conversation, a sequence of
    /// speaker and text, oldest first.
    Generate(Vec<(String, String)>),
}

/// A reaction as a mathematical value.
pub enum ReactionView {
    Nothing,
    Reply(Seq<char>),
    Generate(Seq<(Seq<char>, Seq<char>)>),
}

impl View for Reaction {
    type V = ReactionView;

    open spec fn view(&self) -> ReactionView {
        match self {
            Reaction::Nothing => ReactionView::Nothing,
            Reaction::Reply(text) => ReactionView::Reply(text@),
            Reaction::Generate(turns) => ReactionView::Generate(turns.deep_view()),
        }
    }
}

/// What a text is: nothing, a command, or free text.
#[derive(Debug, Clone, PartialEq, Eq)]
pub enum Routed {
    /// The message has no text.
    Silent,
    /// The text is this command.
    Command(Command),
    /// The text is no command.
    FreeText,
}

/// A routing as a mathematical value.
pub enum RoutedView {
    Silent,
    Command(CommandView),
    FreeText,
}

impl View for Routed {
    type V = RoutedView;

    open spec fn view(&self) -> RoutedView {
        match self {
            Routed::Silent => RoutedView::Silent,
            Routed::Command(c) => RoutedView::Command(c@),
            Routed::FreeText => RoutedView::FreeText,
        }
    }
}

/// What a text that may be missing is to the bot named `bot`.
pub open spec fn routed(text: Option<Seq<char>>, bot: Seq<char>) -> RoutedView {
    match text {
        None => RoutedView::Silent,
        Some(t) => match parsed(t, bot) {
            Ok(c) => RoutedView::Command(c),
            Err(_) => RoutedView::FreeText,
        },
    }
}

/// The bot's handle: its name after an `@`.
pub open spec fn handle_of(bot: Seq<char>) -> Seq<char> {
    seq!['@'] + bot
}

/// The message addresses the bot named `bot`: it has a text, and the text
/// holds the bot's handle or the message answers one that the bot wrote.
pub open spec fn mentions(m: InboundView, bot: Seq<char>) -> bool {
    match m.text {
        None => false,
        Some(t) => contains(t, handle_of(bot)) || match m.reply_to {
            Some(u) => u.is_bot && u.username == Some(bot),
            None => false,
        },
    }
}

/// Whether a message deserves a generated reply: it has a text that is no
/// command, and it came in a private conversation, or addresses the bot, or
/// came in a group with a draw below the chance.
pub open spec fn policy(
    has_text: bool,
    is_command: bool,
    kind: ConversationKind,
    explicit_mention: bool,
    draw: u32,
    chance: u32,
) -> bool {
    &&& has_text
    &&& !is_command
    &&& (kind == ConversationKind::Private || explicit_mention || (kind == ConversationKind::Group
        && draw < chance))
}

/// A speaker's name as it is shown: the name in `names`, or the name on the
/// message where `names` has none.
pub open spec fn resolved(names: Map<i64, Seq<char>>, h: HistoryView) -> (Seq<char>, Seq<char>) {
    (
        if names.contains_key(h.user_id) {
            names[h.user_id]
        } else {
            h.user
        },
        h.text,
    )
}

/// The window as turns of speaker and text, each speaker under the name in
/// `names`.
pub open spec fn resolved_turns(window: Seq<HistoryView>, names: Map<i64, Seq<char>>) -> Seq<
    (Seq<char>, Seq<char>),
> {
    window.map_values(|h: HistoryView| resolved(names, h))
}

/// The authors of the messages of a window.
pub open spec fn speakers(window: Seq<HistoryView>) -> Seq<i64> {
    window.map_values(|h: HistoryView| h.user_id)
}

/// The conversation handed to the backend: the `limit` newest messages of
/// conversation `conv` with text, oldest first, without the message numbered
/// `skip`, each speaker under the name on the speaker's latest record.
pub open spec fn context(log: Seq<RecordView>, conv: i64, limit: nat, skip: Option<i32>) -> Seq<
    (Seq<char>, Seq<char>),
> {
    let window = window_history(log, conv, limit, skip);
    resolved_turns(window, latest_names(log, speakers(window)))
}

/// What follows for a stored message that is no command: a request to the
/// backend where the policy asks for one.
pub open spec fn free_text_reaction(
    log: Seq<RecordView>,
    m: InboundView,
    bot: Seq<char>,
    draw: u32,
) -> ReactionView {
    if policy(
        m.text is Some,
        routed(m.text, bot) is Command,
        kind_of(m.chat_id),
        mentions(m, bot),
        draw,
        RANDOM_REPLY_CHANCE,
    ) {
        ReactionView::Generate(context(log, m.chat_id, MAX_CONTEXT_MESSAGES as nat, Some(m.id)))
    } else {
        ReactionView::Nothing
    }
}

/// What follows for a message that goes the way of free text, by the log
/// before it was stored: nothing for one that the log held already.
pub open spec fn message_reaction(
    before: Seq<RecordView>,
    capacity: nat,
    m: InboundView,
    me: MeView,
    draw: u32,
) -> ReactionView {
    if has_key(before, m.chat_id, m.id) {
        ReactionView::Nothing
    } else {
        free_text_reaction(
            appended(before, record_of(m), capacity),
            m,
            or_empty(me.username),
            draw,
        )
    }
}

/// The policy answers alike for every draw where the draw has no say: a
/// message that addresses the bot in a group gets a reply, and so does any
/// message in a private conversation; in a group, a message that does not
/// address the bot gets none where the chance is 0, and one where the chance
/// is the whole range of the draw.
pub proof fn lemma_policy_cases(draw: u32, chance: u32)
    ensures
        policy(true, false, ConversationKind::Group, true, draw, chance),
        policy(true, false, ConversationKind::Private, false, draw, chance),
        !policy(true, false, ConversationKind::Group, false, draw, 0),
        draw < DRAW_RANGE ==> policy(true, false, ConversationKind::Group, false, draw, DRAW_RANGE),
        !policy(false, false, ConversationKind::Private, true, draw, chance),
        !policy(true, true, ConversationKind::Private, true, draw, chance),
{
}

/// The conversation handed to the backend for a message holds no turn of
/// that message: each of its turns is a record of the conversation with
/// another message number, and there are at most `limit`.
pub proof fn lemma_context_skips_trigger(log: Seq<RecordView>, conv: i64, limit: nat, trigger: i32)
    ensures
        context(log, conv, limit, Some(trigger)).len() == recent_window(
            log,
            conv,
            limit,
            Some(trigger),
        ).len(),
        context(log, conv, limit, Some(trigger)).len() <= limit,
        forall|k: int|
            0 <= k < context(log, conv, limit, Some(trigger)).len() ==> {
                let i = #[trigger] recent_window(log, conv, limit, Some(trigger))[k];
                &&& 0 <= i < log.len()
                &&& log[i].conversation_id == conv
                &&& log[i].message_id != trigger
                &&& log[i].text == Some(context(log, conv, limit, Some(trigger))[k].1)
            },
{
    lemma_recent_window(log, conv, limit, Some(trigger));
    let w = recent_window(log, conv, limit, Some(trigger));
    assert forall|k: int| 0 <= k < w.len() implies {
        let i = #[trigger] w[k];
        &&& 0 <= i < log.len()
        &&& log[i].conversation_id == conv
        &&& log[i].message_id != trigger
        &&& log[i].text == Some(context(log, conv, limit, Some(trigger))[k].1)
    } by {
        assert(speaks(log[w[k]], conv, Some(trigger)));
    }
}

/// A number below `DRAW_RANGE` from the thread's generator, `rand::rng`, by
/// `Rng::random_range` on `0..DRAW_RANGE`: the range is not empty, and the
/// value lies in it. Nothing else is claimed of the value.
#[verifier::external_body]
fn random_draw() -> (draw: u32)
    ensures
        draw < DRAW_RANGE,
{
    rand::rng().random_range(0..DRAW_RANGE)
}

/// A random draw: a number below `DRAW_RANGE`.
pub fn draw() -> (d: u32)
    ensures
        d < DRAW_RANGE,
{
    random_draw()
}

/// Whether a draw gives an unasked reply: it lies below the chance.
pub fn random_reply(draw: u32, chance: u32) -> (r: bool)
    ensures
        r == (draw < chance),
{
    draw < chance
}

/// Draws, and says whether the draw gives an unasked reply.
pub fn should_random_reply() -> bool {
    random_reply(draw(), RANDOM_REPLY_CHANCE)
}

/// Whether a message deserves a generated reply.
pub fn should_respond(
    has_text: bool,
    is_command: bool,
    kind: ConversationKind,
    explicit_mention: bool,
    draw: u32,
    chance: u32,
) -> (r: bool)
    ensures
        r == policy(has_text, is_command, kind, explicit_mention, draw, chance),
{
    if !has_text || is_command {
        return false;
    }
    match kind {
        ConversationKind::Private => true,
        ConversationKind::Group => explicit_mention || random_reply(draw, chance),
        ConversationKind::Unknown => explicit_mention,
    }
}

/// What a text that may be missing is to the bot named `bot_name`.
pub fn route(text: &Option<String>, bot_name: &str) -> (r: Routed)
    ensures
        r@ == routed(crate::message::text_of(*text), bot_name@),
{
    match text {
        None => Routed::Silent,
        Some(t) => match Command::parse(t.as_str(), bot_name) {
            Ok(c) => Routed::Command(c),
            Err(_) => Routed::FreeText,
        },
    }
}

/// Whether the message addresses the bot named `bot_username`.
pub fn is_bot_mentioned(msg: &Inbound, bot_username: &str) -> (r: bool)
    ensures
        r == mentions(msg@, bot_username@),
{
    match &msg.text {
        None => false,
        Some(text) => {
            let mut handle: Vec<char> = Vec::new();
            handle.push('@');
            let bot = chars_of(bot_username);
            let mut i: usize = 0;
            while i < bot.len()
                invariant
                    i <= bot@.len(),
                    handle@ == seq!['@'] + bot@.take(i as int),
                decreases bot.len() - i,
            {
                handle.push(bot[i]);
                assert(handle@ =~= seq!['@'] + bot@.take(i + 1));
                i += 1;
            }
            assert(bot@.take(bot@.len() as int) =~= bot@);
            if has_substring(&chars_of(text.as_str()), &handle) {
                return true;
            }
            match &msg.reply_to {
                Some(user) => {
                    if !user.is_bot {
                        return false;
                    }
                    match &user.username {
                        Some(name) => {
                            let wanted = bot_username.to_string();
                            let same = *name == wanted;
                            assert(same == (name@ == bot_username@));
                            assert(same == (crate::message::text_of(user.username) == Some(
                                bot_username@,
                            )));
                            same
                        },
                        None => false,
                    }
                },
                None => false,
            }
        },
    }
}

/// The window as turns of speaker and text, each speaker under the name that
/// `names` has for the speaker's number, or under the name on the message.
pub fn resolve_names(history: Vec<MessageHistory>, names: &HashMap<i64, String>) -> (turns: Vec<
    (String, String),
>)
    ensures
        turns.deep_view() == resolved_turns(histories(history@), name_views(names@)),
{
    let ghost all = history@;
    let ghost target = resolved_turns(histories(all), name_views(names@));
    let mut turns: Vec<(String, String)> = Vec::new();
    for h in it: history
        invariant
            it.seq() == all,
            target == resolved_turns(histories(all), name_views(names@)),
            turns@.len() == it.index(),
            forall|k: int|
                0 <= k < turns@.len() ==> ((#[trigger] turns@[k]).0@, turns@[k].1@) == target[k],
    {
        let ghost k = turns@.len() as int;
        assert(histories(all)[k] == h@);
        let name = match names.get(&h.user_id) {
            Some(known) => {
                assert(name_views(names@)[h.user_id] == known@);
                known.clone()
            },
            None => h.user,
        };
        turns.push((name, h.text));
    }
    assert(turns.deep_view() =~= target) by {
        assert(turns.deep_view().len() == target.len());
        assert forall|k: int| 0 <= k < target.len() implies turns.deep_view()[k] == target[k] by {
            assert(turns.deep_view()[k] == (turns@[k].0@, turns@[k].1@));
        }
    }
    turns
}

/// The authors of the messages of a window.
fn speakers_of(history: &Vec<MessageHistory>) -> (ids: Vec<i64>)
    ensures
        ids@ == speakers(histories(history@)),
{
    let mut ids: Vec<i64> = Vec::new();
    let mut i: usize = 0;
    while i < history.len()
        invariant
            i <= history@.len(),
            ids@ == speakers(histories(history@)).take(i as int),
        decreases history.len() - i,
    {
        ids.push(history[i].user_id);
        assert(ids@ =~= speakers(histories(history@)).take(i + 1));
        i += 1;
    }
    assert(speakers(histories(history@)).take(history@.len() as int) =~= speakers(
        histories(history@),
    ));
    ids
}

/// The conversation that is handed to the backend for the message numbered
/// `skip` of conversation `chat_id`: the newest earlier messages with text,
/// oldest first, each speaker under the speaker's latest name.
pub fn prepare_context(chat_id: i64, cs: &Chat, skip: Option<i32>) -> (turns: Vec<(String, String)>)
    ensures
        turns.deep_view() == context(cs@, chat_id, MAX_CONTEXT_MESSAGES as nat, skip),
{
    let history = cs.recent_without(chat_id, MAX_CONTEXT_MESSAGES, skip);
    let ids = speakers_of(&history);
    let names = cs.get_name_id_map(ids);
    resolve_names(history, &names)
}

/// Stores the message: one record, unless the log holds its key already or is
/// full.
pub fn store_inbound(cs: &mut Chat, msg: &Inbound) -> (r: Result<(), StoreError>)
    ensures
        final(cs)@ == appended(old(cs)@, record_of(msg@), old(cs).capacity()),
        r == append_result(old(cs)@, record_of(msg@), old(cs).capacity()),
        final(cs).capacity() == old(cs).capacity(),
{
    let text: Option<&str> = match &msg.text {
        Some(t) => Some(t.as_str()),
        None => None,
    };
    cs.store_msg(
        msg.chat_id,
        msg.id,
        msg.username(),
        text,
        msg.date,
        msg.user_id(),
        msg.raw.as_str(),
    )
}

/// What follows for a stored message that is no command, by the way `way`
/// that its text goes.
pub(crate) fn respond(cs: &Chat, msg: &Inbound, me: &Me, way: &Routed, draw: u32) -> (r: Reaction)
    requires
        way@ == routed(msg@.text, or_empty(me@.username)),
    ensures
        r@ == free_text_reaction(cs@, msg@, or_empty(me@.username), draw),
{
    let has_text = match way {
        Routed::Silent => false,
        _ => true,
    };
    let is_command = match way {
        Routed::Command(_) => true,
        _ => false,
    };
    let mentioned = is_bot_mentioned(msg, me.name());
    if should_respond(has_text, is_command, msg.kind(), mentioned, draw, RANDOM_REPLY_CHANCE) {
        Reaction::Generate(prepare_context(msg.chat_id, cs, Some(msg.id)))
    } else {
        Reaction::Nothing
    }
}

/// Takes a message the way of free text: stores it, and asks for a generated
/// reply where the policy wants one. A message that the log held already is
/// not answered again.
pub fn handle_message(cs: &mut Chat, msg: &Inbound, me: &Me, draw: u32) -> (r: Reaction)
    ensures
        final(cs)@ == appended(old(cs)@, record_of(msg@), old(cs).capacity()),
        final(cs).capacity() == old(cs).capacity(),
        r@ == message_reaction(old(cs)@, old(cs).capacity(), msg@, me@, draw),
{
    match store_inbound(cs, msg) {
        Err(StoreError::DuplicateKey) => {
            return Reaction::Nothing;
        },
        _ => {},
    }
    let way = route(&msg.text, me.name());
    respond(cs, msg, me, &way, draw)
}

} // verus!
