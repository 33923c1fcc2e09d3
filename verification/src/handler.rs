//! The way of every incoming message: it is stored, then answered as a
//! command or taken the way of free text; and a generated reply that was sent
//! is stored in its turn.

use crate::db::{append_result, appended, has_key, observed, Chat, RecordView, StoreError};
use crate::handlers::commands::{answer, answer_text};
use crate::handlers::msgs::{
    draw, free_text_reaction, respond, route, routed, store_inbound, Reaction, ReactionView,
    Routed, RoutedView,
};
use crate::message::{or_empty, record_of, sender_id, sender_name, Inbound, InboundView, Me, MeView};
use vstd::prelude::*;

verus! {

/// What follows for a message, by the log before it was stored: nothing for
/// one that the log held already; the answer for a command; for any other
/// message what the way of free text gives.
pub open spec fn reaction(
    before: Seq<RecordView>,
    capacity: nat,
    m: InboundView,
    me: MeView,
    draw: u32,
) -> ReactionView {
    let after = appended(before, record_of(m), capacity);
    if has_key(before, m.chat_id, m.id) {
        ReactionView::Nothing
    } else {
        match routed(m.text, or_empty(me.username)) {
            RoutedView::Command(cmd) => ReactionView::Reply(
                answer_text(after, m.chat_id, sender_name(m), sender_id(m), cmd),
            ),
            _ => free_text_reaction(after, m, or_empty(me.username), draw),
        }
    }
}

/// The record of a reply that the bot sent: written by the bot, with the
/// reply as its text.
pub open spec fn reply_record(
    chat_id: i64,
    sent_id: i32,
    date: i64,
    me: MeView,
    response: Seq<char>,
    raw: Seq<char>,
) -> RecordView {
    observed(chat_id, sent_id, or_empty(me.username), Some(response), date, me.id, raw)
}

/// A message that is delivered again is not stored again and gets no second
/// reply, whatever the draw, and the log stays as the first delivery left it.
pub proof fn lemma_duplicate_delivery(
    before: Seq<RecordView>,
    capacity: nat,
    m: InboundView,
    me: MeView,
    draw: u32,
)
    requires
        append_result(before, record_of(m), capacity) is Ok,
    ensures
        reaction(appended(before, record_of(m), capacity), capacity, m, me, draw)
            == ReactionView::Nothing,
        appended(appended(before, record_of(m), capacity), record_of(m), capacity) == appended(
            before,
            record_of(m),
            capacity,
        ),
{
    let after = appended(before, record_of(m), capacity);
    assert(after[before.len() as int] == record_of(m));
    assert(has_key(after, m.chat_id, m.id));
}

/// Handles a message with the draw `draw`: stores it, and says what is to be
/// done. A message that the log held already is neither stored nor answered
/// again; a message that found no room is answered all the same.
pub fn handle_drawn(cs: &mut Chat, m: &Inbound, me: &Me, draw: u32) -> (r: Reaction)
    ensures
        final(cs)@ == appended(old(cs)@, record_of(m@), old(cs).capacity()),
        final(cs).capacity() == old(cs).capacity(),
        r@ == reaction(old(cs)@, old(cs).capacity(), m@, me@, draw),
{
    match store_inbound(cs, m) {
        Err(StoreError::DuplicateKey) => {
            return Reaction::Nothing;
        },
        _ => {},
    }
    let way = route(&m.text, me.name());
    match way {
        Routed::Command(cmd) => Reaction::Reply(answer(m, cmd, cs)),
        _ => respond(cs, m, me, &way, draw),
    }
}

/// Handles a message: makes a draw, and handles the message with it.
pub fn handle(cs: &mut Chat, m: &Inbound, me: &Me) -> (r: Reaction)
    ensures
        final(cs)@ == appended(old(cs)@, record_of(m@), old(cs).capacity()),
        final(cs).capacity() == old(cs).capacity(),
        exists|d: u32|
            d < crate::consts::DRAW_RANGE && r@ == #[trigger] reaction(
                old(cs)@,
                old(cs).capacity(),
                m@,
                me@,
                d,
            ),
{
    let d = draw();
    handle_drawn(cs, m, me, d)
}

/// Stores a generated reply that was sent to conversation `chat_id` as
/// message `sent_id`, so that it belongs to the conversation from now on.
pub fn record_reply(
    cs: &mut Chat,
    chat_id: i64,
    sent_id: i32,
    date: i64,
    me: &Me,
    response: &str,
    raw: &str,
) -> (r: Result<(), StoreError>)
    ensures
        final(cs)@ == appended(
            old(cs)@,
            reply_record(chat_id, sent_id, date, me@, response@, raw@),
            old(cs).capacity(),
        ),
        r == append_result(
            old(cs)@,
            reply_record(chat_id, sent_id, date, me@, response@, raw@),
            old(cs).capacity(),
        ),
        final(cs).capacity() == old(cs).capacity(),
{
    cs.store_msg(chat_id, sent_id, me.name(), Some(response), date, me.id, raw)
}

} // verus!
