//! The message store: an append-only log of the messages seen, one record per
//! conversation and message number, and what is read from it.
//!
//! The log is modelled as the sequence of its records in the order in which
//! they were appended. Every contract speaks of that sequence.

pub mod names;
pub mod stats;
pub mod window;

use vstd::prelude::*;

verus! {

/// One observed message.
#[derive(Debug, Clone, PartialEq, Eq)]
pub struct MessageRecord {
    /// The conversation: negative for a group, positive for a private chat.
    pub conversation_id: i64,
    /// The message's number within its conversation.
    pub message_id: i32,
    /// The author's name as it was when the message was written.
    pub author_display_name: String,
    /// The author's number; 0 where the author is unknown.
    pub author_id: i64,
    /// The text, if the message has one.
    pub text: Option<String>,
    /// When the message was sent, in seconds since the epoch.
    pub sent_at: i64,
    /// The update as it came, kept for inspection and not read here.
    pub raw: String,
}

/// A record as a mathematical value.
pub struct RecordView {
    pub conversation_id: i64,
    pub message_id: i32,
    pub author: Seq<char>,
    pub author_id: i64,
    pub text: Option<Seq<char>>,
    pub sent_at: i64,
    pub raw: Seq<char>,
}

impl View for MessageRecord {
    type V = RecordView;

    open spec fn view(&self) -> RecordView {
        RecordView {
            conversation_id: self.conversation_id,
            message_id: self.message_id,
            author: self.author_display_name@,
            author_id: self.author_id,
            text: match self.text {
                Some(t) => Some(t@),
                None => None,
            },
            sent_at: self.sent_at,
            raw: self.raw@,
        }
    }
}

/// Why a record was not stored.
#[derive(Debug, Clone, Copy, PartialEq, Eq)]
pub enum StoreError {
    /// The log already holds a record of this conversation and message number.
    DuplicateKey,
    /// The log has no room left.
    StorageFault,
}

/// The most records that any log holds.
pub const MAX_RECORDS: u64 = 0x7fff_ffff_ffff_ffff;

/// The log holds a record of conversation `conv` with message number `msg`.
pub open spec fn has_key(log: Seq<RecordView>, conv: i64, msg: i32) -> bool {
    exists|i: int|
        0 <= i < log.len() && (#[trigger] log[i]).conversation_id == conv && log[i].message_id
            == msg
}

/// No two records of the log share conversation and message number.
pub open spec fn keys_unique(log: Seq<RecordView>) -> bool {
    forall|i: int, j: int|
        0 <= i < j < log.len() ==> !((#[trigger] log[i]).conversation_id == (
        #[trigger] log[j]).conversation_id && log[i].message_id == log[j].message_id)
}

/// The log after an attempt to append `r` to a log that holds at most
/// `capacity` records: unchanged where the key is taken or the log is full.
pub open spec fn appended(log: Seq<RecordView>, r: RecordView, capacity: nat) -> Seq<RecordView> {
    if has_key(log, r.conversation_id, r.message_id) || log.len() >= capacity {
        log
    } else {
        log.push(r)
    }
}

/// What an attempt to append `r` reports.
pub open spec fn append_result(log: Seq<RecordView>, r: RecordView, capacity: nat) -> Result<
    (),
    StoreError,
> {
    if has_key(log, r.conversation_id, r.message_id) {
        Err(StoreError::DuplicateKey)
    } else if log.len() >= capacity {
        Err(StoreError::StorageFault)
    } else {
        Ok(())
    }
}

/// The log after attempts to append each of `rows` in turn to an empty log.
pub open spec fn replayed(rows: Seq<RecordView>, capacity: nat) -> Seq<RecordView>
    decreases rows.len(),
{
    if rows.len() == 0 {
        Seq::empty()
    } else {
        appended(replayed(rows.drop_last(), capacity), rows.last(), capacity)
    }
}

/// How many records of the log satisfy `p`.
pub open spec fn count(log: Seq<RecordView>, p: spec_fn(RecordView) -> bool) -> nat
    decreases log.len(),
{
    if log.len() == 0 {
        0
    } else {
        count(log.drop_last(), p) + if p(log.last()) {
            1nat
        } else {
            0nat
        }
    }
}

/// The records of conversation `conv`.
pub open spec fn in_conversation(conv: i64) -> spec_fn(RecordView) -> bool {
    |r: RecordView| r.conversation_id == conv
}

/// The author number under which a sender's number is stored: the number
/// itself where it fits, else its two's complement reading.
pub open spec fn stored_author(user_id: u64) -> i64 {
    if user_id <= i64::MAX as u64 {
        user_id as i64
    } else {
        (user_id - 0x1_0000_0000_0000_0000) as i64
    }
}

/// A count never exceeds the length of the log.
pub proof fn lemma_count_bound(log: Seq<RecordView>, p: spec_fn(RecordView) -> bool)
    ensures
        count(log, p) <= log.len(),
    decreases log.len(),
{
    if log.len() > 0 {
        lemma_count_bound(log.drop_last(), p);
    }
}

/// Counting the first `n + 1` records.
pub proof fn lemma_count_take(log: Seq<RecordView>, n: int, p: spec_fn(RecordView) -> bool)
    requires
        0 <= n < log.len(),
    ensures
        count(log.take(n + 1), p) == count(log.take(n), p) + if p(log[n]) {
            1nat
        } else {
            0nat
        },
{
    assert(log.take(n + 1).drop_last() =~= log.take(n));
}

/// Appending is idempotent: a second attempt with the same record reports a
/// duplicate key where the first one stored it, leaves the log as the first
/// one left it, and with it the number of records of every conversation.
pub proof fn lemma_append_idempotent(log: Seq<RecordView>, r: RecordView, capacity: nat, conv: i64)
    ensures
        appended(appended(log, r, capacity), r, capacity) == appended(log, r, capacity),
        append_result(log, r, capacity) is Ok ==> append_result(
            appended(log, r, capacity),
            r,
            capacity,
        ) == Err::<(), StoreError>(StoreError::DuplicateKey),
        append_result(log, r, capacity) is Ok ==> appended(log, r, capacity).len() == log.len()
            + 1,
        count(appended(appended(log, r, capacity), r, capacity), in_conversation(conv)) == count(
            appended(log, r, capacity),
            in_conversation(conv),
        ),
{
    let once = appended(log, r, capacity);
    if append_result(log, r, capacity) is Ok {
        assert(once[log.len() as int] == r);
        assert(has_key(once, r.conversation_id, r.message_id));
    }
}

/// An attempt to append keeps the keys of the log unique.
pub proof fn lemma_append_keeps_keys_unique(log: Seq<RecordView>, r: RecordView, capacity: nat)
    requires
        keys_unique(log),
    ensures
        keys_unique(appended(log, r, capacity)),
{
}

/// The message store.
pub struct Chat {
    records: Vec<MessageRecord>,
    limit: u64,
}

impl View for Chat {
    type V = Seq<RecordView>;

    closed spec fn view(&self) -> Seq<RecordView> {
        self.records@.map_values(|r: MessageRecord| r@)
    }
}

impl Chat {
    #[verifier::type_invariant]
    spec fn well_formed(&self) -> bool {
        &&& keys_unique(self@)
        &&& self.records@.len() <= self.limit
        &&& self.limit <= MAX_RECORDS
    }

    /// The most records that this log holds.
    pub closed spec fn capacity(&self) -> nat {
        self.limit as nat
    }

    /// States what holds of every log: its keys are unique and it holds no
    /// more records than it has room for. Does nothing when run.
    pub fn well_formedness(&self)
        ensures
            keys_unique(self@),
            self@.len() <= self.capacity() <= MAX_RECORDS,
    {
        proof {
            use_type_invariant(self);
        }
    }

    /// The records in the order in which they were appended.
    pub fn rows(&self) -> (rows: &Vec<MessageRecord>)
        ensures
            views(rows@) == self@,
    {
        &self.records
    }

    /// An empty log with room for `MAX_RECORDS` records.
    pub fn in_memory() -> (cs: Chat)
        ensures
            cs@ == Seq::<RecordView>::empty(),
            cs.capacity() == MAX_RECORDS,
    {
        Chat::with_capacity(MAX_RECORDS)
    }

    /// An empty log with room for `capacity` records, and for no more than
    /// `MAX_RECORDS`.
    pub fn with_capacity(capacity: u64) -> (cs: Chat)
        ensures
            cs@ == Seq::<RecordView>::empty(),
            cs.capacity() == if capacity <= MAX_RECORDS {
                capacity
            } else {
                MAX_RECORDS
            },
    {
        let limit: u64 = if capacity <= MAX_RECORDS {
            capacity
        } else {
            MAX_RECORDS
        };
        let cs = Chat { records: Vec::new(), limit };
        assert(cs@ =~= Seq::<RecordView>::empty());
        cs
    }

    /// The log that holds `rows` as far as attempts to append each in turn
    /// store them: a row whose key an earlier one has is left out.
    pub fn new(rows: Vec<MessageRecord>) -> (cs: Chat)
        ensures
            cs@ == replayed(views(rows@), MAX_RECORDS as nat),
            cs.capacity() == MAX_RECORDS,
    {
        let mut cs = Chat::in_memory();
        let ghost all = rows@;
        for r in it: rows
            invariant
                it.seq() == all,
                cs@ == replayed(views(all.take(it.index() as int)), MAX_RECORDS as nat),
                cs.capacity() == MAX_RECORDS,
        {
            proof {
                let done = all.take(it.index() as int);
                let next = all.take(it.index() + 1);
                assert(views(next).drop_last() =~= views(done));
                assert(views(next).last() == r@);
            }
            let _ = cs.append(r);
        }
        assert(all.take(all.len() as int) =~= all);
        cs
    }

    /// Whether the log holds a record of this conversation and message number.
    pub fn contains_key(&self, chat_id: i64, msg_id: i32) -> (r: bool)
        ensures
            r == has_key(self@, chat_id, msg_id),
    {
        let mut i: usize = 0;
        while i < self.records.len()
            invariant
                i <= self.records.len(),
                forall|j: int|
                    0 <= j < i ==> !((#[trigger] self@[j]).conversation_id == chat_id
                        && self@[j].message_id == msg_id),
            decreases self.records.len() - i,
        {
            if self.records[i].conversation_id == chat_id && self.records[i].message_id == msg_id {
                assert(self@[i as int].conversation_id == chat_id);
                return true;
            }
            i += 1;
        }
        false
    }

    /// Appends `record`, unless the log holds its key already or is full.
    pub fn append(&mut self, record: MessageRecord) -> (r: Result<(), StoreError>)
        ensures
            final(self)@ == appended(old(self)@, record@, old(self).capacity()),
            r == append_result(old(self)@, record@, old(self).capacity()),
            final(self).capacity() == old(self).capacity(),
    {
        proof {
            use_type_invariant(&*self);
        }
        if self.contains_key(record.conversation_id, record.message_id) {
            return Err(StoreError::DuplicateKey);
        }
        if self.records.len() as u64 >= self.limit {
            return Err(StoreError::StorageFault);
        }
        let ghost before = self@;
        // The records leave the log while they grow, so that the log is whole
        // whenever it can be seen.
        let mut grown = Chat { records: Vec::new(), limit: self.limit };
        assert(grown@ =~= Seq::<RecordView>::empty());
        core::mem::swap(self, &mut grown);
        let Chat { mut records, limit } = grown;
        records.push(record);
        proof {
            let after = records@.map_values(|r: MessageRecord| r@);
            assert(after =~= before.push(record@));
            assert forall|i: int, j: int| 0 <= i < j < after.len() implies !((
            #[trigger] after[i]).conversation_id == (#[trigger] after[j]).conversation_id
                && after[i].message_id == after[j].message_id) by {
                assert(after[i] == before[i]);
                if j < before.len() {
                    assert(after[j] == before[j]);
                }
            }
        }
        *self = Chat { records, limit };
        Ok(())
    }

    /// Stores one observed message: a record of conversation `chat_id` with
    /// message number `msg_id`, written by `username` with number `user_id`.
    pub fn store_msg(
        &mut self,
        chat_id: i64,
        msg_id: i32,
        username: &str,
        text: Option<&str>,
        time: i64,
        user_id: u64,
        raw: &str,
    ) -> (r: Result<(), StoreError>)
        ensures
            final(self)@ == appended(
                old(self)@,
                observed(chat_id, msg_id, username@, text_view(text), time, user_id, raw@),
                old(self).capacity(),
            ),
            r == append_result(
                old(self)@,
                observed(chat_id, msg_id, username@, text_view(text), time, user_id, raw@),
                old(self).capacity(),
            ),
            final(self).capacity() == old(self).capacity(),
    {
        let author_id: i64 = if user_id <= 0x7fff_ffff_ffff_ffff {
            user_id as i64
        } else {
            ((user_id - 0x8000_0000_0000_0000) as i64) + i64::MIN
        };
        let record = MessageRecord {
            conversation_id: chat_id,
            message_id: msg_id,
            author_display_name: username.to_string(),
            author_id,
            text: match text {
                Some(t) => Some(t.to_string()),
                None => None,
            },
            sent_at: time,
            raw: raw.to_string(),
        };
        self.append(record)
    }

    /// How many records the conversation has, with or without text.
    pub fn get_tot_msg(&self, chat_id: i64) -> (n: i64)
        ensures
            n == count(self@, in_conversation(chat_id)),
    {
        proof {
            use_type_invariant(self);
        }
        let mut n: i64 = 0;
        let mut i: usize = 0;
        while i < self.records.len()
            invariant
                i <= self.records.len(),
                self.records@.len() <= MAX_RECORDS,
                n == count(self@.take(i as int), in_conversation(chat_id)),
            decreases self.records.len() - i,
        {
            proof {
                lemma_count_take(self@, i as int, in_conversation(chat_id));
                lemma_count_bound(self@.take(i as int), in_conversation(chat_id));
            }
            if self.records[i].conversation_id == chat_id {
                n += 1;
            }
            i += 1;
        }
        assert(self@.take(i as int) =~= self@);
        n
    }
}

/// The records as mathematical values.
pub open spec fn views(rows: Seq<MessageRecord>) -> Seq<RecordView> {
    rows.map_values(|r: MessageRecord| r@)
}

/// A text that may be missing, as a mathematical value.
pub open spec fn text_view(text: Option<&str>) -> Option<Seq<char>> {
    match text {
        Some(t) => Some(t@),
        None => None,
    }
}

/// The record of one observed message.
pub open spec fn observed(
    chat_id: i64,
    msg_id: i32,
    username: Seq<char>,
    text: Option<Seq<char>>,
    time: i64,
    user_id: u64,
    raw: Seq<char>,
) -> RecordView {
    RecordView {
        conversation_id: chat_id,
        message_id: msg_id,
        author: username,
        author_id: stored_author(user_id),
        text,
        sent_at: time,
        raw,
    }
}

} // verus!
