//! The recent window: the newest messages of a conversation that have text,
//! oldest first.
//!
//! Within a conversation a message is older than another if it was sent
//! earlier or, sent in the same second, has the smaller message number. The
//! window is described newest first: its newest member is the newest message
//! with text, each further member the newest one older than the member before.

use crate::db::{keys_unique, views, Chat, MessageRecord, RecordView};
use vstd::prelude::*;

verus! {

/// One message of a window: who wrote it, and what.
#[derive(Debug, Clone, PartialEq, Eq)]
pub struct MessageHistory {
    pub user: String,
    pub user_id: i64,
    pub text: String,
}

/// A message of a window as a mathematical value.
pub struct HistoryView {
    pub user: Seq<char>,
    pub user_id: i64,
    pub text: Seq<char>,
}

impl View for MessageHistory {
    type V = HistoryView;

    open spec fn view(&self) -> HistoryView {
        HistoryView { user: self.user@, user_id: self.user_id, text: self.text@ }
    }
}

/// The messages as mathematical values.
pub open spec fn histories(window: Seq<MessageHistory>) -> Seq<HistoryView> {
    window.map_values(|m: MessageHistory| m@)
}

/// The record belongs to conversation `conv`, has a text that is not empty,
/// and is not the message numbered `skip`.
pub open spec fn speaks(r: RecordView, conv: i64, skip: Option<i32>) -> bool {
    &&& r.conversation_id == conv
    &&& match r.text {
        Some(t) => t.len() > 0,
        None => false,
    }
    &&& skip != Some(r.message_id)
}

/// `a` comes before `b` in time: sent earlier or, sent in the same second,
/// with the smaller message number.
pub open spec fn older(a: RecordView, b: RecordView) -> bool {
    a.sent_at < b.sent_at || (a.sent_at == b.sent_at && a.message_id < b.message_id)
}

/// Record `j` speaks in the conversation and is older than the record at
/// `bound`, where there is a bound.
pub open spec fn candidate(
    log: Seq<RecordView>,
    conv: i64,
    skip: Option<i32>,
    bound: Option<int>,
    j: int,
) -> bool {
    &&& 0 <= j < log.len()
    &&& speaks(log[j], conv, skip)
    &&& match bound {
        Some(b) => older(log[j], log[b]),
        None => true,
    }
}

/// Record `i` is a candidate, and every other candidate is older.
pub open spec fn is_newest(
    log: Seq<RecordView>,
    conv: i64,
    skip: Option<i32>,
    bound: Option<int>,
    i: int,
) -> bool {
    &&& candidate(log, conv, skip, bound, i)
    &&& forall|j: int| #[trigger]
        candidate(log, conv, skip, bound, j) ==> j == i || older(log[j], log[i])
}

/// There is a newest candidate.
pub open spec fn has_newest(
    log: Seq<RecordView>,
    conv: i64,
    skip: Option<i32>,
    bound: Option<int>,
) -> bool {
    exists|i: int| is_newest(log, conv, skip, bound, i)
}

/// The newest candidate, where there is one.
pub open spec fn newest(
    log: Seq<RecordView>,
    conv: i64,
    skip: Option<i32>,
    bound: Option<int>,
) -> int {
    choose|i: int| is_newest(log, conv, skip, bound, i)
}

/// The positions in the log of the `limit` newest candidates, newest first.
pub open spec fn recent_desc(
    log: Seq<RecordView>,
    conv: i64,
    skip: Option<i32>,
    limit: nat,
    bound: Option<int>,
) -> Seq<int>
    decreases limit,
{
    if limit == 0 || !has_newest(log, conv, skip, bound) {
        Seq::empty()
    } else {
        let i = newest(log, conv, skip, bound);
        seq![i] + recent_desc(log, conv, skip, (limit - 1) as nat, Some(i))
    }
}

/// The positions in the log of the `limit` newest records of conversation
/// `conv` that speak, oldest first.
pub open spec fn recent_window(log: Seq<RecordView>, conv: i64, limit: nat, skip: Option<i32>) -> Seq<
    int,
> {
    recent_desc(log, conv, skip, limit, None).reverse()
}

/// What a window shows of a record that has a text.
pub open spec fn history_of(r: RecordView) -> HistoryView {
    HistoryView {
        user: r.author,
        user_id: r.author_id,
        text: match r.text {
            Some(t) => t,
            None => Seq::empty(),
        },
    }
}

/// The `limit` newest messages of conversation `conv` that speak, oldest
/// first.
pub open spec fn window_history(
    log: Seq<RecordView>,
    conv: i64,
    limit: nat,
    skip: Option<i32>,
) -> Seq<HistoryView> {
    recent_window(log, conv, limit, skip).map_values(|i: int| history_of(log[i]))
}

/// A bound on positions as a mathematical value.
pub open spec fn bound_of(bound: Option<usize>) -> Option<int> {
    match bound {
        Some(b) => Some(b as int),
        None => None,
    }
}

/// There is at most one newest candidate.
pub proof fn lemma_newest_unique(
    log: Seq<RecordView>,
    conv: i64,
    skip: Option<i32>,
    bound: Option<int>,
    i: int,
)
    requires
        is_newest(log, conv, skip, bound, i),
    ensures
        has_newest(log, conv, skip, bound),
        newest(log, conv, skip, bound) == i,
{
    let n = newest(log, conv, skip, bound);
    assert(is_newest(log, conv, skip, bound, n));
    assert(candidate(log, conv, skip, bound, i));
    assert(candidate(log, conv, skip, bound, n));
}

/// Among the first `n` records of a log with unique keys, either none is a
/// candidate or one of them is the newest.
proof fn lemma_newest_among(
    log: Seq<RecordView>,
    conv: i64,
    skip: Option<i32>,
    bound: Option<int>,
    n: int,
) -> (best: Option<int>)
    requires
        keys_unique(log),
        0 <= n <= log.len(),
    ensures
        match best {
            Some(b) => {
                &&& 0 <= b < n
                &&& candidate(log, conv, skip, bound, b)
                &&& forall|j: int|
                    0 <= j < n && #[trigger] candidate(log, conv, skip, bound, j) ==> j == b
                        || older(log[j], log[b])
            },
            None => forall|j: int| 0 <= j < n ==> !#[trigger] candidate(log, conv, skip, bound, j),
        },
    decreases n,
{
    if n == 0 {
        None
    } else {
        let before = lemma_newest_among(log, conv, skip, bound, n - 1);
        let last = n - 1;
        if !candidate(log, conv, skip, bound, last) {
            before
        } else {
            match before {
                None => Some(last),
                Some(b) => {
                    if older(log[b], log[last]) {
                        Some(last)
                    } else {
                        Some(b)
                    }
                },
            }
        }
    }
}

/// In a log with unique keys, the candidates have a newest one unless there
/// are none.
pub proof fn lemma_newest_exists(
    log: Seq<RecordView>,
    conv: i64,
    skip: Option<i32>,
    bound: Option<int>,
)
    requires
        keys_unique(log),
    ensures
        has_newest(log, conv, skip, bound) || forall|j: int| !#[trigger]
            candidate(log, conv, skip, bound, j),
{
    match lemma_newest_among(log, conv, skip, bound, log.len() as int) {
        Some(b) => {
            assert(is_newest(log, conv, skip, bound, b));
        },
        None => {},
    }
}

/// What holds of the candidates taken newest first: there are at most
/// `limit`; each is a candidate; each is older than the one before; and in a
/// log with unique keys a candidate is left out only when `limit` were taken,
/// and is then older than all of them.
pub proof fn lemma_recent_desc(
    log: Seq<RecordView>,
    conv: i64,
    skip: Option<i32>,
    limit: nat,
    bound: Option<int>,
)
    ensures
        recent_desc(log, conv, skip, limit, bound).len() <= limit,
        forall|k: int|
            0 <= k < recent_desc(log, conv, skip, limit, bound).len() ==> candidate(
                log,
                conv,
                skip,
                bound,
                #[trigger] recent_desc(log, conv, skip, limit, bound)[k],
            ),
        forall|k1: int, k2: int|
            0 <= k1 < k2 < recent_desc(log, conv, skip, limit, bound).len() ==> older(
                log[#[trigger] recent_desc(log, conv, skip, limit, bound)[k2]],
                log[#[trigger] recent_desc(log, conv, skip, limit, bound)[k1]],
            ),
        keys_unique(log) ==> forall|j: int|
            #[trigger] candidate(log, conv, skip, bound, j) && !recent_desc(
                log,
                conv,
                skip,
                limit,
                bound,
            ).contains(j) ==> {
                &&& recent_desc(log, conv, skip, limit, bound).len() == limit
                &&& forall|k: int|
                    0 <= k < recent_desc(log, conv, skip, limit, bound).len() ==> older(
                        log[j],
                        log[#[trigger] recent_desc(log, conv, skip, limit, bound)[k]],
                    )
            },
    decreases limit,
{
    let d = recent_desc(log, conv, skip, limit, bound);
    if limit == 0 {
    } else if !has_newest(log, conv, skip, bound) {
        if keys_unique(log) {
            lemma_newest_exists(log, conv, skip, bound);
        }
    } else {
        let i = newest(log, conv, skip, bound);
        assert(is_newest(log, conv, skip, bound, i));
        let rest = recent_desc(log, conv, skip, (limit - 1) as nat, Some(i));
        lemma_recent_desc(log, conv, skip, (limit - 1) as nat, Some(i));
        assert(d == seq![i] + rest);
        assert(d[0] == i);
        assert forall|k: int| 0 <= k < d.len() implies candidate(
            log,
            conv,
            skip,
            bound,
            #[trigger] d[k],
        ) by {
            if k > 0 {
                assert(d[k] == rest[k - 1]);
                assert(candidate(log, conv, skip, Some(i), rest[k - 1]));
            }
        }
        assert forall|k1: int, k2: int| 0 <= k1 < k2 < d.len() implies older(
            log[#[trigger] d[k2]],
            log[#[trigger] d[k1]],
        ) by {
            assert(d[k2] == rest[k2 - 1]);
            assert(candidate(log, conv, skip, Some(i), rest[k2 - 1]));
            if k1 > 0 {
                assert(d[k1] == rest[k1 - 1]);
            }
        }
        if keys_unique(log) {
            assert forall|j: int|
                #[trigger] candidate(log, conv, skip, bound, j) && !d.contains(j) implies {
                &&& d.len() == limit
                &&& forall|k: int| 0 <= k < d.len() ==> older(log[j], log[#[trigger] d[k]])
            } by {
                assert(j != i);
                assert(candidate(log, conv, skip, Some(i), j));
                if rest.contains(j) {
                    let k = choose|k: int| 0 <= k < rest.len() && rest[k] == j;
                    assert(d[k + 1] == j);
                }
                assert forall|k: int| 0 <= k < d.len() implies older(
                    log[j],
                    log[#[trigger] d[k]],
                ) by {
                    if k > 0 {
                        assert(d[k] == rest[k - 1]);
                    }
                }
            }
        }
    }
}

/// The recent window holds at most `limit` records; each belongs to the
/// conversation and has a text that is not empty; each is older than the
/// next; and, in a log with unique keys, a record that speaks is missing only
/// from a window of `limit` records and is then older than all of them.
pub proof fn lemma_recent_window(log: Seq<RecordView>, conv: i64, limit: nat, skip: Option<i32>)
    ensures
        recent_window(log, conv, limit, skip).len() <= limit,
        window_history(log, conv, limit, skip).len() == recent_window(
            log,
            conv,
            limit,
            skip,
        ).len(),
        forall|k: int|
            0 <= k < recent_window(log, conv, limit, skip).len() ==> {
                &&& 0 <= (#[trigger] recent_window(log, conv, limit, skip)[k]) < log.len()
                &&& speaks(log[recent_window(log, conv, limit, skip)[k]], conv, skip)
                &&& window_history(log, conv, limit, skip)[k].text.len() > 0
            },
        forall|k1: int, k2: int|
            0 <= k1 < k2 < recent_window(log, conv, limit, skip).len() ==> older(
                log[#[trigger] recent_window(log, conv, limit, skip)[k1]],
                log[#[trigger] recent_window(log, conv, limit, skip)[k2]],
            ),
        keys_unique(log) ==> forall|j: int|
            0 <= j < log.len() && speaks(#[trigger] log[j], conv, skip) && !recent_window(
                log,
                conv,
                limit,
                skip,
            ).contains(j) ==> {
                &&& recent_window(log, conv, limit, skip).len() == limit
                &&& forall|k: int|
                    0 <= k < recent_window(log, conv, limit, skip).len() ==> older(
                        log[j],
                        log[#[trigger] recent_window(log, conv, limit, skip)[k]],
                    )
            },
{
    let d = recent_desc(log, conv, skip, limit, None);
    let w = recent_window(log, conv, limit, skip);
    lemma_recent_desc(log, conv, skip, limit, None);
    assert(w.len() == d.len());
    assert forall|k: int| 0 <= k < w.len() implies {
        &&& 0 <= (#[trigger] w[k]) < log.len()
        &&& speaks(log[w[k]], conv, skip)
        &&& window_history(log, conv, limit, skip)[k].text.len() > 0
    } by {
        assert(w[k] == d[d.len() - 1 - k]);
        assert(candidate(log, conv, skip, None, d[d.len() - 1 - k]));
    }
    assert forall|k1: int, k2: int| 0 <= k1 < k2 < w.len() implies older(
        log[#[trigger] w[k1]],
        log[#[trigger] w[k2]],
    ) by {
        assert(w[k1] == d[d.len() - 1 - k1]);
        assert(w[k2] == d[d.len() - 1 - k2]);
    }
    if keys_unique(log) {
        assert forall|j: int|
            0 <= j < log.len() && speaks(#[trigger] log[j], conv, skip) && !w.contains(
                j,
            ) implies {
            &&& w.len() == limit
            &&& forall|k: int| 0 <= k < w.len() ==> older(log[j], log[#[trigger] w[k]])
        } by {
            assert(candidate(log, conv, skip, None, j));
            if d.contains(j) {
                let k = choose|k: int| 0 <= k < d.len() && d[k] == j;
                assert(w[d.len() - 1 - k] == j);
            }
            assert forall|k: int| 0 <= k < w.len() implies older(log[j], log[#[trigger] w[k]]) by {
                assert(w[k] == d[d.len() - 1 - k]);
            }
        }
    }
}

/// Whether `a` comes before `b` in time.
pub fn is_older(a: &MessageRecord, b: &MessageRecord) -> (r: bool)
    ensures
        r == older(a@, b@),
{
    a.sent_at < b.sent_at || (a.sent_at == b.sent_at && a.message_id < b.message_id)
}

/// Whether the record speaks in conversation `chat_id`.
pub fn speaks_in(r: &MessageRecord, chat_id: i64, skip: Option<i32>) -> (b: bool)
    ensures
        b == speaks(r@, chat_id, skip),
{
    if r.conversation_id != chat_id {
        return false;
    }
    match skip {
        Some(m) => {
            if m == r.message_id {
                return false;
            }
        },
        None => {},
    }
    match &r.text {
        Some(t) => !t.as_str().is_empty(),
        None => false,
    }
}

impl Chat {
    /// The position of the newest record that speaks in the conversation and
    /// is older than the record at `bound`.
    fn newest_before(&self, chat_id: i64, skip: Option<i32>, bound: Option<usize>) -> (r: Option<
        usize,
    >)
        requires
            bound matches Some(b) ==> b < self@.len(),
        ensures
            match r {
                Some(i) => is_newest(self@, chat_id, skip, bound_of(bound), i as int),
                None => !has_newest(self@, chat_id, skip, bound_of(bound)),
            },
    {
        self.well_formedness();
        let rows = self.rows();
        let ghost log = self@;
        let ghost limit = bound_of(bound);
        let mut best: Option<usize> = None;
        let mut n: usize = 0;
        while n < rows.len()
            invariant
                n <= rows.len(),
                views(rows@) == log,
                keys_unique(log),
                limit == bound_of(bound),
                bound matches Some(b) ==> b < log.len(),
                match best {
                    Some(b) => {
                        &&& b < n
                        &&& candidate(log, chat_id, skip, limit, b as int)
                        &&& forall|j: int|
                            0 <= j < n && #[trigger] candidate(log, chat_id, skip, limit, j) ==> j
                                == b || older(log[j], log[b as int])
                    },
                    None => forall|j: int|
                        0 <= j < n ==> !#[trigger] candidate(log, chat_id, skip, limit, j),
                },
            decreases rows.len() - n,
        {
            let r = &rows[n];
            assert(log[n as int] == r@);
            let in_bound = match bound {
                Some(b) => {
                    assert(log[b as int] == rows@[b as int]@);
                    is_older(r, &rows[b])
                },
                None => true,
            };
            if in_bound && speaks_in(r, chat_id, skip) {
                assert(candidate(log, chat_id, skip, limit, n as int));
                match best {
                    None => {
                        best = Some(n);
                    },
                    Some(b) => {
                        assert(log[b as int] == rows@[b as int]@);
                        if is_older(&rows[b], r) {
                            best = Some(n);
                        }
                    },
                }
            }
            n += 1;
        }
        proof {
            match best {
                Some(b) => {
                    assert(is_newest(log, chat_id, skip, limit, b as int));
                },
                None => {
                    assert forall|i: int| !is_newest(log, chat_id, skip, limit, i) by {
                        if is_newest(log, chat_id, skip, limit, i) {
                            assert(candidate(log, chat_id, skip, limit, i));
                        }
                    }
                },
            }
        }
        best
    }

    /// The positions of the `limit` newest records that speak in the
    /// conversation, newest first.
    fn recent_positions(&self, chat_id: i64, limit: usize, skip: Option<i32>) -> (picked: Vec<
        usize,
    >)
        ensures
            picked@.map_values(|i: usize| i as int) == recent_desc(
                self@,
                chat_id,
                skip,
                limit as nat,
                None,
            ),
            forall|k: int| 0 <= k < picked@.len() ==> (#[trigger] picked@[k]) < self@.len(),
    {
        let ghost log = self@;
        let mut picked: Vec<usize> = Vec::new();
        let mut bound: Option<usize> = None;
        let mut open = true;
        while open && picked.len() < limit
            invariant
                log == self@,
                picked@.len() <= limit,
                bound matches Some(b) ==> b < log.len(),
                forall|k: int| 0 <= k < picked@.len() ==> (#[trigger] picked@[k]) < log.len(),
                open ==> recent_desc(log, chat_id, skip, limit as nat, None) == picked@.map_values(
                    |i: usize| i as int,
                ) + recent_desc(
                    log,
                    chat_id,
                    skip,
                    (limit - picked@.len()) as nat,
                    bound_of(bound),
                ),
                !open ==> recent_desc(log, chat_id, skip, limit as nat, None) == picked@.map_values(
                    |i: usize| i as int,
                ),
            decreases (if open { 1int } else { 0int }), limit - picked.len(),
        {
            let ghost before = picked@.map_values(|i: usize| i as int);
            let ghost left = (limit - picked@.len()) as nat;
            let ghost above = bound_of(bound);
            match self.newest_before(chat_id, skip, bound) {
                Some(i) => {
                    proof {
                        lemma_newest_unique(log, chat_id, skip, above, i as int);
                    }
                    picked.push(i);
                    bound = Some(i);
                    proof {
                        let rest = recent_desc(log, chat_id, skip, (left - 1) as nat, Some(i as int));
                        assert(recent_desc(log, chat_id, skip, left, above) == seq![i as int]
                            + rest);
                        assert(picked@.map_values(|i: usize| i as int) =~= before.push(i as int));
                        assert(before.push(i as int) + rest =~= before + (seq![i as int] + rest));
                    }
                },
                None => {
                    open = false;
                    assert(before + Seq::<int>::empty() =~= before);
                },
            }
        }
        assert(picked@.map_values(|i: usize| i as int) + Seq::<int>::empty()
            =~= picked@.map_values(|i: usize| i as int));
        picked
    }

    /// The `limit` newest messages of conversation `chat_id` that have a text
    /// that is not empty, oldest first, without the message numbered `skip`.
    pub fn recent_without(&self, chat_id: i64, limit: usize, skip: Option<i32>) -> (window: Vec<
        MessageHistory,
    >)
        ensures
            histories(window@) == window_history(self@, chat_id, limit as nat, skip),
    {
        let picked = self.recent_positions(chat_id, limit, skip);
        let rows = self.rows();
        let ghost log = self@;
        let ghost desc = recent_desc(log, chat_id, skip, limit as nat, None);
        let ghost target = window_history(log, chat_id, limit as nat, skip);
        proof {
            lemma_recent_desc(log, chat_id, skip, limit as nat, None);
        }
        let mut window: Vec<MessageHistory> = Vec::new();
        let mut left: usize = picked.len();
        while left > 0
            invariant
                left <= picked@.len(),
                views(rows@) == log,
                desc == picked@.map_values(|i: usize| i as int),
                desc == recent_desc(log, chat_id, skip, limit as nat, None),
                target == window_history(log, chat_id, limit as nat, skip),
                forall|k: int| 0 <= k < picked@.len() ==> (#[trigger] picked@[k]) < log.len(),
                forall|k: int|
                    0 <= k < desc.len() ==> candidate(log, chat_id, skip, None, #[trigger] desc[k]),
                window@.len() == picked@.len() - left,
                forall|k: int| 0 <= k < window@.len() ==> (#[trigger] window@[k])@ == target[k],
            decreases left,
        {
            left -= 1;
            let at = picked[left];
            let r = &rows[at];
            proof {
                assert(desc[left as int] == at as int);
                assert(candidate(log, chat_id, skip, None, desc[left as int]));
                assert(log[at as int] == r@);
                let w = recent_window(log, chat_id, limit as nat, skip);
                assert(w[window@.len() as int] == desc[left as int]);
            }
            let text = match &r.text {
                Some(t) => t.clone(),
                None => String::new(),
            };
            window.push(
                MessageHistory { user: r.author_display_name.clone(), user_id: r.author_id, text },
            );
        }
        assert(histories(window@) =~= target);
        window
    }

    /// The `limit` newest messages of conversation `chat_id` that have a text
    /// that is not empty, oldest first.
    pub fn get_recent_messages(&self, chat_id: i64, limit: usize) -> (window: Vec<MessageHistory>)
        ensures
            histories(window@) == window_history(self@, chat_id, limit as nat, None),
    {
        self.recent_without(chat_id, limit, None)
    }
}

} // verus!
