//! The names by which authors are known: for each author the name on the
//! author's latest record, in whatever conversation it was written.
//!
//! A record is later than another if it was sent later or, sent in the same
//! second, was appended later.

use crate::db::{views, Chat, RecordView};
use std::collections::HashMap;
use vstd::prelude::*;

verus! {

broadcast use vstd::std_specs::hash::group_hash_axioms;

/// The log holds a record written by `author`.
pub open spec fn known(log: Seq<RecordView>, author: i64) -> bool {
    exists|i: int| 0 <= i < log.len() && (#[trigger] log[i]).author_id == author
}

/// Record `j` is not later than record `i`.
pub open spec fn not_later(log: Seq<RecordView>, j: int, i: int) -> bool {
    log[j].sent_at < log[i].sent_at || (log[j].sent_at == log[i].sent_at && j <= i)
}

/// Record `i` is the latest that `author` wrote.
pub open spec fn is_latest_of(log: Seq<RecordView>, author: i64, i: int) -> bool {
    &&& 0 <= i < log.len()
    &&& log[i].author_id == author
    &&& forall|j: int|
        0 <= j < log.len() && (#[trigger] log[j]).author_id == author ==> not_later(log, j, i)
}

/// The position of the latest record that `author` wrote, where there is
/// one.
pub open spec fn latest_of(log: Seq<RecordView>, author: i64) -> int {
    choose|i: int| is_latest_of(log, author, i)
}

/// The name on the latest record that `author` wrote.
pub open spec fn latest_name(log: Seq<RecordView>, author: i64) -> Seq<char> {
    log[latest_of(log, author)].author
}

/// The latest names of those of `ids` that have written: an author who has
/// not is not in the map.
pub open spec fn latest_names(log: Seq<RecordView>, ids: Seq<i64>) -> Map<i64, Seq<char>> {
    Map::new(|id: i64| ids.contains(id) && known(log, id), |id: i64| latest_name(log, id))
}

/// The names as mathematical values.
pub open spec fn name_views(names: Map<i64, String>) -> Map<i64, Seq<char>> {
    names.map_values(|s: String| s@)
}

/// An author has one latest record.
pub proof fn lemma_latest_unique(log: Seq<RecordView>, author: i64, i: int)
    requires
        is_latest_of(log, author, i),
    ensures
        latest_of(log, author) == i,
        known(log, author),
{
    let l = latest_of(log, author);
    assert(is_latest_of(log, author, l));
    assert(not_later(log, i, l));
    assert(not_later(log, l, i));
}

impl Chat {
    /// The position of the latest record that `user_id` wrote.
    pub fn latest_position(&self, user_id: i64) -> (r: Option<usize>)
        ensures
            match r {
                Some(i) => is_latest_of(self@, user_id, i as int),
                None => !known(self@, user_id),
            },
    {
        let rows = self.rows();
        let ghost log = self@;
        let mut best: Option<usize> = None;
        let mut n: usize = 0;
        while n < rows.len()
            invariant
                n <= rows@.len(),
                views(rows@) == log,
                match best {
                    Some(b) => {
                        &&& b < n
                        &&& log[b as int].author_id == user_id
                        &&& forall|j: int|
                            0 <= j < n && (#[trigger] log[j]).author_id == user_id ==> not_later(
                                log,
                                j,
                                b as int,
                            )
                    },
                    None => forall|j: int| 0 <= j < n ==> (#[trigger] log[j]).author_id != user_id,
                },
            decreases rows.len() - n,
        {
            let r = &rows[n];
            assert(log[n as int] == r@);
            if r.author_id == user_id {
                match best {
                    None => {
                        best = Some(n);
                    },
                    Some(b) => {
                        assert(log[b as int] == rows@[b as int]@);
                        if rows[b].sent_at <= r.sent_at {
                            best = Some(n);
                        }
                    },
                }
            }
            n += 1;
        }
        best
    }

    /// The names by which the authors `ids` are known now.
    pub fn get_name_id_map(&self, ids: Vec<i64>) -> (names: HashMap<i64, String>)
        ensures
            name_views(names@) == latest_names(self@, ids@),
    {
        let rows = self.rows();
        let ghost log = self@;
        let mut names: HashMap<i64, String> = HashMap::new();
        let mut k: usize = 0;
        assert(name_views(names@) =~= latest_names(log, ids@.take(0)));
        while k < ids.len()
            invariant
                k <= ids@.len(),
                views(rows@) == log,
                log == self@,
                name_views(names@) == latest_names(log, ids@.take(k as int)),
            decreases ids.len() - k,
        {
            let id = ids[k];
            let ghost before = name_views(names@);
            let ghost done = ids@.take(k as int);
            let ghost next = ids@.take(k + 1);
            proof {
                assert(next =~= done.push(id));
                assert forall|x: i64| next.contains(x) <==> (done.contains(x) || x == id) by {
                    if next.contains(x) {
                        let a = choose|a: int| 0 <= a < next.len() && next[a] == x;
                        if a < done.len() {
                            assert(done[a] == x);
                        }
                    }
                    if done.contains(x) {
                        let a = choose|a: int| 0 <= a < done.len() && done[a] == x;
                        assert(next[a] == x);
                    }
                    assert(next[k as int] == id);
                }
            }
            match self.latest_position(id) {
                Some(i) => {
                    proof {
                        lemma_latest_unique(log, id, i as int);
                        assert(log[i as int] == rows@[i as int]@);
                    }
                    let name = rows[i].author_display_name.clone();
                    let ghost held = names@;
                    let ghost shown = name@;
                    names.insert(id, name);
                    proof {
                        assert(names@ == held.insert(id, name));
                        assert(name_views(names@) =~= before.insert(id, shown));
                        assert(shown == latest_name(log, id));
                        assert(before.insert(id, shown) =~= latest_names(log, next));
                    }
                },
                None => {
                    assert(name_views(names@) =~= latest_names(log, next));
                },
            }
            k += 1;
        }
        assert(ids@.take(ids@.len() as int) =~= ids@);
        names
    }
}

} // verus!
