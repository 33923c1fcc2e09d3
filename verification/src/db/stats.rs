//! The statistics of a conversation: each author's share of its messages.
//!
//! Only records with an author number other than 0 count. An author's group
//! is made by the author's first record in the conversation and carries the
//! name on that record. The ranking lists the groups by falling number of
//! messages, a group made earlier before one made later among equals.

use crate::db::{count, lemma_count_bound, lemma_count_take, views, Chat, RecordView};
use crate::text::{push_two_places, two_places};
use vstd::prelude::*;
use vstd::string::StringExecFns;

verus! {

/// The line that closes a ranking.
pub const STATS_TAG: &'static str = "\n#stats";

/// One author's share of a conversation: `messages` of the `total` messages
/// of all authors.
#[derive(Debug, Clone, PartialEq, Eq)]
pub struct UserPercent {
    pub user: String,
    pub user_id: i64,
    pub messages: u64,
    pub total: u64,
}

/// A share as a mathematical value.
pub struct PercentView {
    pub user: Seq<char>,
    pub user_id: i64,
    pub messages: nat,
    pub total: nat,
}

impl View for UserPercent {
    type V = PercentView;

    open spec fn view(&self) -> PercentView {
        PercentView {
            user: self.user@,
            user_id: self.user_id,
            messages: self.messages as nat,
            total: self.total as nat,
        }
    }
}

/// The shares as mathematical values.
pub open spec fn percents(rows: Seq<UserPercent>) -> Seq<PercentView> {
    rows.map_values(|p: UserPercent| p@)
}

/// The records of conversation `conv` written by `author`.
pub open spec fn by_author(conv: i64, author: i64) -> spec_fn(RecordView) -> bool {
    |r: RecordView| r.conversation_id == conv && r.author_id == author
}

/// The records of conversation `conv` whose author is known.
pub open spec fn with_author(conv: i64) -> spec_fn(RecordView) -> bool {
    |r: RecordView| r.conversation_id == conv && r.author_id != 0
}

/// The records of conversation `conv` whose author is known and named `name`.
pub open spec fn by_name(conv: i64, name: Seq<char>) -> spec_fn(RecordView) -> bool {
    |r: RecordView| r.conversation_id == conv && r.author_id != 0 && r.author == name
}

/// Record `i` is the first that `author` wrote in conversation `conv`.
pub open spec fn is_first_of(log: Seq<RecordView>, conv: i64, author: i64, i: int) -> bool {
    &&& 0 <= i < log.len()
    &&& log[i].conversation_id == conv
    &&& log[i].author_id == author
    &&& forall|j: int|
        0 <= j < i ==> !((#[trigger] log[j]).conversation_id == conv && log[j].author_id
            == author)
}

/// The position of the first record that `author` wrote in conversation
/// `conv`, where there is one.
pub open spec fn first_of(log: Seq<RecordView>, conv: i64, author: i64) -> int {
    choose|i: int| is_first_of(log, conv, author, i)
}

/// The row states the share of an author of the conversation: the author is
/// known and has written, the numbers are the author's and the
/// conversation's, and the name is that on the author's first record.
pub open spec fn is_row(log: Seq<RecordView>, conv: i64, row: PercentView) -> bool {
    &&& row.user_id != 0
    &&& row.messages > 0
    &&& row.messages == count(log, by_author(conv, row.user_id))
    &&& row.total == count(log, with_author(conv))
    &&& is_first_of(log, conv, row.user_id, first_of(log, conv, row.user_id))
    &&& row.user == log[first_of(log, conv, row.user_id)].author
}

/// Row `a` stands before row `b`: it has more messages or, with as many, its
/// author wrote first.
pub open spec fn ranks_before(log: Seq<RecordView>, conv: i64, a: PercentView, b: PercentView) -> bool {
    a.messages > b.messages || (a.messages == b.messages && first_of(log, conv, a.user_id)
        < first_of(log, conv, b.user_id))
}

/// One of the rows is that of `author`.
pub open spec fn has_row(rows: Seq<PercentView>, author: i64) -> bool {
    exists|k: int| 0 <= k < rows.len() && (#[trigger] rows[k]).user_id == author
}

/// `rows` is the ranking of conversation `conv`: each row states an author's
/// share, every known author of the conversation has a row, and the rows
/// stand in their order.
pub open spec fn is_ranking(log: Seq<RecordView>, conv: i64, rows: Seq<PercentView>) -> bool {
    &&& forall|k: int| 0 <= k < rows.len() ==> is_row(log, conv, #[trigger] rows[k])
    &&& forall|i: int|
        0 <= i < log.len() && (#[trigger] log[i]).conversation_id == conv && log[i].author_id != 0
            ==> has_row(rows, log[i].author_id)
    &&& forall|k1: int, k2: int|
        0 <= k1 < k2 < rows.len() ==> ranks_before(log, conv, #[trigger] rows[k1], #[trigger] rows[k2])
}

/// The ranking of conversation `conv`.
pub open spec fn ranking(log: Seq<RecordView>, conv: i64) -> Seq<PercentView> {
    choose|rows: Seq<PercentView>| is_ranking(log, conv, rows)
}

/// The messages of all rows together.
pub open spec fn sum_messages(rows: Seq<PercentView>) -> nat
    decreases rows.len(),
{
    if rows.len() == 0 {
        0
    } else {
        sum_messages(rows.drop_last()) + rows.last().messages
    }
}

/// `part` of `whole` in hundredths of a percent, rounded to the nearest
/// hundredth and, where two are as near, to the even one; 0 of nothing, and
/// never more than the whole.
pub open spec fn share_hundredths(part: nat, whole: nat) -> nat {
    if whole == 0 {
        0
    } else if part >= whole {
        10000
    } else {
        let q = (part * 10000) / whole;
        let r = (part * 10000) % whole;
        if 2 * r > whole || (2 * r == whole && q % 2 == 1) {
            q + 1
        } else {
            q
        }
    }
}

/// The mark before the first three rows of a ranking.
pub open spec fn medal(position: int) -> Seq<char> {
    if position == 0 {
        seq!['🥇', ' ']
    } else if position == 1 {
        seq!['🥈', ' ']
    } else if position == 2 {
        seq!['🥉', ' ']
    } else {
        Seq::empty()
    }
}

/// A name and a share as text: the name, a blank, the percentage with two
/// places, and the percent sign.
pub open spec fn share_text(name: Seq<char>, part: nat, whole: nat) -> Seq<char> {
    name + seq![' '] + two_places(share_hundredths(part, whole)) + seq!['%']
}

/// The line of the row at `position`.
pub open spec fn ranking_line(position: int, row: PercentView) -> Seq<char> {
    medal(position) + share_text(row.user, row.messages, row.total) + seq!['\n']
}

/// The lines of the rows, one after the other.
pub open spec fn ranking_lines(rows: Seq<PercentView>) -> Seq<char>
    decreases rows.len(),
{
    if rows.len() == 0 {
        Seq::empty()
    } else {
        ranking_lines(rows.drop_last()) + ranking_line(rows.len() - 1, rows.last())
    }
}

/// A ranking as text: its lines, and the closing tag.
pub open spec fn ranking_text(rows: Seq<PercentView>) -> Seq<char> {
    ranking_lines(rows) + STATS_TAG@
}

/// An author has one first record.
pub proof fn lemma_first_unique(log: Seq<RecordView>, conv: i64, author: i64, i: int)
    requires
        is_first_of(log, conv, author, i),
    ensures
        first_of(log, conv, author) == i,
{
    let f = first_of(log, conv, author);
    assert(is_first_of(log, conv, author, f));
    if f < i {
        assert(log[f].conversation_id == conv);
    }
    if i < f {
        assert(log[i].conversation_id == conv);
    }
}

/// No record satisfies `p`, so none is counted.
proof fn lemma_count_none(log: Seq<RecordView>, p: spec_fn(RecordView) -> bool)
    requires
        forall|j: int| 0 <= j < log.len() ==> !p(#[trigger] log[j]),
    ensures
        count(log, p) == 0,
    decreases log.len(),
{
    if log.len() > 0 {
        let rest = log.drop_last();
        assert forall|j: int| 0 <= j < rest.len() implies !p(#[trigger] rest[j]) by {
            assert(rest[j] == log[j]);
        }
        lemma_count_none(rest, p);
    }
}

/// How many of `ids` are `author`.
spec fn hits(ids: Seq<i64>, author: i64) -> nat
    decreases ids.len(),
{
    if ids.len() == 0 {
        0
    } else {
        hits(ids.drop_last(), author) + if ids.last() == author {
            1nat
        } else {
            0nat
        }
    }
}

/// The records of the conversation that the authors `ids` wrote, each author
/// counted as often as it stands in `ids`.
spec fn sum_by(log: Seq<RecordView>, conv: i64, ids: Seq<i64>) -> nat
    decreases ids.len(),
{
    if ids.len() == 0 {
        0
    } else {
        sum_by(log, conv, ids.drop_last()) + count(log, by_author(conv, ids.last()))
    }
}

/// Among authors that are all different, one that occurs is hit once and
/// one that does not occur is not hit.
proof fn lemma_hits(ids: Seq<i64>, author: i64)
    requires
        forall|a: int, b: int| 0 <= a < b < ids.len() ==> ids[a] != ids[b],
    ensures
        hits(ids, author) == if ids.contains(author) {
            1nat
        } else {
            0nat
        },
    decreases ids.len(),
{
    if ids.len() > 0 {
        let rest = ids.drop_last();
        assert forall|a: int, b: int| 0 <= a < b < rest.len() implies rest[a] != rest[b] by {
            assert(rest[a] == ids[a] && rest[b] == ids[b]);
        }
        lemma_hits(rest, author);
        if ids.last() == author {
            if rest.contains(author) {
                let a = choose|a: int| 0 <= a < rest.len() && rest[a] == author;
                assert(ids[a] == ids[ids.len() - 1]);
            }
            assert(ids[ids.len() - 1] == author);
        } else {
            if ids.contains(author) {
                let a = choose|a: int| 0 <= a < ids.len() && ids[a] == author;
                assert(rest[a] == author);
            }
            if rest.contains(author) {
                let a = choose|a: int| 0 <= a < rest.len() && rest[a] == author;
                assert(ids[a] == author);
            }
        }
    }
}

/// One record more adds to the sum as often as its author is hit.
proof fn lemma_sum_by_push(log: Seq<RecordView>, r: RecordView, conv: i64, ids: Seq<i64>)
    ensures
        sum_by(log.push(r), conv, ids) == sum_by(log, conv, ids) + if r.conversation_id == conv {
            hits(ids, r.author_id)
        } else {
            0nat
        },
    decreases ids.len(),
{
    if ids.len() > 0 {
        lemma_sum_by_push(log, r, conv, ids.drop_last());
        assert(log.push(r).drop_last() =~= log);
    }
}

/// Where the authors `ids` are known, all different, and all the known
/// authors of the conversation, their records are the records of the
/// conversation whose author is known.
proof fn lemma_sum_by_total(log: Seq<RecordView>, conv: i64, ids: Seq<i64>)
    requires
        forall|a: int| 0 <= a < ids.len() ==> ids[a] != 0,
        forall|a: int, b: int| 0 <= a < b < ids.len() ==> ids[a] != ids[b],
        forall|i: int|
            0 <= i < log.len() && (#[trigger] log[i]).conversation_id == conv && log[i].author_id
                != 0 ==> ids.contains(log[i].author_id),
    ensures
        sum_by(log, conv, ids) == count(log, with_author(conv)),
    decreases log.len(),
{
    if log.len() == 0 {
        assert(log =~= Seq::<RecordView>::empty());
        lemma_sum_by_empty(conv, ids);
    } else {
        let rest = log.drop_last();
        let r = log.last();
        assert forall|i: int|
            0 <= i < rest.len() && (#[trigger] rest[i]).conversation_id == conv
                && rest[i].author_id != 0 implies ids.contains(rest[i].author_id) by {
            assert(rest[i] == log[i]);
        }
        lemma_sum_by_total(rest, conv, ids);
        lemma_sum_by_push(rest, r, conv, ids);
        assert(rest.push(r) =~= log);
        lemma_hits(ids, r.author_id);
        if r.conversation_id == conv {
            if r.author_id != 0 {
                assert(log[log.len() - 1] == r);
                assert(ids.contains(r.author_id));
            } else {
                if ids.contains(r.author_id) {
                    let a = choose|a: int| 0 <= a < ids.len() && ids[a] == r.author_id;
                    assert(ids[a] != 0);
                }
            }
        }
    }
}

/// In an empty log nobody has written.
proof fn lemma_sum_by_empty(conv: i64, ids: Seq<i64>)
    ensures
        sum_by(Seq::<RecordView>::empty(), conv, ids) == 0,
    decreases ids.len(),
{
    if ids.len() > 0 {
        lemma_sum_by_empty(conv, ids.drop_last());
    }
}

/// The messages of rows that state shares are the records of their authors.
proof fn lemma_sum_messages(log: Seq<RecordView>, conv: i64, rows: Seq<PercentView>)
    requires
        forall|k: int| 0 <= k < rows.len() ==> is_row(log, conv, #[trigger] rows[k]),
    ensures
        sum_messages(rows) == sum_by(log, conv, rows.map_values(|p: PercentView| p.user_id)),
    decreases rows.len(),
{
    let ids = rows.map_values(|p: PercentView| p.user_id);
    if rows.len() > 0 {
        let rest = rows.drop_last();
        assert forall|k: int| 0 <= k < rest.len() implies is_row(log, conv, #[trigger] rest[k]) by {
            assert(rest[k] == rows[k]);
        }
        lemma_sum_messages(log, conv, rest);
        assert(ids.drop_last() =~= rest.map_values(|p: PercentView| p.user_id));
        assert(is_row(log, conv, rows[rows.len() - 1]));
    }
}

/// The shares of a ranking add up to the whole, and fall from row to row: the
/// messages of all rows together are the records of the conversation whose
/// author is known, every row states that number as its total, no author has
/// two rows, and no row has more messages than the row before it.
pub proof fn lemma_ranking_total(log: Seq<RecordView>, conv: i64, rows: Seq<PercentView>)
    requires
        is_ranking(log, conv, rows),
    ensures
        sum_messages(rows) == count(log, with_author(conv)),
        forall|k: int| 0 <= k < rows.len() ==> (#[trigger] rows[k]).total == sum_messages(rows),
        forall|k1: int, k2: int|
            0 <= k1 < k2 < rows.len() ==> (#[trigger] rows[k1]).user_id != (
            #[trigger] rows[k2]).user_id,
        forall|k1: int, k2: int|
            0 <= k1 < k2 < rows.len() ==> (#[trigger] rows[k1]).messages >= (
            #[trigger] rows[k2]).messages,
        forall|k1: int, k2: int|
            0 <= k1 < k2 < rows.len() ==> share_hundredths(
                (#[trigger] rows[k1]).messages,
                rows[k1].total,
            ) >= share_hundredths((#[trigger] rows[k2]).messages, rows[k2].total),
{
    let ids = rows.map_values(|p: PercentView| p.user_id);
    assert forall|k1: int, k2: int| 0 <= k1 < k2 < rows.len() implies (#[trigger] rows[k1]).user_id
        != (#[trigger] rows[k2]).user_id by {
        assert(ranks_before(log, conv, rows[k1], rows[k2]));
        assert(is_row(log, conv, rows[k1]));
        assert(is_row(log, conv, rows[k2]));
    }
    assert forall|a: int| 0 <= a < ids.len() implies ids[a] != 0 by {
        assert(is_row(log, conv, rows[a]));
    }
    assert forall|i: int|
        0 <= i < log.len() && (#[trigger] log[i]).conversation_id == conv && log[i].author_id
            != 0 implies ids.contains(log[i].author_id) by {
        assert(has_row(rows, log[i].author_id));
        let k = choose|k: int| 0 <= k < rows.len() && (#[trigger] rows[k]).user_id == log[i].author_id;
        assert(ids[k] == log[i].author_id);
    }
    lemma_sum_messages(log, conv, rows);
    lemma_sum_by_total(log, conv, ids);
    assert forall|k: int| 0 <= k < rows.len() implies (#[trigger] rows[k]).total == sum_messages(
        rows,
    ) by {
        assert(is_row(log, conv, rows[k]));
    }
    assert forall|k1: int, k2: int| 0 <= k1 < k2 < rows.len() implies share_hundredths(
        (#[trigger] rows[k1]).messages,
        rows[k1].total,
    ) >= share_hundredths((#[trigger] rows[k2]).messages, rows[k2].total) by {
        assert(ranks_before(log, conv, rows[k1], rows[k2]));
        assert(is_row(log, conv, rows[k1]));
        assert(is_row(log, conv, rows[k2]));
        lemma_share_monotone(rows[k2].messages, rows[k1].messages, rows[k1].total);
    }
}

/// Something is counted only where a record satisfies `p`.
proof fn lemma_count_some(log: Seq<RecordView>, p: spec_fn(RecordView) -> bool)
    requires
        count(log, p) > 0,
    ensures
        exists|i: int| 0 <= i < log.len() && p(#[trigger] log[i]),
{
    if !exists|i: int| 0 <= i < log.len() && p(#[trigger] log[i]) {
        lemma_count_none(log, p);
    }
}

/// Each row states an author's share, and the rows stand in their order.
spec fn rows_sorted(log: Seq<RecordView>, conv: i64, rows: Seq<PercentView>) -> bool {
    &&& forall|k: int| 0 <= k < rows.len() ==> is_row(log, conv, #[trigger] rows[k])
    &&& forall|k1: int, k2: int|
        0 <= k1 < k2 < rows.len() ==> ranks_before(log, conv, #[trigger] rows[k1], #[trigger] rows[k2])
}

/// Every author of a row of `a` has a row in `b`.
spec fn authors_within(a: Seq<PercentView>, b: Seq<PercentView>) -> bool {
    forall|k: int| 0 <= k < a.len() ==> has_row(b, (#[trigger] a[k]).user_id)
}

/// An author has one row.
proof fn lemma_row_of_author(log: Seq<RecordView>, conv: i64, x: PercentView, y: PercentView)
    requires
        is_row(log, conv, x),
        is_row(log, conv, y),
        x.user_id == y.user_id,
    ensures
        x == y,
        !ranks_before(log, conv, x, y),
{
}

/// Rows in their order that have the same authors begin with the same row.
proof fn lemma_same_head(log: Seq<RecordView>, conv: i64, a: Seq<PercentView>, b: Seq<PercentView>)
    requires
        rows_sorted(log, conv, a),
        rows_sorted(log, conv, b),
        authors_within(a, b),
        authors_within(b, a),
        a.len() > 0,
    ensures
        b.len() > 0,
        a[0] == b[0],
{
    assert(has_row(b, a[0].user_id));
    let j = choose|j: int| 0 <= j < b.len() && (#[trigger] b[j]).user_id == a[0].user_id;
    assert(has_row(a, b[0].user_id));
    let i = choose|i: int| 0 <= i < a.len() && (#[trigger] a[i]).user_id == b[0].user_id;
    lemma_row_of_author(log, conv, a[0], b[j]);
    lemma_row_of_author(log, conv, b[0], a[i]);
    if j > 0 && i > 0 {
        assert(ranks_before(log, conv, b[0], b[j]));
        assert(ranks_before(log, conv, a[0], a[i]));
    }
}

/// Without their first rows, rows in their order that have the same authors
/// and the same first row still have the same authors.
proof fn lemma_tail_within(log: Seq<RecordView>, conv: i64, a: Seq<PercentView>, b: Seq<PercentView>)
    requires
        rows_sorted(log, conv, a),
        rows_sorted(log, conv, b),
        authors_within(a, b),
        a.len() > 0,
        b.len() > 0,
        a[0] == b[0],
    ensures
        authors_within(a.subrange(1, a.len() as int), b.subrange(1, b.len() as int)),
        rows_sorted(log, conv, a.subrange(1, a.len() as int)),
{
    let ta = a.subrange(1, a.len() as int);
    let tb = b.subrange(1, b.len() as int);
    assert forall|k: int| 0 <= k < ta.len() implies has_row(tb, (#[trigger] ta[k]).user_id) by {
        assert(ta[k] == a[k + 1]);
        assert(has_row(b, a[k + 1].user_id));
        let m = choose|m: int| 0 <= m < b.len() && (#[trigger] b[m]).user_id == a[k + 1].user_id;
        assert(ranks_before(log, conv, a[0], a[k + 1]));
        if m == 0 {
            lemma_row_of_author(log, conv, a[0], a[k + 1]);
        }
        assert(tb[m - 1] == b[m]);
    }
    assert forall|k: int| 0 <= k < ta.len() implies is_row(log, conv, #[trigger] ta[k]) by {
        assert(ta[k] == a[k + 1]);
    }
    assert forall|k1: int, k2: int| 0 <= k1 < k2 < ta.len() implies ranks_before(
        log,
        conv,
        #[trigger] ta[k1],
        #[trigger] ta[k2],
    ) by {
        assert(ta[k1] == a[k1 + 1] && ta[k2] == a[k2 + 1]);
    }
}

/// Rows in their order are determined by their authors.
proof fn lemma_sorted_rows_unique(
    log: Seq<RecordView>,
    conv: i64,
    a: Seq<PercentView>,
    b: Seq<PercentView>,
)
    requires
        rows_sorted(log, conv, a),
        rows_sorted(log, conv, b),
        authors_within(a, b),
        authors_within(b, a),
    ensures
        a == b,
    decreases a.len(),
{
    if a.len() == 0 {
        if b.len() > 0 {
            assert(has_row(a, b[0].user_id));
        }
        assert(a =~= b);
    } else {
        lemma_same_head(log, conv, a, b);
        lemma_tail_within(log, conv, a, b);
        lemma_tail_within(log, conv, b, a);
        let ta = a.subrange(1, a.len() as int);
        let tb = b.subrange(1, b.len() as int);
        lemma_sorted_rows_unique(log, conv, ta, tb);
        assert(a =~= seq![a[0]] + ta);
        assert(b =~= seq![b[0]] + tb);
    }
}

/// Every author of a row of one ranking has a row in another.
proof fn lemma_rankings_share_authors(
    log: Seq<RecordView>,
    conv: i64,
    a: Seq<PercentView>,
    b: Seq<PercentView>,
)
    requires
        is_ranking(log, conv, a),
        is_ranking(log, conv, b),
    ensures
        authors_within(a, b),
{
    assert forall|k: int| 0 <= k < a.len() implies has_row(b, (#[trigger] a[k]).user_id) by {
        assert(is_row(log, conv, a[k]));
        lemma_count_some(log, by_author(conv, a[k].user_id));
        let i = choose|i: int|
            0 <= i < log.len() && by_author(conv, a[k].user_id)(#[trigger] log[i]);
        assert(log[i].conversation_id == conv && log[i].author_id != 0);
    }
}

/// A conversation has one ranking.
pub proof fn lemma_ranking_unique(log: Seq<RecordView>, conv: i64, rows: Seq<PercentView>)
    requires
        is_ranking(log, conv, rows),
    ensures
        ranking(log, conv) == rows,
{
    let chosen = ranking(log, conv);
    assert(is_ranking(log, conv, chosen));
    lemma_rankings_share_authors(log, conv, rows, chosen);
    lemma_rankings_share_authors(log, conv, chosen, rows);
    lemma_sorted_rows_unique(log, conv, chosen, rows);
}

/// A greater part of the same whole is no smaller a share.
pub proof fn lemma_share_monotone(small: nat, large: nat, whole: nat)
    requires
        small <= large,
    ensures
        share_hundredths(small, whole) <= share_hundredths(large, whole),
{
    if whole > 0 && large < whole {
        let a = small * 10000;
        let b = large * 10000;
        assert(a <= b) by (nonlinear_arith)
            requires
                small <= large,
                a == small * 10000,
                b == large * 10000,
        ;
        lemma_round_monotone(a, b, whole);
    } else if whole > 0 && small < whole {
        let a = small * 10000;
        assert(a < whole * 10000) by (nonlinear_arith)
            requires
                small < whole,
                a == small * 10000,
        ;
        assert(a / whole < 10000) by (nonlinear_arith)
            requires
                a < whole * 10000,
                whole > 0,
        ;
    }
}

/// Rounding a quotient to the nearest whole number, to the even one of two
/// that are as near, keeps the order of the numerators.
proof fn lemma_round_monotone(a: nat, b: nat, d: nat)
    requires
        a <= b,
        d > 0,
    ensures
        ({
            let q = a / d;
            let r = a % d;
            if 2 * r > d || (2 * r == d && q % 2 == 1) {
                q + 1
            } else {
                q
            }
        }) <= ({
            let q = b / d;
            let r = b % d;
            if 2 * r > d || (2 * r == d && q % 2 == 1) {
                q + 1
            } else {
                q
            }
        }),
{
    let qa = a / d;
    let ra = a % d;
    let qb = b / d;
    let rb = b % d;
    assert(a == qa * d + ra && 0 <= ra < d) by (nonlinear_arith)
        requires
            qa == a / d,
            ra == a % d,
            d > 0,
    ;
    assert(b == qb * d + rb && 0 <= rb < d) by (nonlinear_arith)
        requires
            qb == b / d,
            rb == b % d,
            d > 0,
    ;
    assert(qa <= qb) by (nonlinear_arith)
        requires
            a <= b,
            a == qa * d + ra,
            b == qb * d + rb,
            0 <= ra < d,
            0 <= rb < d,
            d > 0,
    ;
    if qa == qb {
        assert(ra <= rb) by (nonlinear_arith)
            requires
                a <= b,
                a == qa * d + ra,
                b == qb * d + rb,
                qa == qb,
        ;
    }
}

/// An author's group while the log is read: where the author's first record
/// stands, the author's number, and the records counted so far.
#[derive(Clone, Copy)]
struct Group {
    first: usize,
    user_id: i64,
    messages: u64,
}

/// Group `a` stands before group `b`.
spec fn better(a: Group, b: Group) -> bool {
    a.messages > b.messages || (a.messages == b.messages && a.first < b.first)
}

/// The groups stand in their order.
spec fn sorted(groups: Seq<Group>) -> bool {
    forall|a: int, b: int|
        0 <= a < b < groups.len() ==> better(#[trigger] groups[a], #[trigger] groups[b])
}

/// The group is that of a known author of the conversation and counts the
/// author's records among the first `n`.
spec fn tallied(log: Seq<RecordView>, n: int, conv: i64, g: Group) -> bool {
    &&& g.user_id != 0
    &&& g.first < n
    &&& is_first_of(log, conv, g.user_id, g.first as int)
    &&& g.messages >= 1
    &&& g.messages == count(log.take(n), by_author(conv, g.user_id))
}

/// One of the groups is that of `author`.
spec fn has_group(groups: Seq<Group>, author: i64) -> bool {
    exists|k: int| 0 <= k < groups.len() && (#[trigger] groups[k]).user_id == author
}

/// The groups are the ranking of the first `n` records.
spec fn is_tally(log: Seq<RecordView>, n: int, conv: i64, groups: Seq<Group>) -> bool {
    &&& forall|k: int| 0 <= k < groups.len() ==> tallied(log, n, conv, #[trigger] groups[k])
    &&& forall|j: int|
        0 <= j < n && (#[trigger] log[j]).conversation_id == conv && log[j].author_id != 0
            ==> has_group(groups, log[j].author_id)
    &&& forall|a: int, b: int|
        0 <= a < b < groups.len() ==> (#[trigger] groups[a]).user_id != (
        #[trigger] groups[b]).user_id
    &&& sorted(groups)
}

/// Where the group with one record more than `old[k]` stands after it moved
/// up to `p`: the groups before `p` and after `k` keep their places, those
/// between move down by one.
spec fn promoted(old: Seq<Group>, k: int, p: int, now: Seq<Group>) -> bool {
    &&& 0 <= p <= k < old.len()
    &&& now.len() == old.len()
    &&& now[p] == Group { first: old[k].first, user_id: old[k].user_id, messages: (old[k].messages
        + 1) as u64 }
    &&& forall|j: int| 0 <= j < p ==> #[trigger] now[j] == old[j]
    &&& forall|j: int| p < j <= k ==> #[trigger] now[j] == old[j - 1]
    &&& forall|j: int| k < j < old.len() ==> #[trigger] now[j] == old[j]
}

/// Where the group at `j` stood before the move.
spec fn source(k: int, p: int, j: int) -> int {
    if j < p {
        j
    } else if j == p {
        k
    } else if j <= k {
        j - 1
    } else {
        j
    }
}

/// Where the group at `j` stands after the move.
spec fn target(k: int, p: int, j: int) -> int {
    if j < p {
        j
    } else if j == k {
        p
    } else if j < k {
        j + 1
    } else {
        j
    }
}

/// A record that does not count leaves the tally as it is.
proof fn lemma_tally_skip(log: Seq<RecordView>, n: int, conv: i64, groups: Seq<Group>)
    requires
        0 <= n < log.len(),
        is_tally(log, n, conv, groups),
        !(log[n].conversation_id == conv && log[n].author_id != 0),
    ensures
        is_tally(log, n + 1, conv, groups),
{
    assert forall|k: int| 0 <= k < groups.len() implies tallied(
        log,
        n + 1,
        conv,
        #[trigger] groups[k],
    ) by {
        assert(tallied(log, n, conv, groups[k]));
        lemma_count_take(log, n, by_author(conv, groups[k].user_id));
    }
}

/// The first record of an author makes a group that stands last.
proof fn lemma_tally_new(log: Seq<RecordView>, n: int, conv: i64, groups: Seq<Group>, g: Group)
    requires
        0 <= n < log.len(),
        is_tally(log, n, conv, groups),
        log[n].conversation_id == conv,
        log[n].author_id != 0,
        !has_group(groups, log[n].author_id),
        g == (Group { first: n as usize, user_id: log[n].author_id, messages: 1 }),
        n <= usize::MAX,
    ensures
        is_tally(log, n + 1, conv, groups.push(g)),
{
    let now = groups.push(g);
    let me = by_author(conv, g.user_id);
    assert forall|j: int| 0 <= j < n implies !((#[trigger] log[j]).conversation_id == conv
        && log[j].author_id == g.user_id) by {
        if log[j].conversation_id == conv && log[j].author_id == g.user_id {
            assert(has_group(groups, log[j].author_id));
        }
    }
    assert forall|j: int| 0 <= j < log.take(n).len() implies !me(#[trigger] log.take(n)[j]) by {
        assert(log.take(n)[j] == log[j]);
    }
    lemma_count_none(log.take(n), me);
    lemma_count_take(log, n, me);
    assert forall|k: int| 0 <= k < now.len() implies tallied(log, n + 1, conv, #[trigger] now[k]) by {
        if k < groups.len() {
            assert(now[k] == groups[k]);
            assert(tallied(log, n, conv, groups[k]));
            assert(groups[k].user_id != g.user_id);
            lemma_count_take(log, n, by_author(conv, groups[k].user_id));
        }
    }
    assert forall|j: int|
        0 <= j < n + 1 && (#[trigger] log[j]).conversation_id == conv && log[j].author_id
            != 0 implies has_group(now, log[j].author_id) by {
        if j == n {
            assert(now[groups.len() as int].user_id == log[j].author_id);
        } else {
            assert(has_group(groups, log[j].author_id));
            let a = choose|a: int|
                0 <= a < groups.len() && (#[trigger] groups[a]).user_id == log[j].author_id;
            assert(now[a].user_id == log[j].author_id);
        }
    }
    assert forall|a: int, b: int| 0 <= a < b < now.len() implies (#[trigger] now[a]).user_id != (
    #[trigger] now[b]).user_id by {
        assert(now[a] == groups[a]);
        if b < groups.len() {
            assert(now[b] == groups[b]);
        }
    }
    assert forall|a: int, b: int| 0 <= a < b < now.len() implies better(
        #[trigger] now[a],
        #[trigger] now[b],
    ) by {
        assert(now[a] == groups[a]);
        assert(tallied(log, n, conv, groups[a]));
        if b < groups.len() {
            assert(now[b] == groups[b]);
        }
    }
}

/// A further record of an author counts for the author's group, which moves
/// up to where it then belongs.
proof fn lemma_tally_promoted(
    log: Seq<RecordView>,
    n: int,
    conv: i64,
    groups: Seq<Group>,
    k: int,
    p: int,
    now: Seq<Group>,
)
    requires
        0 <= n < log.len(),
        is_tally(log, n, conv, groups),
        log[n].conversation_id == conv,
        log[n].author_id != 0,
        0 <= k < groups.len(),
        groups[k].user_id == log[n].author_id,
        groups[k].messages < u64::MAX,
        promoted(groups, k, p, now),
        sorted(now),
    ensures
        is_tally(log, n + 1, conv, now),
{
    assert forall|j: int| 0 <= j < now.len() implies {
        &&& (#[trigger] now[j]).user_id == groups[source(k, p, j)].user_id
        &&& 0 <= source(k, p, j) < groups.len()
        &&& j != p ==> now[j] == groups[source(k, p, j)] && source(k, p, j) != k
    } by {}
    assert forall|j: int| 0 <= j < now.len() implies tallied(log, n + 1, conv, #[trigger] now[j]) by {
        let sj = source(k, p, j);
        assert(tallied(log, n, conv, groups[sj]));
        lemma_count_take(log, n, by_author(conv, groups[sj].user_id));
        if j != p {
            if sj < k {
                assert(groups[sj].user_id != groups[k].user_id);
            } else {
                assert(groups[k].user_id != groups[sj].user_id);
            }
        }
    }
    assert forall|j: int|
        0 <= j < n + 1 && (#[trigger] log[j]).conversation_id == conv && log[j].author_id
            != 0 implies has_group(now, log[j].author_id) by {
        let was = if j == n {
            k
        } else {
            assert(has_group(groups, log[j].author_id));
            choose|a: int| 0 <= a < groups.len() && (#[trigger] groups[a]).user_id == log[j].author_id
        };
        let a = target(k, p, was);
        assert(source(k, p, a) == was);
        assert(now[a].user_id == groups[was].user_id);
    }
    assert forall|a: int, b: int| 0 <= a < b < now.len() implies (#[trigger] now[a]).user_id != (
    #[trigger] now[b]).user_id by {
        let sa = source(k, p, a);
        let sb = source(k, p, b);
        if sa < sb {
            assert(groups[sa].user_id != groups[sb].user_id);
        } else {
            assert(groups[sb].user_id != groups[sa].user_id);
        }
    }
}

/// The groups of a tally are made by different records.
proof fn lemma_tally_firsts(log: Seq<RecordView>, n: int, conv: i64, groups: Seq<Group>)
    requires
        is_tally(log, n, conv, groups),
    ensures
        forall|a: int, b: int|
            0 <= a < b < groups.len() ==> (#[trigger] groups[a]).first != (
            #[trigger] groups[b]).first,
{
    assert forall|a: int, b: int| 0 <= a < b < groups.len() implies (#[trigger] groups[a]).first != (
    #[trigger] groups[b]).first by {
        assert(tallied(log, n, conv, groups[a]));
        assert(tallied(log, n, conv, groups[b]));
    }
}

/// The position of the author's group.
fn find_group(groups: &Vec<Group>, user_id: i64) -> (r: Option<usize>)
    ensures
        match r {
            Some(k) => k < groups@.len() && groups@[k as int].user_id == user_id,
            None => !has_group(groups@, user_id),
        },
{
    let mut k: usize = 0;
    while k < groups.len()
        invariant
            k <= groups@.len(),
            forall|j: int| 0 <= j < k ==> (#[trigger] groups@[j]).user_id != user_id,
        decreases groups.len() - k,
    {
        if groups[k].user_id == user_id {
            return Some(k);
        }
        k += 1;
    }
    None
}

/// Counts one record more for the group at `k` and moves the group up to
/// where it now belongs.
fn promote(groups: &mut Vec<Group>, k: usize) -> (p: usize)
    requires
        k < old(groups)@.len(),
        old(groups)@[k as int].messages < u64::MAX,
        sorted(old(groups)@),
        forall|a: int, b: int|
            0 <= a < b < old(groups)@.len() ==> (#[trigger] old(groups)@[a]).first != (
            #[trigger] old(groups)@[b]).first,
    ensures
        promoted(old(groups)@, k as int, p as int, final(groups)@),
        sorted(final(groups)@),
{
    let ghost before = groups@;
    let g = groups[k];
    let up = Group { first: g.first, user_id: g.user_id, messages: g.messages + 1 };
    let mut p: usize = k;
    groups.set(p, up);
    while p > 0 && (up.messages > groups[p - 1].messages || (up.messages == groups[p - 1].messages
        && up.first < groups[p - 1].first))
        invariant
            promoted(before, k as int, p as int, groups@),
            up == groups@[p as int],
            forall|j: int| p < j <= k ==> better(up, #[trigger] groups@[j]),
        decreases p,
    {
        let prev = groups[p - 1];
        groups.set(p, prev);
        groups.set(p - 1, up);
        p -= 1;
    }
    proof {
        let now = groups@;
        assert forall|a: int, b: int| 0 <= a < b < now.len() implies better(
            #[trigger] now[a],
            #[trigger] now[b],
        ) by {
            let sa = source(k as int, p as int, a);
            let sb = source(k as int, p as int, b);
            if a == p as int {
                if b > k {
                    assert(better(before[k as int], before[b]));
                }
            } else if b == p as int {
                assert(!better(up, now[p - 1]));
                assert(now[p - 1] == before[p - 1]);
                assert(before[p - 1].first != before[k as int].first);
                if a < p - 1 {
                    assert(better(before[a], before[p - 1]));
                }
            } else {
                assert(now[a] == before[sa]);
                assert(now[b] == before[sb]);
                assert(better(before[sa], before[sb]));
            }
        }
    }
    p
}

/// `part` of `whole` in hundredths of a percent.
pub fn share(part: u64, whole: u64) -> (h: u64)
    ensures
        h == share_hundredths(part as nat, whole as nat),
        h <= 10000,
{
    if whole == 0 {
        0
    } else if part >= whole {
        10000
    } else {
        let scaled: u128 = (part as u128) * 10000;
        let q: u128 = scaled / (whole as u128);
        let r: u128 = scaled % (whole as u128);
        assert(q < 10000) by (nonlinear_arith)
            requires
                scaled == part * 10000,
                part < whole,
                q == scaled / (whole as u128),
                whole > 0,
        ;
        if 2 * r > whole as u128 || (2 * r == whole as u128 && q % 2 == 1) {
            (q + 1) as u64
        } else {
            q as u64
        }
    }
}

/// Appends a name and a share as text.
pub fn push_share(out: &mut String, name: &str, part: u64, whole: u64)
    ensures
        final(out)@ == old(out)@ + share_text(name@, part as nat, whole as nat),
{
    out.append(name);
    out.push(' ');
    push_two_places(out, share(part, whole));
    out.push('%');
    assert(out@ =~= old(out)@ + share_text(name@, part as nat, whole as nat));
}

/// The rows as text: a line for each, the first three with their medals, and
/// the closing tag.
pub fn render_ranking(rows: &Vec<UserPercent>) -> (s: String)
    ensures
        s@ == ranking_text(percents(rows@)),
{
    let mut s = String::new();
    let mut i: usize = 0;
    while i < rows.len()
        invariant
            i <= rows@.len(),
            s@ == ranking_lines(percents(rows@).take(i as int)),
        decreases rows.len() - i,
    {
        let ghost all = percents(rows@);
        let ghost done = s@;
        assert(all.take(i + 1).drop_last() =~= all.take(i as int));
        assert(all.take(i + 1).last() == rows@[i as int]@);
        if i == 0 {
            s.push('🥇');
            s.push(' ');
        } else if i == 1 {
            s.push('🥈');
            s.push(' ');
        } else if i == 2 {
            s.push('🥉');
            s.push(' ');
        }
        assert(s@ =~= done + medal(i as int));
        let row = &rows[i];
        push_share(&mut s, row.user.as_str(), row.messages, row.total);
        s.push('\n');
        assert(s@ =~= done + ranking_line(i as int, row@));
        i += 1;
    }
    assert(percents(rows@).take(rows@.len() as int) =~= percents(rows@));
    s.append(STATS_TAG);
    s
}

impl Chat {
    /// The groups of the conversation in their order, and the number of its
    /// records whose author is known.
    fn tally(&self, chat_id: i64) -> (out: (Vec<Group>, u64))
        ensures
            is_tally(self@, self@.len() as int, chat_id, out.0@),
            out.1 == count(self@, with_author(chat_id)),
    {
        self.well_formedness();
        let rows = self.rows();
        let ghost log = self@;
        let mut groups: Vec<Group> = Vec::new();
        let mut total: u64 = 0;
        let mut i: usize = 0;
        while i < rows.len()
            invariant
                i <= rows@.len(),
                views(rows@) == log,
                log.len() <= crate::db::MAX_RECORDS,
                is_tally(log, i as int, chat_id, groups@),
                total == count(log.take(i as int), with_author(chat_id)),
            decreases rows.len() - i,
        {
            let r = &rows[i];
            let ghost before = groups@;
            proof {
                assert(log[i as int] == r@);
                lemma_count_take(log, i as int, with_author(chat_id));
                lemma_count_bound(log.take(i as int), with_author(chat_id));
            }
            if r.conversation_id == chat_id && r.author_id != 0 {
                total += 1;
                match find_group(&groups, r.author_id) {
                    Some(k) => {
                        proof {
                            assert(tallied(log, i as int, chat_id, before[k as int]));
                            lemma_count_bound(log.take(i as int), by_author(chat_id, r.author_id));
                            lemma_tally_firsts(log, i as int, chat_id, before);
                        }
                        let p = promote(&mut groups, k);
                        proof {
                            lemma_tally_promoted(
                                log,
                                i as int,
                                chat_id,
                                before,
                                k as int,
                                p as int,
                                groups@,
                            );
                        }
                    },
                    None => {
                        let g = Group { first: i, user_id: r.author_id, messages: 1 };
                        groups.push(g);
                        proof {
                            lemma_tally_new(log, i as int, chat_id, before, g);
                        }
                    },
                }
            } else {
                proof {
                    lemma_tally_skip(log, i as int, chat_id, before);
                }
            }
            i += 1;
        }
        assert(log.take(i as int) =~= log);
        (groups, total)
    }

    /// The ranking of conversation `chat_id`.
    pub fn get_group_percent(&self, chat_id: i64) -> (rows: Vec<UserPercent>)
        ensures
            percents(rows@) == ranking(self@, chat_id),
            is_ranking(self@, chat_id, ranking(self@, chat_id)),
    {
        let (groups, total) = self.tally(chat_id);
        let records = self.rows();
        let ghost log = self@;
        let mut rows: Vec<UserPercent> = Vec::new();
        let mut k: usize = 0;
        while k < groups.len()
            invariant
                k <= groups@.len(),
                views(records@) == log,
                is_tally(log, log.len() as int, chat_id, groups@),
                total == count(log, with_author(chat_id)),
                rows@.len() == k,
                forall|j: int|
                    0 <= j < k ==> {
                        &&& is_row(log, chat_id, (#[trigger] rows@[j])@)
                        &&& rows@[j].user_id == groups@[j].user_id
                        &&& rows@[j].messages == groups@[j].messages
                        &&& first_of(log, chat_id, rows@[j].user_id) == groups@[j].first
                    },
            decreases groups.len() - k,
        {
            let g = groups[k];
            proof {
                assert(tallied(log, log.len() as int, chat_id, groups@[k as int]));
                assert(log.take(log.len() as int) =~= log);
                lemma_first_unique(log, chat_id, g.user_id, g.first as int);
                assert(log[g.first as int] == records@[g.first as int]@);
            }
            rows.push(
                UserPercent {
                    user: records[g.first].author_display_name.clone(),
                    user_id: g.user_id,
                    messages: g.messages,
                    total,
                },
            );
            k += 1;
        }
        proof {
            let shown = percents(rows@);
            assert forall|j: int| 0 <= j < shown.len() implies is_row(
                log,
                chat_id,
                #[trigger] shown[j],
            ) by {
                assert(shown[j] == rows@[j]@);
            }
            assert forall|i: int|
                0 <= i < log.len() && (#[trigger] log[i]).conversation_id == chat_id
                    && log[i].author_id != 0 implies has_row(shown, log[i].author_id) by {
                assert(has_group(groups@, log[i].author_id));
                let j = choose|j: int|
                    0 <= j < groups@.len() && (#[trigger] groups@[j]).user_id == log[i].author_id;
                assert(shown[j] == rows@[j]@);
            }
            assert forall|a: int, b: int| 0 <= a < b < shown.len() implies ranks_before(
                log,
                chat_id,
                #[trigger] shown[a],
                #[trigger] shown[b],
            ) by {
                assert(shown[a] == rows@[a]@);
                assert(shown[b] == rows@[b]@);
                assert(better(groups@[a], groups@[b]));
            }
            lemma_ranking_unique(log, chat_id, shown);
        }
        rows
    }

    /// The ranking of conversation `chat_id` as text.
    pub fn get_group_percent_str(&self, chat_id: i64) -> (s: String)
        ensures
            s@ == ranking_text(ranking(self@, chat_id)),
            is_ranking(self@, chat_id, ranking(self@, chat_id)),
    {
        let rows = self.get_group_percent(chat_id);
        render_ranking(&rows)
    }

    /// The share of the authors named `username` in conversation `chat_id`,
    /// as text: the share of nobody is 0.
    pub fn get_user_percent_str(&self, chat_id: i64, username: &str) -> (s: String)
        ensures
            s@ == share_text(
                username@,
                count(self@, by_name(chat_id, username@)),
                count(self@, with_author(chat_id)),
            ),
    {
        self.well_formedness();
        let rows = self.rows();
        let ghost log = self@;
        let name = username.to_string();
        let mut part: u64 = 0;
        let mut whole: u64 = 0;
        let mut i: usize = 0;
        while i < rows.len()
            invariant
                i <= rows@.len(),
                views(rows@) == log,
                log.len() <= crate::db::MAX_RECORDS,
                name@ == username@,
                part == count(log.take(i as int), by_name(chat_id, username@)),
                whole == count(log.take(i as int), with_author(chat_id)),
            decreases rows.len() - i,
        {
            let r = &rows[i];
            proof {
                assert(log[i as int] == r@);
                lemma_count_take(log, i as int, with_author(chat_id));
                lemma_count_take(log, i as int, by_name(chat_id, username@));
                lemma_count_bound(log.take(i as int), with_author(chat_id));
                lemma_count_bound(log.take(i as int), by_name(chat_id, username@));
            }
            if r.conversation_id == chat_id && r.author_id != 0 {
                whole += 1;
                if r.author_display_name == name {
                    part += 1;
                }
            }
            i += 1;
        }
        assert(log.take(i as int) =~= log);
        let mut s = String::new();
        push_share(&mut s, username, part, whole);
        s
    }
}

} // verus!
