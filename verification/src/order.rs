//! Tables of records: rows that carry a key and a creation stamp, kept
//! newest first and free of repeated keys.

use crate::text::{
    lemma_sorts_before_asymmetric, lemma_sorts_before_splits, lemma_sorts_before_total,
    sorts_before,
};
use vstd::prelude::*;

verus! {

/// What a table needs to know of a row: the key under which it is found
/// and the stamp by which it is listed.
pub trait Record {
    /// The key of the row, its identifier.
    spec fn key(&self) -> Seq<char>;

    /// The creation stamp of the row, the sole sort key of a listing.
    spec fn stamp(&self) -> Seq<char>;
}

/// Some row of `rows` has the key `key`.
pub open spec fn holds_key<R: Record>(rows: Seq<R>, key: Seq<char>) -> bool {
    exists|i: int| 0 <= i < rows.len() && (#[trigger] rows[i]).key() == key
}

/// No two rows of `rows` share a key.
pub open spec fn distinct_keys<R: Record>(rows: Seq<R>) -> bool {
    forall|i: int, j: int|
        0 <= i < j < rows.len() ==> (#[trigger] rows[i]).key() != (#[trigger] rows[j]).key()
}

/// No row of `rows` stands before a row with a later stamp.
pub open spec fn newest_first<R: Record>(rows: Seq<R>) -> bool {
    forall|i: int, j: int|
        0 <= i < j < rows.len() ==> !sorts_before(
            (#[trigger] rows[i]).stamp(),
            (#[trigger] rows[j]).stamp(),
        )
}

/// The invariant of a table: distinct keys, listed newest first.
pub open spec fn well_kept<R: Record>(rows: Seq<R>) -> bool {
    distinct_keys(rows) && newest_first(rows)
}

/// The number of rows at the head of `rows` whose stamp is strictly later
/// than `stamp`. In a table kept newest first this is the place of a new
/// row with that stamp: behind every later row, ahead of every row of the
/// same or an earlier stamp.
pub open spec fn slot_for<R: Record>(rows: Seq<R>, stamp: Seq<char>) -> int
    decreases rows.len(),
{
    if rows.len() == 0 || !sorts_before(stamp, rows[0].stamp()) {
        0
    } else {
        1 + slot_for(rows.drop_first(), stamp)
    }
}

/// `rows` with `row` filed at the place its stamp gives it.
pub open spec fn filed<R: Record>(rows: Seq<R>, row: R) -> Seq<R> {
    rows.insert(slot_for(rows, row.stamp()), row)
}

/// The row of `rows` with the key `key`, if there is one.
pub open spec fn row_with_key<R: Record>(rows: Seq<R>, key: Seq<char>) -> Option<R> {
    if holds_key(rows, key) {
        Some(rows[choose|i: int| 0 <= i < rows.len() && (#[trigger] rows[i]).key() == key])
    } else {
        None
    }
}

/// The slot of a stamp lies within the table, every row ahead of it is
/// strictly later than the stamp, and the row at it, if any, is not.
pub proof fn lemma_slot_for<R: Record>(rows: Seq<R>, stamp: Seq<char>)
    ensures
        0 <= slot_for(rows, stamp) <= rows.len(),
        forall|i: int|
            0 <= i < slot_for(rows, stamp) ==> sorts_before(stamp, (#[trigger] rows[i]).stamp()),
        slot_for(rows, stamp) < rows.len() ==> !sorts_before(
            stamp,
            rows[slot_for(rows, stamp)].stamp(),
        ),
    decreases rows.len(),
{
    if rows.len() > 0 && sorts_before(stamp, rows[0].stamp()) {
        let rest = rows.drop_first();
        lemma_slot_for(rest, stamp);
        assert forall|i: int| 0 <= i < slot_for(rows, stamp) implies sorts_before(
            stamp,
            (#[trigger] rows[i]).stamp(),
        ) by {
            if i > 0 {
                assert(rows[i] == rest[i - 1]);
            }
        }
        if slot_for(rows, stamp) < rows.len() {
            assert(rows[slot_for(rows, stamp)] == rest[slot_for(rest, stamp)]);
        }
    }
}

/// The slot of a stamp is the one place with only strictly later rows
/// ahead of it and a row that is not strictly later, or none, at it.
pub proof fn lemma_slot_unique<R: Record>(rows: Seq<R>, stamp: Seq<char>, k: int)
    requires
        0 <= k <= rows.len(),
        forall|i: int| 0 <= i < k ==> sorts_before(stamp, (#[trigger] rows[i]).stamp()),
        k < rows.len() ==> !sorts_before(stamp, rows[k].stamp()),
    ensures
        slot_for(rows, stamp) == k,
    decreases rows.len(),
{
    if k > 0 {
        let rest = rows.drop_first();
        assert(sorts_before(stamp, rows[0].stamp()));
        assert forall|i: int| 0 <= i < k - 1 implies sorts_before(
            stamp,
            (#[trigger] rest[i]).stamp(),
        ) by {
            assert(rest[i] == rows[i + 1]);
        }
        if k < rows.len() {
            assert(rest[k - 1] == rows[k]);
        }
        lemma_slot_unique(rest, stamp, k - 1);
    }
}

/// Filing a row under a key that the table does not hold keeps the table
/// well kept, and adds that key and no other.
pub proof fn lemma_filed_well_kept<R: Record>(rows: Seq<R>, row: R)
    requires
        well_kept(rows),
        !holds_key(rows, row.key()),
    ensures
        well_kept(filed(rows, row)),
        forall|key: Seq<char>|
            holds_key(filed(rows, row), key) <==> (key == row.key() || holds_key(rows, key)),
{
    let k = slot_for(rows, row.stamp());
    let out = filed(rows, row);
    lemma_slot_for(rows, row.stamp());
    assert forall|i: int, j: int| 0 <= i < j < out.len() implies (#[trigger] out[i]).key() != (
    #[trigger] out[j]).key() && !sorts_before(out[i].stamp(), out[j].stamp()) by {
        if j < k {
            assert(out[i] == rows[i] && out[j] == rows[j]);
        } else if j == k {
            assert(out[i] == rows[i]);
            lemma_sorts_before_asymmetric(row.stamp(), rows[i].stamp());
        } else if i < k {
            assert(out[i] == rows[i] && out[j] == rows[j - 1]);
        } else if i == k {
            assert(out[j] == rows[j - 1]);
            if k < j - 1 && sorts_before(row.stamp(), rows[j - 1].stamp()) {
                lemma_sorts_before_splits(row.stamp(), rows[k].stamp(), rows[j - 1].stamp());
            }
        } else {
            assert(out[i] == rows[i - 1] && out[j] == rows[j - 1]);
        }
    }
    assert forall|key: Seq<char>| holds_key(out, key) <==> (key == row.key() || holds_key(
        rows,
        key,
    )) by {
        if holds_key(out, key) {
            let i = choose|i: int| 0 <= i < out.len() && (#[trigger] out[i]).key() == key;
            if i < k {
                assert(out[i] == rows[i]);
            } else if i > k {
                assert(out[i] == rows[i - 1]);
            }
        }
        if key == row.key() {
            assert(out[k].key() == key);
        }
        if holds_key(rows, key) {
            let i = choose|i: int| 0 <= i < rows.len() && (#[trigger] rows[i]).key() == key;
            if i < k {
                assert(out[i] == rows[i]);
            } else {
                assert(out[i + 1] == rows[i]);
            }
        }
    }
}

/// In a table of distinct keys the row with a key is the one row that
/// carries it.
pub proof fn lemma_row_with_key<R: Record>(rows: Seq<R>, i: int)
    requires
        distinct_keys(rows),
        0 <= i < rows.len(),
    ensures
        row_with_key(rows, rows[i].key()) == Some(rows[i]),
{
    let key = rows[i].key();
    assert(holds_key(rows, key));
    let j = choose|j: int| 0 <= j < rows.len() && (#[trigger] rows[j]).key() == key;
    assert(j == i);
}

/// Dropping rows from a well-kept table leaves it well kept: a selection
/// of its rows holds no key that the table did not hold.
pub proof fn lemma_filter_well_kept<R: Record>(rows: Seq<R>, keep: spec_fn(R) -> bool)
    requires
        well_kept(rows),
    ensures
        well_kept(rows.filter(keep)),
        forall|key: Seq<char>| holds_key(rows.filter(keep), key) ==> holds_key(rows, key),
    decreases rows.len(),
{
    reveal(Seq::filter);
    let out = rows.filter(keep);
    if rows.len() > 0 {
        let front = rows.drop_last();
        let sub = front.filter(keep);
        assert forall|i: int, j: int| 0 <= i < j < front.len() implies (#[trigger] front[i]).key()
            != (#[trigger] front[j]).key() && !sorts_before(front[i].stamp(), front[j].stamp()) by {
            assert(front[i] == rows[i] && front[j] == rows[j]);
        }
        lemma_filter_well_kept(front, keep);
        assert forall|i: int| 0 <= i < sub.len() implies (#[trigger] sub[i]).key()
            != rows.last().key() && !sorts_before(sub[i].stamp(), rows.last().stamp()) by {
            assert(sub.contains(sub[i]));
            front.lemma_filter_contains_rev(keep, sub[i]);
            let m = choose|m: int| 0 <= m < front.len() && front[m] == sub[i];
            assert(front[m] == rows[m]);
            assert(rows.last() == rows[rows.len() - 1]);
        }
        assert forall|key: Seq<char>| holds_key(out, key) implies holds_key(rows, key) by {
            let i = choose|i: int| 0 <= i < out.len() && (#[trigger] out[i]).key() == key;
            if i < sub.len() {
                assert(sub[i].key() == key);
                assert(holds_key(front, key));
                let m = choose|m: int| 0 <= m < front.len() && (#[trigger] front[m]).key() == key;
                assert(rows[m].key() == key);
            } else {
                assert(rows[rows.len() - 1].key() == key);
            }
        }
    }
}

/// In a table kept newest first, of two rows the one listed first has the
/// later stamp, or the two stamps are the same.
pub proof fn law_listed_first_is_not_older<R: Record>(rows: Seq<R>, i: int, j: int)
    requires
        newest_first(rows),
        0 <= i < j < rows.len(),
    ensures
        sorts_before(rows[j].stamp(), rows[i].stamp()) || rows[i].stamp() == rows[j].stamp(),
{
    if !sorts_before(rows[j].stamp(), rows[i].stamp()) {
        lemma_sorts_before_total(rows[i].stamp(), rows[j].stamp());
    }
}

/// A row whose stamp is not earlier than any in the table is filed at
/// its head: it is listed first, and the others follow as they stood.
pub proof fn law_latest_is_filed_first<R: Record>(rows: Seq<R>, row: R)
    requires
        forall|i: int| 0 <= i < rows.len() ==> !sorts_before(
            row.stamp(),
            (#[trigger] rows[i]).stamp(),
        ),
    ensures
        slot_for(rows, row.stamp()) == 0,
        filed(rows, row) == seq![row] + rows,
{
    assert(filed(rows, row) =~= seq![row] + rows);
}

/// Selecting from a table after a row is filed is filing the row among
/// what was selected before, if the selection admits the row; if not,
/// the selection is what it was.
pub proof fn law_filed_then_selected<R: Record>(rows: Seq<R>, row: R, keep: spec_fn(R) -> bool)
    requires
        newest_first(rows),
    ensures
        filed(rows, row).filter(keep) == if keep(row) {
            filed(rows.filter(keep), row)
        } else {
            rows.filter(keep)
        },
{
    let stamp = row.stamp();
    let k = slot_for(rows, stamp);
    lemma_slot_for(rows, stamp);
    let head = rows.take(k);
    let tail = rows.skip(k);
    let chosen = rows.filter(keep);
    assert(rows =~= head + tail);
    assert(filed(rows, row) =~= head.push(row) + tail);
    Seq::filter_distributes_over_add(head, tail, keep);
    Seq::filter_distributes_over_add(head.push(row), tail, keep);
    head.lemma_filter_push(row, keep);
    if keep(row) {
        let m = head.filter(keep).len() as int;
        assert forall|i: int| 0 <= i < m implies sorts_before(
            stamp,
            (#[trigger] chosen[i]).stamp(),
        ) by {
            let picked = head.filter(keep)[i];
            assert(chosen[i] == picked);
            assert(head.filter(keep).contains(picked));
            head.lemma_filter_contains_rev(keep, picked);
            let j = choose|j: int| 0 <= j < head.len() && head[j] == picked;
            assert(rows[j] == picked);
        }
        if m < chosen.len() {
            let picked = tail.filter(keep)[0];
            assert(chosen[m] == picked);
            assert(tail.filter(keep).contains(picked));
            tail.lemma_filter_contains_rev(keep, picked);
            let j = choose|j: int| 0 <= j < tail.len() && tail[j] == picked;
            assert(rows[k + j] == picked);
            if j > 0 && sorts_before(stamp, picked.stamp()) {
                lemma_sorts_before_splits(stamp, rows[k].stamp(), rows[k + j].stamp());
            }
        }
        lemma_slot_unique(chosen, stamp, m);
        assert(filed(chosen, row) =~= head.filter(keep).push(row) + tail.filter(keep));
    }
}

} // verus!
