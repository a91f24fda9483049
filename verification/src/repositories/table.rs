//! What the two tables have in common: rows found by their id, and rows put
//! in the order of their creation times.

use crate::clock::Timestamp;
use crate::models::{AcceptanceCriteria, UserStory};
use vstd::prelude::*;
use vstd::string::*;

verus! {

/// A row of a table: it has an id, by which it is found, and a creation time,
/// by which it is ordered.
pub trait Record: Sized {
    spec fn key(&self) -> Seq<char>;

    spec fn created(&self) -> Timestamp;

    fn id_text(&self) -> (r: &String)
        ensures
            r@ == self.key(),
    ;

    fn created_time(&self) -> (t: Timestamp)
        ensures
            t == self.created(),
    ;

    fn duplicate(&self) -> (r: Self)
        ensures
            r == *self,
    ;
}

impl Record for UserStory {
    open spec fn key(&self) -> Seq<char> {
        self.id@
    }

    open spec fn created(&self) -> Timestamp {
        self.created_at
    }

    fn id_text(&self) -> (r: &String) {
        &self.id
    }

    fn created_time(&self) -> (t: Timestamp) {
        self.created_at
    }

    fn duplicate(&self) -> (r: Self) {
        self.clone()
    }
}

impl Record for AcceptanceCriteria {
    open spec fn key(&self) -> Seq<char> {
        self.id@
    }

    open spec fn created(&self) -> Timestamp {
        self.created_at
    }

    fn id_text(&self) -> (r: &String) {
        &self.id
    }

    fn created_time(&self) -> (t: Timestamp) {
        self.created_at
    }

    fn duplicate(&self) -> (r: Self) {
        self.clone()
    }
}

/// No two rows have the same id.
pub open spec fn ids_distinct<R: Record>(rows: Seq<R>) -> bool {
    forall|i: int, j: int|
        0 <= i < rows.len() && 0 <= j < rows.len() && i != j ==> #[trigger] rows[i].key()
            != #[trigger] rows[j].key()
}

/// Some row has the id `id`.
pub open spec fn has_id<R: Record>(rows: Seq<R>, id: Seq<char>) -> bool {
    exists|i: int| 0 <= i < rows.len() && #[trigger] rows[i].key() == id
}

/// The place of the first row with the id `id`; the number of rows if there is none.
pub open spec fn place_of<R: Record>(rows: Seq<R>, id: Seq<char>) -> int
    decreases rows.len(),
{
    if rows.len() == 0 {
        0
    } else if rows[0].key() == id {
        0
    } else {
        1 + place_of(rows.drop_first(), id)
    }
}

/// The row with the id `id`, if there is one.
pub open spec fn row_with_id<R: Record>(rows: Seq<R>, id: Seq<char>) -> Option<R> {
    if has_id(rows, id) {
        Some(rows[place_of(rows, id)])
    } else {
        None
    }
}

/// `place_of` gives a place in the table exactly when the id is there, and
/// then that of a row with the id, which no earlier row has.
pub proof fn lemma_place_of<R: Record>(rows: Seq<R>, id: Seq<char>)
    ensures
        0 <= place_of(rows, id) <= rows.len(),
        has_id(rows, id) <==> place_of(rows, id) < rows.len(),
        place_of(rows, id) < rows.len() ==> rows[place_of(rows, id)].key() == id,
        forall|k: int| 0 <= k < place_of(rows, id) ==> (#[trigger] rows[k]).key() != id,
    decreases rows.len(),
{
    if rows.len() == 0 {
    } else if rows[0].key() == id {
    } else {
        let rest = rows.drop_first();
        lemma_place_of(rest, id);
        let p = place_of(rest, id);
        if has_id(rows, id) {
            let i = choose|i: int| 0 <= i < rows.len() && #[trigger] rows[i].key() == id;
            assert(rest[i - 1].key() == id);
        }
        if p < rest.len() {
            assert(rows[p + 1].key() == id);
        }
        assert forall|k: int| 0 <= k < 1 + p implies (#[trigger] rows[k]).key() != id by {
            if k > 0 {
                assert(rest[k - 1].key() != id);
            }
        }
    }
}

/// Where ids are distinct, the row at a place is the row with its id.
pub proof fn lemma_place_of_row<R: Record>(rows: Seq<R>, i: int)
    requires
        ids_distinct(rows),
        0 <= i < rows.len(),
    ensures
        place_of(rows, rows[i].key()) == i,
        row_with_id(rows, rows[i].key()) == Some(rows[i]),
{
    lemma_place_of(rows, rows[i].key());
    let p = place_of(rows, rows[i].key());
    if p > i {
        assert(rows[i].key() != rows[i].key());
    }
}

/// The place of the row with the id `id`, if there is one.
pub fn find_place<R: Record>(rows: &Vec<R>, id: &str) -> (r: Option<usize>)
    ensures
        match r {
            Some(i) => {
                &&& has_id(rows@, id@)
                &&& i == place_of(rows@, id@)
                &&& i < rows@.len()
                &&& rows@[i as int].key() == id@
            },
            None => !has_id(rows@, id@),
        },
{
    proof {
        lemma_place_of(rows@, id@);
    }
    let wanted = String::from_str(id);
    let mut i: usize = 0;
    while i < rows.len()
        invariant
            i <= rows.len(),
            wanted@ == id@,
            0 <= place_of(rows@, id@) <= rows@.len(),
            forall|k: int| 0 <= k < i ==> (#[trigger] rows@[k]).key() != id@,
            forall|k: int| 0 <= k < place_of(rows@, id@) ==> (#[trigger] rows@[k]).key() != id@,
            place_of(rows@, id@) < rows@.len() ==> rows@[place_of(rows@, id@)].key() == id@,
            has_id(rows@, id@) <==> place_of(rows@, id@) < rows@.len(),
        decreases rows.len() - i,
    {
        if *rows[i].id_text() == wanted {
            assert(rows@[i as int].key() == id@);
            assert(has_id(rows@, id@));
            assert(place_of(rows@, id@) == i) by {
                let p = place_of(rows@, id@);
                if p < i {
                    assert(rows@[p].key() != id@);
                }
                if p > i {
                    assert(rows@[i as int].key() != id@);
                }
            }
            return Some(i);
        }
        i = i + 1;
    }
    assert(!has_id(rows@, id@)) by {
        if has_id(rows@, id@) {
            assert(rows@[place_of(rows@, id@)].key() != id@);
        }
    }
    None
}

/// Whether a row created at `a` is listed before one created at `b` for the
/// difference of their creation times alone: in a list that has the newest
/// first when `a` is the later time, in one that has the oldest first when it
/// is the earlier.
pub open spec fn comes_before(a: Timestamp, b: Timestamp, newest_first: bool) -> bool {
    if newest_first {
        a.rank() > b.rank()
    } else {
        a.rank() < b.rank()
    }
}

pub fn listed_before(a: Timestamp, b: Timestamp, newest_first: bool) -> (r: bool)
    ensures
        r == comes_before(a, b, newest_first),
{
    if newest_first {
        b.is_before(&a)
    } else {
        a.is_before(&b)
    }
}

/// The place that a row created at `at` takes in an ordered list: behind the
/// last row that it does not come before, so behind the rows of the same
/// creation time that are already there.
pub open spec fn slot<R: Record>(sorted: Seq<R>, at: Timestamp, newest_first: bool) -> int
    decreases sorted.len(),
{
    if sorted.len() == 0 || !comes_before(at, sorted.last().created(), newest_first) {
        sorted.len() as int
    } else {
        slot(sorted.drop_last(), at, newest_first)
    }
}

/// The rows in the order of their creation times, the newest first or the
/// oldest first. Rows of the same creation time keep the order in which the
/// table holds them.
pub open spec fn arranged<R: Record>(rows: Seq<R>, newest_first: bool) -> Seq<R>
    decreases rows.len(),
{
    if rows.len() == 0 {
        Seq::empty()
    } else {
        let before = arranged(rows.drop_last(), newest_first);
        before.insert(slot(before, rows.last().created(), newest_first), rows.last())
    }
}

/// A list is in order when no row comes before one that is listed earlier.
pub open spec fn in_order<R: Record>(rows: Seq<R>, newest_first: bool) -> bool {
    forall|i: int, j: int|
        0 <= i < j < rows.len() ==> !comes_before(
            (#[trigger] rows[j]).created(),
            (#[trigger] rows[i]).created(),
            newest_first,
        )
}

/// The slot lies in the list; the row comes before every row from the slot
/// on, and not before the row just ahead of the slot.
pub proof fn lemma_slot<R: Record>(sorted: Seq<R>, at: Timestamp, newest_first: bool)
    ensures
        0 <= slot(sorted, at, newest_first) <= sorted.len(),
        forall|k: int|
            slot(sorted, at, newest_first) <= k < sorted.len() ==> comes_before(
                at,
                (#[trigger] sorted[k]).created(),
                newest_first,
            ),
        slot(sorted, at, newest_first) > 0 ==> !comes_before(
            at,
            sorted[slot(sorted, at, newest_first) - 1].created(),
            newest_first,
        ),
    decreases sorted.len(),
{
    if sorted.len() == 0 || !comes_before(at, sorted.last().created(), newest_first) {
    } else {
        let head = sorted.drop_last();
        lemma_slot(head, at, newest_first);
        assert forall|k: int| slot(sorted, at, newest_first) <= k < sorted.len() implies comes_before(
            at,
            (#[trigger] sorted[k]).created(),
            newest_first,
        ) by {
            if k < head.len() {
                assert(head[k] == sorted[k]);
            }
        }
        if slot(sorted, at, newest_first) > 0 {
            assert(head[slot(head, at, newest_first) - 1] == sorted[slot(sorted, at, newest_first)
                - 1]);
        }
    }
}

/// The place with the two properties of the slot is the slot.
pub proof fn lemma_slot_is_unique<R: Record>(
    sorted: Seq<R>,
    at: Timestamp,
    newest_first: bool,
    p: int,
)
    requires
        0 <= p <= sorted.len(),
        forall|k: int|
            p <= k < sorted.len() ==> comes_before(
                at,
                (#[trigger] sorted[k]).created(),
                newest_first,
            ),
        p > 0 ==> !comes_before(at, sorted[p - 1].created(), newest_first),
    ensures
        p == slot(sorted, at, newest_first),
{
    lemma_slot(sorted, at, newest_first);
    let q = slot(sorted, at, newest_first);
    if p < q {
        assert(comes_before(at, sorted[q - 1].created(), newest_first));
    }
    if q < p {
        assert(comes_before(at, sorted[p - 1].created(), newest_first));
    }
}

/// What a list holds once `row` has been put in at place `p`.
pub proof fn lemma_insert_holds<R: Record>(list: Seq<R>, p: int, row: R)
    requires
        0 <= p <= list.len(),
    ensures
        forall|r: R| list.insert(p, row).contains(r) <==> (list.contains(r) || r == row),
        forall|id: Seq<char>|
            has_id(list.insert(p, row), id) <==> (has_id(list, id) || id == row.key()),
{
    let out = list.insert(p, row);
    assert forall|r: R| out.contains(r) <==> (list.contains(r) || r == row) by {
        if out.contains(r) {
            let k = choose|k: int| 0 <= k < out.len() && out[k] == r;
            if k != p {
                let b = if k < p {
                    k
                } else {
                    k - 1
                };
                assert(list[b] == r);
            }
        }
        if list.contains(r) {
            let b = choose|b: int| 0 <= b < list.len() && list[b] == r;
            if b < p {
                assert(out[b] == r);
            } else {
                assert(out[b + 1] == r);
            }
        }
        if r == row {
            assert(out[p] == r);
        }
    }
    assert forall|id: Seq<char>| has_id(out, id) <==> (has_id(list, id) || id == row.key()) by {
        if has_id(out, id) {
            let k = choose|k: int| 0 <= k < out.len() && #[trigger] out[k].key() == id;
            if k != p {
                let b = if k < p {
                    k
                } else {
                    k - 1
                };
                assert(list[b].key() == id);
            }
        }
        if has_id(list, id) {
            let b = choose|b: int| 0 <= b < list.len() && #[trigger] list[b].key() == id;
            if b < p {
                assert(out[b].key() == id);
            } else {
                assert(out[b + 1].key() == id);
            }
        }
        if id == row.key() {
            assert(out[p].key() == id);
        }
    }
}

/// A row with a new id, put into a list of distinct ids, leaves the ids distinct.
pub proof fn lemma_insert_keeps_ids_distinct<R: Record>(list: Seq<R>, p: int, row: R)
    requires
        0 <= p <= list.len(),
        ids_distinct(list),
        !has_id(list, row.key()),
    ensures
        ids_distinct(list.insert(p, row)),
{
    let out = list.insert(p, row);
    assert forall|i: int, j: int|
        0 <= i < out.len() && 0 <= j < out.len() && i != j implies #[trigger] out[i].key()
        != #[trigger] out[j].key() by {
        let bi = if i < p {
            i
        } else {
            i - 1
        };
        let bj = if j < p {
            j
        } else {
            j - 1
        };
        if i == p {
            assert(list[bj].key() != row.key());
        } else if j == p {
            assert(list[bi].key() != row.key());
        } else {
            assert(list[bi].key() != list[bj].key());
        }
    }
}

/// The ids of a table without its last row are distinct, and none is the last row's.
pub proof fn lemma_ids_distinct_drop_last<R: Record>(rows: Seq<R>)
    requires
        ids_distinct(rows),
        rows.len() > 0,
    ensures
        ids_distinct(rows.drop_last()),
        !has_id(rows.drop_last(), rows.last().key()),
{
    let head = rows.drop_last();
    assert forall|i: int, j: int|
        0 <= i < head.len() && 0 <= j < head.len() && i != j implies #[trigger] head[i].key()
        != #[trigger] head[j].key() by {
        assert(rows[i].key() != rows[j].key());
    }
    if has_id(head, rows.last().key()) {
        let h = choose|h: int| 0 <= h < head.len() && #[trigger] head[h].key() == rows.last().key();
        assert(rows[h].key() == rows[rows.len() - 1].key());
    }
}

/// A row put in at its slot leaves an ordered list in order.
pub proof fn lemma_slot_keeps_order<R: Record>(list: Seq<R>, row: R, newest_first: bool)
    requires
        in_order(list, newest_first),
    ensures
        in_order(list.insert(slot(list, row.created(), newest_first), row), newest_first),
{
    let p = slot(list, row.created(), newest_first);
    let out = list.insert(p, row);
    lemma_slot(list, row.created(), newest_first);
    assert forall|i: int, j: int| 0 <= i < j < out.len() implies !comes_before(
        (#[trigger] out[j]).created(),
        (#[trigger] out[i]).created(),
        newest_first,
    ) by {
        if j == p {
            assert(!comes_before(row.created(), list[p - 1].created(), newest_first));
            if i < p - 1 {
                assert(!comes_before(list[p - 1].created(), list[i].created(), newest_first));
            }
        } else if i == p {
            assert(comes_before(row.created(), list[j - 1].created(), newest_first));
        } else {
            let bi = if i < p {
                i
            } else {
                i - 1
            };
            let bj = if j < p {
                j
            } else {
                j - 1
            };
            assert(!comes_before(list[bj].created(), list[bi].created(), newest_first));
        }
    }
}

/// The ordered list is in order, and holds what the table holds: it has the
/// table's length, rows and ids.
pub proof fn lemma_arranged<R: Record>(rows: Seq<R>, newest_first: bool)
    ensures
        arranged(rows, newest_first).len() == rows.len(),
        in_order(arranged(rows, newest_first), newest_first),
        forall|r: R| arranged(rows, newest_first).contains(r) <==> rows.contains(r),
        forall|id: Seq<char>| has_id(arranged(rows, newest_first), id) <==> has_id(rows, id),
    decreases rows.len(),
{
    let out = arranged(rows, newest_first);
    if rows.len() > 0 {
        let head = rows.drop_last();
        let row = rows.last();
        let before = arranged(head, newest_first);
        let p = slot(before, row.created(), newest_first);
        lemma_arranged(head, newest_first);
        lemma_slot(before, row.created(), newest_first);
        lemma_slot_keeps_order(before, row, newest_first);
        lemma_insert_holds(before, p, row);
        lemma_insert_holds(head, head.len() as int, row);
        assert(rows =~= head.insert(head.len() as int, row));
        assert(out == before.insert(p, row));
        assert forall|r: R| out.contains(r) <==> rows.contains(r) by {
            assert(before.contains(r) <==> head.contains(r));
        }
        assert forall|id: Seq<char>| has_id(out, id) <==> has_id(rows, id) by {
            assert(has_id(before, id) <==> has_id(head, id));
        }
    } else {
        assert forall|r: R| !out.contains(r) && !rows.contains(r) by {}
        assert forall|id: Seq<char>| !has_id(out, id) && !has_id(rows, id) by {}
    }
}

/// Ordering the rows leaves their ids distinct.
pub proof fn lemma_arranged_ids_distinct<R: Record>(rows: Seq<R>, newest_first: bool)
    requires
        ids_distinct(rows),
    ensures
        ids_distinct(arranged(rows, newest_first)),
    decreases rows.len(),
{
    if rows.len() > 0 {
        let head = rows.drop_last();
        let row = rows.last();
        let before = arranged(head, newest_first);
        lemma_ids_distinct_drop_last(rows);
        lemma_arranged_ids_distinct(head, newest_first);
        lemma_arranged(head, newest_first);
        lemma_slot(before, row.created(), newest_first);
        lemma_insert_keeps_ids_distinct(
            before,
            slot(before, row.created(), newest_first),
            row,
        );
    }
}

/// The ordered list holds each row as often as the table does.
pub proof fn lemma_arranged_is_permutation<R: Record>(rows: Seq<R>, newest_first: bool)
    ensures
        arranged(rows, newest_first).to_multiset() == rows.to_multiset(),
    decreases rows.len(),
{
    broadcast use vstd::seq_lib::group_to_multiset_ensures;

    let out = arranged(rows, newest_first);
    if rows.len() == 0 {
        assert(rows =~= out);
    } else {
        let head = rows.drop_last();
        let row = rows.last();
        let before = arranged(head, newest_first);
        let p = slot(before, row.created(), newest_first);
        lemma_arranged_is_permutation(head, newest_first);
        lemma_slot(before, row.created(), newest_first);
        let left = before.subrange(0, p);
        let right = before.subrange(p, before.len() as int);
        assert(out =~= left.push(row) + right);
        assert(before =~= left + right);
        vstd::seq_lib::lemma_multiset_commutative(left.push(row), right);
        vstd::seq_lib::lemma_multiset_commutative(left, right);
        assert(out.to_multiset() =~= before.to_multiset().insert(row));
        assert(rows =~= head.push(row));
        assert(rows.to_multiset() =~= head.to_multiset().insert(row));
    }
}

/// Of two rows of a table of distinct ids, the one that the table holds first
/// is listed first, unless the other comes before it for its creation time.
/// So the list is the table's rows in the order of their creation times, and
/// in the table's order where the times are the same.
pub proof fn lemma_arranged_is_stable<R: Record>(rows: Seq<R>, newest_first: bool, i: int, j: int)
    requires
        ids_distinct(rows),
        0 <= i < j < rows.len(),
        !comes_before(rows[j].created(), rows[i].created(), newest_first),
    ensures
        place_of(arranged(rows, newest_first), rows[i].key()) < place_of(
            arranged(rows, newest_first),
            rows[j].key(),
        ) < rows.len(),
    decreases rows.len(),
{
    let head = rows.drop_last();
    let row = rows.last();
    let before = arranged(head, newest_first);
    let p = slot(before, row.created(), newest_first);
    let out = arranged(rows, newest_first);
    lemma_ids_distinct_drop_last(rows);
    lemma_arranged(head, newest_first);
    lemma_arranged(rows, newest_first);
    lemma_arranged_ids_distinct(head, newest_first);
    lemma_arranged_ids_distinct(rows, newest_first);
    lemma_slot(before, row.created(), newest_first);
    assert(out == before.insert(p, row));
    // Where row `i` stands in the list of the rows before the last.
    assert(head[i] == rows[i]);
    assert(head.contains(rows[i]));
    assert(before.contains(rows[i]));
    let qi = choose|q: int| 0 <= q < before.len() && before[q] == rows[i];
    lemma_place_of_row(before, qi);
    let ri = if qi < p {
        qi
    } else {
        qi + 1
    };
    assert(out[ri] == rows[i]);
    lemma_place_of_row(out, ri);
    if j == rows.len() - 1 {
        assert(out[p] == rows[j]);
        lemma_place_of_row(out, p);
        if qi >= p {
            assert(comes_before(row.created(), before[qi].created(), newest_first));
        }
    } else {
        lemma_arranged_is_stable(head, newest_first, i, j);
        assert(head[j] == rows[j]);
        assert(head.contains(rows[j]));
        assert(before.contains(rows[j]));
        let qj = choose|q: int| 0 <= q < before.len() && before[q] == rows[j];
        lemma_place_of_row(before, qj);
        let rj = if qj < p {
            qj
        } else {
            qj + 1
        };
        assert(out[rj] == rows[j]);
        lemma_place_of_row(out, rj);
    }
}

/// Puts rows in the order of their creation times.
pub fn arrange<R: Record>(rows: &Vec<R>, newest_first: bool) -> (out: Vec<R>)
    ensures
        out@ == arranged(rows@, newest_first),
{
    let mut out: Vec<R> = Vec::new();
    let mut i: usize = 0;
    while i < rows.len()
        invariant
            i <= rows.len(),
            out@ == arranged(rows@.take(i as int), newest_first),
        decreases rows.len() - i,
    {
        let row = rows[i].duplicate();
        let at = row.created_time();
        let mut p: usize = out.len();
        while p > 0 && listed_before(at, out[p - 1].created_time(), newest_first)
            invariant
                p <= out.len(),
                forall|k: int|
                    p <= k < out.len() ==> comes_before(
                        at,
                        (#[trigger] out@[k]).created(),
                        newest_first,
                    ),
            decreases p,
        {
            p = p - 1;
        }
        proof {
            lemma_slot_is_unique(out@, at, newest_first, p as int);
            assert(rows@.take(i + 1).drop_last() =~= rows@.take(i as int));
            assert(rows@.take(i + 1).last() == row);
        }
        out.insert(p, row);
        i = i + 1;
    }
    assert(rows@.take(rows@.len() as int) =~= rows@);
    out
}

/// The rows of the first `i + 1` that pass a test are those of the first `i`
/// that pass it, and after them row `i` if it passes.
pub proof fn lemma_filter_next<A>(rows: Seq<A>, pred: spec_fn(A) -> bool, i: int)
    requires
        0 <= i < rows.len(),
    ensures
        rows.take(i + 1).filter(pred) == if pred(rows[i]) {
            rows.take(i).filter(pred).push(rows[i])
        } else {
            rows.take(i).filter(pred)
        },
{
    reveal(Seq::filter);
    assert(rows.take(i + 1).drop_last() =~= rows.take(i));
}

/// A number of rows as the queries report it: the number itself, as far as
/// the type can hold it.
pub open spec fn as_count(n: nat) -> i64 {
    if n <= i64::MAX {
        n as i64
    } else {
        i64::MAX
    }
}

pub fn count_of(n: usize) -> (c: i64)
    ensures
        c == as_count(n as nat),
{
    if n as u64 <= 0x7fff_ffff_ffff_ffff {
        n as i64
    } else {
        i64::MAX
    }
}

/// Where a page begins in a list of `len` rows: after `offset` rows, or at the
/// start for a negative offset, and at the end of the list at the latest.
pub open spec fn page_start(len: nat, offset: i64) -> int {
    if offset <= 0 {
        0
    } else if offset >= len {
        len as int
    } else {
        offset as int
    }
}

/// Where the page ends: `limit` rows behind its start, or at the end of the
/// list if that comes first or the limit is negative.
pub open spec fn page_end(len: nat, limit: i64, offset: i64) -> int {
    if limit < 0 || page_start(len, offset) + limit >= len {
        len as int
    } else {
        page_start(len, offset) + limit
    }
}

/// The page of a list that `limit` and `offset` select.
pub open spec fn page<A>(list: Seq<A>, limit: i64, offset: i64) -> Seq<A> {
    list.subrange(page_start(list.len(), offset), page_end(list.len(), limit, offset))
}

/// Copies the page out of a list.
pub fn take_page<R: Record>(list: &Vec<R>, limit: i64, offset: i64) -> (out: Vec<R>)
    ensures
        out@ == page(list@, limit, offset),
{
    let len = list.len();
    let start: usize = if offset <= 0 {
        0
    } else if offset as u64 >= len as u64 {
        len
    } else {
        offset as usize
    };
    let end: usize = if limit < 0 || limit as u64 >= (len - start) as u64 {
        len
    } else {
        start + limit as usize
    };
    let mut out: Vec<R> = Vec::new();
    let mut i: usize = start;
    while i < end
        invariant
            start <= i <= end <= list.len(),
            out@ == list@.subrange(start as int, i as int),
        decreases end - i,
    {
        out.push(list[i].duplicate());
        assert(list@.subrange(start as int, i + 1) =~= list@.subrange(start as int, i as int).push(
            list@[i as int],
        ));
        i = i + 1;
    }
    out
}

/// The test that a row has another id than `id`.
pub open spec fn other_than<R: Record>(id: Seq<char>) -> spec_fn(R) -> bool {
    |r: R| r.key() != id
}

/// A row replaced by one with its id leaves the ids distinct.
pub proof fn lemma_update_keeps_ids_distinct<R: Record>(rows: Seq<R>, i: int, row: R)
    requires
        ids_distinct(rows),
        0 <= i < rows.len(),
        row.key() == rows[i].key(),
    ensures
        ids_distinct(rows.update(i, row)),
{
    let out = rows.update(i, row);
    assert forall|a: int, b: int|
        0 <= a < out.len() && 0 <= b < out.len() && a != b implies #[trigger] out[a].key()
        != #[trigger] out[b].key() by {
        assert(out[a].key() == rows[a].key());
        assert(out[b].key() == rows[b].key());
    }
}

/// A row taken out leaves the ids distinct.
pub proof fn lemma_remove_keeps_ids_distinct<R: Record>(rows: Seq<R>, i: int)
    requires
        ids_distinct(rows),
        0 <= i < rows.len(),
    ensures
        ids_distinct(rows.remove(i)),
{
    let out = rows.remove(i);
    assert forall|a: int, b: int|
        0 <= a < out.len() && 0 <= b < out.len() && a != b implies #[trigger] out[a].key()
        != #[trigger] out[b].key() by {
        let a0 = if a < i {
            a
        } else {
            a + 1
        };
        let b0 = if b < i {
            b
        } else {
            b + 1
        };
        assert(out[a] == rows[a0]);
        assert(out[b] == rows[b0]);
    }
}

/// The rows that pass a test are rows of the table, in the table's order: an
/// id among them is an id of the table, and distinct ids stay distinct.
pub proof fn lemma_filter_rows<R: Record>(rows: Seq<R>, pred: spec_fn(R) -> bool)
    ensures
        rows.filter(pred).len() <= rows.len(),
        forall|id: Seq<char>| #[trigger] has_id(rows.filter(pred), id) ==> has_id(rows, id),
        ids_distinct(rows) ==> ids_distinct(rows.filter(pred)),
    decreases rows.len(),
{
    reveal(Seq::filter);
    let out = rows.filter(pred);
    if rows.len() > 0 {
        let head = rows.drop_last();
        let sub = head.filter(pred);
        lemma_filter_rows(head, pred);
        assert forall|id: Seq<char>| has_id(out, id) implies has_id(rows, id) by {
            let k = choose|k: int| 0 <= k < out.len() && #[trigger] out[k].key() == id;
            if k < sub.len() {
                assert(sub[k].key() == id);
                assert(has_id(sub, id));
                assert(has_id(head, id));
                let h = choose|h: int| 0 <= h < head.len() && #[trigger] head[h].key() == id;
                assert(rows[h].key() == id);
            } else {
                assert(rows[rows.len() - 1].key() == id);
            }
        }
        if ids_distinct(rows) {
            lemma_ids_distinct_drop_last(rows);
            if pred(rows.last()) {
                assert(!has_id(sub, rows.last().key()));
                lemma_insert_keeps_ids_distinct(sub, sub.len() as int, rows.last());
                assert(sub.insert(sub.len() as int, rows.last()) =~= out);
            }
        }
    }
}

/// Where ids are distinct, the rows with another id than `id` are all rows
/// but the one with that id.
pub proof fn lemma_filter_other_than<R: Record>(rows: Seq<R>, id: Seq<char>)
    requires
        ids_distinct(rows),
    ensures
        rows.filter(other_than::<R>(id)) == if has_id(rows, id) {
            rows.remove(place_of(rows, id))
        } else {
            rows
        },
    decreases rows.len(),
{
    reveal(Seq::filter);
    lemma_place_of(rows, id);
    if rows.len() > 0 {
        let head = rows.drop_last();
        lemma_ids_distinct_drop_last(rows);
        lemma_filter_other_than(head, id);
        lemma_place_of(head, id);
        if rows.last().key() == id {
            assert(!has_id(head, id));
            assert(has_id(rows, id)) by {
                assert(rows[rows.len() - 1].key() == id);
            }
            assert(place_of(rows, id) == rows.len() - 1) by {
                let p = place_of(rows, id);
                if p < rows.len() - 1 {
                    assert(head[p].key() == id);
                }
            }
            assert(rows.remove(rows.len() - 1) =~= head);
        } else if has_id(head, id) {
            let p = place_of(head, id);
            assert(rows[p].key() == id);
            assert(has_id(rows, id));
            assert(place_of(rows, id) == p) by {
                let q = place_of(rows, id);
                if q < p {
                    assert(head[q].key() == id);
                }
                if q > p {
                    assert(rows[p].key() != id);
                }
            }
            assert(rows.remove(p) =~= head.remove(p).push(rows.last()));
        } else {
            assert(!has_id(rows, id)) by {
                if has_id(rows, id) {
                    let k = choose|k: int| 0 <= k < rows.len() && #[trigger] rows[k].key() == id;
                    assert(head[k].key() == id);
                }
            }
            assert(rows =~= head.push(rows.last()));
        }
    }
}

/// The rows that pass a test are the rows of the table for which it holds.
pub proof fn lemma_filter_holds<A>(rows: Seq<A>, pred: spec_fn(A) -> bool, row: A)
    ensures
        rows.filter(pred).contains(row) <==> (rows.contains(row) && pred(row)),
    decreases rows.len(),
{
    reveal(Seq::filter);
    if rows.len() > 0 {
        let head = rows.drop_last();
        lemma_filter_holds(head, pred, row);
        let sub = head.filter(pred);
        let out = rows.filter(pred);
        if out.contains(row) {
            let k = choose|k: int| 0 <= k < out.len() && out[k] == row;
            if k < sub.len() {
                assert(sub[k] == row);
                assert(sub.contains(row));
                let h = choose|h: int| 0 <= h < head.len() && head[h] == row;
                assert(rows[h] == row);
            } else {
                assert(rows[rows.len() - 1] == row);
            }
        }
        if rows.contains(row) && pred(row) {
            let h = choose|h: int| 0 <= h < rows.len() && rows[h] == row;
            if h < head.len() {
                assert(head[h] == row);
                assert(head.contains(row));
                let k = choose|k: int| 0 <= k < sub.len() && sub[k] == row;
                assert(out[k] == row);
            } else {
                assert(out[out.len() - 1] == row);
            }
        }
    }
}

/// A row put into an ordered list at its slot, and the rows that pass a test
/// then chosen, is the row put at its slot among the chosen rows of the list
/// if it passes the test itself, and the chosen rows of the list if not.
pub proof fn lemma_filter_after_slot<R: Record>(
    list: Seq<R>,
    row: R,
    newest_first: bool,
    pred: spec_fn(R) -> bool,
)
    requires
        in_order(list, newest_first),
    ensures
        list.insert(slot(list, row.created(), newest_first), row).filter(pred) == if pred(row) {
            list.filter(pred).insert(
                slot(list.filter(pred), row.created(), newest_first),
                row,
            )
        } else {
            list.filter(pred)
        },
{
    let at = row.created();
    let q = slot(list, at, newest_first);
    lemma_slot(list, at, newest_first);
    let left = list.take(q);
    let right = list.skip(q);
    let chosen = list.filter(pred);
    let one = seq![row];
    assert(list =~= left + right);
    assert(list.insert(q, row) =~= left + one + right);
    Seq::filter_distributes_over_add(left, right, pred);
    Seq::filter_distributes_over_add(left + one, right, pred);
    Seq::filter_distributes_over_add(left, one, pred);
    assert(one.filter(pred) =~= if pred(row) {
        one
    } else {
        Seq::<R>::empty()
    }) by {
        reveal(Seq::filter);
        assert(one.drop_last().filter(pred) =~= Seq::<R>::empty());
    }
    let head = left.filter(pred);
    let tail = right.filter(pred);
    assert(chosen == head + tail);
    if pred(row) {
        let p = head.len() as int;
        assert forall|k: int| p <= k < chosen.len() implies comes_before(
            at,
            (#[trigger] chosen[k]).created(),
            newest_first,
        ) by {
            let r = chosen[k];
            assert(r == tail[k - p]);
            assert(tail.contains(r));
            lemma_filter_holds(right, pred, r);
            let j = choose|j: int| 0 <= j < right.len() && right[j] == r;
            assert(list[q + j] == r);
        }
        if p > 0 {
            let r = chosen[p - 1];
            assert(r == head[p - 1]);
            assert(head.contains(r));
            lemma_filter_holds(left, pred, r);
            let j = choose|j: int| 0 <= j < left.len() && left[j] == r;
            assert(list[j] == r);
            assert(!comes_before(at, list[q - 1].created(), newest_first));
            if j < q - 1 {
                assert(!comes_before(list[q - 1].created(), list[j].created(), newest_first));
            }
        }
        lemma_slot_is_unique(chosen, at, newest_first, p);
        assert(chosen.insert(p, row) =~= head + one + tail);
    } else {
        assert(head + Seq::<R>::empty() + tail =~= head + tail);
    }
}

/// Choosing the rows that pass a test and putting rows in order can be done
/// in either order: the chosen rows in order are the rows in order, chosen.
pub proof fn lemma_filter_commutes_with_order<R: Record>(
    rows: Seq<R>,
    newest_first: bool,
    pred: spec_fn(R) -> bool,
)
    ensures
        arranged(rows.filter(pred), newest_first) == arranged(rows, newest_first).filter(pred),
    decreases rows.len(),
{
    reveal(Seq::filter);
    if rows.len() == 0 {
        assert(rows.filter(pred) =~= rows);
        assert(arranged(rows, newest_first).filter(pred) =~= Seq::<R>::empty());
    } else {
        let head = rows.drop_last();
        let row = rows.last();
        let before = arranged(head, newest_first);
        lemma_filter_commutes_with_order(head, newest_first, pred);
        lemma_arranged(head, newest_first);
        lemma_filter_after_slot(before, row, newest_first, pred);
        if pred(row) {
            let chosen = head.filter(pred);
            assert(rows.filter(pred) == chosen.push(row));
            assert(chosen.push(row).drop_last() =~= chosen);
        }
    }
}

} // verus!
