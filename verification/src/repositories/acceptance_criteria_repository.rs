//! The table of acceptance criteria.

use crate::clock::Timestamp;
use crate::models::{
    AcceptanceCriteria, CreateAcceptanceCriteriaRequest, UpdateAcceptanceCriteriaRequest, UserStory,
};
use crate::repositories::table::{
    arrange, arranged, as_count, count_of, find_place, has_id, ids_distinct, lemma_filter_next,
    lemma_filter_other_than, lemma_filter_rows, lemma_insert_keeps_ids_distinct, lemma_place_of,
    lemma_place_of_row,
    lemma_remove_keeps_ids_distinct, lemma_update_keeps_ids_distinct, other_than, place_of,
    row_with_id, Record,
};
use crate::repositories::user_story_repository::{or_kept, UserStoryRepository};
use crate::repositories::{
    lemma_refers_after_criteria_added, refers_to_stories, StorageError, StorageFault,
};
use crate::text::{like, make_search_pattern, search_matches, search_pattern};
use vstd::prelude::*;
use vstd::string::*;

verus! {

/// The acceptance criteria, in the order in which they were created in the
/// table. No two have the same id.
pub struct AcceptanceCriteriaRepository {
    rows: Vec<AcceptanceCriteria>,
}

impl View for AcceptanceCriteriaRepository {
    type V = Seq<AcceptanceCriteria>;

    closed spec fn view(&self) -> Seq<AcceptanceCriteria> {
        self.rows@
    }
}

/// The criteria that a request creates at the time `now`.
pub open spec fn new_criteria(
    request: CreateAcceptanceCriteriaRequest,
    now: Timestamp,
) -> AcceptanceCriteria {
    AcceptanceCriteria {
        id: request.id,
        user_story_id: request.user_story_id,
        description: request.description,
        created_at: now,
        updated_at: now,
    }
}

/// The criteria that an update at the time `now` makes of `row`.
pub open spec fn revised_criteria(
    row: AcceptanceCriteria,
    request: UpdateAcceptanceCriteriaRequest,
    now: Timestamp,
) -> AcceptanceCriteria {
    AcceptanceCriteria {
        id: row.id,
        user_story_id: row.user_story_id,
        description: or_kept(request.description, row.description),
        created_at: row.created_at,
        updated_at: now,
    }
}

/// The test that a criteria belongs to the story with the id `id`.
pub open spec fn of_story(id: Seq<char>) -> spec_fn(AcceptanceCriteria) -> bool {
    |c: AcceptanceCriteria| c.user_story_id@ == id
}

/// The test that a criteria belongs to another story than the one with the id `id`.
pub open spec fn of_other_story(id: Seq<char>) -> spec_fn(AcceptanceCriteria) -> bool {
    |c: AcceptanceCriteria| c.user_story_id@ != id
}

/// The test of a search: the description matches the pattern.
pub open spec fn criteria_like(pattern: Seq<char>) -> spec_fn(AcceptanceCriteria) -> bool {
    |c: AcceptanceCriteria| like(pattern, c.description@)
}

/// The test that a search for `query` puts to a criteria.
pub open spec fn criteria_matches(query: Seq<char>) -> spec_fn(AcceptanceCriteria) -> bool {
    criteria_like(search_pattern(query))
}

/// Why the table does not take the row of a request, if it does not: it has
/// a row with the id, or else no story has the id that the request refers to.
pub open spec fn insert_fault(
    rows: Seq<AcceptanceCriteria>,
    stories: Seq<UserStory>,
    request: CreateAcceptanceCriteriaRequest,
) -> Option<StorageFault> {
    if has_id(rows, request.id@) {
        Some(StorageFault::UniqueViolation { id: request.id@ })
    } else if !has_id(stories, request.user_story_id@) {
        Some(StorageFault::ForeignKeyViolation { user_story_id: request.user_story_id@ })
    } else {
        None
    }
}

/// Whether one of the first `k` requests has the id `id`.
pub open spec fn earlier_in_batch(
    requests: Seq<CreateAcceptanceCriteriaRequest>,
    k: int,
    id: Seq<char>,
) -> bool {
    exists|j: int| 0 <= j < k && j < requests.len() && (#[trigger] requests[j]).id@ == id
}

/// Why request `k` of a batch fails, if it does, once the requests before it
/// have gone in: its id is in the table or was used earlier in the batch, or
/// else no story has the id that it refers to.
pub open spec fn batch_fault_at(
    rows: Seq<AcceptanceCriteria>,
    stories: Seq<UserStory>,
    requests: Seq<CreateAcceptanceCriteriaRequest>,
    k: int,
) -> Option<StorageFault> {
    if has_id(rows, requests[k].id@) || earlier_in_batch(requests, k, requests[k].id@) {
        Some(StorageFault::UniqueViolation { id: requests[k].id@ })
    } else if !has_id(stories, requests[k].user_story_id@) {
        Some(StorageFault::ForeignKeyViolation { user_story_id: requests[k].user_story_id@ })
    } else {
        None
    }
}

/// The fault of the first request from `k` on that has one.
pub open spec fn batch_fault_from(
    rows: Seq<AcceptanceCriteria>,
    stories: Seq<UserStory>,
    requests: Seq<CreateAcceptanceCriteriaRequest>,
    k: int,
) -> Option<StorageFault>
    decreases requests.len() - k,
{
    if k < 0 || k >= requests.len() {
        None
    } else if batch_fault_at(rows, stories, requests, k) is Some {
        batch_fault_at(rows, stories, requests, k)
    } else {
        batch_fault_from(rows, stories, requests, k + 1)
    }
}

/// Why a batch fails, if it does: the fault of its first request that has one.
pub open spec fn batch_fault(
    rows: Seq<AcceptanceCriteria>,
    stories: Seq<UserStory>,
    requests: Seq<CreateAcceptanceCriteriaRequest>,
) -> Option<StorageFault> {
    batch_fault_from(rows, stories, requests, 0)
}

/// The criteria of the list that belong to the story with the id `id`.
pub fn select_of_story(list: &Vec<AcceptanceCriteria>, id: &String) -> (out: Vec<
    AcceptanceCriteria,
>)
    ensures
        out@ == list@.filter(of_story(id@)),
{
    let mut out: Vec<AcceptanceCriteria> = Vec::new();
    let mut i: usize = 0;
    assert(list@.take(0).filter(of_story(id@)) =~= Seq::<AcceptanceCriteria>::empty()) by {
        reveal(Seq::filter);
    }
    while i < list.len()
        invariant
            i <= list.len(),
            out@ == list@.take(i as int).filter(of_story(id@)),
        decreases list.len() - i,
    {
        proof {
            lemma_filter_next(list@, of_story(id@), i as int);
        }
        if list[i].user_story_id == *id {
            out.push(list[i].clone());
        }
        i = i + 1;
    }
    assert(list@.take(list@.len() as int) =~= list@);
    out
}

/// The criteria of the list of which the description matches the pattern.
pub fn select_like(list: &Vec<AcceptanceCriteria>, pattern: &Vec<char>) -> (out: Vec<
    AcceptanceCriteria,
>)
    ensures
        out@ == list@.filter(criteria_like(pattern@)),
{
    let mut out: Vec<AcceptanceCriteria> = Vec::new();
    let mut i: usize = 0;
    assert(list@.take(0).filter(criteria_like(pattern@)) =~= Seq::<AcceptanceCriteria>::empty())
        by {
        reveal(Seq::filter);
    }
    while i < list.len()
        invariant
            i <= list.len(),
            out@ == list@.take(i as int).filter(criteria_like(pattern@)),
        decreases list.len() - i,
    {
        proof {
            lemma_filter_next(list@, criteria_like(pattern@), i as int);
        }
        if search_matches(pattern, list[i].description.as_str()) {
            out.push(list[i].clone());
        }
        i = i + 1;
    }
    assert(list@.take(list@.len() as int) =~= list@);
    out
}

impl AcceptanceCriteriaRepository {
    #[verifier::type_invariant]
    pub open spec fn ids_are_distinct(self) -> bool {
        ids_distinct(self@)
    }

    /// Takes the rows out of the table, which is left empty until they are put back.
    fn take_rows(&mut self) -> (rows: Vec<AcceptanceCriteria>)
        ensures
            rows@ == old(self)@,
            final(self)@ == Seq::<AcceptanceCriteria>::empty(),
    {
        let mut rows: Vec<AcceptanceCriteria> = Vec::new();
        core::mem::swap(&mut self.rows, &mut rows);
        rows
    }

    /// An empty table.
    pub fn new() -> (r: Self)
        ensures
            r@ == Seq::<AcceptanceCriteria>::empty(),
    {
        AcceptanceCriteriaRepository { rows: Vec::new() }
    }

    /// The table of the given rows, if no two of them have the same id.
    pub fn from_rows(rows: Vec<AcceptanceCriteria>) -> (r: Option<Self>)
        ensures
            r is Some <==> ids_distinct(rows@),
            r matches Some(table) ==> table@ == rows@,
    {
        let mut i: usize = 0;
        while i < rows.len()
            invariant
                i <= rows.len(),
                forall|a: int, b: int|
                    0 <= a < i && 0 <= b < a ==> (#[trigger] rows@[a]).key() != (
                    #[trigger] rows@[b]).key(),
            decreases rows.len() - i,
        {
            let mut j: usize = 0;
            while j < i
                invariant
                    j <= i < rows.len(),
                    forall|b: int| 0 <= b < j ==> rows@[i as int].key() != (#[trigger] rows@[b]).key(),
                decreases i - j,
            {
                if rows[i].id == rows[j].id {
                    assert(rows@[i as int].key() == rows@[j as int].key());
                    return None;
                }
                j = j + 1;
            }
            i = i + 1;
        }
        assert(ids_distinct(rows@)) by {
            assert forall|a: int, b: int|
                0 <= a < rows@.len() && 0 <= b < rows@.len() && a != b implies (
            #[trigger] rows@[a]).key() != (#[trigger] rows@[b]).key() by {
                if b < a {
                } else {
                    assert(rows@[b].key() != rows@[a].key());
                }
            }
        }
        Some(AcceptanceCriteriaRepository { rows })
    }

    /// The rows of the table, in the order in which they were created in it.
    pub fn rows(&self) -> (r: &Vec<AcceptanceCriteria>)
        ensures
            r@ == self@,
            ids_distinct(self@),
    {
        proof {
            use_type_invariant(self);
        }
        &self.rows
    }

    /// Creates a criteria with the time of the clock.
    pub fn create(
        &mut self,
        stories: &UserStoryRepository,
        request: CreateAcceptanceCriteriaRequest,
    ) -> (r: Result<AcceptanceCriteria, StorageError>)
        ensures
            refers_to_stories(old(self)@, stories@) ==> refers_to_stories(final(self)@, stories@),
            match r {
                Ok(criteria) => {
                    &&& insert_fault(old(self)@, stories@, request) is None
                    &&& criteria == new_criteria(request, criteria.created_at)
                    &&& final(self)@ == old(self)@.push(criteria)
                    &&& row_with_id(final(self)@, request.id@) == Some(criteria)
                },
                Err(e) => {
                    &&& insert_fault(old(self)@, stories@, request) == Some(e@)
                    &&& final(self)@ == old(self)@
                },
            },
    {
        let now = Timestamp::now();
        self.create_at(stories, request, now)
    }

    /// Creates a criteria at the time `now`: the table gets a new last row
    /// with the fields of the request, unless it has a row with that id
    /// already or `stories` has no story with the id that the request refers to.
    pub fn create_at(
        &mut self,
        stories: &UserStoryRepository,
        request: CreateAcceptanceCriteriaRequest,
        now: Timestamp,
    ) -> (r: Result<AcceptanceCriteria, StorageError>)
        ensures
            refers_to_stories(old(self)@, stories@) ==> refers_to_stories(final(self)@, stories@),
            match r {
                Ok(criteria) => {
                    &&& insert_fault(old(self)@, stories@, request) is None
                    &&& criteria == new_criteria(request, now)
                    &&& final(self)@ == old(self)@.push(criteria)
                    &&& row_with_id(final(self)@, request.id@) == Some(criteria)
                },
                Err(e) => {
                    &&& insert_fault(old(self)@, stories@, request) == Some(e@)
                    &&& final(self)@ == old(self)@
                },
            },
    {
        proof {
            use_type_invariant(&*self);
        }
        if find_place(&self.rows, request.id.as_str()).is_some() {
            return Err(StorageError::UniqueViolation { id: request.id });
        }
        if find_place(stories.rows(), request.user_story_id.as_str()).is_none() {
            return Err(StorageError::ForeignKeyViolation { user_story_id: request.user_story_id });
        }
        let criteria = AcceptanceCriteria {
            id: request.id,
            user_story_id: request.user_story_id,
            description: request.description,
            created_at: now,
            updated_at: now,
        };
        let copy = criteria.clone();
        let mut rows = self.take_rows();
        let ghost before = rows@;
        rows.push(criteria);
        proof {
            lemma_insert_keeps_ids_distinct(before, before.len() as int, criteria);
            assert(before.insert(before.len() as int, criteria) =~= before.push(criteria));
            lemma_place_of_row(before.push(criteria), before.len() as int);
            if refers_to_stories(before, stories@) {
                lemma_refers_after_criteria_added(before, stories@, seq![criteria]);
                assert(before + seq![criteria] =~= before.push(criteria));
            }
        }
        self.rows = rows;
        Ok(copy)
    }

    /// The criteria with the id `id`, if there is one.
    pub fn get_by_id(&self, id: &str) -> (r: Result<Option<AcceptanceCriteria>, StorageError>)
        ensures
            r is Ok,
            r->Ok_0 == row_with_id(self@, id@),
    {
        match find_place(&self.rows, id) {
            Some(i) => Ok(Some(self.rows[i].clone())),
            None => Ok(None),
        }
    }

    /// The criteria of the story with the id `user_story_id`, the oldest first.
    pub fn get_by_user_story_id(&self, user_story_id: &str) -> (r: Result<
        Vec<AcceptanceCriteria>,
        StorageError,
    >)
        ensures
            r is Ok,
            r->Ok_0@ == arranged(self@.filter(of_story(user_story_id@)), false),
    {
        let wanted = String::from_str(user_story_id);
        let found = select_of_story(&self.rows, &wanted);
        Ok(arrange(&found, false))
    }

    /// All criteria, the newest first.
    pub fn get_all(&self) -> (r: Result<Vec<AcceptanceCriteria>, StorageError>)
        ensures
            r is Ok,
            r->Ok_0@ == arranged(self@, true),
    {
        Ok(arrange(&self.rows, true))
    }

    /// Updates a criteria with the time of the clock.
    pub fn update(&mut self, id: &str, request: UpdateAcceptanceCriteriaRequest) -> (r: Result<
        Option<AcceptanceCriteria>,
        StorageError,
    >)
        ensures
            r is Ok,
            match r->Ok_0 {
                Some(criteria) => {
                    &&& has_id(old(self)@, id@)
                    &&& criteria == revised_criteria(
                        old(self)@[place_of(old(self)@, id@)],
                        request,
                        criteria.updated_at,
                    )
                    &&& final(self)@ == old(self)@.update(place_of(old(self)@, id@), criteria)
                },
                None => !has_id(old(self)@, id@) && final(self)@ == old(self)@,
            },
    {
        let now = Timestamp::now();
        self.update_at(id, request, now)
    }

    /// Updates the criteria with the id `id` at the time `now`: a description
    /// that the request gives replaces the criteria's, and `now` becomes the
    /// time of its last update. Without such a criteria nothing changes and
    /// the result is `None`.
    pub fn update_at(
        &mut self,
        id: &str,
        request: UpdateAcceptanceCriteriaRequest,
        now: Timestamp,
    ) -> (r: Result<Option<AcceptanceCriteria>, StorageError>)
        ensures
            r is Ok,
            match r->Ok_0 {
                Some(criteria) => {
                    &&& has_id(old(self)@, id@)
                    &&& criteria == revised_criteria(
                        old(self)@[place_of(old(self)@, id@)],
                        request,
                        now,
                    )
                    &&& final(self)@ == old(self)@.update(place_of(old(self)@, id@), criteria)
                },
                None => !has_id(old(self)@, id@) && final(self)@ == old(self)@,
            },
    {
        proof {
            use_type_invariant(&*self);
        }
        match find_place(&self.rows, id) {
            None => Ok(None),
            Some(i) => {
                let mut rows = self.take_rows();
                let row = &rows[i];
                let criteria = AcceptanceCriteria {
                    id: row.id.clone(),
                    user_story_id: row.user_story_id.clone(),
                    description: match request.description {
                        Some(text) => text,
                        None => row.description.clone(),
                    },
                    created_at: row.created_at,
                    updated_at: now,
                };
                let copy = criteria.clone();
                let ghost before = rows@;
                rows.set(i, criteria);
                proof {
                    lemma_update_keeps_ids_distinct(before, i as int, criteria);
                }
                self.rows = rows;
                Ok(Some(copy))
            },
        }
    }

    /// Deletes the criteria with the id `id`. The result says whether there was one.
    pub fn delete(&mut self, id: &str) -> (r: Result<bool, StorageError>)
        ensures
            r is Ok,
            r->Ok_0 == has_id(old(self)@, id@),
            final(self)@ == old(self)@.filter(other_than::<AcceptanceCriteria>(id@)),
    {
        proof {
            use_type_invariant(&*self);
            lemma_place_of(self.rows@, id@);
            lemma_filter_other_than(self.rows@, id@);
        }
        match find_place(&self.rows, id) {
            None => Ok(false),
            Some(i) => {
                let mut rows = self.take_rows();
                let ghost before = rows@;
                rows.remove(i);
                proof {
                    lemma_remove_keeps_ids_distinct(before, i as int);
                }
                self.rows = rows;
                Ok(true)
            },
        }
    }

    /// Deletes the criteria of the story with the id `user_story_id`, and
    /// says how many there were.
    pub fn delete_by_user_story_id(&mut self, user_story_id: &str) -> (r: Result<u64, StorageError>)
        ensures
            r is Ok,
            r->Ok_0 == old(self)@.filter(of_story(user_story_id@)).len(),
            final(self)@ == old(self)@.filter(of_other_story(user_story_id@)),
    {
        proof {
            use_type_invariant(&*self);
        }
        let wanted = String::from_str(user_story_id);
        let mut kept: Vec<AcceptanceCriteria> = Vec::new();
        let mut removed: u64 = 0;
        let mut i: usize = 0;
        proof {
            reveal(Seq::filter);
            assert(self.rows@.take(0).filter(of_story(wanted@)) =~= Seq::<
                AcceptanceCriteria,
            >::empty());
            assert(self.rows@.take(0).filter(of_other_story(wanted@)) =~= Seq::<
                AcceptanceCriteria,
            >::empty());
        }
        while i < self.rows.len()
            invariant
                i <= self.rows.len(),
                wanted@ == user_story_id@,
                self.rows@ == old(self).rows@,
                removed <= i,
                removed == self.rows@.take(i as int).filter(of_story(wanted@)).len(),
                kept@ == self.rows@.take(i as int).filter(of_other_story(wanted@)),
            decreases self.rows.len() - i,
        {
            proof {
                lemma_filter_next(self.rows@, of_story(wanted@), i as int);
                lemma_filter_next(self.rows@, of_other_story(wanted@), i as int);
            }
            if self.rows[i].user_story_id == wanted {
                removed = removed + 1;
            } else {
                kept.push(self.rows[i].clone());
            }
            i = i + 1;
        }
        proof {
            assert(self.rows@.take(self.rows@.len() as int) =~= self.rows@);
            lemma_filter_rows(self.rows@, of_other_story(wanted@));
        }
        self.rows = kept;
        Ok(removed)
    }

    /// The criteria of which the description holds `query`, the newest first.
    /// Letters match without regard to case; in the query `%` stands for any
    /// run of characters and `_` for any one.
    pub fn search(&self, query: &str) -> (r: Result<Vec<AcceptanceCriteria>, StorageError>)
        ensures
            r is Ok,
            r->Ok_0@ == arranged(self@.filter(criteria_matches(query@)), true),
    {
        let pattern = make_search_pattern(query);
        let found = select_like(&self.rows, &pattern);
        Ok(arrange(&found, true))
    }

    /// The number of criteria of the story with the id `user_story_id`.
    pub fn count_by_user_story_id(&self, user_story_id: &str) -> (r: Result<i64, StorageError>)
        ensures
            r is Ok,
            r->Ok_0 == as_count(self@.filter(of_story(user_story_id@)).len()),
    {
        let wanted = String::from_str(user_story_id);
        let found = select_of_story(&self.rows, &wanted);
        Ok(count_of(found.len()))
    }

    /// The number of criteria.
    pub fn count(&self) -> (r: Result<i64, StorageError>)
        ensures
            r is Ok,
            r->Ok_0 == as_count(self@.len()),
    {
        Ok(count_of(self.rows.len()))
    }

    /// Creates the criteria of all the requests, in their order and each with
    /// the time of the clock, or none of them: if a request finds its id in
    /// the table or earlier in the batch, or refers to a story that `stories`
    /// does not hold, the table stays as it was.
    pub fn create_batch(
        &mut self,
        stories: &UserStoryRepository,
        requests: Vec<CreateAcceptanceCriteriaRequest>,
    ) -> (r: Result<Vec<AcceptanceCriteria>, StorageError>)
        ensures
            refers_to_stories(old(self)@, stories@) ==> refers_to_stories(final(self)@, stories@),
            match r {
                Ok(created) => {
                    &&& batch_fault(old(self)@, stories@, requests@) is None
                    &&& created@.len() == requests@.len()
                    &&& forall|k: int|
                        0 <= k < created@.len() ==> #[trigger] created@[k] == new_criteria(
                            requests@[k],
                            created@[k].created_at,
                        )
                    &&& final(self)@ == old(self)@ + created@
                },
                Err(e) => {
                    &&& batch_fault(old(self)@, stories@, requests@) == Some(e@)
                    &&& final(self)@ == old(self)@
                },
            },
    {
        proof {
            use_type_invariant(&*self);
        }
        let start = self.rows.len();
        let mut created: Vec<AcceptanceCriteria> = Vec::new();
        let mut i: usize = 0;
        assert(self.rows@ =~= old(self).rows@ + created@);
        while i < requests.len()
            invariant
                i <= requests.len(),
                start == old(self).rows@.len(),
                ids_distinct(old(self).rows@),
                ids_distinct(self.rows@),
                created@.len() == i,
                self.rows@ == old(self).rows@ + created@,
                refers_to_stories(old(self).rows@, stories@) ==> refers_to_stories(
                    self.rows@,
                    stories@,
                ),
                forall|k: int|
                    0 <= k < i ==> #[trigger] created@[k] == new_criteria(
                        requests@[k],
                        created@[k].created_at,
                    ),
                batch_fault(old(self).rows@, stories@, requests@) == batch_fault_from(
                    old(self).rows@,
                    stories@,
                    requests@,
                    i as int,
                ),
            decreases requests.len() - i,
        {
            let request = requests[i].clone();
            let ghost before = self.rows@;
            let ghost fault = batch_fault_at(old(self).rows@, stories@, requests@, i as int);
            proof {
                lemma_joined_ids(old(self).rows@, created@, requests@, i as int);
                assert(has_id(old(self).rows@ + created@, request.id@) <==> (has_id(
                    old(self).rows@,
                    request.id@,
                ) || earlier_in_batch(requests@, i as int, request.id@)));
                assert(insert_fault(before, stories@, request) == fault);
                assert(batch_fault_from(old(self).rows@, stories@, requests@, i as int) == if fault
                    is Some {
                    fault
                } else {
                    batch_fault_from(old(self).rows@, stories@, requests@, i + 1)
                });
            }
            match self.create_at(stories, request, Timestamp::now()) {
                Ok(criteria) => {
                    created.push(criteria);
                    proof {
                        use_type_invariant(&*self);
                        assert(self.rows@ =~= old(self).rows@ + created@);
                    }
                },
                Err(e) => {
                    let mut rows = self.take_rows();
                    rows.truncate(start);
                    assert(rows@ =~= old(self).rows@);
                    self.rows = rows;
                    assert(fault == Some(e@));
                    return Err(e);
                },
            }
            i = i + 1;
        }
        Ok(created)
    }
}

/// The table after the first `k` requests of a batch have gone in has an id
/// exactly if the table had it before or one of those requests has it.
pub proof fn lemma_joined_ids(
    rows: Seq<AcceptanceCriteria>,
    created: Seq<AcceptanceCriteria>,
    requests: Seq<CreateAcceptanceCriteriaRequest>,
    k: int,
)
    requires
        0 <= k <= requests.len(),
        created.len() == k,
        forall|j: int| 0 <= j < k ==> (#[trigger] created[j]).id@ == requests[j].id@,
    ensures
        forall|id: Seq<char>|
            has_id(rows + created, id) <==> (has_id(rows, id) || earlier_in_batch(requests, k, id)),
{
    let all = rows + created;
    assert forall|id: Seq<char>|
        has_id(all, id) <==> (has_id(rows, id) || earlier_in_batch(requests, k, id)) by {
        if has_id(all, id) {
            let a = choose|a: int| 0 <= a < all.len() && #[trigger] all[a].key() == id;
            if a < rows.len() {
                assert(rows[a].key() == id);
            } else {
                assert(created[a - rows.len()].id@ == id);
                assert(requests[a - rows.len()].id@ == id);
            }
        }
        if has_id(rows, id) {
            let a = choose|a: int| 0 <= a < rows.len() && #[trigger] rows[a].key() == id;
            assert(all[a].key() == id);
        }
        if earlier_in_batch(requests, k, id) {
            let j = choose|j: int| 0 <= j < k && j < requests.len() && (#[trigger] requests[j]).id@
                == id;
            assert(created[j].id@ == id);
            assert(all[rows.len() + j].key() == id);
        }
    }
}

/// No request from `k` on has a fault exactly if none of them has one.
pub proof fn lemma_batch_fault_from(
    rows: Seq<AcceptanceCriteria>,
    stories: Seq<UserStory>,
    requests: Seq<CreateAcceptanceCriteriaRequest>,
    k: int,
)
    requires
        0 <= k,
    ensures
        batch_fault_from(rows, stories, requests, k) is None <==> forall|j: int|
            k <= j < requests.len() ==> (#[trigger] batch_fault_at(rows, stories, requests, j))
                is None,
    decreases requests.len() - k,
{
    if k < requests.len() {
        lemma_batch_fault_from(rows, stories, requests, k + 1);
        if batch_fault_at(rows, stories, requests, k) is None && batch_fault_from(
            rows,
            stories,
            requests,
            k + 1,
        ) is None {
            assert forall|j: int| k <= j < requests.len() implies (#[trigger] batch_fault_at(
                rows,
                stories,
                requests,
                j,
            )) is None by {
                if j > k {
                    assert(k + 1 <= j);
                }
            }
        }
    }
}

/// A batch goes in exactly if the ids of its requests are new to the table
/// and differ from one another, and the stories that they refer to exist.
pub proof fn lemma_batch_goes_in(
    rows: Seq<AcceptanceCriteria>,
    stories: Seq<UserStory>,
    requests: Seq<CreateAcceptanceCriteriaRequest>,
)
    ensures
        batch_fault(rows, stories, requests) is None <==> {
            &&& forall|k: int|
                0 <= k < requests.len() ==> !has_id(rows, (#[trigger] requests[k]).id@) && has_id(
                    stories,
                    requests[k].user_story_id@,
                )
            &&& forall|a: int, b: int|
                0 <= a < b < requests.len() ==> (#[trigger] requests[a]).id@ != (
                #[trigger] requests[b]).id@
        },
{
    lemma_batch_fault_from(rows, stories, requests, 0);
    if batch_fault(rows, stories, requests) is None {
        assert forall|k: int| 0 <= k < requests.len() implies !has_id(
            rows,
            (#[trigger] requests[k]).id@,
        ) && has_id(stories, requests[k].user_story_id@) by {
            assert(batch_fault_at(rows, stories, requests, k) is None);
        }
        assert forall|a: int, b: int| 0 <= a < b < requests.len() implies (
        #[trigger] requests[a]).id@ != (#[trigger] requests[b]).id@ by {
            assert(batch_fault_at(rows, stories, requests, b) is None);
            if requests[a].id@ == requests[b].id@ {
                assert(earlier_in_batch(requests, b, requests[b].id@));
            }
        }
    } else {
        let j = choose|j: int|
            0 <= j < requests.len() && !((#[trigger] batch_fault_at(rows, stories, requests, j))
                is None);
        if earlier_in_batch(requests, j, requests[j].id@) {
            let a = choose|a: int|
                0 <= a < j && a < requests.len() && (#[trigger] requests[a]).id@
                    == requests[j].id@;
            assert(requests[a].id@ == requests[j].id@);
        }
    }
}

} // verus!
