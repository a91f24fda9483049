//! The table of user stories.

use crate::clock::Timestamp;
use crate::models::{CreateUserStoryRequest, UpdateUserStoryRequest, UserStory};
use crate::repositories::acceptance_criteria_repository::{
    of_other_story, AcceptanceCriteriaRepository,
};
use crate::repositories::table::{
    arrange, arranged, as_count, count_of, find_place, has_id, ids_distinct, lemma_filter_holds,
    lemma_filter_next, lemma_filter_other_than, lemma_insert_keeps_ids_distinct, lemma_place_of,
    lemma_place_of_row, lemma_remove_keeps_ids_distinct, lemma_update_keeps_ids_distinct,
    other_than, page, place_of, row_with_id, take_page, Record,
};
use crate::repositories::{lemma_refers_after_story_deleted, refers_to_stories, StorageError};
use crate::text::{like, make_search_pattern, search_matches, search_pattern};
use vstd::prelude::*;
use vstd::string::*;

verus! {

/// The user stories, in the order in which they were created in the table.
/// No two have the same id.
pub struct UserStoryRepository {
    rows: Vec<UserStory>,
}

impl View for UserStoryRepository {
    type V = Seq<UserStory>;

    closed spec fn view(&self) -> Seq<UserStory> {
        self.rows@
    }
}

/// The story that a request creates at the time `now`.
pub open spec fn new_story(request: CreateUserStoryRequest, now: Timestamp) -> UserStory {
    UserStory {
        id: request.id,
        title: request.title,
        description: request.description,
        persona: request.persona,
        created_at: now,
        updated_at: now,
    }
}

/// The value of a field after an update: the new one if the request gives
/// one, else the one it had.
pub open spec fn or_kept(new: Option<String>, kept: String) -> String {
    match new {
        Some(text) => text,
        None => kept,
    }
}

/// The story that an update at the time `now` makes of `row`.
pub open spec fn revised_story(
    row: UserStory,
    request: UpdateUserStoryRequest,
    now: Timestamp,
) -> UserStory {
    UserStory {
        id: row.id,
        title: or_kept(request.title, row.title),
        description: or_kept(request.description, row.description),
        persona: or_kept(request.persona, row.persona),
        created_at: row.created_at,
        updated_at: now,
    }
}

/// The test of a search: the title, the description or the persona matches the pattern.
pub open spec fn story_like(pattern: Seq<char>) -> spec_fn(UserStory) -> bool {
    |s: UserStory| like(pattern, s.title@) || like(pattern, s.description@) || like(pattern, s.persona@)
}

/// The test that a search for `query` puts to a story.
pub open spec fn story_matches(query: Seq<char>) -> spec_fn(UserStory) -> bool {
    story_like(search_pattern(query))
}

/// The test of a story's persona: it is `persona`, letter for letter.
pub open spec fn has_persona(persona: Seq<char>) -> spec_fn(UserStory) -> bool {
    |s: UserStory| s.persona@ == persona
}

/// The personas of the stories, each once, in the order in which the list first names them.
pub open spec fn personas_of(stories: Seq<UserStory>) -> Seq<Seq<char>>
    decreases stories.len(),
{
    if stories.len() == 0 {
        Seq::empty()
    } else {
        let before = personas_of(stories.drop_last());
        if before.contains(stories.last().persona@) {
            before
        } else {
            before.push(stories.last().persona@)
        }
    }
}

/// The texts of a list of strings.
pub open spec fn texts(keys: Seq<String>) -> Seq<Seq<char>> {
    keys.map_values(|k: String| k@)
}

/// Whether `groups` are the stories of the list by persona: for each persona
/// of the list, in the order in which the list first names it, its stories
/// in the order of the list.
pub open spec fn grouped_by_persona(
    groups: Seq<(String, Vec<UserStory>)>,
    list: Seq<UserStory>,
) -> bool {
    &&& groups.len() == personas_of(list).len()
    &&& forall|g: int|
        0 <= g < groups.len() ==> {
            &&& (#[trigger] groups[g]).0@ == personas_of(list)[g]
            &&& groups[g].1@ == list.filter(has_persona(personas_of(list)[g]))
        }
}

/// Whether `counts` are the numbers of stories of the list by persona: for
/// each persona of the list, in the order in which the list first names it,
/// the number of its stories.
pub open spec fn counted_by_persona(counts: Seq<(String, i64)>, list: Seq<UserStory>) -> bool {
    &&& counts.len() == personas_of(list).len()
    &&& forall|g: int|
        0 <= g < counts.len() ==> {
            &&& (#[trigger] counts[g]).0@ == personas_of(list)[g]
            &&& counts[g].1 == as_count(list.filter(has_persona(personas_of(list)[g])).len())
        }
}

/// No persona is listed twice, and the personas listed are those of the stories.
pub proof fn lemma_personas_of(stories: Seq<UserStory>)
    ensures
        personas_of(stories).no_duplicates(),
        forall|p: Seq<char>|
            personas_of(stories).contains(p) <==> exists|i: int|
                0 <= i < stories.len() && (#[trigger] stories[i]).persona@ == p,
    decreases stories.len(),
{
    let out = personas_of(stories);
    if stories.len() > 0 {
        let head = stories.drop_last();
        let before = personas_of(head);
        let last = stories.last().persona@;
        lemma_personas_of(head);
        assert forall|p: Seq<char>| out.contains(p) <==> exists|i: int|
            0 <= i < stories.len() && (#[trigger] stories[i]).persona@ == p by {
            if out.contains(p) {
                if before.contains(p) {
                    let i = choose|i: int| 0 <= i < head.len() && (#[trigger] head[i]).persona@ == p;
                    assert(stories[i].persona@ == p);
                } else {
                    let k = choose|k: int| 0 <= k < out.len() && out[k] == p;
                    if k < before.len() {
                        assert(before[k] == p);
                    }
                    assert(stories[stories.len() - 1].persona@ == p);
                }
            }
            if exists|i: int| 0 <= i < stories.len() && (#[trigger] stories[i]).persona@ == p {
                let i = choose|i: int| 0 <= i < stories.len() && (#[trigger] stories[i]).persona@ == p;
                if i < head.len() {
                    assert(head[i].persona@ == p);
                    assert(before.contains(p));
                    let k = choose|k: int| 0 <= k < before.len() && before[k] == p;
                    assert(out[k] == p);
                } else if !before.contains(p) {
                    assert(out[out.len() - 1] == p);
                } else {
                    let k = choose|k: int| 0 <= k < before.len() && before[k] == p;
                    assert(out[k] == p);
                }
            }
        }
        if !before.contains(last) {
            assert forall|a: int, b: int|
                0 <= a < out.len() && 0 <= b < out.len() && a != b implies out[a]
                != out[b] by {
                if a < before.len() && b < before.len() {
                    assert(before[a] != before[b]);
                } else if a < before.len() {
                    assert(before.contains(before[a]));
                } else {
                    assert(before.contains(before[b]));
                }
            }
        }
    } else {
        assert forall|p: Seq<char>| !out.contains(p) by {}
    }
}

/// In the stories by persona no persona comes twice, and every persona has a story.
pub proof fn lemma_groups_by_persona(groups: Seq<(String, Vec<UserStory>)>, list: Seq<UserStory>)
    requires
        grouped_by_persona(groups, list),
    ensures
        forall|a: int, b: int|
            0 <= a < groups.len() && 0 <= b < groups.len() && a != b ==> (#[trigger] groups[a]).0@
                != (#[trigger] groups[b]).0@,
        forall|g: int| 0 <= g < groups.len() ==> (#[trigger] groups[g]).1@.len() > 0,
{
    lemma_personas_of(list);
    let personas = personas_of(list);
    assert forall|a: int, b: int|
        0 <= a < groups.len() && 0 <= b < groups.len() && a != b implies (#[trigger] groups[a]).0@
        != (#[trigger] groups[b]).0@ by {
        assert(personas[a] != personas[b]);
    }
    assert forall|g: int| 0 <= g < groups.len() implies (#[trigger] groups[g]).1@.len() > 0 by {
        let p = personas[g];
        assert(personas.contains(p));
        let i = choose|i: int| 0 <= i < list.len() && (#[trigger] list[i]).persona@ == p;
        lemma_filter_holds(list, has_persona(p), list[i]);
        assert(list.contains(list[i]));
        assert(list.filter(has_persona(p)).contains(list[i]));
    }
}

/// The stories of the list with the persona `persona`.
pub fn select_persona(list: &Vec<UserStory>, persona: &String) -> (out: Vec<UserStory>)
    ensures
        out@ == list@.filter(has_persona(persona@)),
{
    let mut out: Vec<UserStory> = Vec::new();
    let mut i: usize = 0;
    assert(list@.take(0).filter(has_persona(persona@)) =~= Seq::<UserStory>::empty()) by {
        reveal(Seq::filter);
    }
    while i < list.len()
        invariant
            i <= list.len(),
            out@ == list@.take(i as int).filter(has_persona(persona@)),
        decreases list.len() - i,
    {
        proof {
            lemma_filter_next(list@, has_persona(persona@), i as int);
        }
        if list[i].persona == *persona {
            out.push(list[i].clone());
        }
        i = i + 1;
    }
    assert(list@.take(list@.len() as int) =~= list@);
    out
}

/// The stories of the list that match the pattern.
pub fn select_like(list: &Vec<UserStory>, pattern: &Vec<char>) -> (out: Vec<UserStory>)
    ensures
        out@ == list@.filter(story_like(pattern@)),
{
    let mut out: Vec<UserStory> = Vec::new();
    let mut i: usize = 0;
    assert(list@.take(0).filter(story_like(pattern@)) =~= Seq::<UserStory>::empty()) by {
        reveal(Seq::filter);
    }
    while i < list.len()
        invariant
            i <= list.len(),
            out@ == list@.take(i as int).filter(story_like(pattern@)),
        decreases list.len() - i,
    {
        proof {
            lemma_filter_next(list@, story_like(pattern@), i as int);
        }
        let story = &list[i];
        if search_matches(pattern, story.title.as_str()) || search_matches(
            pattern,
            story.description.as_str(),
        ) || search_matches(pattern, story.persona.as_str()) {
            out.push(story.clone());
        }
        i = i + 1;
    }
    assert(list@.take(list@.len() as int) =~= list@);
    out
}

/// The personas of the stories, each once, in the order in which the list first names them.
pub fn distinct_personas(list: &Vec<UserStory>) -> (keys: Vec<String>)
    ensures
        texts(keys@) == personas_of(list@),
{
    let mut keys: Vec<String> = Vec::new();
    let mut i: usize = 0;
    assert(texts(keys@) =~= personas_of(list@.take(0)));
    while i < list.len()
        invariant
            i <= list.len(),
            texts(keys@) == personas_of(list@.take(i as int)),
        decreases list.len() - i,
    {
        let persona = &list[i].persona;
        let mut known = false;
        let mut k: usize = 0;
        while k < keys.len() && !known
            invariant
                k <= keys.len(),
                known ==> texts(keys@).contains(persona@),
                !known ==> forall|j: int| 0 <= j < k ==> texts(keys@)[j] != persona@,
            decreases keys.len() - k + if known { 0int } else { 1int },
        {
            if keys[k] == *persona {
                known = true;
                assert(texts(keys@)[k as int] == persona@);
            } else {
                k = k + 1;
            }
        }
        proof {
            assert(list@.take(i + 1).drop_last() =~= list@.take(i as int));
            assert(list@.take(i + 1).last() == list@[i as int]);
        }
        if !known {
            let ghost before = keys@;
            keys.push(persona.clone());
            assert(texts(keys@) =~= texts(before).push(persona@));
        }
        i = i + 1;
    }
    assert(list@.take(list@.len() as int) =~= list@);
    keys
}

impl UserStoryRepository {
    #[verifier::type_invariant]
    pub open spec fn ids_are_distinct(self) -> bool {
        ids_distinct(self@)
    }

    /// Takes the rows out of the table, which is left empty until they are put back.
    fn take_rows(&mut self) -> (rows: Vec<UserStory>)
        ensures
            rows@ == old(self)@,
            final(self)@ == Seq::<UserStory>::empty(),
    {
        let mut rows: Vec<UserStory> = Vec::new();
        core::mem::swap(&mut self.rows, &mut rows);
        rows
    }

    /// An empty table.
    pub fn new() -> (r: Self)
        ensures
            r@ == Seq::<UserStory>::empty(),
    {
        UserStoryRepository { rows: Vec::new() }
    }

    /// The table of the given rows, if no two of them have the same id.
    pub fn from_rows(rows: Vec<UserStory>) -> (r: Option<Self>)
        ensures
            r is Some <==> ids_distinct(rows@),
            r matches Some(table) ==> table@ == rows@,
    {
        let mut i: usize = 0;
        while i < rows.len()
            invariant
                i <= rows.len(),
                forall|a: int, b: int|
                    0 <= a < i && 0 <= b < a ==> (#[trigger] rows@[a]).key() != (
                    #[trigger] rows@[b]).key(),
            decreases rows.len() - i,
        {
            let mut j: usize = 0;
            while j < i
                invariant
                    j <= i < rows.len(),
                    forall|b: int| 0 <= b < j ==> rows@[i as int].key() != (#[trigger] rows@[b]).key(),
                decreases i - j,
            {
                if rows[i].id == rows[j].id {
                    assert(rows@[i as int].key() == rows@[j as int].key());
                    return None;
                }
                j = j + 1;
            }
            i = i + 1;
        }
        assert(ids_distinct(rows@)) by {
            assert forall|a: int, b: int|
                0 <= a < rows@.len() && 0 <= b < rows@.len() && a != b implies (
            #[trigger] rows@[a]).key() != (#[trigger] rows@[b]).key() by {
                if b < a {
                } else {
                    assert(rows@[b].key() != rows@[a].key());
                }
            }
        }
        Some(UserStoryRepository { rows })
    }

    /// The rows of the table, in the order in which they were created in it.
    pub fn rows(&self) -> (r: &Vec<UserStory>)
        ensures
            r@ == self@,
            ids_distinct(self@),
    {
        proof {
            use_type_invariant(self);
        }
        &self.rows
    }

    /// Creates a story with the time of the clock.
    pub fn create(&mut self, request: CreateUserStoryRequest) -> (r: Result<
        UserStory,
        StorageError,
    >)
        ensures
            match r {
                Ok(story) => {
                    &&& !has_id(old(self)@, request.id@)
                    &&& story == new_story(request, story.created_at)
                    &&& final(self)@ == old(self)@.push(story)
                    &&& row_with_id(final(self)@, request.id@) == Some(story)
                },
                Err(e) => {
                    &&& has_id(old(self)@, request.id@)
                    &&& e == (StorageError::UniqueViolation { id: request.id })
                    &&& final(self)@ == old(self)@
                },
            },
    {
        let now = Timestamp::now();
        self.create_at(request, now)
    }

    /// Creates a story at the time `now`: the table gets a new last row with
    /// the fields of the request, unless it has a row with that id already.
    pub fn create_at(&mut self, request: CreateUserStoryRequest, now: Timestamp) -> (r: Result<
        UserStory,
        StorageError,
    >)
        ensures
            match r {
                Ok(story) => {
                    &&& !has_id(old(self)@, request.id@)
                    &&& story == new_story(request, now)
                    &&& final(self)@ == old(self)@.push(story)
                    &&& row_with_id(final(self)@, request.id@) == Some(story)
                },
                Err(e) => {
                    &&& has_id(old(self)@, request.id@)
                    &&& e == (StorageError::UniqueViolation { id: request.id })
                    &&& final(self)@ == old(self)@
                },
            },
    {
        proof {
            use_type_invariant(&*self);
        }
        match find_place(&self.rows, request.id.as_str()) {
            Some(_) => Err(StorageError::UniqueViolation { id: request.id }),
            None => {
                let story = UserStory {
                    id: request.id,
                    title: request.title,
                    description: request.description,
                    persona: request.persona,
                    created_at: now,
                    updated_at: now,
                };
                let copy = story.clone();
                let mut rows = self.take_rows();
                let ghost before = rows@;
                rows.push(story);
                proof {
                    lemma_insert_keeps_ids_distinct(before, before.len() as int, story);
                    assert(before.insert(before.len() as int, story) =~= before.push(story));
                    lemma_place_of_row(before.push(story), before.len() as int);
                }
                self.rows = rows;
                Ok(copy)
            },
        }
    }

    /// The story with the id `id`, if there is one.
    pub fn get_by_id(&self, id: &str) -> (r: Result<Option<UserStory>, StorageError>)
        ensures
            r is Ok,
            r->Ok_0 == row_with_id(self@, id@),
    {
        match find_place(&self.rows, id) {
            Some(i) => Ok(Some(self.rows[i].clone())),
            None => Ok(None),
        }
    }

    /// All stories, the newest first.
    pub fn get_all(&self) -> (r: Result<Vec<UserStory>, StorageError>)
        ensures
            r is Ok,
            r->Ok_0@ == arranged(self@, true),
    {
        Ok(arrange(&self.rows, true))
    }

    /// A page of the stories, the newest first: at most `limit` of them (all
    /// of them for a negative limit), after the first `offset`.
    pub fn get_paginated(&self, limit: i64, offset: i64) -> (r: Result<
        Vec<UserStory>,
        StorageError,
    >)
        ensures
            r is Ok,
            r->Ok_0@ == page(arranged(self@, true), limit, offset),
    {
        let all = arrange(&self.rows, true);
        Ok(take_page(&all, limit, offset))
    }

    /// Updates a story with the time of the clock.
    pub fn update(&mut self, id: &str, request: UpdateUserStoryRequest) -> (r: Result<
        Option<UserStory>,
        StorageError,
    >)
        ensures
            r is Ok,
            match r->Ok_0 {
                Some(story) => {
                    &&& has_id(old(self)@, id@)
                    &&& story == revised_story(
                        old(self)@[place_of(old(self)@, id@)],
                        request,
                        story.updated_at,
                    )
                    &&& final(self)@ == old(self)@.update(place_of(old(self)@, id@), story)
                },
                None => !has_id(old(self)@, id@) && final(self)@ == old(self)@,
            },
    {
        let now = Timestamp::now();
        self.update_at(id, request, now)
    }

    /// Updates the story with the id `id` at the time `now`: the fields that
    /// the request gives replace the story's, the others stay, and `now`
    /// becomes the time of its last update. Without such a story nothing
    /// changes and the result is `None`.
    pub fn update_at(&mut self, id: &str, request: UpdateUserStoryRequest, now: Timestamp) -> (r:
        Result<Option<UserStory>, StorageError>)
        ensures
            r is Ok,
            match r->Ok_0 {
                Some(story) => {
                    &&& has_id(old(self)@, id@)
                    &&& story == revised_story(old(self)@[place_of(old(self)@, id@)], request, now)
                    &&& final(self)@ == old(self)@.update(place_of(old(self)@, id@), story)
                },
                None => !has_id(old(self)@, id@) && final(self)@ == old(self)@,
            },
    {
        proof {
            use_type_invariant(&*self);
        }
        match find_place(&self.rows, id) {
            None => Ok(None),
            Some(i) => {
                let mut rows = self.take_rows();
                let row = &rows[i];
                let story = UserStory {
                    id: row.id.clone(),
                    title: match request.title {
                        Some(text) => text,
                        None => row.title.clone(),
                    },
                    description: match request.description {
                        Some(text) => text,
                        None => row.description.clone(),
                    },
                    persona: match request.persona {
                        Some(text) => text,
                        None => row.persona.clone(),
                    },
                    created_at: row.created_at,
                    updated_at: now,
                };
                let copy = story.clone();
                let ghost before = rows@;
                rows.set(i, story);
                proof {
                    lemma_update_keeps_ids_distinct(before, i as int, story);
                }
                self.rows = rows;
                Ok(Some(copy))
            },
        }
    }

    /// Deletes the story with the id `id`, and with it the acceptance criteria
    /// that refer to it. The result says whether there was such a story.
    pub fn delete(&mut self, criteria: &mut AcceptanceCriteriaRepository, id: &str) -> (r: Result<
        bool,
        StorageError,
    >)
        ensures
            r is Ok,
            r->Ok_0 == has_id(old(self)@, id@),
            final(self)@ == old(self)@.filter(other_than::<UserStory>(id@)),
            refers_to_stories(old(criteria)@, old(self)@) ==> refers_to_stories(
                final(criteria)@,
                final(self)@,
            ),
            final(criteria)@ == if has_id(old(self)@, id@) {
                old(criteria)@.filter(of_other_story(id@))
            } else {
                old(criteria)@
            },
    {
        proof {
            use_type_invariant(&*self);
            lemma_place_of(self.rows@, id@);
            lemma_filter_other_than(self.rows@, id@);
            if refers_to_stories(criteria@, self.rows@) {
                lemma_refers_after_story_deleted(criteria@, self.rows@, id@);
            }
        }
        match find_place(&self.rows, id) {
            None => Ok(false),
            Some(i) => {
                let mut rows = self.take_rows();
                let ghost before = rows@;
                rows.remove(i);
                proof {
                    lemma_remove_keeps_ids_distinct(before, i as int);
                }
                self.rows = rows;
                let _ = criteria.delete_by_user_story_id(id);
                Ok(true)
            },
        }
    }

    /// The stories of which the title, the description or the persona holds
    /// `query`, the newest first. Letters match without regard to case; in the
    /// query `%` stands for any run of characters and `_` for any one.
    pub fn search(&self, query: &str) -> (r: Result<Vec<UserStory>, StorageError>)
        ensures
            r is Ok,
            r->Ok_0@ == arranged(self@.filter(story_matches(query@)), true),
    {
        let pattern = make_search_pattern(query);
        let found = select_like(&self.rows, &pattern);
        Ok(arrange(&found, true))
    }

    /// The stories with exactly the persona `persona`, the newest first.
    pub fn get_by_persona(&self, persona: &str) -> (r: Result<Vec<UserStory>, StorageError>)
        ensures
            r is Ok,
            r->Ok_0@ == arranged(self@.filter(has_persona(persona@)), true),
    {
        let wanted = String::from_str(persona);
        let found = select_persona(&self.rows, &wanted);
        Ok(arrange(&found, true))
    }

    /// The number of stories.
    pub fn count(&self) -> (r: Result<i64, StorageError>)
        ensures
            r is Ok,
            r->Ok_0 == as_count(self@.len()),
    {
        Ok(count_of(self.rows.len()))
    }

    /// The stories by persona: for each persona, in the order in which the
    /// list of all stories (the newest first) first names it, its stories in
    /// the order of that list.
    pub fn get_grouped_by_persona(&self) -> (r: Result<Vec<(String, Vec<UserStory>)>, StorageError>)
        ensures
            r is Ok,
            grouped_by_persona(r->Ok_0@, arranged(self@, true)),
    {
        let all = arrange(&self.rows, true);
        let keys = distinct_personas(&all);
        let mut groups: Vec<(String, Vec<UserStory>)> = Vec::new();
        let mut g: usize = 0;
        while g < keys.len()
            invariant
                g <= keys.len(),
                groups@.len() == g,
                texts(keys@) == personas_of(all@),
                forall|j: int|
                    0 <= j < g ==> {
                        &&& (#[trigger] groups@[j]).0@ == personas_of(all@)[j]
                        &&& groups@[j].1@ == all@.filter(has_persona(personas_of(all@)[j]))
                    },
            decreases keys.len() - g,
        {
            let members = select_persona(&all, &keys[g]);
            assert(texts(keys@)[g as int] == keys@[g as int]@);
            groups.push((keys[g].clone(), members));
            g = g + 1;
        }
        assert(texts(keys@).len() == keys@.len());
        Ok(groups)
    }
}

} // verus!
