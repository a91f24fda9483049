//! The two tables and what can be asked of them.

pub mod table;
pub mod user_story_repository;
pub mod acceptance_criteria_repository;

pub use acceptance_criteria_repository::AcceptanceCriteriaRepository;
pub use user_story_repository::UserStoryRepository;

use crate::models::{AcceptanceCriteria, UserStory};
use crate::repositories::table::{has_id, Record};
use vstd::prelude::*;
use vstd::string::*;

verus! {

/// Why a table refused a row.
#[derive(Debug)]
pub enum StorageError {
    /// The table already holds a row with this id.
    UniqueViolation { id: String },
    /// No user story has the id that the row refers to.
    ForeignKeyViolation { user_story_id: String },
}

/// A `StorageError` by its texts.
pub enum StorageFault {
    UniqueViolation { id: Seq<char> },
    ForeignKeyViolation { user_story_id: Seq<char> },
}

impl View for StorageError {
    type V = StorageFault;

    open spec fn view(&self) -> StorageFault {
        match self {
            StorageError::UniqueViolation { id } => StorageFault::UniqueViolation { id: id@ },
            StorageError::ForeignKeyViolation { user_story_id } => StorageFault::ForeignKeyViolation {
                user_story_id: user_story_id@,
            },
        }
    }
}

impl StorageFault {
    /// The message of the fault.
    pub open spec fn message(self) -> Seq<char> {
        match self {
            StorageFault::UniqueViolation { id } => "UNIQUE constraint failed: "@ + id,
            StorageFault::ForeignKeyViolation { user_story_id } => "FOREIGN KEY constraint failed: "@
                + user_story_id,
        }
    }
}

impl StorageError {
    /// The message of the error.
    pub fn to_string(&self) -> (s: String)
        ensures
            s@ == self@.message(),
    {
        match self {
            StorageError::UniqueViolation { id } => String::from_str(
                "UNIQUE constraint failed: ",
            ).concat(id.as_str()),
            StorageError::ForeignKeyViolation { user_story_id } => String::from_str(
                "FOREIGN KEY constraint failed: ",
            ).concat(user_story_id.as_str()),
        }
    }
}

/// Both tables.
pub struct Repositories {
    pub user_stories: UserStoryRepository,
    pub acceptance_criteria: AcceptanceCriteriaRepository,
}

impl Repositories {
    /// Two empty tables.
    pub fn new() -> (r: Self)
        ensures
            r.user_stories@ == Seq::<UserStory>::empty(),
            r.acceptance_criteria@ == Seq::<AcceptanceCriteria>::empty(),
    {
        Repositories {
            user_stories: UserStoryRepository::new(),
            acceptance_criteria: AcceptanceCriteriaRepository::new(),
        }
    }

    /// Every acceptance criteria refers to a user story that the tables hold.
    pub open spec fn referentially_intact(&self) -> bool {
        refers_to_stories(self.acceptance_criteria@, self.user_stories@)
    }

    /// Both tables, if every one of the criteria refers to one of the stories.
    pub fn from_tables(
        user_stories: UserStoryRepository,
        acceptance_criteria: AcceptanceCriteriaRepository,
    ) -> (r: Option<Self>)
        ensures
            r is Some <==> refers_to_stories(acceptance_criteria@, user_stories@),
            r matches Some(tables) ==> tables.user_stories == user_stories
                && tables.acceptance_criteria == acceptance_criteria,
    {
        let tables = Repositories { user_stories, acceptance_criteria };
        if tables.is_referentially_intact() {
            Some(tables)
        } else {
            None
        }
    }

    /// Whether every acceptance criteria refers to a user story that the tables hold.
    pub fn is_referentially_intact(&self) -> (r: bool)
        ensures
            r == self.referentially_intact(),
    {
        let criteria = self.acceptance_criteria.rows();
        let stories = self.user_stories.rows();
        let mut i: usize = 0;
        while i < criteria.len()
            invariant
                i <= criteria.len(),
                criteria@ == self.acceptance_criteria@,
                stories@ == self.user_stories@,
                forall|k: int| 0 <= k < i ==> has_id(stories@, (#[trigger] criteria@[k]).user_story_id@),
            decreases criteria.len() - i,
        {
            if table::find_place(stories, criteria[i].user_story_id.as_str()).is_none() {
                return false;
            }
            i = i + 1;
        }
        true
    }
}

/// Every one of the criteria refers to one of the stories.
pub open spec fn refers_to_stories(
    criteria: Seq<AcceptanceCriteria>,
    stories: Seq<UserStory>,
) -> bool {
    forall|i: int|
        0 <= i < criteria.len() ==> has_id(stories, (#[trigger] criteria[i]).user_story_id@)
}

/// A story more leaves every criteria with its story.
pub proof fn lemma_refers_after_story_added(
    criteria: Seq<AcceptanceCriteria>,
    stories: Seq<UserStory>,
    story: UserStory,
)
    requires
        refers_to_stories(criteria, stories),
    ensures
        refers_to_stories(criteria, stories.push(story)),
{
    let after = stories.push(story);
    assert forall|i: int| 0 <= i < criteria.len() implies has_id(
        after,
        (#[trigger] criteria[i]).user_story_id@,
    ) by {
        let id = criteria[i].user_story_id@;
        let k = choose|k: int| 0 <= k < stories.len() && #[trigger] stories[k].key() == id;
        assert(after[k].key() == id);
    }
}

/// A story replaced by one with its id leaves every criteria with its story.
pub proof fn lemma_refers_after_story_updated(
    criteria: Seq<AcceptanceCriteria>,
    stories: Seq<UserStory>,
    place: int,
    story: UserStory,
)
    requires
        refers_to_stories(criteria, stories),
        0 <= place < stories.len(),
        story.id@ == stories[place].id@,
    ensures
        refers_to_stories(criteria, stories.update(place, story)),
{
    let after = stories.update(place, story);
    assert forall|i: int| 0 <= i < criteria.len() implies has_id(
        after,
        (#[trigger] criteria[i]).user_story_id@,
    ) by {
        let id = criteria[i].user_story_id@;
        let k = choose|k: int| 0 <= k < stories.len() && #[trigger] stories[k].key() == id;
        assert(after[k].key() == id);
    }
}

/// A story deleted together with its criteria leaves every other criteria with its story.
pub proof fn lemma_refers_after_story_deleted(
    criteria: Seq<AcceptanceCriteria>,
    stories: Seq<UserStory>,
    id: Seq<char>,
)
    requires
        refers_to_stories(criteria, stories),
    ensures
        refers_to_stories(
            criteria.filter(acceptance_criteria_repository::of_other_story(id)),
            stories.filter(table::other_than::<UserStory>(id)),
        ),
{
    let kept = criteria.filter(acceptance_criteria_repository::of_other_story(id));
    let left = stories.filter(table::other_than::<UserStory>(id));
    broadcast use vstd::seq_lib::group_filter_ensures;

    assert forall|i: int| 0 <= i < kept.len() implies has_id(
        left,
        (#[trigger] kept[i]).user_story_id@,
    ) by {
        let c = kept[i];
        table::lemma_filter_holds(
            criteria,
            acceptance_criteria_repository::of_other_story(id),
            c,
        );
        assert(kept.contains(c));
        let j = choose|j: int| 0 <= j < criteria.len() && criteria[j] == c;
        assert(has_id(stories, criteria[j].user_story_id@));
        let k = choose|k: int|
            0 <= k < stories.len() && #[trigger] stories[k].key() == c.user_story_id@;
        table::lemma_filter_holds(stories, table::other_than::<UserStory>(id), stories[k]);
        assert(stories.contains(stories[k]));
        assert(left.contains(stories[k]));
        let m = choose|m: int| 0 <= m < left.len() && left[m] == stories[k];
        assert(left[m].key() == c.user_story_id@);
    }
}

/// Criteria that come to the table with their stories there leave every criteria with its story.
pub proof fn lemma_refers_after_criteria_added(
    criteria: Seq<AcceptanceCriteria>,
    stories: Seq<UserStory>,
    added: Seq<AcceptanceCriteria>,
)
    requires
        refers_to_stories(criteria, stories),
        refers_to_stories(added, stories),
    ensures
        refers_to_stories(criteria + added, stories),
{
    let after = criteria + added;
    assert forall|i: int| 0 <= i < after.len() implies has_id(
        stories,
        (#[trigger] after[i]).user_story_id@,
    ) by {
        if i < criteria.len() {
            assert(after[i] == criteria[i]);
        } else {
            assert(after[i] == added[i - criteria.len()]);
        }
    }
}

/// A criteria replaced by one of the same story leaves every criteria with its story.
pub proof fn lemma_refers_after_criteria_updated(
    criteria: Seq<AcceptanceCriteria>,
    stories: Seq<UserStory>,
    place: int,
    revised: AcceptanceCriteria,
)
    requires
        refers_to_stories(criteria, stories),
        0 <= place < criteria.len(),
        revised.user_story_id@ == criteria[place].user_story_id@,
    ensures
        refers_to_stories(criteria.update(place, revised), stories),
{
    let after = criteria.update(place, revised);
    assert forall|i: int| 0 <= i < after.len() implies has_id(
        stories,
        (#[trigger] after[i]).user_story_id@,
    ) by {
        if i != place {
            assert(after[i] == criteria[i]);
        } else {
            assert(has_id(stories, criteria[place].user_story_id@));
        }
    }
}

/// Fewer criteria leave every criteria with its story.
pub proof fn lemma_refers_of_fewer_criteria(
    criteria: Seq<AcceptanceCriteria>,
    stories: Seq<UserStory>,
    pred: spec_fn(AcceptanceCriteria) -> bool,
)
    requires
        refers_to_stories(criteria, stories),
    ensures
        refers_to_stories(criteria.filter(pred), stories),
{
    let kept = criteria.filter(pred);
    assert forall|i: int| 0 <= i < kept.len() implies has_id(
        stories,
        (#[trigger] kept[i]).user_story_id@,
    ) by {
        table::lemma_filter_holds(criteria, pred, kept[i]);
        assert(kept.contains(kept[i]));
        let j = choose|j: int| 0 <= j < criteria.len() && criteria[j] == kept[i];
        assert(has_id(stories, criteria[j].user_story_id@));
    }
}

} // verus!
