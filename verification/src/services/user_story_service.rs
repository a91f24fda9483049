//! The service for user stories.

use crate::models::{
    AcceptanceCriteria, CreateAcceptanceCriteriaRequest, CreateUserStoryRequest,
    UpdateUserStoryRequest, UserStory, UserStoryWithCriteria,
};
use crate::repositories::acceptance_criteria_repository::{
    batch_fault, new_criteria, of_other_story, of_story,
};
use crate::repositories::table::{
    arranged, as_count, count_of, has_id, lemma_arranged, lemma_filter_other_than, lemma_place_of,
    other_than, page, place_of, row_with_id,
};
use crate::repositories::user_story_repository::{
    counted_by_persona, grouped_by_persona, has_persona, new_story, personas_of, revised_story,
    story_matches,
};
use crate::repositories::{
    lemma_refers_after_story_added, lemma_refers_after_story_updated, Repositories, StorageError,
    StorageFault,
};
use crate::services::{average, average_of, first_fault, Ratio};
use crate::text::{blank, is_blank, starts_with};
use vstd::prelude::*;
use vstd::string::*;

verus! {

/// Why the service refused a request.
#[derive(Debug)]
pub enum UserStoryServiceError {
    NotFound { id: String },
    AlreadyExists { id: String },
    Database(StorageError),
    Validation { message: String },
    BusinessRule { message: String },
}

/// A `UserStoryServiceError` by its texts.
pub enum UserStoryServiceFault {
    NotFound { id: Seq<char> },
    AlreadyExists { id: Seq<char> },
    Database(StorageFault),
    Validation { message: Seq<char> },
    BusinessRule { message: Seq<char> },
}

impl View for UserStoryServiceError {
    type V = UserStoryServiceFault;

    open spec fn view(&self) -> UserStoryServiceFault {
        match self {
            UserStoryServiceError::NotFound { id } => UserStoryServiceFault::NotFound { id: id@ },
            UserStoryServiceError::AlreadyExists { id } => UserStoryServiceFault::AlreadyExists {
                id: id@,
            },
            UserStoryServiceError::Database(e) => UserStoryServiceFault::Database(e@),
            UserStoryServiceError::Validation { message } => UserStoryServiceFault::Validation {
                message: message@,
            },
            UserStoryServiceError::BusinessRule { message } => UserStoryServiceFault::BusinessRule {
                message: message@,
            },
        }
    }
}

impl UserStoryServiceFault {
    /// The message of the fault.
    pub open spec fn message(self) -> Seq<char> {
        match self {
            UserStoryServiceFault::NotFound { id } => "User story not found: "@ + id,
            UserStoryServiceFault::AlreadyExists { id } => "User story already exists: "@ + id,
            UserStoryServiceFault::Database(fault) => "Database error: "@ + fault.message(),
            UserStoryServiceFault::Validation { message } => "Validation error: "@ + message,
            UserStoryServiceFault::BusinessRule { message } => "Business rule violation: "@
                + message,
        }
    }
}

impl UserStoryServiceError {
    /// The message of the error.
    pub fn to_string(&self) -> (s: String)
        ensures
            s@ == self@.message(),
    {
        match self {
            UserStoryServiceError::NotFound { id } => String::from_str(
                "User story not found: ",
            ).concat(id.as_str()),
            UserStoryServiceError::AlreadyExists { id } => String::from_str(
                "User story already exists: ",
            ).concat(id.as_str()),
            UserStoryServiceError::Database(e) => String::from_str("Database error: ").concat(
                e.to_string().as_str(),
            ),
            UserStoryServiceError::Validation { message } => String::from_str(
                "Validation error: ",
            ).concat(message.as_str()),
            UserStoryServiceError::BusinessRule { message } => String::from_str(
                "Business rule violation: ",
            ).concat(message.as_str()),
        }
    }
}

/// The longest title, in characters.
pub const MAX_TITLE_LENGTH: usize = 200;

/// The longest description of a user story, in characters.
pub const MAX_DESCRIPTION_LENGTH: usize = 2000;

/// The fewest and the most stories on a page.
pub const MIN_PAGE_LIMIT: i64 = 1;

pub const MAX_PAGE_LIMIT: i64 = 100;

/// What is wrong with a request to create a story, if anything: the first
/// rule that it breaks, by its message.
pub open spec fn create_request_fault(request: CreateUserStoryRequest) -> Option<Seq<char>> {
    if is_blank(request.id@) {
        Some("User story ID cannot be empty"@)
    } else if is_blank(request.title@) {
        Some("User story title cannot be empty"@)
    } else if is_blank(request.description@) {
        Some("User story description cannot be empty"@)
    } else if is_blank(request.persona@) {
        Some("User story persona cannot be empty"@)
    } else if !"US-"@.is_prefix_of(request.id@) {
        Some("User story ID should start with 'US-'"@)
    } else if request.title@.len() > MAX_TITLE_LENGTH {
        Some("User story title cannot exceed 200 characters"@)
    } else if request.description@.len() > MAX_DESCRIPTION_LENGTH {
        Some("User story description cannot exceed 2000 characters"@)
    } else {
        None
    }
}

/// What is wrong with a new title, if anything.
pub open spec fn title_fault(title: Option<String>) -> Option<Seq<char>> {
    match title {
        Some(text) => if is_blank(text@) {
            Some("User story title cannot be empty"@)
        } else if text@.len() > MAX_TITLE_LENGTH {
            Some("User story title cannot exceed 200 characters"@)
        } else {
            None
        },
        None => None,
    }
}

/// What is wrong with a new description, if anything.
pub open spec fn description_fault(description: Option<String>) -> Option<Seq<char>> {
    match description {
        Some(text) => if is_blank(text@) {
            Some("User story description cannot be empty"@)
        } else if text@.len() > MAX_DESCRIPTION_LENGTH {
            Some("User story description cannot exceed 2000 characters"@)
        } else {
            None
        },
        None => None,
    }
}

/// What is wrong with a new persona, if anything.
pub open spec fn persona_fault(persona: Option<String>) -> Option<Seq<char>> {
    match persona {
        Some(text) => if is_blank(text@) {
            Some("User story persona cannot be empty"@)
        } else {
            None
        },
        None => None,
    }
}

/// What is wrong with a request to update a story, if anything: the first
/// fault among those of the title, the description and the persona.
pub open spec fn update_request_fault(request: UpdateUserStoryRequest) -> Option<Seq<char>> {
    if title_fault(request.title) is Some {
        title_fault(request.title)
    } else if description_fault(request.description) is Some {
        description_fault(request.description)
    } else {
        persona_fault(request.persona)
    }
}

/// The message for a criteria that names another story than the one to be created.
pub open spec fn foreign_criteria_message(criteria_id: Seq<char>, story_id: Seq<char>) -> Seq<
    char,
> {
    "Acceptance criteria "@ + criteria_id + " does not belong to user story "@ + story_id
}

/// What is wrong with request `k` for a criteria of the story `story_id`, if anything.
pub open spec fn foreign_criteria_fault(
    requests: Seq<CreateAcceptanceCriteriaRequest>,
    story_id: Seq<char>,
) -> spec_fn(int) -> Option<Seq<char>> {
    |k: int|
        if requests[k].user_story_id@ != story_id {
            Some(foreign_criteria_message(requests[k].id@, story_id))
        } else {
            None
        }
}

/// Why a story is not created, if it is not: the request breaks a rule, or a
/// story with its id exists.
pub open spec fn create_fault(
    stories: Seq<UserStory>,
    request: CreateUserStoryRequest,
) -> Option<UserStoryServiceFault> {
    if create_request_fault(request) is Some {
        Some(UserStoryServiceFault::Validation { message: create_request_fault(request)->0 })
    } else if has_id(stories, request.id@) {
        Some(UserStoryServiceFault::AlreadyExists { id: request.id@ })
    } else {
        None
    }
}

/// Why nothing is created of a story with criteria, if nothing is: the
/// story's request breaks a rule, a criteria names another story, or a story
/// with the id exists.
pub open spec fn create_with_criteria_fault(
    stories: Seq<UserStory>,
    request: CreateUserStoryRequest,
    criteria: Seq<CreateAcceptanceCriteriaRequest>,
) -> Option<UserStoryServiceFault> {
    if create_request_fault(request) is Some {
        Some(UserStoryServiceFault::Validation { message: create_request_fault(request)->0 })
    } else if first_fault(foreign_criteria_fault(criteria, request.id@), criteria.len() as int, 0)
        is Some {
        Some(
            UserStoryServiceFault::Validation {
                message: first_fault(
                    foreign_criteria_fault(criteria, request.id@),
                    criteria.len() as int,
                    0,
                )->0,
            },
        )
    } else if has_id(stories, request.id@) {
        Some(UserStoryServiceFault::AlreadyExists { id: request.id@ })
    } else {
        None
    }
}

/// Whether `stats` are the figures of the tables: the numbers of stories and
/// of criteria, the number of personas that have a story, the average of
/// criteria per story, and the numbers of stories by persona.
pub open spec fn statistics_of(
    stats: UserStoryStatistics,
    stories: Seq<UserStory>,
    criteria: Seq<AcceptanceCriteria>,
) -> bool {
    &&& stats.total_stories == as_count(stories.len())
    &&& stats.total_criteria == as_count(criteria.len())
    &&& stats.personas_count == as_count(personas_of(arranged(stories, true)).len())
    &&& stats.avg_criteria_per_story == average_of(stats.total_criteria, stats.total_stories)
    &&& counted_by_persona(stats.stories_by_persona@, arranged(stories, true))
}

/// What is wrong with the bounds of a page, if anything.
pub open spec fn page_fault(limit: i64, offset: i64) -> Option<Seq<char>> {
    if limit < MIN_PAGE_LIMIT || limit > MAX_PAGE_LIMIT {
        Some("Limit must be between 1 and 100"@)
    } else if offset < 0 {
        Some("Offset must be non-negative"@)
    } else {
        None
    }
}

/// Why a story is not updated, if it is not: the request breaks a rule, or
/// there is no story with the id.
pub open spec fn update_fault(
    stories: Seq<UserStory>,
    id: Seq<char>,
    request: UpdateUserStoryRequest,
) -> Option<UserStoryServiceFault> {
    if update_request_fault(request) is Some {
        Some(UserStoryServiceFault::Validation { message: update_request_fault(request)->0 })
    } else if !has_id(stories, id) {
        Some(UserStoryServiceFault::NotFound { id })
    } else {
        None
    }
}

fn validation_error(message: &str) -> (e: UserStoryServiceError)
    ensures
        e@ == (UserStoryServiceFault::Validation { message: message@ }),
{
    UserStoryServiceError::Validation { message: String::from_str(message) }
}

/// The service for user stories, over the tables that it holds.
pub struct UserStoryService {
    pub repositories: Repositories,
}

impl UserStoryService {
    pub fn new(repositories: Repositories) -> (r: Self)
        ensures
            r.repositories == repositories,
    {
        UserStoryService { repositories }
    }

    /// Creates a story: the request must keep the rules, and its id must be new.
    pub fn create(&mut self, request: CreateUserStoryRequest) -> (r: Result<
        UserStory,
        UserStoryServiceError,
    >)
        ensures
            old(self).repositories.referentially_intact() ==> final(self).repositories
                .referentially_intact(),
            final(self).repositories.acceptance_criteria@ == old(
                self,
            ).repositories.acceptance_criteria@,
            match r {
                Ok(story) => {
                    &&& create_fault(old(self).repositories.user_stories@, request) is None
                    &&& story == new_story(request, story.created_at)
                    &&& row_with_id(final(self).repositories.user_stories@, request.id@) == Some(
                        story,
                    )
                    &&& final(self).repositories.user_stories@ == old(
                        self,
                    ).repositories.user_stories@.push(story)
                },
                Err(e) => {
                    &&& create_fault(old(self).repositories.user_stories@, request) == Some(e@)
                    &&& final(self).repositories.user_stories@ == old(
                        self,
                    ).repositories.user_stories@
                },
            },
    {
        match self.validate_create_request(&request) {
            Err(e) => {
                return Err(e);
            },
            Ok(()) => {},
        }
        match self.repositories.user_stories.get_by_id(request.id.as_str()) {
            Err(e) => {
                return Err(UserStoryServiceError::Database(e));
            },
            Ok(Some(_)) => {
                return Err(UserStoryServiceError::AlreadyExists { id: request.id.clone() });
            },
            Ok(None) => {},
        }
        let ghost stories = self.repositories.user_stories@;
        match self.repositories.user_stories.create(request) {
            Ok(story) => {
                proof {
                    if old(self).repositories.referentially_intact() {
                        lemma_refers_after_story_added(
                            self.repositories.acceptance_criteria@,
                            stories,
                            story,
                        );
                    }
                }
                Ok(story)
            },
            Err(e) => Err(UserStoryServiceError::Database(e)),
        }
    }

    /// Creates a story and its criteria. Nothing is created if the story's
    /// request breaks a rule, if one of the criteria names another story, or
    /// if the story exists. After that the story is created; if the tables
    /// then refuse the criteria, the story stays, without any of them.
    pub fn create_with_criteria(
        &mut self,
        user_story_request: CreateUserStoryRequest,
        criteria_requests: Vec<CreateAcceptanceCriteriaRequest>,
    ) -> (r: Result<UserStoryWithCriteria, UserStoryServiceError>)
        ensures
            old(self).repositories.referentially_intact() ==> final(self).repositories
                .referentially_intact(),
            match r {
                Ok(created) => {
                    &&& create_with_criteria_fault(
                        old(self).repositories.user_stories@,
                        user_story_request,
                        criteria_requests@,
                    ) is None
                    &&& created.user_story == new_story(
                        user_story_request,
                        created.user_story.created_at,
                    )
                    &&& final(self).repositories.user_stories@ == old(
                        self,
                    ).repositories.user_stories@.push(created.user_story)
                    &&& created.acceptance_criteria@.len() == criteria_requests@.len()
                    &&& forall|k: int|
                        0 <= k < criteria_requests@.len()
                            ==> #[trigger] created.acceptance_criteria@[k] == new_criteria(
                            criteria_requests@[k],
                            created.acceptance_criteria@[k].created_at,
                        )
                    &&& final(self).repositories.acceptance_criteria@ == old(
                        self,
                    ).repositories.acceptance_criteria@ + created.acceptance_criteria@
                },
                Err(e) => {
                    &&& final(self).repositories.acceptance_criteria@ == old(
                        self,
                    ).repositories.acceptance_criteria@
                    &&& match create_with_criteria_fault(
                        old(self).repositories.user_stories@,
                        user_story_request,
                        criteria_requests@,
                    ) {
                        Some(fault) => {
                            &&& e@ == fault
                            &&& final(self).repositories.user_stories@ == old(
                                self,
                            ).repositories.user_stories@
                        },
                        None => {
                            &&& criteria_requests@.len() > 0
                            &&& final(self).repositories.user_stories@.len() == old(
                                self,
                            ).repositories.user_stories@.len() + 1
                            &&& final(self).repositories.user_stories@.drop_last() == old(
                                self,
                            ).repositories.user_stories@
                            &&& final(self).repositories.user_stories@.last() == new_story(
                                user_story_request,
                                final(self).repositories.user_stories@.last().created_at,
                            )
                            &&& batch_fault(
                                old(self).repositories.acceptance_criteria@,
                                final(self).repositories.user_stories@,
                                criteria_requests@,
                            ) == Some(e->Database_0@)
                            &&& e is Database
                        },
                    }
                },
            },
    {
        match self.validate_create_request(&user_story_request) {
            Err(e) => {
                return Err(e);
            },
            Ok(()) => {},
        }
        let ghost foreign = foreign_criteria_fault(criteria_requests@, user_story_request.id@);
        let mut i: usize = 0;
        while i < criteria_requests.len()
            invariant
                i <= criteria_requests.len(),
                *self == *old(self),
                create_request_fault(user_story_request) is None,
                foreign == foreign_criteria_fault(criteria_requests@, user_story_request.id@),
                first_fault(foreign, criteria_requests@.len() as int, 0) == first_fault(
                    foreign,
                    criteria_requests@.len() as int,
                    i as int,
                ),
            decreases criteria_requests.len() - i,
        {
            let criteria = &criteria_requests[i];
            if criteria.user_story_id != user_story_request.id {
                let message = String::from_str("Acceptance criteria ").concat(
                    criteria.id.as_str(),
                ).concat(" does not belong to user story ").concat(user_story_request.id.as_str());
                assert(message@ =~= foreign_criteria_message(
                    criteria.id@,
                    user_story_request.id@,
                ));
                assert(foreign(i as int) == Some(message@));
                return Err(UserStoryServiceError::Validation { message });
            }
            i = i + 1;
        }
        match self.repositories.user_stories.get_by_id(user_story_request.id.as_str()) {
            Err(e) => {
                return Err(UserStoryServiceError::Database(e));
            },
            Ok(Some(_)) => {
                return Err(
                    UserStoryServiceError::AlreadyExists { id: user_story_request.id.clone() },
                );
            },
            Ok(None) => {},
        }
        let ghost stories = self.repositories.user_stories@;
        let user_story = match self.repositories.user_stories.create(user_story_request) {
            Ok(story) => story,
            Err(e) => {
                return Err(UserStoryServiceError::Database(e));
            },
        };
        proof {
            if old(self).repositories.referentially_intact() {
                lemma_refers_after_story_added(
                    self.repositories.acceptance_criteria@,
                    stories,
                    user_story,
                );
            }
        }
        assert(self.repositories.user_stories@.drop_last() =~= old(
            self,
        ).repositories.user_stories@);
        let acceptance_criteria = if criteria_requests.len() > 0 {
            match self.repositories.acceptance_criteria.create_batch(
                &self.repositories.user_stories,
                criteria_requests,
            ) {
                Ok(created) => created,
                Err(e) => {
                    return Err(UserStoryServiceError::Database(e));
                },
            }
        } else {
            Vec::new()
        };
        assert(old(self).repositories.acceptance_criteria@ + acceptance_criteria@
            =~= self.repositories.acceptance_criteria@);
        Ok(UserStoryWithCriteria { user_story, acceptance_criteria })
    }

    /// The story with the id `id`.
    pub fn get_by_id(&self, id: &str) -> (r: Result<UserStory, UserStoryServiceError>)
        ensures
            match r {
                Ok(story) => row_with_id(self.repositories.user_stories@, id@) == Some(story),
                Err(e) => {
                    &&& row_with_id(self.repositories.user_stories@, id@) is None
                    &&& e@ == (UserStoryServiceFault::NotFound { id: id@ })
                },
            },
    {
        match self.repositories.user_stories.get_by_id(id) {
            Err(e) => Err(UserStoryServiceError::Database(e)),
            Ok(Some(story)) => Ok(story),
            Ok(None) => Err(UserStoryServiceError::NotFound { id: String::from_str(id) }),
        }
    }

    /// The story with the id `id`, with its criteria, the oldest first.
    pub fn get_with_criteria(&self, id: &str) -> (r: Result<
        UserStoryWithCriteria,
        UserStoryServiceError,
    >)
        ensures
            match r {
                Ok(found) => {
                    &&& row_with_id(self.repositories.user_stories@, id@) == Some(found.user_story)
                    &&& found.acceptance_criteria@ == arranged(
                        self.repositories.acceptance_criteria@.filter(of_story(id@)),
                        false,
                    )
                },
                Err(e) => {
                    &&& row_with_id(self.repositories.user_stories@, id@) is None
                    &&& e@ == (UserStoryServiceFault::NotFound { id: id@ })
                },
            },
    {
        let user_story = match self.get_by_id(id) {
            Ok(story) => story,
            Err(e) => {
                return Err(e);
            },
        };
        match self.repositories.acceptance_criteria.get_by_user_story_id(id) {
            Ok(acceptance_criteria) => Ok(UserStoryWithCriteria { user_story, acceptance_criteria }),
            Err(e) => Err(UserStoryServiceError::Database(e)),
        }
    }

    /// All stories, the newest first.
    pub fn get_all(&self) -> (r: Result<Vec<UserStory>, UserStoryServiceError>)
        ensures
            r is Ok,
            r->Ok_0@ == arranged(self.repositories.user_stories@, true),
    {
        match self.repositories.user_stories.get_all() {
            Ok(stories) => Ok(stories),
            Err(e) => Err(UserStoryServiceError::Database(e)),
        }
    }

    /// All stories, the newest first, each with its criteria, the oldest first.
    pub fn get_all_with_criteria(&self) -> (r: Result<
        Vec<UserStoryWithCriteria>,
        UserStoryServiceError,
    >)
        ensures
            r is Ok,
            r->Ok_0@.len() == self.repositories.user_stories@.len(),
            forall|k: int|
                0 <= k < r->Ok_0@.len() ==> {
                    &&& (#[trigger] r->Ok_0@[k]).user_story == arranged(
                        self.repositories.user_stories@,
                        true,
                    )[k]
                    &&& r->Ok_0@[k].acceptance_criteria@ == arranged(
                        self.repositories.acceptance_criteria@.filter(
                            of_story(r->Ok_0@[k].user_story.id@),
                        ),
                        false,
                    )
                },
    {
        let user_stories = match self.repositories.user_stories.get_all() {
            Ok(stories) => stories,
            Err(e) => {
                return Err(UserStoryServiceError::Database(e));
            },
        };
        proof {
            lemma_arranged(self.repositories.user_stories@, true);
        }
        let mut result: Vec<UserStoryWithCriteria> = Vec::new();
        let mut i: usize = 0;
        while i < user_stories.len()
            invariant
                i <= user_stories.len(),
                result@.len() == i,
                user_stories@ == arranged(self.repositories.user_stories@, true),
                forall|k: int|
                    0 <= k < i ==> {
                        &&& (#[trigger] result@[k]).user_story == user_stories@[k]
                        &&& result@[k].acceptance_criteria@ == arranged(
                            self.repositories.acceptance_criteria@.filter(
                                of_story(result@[k].user_story.id@),
                            ),
                            false,
                        )
                    },
            decreases user_stories.len() - i,
        {
            let user_story = user_stories[i].clone();
            let acceptance_criteria =
                match self.repositories.acceptance_criteria.get_by_user_story_id(
                user_story.id.as_str(),
            ) {
                Ok(criteria) => criteria,
                Err(e) => {
                    return Err(UserStoryServiceError::Database(e));
                },
            };
            result.push(UserStoryWithCriteria { user_story, acceptance_criteria });
            i = i + 1;
        }
        Ok(result)
    }

    /// A page of the stories, the newest first: `limit` of them, from 1 to
    /// 100, after the first `offset`, which is not negative.
    pub fn get_paginated(&self, limit: i64, offset: i64) -> (r: Result<
        Vec<UserStory>,
        UserStoryServiceError,
    >)
        ensures
            match r {
                Ok(stories) => {
                    &&& page_fault(limit, offset) is None
                    &&& stories@ == page(arranged(self.repositories.user_stories@, true), limit, offset)
                },
                Err(e) => page_fault(limit, offset) == Some(e->Validation_message@)
                    && e is Validation,
            },
    {
        if limit < MIN_PAGE_LIMIT || limit > MAX_PAGE_LIMIT {
            return Err(validation_error("Limit must be between 1 and 100"));
        }
        if offset < 0 {
            return Err(validation_error("Offset must be non-negative"));
        }
        match self.repositories.user_stories.get_paginated(limit, offset) {
            Ok(stories) => Ok(stories),
            Err(e) => Err(UserStoryServiceError::Database(e)),
        }
    }

    /// Updates the story with the id `id`: the fields that the request gives
    /// must keep the rules and replace the story's; the others stay.
    pub fn update(&mut self, id: &str, request: UpdateUserStoryRequest) -> (r: Result<
        UserStory,
        UserStoryServiceError,
    >)
        ensures
            old(self).repositories.referentially_intact() ==> final(self).repositories
                .referentially_intact(),
            final(self).repositories.acceptance_criteria@ == old(
                self,
            ).repositories.acceptance_criteria@,
            match r {
                Ok(story) => {
                    &&& update_fault(old(self).repositories.user_stories@, id@, request) is None
                    &&& story == revised_story(
                        old(self).repositories.user_stories@[place_of(
                            old(self).repositories.user_stories@,
                            id@,
                        )],
                        request,
                        story.updated_at,
                    )
                    &&& final(self).repositories.user_stories@ == old(
                        self,
                    ).repositories.user_stories@.update(
                        place_of(old(self).repositories.user_stories@, id@),
                        story,
                    )
                },
                Err(e) => {
                    &&& update_fault(old(self).repositories.user_stories@, id@, request) == Some(e@)
                    &&& final(self).repositories.user_stories@ == old(
                        self,
                    ).repositories.user_stories@
                },
            },
    {
        match self.validate_update_request(&request) {
            Err(e) => {
                return Err(e);
            },
            Ok(()) => {},
        }
        let ghost stories = self.repositories.user_stories@;
        match self.repositories.user_stories.update(id, request) {
            Err(e) => Err(UserStoryServiceError::Database(e)),
            Ok(Some(story)) => {
                proof {
                    lemma_place_of(stories, id@);
                    if old(self).repositories.referentially_intact() {
                        lemma_refers_after_story_updated(
                            self.repositories.acceptance_criteria@,
                            stories,
                            place_of(stories, id@),
                            story,
                        );
                    }
                }
                Ok(story)
            },
            Ok(None) => Err(UserStoryServiceError::NotFound { id: String::from_str(id) }),
        }
    }

    /// Deletes the story with the id `id`, and its criteria with it.
    pub fn delete(&mut self, id: &str) -> (r: Result<(), UserStoryServiceError>)
        ensures
            old(self).repositories.referentially_intact() ==> final(self).repositories
                .referentially_intact(),
            final(self).repositories.user_stories@ == old(self).repositories.user_stories@.filter(
                other_than::<UserStory>(id@),
            ),
            match r {
                Ok(()) => {
                    &&& has_id(old(self).repositories.user_stories@, id@)
                    &&& final(self).repositories.acceptance_criteria@ == old(
                        self,
                    ).repositories.acceptance_criteria@.filter(of_other_story(id@))
                },
                Err(e) => {
                    &&& !has_id(old(self).repositories.user_stories@, id@)
                    &&& e@ == (UserStoryServiceFault::NotFound { id: id@ })
                    &&& final(self).repositories.user_stories@ == old(
                        self,
                    ).repositories.user_stories@
                    &&& final(self).repositories.acceptance_criteria@ == old(
                        self,
                    ).repositories.acceptance_criteria@
                },
            },
    {
        proof {
            use_type_invariant(&self.repositories.user_stories);
            lemma_filter_other_than(self.repositories.user_stories@, id@);
        }
        match self.repositories.user_stories.delete(
            &mut self.repositories.acceptance_criteria,
            id,
        ) {
            Err(e) => Err(UserStoryServiceError::Database(e)),
            Ok(true) => Ok(()),
            Ok(false) => Err(UserStoryServiceError::NotFound { id: String::from_str(id) }),
        }
    }

    /// The stories of which the title, the description or the persona holds
    /// `query`, the newest first. The query must not be blank.
    pub fn search(&self, query: &str) -> (r: Result<Vec<UserStory>, UserStoryServiceError>)
        ensures
            match r {
                Ok(stories) => {
                    &&& !is_blank(query@)
                    &&& stories@ == arranged(
                        self.repositories.user_stories@.filter(story_matches(query@)),
                        true,
                    )
                },
                Err(e) => {
                    &&& is_blank(query@)
                    &&& e@ == (UserStoryServiceFault::Validation {
                        message: "Search query cannot be empty"@,
                    })
                },
            },
    {
        if blank(query) {
            return Err(validation_error("Search query cannot be empty"));
        }
        match self.repositories.user_stories.search(query) {
            Ok(stories) => Ok(stories),
            Err(e) => Err(UserStoryServiceError::Database(e)),
        }
    }

    /// The stories with exactly the persona `persona`, the newest first. The
    /// persona must not be blank.
    pub fn get_by_persona(&self, persona: &str) -> (r: Result<
        Vec<UserStory>,
        UserStoryServiceError,
    >)
        ensures
            match r {
                Ok(stories) => {
                    &&& !is_blank(persona@)
                    &&& stories@ == arranged(
                        self.repositories.user_stories@.filter(has_persona(persona@)),
                        true,
                    )
                },
                Err(e) => {
                    &&& is_blank(persona@)
                    &&& e@ == (UserStoryServiceFault::Validation {
                        message: "Persona cannot be empty"@,
                    })
                },
            },
    {
        if blank(persona) {
            return Err(validation_error("Persona cannot be empty"));
        }
        match self.repositories.user_stories.get_by_persona(persona) {
            Ok(stories) => Ok(stories),
            Err(e) => Err(UserStoryServiceError::Database(e)),
        }
    }

    /// The stories by persona: for each persona, in the order in which the
    /// list of all stories (the newest first) first names it, its stories in
    /// the order of that list.
    pub fn get_grouped_by_persona(&self) -> (r: Result<
        Vec<(String, Vec<UserStory>)>,
        UserStoryServiceError,
    >)
        ensures
            r is Ok,
            grouped_by_persona(r->Ok_0@, arranged(self.repositories.user_stories@, true)),
    {
        match self.repositories.user_stories.get_grouped_by_persona() {
            Ok(groups) => Ok(groups),
            Err(e) => Err(UserStoryServiceError::Database(e)),
        }
    }

    /// The figures of the stories: the numbers of stories, of criteria and of
    /// personas, the criteria per story on average (0 without a story), and
    /// for each persona the number of its stories.
    pub fn get_statistics(&self) -> (r: Result<UserStoryStatistics, UserStoryServiceError>)
        ensures
            r is Ok,
            statistics_of(
                r->Ok_0,
                self.repositories.user_stories@,
                self.repositories.acceptance_criteria@,
            ),
    {
        let total_stories = match self.repositories.user_stories.count() {
            Ok(n) => n,
            Err(e) => {
                return Err(UserStoryServiceError::Database(e));
            },
        };
        let total_criteria = match self.repositories.acceptance_criteria.count() {
            Ok(n) => n,
            Err(e) => {
                return Err(UserStoryServiceError::Database(e));
            },
        };
        let grouped_by_persona = match self.get_grouped_by_persona() {
            Ok(groups) => groups,
            Err(e) => {
                return Err(e);
            },
        };
        let personas_count = count_of(grouped_by_persona.len());
        let avg_criteria_per_story = average(total_criteria, total_stories);
        let mut stories_by_persona: Vec<(String, i64)> = Vec::new();
        let mut g: usize = 0;
        while g < grouped_by_persona.len()
            invariant
                g <= grouped_by_persona.len(),
                stories_by_persona@.len() == g,
                forall|k: int|
                    0 <= k < g ==> {
                        &&& (#[trigger] stories_by_persona@[k]).0@ == grouped_by_persona@[k].0@
                        &&& stories_by_persona@[k].1 == as_count(grouped_by_persona@[k].1@.len())
                    },
            decreases grouped_by_persona.len() - g,
        {
            let group = &grouped_by_persona[g];
            stories_by_persona.push((group.0.clone(), count_of(group.1.len())));
            g = g + 1;
        }
        Ok(
            UserStoryStatistics {
                total_stories,
                total_criteria,
                personas_count,
                avg_criteria_per_story,
                stories_by_persona,
            },
        )
    }

    /// Holds a request to create a story to the rules: no field is blank, the
    /// id starts with `US-`, the title has at most 200 characters and the
    /// description at most 2000.
    pub fn validate_create_request(&self, request: &CreateUserStoryRequest) -> (r: Result<
        (),
        UserStoryServiceError,
    >)
        ensures
            match r {
                Ok(()) => create_request_fault(*request) is None,
                Err(e) => create_request_fault(*request) == Some(e->Validation_message@)
                    && e is Validation,
            },
    {
        if blank(request.id.as_str()) {
            return Err(validation_error("User story ID cannot be empty"));
        }
        if blank(request.title.as_str()) {
            return Err(validation_error("User story title cannot be empty"));
        }
        if blank(request.description.as_str()) {
            return Err(validation_error("User story description cannot be empty"));
        }
        if blank(request.persona.as_str()) {
            return Err(validation_error("User story persona cannot be empty"));
        }
        if !starts_with(request.id.as_str(), "US-") {
            return Err(validation_error("User story ID should start with 'US-'"));
        }
        if request.title.as_str().unicode_len() > MAX_TITLE_LENGTH {
            return Err(validation_error("User story title cannot exceed 200 characters"));
        }
        if request.description.as_str().unicode_len() > MAX_DESCRIPTION_LENGTH {
            return Err(validation_error("User story description cannot exceed 2000 characters"));
        }
        Ok(())
    }

    /// Holds a request to update a story to the rules: a field that it gives
    /// is not blank, a title has at most 200 characters and a description at
    /// most 2000.
    pub fn validate_update_request(&self, request: &UpdateUserStoryRequest) -> (r: Result<
        (),
        UserStoryServiceError,
    >)
        ensures
            match r {
                Ok(()) => update_request_fault(*request) is None,
                Err(e) => update_request_fault(*request) == Some(e->Validation_message@)
                    && e is Validation,
            },
    {
        match &request.title {
            Some(title) => {
                if blank(title.as_str()) {
                    return Err(validation_error("User story title cannot be empty"));
                }
                if title.as_str().unicode_len() > MAX_TITLE_LENGTH {
                    return Err(validation_error("User story title cannot exceed 200 characters"));
                }
            },
            None => {},
        }
        match &request.description {
            Some(description) => {
                if blank(description.as_str()) {
                    return Err(validation_error("User story description cannot be empty"));
                }
                if description.as_str().unicode_len() > MAX_DESCRIPTION_LENGTH {
                    return Err(
                        validation_error("User story description cannot exceed 2000 characters"),
                    );
                }
            },
            None => {},
        }
        match &request.persona {
            Some(persona) => {
                if blank(persona.as_str()) {
                    return Err(validation_error("User story persona cannot be empty"));
                }
            },
            None => {},
        }
        Ok(())
    }
}

/// The figures of the user stories: how many stories and criteria there
/// are, how many personas have a story, the criteria per story on average,
/// and for each persona the number of its stories.
#[derive(Debug)]
pub struct UserStoryStatistics {
    pub total_stories: i64,
    pub total_criteria: i64,
    pub personas_count: i64,
    pub avg_criteria_per_story: Ratio,
    pub stories_by_persona: Vec<(String, i64)>,
}

} // verus!
