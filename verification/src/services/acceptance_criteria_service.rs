//! The service for acceptance criteria.

use crate::models::{
    AcceptanceCriteria, CreateAcceptanceCriteriaRequest, UpdateAcceptanceCriteriaRequest, UserStory,
};
use crate::repositories::acceptance_criteria_repository::{
    batch_fault, criteria_matches, new_criteria, of_other_story, of_story, revised_criteria,
};
use crate::repositories::table::{
    arranged, as_count, has_id, lemma_arranged, lemma_arranged_ids_distinct,
    lemma_filter_other_than, lemma_place_of, other_than, place_of, row_with_id, Record,
};
use crate::repositories::{
    lemma_refers_after_criteria_updated, lemma_refers_of_fewer_criteria, Repositories,
    StorageError, StorageFault,
};
use crate::services::{average, average_of, first_fault, Ratio};
use crate::text::{blank, is_blank, signed_decimal, signed_decimal_text, starts_with};
use vstd::prelude::*;
use vstd::string::*;

verus! {

/// Why the service refused a request.
#[derive(Debug)]
pub enum AcceptanceCriteriaServiceError {
    NotFound { id: String },
    AlreadyExists { id: String },
    UserStoryNotFound { user_story_id: String },
    Database(StorageError),
    Validation { message: String },
    BusinessRule { message: String },
}

/// An `AcceptanceCriteriaServiceError` by its texts.
pub enum AcceptanceCriteriaServiceFault {
    NotFound { id: Seq<char> },
    AlreadyExists { id: Seq<char> },
    UserStoryNotFound { user_story_id: Seq<char> },
    Database(StorageFault),
    Validation { message: Seq<char> },
    BusinessRule { message: Seq<char> },
}

impl View for AcceptanceCriteriaServiceError {
    type V = AcceptanceCriteriaServiceFault;

    open spec fn view(&self) -> AcceptanceCriteriaServiceFault {
        match self {
            AcceptanceCriteriaServiceError::NotFound { id } => {
                AcceptanceCriteriaServiceFault::NotFound { id: id@ }
            },
            AcceptanceCriteriaServiceError::AlreadyExists { id } => {
                AcceptanceCriteriaServiceFault::AlreadyExists { id: id@ }
            },
            AcceptanceCriteriaServiceError::UserStoryNotFound { user_story_id } => {
                AcceptanceCriteriaServiceFault::UserStoryNotFound { user_story_id: user_story_id@ }
            },
            AcceptanceCriteriaServiceError::Database(e) => {
                AcceptanceCriteriaServiceFault::Database(e@)
            },
            AcceptanceCriteriaServiceError::Validation { message } => {
                AcceptanceCriteriaServiceFault::Validation { message: message@ }
            },
            AcceptanceCriteriaServiceError::BusinessRule { message } => {
                AcceptanceCriteriaServiceFault::BusinessRule { message: message@ }
            },
        }
    }
}

impl AcceptanceCriteriaServiceFault {
    /// The message of the fault.
    pub open spec fn message(self) -> Seq<char> {
        match self {
            AcceptanceCriteriaServiceFault::NotFound { id } => "Acceptance criteria not found: "@
                + id,
            AcceptanceCriteriaServiceFault::AlreadyExists { id } => {
                "Acceptance criteria already exists: "@ + id
            },
            AcceptanceCriteriaServiceFault::UserStoryNotFound { user_story_id } => {
                "User story not found: "@ + user_story_id
            },
            AcceptanceCriteriaServiceFault::Database(fault) => "Database error: "@
                + fault.message(),
            AcceptanceCriteriaServiceFault::Validation { message } => "Validation error: "@
                + message,
            AcceptanceCriteriaServiceFault::BusinessRule { message } => {
                "Business rule violation: "@ + message
            },
        }
    }
}

impl AcceptanceCriteriaServiceError {
    /// The message of the error.
    pub fn to_string(&self) -> (s: String)
        ensures
            s@ == self@.message(),
    {
        match self {
            AcceptanceCriteriaServiceError::NotFound { id } => String::from_str(
                "Acceptance criteria not found: ",
            ).concat(id.as_str()),
            AcceptanceCriteriaServiceError::AlreadyExists { id } => String::from_str(
                "Acceptance criteria already exists: ",
            ).concat(id.as_str()),
            AcceptanceCriteriaServiceError::UserStoryNotFound { user_story_id } => String::from_str(
                "User story not found: ",
            ).concat(user_story_id.as_str()),
            AcceptanceCriteriaServiceError::Database(e) => String::from_str(
                "Database error: ",
            ).concat(e.to_string().as_str()),
            AcceptanceCriteriaServiceError::Validation { message } => String::from_str(
                "Validation error: ",
            ).concat(message.as_str()),
            AcceptanceCriteriaServiceError::BusinessRule { message } => String::from_str(
                "Business rule violation: ",
            ).concat(message.as_str()),
        }
    }
}

/// The longest description of a criteria, in characters.
pub const MAX_CRITERIA_DESCRIPTION_LENGTH: usize = 1000;

/// The most criteria that a story can have when one more is asked for.
pub const MAX_CRITERIA_PER_STORY: i64 = 20;

/// What is wrong with the texts of a request to create a criteria, if
/// anything: the first rule that it breaks, by its message.
pub open spec fn create_request_fault(request: CreateAcceptanceCriteriaRequest) -> Option<
    Seq<char>,
> {
    if is_blank(request.id@) {
        Some("Acceptance criteria ID cannot be empty"@)
    } else if is_blank(request.user_story_id@) {
        Some("User story ID cannot be empty"@)
    } else if is_blank(request.description@) {
        Some("Acceptance criteria description cannot be empty"@)
    } else if !"AC-"@.is_prefix_of(request.id@) {
        Some("Acceptance criteria ID should start with 'AC-'"@)
    } else if !"US-"@.is_prefix_of(request.user_story_id@) {
        Some("User story ID should start with 'US-'"@)
    } else if request.description@.len() > MAX_CRITERIA_DESCRIPTION_LENGTH {
        Some("Acceptance criteria description cannot exceed 1000 characters"@)
    } else {
        None
    }
}

/// What is wrong with a request to update a criteria, if anything.
pub open spec fn update_request_fault(request: UpdateAcceptanceCriteriaRequest) -> Option<
    Seq<char>,
> {
    match request.description {
        Some(text) => if is_blank(text@) {
            Some("Acceptance criteria description cannot be empty"@)
        } else if text@.len() > MAX_CRITERIA_DESCRIPTION_LENGTH {
            Some("Acceptance criteria description cannot exceed 1000 characters"@)
        } else {
            None
        },
        None => None,
    }
}

/// The number of criteria that the story with the id `user_story_id` has, as the table reports it.
pub open spec fn criteria_count(criteria: Seq<AcceptanceCriteria>, user_story_id: Seq<char>) -> i64 {
    as_count(criteria.filter(of_story(user_story_id)).len())
}

/// The message for a story that has all the criteria it can have.
pub open spec fn cap_message(user_story_id: Seq<char>, count: i64) -> Seq<char> {
    "User story "@ + user_story_id + " already has "@ + signed_decimal(count as int)
        + " acceptance criteria. Maximum allowed is 20."@
}

/// Why a request to create a criteria is not valid, if it is not: its texts
/// break a rule, or else its story has 20 criteria or more already.
pub open spec fn validation_fault(
    criteria: Seq<AcceptanceCriteria>,
    request: CreateAcceptanceCriteriaRequest,
) -> Option<AcceptanceCriteriaServiceFault> {
    if create_request_fault(request) is Some {
        Some(
            AcceptanceCriteriaServiceFault::Validation { message: create_request_fault(request)->0 },
        )
    } else if criteria_count(criteria, request.user_story_id@) >= MAX_CRITERIA_PER_STORY {
        Some(
            AcceptanceCriteriaServiceFault::BusinessRule {
                message: cap_message(
                    request.user_story_id@,
                    criteria_count(criteria, request.user_story_id@),
                ),
            },
        )
    } else {
        None
    }
}

/// Why a criteria is not created, if it is not: the request is not valid, a
/// criteria with its id exists, or its story does not exist.
pub open spec fn create_fault(
    criteria: Seq<AcceptanceCriteria>,
    stories: Seq<UserStory>,
    request: CreateAcceptanceCriteriaRequest,
) -> Option<AcceptanceCriteriaServiceFault> {
    if validation_fault(criteria, request) is Some {
        validation_fault(criteria, request)
    } else if has_id(criteria, request.id@) {
        Some(AcceptanceCriteriaServiceFault::AlreadyExists { id: request.id@ })
    } else if !has_id(stories, request.user_story_id@) {
        Some(
            AcceptanceCriteriaServiceFault::UserStoryNotFound {
                user_story_id: request.user_story_id@,
            },
        )
    } else {
        None
    }
}

/// For each request of a batch, why it is not valid, if it is not.
pub open spec fn validation_faults(
    criteria: Seq<AcceptanceCriteria>,
    requests: Seq<CreateAcceptanceCriteriaRequest>,
) -> spec_fn(int) -> Option<AcceptanceCriteriaServiceFault> {
    |k: int| validation_fault(criteria, requests[k])
}

/// For each request of a batch, the fault that a criteria with its id exists, if one does.
pub open spec fn existing_faults(
    criteria: Seq<AcceptanceCriteria>,
    requests: Seq<CreateAcceptanceCriteriaRequest>,
) -> spec_fn(int) -> Option<AcceptanceCriteriaServiceFault> {
    |k: int|
        if has_id(criteria, requests[k].id@) {
            Some(AcceptanceCriteriaServiceFault::AlreadyExists { id: requests[k].id@ })
        } else {
            None
        }
}

/// For each request of a batch, the fault that its story does not exist, if it does not.
pub open spec fn missing_story_faults(
    stories: Seq<UserStory>,
    requests: Seq<CreateAcceptanceCriteriaRequest>,
) -> spec_fn(int) -> Option<AcceptanceCriteriaServiceFault> {
    |k: int|
        if !has_id(stories, requests[k].user_story_id@) {
            Some(
                AcceptanceCriteriaServiceFault::UserStoryNotFound {
                    user_story_id: requests[k].user_story_id@,
                },
            )
        } else {
            None
        }
}

/// Why none of a batch is created, if none is. The batch is empty; or, going
/// through the requests in their order each time, one is not valid; or the id
/// of one exists; or the story of one does not exist; or else the table
/// refuses one, which it does where two requests of the batch have one id.
pub open spec fn create_batch_fault(
    criteria: Seq<AcceptanceCriteria>,
    stories: Seq<UserStory>,
    requests: Seq<CreateAcceptanceCriteriaRequest>,
) -> Option<AcceptanceCriteriaServiceFault> {
    let n = requests.len() as int;
    if n == 0 {
        Some(
            AcceptanceCriteriaServiceFault::Validation {
                message: "Cannot create empty batch of acceptance criteria"@,
            },
        )
    } else if first_fault(validation_faults(criteria, requests), n, 0) is Some {
        first_fault(validation_faults(criteria, requests), n, 0)
    } else if first_fault(existing_faults(criteria, requests), n, 0) is Some {
        first_fault(existing_faults(criteria, requests), n, 0)
    } else if first_fault(missing_story_faults(stories, requests), n, 0) is Some {
        first_fault(missing_story_faults(stories, requests), n, 0)
    } else {
        match batch_fault(criteria, stories, requests) {
            Some(fault) => Some(AcceptanceCriteriaServiceFault::Database(fault)),
            None => None,
        }
    }
}

/// Why a criteria is not updated, if it is not: the request breaks a rule, or
/// there is no criteria with the id.
pub open spec fn update_fault(
    criteria: Seq<AcceptanceCriteria>,
    id: Seq<char>,
    request: UpdateAcceptanceCriteriaRequest,
) -> Option<AcceptanceCriteriaServiceFault> {
    if update_request_fault(request) is Some {
        Some(
            AcceptanceCriteriaServiceFault::Validation { message: update_request_fault(request)->0 },
        )
    } else if !has_id(criteria, id) {
        Some(AcceptanceCriteriaServiceFault::NotFound { id })
    } else {
        None
    }
}

fn validation_error(message: &str) -> (e: AcceptanceCriteriaServiceError)
    ensures
        e@ == (AcceptanceCriteriaServiceFault::Validation { message: message@ }),
{
    AcceptanceCriteriaServiceError::Validation { message: String::from_str(message) }
}

fn story_not_found(user_story_id: &str) -> (e: AcceptanceCriteriaServiceError)
    ensures
        e@ == (AcceptanceCriteriaServiceFault::UserStoryNotFound { user_story_id: user_story_id@ }),
{
    AcceptanceCriteriaServiceError::UserStoryNotFound {
        user_story_id: String::from_str(user_story_id),
    }
}

/// The figures of the acceptance criteria: how many criteria and stories
/// there are, the criteria per story on average, and for each story, by its
/// id, the number of its criteria.
#[derive(Debug)]
pub struct AcceptanceCriteriaStatistics {
    pub total_criteria: i64,
    pub total_stories: i64,
    pub avg_criteria_per_story: Ratio,
    pub criteria_distribution: Vec<(String, i64)>,
}

/// The service for acceptance criteria, over the tables that it holds.
pub struct AcceptanceCriteriaService {
    pub repositories: Repositories,
}

impl AcceptanceCriteriaService {
    pub fn new(repositories: Repositories) -> (r: Self)
        ensures
            r.repositories == repositories,
    {
        AcceptanceCriteriaService { repositories }
    }

    /// Creates a criteria: the request must be valid, its id new, and its story there.
    pub fn create(&mut self, request: CreateAcceptanceCriteriaRequest) -> (r: Result<
        AcceptanceCriteria,
        AcceptanceCriteriaServiceError,
    >)
        ensures
            old(self).repositories.referentially_intact() ==> final(self).repositories
                .referentially_intact(),
            final(self).repositories.user_stories@ == old(self).repositories.user_stories@,
            match r {
                Ok(criteria) => {
                    &&& create_fault(
                        old(self).repositories.acceptance_criteria@,
                        old(self).repositories.user_stories@,
                        request,
                    ) is None
                    &&& criteria == new_criteria(request, criteria.created_at)
                    &&& row_with_id(final(self).repositories.acceptance_criteria@, request.id@)
                        == Some(criteria)
                    &&& final(self).repositories.acceptance_criteria@ == old(
                        self,
                    ).repositories.acceptance_criteria@.push(criteria)
                },
                Err(e) => {
                    &&& create_fault(
                        old(self).repositories.acceptance_criteria@,
                        old(self).repositories.user_stories@,
                        request,
                    ) == Some(e@)
                    &&& final(self).repositories.acceptance_criteria@ == old(
                        self,
                    ).repositories.acceptance_criteria@
                },
            },
    {
        match self.validate_create_request(&request) {
            Err(e) => {
                return Err(e);
            },
            Ok(()) => {},
        }
        match self.repositories.acceptance_criteria.get_by_id(request.id.as_str()) {
            Err(e) => {
                return Err(AcceptanceCriteriaServiceError::Database(e));
            },
            Ok(Some(_)) => {
                return Err(AcceptanceCriteriaServiceError::AlreadyExists { id: request.id.clone() });
            },
            Ok(None) => {},
        }
        match self.repositories.user_stories.get_by_id(request.user_story_id.as_str()) {
            Err(e) => {
                return Err(AcceptanceCriteriaServiceError::Database(e));
            },
            Ok(None) => {
                return Err(
                    AcceptanceCriteriaServiceError::UserStoryNotFound {
                        user_story_id: request.user_story_id.clone(),
                    },
                );
            },
            Ok(Some(_)) => {},
        }
        match self.repositories.acceptance_criteria.create(
            &self.repositories.user_stories,
            request,
        ) {
            Ok(criteria) => Ok(criteria),
            Err(e) => Err(AcceptanceCriteriaServiceError::Database(e)),
        }
    }

    /// Creates the criteria of all the requests, or none of them.
    pub fn create_batch(&mut self, requests: Vec<CreateAcceptanceCriteriaRequest>) -> (r: Result<
        Vec<AcceptanceCriteria>,
        AcceptanceCriteriaServiceError,
    >)
        ensures
            old(self).repositories.referentially_intact() ==> final(self).repositories
                .referentially_intact(),
            final(self).repositories.user_stories@ == old(self).repositories.user_stories@,
            match r {
                Ok(created) => {
                    &&& create_batch_fault(
                        old(self).repositories.acceptance_criteria@,
                        old(self).repositories.user_stories@,
                        requests@,
                    ) is None
                    &&& created@.len() == requests@.len()
                    &&& forall|k: int|
                        0 <= k < created@.len() ==> #[trigger] created@[k] == new_criteria(
                            requests@[k],
                            created@[k].created_at,
                        )
                    &&& final(self).repositories.acceptance_criteria@ == old(
                        self,
                    ).repositories.acceptance_criteria@ + created@
                },
                Err(e) => {
                    &&& create_batch_fault(
                        old(self).repositories.acceptance_criteria@,
                        old(self).repositories.user_stories@,
                        requests@,
                    ) == Some(e@)
                    &&& final(self).repositories.acceptance_criteria@ == old(
                        self,
                    ).repositories.acceptance_criteria@
                },
            },
    {
        if requests.len() == 0 {
            return Err(validation_error("Cannot create empty batch of acceptance criteria"));
        }
        let ghost criteria = self.repositories.acceptance_criteria@;
        let ghost stories = self.repositories.user_stories@;
        let ghost n = requests@.len() as int;
        let ghost invalid = validation_faults(criteria, requests@);
        let mut i: usize = 0;
        while i < requests.len()
            invariant
                i <= requests.len(),
                *self == *old(self),
                criteria == self.repositories.acceptance_criteria@,
                n == requests@.len(),
                invalid == validation_faults(criteria, requests@),
                first_fault(invalid, n, 0) == first_fault(invalid, n, i as int),
            decreases requests.len() - i,
        {
            match self.validate_create_request(&requests[i]) {
                Err(e) => {
                    assert(invalid(i as int) == Some(e@));
                    return Err(e);
                },
                Ok(()) => {
                    assert(invalid(i as int) is None);
                },
            }
            i = i + 1;
        }
        let ghost existing = existing_faults(criteria, requests@);
        let mut i: usize = 0;
        while i < requests.len()
            invariant
                i <= requests.len(),
                *self == *old(self),
                criteria == self.repositories.acceptance_criteria@,
                n == requests@.len(),
                n > 0,
                first_fault(validation_faults(criteria, requests@), n, 0) is None,
                existing == existing_faults(criteria, requests@),
                first_fault(existing, n, 0) == first_fault(existing, n, i as int),
            decreases requests.len() - i,
        {
            match self.repositories.acceptance_criteria.get_by_id(requests[i].id.as_str()) {
                Err(e) => {
                    return Err(AcceptanceCriteriaServiceError::Database(e));
                },
                Ok(Some(_)) => {
                    let e = AcceptanceCriteriaServiceError::AlreadyExists {
                        id: requests[i].id.clone(),
                    };
                    assert(existing(i as int) == Some(e@));
                    return Err(e);
                },
                Ok(None) => {
                    assert(existing(i as int) is None);
                },
            }
            i = i + 1;
        }
        let ghost missing = missing_story_faults(stories, requests@);
        let mut i: usize = 0;
        while i < requests.len()
            invariant
                i <= requests.len(),
                *self == *old(self),
                criteria == self.repositories.acceptance_criteria@,
                stories == self.repositories.user_stories@,
                n == requests@.len(),
                n > 0,
                first_fault(validation_faults(criteria, requests@), n, 0) is None,
                first_fault(existing_faults(criteria, requests@), n, 0) is None,
                missing == missing_story_faults(stories, requests@),
                first_fault(missing, n, 0) == first_fault(missing, n, i as int),
                forall|j: int| 0 <= j < i ==> has_id(stories, (#[trigger] requests@[j]).user_story_id@),
            decreases requests.len() - i,
        {
            // A story that an earlier request named has been looked up already.
            let mut seen = false;
            let mut j: usize = 0;
            while j < i && !seen
                invariant
                    j <= i < requests.len(),
                    seen ==> has_id(stories, requests@[i as int].user_story_id@),
                    forall|j: int|
                        0 <= j < i ==> has_id(stories, (#[trigger] requests@[j]).user_story_id@),
                decreases i - j + if seen { 0int } else { 1int },
            {
                if requests[j].user_story_id == requests[i].user_story_id {
                    assert(has_id(stories, requests@[j as int].user_story_id@));
                    seen = true;
                } else {
                    j = j + 1;
                }
            }
            if !seen {
                match self.repositories.user_stories.get_by_id(requests[i].user_story_id.as_str()) {
                    Err(e) => {
                        return Err(AcceptanceCriteriaServiceError::Database(e));
                    },
                    Ok(None) => {
                        let e = AcceptanceCriteriaServiceError::UserStoryNotFound {
                            user_story_id: requests[i].user_story_id.clone(),
                        };
                        assert(missing(i as int) == Some(e@));
                        return Err(e);
                    },
                    Ok(Some(_)) => {},
                }
            }
            assert(missing(i as int) is None);
            i = i + 1;
        }
        match self.repositories.acceptance_criteria.create_batch(
            &self.repositories.user_stories,
            requests,
        ) {
            Ok(created) => Ok(created),
            Err(e) => Err(AcceptanceCriteriaServiceError::Database(e)),
        }
    }

    /// The criteria with the id `id`.
    pub fn get_by_id(&self, id: &str) -> (r: Result<
        AcceptanceCriteria,
        AcceptanceCriteriaServiceError,
    >)
        ensures
            match r {
                Ok(criteria) => row_with_id(self.repositories.acceptance_criteria@, id@) == Some(
                    criteria,
                ),
                Err(e) => {
                    &&& row_with_id(self.repositories.acceptance_criteria@, id@) is None
                    &&& e@ == (AcceptanceCriteriaServiceFault::NotFound { id: id@ })
                },
            },
    {
        match self.repositories.acceptance_criteria.get_by_id(id) {
            Err(e) => Err(AcceptanceCriteriaServiceError::Database(e)),
            Ok(Some(criteria)) => Ok(criteria),
            Ok(None) => Err(AcceptanceCriteriaServiceError::NotFound { id: String::from_str(id) }),
        }
    }

    /// The criteria of the story with the id `user_story_id`, the oldest
    /// first. The story must exist.
    pub fn get_by_user_story_id(&self, user_story_id: &str) -> (r: Result<
        Vec<AcceptanceCriteria>,
        AcceptanceCriteriaServiceError,
    >)
        ensures
            match r {
                Ok(criteria) => {
                    &&& has_id(self.repositories.user_stories@, user_story_id@)
                    &&& criteria@ == arranged(
                        self.repositories.acceptance_criteria@.filter(of_story(user_story_id@)),
                        false,
                    )
                },
                Err(e) => {
                    &&& !has_id(self.repositories.user_stories@, user_story_id@)
                    &&& e@ == (AcceptanceCriteriaServiceFault::UserStoryNotFound {
                        user_story_id: user_story_id@,
                    })
                },
            },
    {
        match self.repositories.user_stories.get_by_id(user_story_id) {
            Err(e) => {
                return Err(AcceptanceCriteriaServiceError::Database(e));
            },
            Ok(None) => {
                return Err(story_not_found(user_story_id));
            },
            Ok(Some(_)) => {},
        }
        match self.repositories.acceptance_criteria.get_by_user_story_id(user_story_id) {
            Ok(criteria) => Ok(criteria),
            Err(e) => Err(AcceptanceCriteriaServiceError::Database(e)),
        }
    }

    /// All criteria, the newest first.
    pub fn get_all(&self) -> (r: Result<Vec<AcceptanceCriteria>, AcceptanceCriteriaServiceError>)
        ensures
            r is Ok,
            r->Ok_0@ == arranged(self.repositories.acceptance_criteria@, true),
    {
        match self.repositories.acceptance_criteria.get_all() {
            Ok(criteria) => Ok(criteria),
            Err(e) => Err(AcceptanceCriteriaServiceError::Database(e)),
        }
    }

    /// Updates the criteria with the id `id`: a description that the request
    /// gives must keep the rules and replaces the criteria's.
    pub fn update(&mut self, id: &str, request: UpdateAcceptanceCriteriaRequest) -> (r: Result<
        AcceptanceCriteria,
        AcceptanceCriteriaServiceError,
    >)
        ensures
            old(self).repositories.referentially_intact() ==> final(self).repositories
                .referentially_intact(),
            final(self).repositories.user_stories@ == old(self).repositories.user_stories@,
            match r {
                Ok(criteria) => {
                    &&& update_fault(old(self).repositories.acceptance_criteria@, id@, request)
                        is None
                    &&& criteria == revised_criteria(
                        old(self).repositories.acceptance_criteria@[place_of(
                            old(self).repositories.acceptance_criteria@,
                            id@,
                        )],
                        request,
                        criteria.updated_at,
                    )
                    &&& final(self).repositories.acceptance_criteria@ == old(
                        self,
                    ).repositories.acceptance_criteria@.update(
                        place_of(old(self).repositories.acceptance_criteria@, id@),
                        criteria,
                    )
                },
                Err(e) => {
                    &&& update_fault(old(self).repositories.acceptance_criteria@, id@, request)
                        == Some(e@)
                    &&& final(self).repositories.acceptance_criteria@ == old(
                        self,
                    ).repositories.acceptance_criteria@
                },
            },
    {
        match self.validate_update_request(&request) {
            Err(e) => {
                return Err(e);
            },
            Ok(()) => {},
        }
        let ghost before = self.repositories.acceptance_criteria@;
        match self.repositories.acceptance_criteria.update(id, request) {
            Err(e) => Err(AcceptanceCriteriaServiceError::Database(e)),
            Ok(Some(criteria)) => {
                proof {
                    lemma_place_of(before, id@);
                    if old(self).repositories.referentially_intact() {
                        lemma_refers_after_criteria_updated(
                            before,
                            self.repositories.user_stories@,
                            place_of(before, id@),
                            criteria,
                        );
                    }
                }
                Ok(criteria)
            },
            Ok(None) => Err(AcceptanceCriteriaServiceError::NotFound { id: String::from_str(id) }),
        }
    }

    /// Deletes the criteria with the id `id`.
    pub fn delete(&mut self, id: &str) -> (r: Result<(), AcceptanceCriteriaServiceError>)
        ensures
            old(self).repositories.referentially_intact() ==> final(self).repositories
                .referentially_intact(),
            final(self).repositories.user_stories@ == old(self).repositories.user_stories@,
            final(self).repositories.acceptance_criteria@ == old(
                self,
            ).repositories.acceptance_criteria@.filter(other_than::<AcceptanceCriteria>(id@)),
            match r {
                Ok(()) => has_id(old(self).repositories.acceptance_criteria@, id@),
                Err(e) => {
                    &&& !has_id(old(self).repositories.acceptance_criteria@, id@)
                    &&& e@ == (AcceptanceCriteriaServiceFault::NotFound { id: id@ })
                    &&& final(self).repositories.acceptance_criteria@ == old(
                        self,
                    ).repositories.acceptance_criteria@
                },
            },
    {
        proof {
            use_type_invariant(&self.repositories.acceptance_criteria);
            lemma_filter_other_than(self.repositories.acceptance_criteria@, id@);
            if self.repositories.referentially_intact() {
                lemma_refers_of_fewer_criteria(
                    self.repositories.acceptance_criteria@,
                    self.repositories.user_stories@,
                    other_than::<AcceptanceCriteria>(id@),
                );
            }
        }
        match self.repositories.acceptance_criteria.delete(id) {
            Err(e) => Err(AcceptanceCriteriaServiceError::Database(e)),
            Ok(true) => Ok(()),
            Ok(false) => Err(AcceptanceCriteriaServiceError::NotFound { id: String::from_str(id) }),
        }
    }

    /// Deletes the criteria of the story with the id `user_story_id`, which
    /// must exist, and says how many there were.
    pub fn delete_by_user_story_id(&mut self, user_story_id: &str) -> (r: Result<
        u64,
        AcceptanceCriteriaServiceError,
    >)
        ensures
            old(self).repositories.referentially_intact() ==> final(self).repositories
                .referentially_intact(),
            final(self).repositories.user_stories@ == old(self).repositories.user_stories@,
            match r {
                Ok(deleted) => {
                    &&& has_id(old(self).repositories.user_stories@, user_story_id@)
                    &&& deleted == old(self).repositories.acceptance_criteria@.filter(
                        of_story(user_story_id@),
                    ).len()
                    &&& final(self).repositories.acceptance_criteria@ == old(
                        self,
                    ).repositories.acceptance_criteria@.filter(of_other_story(user_story_id@))
                },
                Err(e) => {
                    &&& !has_id(old(self).repositories.user_stories@, user_story_id@)
                    &&& e@ == (AcceptanceCriteriaServiceFault::UserStoryNotFound {
                        user_story_id: user_story_id@,
                    })
                    &&& final(self).repositories.acceptance_criteria@ == old(
                        self,
                    ).repositories.acceptance_criteria@
                },
            },
    {
        match self.repositories.user_stories.get_by_id(user_story_id) {
            Err(e) => {
                return Err(AcceptanceCriteriaServiceError::Database(e));
            },
            Ok(None) => {
                return Err(story_not_found(user_story_id));
            },
            Ok(Some(_)) => {},
        }
        proof {
            if self.repositories.referentially_intact() {
                lemma_refers_of_fewer_criteria(
                    self.repositories.acceptance_criteria@,
                    self.repositories.user_stories@,
                    of_other_story(user_story_id@),
                );
            }
        }
        match self.repositories.acceptance_criteria.delete_by_user_story_id(user_story_id) {
            Ok(deleted) => Ok(deleted),
            Err(e) => Err(AcceptanceCriteriaServiceError::Database(e)),
        }
    }

    /// The criteria of which the description holds `query`, the newest first.
    /// The query must not be blank.
    pub fn search(&self, query: &str) -> (r: Result<
        Vec<AcceptanceCriteria>,
        AcceptanceCriteriaServiceError,
    >)
        ensures
            match r {
                Ok(criteria) => {
                    &&& !is_blank(query@)
                    &&& criteria@ == arranged(
                        self.repositories.acceptance_criteria@.filter(criteria_matches(query@)),
                        true,
                    )
                },
                Err(e) => {
                    &&& is_blank(query@)
                    &&& e@ == (AcceptanceCriteriaServiceFault::Validation {
                        message: "Search query cannot be empty"@,
                    })
                },
            },
    {
        if blank(query) {
            return Err(validation_error("Search query cannot be empty"));
        }
        match self.repositories.acceptance_criteria.search(query) {
            Ok(criteria) => Ok(criteria),
            Err(e) => Err(AcceptanceCriteriaServiceError::Database(e)),
        }
    }

    /// The number of criteria of the story with the id `user_story_id`, which must exist.
    pub fn count_by_user_story_id(&self, user_story_id: &str) -> (r: Result<
        i64,
        AcceptanceCriteriaServiceError,
    >)
        ensures
            match r {
                Ok(count) => {
                    &&& has_id(self.repositories.user_stories@, user_story_id@)
                    &&& count == criteria_count(
                        self.repositories.acceptance_criteria@,
                        user_story_id@,
                    )
                },
                Err(e) => {
                    &&& !has_id(self.repositories.user_stories@, user_story_id@)
                    &&& e@ == (AcceptanceCriteriaServiceFault::UserStoryNotFound {
                        user_story_id: user_story_id@,
                    })
                },
            },
    {
        match self.repositories.user_stories.get_by_id(user_story_id) {
            Err(e) => {
                return Err(AcceptanceCriteriaServiceError::Database(e));
            },
            Ok(None) => {
                return Err(story_not_found(user_story_id));
            },
            Ok(Some(_)) => {},
        }
        match self.repositories.acceptance_criteria.count_by_user_story_id(user_story_id) {
            Ok(count) => Ok(count),
            Err(e) => Err(AcceptanceCriteriaServiceError::Database(e)),
        }
    }

    /// The figures of the criteria: the numbers of criteria and of stories,
    /// the criteria per story on average (0 without a story), and for each
    /// story, the newest first and each once, the number of its criteria.
    pub fn get_statistics(&self) -> (r: Result<
        AcceptanceCriteriaStatistics,
        AcceptanceCriteriaServiceError,
    >)
        ensures
            r is Ok,
            r->Ok_0.total_criteria == as_count(self.repositories.acceptance_criteria@.len()),
            r->Ok_0.total_stories == as_count(self.repositories.user_stories@.len()),
            r->Ok_0.avg_criteria_per_story == average_of(
                r->Ok_0.total_criteria,
                r->Ok_0.total_stories,
            ),
            r->Ok_0.criteria_distribution@.len() == self.repositories.user_stories@.len(),
            forall|k: int|
                0 <= k < r->Ok_0.criteria_distribution@.len() ==> {
                    &&& (#[trigger] r->Ok_0.criteria_distribution@[k]).0@ == arranged(
                        self.repositories.user_stories@,
                        true,
                    )[k].id@
                    &&& r->Ok_0.criteria_distribution@[k].1 == criteria_count(
                        self.repositories.acceptance_criteria@,
                        r->Ok_0.criteria_distribution@[k].0@,
                    )
                },
            forall|a: int, b: int|
                0 <= a < r->Ok_0.criteria_distribution@.len() && 0 <= b
                    < r->Ok_0.criteria_distribution@.len() && a != b ==> (
                #[trigger] r->Ok_0.criteria_distribution@[a]).0@ != (
                #[trigger] r->Ok_0.criteria_distribution@[b]).0@,
    {
        let total_criteria = match self.repositories.acceptance_criteria.count() {
            Ok(n) => n,
            Err(e) => {
                return Err(AcceptanceCriteriaServiceError::Database(e));
            },
        };
        let total_stories = match self.repositories.user_stories.count() {
            Ok(n) => n,
            Err(e) => {
                return Err(AcceptanceCriteriaServiceError::Database(e));
            },
        };
        let avg_criteria_per_story = average(total_criteria, total_stories);
        proof {
            use_type_invariant(&self.repositories.user_stories);
        }
        let all_stories = match self.repositories.user_stories.get_all() {
            Ok(stories) => stories,
            Err(e) => {
                return Err(AcceptanceCriteriaServiceError::Database(e));
            },
        };
        proof {
            lemma_arranged(self.repositories.user_stories@, true);
            lemma_arranged_ids_distinct(self.repositories.user_stories@, true);
        }
        let mut criteria_distribution: Vec<(String, i64)> = Vec::new();
        let mut i: usize = 0;
        while i < all_stories.len()
            invariant
                i <= all_stories.len(),
                criteria_distribution@.len() == i,
                all_stories@ == arranged(self.repositories.user_stories@, true),
                forall|k: int|
                    0 <= k < i ==> {
                        &&& (#[trigger] criteria_distribution@[k]).0@ == all_stories@[k].id@
                        &&& criteria_distribution@[k].1 == criteria_count(
                            self.repositories.acceptance_criteria@,
                            criteria_distribution@[k].0@,
                        )
                    },
            decreases all_stories.len() - i,
        {
            let story = &all_stories[i];
            let count = match self.repositories.acceptance_criteria.count_by_user_story_id(
                story.id.as_str(),
            ) {
                Ok(n) => n,
                Err(e) => {
                    return Err(AcceptanceCriteriaServiceError::Database(e));
                },
            };
            criteria_distribution.push((story.id.clone(), count));
            i = i + 1;
        }
        assert forall|a: int, b: int|
            0 <= a < criteria_distribution@.len() && 0 <= b < criteria_distribution@.len() && a
                != b implies (#[trigger] criteria_distribution@[a]).0@ != (
        #[trigger] criteria_distribution@[b]).0@ by {
            assert(all_stories@[a].key() != all_stories@[b].key());
        }
        Ok(
            AcceptanceCriteriaStatistics {
                total_criteria,
                total_stories,
                avg_criteria_per_story,
                criteria_distribution,
            },
        )
    }

    /// Holds a request to create a criteria to the rules. No field is blank,
    /// the id starts with `AC-` and the story's id with `US-`, and the
    /// description has at most 1000 characters. Then the story may not have
    /// 20 criteria or more already.
    pub fn validate_create_request(&self, request: &CreateAcceptanceCriteriaRequest) -> (r: Result<
        (),
        AcceptanceCriteriaServiceError,
    >)
        ensures
            match r {
                Ok(()) => validation_fault(self.repositories.acceptance_criteria@, *request)
                    is None,
                Err(e) => validation_fault(self.repositories.acceptance_criteria@, *request)
                    == Some(e@),
            },
    {
        if blank(request.id.as_str()) {
            return Err(validation_error("Acceptance criteria ID cannot be empty"));
        }
        if blank(request.user_story_id.as_str()) {
            return Err(validation_error("User story ID cannot be empty"));
        }
        if blank(request.description.as_str()) {
            return Err(validation_error("Acceptance criteria description cannot be empty"));
        }
        if !starts_with(request.id.as_str(), "AC-") {
            return Err(validation_error("Acceptance criteria ID should start with 'AC-'"));
        }
        if !starts_with(request.user_story_id.as_str(), "US-") {
            return Err(validation_error("User story ID should start with 'US-'"));
        }
        if request.description.as_str().unicode_len() > MAX_CRITERIA_DESCRIPTION_LENGTH {
            return Err(
                validation_error("Acceptance criteria description cannot exceed 1000 characters"),
            );
        }
        let existing_count = match self.repositories.acceptance_criteria.count_by_user_story_id(
            request.user_story_id.as_str(),
        ) {
            Ok(n) => n,
            Err(e) => {
                return Err(AcceptanceCriteriaServiceError::Database(e));
            },
        };
        if existing_count >= MAX_CRITERIA_PER_STORY {
            let message = String::from_str("User story ").concat(
                request.user_story_id.as_str(),
            ).concat(" already has ").concat(signed_decimal_text(existing_count).as_str()).concat(
                " acceptance criteria. Maximum allowed is 20.",
            );
            assert(message@ =~= cap_message(request.user_story_id@, existing_count));
            return Err(AcceptanceCriteriaServiceError::BusinessRule { message });
        }
        Ok(())
    }

    /// Holds a request to update a criteria to the rules: a description that
    /// it gives is not blank and has at most 1000 characters.
    pub fn validate_update_request(&self, request: &UpdateAcceptanceCriteriaRequest) -> (r: Result<
        (),
        AcceptanceCriteriaServiceError,
    >)
        ensures
            match r {
                Ok(()) => update_request_fault(*request) is None,
                Err(e) => update_request_fault(*request) == Some(e->Validation_message@)
                    && e is Validation,
            },
    {
        match &request.description {
            Some(description) => {
                if blank(description.as_str()) {
                    return Err(validation_error("Acceptance criteria description cannot be empty"));
                }
                if description.as_str().unicode_len() > MAX_CRITERIA_DESCRIPTION_LENGTH {
                    return Err(
                        validation_error(
                            "Acceptance criteria description cannot exceed 1000 characters",
                        ),
                    );
                }
            },
            None => {},
        }
        Ok(())
    }
}

} // verus!
