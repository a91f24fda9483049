//! The tools that a client can call, as functions from their parameters to a
//! response or a failure.

use crate::clock::datetime_text;
use crate::models::{CreateUserStoryRequest, UserStory};
use crate::repositories::table::{arranged, as_count, lemma_arranged, row_with_id};
use crate::repositories::user_story_repository::{counted_by_persona, new_story, story_matches};
use crate::repositories::Repositories;
use crate::services::user_story_service::{
    create_fault, UserStoryService, UserStoryServiceError, UserStoryServiceFault,
    UserStoryStatistics,
};
use crate::text::is_blank;
use vstd::prelude::*;
use vstd::std_specs::convert::FromSpecImpl;
use vstd::string::*;

verus! {

/// The parameters of the tool that creates a user story.
#[derive(Debug)]
pub struct CreateUserStoryParams {
    /// Unique identifier for the user story
    pub id: String,
    /// Title of the user story
    pub title: String,
    /// Description of the user story
    pub description: String,
    /// Persona associated with the user story
    pub persona: String,
}

/// The parameters of the tool that reads a user story.
#[derive(Debug)]
pub struct GetUserStoryParams {
    /// ID of the user story to retrieve
    pub id: String,
}

/// The parameters of the tool that searches the user stories.
#[derive(Debug)]
pub struct SearchUserStoriesParams {
    /// Search query text
    pub query: String,
}

/// A user story as a tool answers with it: its texts, and its two times
/// written out as dates.
#[derive(Debug)]
pub struct UserStoryResponse {
    pub id: String,
    pub title: String,
    pub description: String,
    pub persona: String,
    pub created_at: String,
    pub updated_at: String,
}

/// The figures that the statistics tool answers with.
#[derive(Debug)]
pub struct StatisticsResponse {
    pub total_stories: i64,
    pub stories_by_persona: Vec<(String, i64)>,
}

/// The failure of a tool call: a code and a message.
#[derive(Debug)]
pub struct ToolError {
    pub code: i32,
    pub message: String,
}

/// The code of every failure that a tool reports.
pub const TOOL_ERROR_CODE: i32 = -32000;

/// The request that the parameters of the creating tool stand for.
pub open spec fn request_of(params: CreateUserStoryParams) -> CreateUserStoryRequest {
    CreateUserStoryRequest {
        id: params.id,
        title: params.title,
        description: params.description,
        persona: params.persona,
    }
}

impl CreateUserStoryParams {
    pub fn into_request(self) -> (r: CreateUserStoryRequest)
        ensures
            r == request_of(self),
    {
        CreateUserStoryRequest {
            id: self.id,
            title: self.title,
            description: self.description,
            persona: self.persona,
        }
    }
}

/// Whether both times of the story can be written as dates.
pub open spec fn has_dates(story: UserStory) -> bool {
    story.created_at.text() is Some && story.updated_at.text() is Some
}

/// Whether the response shows the story: it has the story's texts, and its
/// times are the story's, written as dates.
pub open spec fn shows(response: UserStoryResponse, story: UserStory) -> bool {
    &&& response.id == story.id
    &&& response.title == story.title
    &&& response.description == story.description
    &&& response.persona == story.persona
    &&& story.created_at.text() == Some(response.created_at@)
    &&& story.updated_at.text() == Some(response.updated_at@)
}

/// Whether the responses show the stories, one for one.
pub open spec fn show_all(responses: Seq<UserStoryResponse>, stories: Seq<UserStory>) -> bool {
    &&& responses.len() == stories.len()
    &&& forall|k: int| 0 <= k < responses.len() ==> shows(#[trigger] responses[k], stories[k])
}

/// The text of the failure to write a time as a date.
pub open spec fn undated_message() -> Seq<char> {
    "Timestamp out of range"@
}

impl UserStoryResponse {
    /// The response for a story of which the two times have been written out.
    pub fn with_dates(story: UserStory, created_at: String, updated_at: String) -> (r: Self)
        ensures
            r.id == story.id,
            r.title == story.title,
            r.description == story.description,
            r.persona == story.persona,
            r.created_at == created_at,
            r.updated_at == updated_at,
    {
        UserStoryResponse {
            id: story.id,
            title: story.title,
            description: story.description,
            persona: story.persona,
            created_at,
            updated_at,
        }
    }

    /// The response for a story, if both of its times can be written as dates.
    pub fn from_story(story: UserStory) -> (r: Option<Self>)
        ensures
            match r {
                Some(response) => shows(response, story),
                None => !has_dates(story),
            },
    {
        let created_at = match datetime_text(story.created_at) {
            Some(text) => text,
            None => {
                return None;
            },
        };
        let updated_at = match datetime_text(story.updated_at) {
            Some(text) => text,
            None => {
                return None;
            },
        };
        Some(UserStoryResponse::with_dates(story, created_at, updated_at))
    }
}

impl From<UserStoryStatistics> for StatisticsResponse {
    fn from(stats: UserStoryStatistics) -> (r: Self) {
        StatisticsResponse {
            total_stories: stats.total_stories,
            stories_by_persona: stats.stories_by_persona,
        }
    }
}

impl FromSpecImpl<UserStoryStatistics> for StatisticsResponse {
    open spec fn obeys_from_spec() -> bool {
        true
    }

    open spec fn from_spec(stats: UserStoryStatistics) -> Self {
        StatisticsResponse {
            total_stories: stats.total_stories,
            stories_by_persona: stats.stories_by_persona,
        }
    }
}

impl ToolError {
    /// The failure that reports an error of the service: its message under the code.
    pub fn from_error(e: &UserStoryServiceError) -> (r: Self)
        ensures
            r.code == TOOL_ERROR_CODE,
            r.message@ == e@.message(),
    {
        ToolError { code: TOOL_ERROR_CODE, message: e.to_string() }
    }

    /// The failure that reports a time that cannot be written as a date.
    pub fn undated() -> (r: Self)
        ensures
            r.code == TOOL_ERROR_CODE,
            r.message@ == undated_message(),
    {
        ToolError { code: TOOL_ERROR_CODE, message: String::from_str("Timestamp out of range") }
    }
}

/// The responses for the stories, if all their times can be written as dates.
pub fn responses_of(stories: Vec<UserStory>) -> (r: Option<Vec<UserStoryResponse>>)
    ensures
        match r {
            Some(responses) => show_all(responses@, stories@),
            None => exists|k: int| 0 <= k < stories@.len() && !has_dates(#[trigger] stories@[k]),
        },
{
    let mut responses: Vec<UserStoryResponse> = Vec::new();
    let mut i: usize = 0;
    while i < stories.len()
        invariant
            i <= stories.len(),
            show_all(responses@, stories@.take(i as int)),
        decreases stories.len() - i,
    {
        match UserStoryResponse::from_story(stories[i].clone()) {
            Some(response) => {
                responses.push(response);
            },
            None => {
                assert(!has_dates(stories@[i as int]));
                return None;
            },
        }
        i = i + 1;
    }
    assert(stories@.take(stories@.len() as int) =~= stories@);
    Some(responses)
}

/// The tools over the user stories.
pub struct UserStoryServer {
    pub services: UserStoryService,
}

impl UserStoryServer {
    pub fn new(repositories: Repositories) -> (r: Self)
        ensures
            r.services.repositories == repositories,
    {
        UserStoryServer { services: UserStoryService::new(repositories) }
    }

    /// Create a new user story with ID, title, description, and persona.
    ///
    /// The tool fails as the service does, with the service's message. Where
    /// the service creates the story, the story stays; the tool then answers
    /// with it, or fails if its time cannot be written as a date.
    pub fn create_user_story(&mut self, params: CreateUserStoryParams) -> (r: Result<
        UserStoryResponse,
        ToolError,
    >)
        ensures
            final(self).services.repositories.acceptance_criteria@ == old(
                self,
            ).services.repositories.acceptance_criteria@,
            r matches Err(e) ==> e.code == TOOL_ERROR_CODE,
            match create_fault(old(self).services.repositories.user_stories@, request_of(params)) {
                Some(fault) => {
                    &&& r matches Err(e) && e.message@ == fault.message()
                    &&& final(self).services.repositories.user_stories@ == old(
                        self,
                    ).services.repositories.user_stories@
                },
                None => {
                    &&& final(self).services.repositories.user_stories@.len() == old(
                        self,
                    ).services.repositories.user_stories@.len() + 1
                    &&& final(self).services.repositories.user_stories@.drop_last() == old(
                        self,
                    ).services.repositories.user_stories@
                    &&& final(self).services.repositories.user_stories@.last() == new_story(
                        request_of(params),
                        final(self).services.repositories.user_stories@.last().created_at,
                    )
                    &&& match r {
                        Ok(response) => shows(
                            response,
                            final(self).services.repositories.user_stories@.last(),
                        ),
                        Err(e) => {
                            &&& !has_dates(final(self).services.repositories.user_stories@.last())
                            &&& e.message@ == undated_message()
                        },
                    }
                },
            },
    {
        let request = params.into_request();
        match self.services.create(request) {
            Ok(story) => {
                assert(self.services.repositories.user_stories@.drop_last() =~= old(
                    self,
                ).services.repositories.user_stories@);
                match UserStoryResponse::from_story(story) {
                    Some(response) => Ok(response),
                    None => Err(ToolError::undated()),
                }
            },
            Err(e) => Err(ToolError::from_error(&e)),
        }
    }

    /// Retrieve a user story by its ID.
    pub fn get_user_story(&self, params: GetUserStoryParams) -> (r: Result<
        UserStoryResponse,
        ToolError,
    >)
        ensures
            r matches Err(e) ==> e.code == TOOL_ERROR_CODE,
            match row_with_id(self.services.repositories.user_stories@, params.id@) {
                Some(story) => match r {
                    Ok(response) => shows(response, story),
                    Err(e) => !has_dates(story) && e.message@ == undated_message(),
                },
                None => r matches Err(e) && e.message@ == (UserStoryServiceFault::NotFound {
                    id: params.id@,
                }).message(),
            },
    {
        match self.services.get_by_id(params.id.as_str()) {
            Ok(story) => match UserStoryResponse::from_story(story) {
                Some(response) => Ok(response),
                None => Err(ToolError::undated()),
            },
            Err(e) => Err(ToolError::from_error(&e)),
        }
    }

    /// Get all user stories in the system, the newest first.
    pub fn get_all_user_stories(&self) -> (r: Result<Vec<UserStoryResponse>, ToolError>)
        ensures
            match r {
                Ok(responses) => show_all(
                    responses@,
                    arranged(self.services.repositories.user_stories@, true),
                ),
                Err(e) => {
                    &&& e.code == TOOL_ERROR_CODE
                    &&& e.message@ == undated_message()
                    &&& exists|k: int|
                        0 <= k < self.services.repositories.user_stories@.len() && !has_dates(
                            #[trigger] arranged(self.services.repositories.user_stories@, true)[k],
                        )
                },
            },
    {
        proof {
            lemma_arranged(self.services.repositories.user_stories@, true);
        }
        match self.services.get_all() {
            Ok(stories) => match responses_of(stories) {
                Some(responses) => Ok(responses),
                None => Err(ToolError::undated()),
            },
            Err(e) => Err(ToolError::from_error(&e)),
        }
    }

    /// Search user stories by text in title, description, or persona.
    pub fn search_user_stories(&self, params: SearchUserStoriesParams) -> (r: Result<
        Vec<UserStoryResponse>,
        ToolError,
    >)
        ensures
            r matches Err(e) ==> e.code == TOOL_ERROR_CODE,
            if is_blank(params.query@) {
                r matches Err(e) && e.message@ == (UserStoryServiceFault::Validation {
                    message: "Search query cannot be empty"@,
                }).message()
            } else {
                match r {
                    Ok(responses) => show_all(
                        responses@,
                        arranged(
                            self.services.repositories.user_stories@.filter(
                                story_matches(params.query@),
                            ),
                            true,
                        ),
                    ),
                    Err(e) => {
                        &&& e.message@ == undated_message()
                        &&& exists|k: int|
                            0 <= k < self.services.repositories.user_stories@.filter(
                                story_matches(params.query@),
                            ).len() && !has_dates(
                                #[trigger] arranged(
                                    self.services.repositories.user_stories@.filter(
                                        story_matches(params.query@),
                                    ),
                                    true,
                                )[k],
                            )
                    },
                }
            },
    {
        proof {
            lemma_arranged(
                self.services.repositories.user_stories@.filter(story_matches(params.query@)),
                true,
            );
        }
        match self.services.search(params.query.as_str()) {
            Ok(stories) => match responses_of(stories) {
                Some(responses) => Ok(responses),
                None => Err(ToolError::undated()),
            },
            Err(e) => Err(ToolError::from_error(&e)),
        }
    }

    /// Get statistics about user stories including counts and metrics.
    pub fn get_user_stories_statistics(&self) -> (r: Result<StatisticsResponse, ToolError>)
        ensures
            r is Ok,
            r->Ok_0.total_stories == as_count(self.services.repositories.user_stories@.len()),
            counted_by_persona(
                r->Ok_0.stories_by_persona@,
                arranged(self.services.repositories.user_stories@, true),
            ),
    {
        match self.services.get_statistics() {
            Ok(stats) => Ok(StatisticsResponse::from(stats)),
            Err(e) => Err(ToolError::from_error(&e)),
        }
    }
}

} // verus!
