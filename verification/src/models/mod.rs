//! The records and the requests that create and change them.

pub mod acceptance_criteria;
pub mod user_story;

pub use acceptance_criteria::{
    AcceptanceCriteria, CreateAcceptanceCriteriaRequest, UpdateAcceptanceCriteriaRequest,
};
pub use user_story::{
    CreateUserStoryRequest, UpdateUserStoryRequest, UserStory, UserStoryWithCriteria,
};
