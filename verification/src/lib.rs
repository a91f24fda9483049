//! User stories and their acceptance criteria: validated records kept in two
//! related tables, with lookups, searches and aggregate figures over them.
//!
//! A user story has an id that starts with `US-`, a title, a description and a
//! persona. An acceptance criteria has an id that starts with `AC-`, belongs
//! to a user story and has a description. The tables keep the ids distinct;
//! the services hold every request to the rules before it reaches the tables.
//!
//! ```text
//! let mut stories = UserStoryService::new(Repositories::new());
//! let story = stories.create(CreateUserStoryRequest {
//!     id: "US-001".to_string(),
//!     title: "User Login".to_string(),
//!     description: "As a user, I want to login to access my account".to_string(),
//!     persona: "End User".to_string(),
//! })?;
//! ```

pub mod clock;
pub mod laws;
pub mod mcp;
pub mod models;
pub mod repositories;
pub mod services;
pub mod text;

pub use models::{
    AcceptanceCriteria, CreateAcceptanceCriteriaRequest, CreateUserStoryRequest,
    UpdateAcceptanceCriteriaRequest, UpdateUserStoryRequest, UserStory, UserStoryWithCriteria,
};
pub use repositories::Repositories;
pub use services::Services;
