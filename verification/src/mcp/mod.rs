//! What the tool calls of the protocol ask of the user stories.

pub mod server;

pub use server::{
    CreateUserStoryParams, GetUserStoryParams, SearchUserStoriesParams, StatisticsResponse,
    ToolError, UserStoryResponse, UserStoryServer,
};
