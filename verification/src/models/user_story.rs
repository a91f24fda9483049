use crate::clock::Timestamp;
use crate::models::acceptance_criteria::AcceptanceCriteria;
use vstd::prelude::*;

verus! {

/// A feature request: what a persona wants, under an id of its own.
#[derive(Debug)]
pub struct UserStory {
    pub id: String,
    pub title: String,
    pub description: String,
    pub persona: String,
    pub created_at: Timestamp,
    pub updated_at: Timestamp,
}

impl Clone for UserStory {
    fn clone(&self) -> (r: Self)
        ensures
            r == *self,
    {
        UserStory {
            id: self.id.clone(),
            title: self.title.clone(),
            description: self.description.clone(),
            persona: self.persona.clone(),
            created_at: self.created_at,
            updated_at: self.updated_at,
        }
    }
}

/// The fields of a user story to be created.
#[derive(Debug)]
pub struct CreateUserStoryRequest {
    pub id: String,
    pub title: String,
    pub description: String,
    pub persona: String,
}

impl Clone for CreateUserStoryRequest {
    fn clone(&self) -> (r: Self)
        ensures
            r == *self,
    {
        CreateUserStoryRequest {
            id: self.id.clone(),
            title: self.title.clone(),
            description: self.description.clone(),
            persona: self.persona.clone(),
        }
    }
}

/// The fields of a user story to be changed; a field left out keeps its value.
#[derive(Debug)]
pub struct UpdateUserStoryRequest {
    pub title: Option<String>,
    pub description: Option<String>,
    pub persona: Option<String>,
}

/// A copy of an optional text.
pub fn clone_optional_text(text: &Option<String>) -> (r: Option<String>)
    ensures
        r == *text,
{
    match text {
        Some(t) => Some(t.clone()),
        None => None,
    }
}

impl Clone for UpdateUserStoryRequest {
    fn clone(&self) -> (r: Self)
        ensures
            r == *self,
    {
        UpdateUserStoryRequest {
            title: clone_optional_text(&self.title),
            description: clone_optional_text(&self.description),
            persona: clone_optional_text(&self.persona),
        }
    }
}

/// A user story together with its acceptance criteria, oldest first.
#[derive(Debug, Clone)]
pub struct UserStoryWithCriteria {
    pub user_story: UserStory,
    pub acceptance_criteria: Vec<AcceptanceCriteria>,
}

} // verus!
