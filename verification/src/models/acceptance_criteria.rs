use crate::clock::Timestamp;
use crate::models::user_story::clone_optional_text;
use vstd::prelude::*;

verus! {

/// A condition that a user story has to meet, worded so that it can be tried.
#[derive(Debug)]
pub struct AcceptanceCriteria {
    pub id: String,
    pub user_story_id: String,
    pub description: String,
    pub created_at: Timestamp,
    pub updated_at: Timestamp,
}

impl Clone for AcceptanceCriteria {
    fn clone(&self) -> (r: Self)
        ensures
            r == *self,
    {
        AcceptanceCriteria {
            id: self.id.clone(),
            user_story_id: self.user_story_id.clone(),
            description: self.description.clone(),
            created_at: self.created_at,
            updated_at: self.updated_at,
        }
    }
}

/// The fields of an acceptance criteria to be created.
#[derive(Debug)]
pub struct CreateAcceptanceCriteriaRequest {
    pub id: String,
    pub user_story_id: String,
    pub description: String,
}

impl Clone for CreateAcceptanceCriteriaRequest {
    fn clone(&self) -> (r: Self)
        ensures
            r == *self,
    {
        CreateAcceptanceCriteriaRequest {
            id: self.id.clone(),
            user_story_id: self.user_story_id.clone(),
            description: self.description.clone(),
        }
    }
}

/// The change to an acceptance criteria; a description left out keeps its value.
#[derive(Debug)]
pub struct UpdateAcceptanceCriteriaRequest {
    pub description: Option<String>,
}

impl Clone for UpdateAcceptanceCriteriaRequest {
    fn clone(&self) -> (r: Self)
        ensures
            r == *self,
    {
        UpdateAcceptanceCriteriaRequest { description: clone_optional_text(&self.description) }
    }
}

} // verus!
