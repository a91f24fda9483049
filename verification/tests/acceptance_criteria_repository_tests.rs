use mcp_user_stories::clock::Timestamp;
use mcp_user_stories::models::{
    CreateAcceptanceCriteriaRequest, CreateUserStoryRequest, UpdateAcceptanceCriteriaRequest,
};
use mcp_user_stories::repositories::{
    AcceptanceCriteriaRepository, Repositories, StorageError, UserStoryRepository,
};

fn at(seconds: i64) -> Timestamp {
    Timestamp::new(1_700_000_000 + seconds, 0)
}

fn story_request(id: &str, title: &str, description: &str, persona: &str) -> CreateUserStoryRequest {
    CreateUserStoryRequest {
        id: id.to_string(),
        title: title.to_string(),
        description: description.to_string(),
        persona: persona.to_string(),
    }
}

fn criteria_request(id: &str, user_story_id: &str, description: &str) -> CreateAcceptanceCriteriaRequest {
    CreateAcceptanceCriteriaRequest {
        id: id.to_string(),
        user_story_id: user_story_id.to_string(),
        description: description.to_string(),
    }
}

/// Five stories of three personas, and ten criteria, three of them of `US-001`.
fn fixtures() -> Repositories {
    let mut repositories = Repositories::new();
    let stories = [
        ("US-001", "User Login Feature", "As a registered user, I want to sign in so that I can reach my account", "Registered User"),
        ("US-002", "Product Search", "As a visitor, I want to find products by name", "Guest User"),
        ("US-003", "Order History", "As a registered user, I want to see my past orders", "Registered User"),
        ("US-004", "Profile Settings", "As a registered user, I want to change my profile", "Registered User"),
        ("US-005", "User Management", "As an administrator, I want to manage accounts", "Administrator"),
    ];
    for (i, (id, title, description, persona)) in stories.iter().enumerate() {
        repositories
            .user_stories
            .create_at(story_request(id, title, description, persona), at(i as i64))
            .unwrap();
    }
    let criteria = [
        ("AC-001", "US-001", "Given I am on the login page, When I enter valid credentials, Then I am signed in"),
        ("AC-002", "US-001", "Given I am on the login page, When I enter a wrong password, Then I see an error"),
        ("AC-003", "US-001", "Given I am signed in, When I sign out, Then my session ends"),
        ("AC-004", "US-002", "Given I am on the home page, When I type a name, Then matching products are listed"),
        ("AC-005", "US-002", "Given no product matches, When I search, Then I see an empty result"),
        ("AC-006", "US-003", "Given I have orders, When I open my history, Then they are listed newest first"),
        ("AC-007", "US-003", "Given I have no orders, When I open my history, Then I see a hint"),
        ("AC-008", "US-004", "Given I am signed in, When I change my name, Then it is saved"),
        ("AC-009", "US-004", "Given I am signed in, When I upload a picture, Then it is shown"),
        ("AC-010", "US-005", "Given I am an administrator, When I lock an account, Then its owner cannot sign in"),
    ];
    for (i, (id, user_story_id, description)) in criteria.iter().enumerate() {
        repositories
            .acceptance_criteria
            .create_at(
                &repositories.user_stories,
                criteria_request(id, user_story_id, description),
                at(100 + i as i64),
            )
            .unwrap();
    }
    repositories
}

fn create_test_user_story(user_story_repo: &mut UserStoryRepository) -> String {
    let request = CreateUserStoryRequest {
        id: "US-TEST-001".to_string(),
        title: "Test User Story".to_string(),
        description: "As a user, I want to test this functionality".to_string(),
        persona: "Test User".to_string(),
    };

    user_story_repo.create(request.clone()).unwrap();
    request.id
}

fn create_test_criteria_request(user_story_id: String) -> CreateAcceptanceCriteriaRequest {
    CreateAcceptanceCriteriaRequest {
        id: "AC-TEST-001".to_string(),
        user_story_id,
        description: "Given I am on the page, When I click the button, Then something happens"
            .to_string(),
    }
}

#[test]
fn acceptance_criteria_repository_test_create_acceptance_criteria() {
    let mut criteria_repo = AcceptanceCriteriaRepository::new();
    let mut user_story_repo = UserStoryRepository::new();

    let user_story_id = create_test_user_story(&mut user_story_repo);
    let request = create_test_criteria_request(user_story_id);

    let result = criteria_repo.create(&user_story_repo, request.clone());
    assert!(result.is_ok());

    let criteria = result.unwrap();
    assert_eq!(criteria.id, request.id);
    assert_eq!(criteria.user_story_id, request.user_story_id);
    assert_eq!(criteria.description, request.description);
}

#[test]
fn test_get_criteria_by_id() {
    let criteria_repo = fixtures().acceptance_criteria;

    let result = criteria_repo.get_by_id("AC-001");
    assert!(result.is_ok());

    let criteria = result.unwrap();
    assert!(criteria.is_some());

    let criteria = criteria.unwrap();
    assert_eq!(criteria.id, "AC-001");
    assert_eq!(criteria.user_story_id, "US-001");
    assert!(criteria.description.contains("valid credentials"));
}

#[test]
fn test_get_criteria_by_user_story_id() {
    let criteria_repo = fixtures().acceptance_criteria;

    let result = criteria_repo.get_by_user_story_id("US-001");
    assert!(result.is_ok());

    let criteria_list = result.unwrap();
    assert_eq!(criteria_list.len(), 3); // AC-001, AC-002, AC-003
}

#[test]
fn test_get_all_criteria() {
    let criteria_repo = fixtures().acceptance_criteria;

    let result = criteria_repo.get_all();
    assert!(result.is_ok());

    let criteria_list = result.unwrap();
    assert_eq!(criteria_list.len(), 10);
}

#[test]
fn acceptance_criteria_repository_test_update_acceptance_criteria() {
    let mut criteria_repo = fixtures().acceptance_criteria;

    let update_request = UpdateAcceptanceCriteriaRequest {
        description: Some("Given I am on the updated login page, When I enter valid credentials, Then I should be logged in successfully".to_string()),
    };

    let result = criteria_repo.update("AC-001", update_request);
    assert!(result.is_ok());

    let criteria = result.unwrap();
    assert!(criteria.is_some());

    let criteria = criteria.unwrap();
    assert!(criteria.description.contains("updated login page"));
}

#[test]
fn acceptance_criteria_repository_test_delete_acceptance_criteria() {
    let mut criteria_repo = fixtures().acceptance_criteria;

    let result = criteria_repo.delete("AC-001");
    assert!(result.is_ok());
    assert!(result.unwrap());

    // Verify it's deleted
    let get_result = criteria_repo.get_by_id("AC-001");
    assert!(get_result.is_ok());
    assert!(get_result.unwrap().is_none());
}

#[test]
fn test_delete_by_user_story_id() {
    let mut criteria_repo = fixtures().acceptance_criteria;

    let result = criteria_repo.delete_by_user_story_id("US-001");
    assert!(result.is_ok());
    assert_eq!(result.unwrap(), 3); // Should delete 3 criteria

    // Verify they're deleted
    let get_result = criteria_repo.get_by_user_story_id("US-001");
    assert!(get_result.is_ok());
    assert!(get_result.unwrap().is_empty());
}

#[test]
fn acceptance_criteria_repository_test_search_criteria() {
    let criteria_repo = fixtures().acceptance_criteria;

    let result = criteria_repo.search("login");
    assert!(result.is_ok());

    let criteria_list = result.unwrap();
    assert!(!criteria_list.is_empty());

    for criteria in criteria_list {
        assert!(criteria.description.to_lowercase().contains("login"));
    }
}

#[test]
fn acceptance_criteria_repository_test_count_by_user_story_id() {
    let criteria_repo = fixtures().acceptance_criteria;

    let result = criteria_repo.count_by_user_story_id("US-001");
    assert!(result.is_ok());

    let count = result.unwrap();
    assert_eq!(count, 3);
}

#[test]
fn test_count_all_criteria() {
    let criteria_repo = fixtures().acceptance_criteria;

    let result = criteria_repo.count();
    assert!(result.is_ok());

    let count = result.unwrap();
    assert_eq!(count, 10);
}

#[test]
fn acceptance_criteria_repository_test_create_batch() {
    let mut criteria_repo = AcceptanceCriteriaRepository::new();
    let mut user_story_repo = UserStoryRepository::new();

    let user_story_id = create_test_user_story(&mut user_story_repo);

    let requests = vec![
        CreateAcceptanceCriteriaRequest {
            id: "AC-BATCH-001".to_string(),
            user_story_id: user_story_id.clone(),
            description: "First batch criteria".to_string(),
        },
        CreateAcceptanceCriteriaRequest {
            id: "AC-BATCH-002".to_string(),
            user_story_id: user_story_id.clone(),
            description: "Second batch criteria".to_string(),
        },
    ];

    let result = criteria_repo.create_batch(&user_story_repo, requests);
    assert!(result.is_ok());

    let created_criteria = result.unwrap();
    assert_eq!(created_criteria.len(), 2);

    // Verify they were actually created
    let all_criteria = criteria_repo.get_by_user_story_id(&user_story_id).unwrap();
    assert_eq!(all_criteria.len(), 2);
}

#[test]
fn criteria_of_a_story_come_oldest_first() {
    let mut repositories = fixtures();
    repositories
        .acceptance_criteria
        .create_at(&repositories.user_stories, criteria_request("AC-EARLY", "US-001", "early"), at(50))
        .unwrap();
    repositories
        .acceptance_criteria
        .create_at(&repositories.user_stories, criteria_request("AC-SAME", "US-001", "same"), at(101))
        .unwrap();
    let ids: Vec<String> = repositories
        .acceptance_criteria
        .get_by_user_story_id("US-001")
        .unwrap()
        .into_iter()
        .map(|c| c.id)
        .collect();
    assert_eq!(ids, vec!["AC-EARLY", "AC-001", "AC-002", "AC-SAME", "AC-003"]);
    // All criteria come newest first.
    let all: Vec<String> =
        repositories.acceptance_criteria.get_all().unwrap().into_iter().map(|c| c.id).collect();
    assert_eq!(
        all,
        vec![
            "AC-010", "AC-009", "AC-008", "AC-007", "AC-006", "AC-005", "AC-004", "AC-003",
            "AC-002", "AC-SAME", "AC-001", "AC-EARLY"
        ]
    );
}

#[test]
fn table_refuses_a_criteria_without_its_story() {
    let mut repositories = fixtures();
    let result = repositories.acceptance_criteria.create_at(
        &repositories.user_stories,
        criteria_request("AC-NEW", "US-404", "d"),
        at(300),
    );
    assert!(matches!(
        result,
        Err(StorageError::ForeignKeyViolation { ref user_story_id }) if user_story_id == "US-404"
    ));
    assert_eq!(result.unwrap_err().to_string(), "FOREIGN KEY constraint failed: US-404");
    // An id that exists is refused first.
    let result = repositories.acceptance_criteria.create_at(
        &repositories.user_stories,
        criteria_request("AC-001", "US-404", "d"),
        at(300),
    );
    assert!(matches!(result, Err(StorageError::UniqueViolation { ref id }) if id == "AC-001"));
    assert_eq!(repositories.acceptance_criteria.count().unwrap(), 10);
}

#[test]
fn batch_goes_in_whole_or_not_at_all() {
    let mut repositories = fixtures();
    let before: Vec<String> =
        repositories.acceptance_criteria.rows().iter().map(|c| c.id.clone()).collect();
    // The third request repeats the id of the first.
    let result = repositories.acceptance_criteria.create_batch(
        &repositories.user_stories,
        vec![
            criteria_request("AC-B1", "US-001", "one"),
            criteria_request("AC-B2", "US-002", "two"),
            criteria_request("AC-B1", "US-003", "three"),
        ],
    );
    assert!(matches!(result, Err(StorageError::UniqueViolation { ref id }) if id == "AC-B1"));
    let after: Vec<String> =
        repositories.acceptance_criteria.rows().iter().map(|c| c.id.clone()).collect();
    assert_eq!(before, after);
    // The second request names a story that is not there.
    let result = repositories.acceptance_criteria.create_batch(
        &repositories.user_stories,
        vec![
            criteria_request("AC-B1", "US-001", "one"),
            criteria_request("AC-B2", "US-777", "two"),
            criteria_request("AC-001", "US-003", "three"),
        ],
    );
    assert!(matches!(
        result,
        Err(StorageError::ForeignKeyViolation { ref user_story_id }) if user_story_id == "US-777"
    ));
    assert_eq!(repositories.acceptance_criteria.count().unwrap(), 10);
    // A batch without a fault goes in, in its order, behind the rows that are there.
    let created = repositories
        .acceptance_criteria
        .create_batch(
            &repositories.user_stories,
            vec![
                criteria_request("AC-B1", "US-001", "one"),
                criteria_request("AC-B2", "US-002", "two"),
            ],
        )
        .unwrap();
    assert_eq!(created.len(), 2);
    assert_eq!(created[0].id, "AC-B1");
    assert_eq!(created[1].description, "two");
    assert_eq!(created[1].created_at, created[1].updated_at);
    let rows = repositories.acceptance_criteria.rows();
    assert_eq!(rows.len(), 12);
    assert_eq!(rows[10].id, "AC-B1");
    assert_eq!(rows[11].id, "AC-B2");
    // An empty batch changes nothing.
    let created = repositories
        .acceptance_criteria
        .create_batch(&repositories.user_stories, Vec::new())
        .unwrap();
    assert!(created.is_empty());
    assert_eq!(repositories.acceptance_criteria.count().unwrap(), 12);
}

#[test]
fn criteria_update_keeps_story_and_creation_time() {
    let mut repo = fixtures().acceptance_criteria;
    let before = repo.get_by_id("AC-004").unwrap().unwrap();
    let criteria = repo
        .update_at("AC-004", UpdateAcceptanceCriteriaRequest { description: None }, at(900))
        .unwrap()
        .unwrap();
    assert_eq!(criteria.description, before.description);
    assert_eq!(criteria.user_story_id, "US-002");
    assert_eq!(criteria.created_at, before.created_at);
    assert_eq!(criteria.updated_at, at(900));
    let criteria = repo
        .update_at(
            "AC-004",
            UpdateAcceptanceCriteriaRequest { description: Some("changed".to_string()) },
            at(901),
        )
        .unwrap()
        .unwrap();
    assert_eq!(criteria.description, "changed");
    assert_eq!(repo.get_by_id("AC-004").unwrap().unwrap().updated_at, at(901));
    assert!(repo
        .update("AC-404", UpdateAcceptanceCriteriaRequest { description: None })
        .unwrap()
        .is_none());
}

#[test]
fn deleting_criteria_of_a_story_leaves_the_others() {
    let mut repo = fixtures().acceptance_criteria;
    assert_eq!(repo.delete_by_user_story_id("US-404").unwrap(), 0);
    assert_eq!(repo.delete_by_user_story_id("US-002").unwrap(), 2);
    let ids: Vec<String> = repo.rows().iter().map(|c| c.id.clone()).collect();
    assert_eq!(
        ids,
        vec!["AC-001", "AC-002", "AC-003", "AC-006", "AC-007", "AC-008", "AC-009", "AC-010"]
    );
    assert!(!repo.delete("AC-004").unwrap());
    assert_eq!(repo.count_by_user_story_id("US-002").unwrap(), 0);
    assert_eq!(repo.count_by_user_story_id("US-004").unwrap(), 2);
}

#[test]
fn criteria_search_reads_the_description_only() {
    let repo = fixtures().acceptance_criteria;
    let ids: Vec<String> = repo.search("login").unwrap().into_iter().map(|c| c.id).collect();
    assert_eq!(ids, vec!["AC-002", "AC-001"]);
    // Ids and story ids are not searched.
    assert!(repo.search("AC-00").unwrap().is_empty());
    assert!(repo.search("US-001").unwrap().is_empty());
    assert_eq!(repo.search("ADMINISTRATOR").unwrap().len(), 1);
}
