use mcp_user_stories::clock::Timestamp;
use mcp_user_stories::models::{
    CreateAcceptanceCriteriaRequest, CreateUserStoryRequest, UpdateAcceptanceCriteriaRequest,
};
use mcp_user_stories::repositories::{Repositories, StorageError};
use mcp_user_stories::services::{
    AcceptanceCriteriaService, AcceptanceCriteriaServiceError, Services, UserStoryService,
};

fn at(seconds: i64) -> Timestamp {
    Timestamp::new(1_700_000_000 + seconds, 0)
}

fn story_request(id: &str, title: &str, description: &str, persona: &str) -> CreateUserStoryRequest {
    CreateUserStoryRequest {
        id: id.to_string(),
        title: title.to_string(),
        description: description.to_string(),
        persona: persona.to_string(),
    }
}

fn criteria_request(id: &str, user_story_id: &str, description: &str) -> CreateAcceptanceCriteriaRequest {
    CreateAcceptanceCriteriaRequest {
        id: id.to_string(),
        user_story_id: user_story_id.to_string(),
        description: description.to_string(),
    }
}

/// Five stories of three personas, and ten criteria, three of them of `US-001`.
fn fixtures() -> Repositories {
    let mut repositories = Repositories::new();
    let stories = [
        ("US-001", "User Login Feature", "As a registered user, I want to sign in so that I can reach my account", "Registered User"),
        ("US-002", "Product Search", "As a visitor, I want to find products by name", "Guest User"),
        ("US-003", "Order History", "As a registered user, I want to see my past orders", "Registered User"),
        ("US-004", "Profile Settings", "As a registered user, I want to change my profile", "Registered User"),
        ("US-005", "User Management", "As an administrator, I want to manage accounts", "Administrator"),
    ];
    for (i, (id, title, description, persona)) in stories.iter().enumerate() {
        repositories
            .user_stories
            .create_at(story_request(id, title, description, persona), at(i as i64))
            .unwrap();
    }
    let criteria = [
        ("AC-001", "US-001", "Given I am on the login page, When I enter valid credentials, Then I am signed in"),
        ("AC-002", "US-001", "Given I am on the login page, When I enter a wrong password, Then I see an error"),
        ("AC-003", "US-001", "Given I am signed in, When I sign out, Then my session ends"),
        ("AC-004", "US-002", "Given I am on the home page, When I type a name, Then matching products are listed"),
        ("AC-005", "US-002", "Given no product matches, When I search, Then I see an empty result"),
        ("AC-006", "US-003", "Given I have orders, When I open my history, Then they are listed newest first"),
        ("AC-007", "US-003", "Given I have no orders, When I open my history, Then I see a hint"),
        ("AC-008", "US-004", "Given I am signed in, When I change my name, Then it is saved"),
        ("AC-009", "US-004", "Given I am signed in, When I upload a picture, Then it is shown"),
        ("AC-010", "US-005", "Given I am an administrator, When I lock an account, Then its owner cannot sign in"),
    ];
    for (i, (id, user_story_id, description)) in criteria.iter().enumerate() {
        repositories
            .acceptance_criteria
            .create_at(
                &repositories.user_stories,
                criteria_request(id, user_story_id, description),
                at(100 + i as i64),
            )
            .unwrap();
    }
    repositories
}

fn create_test_user_story(service: &mut AcceptanceCriteriaService) -> String {
    let user_story_request = CreateUserStoryRequest {
        id: "US-TEST-001".to_string(),
        title: "Test User Story".to_string(),
        description: "As a user, I want to test this functionality".to_string(),
        persona: "Test User".to_string(),
    };

    service
        .repositories
        .user_stories
        .create(user_story_request.clone())
        .unwrap();

    user_story_request.id
}

fn create_test_criteria_request(user_story_id: String) -> CreateAcceptanceCriteriaRequest {
    CreateAcceptanceCriteriaRequest {
        id: "AC-TEST-001".to_string(),
        user_story_id,
        description: "Given I am on the page, When I click the button, Then something happens"
            .to_string(),
    }
}

fn validation_message(
    result: Result<impl std::fmt::Debug, AcceptanceCriteriaServiceError>,
) -> String {
    match result {
        Err(AcceptanceCriteriaServiceError::Validation { message }) => message,
        other => panic!("expected a validation error, got {:?}", other),
    }
}

#[test]
fn acceptance_criteria_service_test_create_acceptance_criteria() {
    let mut service = AcceptanceCriteriaService::new(Repositories::new());
    let user_story_id = create_test_user_story(&mut service);
    let request = create_test_criteria_request(user_story_id);

    let result = service.create(request.clone());
    assert!(result.is_ok());

    let criteria = result.unwrap();
    assert_eq!(criteria.id, request.id);
    assert_eq!(criteria.description, request.description);
}

#[test]
fn test_create_criteria_for_nonexistent_user_story() {
    let mut service = AcceptanceCriteriaService::new(Repositories::new());
    let request = create_test_criteria_request("US-999".to_string());

    let result = service.create(request);
    assert!(result.is_err());
    assert!(matches!(
        result.unwrap_err(),
        AcceptanceCriteriaServiceError::UserStoryNotFound { .. }
    ));
}

#[test]
fn test_create_duplicate_criteria() {
    let mut service = AcceptanceCriteriaService::new(Repositories::new());
    let user_story_id = create_test_user_story(&mut service);
    let request = create_test_criteria_request(user_story_id);

    // Create first criteria
    service.create(request.clone()).unwrap();

    // Try to create duplicate
    let result = service.create(request);
    assert!(result.is_err());
    assert!(matches!(
        result.unwrap_err(),
        AcceptanceCriteriaServiceError::AlreadyExists { .. }
    ));
}

#[test]
fn acceptance_criteria_service_test_validation_empty_id() {
    let mut service = AcceptanceCriteriaService::new(Repositories::new());
    let user_story_id = create_test_user_story(&mut service);
    let mut request = create_test_criteria_request(user_story_id);
    request.id = "".to_string();

    let result = service.create(request);
    assert!(result.is_err());
    assert!(matches!(
        result.unwrap_err(),
        AcceptanceCriteriaServiceError::Validation { .. }
    ));
}

#[test]
fn acceptance_criteria_service_test_validation_invalid_id_format() {
    let mut service = AcceptanceCriteriaService::new(Repositories::new());
    let user_story_id = create_test_user_story(&mut service);
    let mut request = create_test_criteria_request(user_story_id);
    request.id = "INVALID-001".to_string();

    let result = service.create(request);
    assert!(result.is_err());
    assert!(matches!(
        result.unwrap_err(),
        AcceptanceCriteriaServiceError::Validation { .. }
    ));
}

#[test]
fn acceptance_criteria_service_test_create_batch() {
    let mut service = AcceptanceCriteriaService::new(Repositories::new());
    let user_story_id = create_test_user_story(&mut service);

    let requests = vec![
        CreateAcceptanceCriteriaRequest {
            id: "AC-BATCH-001".to_string(),
            user_story_id: user_story_id.clone(),
            description: "First criteria".to_string(),
        },
        CreateAcceptanceCriteriaRequest {
            id: "AC-BATCH-002".to_string(),
            user_story_id: user_story_id.clone(),
            description: "Second criteria".to_string(),
        },
    ];

    let result = service.create_batch(requests);
    assert!(result.is_ok());

    let criteria_list = result.unwrap();
    assert_eq!(criteria_list.len(), 2);
}

#[test]
fn acceptance_criteria_service_test_get_by_id() {
    let service = AcceptanceCriteriaService::new(fixtures());

    let result = service.get_by_id("AC-001");
    assert!(result.is_ok());

    let criteria = result.unwrap();
    assert_eq!(criteria.id, "AC-001");
    assert_eq!(criteria.user_story_id, "US-001");
}

#[test]
fn test_get_by_user_story_id() {
    let service = AcceptanceCriteriaService::new(fixtures());

    let result = service.get_by_user_story_id("US-001");
    assert!(result.is_ok());

    let criteria_list = result.unwrap();
    assert_eq!(criteria_list.len(), 3); // AC-001, AC-002, AC-003
}

#[test]
fn acceptance_criteria_service_test_update_acceptance_criteria() {
    let mut service = AcceptanceCriteriaService::new(fixtures());

    let update_request = UpdateAcceptanceCriteriaRequest {
        description: Some("Updated description".to_string()),
    };

    let result = service.update("AC-001", update_request);
    assert!(result.is_ok());

    let criteria = result.unwrap();
    assert_eq!(criteria.description, "Updated description");
}

#[test]
fn acceptance_criteria_service_test_delete_acceptance_criteria() {
    let mut service = AcceptanceCriteriaService::new(fixtures());

    let result = service.delete("AC-001");
    assert!(result.is_ok());

    // Verify it's deleted
    let get_result = service.get_by_id("AC-001");
    assert!(get_result.is_err());
    assert!(matches!(
        get_result.unwrap_err(),
        AcceptanceCriteriaServiceError::NotFound { .. }
    ));
}

#[test]
fn acceptance_criteria_service_test_search_criteria() {
    let service = AcceptanceCriteriaService::new(fixtures());

    let result = service.search("login");
    assert!(result.is_ok());

    let criteria_list = result.unwrap();
    assert!(!criteria_list.is_empty());

    for criteria in criteria_list {
        assert!(criteria.description.to_lowercase().contains("login"));
    }
}

#[test]
fn acceptance_criteria_service_test_count_by_user_story_id() {
    let service = AcceptanceCriteriaService::new(fixtures());

    let result = service.count_by_user_story_id("US-001");
    assert!(result.is_ok());

    let count = result.unwrap();
    assert_eq!(count, 3);
}

#[test]
fn acceptance_criteria_service_test_get_statistics() {
    let service = AcceptanceCriteriaService::new(fixtures());

    let stats = service.get_statistics().unwrap();
    assert_eq!(stats.total_criteria, 10);
    assert_eq!(stats.total_stories, 5);
    assert_eq!(
        stats.avg_criteria_per_story.numerator as f64
            / stats.avg_criteria_per_story.denominator as f64,
        2.0
    );
    let of_first = stats
        .criteria_distribution
        .iter()
        .find(|(id, _)| id == "US-001")
        .map(|(_, count)| count);
    assert_eq!(of_first, Some(&3));
}

#[test]
fn criteria_request_is_held_to_each_rule_in_turn() {
    let service = AcceptanceCriteriaService::new(fixtures());
    let check = |id: &str, user_story_id: &str, description: &str| {
        service.validate_create_request(&criteria_request(id, user_story_id, description))
    };
    assert!(check("AC-1", "US-1", "d").is_ok());
    assert_eq!(
        validation_message(check(" ", " ", " ")),
        "Acceptance criteria ID cannot be empty"
    );
    assert_eq!(validation_message(check("X", "", "")), "User story ID cannot be empty");
    assert_eq!(
        validation_message(check("X", "Y", "\r\n")),
        "Acceptance criteria description cannot be empty"
    );
    assert_eq!(
        validation_message(check("X", "Y", "d")),
        "Acceptance criteria ID should start with 'AC-'"
    );
    assert_eq!(
        validation_message(check("AC-1", "AC-1", "d")),
        "User story ID should start with 'US-'"
    );
    assert_eq!(
        validation_message(check("AC-1", "US-1", &"d".repeat(1001))),
        "Acceptance criteria description cannot exceed 1000 characters"
    );
    assert!(check("AC-", "US-", &"d".repeat(1000)).is_ok());
    let update = |description: Option<&str>| {
        service.validate_update_request(&UpdateAcceptanceCriteriaRequest {
            description: description.map(|d| d.to_string()),
        })
    };
    assert!(update(None).is_ok());
    assert!(update(Some("d")).is_ok());
    assert_eq!(
        validation_message(update(Some(""))),
        "Acceptance criteria description cannot be empty"
    );
    let long = "d".repeat(1001);
    assert_eq!(
        validation_message(update(Some(&long))),
        "Acceptance criteria description cannot exceed 1000 characters"
    );
}

#[test]
fn story_with_twenty_criteria_takes_no_more() {
    let mut service = AcceptanceCriteriaService::new(fixtures());
    for i in 0..17 {
        service
            .create(criteria_request(&format!("AC-X{}", i), "US-001", "more"))
            .unwrap();
    }
    assert_eq!(service.count_by_user_story_id("US-001").unwrap(), 20);
    let result = service.create(criteria_request("AC-21", "US-001", "one too many"));
    match result {
        Err(AcceptanceCriteriaServiceError::BusinessRule { message }) => assert_eq!(
            message,
            "User story US-001 already has 20 acceptance criteria. Maximum allowed is 20."
        ),
        other => panic!("expected a business rule error, got {:?}", other),
    }
    assert_eq!(service.count_by_user_story_id("US-001").unwrap(), 20);
    assert_eq!(service.repositories.acceptance_criteria.count().unwrap(), 27);
    // The texts are judged first, the cap before the id and the story.
    let result = service.create(criteria_request("AC-21", "US-001", " "));
    assert!(matches!(result, Err(AcceptanceCriteriaServiceError::Validation { .. })));
    let result = service.create(criteria_request("AC-001", "US-001", "d"));
    assert!(matches!(result, Err(AcceptanceCriteriaServiceError::BusinessRule { .. })));
    // Other stories still take criteria, and an update is not held to the cap.
    assert!(service.create(criteria_request("AC-22", "US-002", "d")).is_ok());
    assert!(service
        .update("AC-001", UpdateAcceptanceCriteriaRequest { description: Some("d".to_string()) })
        .is_ok());
    // The repository takes a row beyond the cap: the rule is the service's.
    let at_table = service.repositories.acceptance_criteria.create(
        &service.repositories.user_stories,
        criteria_request("AC-23", "US-001", "d"),
    );
    assert!(at_table.is_ok());
    let result = service.create(criteria_request("AC-24", "US-001", "d"));
    match result {
        Err(e) => assert_eq!(
            e.to_string(),
            "Business rule violation: User story US-001 already has 21 acceptance criteria. Maximum allowed is 20."
        ),
        Ok(_) => panic!("the cap was passed"),
    }
}

#[test]
fn batch_is_checked_in_rounds() {
    let mut service = AcceptanceCriteriaService::new(fixtures());
    let rows = |service: &AcceptanceCriteriaService| service.repositories.acceptance_criteria.rows().len();
    assert_eq!(
        validation_message(service.create_batch(Vec::new())),
        "Cannot create empty batch of acceptance criteria"
    );
    // One request that is not valid, after one whose id exists and one without a story.
    let result = service.create_batch(vec![
        criteria_request("AC-001", "US-001", "exists"),
        criteria_request("AC-N1", "US-404", "no story"),
        criteria_request("AC-N2", "US-001", " "),
    ]);
    assert_eq!(
        validation_message(result),
        "Acceptance criteria description cannot be empty"
    );
    // Ids are looked up before stories.
    let result = service.create_batch(vec![
        criteria_request("AC-N1", "US-404", "no story"),
        criteria_request("AC-001", "US-001", "exists"),
    ]);
    assert!(matches!(
        result,
        Err(AcceptanceCriteriaServiceError::AlreadyExists { ref id }) if id == "AC-001"
    ));
    // The first story that is missing is named.
    let result = service.create_batch(vec![
        criteria_request("AC-N1", "US-001", "fine"),
        criteria_request("AC-N2", "US-404", "no story"),
        criteria_request("AC-N3", "US-001", "fine"),
        criteria_request("AC-N4", "US-405", "no story"),
    ]);
    assert!(matches!(
        result,
        Err(AcceptanceCriteriaServiceError::UserStoryNotFound { ref user_story_id })
            if user_story_id == "US-404"
    ));
    // Two requests with one id pass the service and are refused by the table.
    let result = service.create_batch(vec![
        criteria_request("AC-N1", "US-001", "fine"),
        criteria_request("AC-N1", "US-002", "again"),
    ]);
    assert!(matches!(
        result,
        Err(AcceptanceCriteriaServiceError::Database(StorageError::UniqueViolation { ref id }))
            if id == "AC-N1"
    ));
    assert_eq!(rows(&service), 10);
    let created = service
        .create_batch(vec![
            criteria_request("AC-N1", "US-001", "fine"),
            criteria_request("AC-N2", "US-002", "fine too"),
            criteria_request("AC-N3", "US-001", "and this"),
        ])
        .unwrap();
    assert_eq!(created.len(), 3);
    assert_eq!(created[2].id, "AC-N3");
    assert_eq!(rows(&service), 13);
    assert_eq!(service.count_by_user_story_id("US-001").unwrap(), 5);
}

#[test]
fn batch_is_held_to_the_cap_as_the_table_stands() {
    let mut service = AcceptanceCriteriaService::new(fixtures());
    for i in 0..16 {
        service.create(criteria_request(&format!("AC-X{}", i), "US-001", "more")).unwrap();
    }
    // The story has 19: each request of the batch is valid, and all of them go in.
    let created = service
        .create_batch(vec![
            criteria_request("AC-Y1", "US-001", "a"),
            criteria_request("AC-Y2", "US-001", "b"),
        ])
        .unwrap();
    assert_eq!(created.len(), 2);
    assert_eq!(service.count_by_user_story_id("US-001").unwrap(), 21);
    let result = service.create_batch(vec![
        criteria_request("AC-Z1", "US-002", "a"),
        criteria_request("AC-Z2", "US-001", "b"),
    ]);
    assert!(matches!(result, Err(AcceptanceCriteriaServiceError::BusinessRule { .. })));
    assert!(service.get_by_id("AC-Z1").is_err());
}

#[test]
fn operations_on_the_criteria_of_a_story_need_the_story() {
    let mut service = AcceptanceCriteriaService::new(fixtures());
    let missing = |e: AcceptanceCriteriaServiceError| {
        matches!(e, AcceptanceCriteriaServiceError::UserStoryNotFound { ref user_story_id } if user_story_id == "US-404")
    };
    assert!(missing(service.get_by_user_story_id("US-404").unwrap_err()));
    assert!(missing(service.count_by_user_story_id("US-404").unwrap_err()));
    assert!(missing(service.delete_by_user_story_id("US-404").unwrap_err()));
    assert_eq!(service.delete_by_user_story_id("US-004").unwrap(), 2);
    assert_eq!(service.delete_by_user_story_id("US-004").unwrap(), 0);
    assert!(service.get_by_user_story_id("US-004").unwrap().is_empty());
    assert_eq!(service.get_all().unwrap().len(), 8);
    assert_eq!(service.delete("AC-404").unwrap_err().to_string(), "Acceptance criteria not found: AC-404");
    assert_eq!(
        service.get_by_user_story_id("US-404").unwrap_err().to_string(),
        "User story not found: US-404"
    );
    assert_eq!(
        service.create(criteria_request("AC-001", "US-001", "d")).unwrap_err().to_string(),
        "Acceptance criteria already exists: AC-001"
    );
    assert_eq!(
        validation_message(service.search("  ")),
        "Search query cannot be empty"
    );
    let result = service.update("AC-404", UpdateAcceptanceCriteriaRequest { description: None });
    assert!(matches!(result, Err(AcceptanceCriteriaServiceError::NotFound { ref id }) if id == "AC-404"));
}

#[test]
fn distribution_lists_every_story_once() {
    let mut stories = UserStoryService::new(fixtures());
    stories.create(story_request("US-006", "Empty", "Nothing yet", "Guest User")).unwrap();
    let service = AcceptanceCriteriaService::new(stories.repositories);
    let stats = service.get_statistics().unwrap();
    assert_eq!(stats.total_stories, 6);
    assert_eq!(stats.total_criteria, 10);
    assert_eq!(stats.avg_criteria_per_story.numerator, 10);
    assert_eq!(stats.avg_criteria_per_story.denominator, 6);
    let mut distribution = stats.criteria_distribution.clone();
    assert_eq!(distribution[0], ("US-006".to_string(), 0));
    distribution.sort();
    assert_eq!(
        distribution,
        vec![
            ("US-001".to_string(), 3),
            ("US-002".to_string(), 2),
            ("US-003".to_string(), 2),
            ("US-004".to_string(), 2),
            ("US-005".to_string(), 1),
            ("US-006".to_string(), 0)
        ]
    );
}

#[test]
fn services_hand_the_tables_on() {
    let services = Services::new(fixtures());
    let mut stories = services.user_stories();
    stories.delete("US-005").unwrap();
    let criteria = Services::new(stories.repositories).acceptance_criteria();
    assert_eq!(criteria.get_all().unwrap().len(), 9);
    assert_eq!(criteria.repositories.user_stories.count().unwrap(), 4);
}
