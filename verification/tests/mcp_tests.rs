use mcp_user_stories::clock::Timestamp;
use mcp_user_stories::mcp::server::TOOL_ERROR_CODE;
use mcp_user_stories::mcp::{
    CreateUserStoryParams, GetUserStoryParams, SearchUserStoriesParams, StatisticsResponse,
    ToolError, UserStoryResponse, UserStoryServer,
};
use mcp_user_stories::models::{CreateAcceptanceCriteriaRequest, CreateUserStoryRequest};
use mcp_user_stories::repositories::Repositories;
use mcp_user_stories::services::UserStoryServiceError;

fn at(seconds: i64) -> Timestamp {
    Timestamp::new(1_700_000_000 + seconds, 0)
}

fn story_request(id: &str, title: &str, description: &str, persona: &str) -> CreateUserStoryRequest {
    CreateUserStoryRequest {
        id: id.to_string(),
        title: title.to_string(),
        description: description.to_string(),
        persona: persona.to_string(),
    }
}

fn criteria_request(id: &str, user_story_id: &str, description: &str) -> CreateAcceptanceCriteriaRequest {
    CreateAcceptanceCriteriaRequest {
        id: id.to_string(),
        user_story_id: user_story_id.to_string(),
        description: description.to_string(),
    }
}

/// Five stories of three personas, and ten criteria, three of them of `US-001`.
fn fixtures() -> Repositories {
    let mut repositories = Repositories::new();
    let stories = [
        ("US-001", "User Login Feature", "As a registered user, I want to sign in so that I can reach my account", "Registered User"),
        ("US-002", "Product Search", "As a visitor, I want to find products by name", "Guest User"),
        ("US-003", "Order History", "As a registered user, I want to see my past orders", "Registered User"),
        ("US-004", "Profile Settings", "As a registered user, I want to change my profile", "Registered User"),
        ("US-005", "User Management", "As an administrator, I want to manage accounts", "Administrator"),
    ];
    for (i, (id, title, description, persona)) in stories.iter().enumerate() {
        repositories
            .user_stories
            .create_at(story_request(id, title, description, persona), at(i as i64))
            .unwrap();
    }
    let criteria = [
        ("AC-001", "US-001", "Given I am on the login page, When I enter valid credentials, Then I am signed in"),
        ("AC-002", "US-001", "Given I am on the login page, When I enter a wrong password, Then I see an error"),
        ("AC-003", "US-001", "Given I am signed in, When I sign out, Then my session ends"),
        ("AC-004", "US-002", "Given I am on the home page, When I type a name, Then matching products are listed"),
        ("AC-005", "US-002", "Given no product matches, When I search, Then I see an empty result"),
        ("AC-006", "US-003", "Given I have orders, When I open my history, Then they are listed newest first"),
        ("AC-007", "US-003", "Given I have no orders, When I open my history, Then I see a hint"),
        ("AC-008", "US-004", "Given I am signed in, When I change my name, Then it is saved"),
        ("AC-009", "US-004", "Given I am signed in, When I upload a picture, Then it is shown"),
        ("AC-010", "US-005", "Given I am an administrator, When I lock an account, Then its owner cannot sign in"),
    ];
    for (i, (id, user_story_id, description)) in criteria.iter().enumerate() {
        repositories
            .acceptance_criteria
            .create_at(
                &repositories.user_stories,
                criteria_request(id, user_story_id, description),
                at(100 + i as i64),
            )
            .unwrap();
    }
    repositories
}

fn params(id: &str, title: &str, description: &str, persona: &str) -> CreateUserStoryParams {
    CreateUserStoryParams {
        id: id.to_string(),
        title: title.to_string(),
        description: description.to_string(),
        persona: persona.to_string(),
    }
}

fn written_by_chrono(t: Timestamp) -> String {
    chrono::DateTime::from_timestamp(t.seconds, t.nanoseconds).unwrap().naive_utc().to_string()
}

#[test]
fn integration_tests_test_create_user_story() {
    let mut server = UserStoryServer::new(Repositories::new());
    let result = server.create_user_story(params(
        "US-CREATE-001",
        "Test Story Creation",
        "This story tests the create functionality",
        "Test User",
    ));
    let response = result.unwrap();
    assert_eq!(response.id, "US-CREATE-001");
    assert_eq!(response.title, "Test Story Creation");
    assert_eq!(response.description, "This story tests the create functionality");
    assert_eq!(response.persona, "Test User");
    assert_eq!(response.created_at, response.updated_at);
}

#[test]
fn test_get_user_story() {
    let mut server = UserStoryServer::new(Repositories::new());
    server
        .create_user_story(params(
            "US-GET-001",
            "Story to Retrieve",
            "This story will be retrieved",
            "Retrieval User",
        ))
        .unwrap();
    let response = server
        .get_user_story(GetUserStoryParams { id: "US-GET-001".to_string() })
        .unwrap();
    assert_eq!(response.title, "Story to Retrieve");
    assert_eq!(response.persona, "Retrieval User");
}

#[test]
fn integration_tests_test_get_all_user_stories() {
    let mut server = UserStoryServer::new(Repositories::new());
    for (id, title, description) in [
        ("US-ALL-001", "First Story", "First description"),
        ("US-ALL-002", "Second Story", "Second description"),
        ("US-ALL-003", "Third Story", "Third description"),
    ] {
        server.create_user_story(params(id, title, description, "Test User")).unwrap();
    }
    let all = server.get_all_user_stories().unwrap();
    assert_eq!(all.len(), 3);
    let mut ids: Vec<String> = all.into_iter().map(|s| s.id).collect();
    ids.sort();
    assert_eq!(ids, vec!["US-ALL-001", "US-ALL-002", "US-ALL-003"]);
}

#[test]
fn integration_tests_test_search_user_stories() {
    let mut server = UserStoryServer::new(Repositories::new());
    server
        .create_user_story(params(
            "US-SEARCH-001",
            "Searchable Story FINDME",
            "This story contains searchable content with KEYWORD",
            "Search User",
        ))
        .unwrap();
    let found = server
        .search_user_stories(SearchUserStoriesParams { query: "FINDME".to_string() })
        .unwrap();
    assert_eq!(found.len(), 1);
    assert_eq!(found[0].id, "US-SEARCH-001");
}

#[test]
fn integration_tests_test_get_statistics() {
    let server = UserStoryServer::new(Repositories::new());
    let stats = server.get_user_stories_statistics().unwrap();
    assert_eq!(stats.total_stories, 0);
    assert!(stats.stories_by_persona.is_empty());
}

#[test]
fn test_full_workflow() {
    let mut server = UserStoryServer::new(Repositories::new());
    server
        .create_user_story(params(
            "US-WORKFLOW-001",
            "Workflow Test Story",
            "This story tests the complete workflow",
            "Workflow User",
        ))
        .unwrap();
    let story = server
        .get_user_story(GetUserStoryParams { id: "US-WORKFLOW-001".to_string() })
        .unwrap();
    assert_eq!(story.title, "Workflow Test Story");
    let found = server
        .search_user_stories(SearchUserStoriesParams { query: "Workflow".to_string() })
        .unwrap();
    assert_eq!(found.len(), 1);
    let stats = server.get_user_stories_statistics().unwrap();
    assert_eq!(stats.total_stories, 1);
    assert_eq!(stats.stories_by_persona, vec![("Workflow User".to_string(), 1)]);
}

#[test]
fn tools_fail_with_the_code_and_the_message_of_the_service() {
    let mut server = UserStoryServer::new(fixtures());
    let e = server.create_user_story(params("US-001", "t", "d", "p")).unwrap_err();
    assert_eq!(e.code, -32000);
    assert_eq!(e.code, TOOL_ERROR_CODE);
    assert_eq!(e.message, "User story already exists: US-001");
    let e = server.create_user_story(params("X-1", "t", "d", "p")).unwrap_err();
    assert_eq!(e.message, "Validation error: User story ID should start with 'US-'");
    let e = server.get_user_story(GetUserStoryParams { id: "US-404".to_string() }).unwrap_err();
    assert_eq!(e.code, -32000);
    assert_eq!(e.message, "User story not found: US-404");
    let e = server
        .search_user_stories(SearchUserStoriesParams { query: " ".to_string() })
        .unwrap_err();
    assert_eq!(e.message, "Validation error: Search query cannot be empty");
    let e = ToolError::from_error(&UserStoryServiceError::NotFound { id: "US-7".to_string() });
    assert_eq!((e.code, e.message.as_str()), (-32000, "User story not found: US-7"));
    assert_eq!(server.services.repositories.user_stories.count().unwrap(), 5);
}

#[test]
fn responses_show_the_times_as_dates() {
    let server = UserStoryServer::new(fixtures());
    let response = server.get_user_story(GetUserStoryParams { id: "US-002".to_string() }).unwrap();
    assert_eq!(response.created_at, "2023-11-14 22:13:21");
    assert_eq!(response.updated_at, "2023-11-14 22:13:21");
    assert_eq!(response.persona, "Guest User");
    let all = server.get_all_user_stories().unwrap();
    let ids: Vec<&str> = all.iter().map(|s| s.id.as_str()).collect();
    assert_eq!(ids, vec!["US-005", "US-004", "US-003", "US-002", "US-001"]);
    assert_eq!(all[4].created_at, "2023-11-14 22:13:20");
}

fn written(t: Timestamp) -> Option<String> {
    let story = mcp_user_stories::models::UserStory {
        id: "US-1".to_string(),
        title: "t".to_string(),
        description: "d".to_string(),
        persona: "p".to_string(),
        created_at: t,
        updated_at: Timestamp::new(0, 0),
    };
    UserStoryResponse::from_story(story).map(|response| {
        assert_eq!(response.updated_at, "1970-01-01 00:00:00");
        response.created_at
    })
}

#[test]
fn timestamps_are_written_as_chrono_writes_them() {
    assert_eq!(written(Timestamp::new(1431648000, 0)).unwrap(), "2015-05-15 00:00:00");
    assert_eq!(written(Timestamp::new(0, 0)).unwrap(), "1970-01-01 00:00:00");
    assert_eq!(written(Timestamp::new(0, 500_000_000)).unwrap(), "1970-01-01 00:00:00.500");
    assert_eq!(
        written(Timestamp::new(-1, 123_456_789)).unwrap(),
        "1969-12-31 23:59:59.123456789"
    );
    assert_eq!(written(Timestamp::new(59, 1_500_000_000)).unwrap(), "1970-01-01 00:00:60.500");
    for t in [
        Timestamp::new(1_700_000_000, 1),
        Timestamp::new(-86_400 * 365, 999_999_999),
        Timestamp::new(253_402_300_799, 0),
    ] {
        assert_eq!(written(t).unwrap(), written_by_chrono(t));
    }
    assert!(written(Timestamp::new(i64::MAX, 0)).is_none());
    assert!(written(Timestamp::new(i64::MIN, 0)).is_none());
    assert!(written(Timestamp::new(0, 2_000_000_000)).is_none());
    assert!(written(Timestamp::new(0, 1_000_000_000)).is_none());
}

#[test]
fn story_without_a_date_has_no_response() {
    let mut repositories = Repositories::new();
    let story = repositories
        .user_stories
        .create_at(story_request("US-FAR", "t", "d", "p"), Timestamp::new(i64::MAX, 0))
        .unwrap();
    assert!(UserStoryResponse::from_story(story.clone()).is_none());
    let shown = UserStoryResponse::with_dates(story, "then".to_string(), "now".to_string());
    assert_eq!((shown.created_at.as_str(), shown.updated_at.as_str()), ("then", "now"));
    assert_eq!(shown.id, "US-FAR");
    let server = UserStoryServer::new(repositories);
    let e = server.get_user_story(GetUserStoryParams { id: "US-FAR".to_string() }).unwrap_err();
    assert_eq!((e.code, e.message.as_str()), (-32000, "Timestamp out of range"));
    assert_eq!(server.get_all_user_stories().unwrap_err().message, "Timestamp out of range");
    assert_eq!(ToolError::undated().message, "Timestamp out of range");
}

#[test]
fn statistics_response_keeps_the_counts() {
    let server = UserStoryServer::new(fixtures());
    let response = server.get_user_stories_statistics().unwrap();
    assert_eq!(response.total_stories, 5);
    assert_eq!(
        response.stories_by_persona,
        vec![
            ("Administrator".to_string(), 1),
            ("Registered User".to_string(), 3),
            ("Guest User".to_string(), 1)
        ]
    );
    let stats = server.services.get_statistics().unwrap();
    let again = StatisticsResponse::from(stats);
    assert_eq!(again.total_stories, 5);
    assert_eq!(again.stories_by_persona.len(), 3);
    let request = params("US-1", "t", "d", "p").into_request();
    assert_eq!((request.id.as_str(), request.title.as_str()), ("US-1", "t"));
    assert_eq!((request.description.as_str(), request.persona.as_str()), ("d", "p"));
}

#[test]
fn search_fails_only_where_a_story_that_it_finds_has_no_date() {
    let mut repositories = fixtures();
    repositories
        .user_stories
        .create_at(story_request("US-FAR", "Far away", "d", "p"), Timestamp::new(i64::MAX, 0))
        .unwrap();
    let server = UserStoryServer::new(repositories);
    let search = |query: &str| {
        server.search_user_stories(SearchUserStoriesParams { query: query.to_string() })
    };
    // The story without a date is not among those that the query finds.
    let found = search("login").unwrap();
    assert_eq!(found.len(), 1);
    assert_eq!(found[0].id, "US-001");
    assert!(search("nothing like this").unwrap().is_empty());
    // It is among them.
    let e = search("far").unwrap_err();
    assert_eq!((e.code, e.message.as_str()), (-32000, "Timestamp out of range"));
    let e = search("a").unwrap_err();
    assert_eq!(e.message, "Timestamp out of range");
}
