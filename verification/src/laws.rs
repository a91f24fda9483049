//! What holds of the services over several calls, stated over the same
//! predicates as their contracts.

use crate::clock::Timestamp;
use crate::models::{
    AcceptanceCriteria, CreateAcceptanceCriteriaRequest, CreateUserStoryRequest,
    UpdateUserStoryRequest, UserStory,
};
use crate::repositories::acceptance_criteria_repository::{
    new_criteria, of_other_story, of_story,
};
use crate::repositories::table::{
    arranged, has_id, ids_distinct, lemma_arranged, lemma_filter_commutes_with_order,
    lemma_filter_holds,
    lemma_insert_keeps_ids_distinct, lemma_place_of_row, place_of, row_with_id, Record,
};
use crate::repositories::user_story_repository::{
    grouped_by_persona, has_persona, new_story, revised_story, story_matches,
};
use crate::repositories::refers_to_stories;
use crate::services::acceptance_criteria_service::{
    create_batch_fault, validation_fault, validation_faults,
    AcceptanceCriteriaServiceFault, MAX_CRITERIA_PER_STORY,
};
use crate::services::user_story_service::{
    create_with_criteria_fault, foreign_criteria_fault, update_fault, UserStoryServiceFault,
};
use crate::services::{lemma_first_fault, lemma_first_fault_is_one};
use vstd::prelude::*;

verus! {

/// A row that has just been added to a table of distinct ids, under an id
/// that the table did not have, is the row found under that id.
pub proof fn lemma_added_row_is_found<R: Record>(rows: Seq<R>, row: R)
    requires
        ids_distinct(rows),
        !has_id(rows, row.key()),
    ensures
        ids_distinct(rows.push(row)),
        row_with_id(rows.push(row), row.key()) == Some(row),
{
    lemma_insert_keeps_ids_distinct(rows, rows.len() as int, row);
    assert(rows.insert(rows.len() as int, row) =~= rows.push(row));
    lemma_place_of_row(rows.push(row), rows.len() as int);
}

/// A story that the service has created is read back under its id with the
/// title, the description and the persona of its request, and with one time
/// for its creation and for its last update.
pub proof fn lemma_created_story_is_read_back(
    stories: Seq<UserStory>,
    request: CreateUserStoryRequest,
    now: Timestamp,
)
    requires
        ids_distinct(stories),
        crate::services::user_story_service::create_fault(stories, request) is None,
    ensures
        row_with_id(stories.push(new_story(request, now)), request.id@) matches Some(story) && {
            &&& story.id == request.id
            &&& story.title == request.title
            &&& story.description == request.description
            &&& story.persona == request.persona
            &&& story.created_at == story.updated_at
        },
{
    lemma_added_row_is_found(stories, new_story(request, now));
}

/// A criteria that the service has created is read back under its id with
/// the story and the description of its request, and with one time for its
/// creation and for its last update.
pub proof fn lemma_created_criteria_is_read_back(
    criteria: Seq<AcceptanceCriteria>,
    stories: Seq<UserStory>,
    request: CreateAcceptanceCriteriaRequest,
    now: Timestamp,
)
    requires
        ids_distinct(criteria),
        crate::services::acceptance_criteria_service::create_fault(criteria, stories, request)
            is None,
    ensures
        row_with_id(criteria.push(new_criteria(request, now)), request.id@) matches Some(found)
            && {
            &&& found.id == request.id
            &&& found.user_story_id == request.user_story_id
            &&& found.description == request.description
            &&& found.created_at == found.updated_at
        },
{
    lemma_added_row_is_found(criteria, new_criteria(request, now));
}

/// Once a story has been created, a second request with its id, which keeps
/// the rules, is refused because the story exists.
pub proof fn lemma_second_story_is_refused(
    stories: Seq<UserStory>,
    first: CreateUserStoryRequest,
    now: Timestamp,
    second: CreateUserStoryRequest,
)
    requires
        second.id@ == first.id@,
        crate::services::user_story_service::create_request_fault(second) is None,
    ensures
        crate::services::user_story_service::create_fault(
            stories.push(new_story(first, now)),
            second,
        ) == Some(UserStoryServiceFault::AlreadyExists { id: second.id@ }),
{
    let after = stories.push(new_story(first, now));
    assert(after[after.len() - 1].key() == second.id@);
}

/// Once a criteria has been created, a second request with its id, which is
/// valid in the table as it then is, is refused because the criteria exists.
pub proof fn lemma_second_criteria_is_refused(
    criteria: Seq<AcceptanceCriteria>,
    stories: Seq<UserStory>,
    first: CreateAcceptanceCriteriaRequest,
    now: Timestamp,
    second: CreateAcceptanceCriteriaRequest,
)
    requires
        second.id@ == first.id@,
        validation_fault(criteria.push(new_criteria(first, now)), second) is None,
    ensures
        crate::services::acceptance_criteria_service::create_fault(
            criteria.push(new_criteria(first, now)),
            stories,
            second,
        ) == Some(AcceptanceCriteriaServiceFault::AlreadyExists { id: second.id@ }),
{
    let after = criteria.push(new_criteria(first, now));
    assert(after[after.len() - 1].key() == second.id@);
}

/// Where every criteria refers to a story of the table, a story that the
/// table does not hold has no criteria.
pub proof fn lemma_unknown_story_has_no_criteria(
    criteria: Seq<AcceptanceCriteria>,
    stories: Seq<UserStory>,
    user_story_id: Seq<char>,
)
    requires
        refers_to_stories(criteria, stories),
        !has_id(stories, user_story_id),
    ensures
        criteria.filter(of_story(user_story_id)).len() == 0,
    decreases criteria.len(),
{
    reveal(Seq::filter);
    if criteria.len() > 0 {
        let head = criteria.drop_last();
        assert forall|i: int| 0 <= i < head.len() implies has_id(
            stories,
            (#[trigger] head[i]).user_story_id@,
        ) by {
            assert(head[i] == criteria[i]);
        }
        lemma_unknown_story_has_no_criteria(head, stories, user_story_id);
        assert(has_id(stories, criteria[criteria.len() - 1].user_story_id@));
    }
}

/// A request for a criteria of a story that does not exist, with texts that
/// keep the rules and an id that is new, is refused because the story is not
/// found.
pub proof fn lemma_criteria_needs_its_story(
    criteria: Seq<AcceptanceCriteria>,
    stories: Seq<UserStory>,
    request: CreateAcceptanceCriteriaRequest,
)
    requires
        refers_to_stories(criteria, stories),
        crate::services::acceptance_criteria_service::create_request_fault(request) is None,
        !has_id(criteria, request.id@),
        !has_id(stories, request.user_story_id@),
    ensures
        crate::services::acceptance_criteria_service::create_fault(criteria, stories, request)
            == Some(
            AcceptanceCriteriaServiceFault::UserStoryNotFound {
                user_story_id: request.user_story_id@,
            },
        ),
{
    lemma_unknown_story_has_no_criteria(criteria, stories, request.user_story_id@);
}

/// A story with criteria of which one names another story is refused as not
/// valid, whatever else holds of the requests.
pub proof fn lemma_foreign_criteria_is_refused(
    stories: Seq<UserStory>,
    request: CreateUserStoryRequest,
    criteria: Seq<CreateAcceptanceCriteriaRequest>,
    k: int,
)
    requires
        0 <= k < criteria.len(),
        criteria[k].user_story_id@ != request.id@,
    ensures
        create_with_criteria_fault(stories, request, criteria) matches Some(fault)
            && fault is Validation,
{
    let faults = foreign_criteria_fault(criteria, request.id@);
    lemma_first_fault(faults, criteria.len() as int, 0);
    assert(faults(k) is Some);
}

/// Once the criteria of a story have gone with it, none of those that are
/// left belongs to it.
pub proof fn lemma_deleted_story_leaves_no_criteria(
    criteria: Seq<AcceptanceCriteria>,
    user_story_id: Seq<char>,
)
    ensures
        criteria.filter(of_other_story(user_story_id)).filter(of_story(user_story_id)).len() == 0,
        arranged(
            criteria.filter(of_other_story(user_story_id)).filter(of_story(user_story_id)),
            false,
        ) == Seq::<AcceptanceCriteria>::empty(),
    decreases criteria.len(),
{
    reveal(Seq::filter);
    if criteria.len() > 0 {
        lemma_deleted_story_leaves_no_criteria(criteria.drop_last(), user_story_id);
        let kept = criteria.drop_last().filter(of_other_story(user_story_id));
        if of_other_story(user_story_id)(criteria.last()) {
            assert(kept.push(criteria.last()).drop_last() =~= kept);
        }
    }
    let left = criteria.filter(of_other_story(user_story_id)).filter(of_story(user_story_id));
    assert(left =~= Seq::<AcceptanceCriteria>::empty());
}

/// A request with texts that keep the rules, for a story that has 20
/// criteria or more, is refused for the business rule.
pub proof fn lemma_full_story_takes_no_criteria(
    criteria: Seq<AcceptanceCriteria>,
    stories: Seq<UserStory>,
    request: CreateAcceptanceCriteriaRequest,
)
    requires
        crate::services::acceptance_criteria_service::create_request_fault(request) is None,
        criteria.filter(of_story(request.user_story_id@)).len() >= MAX_CRITERIA_PER_STORY,
    ensures
        crate::services::acceptance_criteria_service::create_fault(criteria, stories, request)
            matches Some(fault) && fault is BusinessRule,
{
}

/// The stories that a search lists are the stories of the table that the
/// query matches, all of them.
pub proof fn lemma_search_lists_the_matches(
    stories: Seq<UserStory>,
    query: Seq<char>,
    story: UserStory,
)
    ensures
        arranged(stories.filter(story_matches(query)), true).contains(story) <==> (
        stories.contains(story) && story_matches(query)(story)),
{
    let found = stories.filter(story_matches(query));
    lemma_arranged(found, true);
    lemma_filter_holds(stories, story_matches(query), story);
}

/// An update that gives no field leaves the story as it was, but for the time
/// of its last update, which is the time of the update.
pub proof fn lemma_empty_update_only_refreshes(
    stories: Seq<UserStory>,
    id: Seq<char>,
    request: UpdateUserStoryRequest,
    now: Timestamp,
)
    requires
        has_id(stories, id),
        request.title is None,
        request.description is None,
        request.persona is None,
    ensures
        update_fault(stories, id, request) is None,
        revised_story(stories[place_of(stories, id)], request, now) == (UserStory {
            updated_at: now,
            ..stories[place_of(stories, id)]
        }),
{
}

/// A batch with a request that is not valid is refused, so that none of it is created.
pub proof fn lemma_batch_with_invalid_request_is_refused(
    criteria: Seq<AcceptanceCriteria>,
    stories: Seq<UserStory>,
    requests: Seq<CreateAcceptanceCriteriaRequest>,
    k: int,
)
    requires
        0 <= k < requests.len(),
        validation_fault(criteria, requests[k]) is Some,
    ensures
        create_batch_fault(criteria, stories, requests) is Some,
        !(create_batch_fault(criteria, stories, requests)->0 is Database),
{
    let faults = validation_faults(criteria, requests);
    lemma_first_fault(faults, requests.len() as int, 0);
    assert(faults(k) is Some);
    lemma_first_fault_is_one(faults, requests.len() as int, 0);
}

/// Over empty tables every figure is zero: there are no stories, no criteria
/// and no personas, and the average is `0 / 1`.
pub proof fn lemma_figures_of_empty_tables(stats: crate::services::UserStoryStatistics)
    requires
        crate::services::user_story_service::statistics_of(
            stats,
            Seq::<UserStory>::empty(),
            Seq::<AcceptanceCriteria>::empty(),
        ),
    ensures
        stats.total_stories == 0,
        stats.total_criteria == 0,
        stats.personas_count == 0,
        stats.avg_criteria_per_story == (crate::services::Ratio { numerator: 0, denominator: 1 }),
        stats.stories_by_persona@.len() == 0,
{
    lemma_arranged(Seq::<UserStory>::empty(), true);
    assert(arranged(Seq::<UserStory>::empty(), true) =~= Seq::<UserStory>::empty());
}

/// The stories that the grouping gives for a persona are the stories that
/// are listed for that persona, in the same order.
pub proof fn lemma_group_is_the_listing_of_its_persona(
    groups: Seq<(String, Vec<UserStory>)>,
    stories: Seq<UserStory>,
    g: int,
)
    requires
        grouped_by_persona(groups, arranged(stories, true)),
        0 <= g < groups.len(),
    ensures
        groups[g].1@ == arranged(stories.filter(has_persona(groups[g].0@)), true),
{
    lemma_filter_commutes_with_order(stories, true, has_persona(groups[g].0@));
}

/// The stories that a search lists are the stories of the full list that the
/// query matches, in the order of that list.
pub proof fn lemma_search_keeps_the_order_of_the_list(stories: Seq<UserStory>, query: Seq<char>)
    ensures
        arranged(stories.filter(story_matches(query)), true) == arranged(stories, true).filter(
            story_matches(query),
        ),
{
    lemma_filter_commutes_with_order(stories, true, story_matches(query));
}

} // verus!
