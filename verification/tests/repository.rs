use poprako_repo::error::BaseError;
use poprako_repo::fixture::{chapter_entry, comic_entry, page_entry, team_entry, user_entry, workset_entry};
use poprako_repo::member::RoleMask;
use poprako_repo::mock::{DriveError, Mock, MockSnapshot, MockState};
use poprako_repo::model::{Event, ImageExt, MemberInfo, TeamInfo, UserCredential, UserInfo};
use poprako_repo::paged::{
    PageLink, RankedUnitInfo, distinct_page_ids, ensure_all_selected, order_in_chapter,
    order_units_by_page, rank_units,
};
use poprako_repo::receipt::{receipt_from_decoded, receipt_from_row, receipt_ids_value};
use poprako_repo::unit::UnitInfo;
use serde_json::Value;
use time::OffsetDateTime;

fn strings(ids: &[&str]) -> Vec<String> {
    ids.iter().map(|s| s.to_string()).collect()
}

fn unrecoverable_message(error: BaseError) -> String {
    match error {
        BaseError::Unrecoverable { message } => message,
        other => panic!("unexpected error {:?}", other),
    }
}

// --- fixtures ---------------------------------------------------------------

#[test]
fn fixture_entries_derive_ids_from_the_prefix() {
    let user = user_entry("p-", "owner");
    assert_eq!(user.id, "p-user-owner");
    assert_eq!(user.nickname, "p-user-owner");
    assert_eq!(user.qid, "p-qid-owner");
    assert_eq!(user.password_hash, "hash");

    let team = team_entry("p-");
    assert_eq!(team.id, "p-team");
    assert_eq!(team.name, "p-team");
    assert_eq!(team.description, "team");

    let workset = workset_entry("p-", &team);
    assert_eq!(workset.id, "p-workset");
    assert_eq!(workset.team_id, "p-team");
    assert_eq!(workset.index, 0);
    assert_eq!(workset.name, "RDB Workset");
    assert_eq!(workset.description.as_deref(), Some("workset"));

    let comic = comic_entry("p-", &workset, &user);
    assert_eq!(comic.id, "p-comic");
    assert_eq!(comic.workset_id, "p-workset");
    assert_eq!(comic.title, "RDB Comic");
    assert_eq!(comic.author, "RDB Author");
    assert_eq!(comic.description.as_deref(), Some("comic"));
    assert_eq!(comic.creator_id, "p-user-owner");

    let chapter = chapter_entry("p-", &comic, &user);
    assert_eq!(chapter.id, "p-chapter");
    assert_eq!(chapter.comic_id, "p-comic");
    assert!(chapter.is_pinned);
    assert_eq!(chapter.subtitle, "RDB Chapter");
    assert_eq!(chapter.creator_id, "p-user-owner");

    let page = page_entry("p-", &chapter);
    assert_eq!(page.id, "p-page");
    assert_eq!(page.chapter_id, "p-chapter");
    assert_eq!(page.image_key, None);
    assert_eq!(page.image_version, 0);
    assert!(page.image_hash.is_empty());
    assert_eq!(page.image_byte_len, 1);
    assert_eq!(page.image_ext, ImageExt::Jpg);
}

#[test]
fn fixture_prefixes_keep_records_apart() {
    assert_ne!(team_entry("a-").id, team_entry("b-").id);
    assert_ne!(user_entry("a-", "x").id, user_entry("a-", "y").id);
}

// --- mock repository --------------------------------------------------------

fn user(id: &str) -> UserInfo {
    UserInfo {
        id: id.to_string(),
        qid: format!("qid-{id}"),
        nickname: id.to_string(),
        avatar_key: None,
        avatar_uploaded: false,
        avatar_version: 0,
        is_sadmin: false,
        last_active_at: OffsetDateTime::UNIX_EPOCH,
        created_at: OffsetDateTime::UNIX_EPOCH,
        updated_at: OffsetDateTime::UNIX_EPOCH,
    }
}

fn team(id: &str) -> TeamInfo {
    TeamInfo { id: id.to_string(), name: id.to_string(), description: String::new() }
}

fn member(id: &str, team_id: &str) -> MemberInfo {
    MemberInfo {
        id: id.to_string(),
        user_id: "u".to_string(),
        user_nickname: "u".to_string(),
        team_id: team_id.to_string(),
        roles: RoleMask { bits: 128 },
    }
}

fn team_ids(snapshot: &MockSnapshot) -> Vec<String> {
    snapshot.teams.iter().map(|t| t.id.clone()).collect()
}

#[test]
fn mock_starts_empty_and_seeds_records() {
    let mut mock = Mock::new();
    assert!(!mock.flags.token_failure && !mock.flags.image_get_failure && !mock.flags.image_put_failure);
    assert_eq!(mock.event_count(), 0);
    mock.seed_user(user("u1"), UserCredential { user_id: "u1".to_string(), password_hash: "h".to_string() });
    mock.seed_team(team("t1"));
    mock.seed_member(member("m1", "t1"));
    let snapshot = mock.snapshot();
    assert_eq!(snapshot.users.len(), 1);
    assert_eq!(snapshot.users[0].id, "u1");
    assert_eq!(snapshot.credentials[0].password_hash, "h");
    assert_eq!(team_ids(&snapshot), strings(&["t1"]));
    assert_eq!(snapshot.members[0].team_id, "t1");
    assert!(snapshot.worksets.is_empty() && snapshot.comics.is_empty() && snapshot.system_mails.is_empty());
}

#[test]
fn mock_snapshot_is_a_copy() {
    let mut mock = Mock::new();
    mock.seed_team(team("t1"));
    let before = mock.snapshot();
    mock.seed_team(team("t2"));
    assert_eq!(team_ids(&before), strings(&["t1"]));
    assert_eq!(team_ids(&mock.snapshot()), strings(&["t1", "t2"]));
}

#[test]
fn mock_commits_a_successful_transaction() {
    let mut mock = Mock::new();
    mock.seed_team(team("t1"));
    let mut context = mock.open_context();
    context.state.teams.push(team("t2"));
    let result: Result<u32, DriveError<String>> = mock.settle_context(context, Ok(7));
    assert!(matches!(result, Ok(7)));
    assert_eq!(team_ids(&mock.snapshot()), strings(&["t1", "t2"]));
}

#[test]
fn mock_rolls_back_a_failed_transaction() {
    let mut mock = Mock::new();
    mock.seed_team(team("t1"));
    let mut context = mock.open_context();
    context.state.teams.clear();
    context.state.teams.push(team("t2"));
    let result: Result<u32, DriveError<String>> = mock.settle_context(context, Err("boom".to_string()));
    match result {
        Err(DriveError::Advance(e)) => assert_eq!(e, "boom"),
        _ => panic!("expected the operation error"),
    }
    assert_eq!(team_ids(&mock.snapshot()), strings(&["t1"]));
}

#[test]
fn mock_failure_flags_and_events() {
    let mock = Mock::new().with_token_failure().with_image_put_failure();
    assert!(mock.flags.token_failure);
    assert!(!mock.flags.image_get_failure);
    assert!(mock.flags.image_put_failure);
    let mut mock = mock.with_image_get_failure();
    assert!(mock.flags.image_get_failure);
    mock.events.push(Event { name: "a".to_string() });
    mock.events.push(Event { name: "b".to_string() });
    assert_eq!(mock.event_count(), 2);
    let drained = mock.drain_events();
    assert_eq!(drained.iter().map(|e| e.name.as_str()).collect::<Vec<_>>(), vec!["a", "b"]);
    assert_eq!(mock.event_count(), 0);
}

#[test]
fn mock_state_duplicate_copies_every_list() {
    let mut state = MockState::empty();
    state.teams.push(team("t1"));
    let copy = state.duplicate();
    assert_eq!(copy.teams.len(), 1);
    assert_eq!(copy.teams[0].id, "t1");
    let snapshot = MockSnapshot::from(copy);
    assert_eq!(team_ids(&snapshot), strings(&["t1"]));
}

// --- save receipts ----------------------------------------------------------

fn json_ids(ids: &[&str]) -> Value {
    Value::Array(ids.iter().map(|s| Value::String(s.to_string())).collect())
}

#[test]
fn receipt_ids_encode_as_a_json_array() {
    let value = receipt_ids_value(&strings(&["u1", "u2"])).unwrap();
    assert_eq!(value, json_ids(&["u1", "u2"]));
    assert_eq!(receipt_ids_value(&Vec::new()).unwrap(), Value::Array(Vec::new()));
}

#[test]
fn receipt_rows_decode_their_ids() {
    let info = receipt_from_row(
        &"user".to_string(),
        &"page".to_string(),
        &"save".to_string(),
        vec![1, 2],
        json_ids(&["u1", "u2"]),
    )
    .unwrap();
    assert_eq!(info.user_id, "user");
    assert_eq!(info.page_id, "page");
    assert_eq!(info.save_id, "save");
    assert_eq!(info.payload_digest, vec![1, 2]);
    assert_eq!(info.created_unit_ids, strings(&["u1", "u2"]));
}

#[test]
fn stored_receipts_read_back_their_ids() {
    let ids = strings(&["u1", "u2", "u3"]);
    let stored = receipt_ids_value(&ids).unwrap();
    let info = receipt_from_row(&"user".to_string(), &"page".to_string(), &"save".to_string(), Vec::new(), stored)
        .unwrap();
    assert_eq!(info.created_unit_ids, ids);
}

#[test]
fn corrupt_receipts_are_unrecoverable() {
    let error = receipt_from_row(
        &"user".to_string(),
        &"page".to_string(),
        &"save".to_string(),
        Vec::new(),
        Value::Bool(true),
    )
    .unwrap_err();
    assert_eq!(unrecoverable_message(error), "Invalid Unit save receipt");
    let decode_error = serde_json::from_value::<Vec<String>>(Value::Null).unwrap_err();
    let error = receipt_from_decoded(
        &"user".to_string(),
        &"page".to_string(),
        &"save".to_string(),
        Vec::new(),
        Err(decode_error),
    )
    .unwrap_err();
    assert_eq!(unrecoverable_message(error), "Invalid Unit save receipt");
}

// --- Units across Pages -----------------------------------------------------

fn unit(id: &str, page_id: &str, next_id: Option<&str>) -> UnitInfo {
    UnitInfo {
        id: id.to_string(),
        page_id: page_id.to_string(),
        next_id: next_id.map(str::to_string),
        translated_text: None,
        proofread_text: None,
        is_proofread: false,
        hidden_at: None,
    }
}

fn link(page_id: &str, id: &str, next_id: Option<&str>) -> PageLink {
    PageLink { page_id: page_id.to_string(), id: id.to_string(), next_id: next_id.map(str::to_string) }
}

fn unit_ids(units: &[UnitInfo]) -> Vec<&str> {
    units.iter().map(|u| u.id.as_str()).collect()
}

#[test]
fn units_are_ordered_page_by_page() {
    let rows = vec![
        unit("b2", "pb", None),
        unit("a2", "pa", None),
        unit("b1", "pb", Some("b2")),
        unit("a1", "pa", Some("a2")),
        unit("c1", "pc", None),
    ];
    let ordered = order_units_by_page(rows, &strings(&["pb", "pa"])).unwrap();
    assert_eq!(unit_ids(&ordered), vec!["b1", "b2", "a1", "a2"]);
}

#[test]
fn a_broken_page_chain_fails_the_whole_listing() {
    let rows = vec![unit("a1", "pa", Some("zz")), unit("b1", "pb", None)];
    let error = order_units_by_page(rows, &strings(&["pa", "pb"])).unwrap_err();
    assert_eq!(unrecoverable_message(error), "persisted Unit chain is corrupt");
}

#[test]
fn units_are_ranked_within_their_page() {
    let links = vec![
        link("pa", "a2", None),
        link("pb", "b1", None),
        link("pa", "a1", Some("a2")),
    ];
    let ranks = rank_units(links, &strings(&["pa", "pb"])).unwrap();
    assert_eq!(ranks, vec![("a1".to_string(), 0), ("a2".to_string(), 1), ("b1".to_string(), 0)]);
}

#[test]
fn selected_units_follow_chapter_order() {
    let candidates = vec![
        RankedUnitInfo { page_index: 1, unit_info: unit("b1", "pb", None) },
        RankedUnitInfo { page_index: 0, unit_info: unit("a2", "pa", None) },
        RankedUnitInfo { page_index: 0, unit_info: unit("a1", "pa", Some("a2")) },
    ];
    assert_eq!(distinct_page_ids(&candidates), strings(&["pb", "pa"]));
    let ranks = vec![("a1".to_string(), 0), ("a2".to_string(), 1), ("b1".to_string(), 0)];
    let ordered = order_in_chapter(candidates, &ranks).unwrap();
    assert_eq!(unit_ids(&ordered), vec!["a1", "a2", "b1"]);
}

#[test]
fn unranked_selections_are_corrupt() {
    let candidates = vec![RankedUnitInfo { page_index: 0, unit_info: unit("x", "pa", None) }];
    let error = order_in_chapter(candidates, &Vec::new()).unwrap_err();
    assert_eq!(unrecoverable_message(error), "persisted Unit chain is corrupt");
    assert!(ensure_all_selected(2, 2).is_ok());
    assert_eq!(unrecoverable_message(ensure_all_selected(1, 2).unwrap_err()), "persisted Unit chain is corrupt");
}
