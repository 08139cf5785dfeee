use poprako_repo::avatar::{AvatarPlan, StoredAvatar, advance_avatar_reservation, plan_avatar_reservation};
use poprako_repo::error::{BaseError, ExpectedVariant};
use poprako_repo::member::{
    MemberEntry, MemberRoleRepl, RoleField, RoleMask, aspect_from_nickname,
    aspect_from_role_update, entity_from_entry, new_member_row, role_timestamps_from_mask,
};
use poprako_repo::page::{
    edited_page_ids, ensure_chapter_page_count, ensure_manifest_rows, split_raw_idents,
};
use poprako_repo::resource::{
    ResolveTeamId, authorize_mark_read, ensure_avatar_marked, ensure_team_updated, missing,
    missing_resource, missing_team, missing_workset,
};
use poprako_repo::subtree::{
    HierarchyLevel, SubtreeDeleteScope, SubtreeRoot, direct_chapter_id, missing_root,
    tombstone_marks, tombstone_plan,
};
use poprako_repo::term::{TermEntry, TermRepl, ensure_upsert_affected, ensure_upsert_ids};
use time::OffsetDateTime;

fn expected_of(error: BaseError) -> (ExpectedVariant, String) {
    match error {
        BaseError::Expected { variant, message } => (variant, message),
        other => panic!("unexpected error {:?}", other),
    }
}

fn unrecoverable_of(error: BaseError) -> String {
    match error {
        BaseError::Unrecoverable { message } => message,
        other => panic!("unexpected error {:?}", other),
    }
}

#[test]
fn role_timestamps_stamp_enabled_roles() {
    let now = OffsetDateTime::UNIX_EPOCH;
    let roles = RoleMask::from_field(RoleField::Admin)
        .union(RoleMask::from_field(RoleField::Translator))
        .union(RoleMask::from_field(RoleField::Bot));
    let stamps = role_timestamps_from_mask(roles, now);
    assert_eq!(stamps.admin, Some(now));
    assert_eq!(stamps.translator, Some(now));
    assert_eq!(stamps.raw_provider, None);
    assert_eq!(stamps.proofreader, None);
    assert_eq!(stamps.publisher, None);
    assert_eq!(stamps.bot, Some(now));
    let none = role_timestamps_from_mask(RoleMask::from_field(RoleField::Admin), now);
    assert_eq!(none.bot, None);
}

#[test]
fn role_masks_grant_exactly_their_roles() {
    let admin = RoleMask::from_field(RoleField::Admin);
    assert!(admin.has_any_role(&[RoleField::Admin]));
    assert!(!admin.has_any_role(&[RoleField::Translator, RoleField::Bot]));
    assert!(admin.has_any_role(&[RoleField::Translator, RoleField::Admin]));
    assert!(!admin.has_any_role(&[]));
    let both = admin.union(RoleMask::from_field(RoleField::Reviewer));
    assert!(both.has_any_role(&[RoleField::Reviewer]));
}

#[test]
fn member_rows_carry_entry_and_stamps() {
    let entry = MemberEntry {
        id: "m".to_string(),
        user_id: "u".to_string(),
        user_nickname: "nick".to_string(),
        team_id: "t".to_string(),
        roles: RoleMask::from_field(RoleField::RawProvider),
    };
    let now = OffsetDateTime::UNIX_EPOCH;
    let row = entity_from_entry(&entry, now);
    assert_eq!(row.f_id, "m");
    assert_eq!(row.f_team_id, "t");
    assert_eq!(row.f_assigned_raw_provider_at, Some(now));
    assert_eq!(row.f_assigned_admin_at, None);
    assert_eq!(row.f_created_at, now);
    let fresh = new_member_row(&entry);
    assert_eq!(fresh.f_created_at, fresh.f_updated_at);
    assert_eq!(fresh.f_assigned_raw_provider_at, Some(fresh.f_created_at));

    let update = MemberRoleRepl { id: "m".to_string(), roles: RoleMask::from_field(RoleField::Proofreader) };
    let aspect = aspect_from_role_update(&update, now);
    assert_eq!(aspect.f_assigned_proofreader_at, Some(Some(now)));
    assert_eq!(aspect.f_assigned_raw_provider_at, Some(None));
    assert_eq!(aspect.f_user_nickname, None);
    assert_eq!(aspect.f_assigned_bot_at, Some(None));
    let bot = MemberRoleRepl { id: "m".to_string(), roles: RoleMask::from_field(RoleField::Bot) };
    assert_eq!(aspect_from_role_update(&bot, now).f_assigned_bot_at, Some(Some(now)));
    let bot_entry = MemberEntry {
        id: "b".to_string(),
        user_id: "u".to_string(),
        user_nickname: "bot".to_string(),
        team_id: "t".to_string(),
        roles: RoleMask::from_field(RoleField::Bot),
    };
    assert_eq!(entity_from_entry(&bot_entry, now).f_assigned_bot_at, Some(now));
    let nickname = aspect_from_nickname("new", now);
    assert_eq!(nickname.f_user_nickname, Some("new"));
    assert_eq!(nickname.f_assigned_admin_at, None);
}

fn term_entry(id: &str, termbase_id: &str) -> TermEntry {
    TermEntry {
        id: id.to_string(),
        termbase_id: termbase_id.to_string(),
        source: "src".to_string(),
        targets: vec!["t".to_string()],
        comment: None,
    }
}

fn term_repl(id: &str) -> TermRepl {
    TermRepl { id: id.to_string(), source: "s".to_string(), targets: Vec::new(), comment: Some("c".to_string()) }
}

#[test]
fn upsert_ids_require_scope_and_uniqueness() {
    let tb = "tb".to_string();
    assert!(ensure_upsert_ids(&tb, &vec![term_entry("a", "tb")], &vec![term_repl("b")]).is_ok());
    assert!(ensure_upsert_ids(&tb, &Vec::new(), &Vec::new()).is_ok());
    let err = ensure_upsert_ids(&tb, &vec![term_entry("a", "other")], &Vec::new()).unwrap_err();
    assert_eq!(unrecoverable_of(err), "invalid Term upsert scope or duplicate id");
    assert!(ensure_upsert_ids(&tb, &vec![term_entry("a", "tb")], &vec![term_repl("a")]).is_err());
    assert!(ensure_upsert_ids(&tb, &Vec::new(), &vec![term_repl("x"), term_repl("x")]).is_err());
}

#[test]
fn upsert_affected_must_match() {
    assert!(ensure_upsert_affected("insert", 2, 2).is_ok());
    assert_eq!(
        unrecoverable_of(ensure_upsert_affected("update", 1, 2).unwrap_err()),
        "Term batch affected an unexpected row count"
    );
}

#[test]
fn chapter_page_count_is_bounded() {
    assert_eq!(ensure_chapter_page_count(vec![1, 2, 3], "c", "list", 3).unwrap(), vec![1, 2, 3]);
    assert_eq!(
        unrecoverable_of(ensure_chapter_page_count(vec![1, 2, 3], "c", "list", 2).unwrap_err()),
        "persisted Chapter Page count exceeds the business maximum"
    );
}

#[test]
fn page_helpers_select_and_split() {
    let matches = vec![("p1".to_string(), true), ("p2".to_string(), false), ("p3".to_string(), true)];
    assert_eq!(edited_page_ids(matches), vec!["p1".to_string(), "p3".to_string()]);
    let idents = vec![
        ("p1".to_string(), None),
        ("p2".to_string(), Some("002.png".to_string())),
        ("p3".to_string(), None),
    ];
    let (cleared, named) = split_raw_idents(&idents);
    assert_eq!(cleared, vec!["p1".to_string(), "p3".to_string()]);
    assert_eq!(named, vec![("p2".to_string(), "002.png".to_string())]);
    assert!(ensure_manifest_rows(4, 4).is_ok());
    assert_eq!(
        unrecoverable_of(ensure_manifest_rows(3, 4).unwrap_err()),
        "page manifest upsert returned an unexpected row count"
    );
}

#[test]
fn missing_resources_report_their_keys() {
    assert_eq!(expected_of(missing_team("t", "op")), (ExpectedVariant::Args, "error-team-not-found".to_string()));
    assert_eq!(
        expected_of(missing_workset("w", "op")),
        (ExpectedVariant::Args, "error-workset-not-found".to_string())
    );
    assert_eq!(
        expected_of(missing("error-comic-not-found", "comic", "c")).1,
        "error-comic-not-found"
    );
    assert_eq!(
        expected_of(missing_resource(&ResolveTeamId::Chapter { id: "c".to_string() })).1,
        "error-chapter-not-found"
    );
    assert_eq!(
        expected_of(missing_resource(&ResolveTeamId::Comic { id: "c".to_string() })).1,
        "error-comic-not-found"
    );
    assert_eq!(
        expected_of(missing_root(&SubtreeRoot::Workset { id: "w".to_string() })).1,
        "error-workset-not-found"
    );
}

#[test]
fn mark_read_requires_the_receiver() {
    let owner = "u1".to_string();
    assert!(authorize_mark_read(Some(&owner), &owner).is_ok());
    assert_eq!(
        expected_of(authorize_mark_read(Some(&"u2".to_string()), &owner).unwrap_err()),
        (ExpectedVariant::Perm, "error-forbidden".to_string())
    );
    assert_eq!(
        expected_of(authorize_mark_read(None, &owner).unwrap_err()),
        (ExpectedVariant::Args, "error-system-mail-not-found".to_string())
    );
}

#[test]
fn zero_affected_rows_are_reported() {
    assert!(ensure_avatar_marked(1).is_ok());
    assert_eq!(expected_of(ensure_avatar_marked(0).unwrap_err()).1, "error-avatar-version-mismatch");
    assert!(ensure_team_updated(1, "t").is_ok());
    assert_eq!(expected_of(ensure_team_updated(0, "t").unwrap_err()).1, "error-team-not-found");
}

fn stored(key: Option<&str>, hash: Option<Vec<u8>>, ext: Option<&str>, version: Option<i64>, uploaded: Option<bool>) -> StoredAvatar {
    StoredAvatar {
        key: key.map(str::to_string),
        uploaded,
        version,
        hash,
        extension: ext.map(str::to_string),
    }
}

#[test]
fn avatar_reservation_reuses_the_same_image() {
    let plan = plan_avatar_reservation(stored(Some("k1"), Some(vec![1, 2]), Some("png"), Some(3), Some(true)), &[1, 2], "png")
        .unwrap();
    match plan {
        AvatarPlan::Reuse(r) => {
            assert_eq!(r.object_key, "k1");
            assert_eq!(r.prev_object_key, None);
            assert_eq!(r.avatar_version, 3);
            assert!(!r.is_upload_required);
        }
        AvatarPlan::Advance { .. } => panic!("expected reuse"),
    }
    let plan = plan_avatar_reservation(stored(Some("k1"), Some(vec![1, 2]), Some("png"), Some(3), None), &[1, 2], "png")
        .unwrap();
    assert!(matches!(plan, AvatarPlan::Reuse(r) if r.is_upload_required));
}

#[test]
fn avatar_reservation_rejects_a_changed_extension() {
    let err = plan_avatar_reservation(stored(Some("k1"), Some(vec![9]), Some("png"), Some(1), Some(false)), &[9], "jpg")
        .unwrap_err();
    assert_eq!(expected_of(err), (ExpectedVariant::Args, "error-invalid-image-extension".to_string()));
}

#[test]
fn avatar_reservation_reports_broken_versions() {
    let err = plan_avatar_reservation(stored(Some("k"), Some(vec![1]), Some("png"), None, None), &[1], "png").unwrap_err();
    assert_eq!(unrecoverable_of(err), "[reserve_avatar] avatar version is missing");
    let err = plan_avatar_reservation(stored(Some("k"), Some(vec![1]), Some("png"), Some(-1), None), &[1], "png").unwrap_err();
    assert_eq!(unrecoverable_of(err), "[reserve_avatar] avatar version is invalid");
}

#[test]
fn avatar_reservation_advances_for_a_new_image() {
    let plan = plan_avatar_reservation(stored(Some("k1"), Some(vec![1]), Some("png"), Some(4), Some(true)), &[2], "png")
        .unwrap();
    match plan {
        AvatarPlan::Advance { prev_key, prev_version } => {
            assert_eq!(prev_key, Some("k1".to_string()));
            assert_eq!(prev_version, 4);
        }
        AvatarPlan::Reuse(_) => panic!("expected advance"),
    }
    let plan = plan_avatar_reservation(stored(None, None, None, None, None), &[2], "png").unwrap();
    assert!(matches!(plan, AvatarPlan::Advance { prev_key: None, prev_version: 0 }));
}

#[test]
fn tombstones_cover_descendants_only_below_chapter() {
    let team = SubtreeDeleteScope::Team { team_id: "t".to_string() };
    assert_eq!(
        tombstone_plan(&team).unwrap(),
        vec![HierarchyLevel::Team, HierarchyLevel::Workset, HierarchyLevel::Comic, HierarchyLevel::Chapter]
    );
    let comic = SubtreeDeleteScope::Comic { comic_id: "c".to_string(), workset_id: "w".to_string(), team_id: "t".to_string() };
    assert_eq!(tombstone_plan(&comic).unwrap(), vec![HierarchyLevel::Comic, HierarchyLevel::Chapter]);
    let chapter = SubtreeDeleteScope::Chapter {
        chapter_id: "ch".to_string(),
        comic_id: "c".to_string(),
        workset_id: "w".to_string(),
        team_id: "t".to_string(),
        was_pinned: false,
    };
    assert_eq!(
        unrecoverable_of(tombstone_plan(&chapter).unwrap_err()),
        "direct chapter deletion must not create a tombstone"
    );
    assert_eq!(
        unrecoverable_of(tombstone_marks(&chapter).unwrap_err()),
        "direct chapter deletion must not create a tombstone"
    );
    let marks = tombstone_marks(&team).unwrap();
    assert_eq!(
        marks.iter().map(|m| m.0).collect::<Vec<_>>(),
        vec![HierarchyLevel::Team, HierarchyLevel::Workset, HierarchyLevel::Comic, HierarchyLevel::Chapter]
    );
    assert!(marks.iter().all(|m| m.1 == marks[0].1));
    assert_eq!(direct_chapter_id(&chapter).unwrap(), "ch");
    assert_eq!(
        unrecoverable_of(direct_chapter_id(&comic).unwrap_err()),
        "only a direct chapter may bypass subtree tombstones"
    );
}

#[test]
fn an_advanced_reservation_takes_the_new_key_and_version() {
    let (update, reservation) =
        advance_avatar_reservation(Some("old-key".to_string()), 4, "new-key".to_string(), &[7, 8], "webp");
    assert_eq!(update.key, "new-key");
    assert!(!update.uploaded);
    assert_eq!(update.version, 4);
    assert_eq!(update.hash, vec![7, 8]);
    assert_eq!(update.extension, "webp");
    assert_eq!(reservation.object_key, "new-key");
    assert_eq!(reservation.prev_object_key.as_deref(), Some("old-key"));
    assert_eq!(reservation.avatar_version, 4);
    assert!(reservation.is_upload_required);
    let (_, first) = advance_avatar_reservation(None, 1, "k1".to_string(), &[], "png");
    assert_eq!(first.prev_object_key, None);
}
