use poprako_repo::error::{BaseError, ExpectedVariant};
use poprako_repo::member::{RoleField, RoleMask, role_filter};
use poprako_repo::subtree::{
    SubtreeDeleteSweepTarget, SubtreeSweepLevel, SweptTable, claim_target, sweep_plan, SWEEP_BATCH_LIMIT,
};
use poprako_repo::unit::{
    Patch, UnitCreateContent, UnitEdit, UnitOrder, UnitRevision, UnitSaveContent, UnitTranslation,
};
use poprako_repo::writes::{UnitChange, UnitCreate, plan_unit_edits, plan_unit_writes};

fn create_links(creates: &[UnitCreate]) -> Vec<(String, Option<String>)> {
    creates.iter().map(|c| (c.id.clone(), c.next_id.clone())).collect()
}

fn create_content() -> UnitCreateContent {
    UnitCreateContent { is_bubble: true, translation: None, revision: None }
}

fn save_content() -> UnitSaveContent {
    UnitSaveContent { is_bubble: None, translation: Patch::Skip, revision: Patch::Skip }
}

fn order(id: &str, next_id: Option<&str>, is_hidden: bool) -> UnitOrder {
    UnitOrder { id: id.to_string(), next_id: next_id.map(str::to_string), is_hidden }
}

fn strings(ids: &[&str]) -> Vec<String> {
    ids.iter().map(|s| s.to_string()).collect()
}

fn link(id: &str, next: Option<&str>) -> (String, Option<String>) {
    (id.to_string(), next.map(str::to_string))
}

fn change_of<'a>(changes: &'a [UnitChange], id: &str) -> &'a UnitChange {
    let found: Vec<&UnitChange> = changes.iter().filter(|c| c.id == id).collect();
    assert_eq!(found.len(), 1, "one update for {id}");
    found[0]
}

fn assert_plan_mismatch(error: BaseError) {
    match error {
        BaseError::Unrecoverable { message } => {
            assert_eq!(message, "normalized Unit edits disagree with edit plan")
        }
        other => panic!("unexpected error {:?}", other),
    }
}

#[test]
fn plan_unit_writes_inserts_created_units_with_their_successor() {
    let edits = vec![
        UnitEdit::Create { id: "n".to_string(), next_id: Some("b".to_string()), content: create_content() },
        UnitEdit::Create { id: "m".to_string(), next_id: None, content: create_content() },
    ];
    let plan = plan_unit_writes(&edits, &strings(&["a", "n", "b", "m"]), &Vec::new()).unwrap();
    assert_eq!(create_links(&plan.creates), vec![link("n", Some("b")), link("m", None)]);
    assert!(plan.changes.is_empty());
}

#[test]
fn plan_unit_writes_updates_saved_and_deleted_units() {
    let edits = vec![
        UnitEdit::Save { id: "b".to_string(), next_id: Patch::Skip, content: save_content() },
        UnitEdit::Delete { id: "a".to_string() },
    ];
    let plan = plan_unit_writes(&edits, &strings(&["a", "b", "c"]), &Vec::new()).unwrap();
    assert!(plan.creates.is_empty());
    assert_eq!(plan.changes.len(), 2);
    let saved = change_of(&plan.changes, "b");
    assert_eq!(saved.next_id, Some(Some("c".to_string())));
    assert!(!saved.hide);
    let deleted = change_of(&plan.changes, "a");
    assert_eq!(deleted.next_id, None);
    assert!(deleted.hide);
}

#[test]
fn plan_unit_writes_lets_changed_successors_win() {
    let edits = vec![UnitEdit::Delete { id: "a".to_string() }];
    let successors = vec![link("a", Some("c")), link("b", None), link("b", Some("a"))];
    let plan = plan_unit_writes(&edits, &strings(&["b", "a", "c"]), &successors).unwrap();
    assert_eq!(plan.changes.len(), 2);
    let deleted = change_of(&plan.changes, "a");
    assert_eq!(deleted.next_id, Some(Some("c".to_string())));
    assert!(deleted.hide);
    let relinked = change_of(&plan.changes, "b");
    assert_eq!(relinked.next_id, Some(Some("a".to_string())));
    assert!(!relinked.hide);
}

#[test]
fn plan_unit_writes_rejects_edits_outside_the_plan() {
    let created = vec![UnitEdit::Create { id: "x".to_string(), next_id: None, content: create_content() }];
    assert_plan_mismatch(plan_unit_writes(&created, &strings(&["a"]), &Vec::new()).unwrap_err());
    let saved = vec![UnitEdit::Save { id: "x".to_string(), next_id: Patch::Skip, content: save_content() }];
    assert_plan_mismatch(plan_unit_writes(&saved, &strings(&["a"]), &Vec::new()).unwrap_err());
    let deleted = vec![UnitEdit::Delete { id: "x".to_string() }];
    assert!(plan_unit_writes(&deleted, &strings(&["a"]), &Vec::new()).is_ok());
}

#[test]
fn plan_unit_writes_rejects_a_unit_edited_twice() {
    let edits = vec![
        UnitEdit::Save { id: "a".to_string(), next_id: Patch::Skip, content: save_content() },
        UnitEdit::Delete { id: "a".to_string() },
    ];
    assert_plan_mismatch(plan_unit_writes(&edits, &strings(&["a"]), &Vec::new()).unwrap_err());
}

#[test]
fn plan_unit_edits_plans_the_whole_batch() {
    let orders = vec![order("a", Some("b"), false), order("b", None, false)];
    let edits = vec![
        UnitEdit::Create { id: "n".to_string(), next_id: Some("b".to_string()), content: create_content() },
        UnitEdit::Delete { id: "a".to_string() },
    ];
    let plan = plan_unit_edits(&orders, &edits).unwrap();
    assert_eq!(create_links(&plan.creates), vec![link("n", Some("b"))]);
    assert_eq!(plan.changes.len(), 2);
    let deleted = change_of(&plan.changes, "a");
    assert_eq!(deleted.next_id, Some(Some("n".to_string())));
    assert!(deleted.hide);
    let created = change_of(&plan.changes, "n");
    assert_eq!(created.next_id, Some(Some("b".to_string())));
    assert!(!created.hide);
}

#[test]
fn plan_unit_edits_reports_invalid_batches() {
    let orders = vec![order("a", None, false)];
    let edits = vec![UnitEdit::Save { id: "a".to_string(), next_id: Patch::Assign("x".to_string()), content: save_content() }];
    match plan_unit_edits(&orders, &edits).unwrap_err() {
        BaseError::Expected { variant, message } => {
            assert_eq!(variant, ExpectedVariant::Args);
            assert_eq!(message, "error-invalid-unit-oper");
        }
        other => panic!("unexpected error {:?}", other),
    }
    let unknown = vec![UnitEdit::Save { id: "x".to_string(), next_id: Patch::Skip, content: save_content() }];
    assert_plan_mismatch(plan_unit_edits(&orders, &unknown).unwrap_err());
}

#[test]
fn sweeps_remove_dependants_before_the_target() {
    let chapter = SubtreeDeleteSweepTarget::Chapter { id: "c".to_string() };
    assert_eq!(
        sweep_plan(&chapter),
        vec![
            SweptTable::AssignmentInvitation,
            SweptTable::Assignment,
            SweptTable::ChapterWorkflowRecord,
            SweptTable::Unit,
            SweptTable::Page,
            SweptTable::Chapter,
        ]
    );
    let comic = SubtreeDeleteSweepTarget::Comics { ids: strings(&["m1", "m2"]) };
    assert_eq!(
        sweep_plan(&comic),
        vec![SweptTable::Term, SweptTable::Termbase, SweptTable::ComicArchive, SweptTable::Comic]
    );
    let workset = SubtreeDeleteSweepTarget::Worksets { ids: strings(&["w"]) };
    assert_eq!(sweep_plan(&workset), vec![SweptTable::Workset]);
    let team = SubtreeDeleteSweepTarget::Team { id: "t".to_string() };
    let tables = sweep_plan(&team);
    assert_eq!(tables.len(), 8);
    assert_eq!(*tables.last().unwrap(), SweptTable::Team);
}

fn numbered(prefix: &str, n: usize) -> Vec<String> {
    (0..n).map(|i| format!("{prefix}{i:04}")).collect()
}

#[test]
fn comic_claims_take_a_bounded_batch() {
    let eligible = numbered("comic-", 65);
    match claim_target(SubtreeSweepLevel::Comic, eligible.clone()) {
        Some(SubtreeDeleteSweepTarget::Comics { ids }) => {
            assert_eq!(ids.len(), SWEEP_BATCH_LIMIT);
            assert_eq!(ids, numbered("comic-", 64));
        }
        other => panic!("unexpected claim {:?}", other),
    }
    match claim_target(SubtreeSweepLevel::Comic, vec![eligible[64].clone()]) {
        Some(SubtreeDeleteSweepTarget::Comics { ids }) => assert_eq!(ids, strings(&["comic-0064"])),
        other => panic!("unexpected claim {:?}", other),
    }
    assert!(claim_target(SubtreeSweepLevel::Comic, Vec::new()).is_none());
}

#[test]
fn workset_claims_take_a_bounded_batch() {
    match claim_target(SubtreeSweepLevel::Workset, numbered("workset-", 65)) {
        Some(SubtreeDeleteSweepTarget::Worksets { ids }) => {
            assert_eq!(ids.len(), 64);
            assert!(ids.windows(2).all(|pair| pair[0] < pair[1]));
        }
        other => panic!("unexpected claim {:?}", other),
    }
}

#[test]
fn chapter_and_team_claims_take_one_row() {
    match claim_target(SubtreeSweepLevel::Chapter, strings(&["c1", "c2"])) {
        Some(SubtreeDeleteSweepTarget::Chapter { id }) => assert_eq!(id, "c1"),
        other => panic!("unexpected claim {:?}", other),
    }
    match claim_target(SubtreeSweepLevel::Team, strings(&["t1", "t2"])) {
        Some(SubtreeDeleteSweepTarget::Team { id }) => assert_eq!(id, "t1"),
        other => panic!("unexpected claim {:?}", other),
    }
    assert!(claim_target(SubtreeSweepLevel::Chapter, Vec::new()).is_none());
    assert!(claim_target(SubtreeSweepLevel::Team, Vec::new()).is_none());
}

#[test]
fn saves_and_creates_carry_their_content() {
    let edits = vec![
        UnitEdit::Create {
            id: "n".to_string(),
            next_id: None,
            content: UnitCreateContent {
                is_bubble: false,
                translation: Some(UnitTranslation {
                    translated_text: "hello".to_string(),
                    last_translator_id: "u".to_string(),
                }),
                revision: None,
            },
        },
        UnitEdit::Save {
            id: "a".to_string(),
            next_id: Patch::Skip,
            content: UnitSaveContent {
                is_bubble: Some(true),
                translation: Patch::Clear,
                revision: Patch::Assign(UnitRevision {
                    is_proofread: true,
                    proofread_text: Some("checked".to_string()),
                    last_proofreader_id: "p".to_string(),
                }),
            },
        },
        UnitEdit::Delete { id: "b".to_string() },
    ];
    let plan = plan_unit_writes(&edits, &strings(&["a", "b", "n"]), &Vec::new()).unwrap();
    assert_eq!(plan.creates.len(), 1);
    assert!(!plan.creates[0].content.is_bubble);
    assert_eq!(plan.creates[0].content.translation.as_ref().unwrap().translated_text, "hello");
    let saved = change_of(&plan.changes, "a");
    let content = saved.content.as_ref().expect("a save carries its content");
    assert_eq!(content.is_bubble, Some(true));
    assert!(matches!(content.translation, Patch::Clear));
    match &content.revision {
        Patch::Assign(revision) => {
            assert!(revision.is_proofread);
            assert_eq!(revision.proofread_text.as_deref(), Some("checked"));
            assert_eq!(revision.last_proofreader_id, "p");
        }
        other => panic!("unexpected revision {:?}", other),
    }
    assert!(change_of(&plan.changes, "b").content.is_none());
}

#[test]
fn role_filter_names_single_roles_only() {
    assert_eq!(role_filter(RoleMask::from_field(RoleField::Admin)), Some(RoleField::Admin));
    assert_eq!(role_filter(RoleMask::from_field(RoleField::RawProvider)), Some(RoleField::RawProvider));
    let both = RoleMask::from_field(RoleField::Admin).union(RoleMask::from_field(RoleField::Bot));
    assert_eq!(role_filter(both), None);
    assert_eq!(role_filter(RoleMask { bits: 0 }), None);
}

fn written_rows(orders: &[UnitOrder], plan: &poprako_repo::writes::UnitWritePlan) -> Vec<UnitOrder> {
    let mut rows: Vec<UnitOrder> = orders
        .iter()
        .map(|o| UnitOrder { id: o.id.clone(), next_id: o.next_id.clone(), is_hidden: o.is_hidden })
        .collect();
    for create in &plan.creates {
        rows.push(UnitOrder { id: create.id.clone(), next_id: create.next_id.clone(), is_hidden: false });
    }
    for change in &plan.changes {
        let row = rows.iter_mut().find(|r| r.id == change.id).expect("updated row exists");
        if let Some(next) = &change.next_id {
            row.next_id = next.clone();
        }
        if change.hide {
            row.is_hidden = true;
        }
    }
    rows.reverse();
    rows
}

#[test]
fn written_batches_read_back_in_planned_order() {
    let orders = vec![order("a", Some("b"), false), order("b", Some("c"), false), order("c", None, true)];
    let edits = vec![
        UnitEdit::Create { id: "n".to_string(), next_id: Some("a".to_string()), content: create_content() },
        UnitEdit::Save { id: "c".to_string(), next_id: Patch::Assign("b".to_string()), content: save_content() },
        UnitEdit::Delete { id: "a".to_string() },
        UnitEdit::Create { id: "m".to_string(), next_id: None, content: create_content() },
    ];
    let planned = poprako_repo::unit::apply_order_edits(&orders, &edits).unwrap();
    assert_eq!(planned, strings(&["n", "a", "c", "b", "m"]));
    let plan = plan_unit_edits(&orders, &edits).unwrap();
    let mut rows = written_rows(&orders, &plan);
    poprako_repo::chain::order_units(&mut rows).unwrap();
    let read: Vec<String> = rows.iter().map(|r| r.id.clone()).collect();
    assert_eq!(read, planned);
    assert!(rows.iter().any(|r| r.id == "a" && r.is_hidden));
    assert!(rows.iter().any(|r| r.id == "n" && !r.is_hidden));
}

#[test]
fn an_unmoved_chain_rewrites_no_link() {
    let orders = vec![order("a", Some("b"), false), order("b", Some("c"), true), order("c", None, false)];
    let successors = poprako_repo::unit::changed_successors(&orders, &strings(&["a", "b", "c"]));
    assert!(successors.is_empty());
    let plan = plan_unit_edits(&orders, &Vec::new()).unwrap();
    assert!(plan.creates.is_empty());
    assert!(plan.changes.is_empty());
}
