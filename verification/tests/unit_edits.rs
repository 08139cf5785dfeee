use poprako_repo::error::{BaseError, ExpectedVariant};
use poprako_repo::unit::{
    UnitCreateContent, UnitSaveContent,
    Patch, UnitCounters, UnitEdit, UnitInfo, UnitOrder, apply_order_edits, changed_successors,
    count_infos, counter_columns, ensure_affected, find_order_pos, invalid_unit_edit_plan_err,
    move_order, next_chunk_cursor, text_has_content, UNIT_ORDER_QUERY_CHUNK_SIZE,
};

fn create_content() -> UnitCreateContent {
    UnitCreateContent { is_bubble: true, translation: None, revision: None }
}

fn save_content() -> UnitSaveContent {
    UnitSaveContent { is_bubble: None, translation: Patch::Skip, revision: Patch::Skip }
}

fn order(id: &str, next_id: Option<&str>, is_hidden: bool) -> UnitOrder {
    UnitOrder { id: id.to_string(), next_id: next_id.map(str::to_string), is_hidden }
}

fn strings(ids: &[&str]) -> Vec<String> {
    ids.iter().map(|s| s.to_string()).collect()
}

fn assert_invalid_oper(error: BaseError) {
    match error {
        BaseError::Expected { variant, message } => {
            assert_eq!(variant, ExpectedVariant::Args);
            assert_eq!(message, "error-invalid-unit-oper");
        }
        other => panic!("unexpected error {:?}", other),
    }
}

#[test]
fn find_order_pos_returns_the_first_position() {
    let ids = strings(&["a", "b", "a"]);
    assert_eq!(find_order_pos(&ids, &"a".to_string()), Some(0));
    assert_eq!(find_order_pos(&ids, &"b".to_string()), Some(1));
    assert_eq!(find_order_pos(&ids, &"z".to_string()), None);
}

#[test]
fn move_order_places_an_id_before_its_successor() {
    let mut ids = strings(&["a", "b", "c", "d"]);
    move_order(&mut ids, &"d".to_string(), Some(&"b".to_string())).unwrap();
    assert_eq!(ids, strings(&["a", "d", "b", "c"]));
    move_order(&mut ids, &"a".to_string(), None).unwrap();
    assert_eq!(ids, strings(&["d", "b", "c", "a"]));
}

#[test]
fn move_order_rejects_missing_ids() {
    let mut ids = strings(&["a", "b"]);
    assert_invalid_oper(move_order(&mut ids, &"x".to_string(), None).unwrap_err());
    let mut ids = strings(&["a", "b"]);
    assert_invalid_oper(move_order(&mut ids, &"a".to_string(), Some(&"x".to_string())).unwrap_err());
}

#[test]
fn apply_order_edits_creates_moves_and_keeps_order() {
    let orders = vec![order("a", Some("b"), false), order("b", None, false)];
    let edits = vec![
        UnitEdit::Create { id: "n".to_string(), next_id: Some("b".to_string()), content: create_content() },
        UnitEdit::Save { id: "b".to_string(), next_id: Patch::Assign("a".to_string()), content: save_content() },
        UnitEdit::Delete { id: "a".to_string() },
    ];
    let ids = apply_order_edits(&orders, &edits).unwrap();
    assert_eq!(ids, strings(&["b", "a", "n"]));
}

#[test]
fn apply_order_edits_appends_creations_without_successor() {
    let orders = vec![order("a", None, false)];
    let edits = vec![UnitEdit::Create { id: "z".to_string(), next_id: None, content: create_content() }];
    assert_eq!(apply_order_edits(&orders, &edits).unwrap(), strings(&["a", "z"]));
    let edits = vec![UnitEdit::Save { id: "a".to_string(), next_id: Patch::Skip, content: save_content() }];
    assert_eq!(apply_order_edits(&orders, &edits).unwrap(), strings(&["a"]));
    let edits = vec![UnitEdit::Save { id: "a".to_string(), next_id: Patch::Clear, content: save_content() }];
    assert_eq!(apply_order_edits(&orders, &edits).unwrap(), strings(&["a"]));
}

#[test]
fn apply_order_edits_rejects_duplicate_creations() {
    let orders = vec![order("a", None, false)];
    let edits = vec![UnitEdit::Create { id: "a".to_string(), next_id: None, content: create_content() }];
    assert_invalid_oper(apply_order_edits(&orders, &edits).unwrap_err());
}

#[test]
fn apply_order_edits_rejects_moves_to_missing_units() {
    let orders = vec![order("a", None, false)];
    let edits = vec![UnitEdit::Save { id: "a".to_string(), next_id: Patch::Assign("q".to_string()), content: save_content() }];
    assert_invalid_oper(apply_order_edits(&orders, &edits).unwrap_err());
}

#[test]
fn apply_order_edits_limits_visible_units() {
    let mut orders = Vec::new();
    for k in 0..100 {
        orders.push(order(&format!("u{k}"), None, false));
    }
    assert_eq!(apply_order_edits(&orders, &Vec::new()).unwrap().len(), 100);
    let edits = vec![UnitEdit::Create { id: "extra".to_string(), next_id: None, content: create_content() }];
    assert_invalid_oper(apply_order_edits(&orders, &edits).unwrap_err());
    // A hidden Unit does not count, and deleting one makes room.
    let mut with_tomb = orders.clone_orders();
    with_tomb.push(order("tomb", None, true));
    assert_eq!(apply_order_edits(&with_tomb, &Vec::new()).unwrap().len(), 101);
    let edits = vec![
        UnitEdit::Delete { id: "u0".to_string() },
        UnitEdit::Create { id: "extra".to_string(), next_id: None, content: create_content() },
    ];
    assert_eq!(apply_order_edits(&orders, &edits).unwrap().len(), 101);
}

trait CloneOrders {
    fn clone_orders(&self) -> Vec<UnitOrder>;
}

impl CloneOrders for Vec<UnitOrder> {
    fn clone_orders(&self) -> Vec<UnitOrder> {
        self.iter()
            .map(|o| UnitOrder { id: o.id.clone(), next_id: o.next_id.clone(), is_hidden: o.is_hidden })
            .collect()
    }
}

#[test]
fn apply_order_edits_revives_saved_tombstones() {
    let mut orders = Vec::new();
    for k in 0..100 {
        orders.push(order(&format!("u{k}"), None, false));
    }
    orders.push(order("tomb", None, true));
    let edits = vec![UnitEdit::Save { id: "tomb".to_string(), next_id: Patch::Skip, content: save_content() }];
    assert_invalid_oper(apply_order_edits(&orders, &edits).unwrap_err());
}

#[test]
fn changed_successors_lists_only_new_links() {
    let orders = vec![order("a", Some("b"), false), order("b", None, false)];
    let ids = strings(&["b", "a", "n"]);
    let changes = changed_successors(&orders, &ids);
    assert_eq!(
        changes,
        vec![
            ("b".to_string(), Some("a".to_string())),
            ("a".to_string(), Some("n".to_string())),
            ("n".to_string(), None),
        ]
    );
    let unchanged = changed_successors(&orders, &strings(&["a", "b"]));
    assert!(unchanged.is_empty());
}

fn info(id: &str, translated: Option<&str>, proofread: Option<&str>, is_proofread: bool, hidden: bool) -> UnitInfo {
    UnitInfo {
        id: id.to_string(),
        page_id: "p".to_string(),
        next_id: None,
        translated_text: translated.map(str::to_string),
        proofread_text: proofread.map(str::to_string),
        is_proofread,
        hidden_at: if hidden { Some(time::OffsetDateTime::UNIX_EPOCH) } else { None },
    }
}

#[test]
fn count_infos_counts_visible_units() {
    let infos = vec![
        info("a", Some("hello"), None, true, false),
        info("b", Some(" \u{3000}\n"), Some("\t"), false, false),
        info("c", None, Some("rev"), false, false),
        info("d", Some("hidden"), None, true, true),
    ];
    let counters: UnitCounters = count_infos(&infos);
    assert_eq!(counters.total_unit_count, 3);
    assert_eq!(counters.translated_unit_count, 2);
    assert_eq!(counters.proofread_unit_count, 1);
}

#[test]
fn text_has_content_ignores_blank_text() {
    assert!(!text_has_content(&None));
    assert!(!text_has_content(&Some(String::new())));
    assert!(!text_has_content(&Some(" \u{00A0}\u{2028}".to_string())));
    assert!(text_has_content(&Some("  x ".to_string())));
}

#[test]
fn unit_batch_checks_report_fixed_errors() {
    assert!(ensure_affected("p", "batch", "update", 3, 3).is_ok());
    match ensure_affected("p", "batch", "update", 2, 3).unwrap_err() {
        BaseError::Unrecoverable { message } => {
            assert_eq!(message, "Unit batch affected an unexpected row count")
        }
        other => panic!("unexpected error {:?}", other),
    }
    match invalid_unit_edit_plan_err() {
        BaseError::Unrecoverable { message } => {
            assert_eq!(message, "normalized Unit edits disagree with edit plan")
        }
        other => panic!("unexpected error {:?}", other),
    }
}

#[test]
fn next_chunk_cursor_continues_after_full_chunks_only() {
    let full: Vec<String> = (0..UNIT_ORDER_QUERY_CHUNK_SIZE).map(|k| format!("id{k:04}")).collect();
    assert_eq!(next_chunk_cursor(&full), Some("id0511".to_string()));
    assert_eq!(next_chunk_cursor(&full[..10].to_vec()), None);
    assert_eq!(next_chunk_cursor(&Vec::new()), None);
}

#[test]
fn counter_columns_converts_or_rejects() {
    let counters = UnitCounters { total_unit_count: 4, translated_unit_count: 2, proofread_unit_count: 1 };
    assert_eq!(counter_columns(&counters).unwrap(), (4, 2, 1));
    let too_many = UnitCounters {
        total_unit_count: 1,
        translated_unit_count: (i32::MAX as usize) + 1,
        proofread_unit_count: 0,
    };
    match counter_columns(&too_many).unwrap_err() {
        BaseError::Unrecoverable { message } => assert_eq!(
            message,
            "database field t_page.f_translated_unit_count exceeds INTEGER range"
        ),
        other => panic!("unexpected error {:?}", other),
    }
}
