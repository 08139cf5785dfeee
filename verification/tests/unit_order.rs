use poprako_repo::chain::order_units;
use poprako_repo::error::{BaseError, BaseRest};
use poprako_repo::unit::UnitOrder;

fn order(id: &str, next_id: Option<&str>) -> UnitOrder {
    UnitOrder {
        id: id.to_string(),
        next_id: next_id.map(str::to_string),
        is_hidden: false,
    }
}

fn order_test_units(unit_orders: &mut Vec<UnitOrder>) -> BaseRest<()> {
    order_units(unit_orders)
}

fn ids(unit_orders: &[UnitOrder]) -> Vec<&str> {
    unit_orders.iter().map(|unit_order| unit_order.id.as_str()).collect()
}

#[test]
fn order_units_orders_a_shuffled_chain() {
    let mut unit_orders = vec![
        order("c", None),
        order("a", Some("b")),
        order("b", Some("c")),
    ];

    order_test_units(&mut unit_orders).unwrap();

    assert_eq!(
        unit_orders
            .iter()
            .map(|unit_order| unit_order.id.as_str())
            .collect::<Vec<_>>(),
        vec!["a", "b", "c"]
    );
}

#[test]
fn tests_order_units_rejects_a_forked_chain() {
    let mut unit_orders = vec![
        UnitOrder {
            id: "a".to_string(),
            next_id: Some("c".to_string()),
            is_hidden: false,
        },
        UnitOrder {
            id: "b".to_string(),
            next_id: Some("c".to_string()),
            is_hidden: false,
        },
        UnitOrder {
            id: "c".to_string(),
            next_id: None,
            is_hidden: false,
        },
    ];

    let error = order_test_units(&mut unit_orders).unwrap_err();

    assert!(matches!(error, BaseError::Unrecoverable { .. }));
}

#[test]
fn order_units_rejects_a_forked_chain() {
    let mut unit_orders = vec![
        UnitOrder {
            id: "a".to_string(),
            next_id: Some("c".to_string()),
            is_hidden: false,
        },
        UnitOrder {
            id: "b".to_string(),
            next_id: Some("c".to_string()),
            is_hidden: false,
        },
        UnitOrder {
            id: "c".to_string(),
            next_id: None,
            is_hidden: false,
        },
    ];

    let error = order_units(&mut unit_orders).unwrap_err();

    assert!(matches!(error, BaseError::Unrecoverable { .. }));
}

#[test]
fn order_units_rejects_duplicate_dangling_and_cyclic_chains() {
    let invalid_chains = [
        vec![order("a", None), order("a", None)],
        vec![order("a", Some("missing"))],
        vec![order("a", Some("b")), order("b", Some("a"))],
    ];

    for mut unit_orders in invalid_chains {
        let error = order_test_units(&mut unit_orders).unwrap_err();

        assert!(matches!(error, BaseError::Unrecoverable { .. }));
    }
}

#[test]
fn order_units_accepts_an_empty_page() {
    let mut unit_orders: Vec<UnitOrder> = Vec::new();
    order_units(&mut unit_orders).unwrap();
    assert!(unit_orders.is_empty());
}

#[test]
fn order_units_leaves_a_rejected_chain_untouched() {
    let mut unit_orders = vec![
        order("b", Some("c")),
        order("a", Some("b")),
        order("c", Some("a")),
    ];
    let error = order_units(&mut unit_orders).unwrap_err();
    match error {
        BaseError::Unrecoverable { message } => {
            assert_eq!(message, "persisted Unit chain is corrupt")
        }
        other => panic!("unexpected error {:?}", other),
    }
    assert_eq!(ids(&unit_orders), vec!["b", "a", "c"]);
}

#[test]
fn order_units_rejects_two_heads() {
    let mut unit_orders = vec![order("a", None), order("b", None)];
    assert!(order_units(&mut unit_orders).is_err());
}

#[test]
fn order_units_rejects_a_chain_with_a_detached_cycle() {
    let mut unit_orders = vec![
        order("a", None),
        order("b", Some("c")),
        order("c", Some("b")),
    ];
    assert!(order_units(&mut unit_orders).is_err());
}

#[test]
fn order_units_keeps_an_ordered_chain() {
    let mut unit_orders = vec![
        order("x", Some("y")),
        order("y", Some("z")),
        order("z", None),
    ];
    order_units(&mut unit_orders).unwrap();
    assert_eq!(ids(&unit_orders), vec!["x", "y", "z"]);
}

#[test]
fn order_units_reverses_a_reversed_chain() {
    let mut unit_orders = vec![
        order("e", None),
        order("d", Some("e")),
        order("c", Some("d")),
        order("b", Some("c")),
        order("a", Some("b")),
    ];
    order_units(&mut unit_orders).unwrap();
    assert_eq!(ids(&unit_orders), vec!["a", "b", "c", "d", "e"]);
    assert_eq!(unit_orders[4].next_id, None);
}
