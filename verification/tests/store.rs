use node_monitor::action::{Action, Status};
use node_monitor::executor::execute;
use node_monitor::store::{Monitor, Node, Store, StoreError};

fn subscribe(email: &str, node_id: &str) -> Action {
    Action::Subscribe { email: email.to_string(), node_id: node_id.to_string() }
}

fn unsubscribe(email: &str, node_id: &str) -> Action {
    Action::Unsubscribe { email: email.to_string(), node_id: node_id.to_string() }
}

fn node(id: &str, status: Status) -> Node {
    Node { id: id.to_string(), name: format!("name of {}", id), current_status: status }
}

#[test]
fn new_store_is_empty() {
    let store = Store::new();
    assert!(store.list_monitors().is_empty());
    assert!(store.list_nodes().is_empty());
    assert_eq!(store.next_id(), 1);
}

#[test]
fn subscribe_creates_monitor_with_unknown_status() {
    let mut store = Store::new();
    assert_eq!(execute(&subscribe("a@example.com", "node1"), &mut store), Ok(true));
    let expected = Monitor {
        id: 1,
        email: "a@example.com".to_string(),
        node_id: "node1".to_string(),
        last_notified_status: Status::Unknown,
    };
    assert_eq!(store.list_monitors(), &vec![expected]);
    assert_eq!(store.next_id(), 2);
}

#[test]
fn subscribe_twice_is_idempotent() {
    let mut store = Store::new();
    let a = subscribe("a@example.com", "node1");
    assert_eq!(execute(&a, &mut store), Ok(true));
    let after_first = store.clone();
    assert_eq!(execute(&a, &mut store), Ok(false));
    assert_eq!(store, after_first);
}

#[test]
fn unsubscribe_twice_is_idempotent() {
    let mut store = Store::new();
    assert_eq!(execute(&subscribe("a@example.com", "node1"), &mut store), Ok(true));
    assert_eq!(execute(&subscribe("b@example.com", "node1"), &mut store), Ok(true));
    let a = unsubscribe("a@example.com", "node1");
    assert_eq!(execute(&a, &mut store), Ok(true));
    let after_first = store.clone();
    assert_eq!(store.list_monitors().len(), 1);
    assert_eq!(store.list_monitors()[0].email, "b@example.com");
    assert_eq!(store.list_monitors()[0].id, 2);
    assert_eq!(execute(&a, &mut store), Ok(false));
    assert_eq!(store, after_first);
}

#[test]
fn unsubscribe_without_monitor_changes_nothing() {
    let mut store = Store::new();
    assert_eq!(execute(&unsubscribe("a@example.com", "node1"), &mut store), Ok(false));
    assert_eq!(store, Store::new());
}

#[test]
fn bindings_differ_by_email_or_node() {
    let mut store = Store::new();
    assert_eq!(execute(&subscribe("a@example.com", "node1"), &mut store), Ok(true));
    assert_eq!(execute(&subscribe("a@example.com", "node2"), &mut store), Ok(true));
    assert_eq!(execute(&subscribe("b@example.com", "node1"), &mut store), Ok(true));
    assert_eq!(store.list_monitors().len(), 3);
    assert_eq!(store.find_monitor(&"a@example.com".to_string(), &"node2".to_string()), Some(1));
    assert_eq!(store.find_monitor(&"b@example.com".to_string(), &"node2".to_string()), None);
    assert_eq!(execute(&unsubscribe("a@example.com", "node2"), &mut store), Ok(true));
    let ids: Vec<u64> = store.list_monitors().iter().map(|m| m.id).collect();
    assert_eq!(ids, vec![1, 3]);
}

#[test]
fn ids_are_not_given_out_twice() {
    let mut store = Store::new();
    assert_eq!(execute(&subscribe("a@example.com", "node1"), &mut store), Ok(true));
    assert_eq!(execute(&unsubscribe("a@example.com", "node1"), &mut store), Ok(true));
    assert_eq!(execute(&subscribe("a@example.com", "node1"), &mut store), Ok(true));
    assert_eq!(store.list_monitors()[0].id, 2);
}

#[test]
fn confirm_email_changes_nothing() {
    let mut store = Store::new();
    let a = Action::ConfirmEmail { email: "a@example.com".to_string() };
    assert_eq!(execute(&a, &mut store), Ok(false));
    assert_eq!(store, Store::new());
}

#[test]
fn subscribe_fails_when_ids_are_exhausted() {
    let mut store = Store::starting_at(u64::MAX);
    let before = store.clone();
    assert_eq!(
        execute(&subscribe("a@example.com", "node1"), &mut store),
        Err(StoreError::IdsExhausted)
    );
    assert_eq!(store, before);
    assert_eq!(execute(&unsubscribe("a@example.com", "node1"), &mut store), Ok(false));
}

#[test]
fn last_id_can_still_be_given_out() {
    let mut store = Store::starting_at(u64::MAX - 1);
    assert_eq!(execute(&subscribe("a@example.com", "node1"), &mut store), Ok(true));
    assert_eq!(store.list_monitors()[0].id, u64::MAX - 1);
    assert_eq!(
        execute(&subscribe("b@example.com", "node1"), &mut store),
        Err(StoreError::IdsExhausted)
    );
    assert_eq!(execute(&subscribe("a@example.com", "node1"), &mut store), Ok(false));
}

#[test]
fn upsert_replaces_or_appends() {
    let mut store = Store::new();
    store.upsert_node_status(node("n1", Status::Online));
    store.upsert_node_status(node("n2", Status::Offline));
    store.upsert_node_status(node("n1", Status::Offline));
    assert_eq!(store.list_nodes(), &vec![node("n1", Status::Offline), node("n2", Status::Offline)]);
}

#[test]
fn refresh_takes_snapshot_in_order() {
    let mut store = Store::new();
    store.upsert_node_status(node("n0", Status::Online));
    let snapshot = vec![
        node("n1", Status::Online),
        node("n2", Status::Unknown),
        node("n1", Status::Offline),
    ];
    store.refresh_nodes(&snapshot);
    assert_eq!(
        store.list_nodes(),
        &vec![node("n0", Status::Online), node("n1", Status::Offline), node("n2", Status::Unknown)]
    );
}

#[test]
fn update_last_notified_touches_one_monitor() {
    let mut store = Store::new();
    assert_eq!(execute(&subscribe("a@example.com", "node1"), &mut store), Ok(true));
    assert_eq!(execute(&subscribe("b@example.com", "node1"), &mut store), Ok(true));
    assert!(store.update_last_notified(2, Status::Online));
    assert_eq!(store.list_monitors()[0].last_notified_status, Status::Unknown);
    assert_eq!(store.list_monitors()[1].last_notified_status, Status::Online);
    assert_eq!(store.list_monitors()[1].email, "b@example.com");
    let before = store.clone();
    assert!(!store.update_last_notified(7, Status::Offline));
    assert_eq!(store, before);
}

#[test]
fn copies_are_equal() {
    let m = Monitor {
        id: 4,
        email: "a@example.com".to_string(),
        node_id: "n".to_string(),
        last_notified_status: Status::Offline,
    };
    assert_eq!(m.copy(), m);
    let n = node("n", Status::Online);
    assert_eq!(n.copy(), n);
}

fn monitor(id: u64, email: &str, node_id: &str) -> Monitor {
    Monitor {
        id,
        email: email.to_string(),
        node_id: node_id.to_string(),
        last_notified_status: Status::Online,
    }
}

#[test]
fn restore_accepts_well_formed_rows() {
    let monitors = vec![monitor(2, "a@example.com", "n1"), monitor(5, "a@example.com", "n2")];
    let nodes = vec![node("n1", Status::Online), node("n2", Status::Offline)];
    let store = Store::restore(monitors.clone(), nodes.clone(), 6).unwrap();
    assert_eq!(store.list_monitors(), &monitors);
    assert_eq!(store.list_nodes(), &nodes);
    assert_eq!(store.next_id(), 6);
    assert_eq!(Store::restore(vec![], vec![], 1), Some(Store::new()));
    assert_eq!(Store::restore(vec![], vec![], 0), Some(Store::starting_at(0)));
}

#[test]
fn restore_gives_back_what_execute_left() {
    let mut store = Store::new();
    assert_eq!(execute(&subscribe("a@example.com", "node1"), &mut store), Ok(true));
    assert_eq!(execute(&subscribe("b@example.com", "node1"), &mut store), Ok(true));
    assert_eq!(execute(&unsubscribe("a@example.com", "node1"), &mut store), Ok(true));
    store.upsert_node_status(node("node1", Status::Online));
    let again =
        Store::restore(store.list_monitors().clone(), store.list_nodes().clone(), store.next_id());
    assert_eq!(again, Some(store));
}

#[test]
fn restore_rejects_ids_out_of_order() {
    let rows = vec![monitor(5, "a@example.com", "n1"), monitor(2, "a@example.com", "n2")];
    assert_eq!(Store::restore(rows, vec![], 6), None);
    let rows = vec![monitor(2, "a@example.com", "n1"), monitor(2, "a@example.com", "n2")];
    assert_eq!(Store::restore(rows, vec![], 6), None);
}

#[test]
fn restore_rejects_id_at_or_above_next() {
    assert_eq!(Store::restore(vec![monitor(6, "a@example.com", "n1")], vec![], 6), None);
    assert_eq!(Store::restore(vec![monitor(7, "a@example.com", "n1")], vec![], 6), None);
    assert!(Store::restore(vec![monitor(5, "a@example.com", "n1")], vec![], 6).is_some());
}

#[test]
fn restore_rejects_repeated_binding() {
    let rows = vec![
        monitor(1, "a@example.com", "n1"),
        monitor(2, "b@example.com", "n1"),
        monitor(3, "a@example.com", "n1"),
    ];
    assert_eq!(Store::restore(rows, vec![], 4), None);
}

#[test]
fn restore_rejects_repeated_node() {
    let nodes = vec![node("n1", Status::Online), node("n2", Status::Online), node("n1", Status::Offline)];
    assert_eq!(Store::restore(vec![], nodes, 1), None);
}

#[test]
fn watched_by_lists_the_monitors_of_one_address() {
    let mut store = Store::new();
    assert_eq!(execute(&subscribe("a@example.com", "n1"), &mut store), Ok(true));
    assert_eq!(execute(&subscribe("b@example.com", "n1"), &mut store), Ok(true));
    assert_eq!(execute(&subscribe("a@example.com", "n2"), &mut store), Ok(true));
    let mine = store.watched_by(&"a@example.com".to_string());
    let pairs: Vec<(u64, &str)> = mine.iter().map(|m| (m.id, m.node_id.as_str())).collect();
    assert_eq!(pairs, vec![(1, "n1"), (3, "n2")]);
    assert!(store.watched_by(&"c@example.com".to_string()).is_empty());
}

#[test]
fn find_node_reads_the_cache() {
    let mut store = Store::new();
    store.upsert_node_status(node("n1", Status::Online));
    store.upsert_node_status(node("n2", Status::Offline));
    assert_eq!(store.find_node(&"n2".to_string()), Some(&node("n2", Status::Offline)));
    assert_eq!(store.find_node(&"n3".to_string()), None);
}
