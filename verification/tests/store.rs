use todo_list::store::{Todo, Update};

fn list_of(content: &str) -> Todo {
    Todo::new(content).unwrap()
}

#[test]
fn empty_list_holds_nothing() {
    let todo = Todo::empty();
    assert_eq!(todo.len(), 0);
    assert_eq!(todo.get("a"), None);
}

#[test]
fn added_item_is_found_as_not_done() {
    let mut todo = Todo::empty();
    assert_eq!(todo.add(String::from("buy milk")), None);
    assert_eq!(todo.get("buy milk"), Some(false));
    assert_eq!(todo.len(), 1);
}

#[test]
fn adding_twice_changes_nothing() {
    let mut todo = Todo::empty();
    assert_eq!(todo.add(String::from("buy milk")), None);
    assert_eq!(todo.add(String::from("buy milk")), Some("item already exists, skipping"));
    assert_eq!(todo.len(), 1);
    assert_eq!(todo.get("buy milk"), Some(false));
}

#[test]
fn adding_a_known_done_item_keeps_its_flag() {
    let mut todo = list_of("a\ttrue\n");
    assert_eq!(todo.add(String::from("a")), Some("item already exists, skipping"));
    assert_eq!(todo.get("a"), Some(true));
    assert_eq!(todo.len(), 1);
}

#[test]
fn items_keep_the_order_of_their_arrival() {
    let mut todo = Todo::empty();
    todo.add(String::from("b"));
    todo.add(String::from("a"));
    todo.add(String::from("c"));
    assert_eq!(todo.item(0), ("b", false));
    assert_eq!(todo.item(1), ("a", false));
    assert_eq!(todo.item(2), ("c", false));
}

#[test]
fn the_empty_text_is_an_item_like_any_other() {
    let mut todo = Todo::empty();
    assert_eq!(todo.add(String::new()), None);
    assert_eq!(todo.get(""), Some(false));
    assert_eq!(todo.add(String::new()), Some("item already exists, skipping"));
}

#[test]
fn put_stores_a_new_text_at_the_end() {
    let mut todo = list_of("a\tfalse\n");
    todo.put(String::from("b"), true);
    assert_eq!(todo.len(), 2);
    assert_eq!(todo.item(1), ("b", true));
}

#[test]
fn put_overrides_a_known_text_in_place() {
    let mut todo = list_of("a\tfalse\nb\tfalse\n");
    todo.put(String::from("a"), true);
    assert_eq!(todo.len(), 2);
    assert_eq!(todo.item(0), ("a", true));
    assert_eq!(todo.item(1), ("b", false));
}

#[test]
fn remove_missing_reports_and_changes_nothing() {
    let mut todo = Todo::empty();
    assert_eq!(todo.remove(String::from("missing")), "That item doesn't exist");
    assert_eq!(todo.len(), 0);
    assert_eq!(todo.save(), "");
}

#[test]
fn remove_reports_success_for_an_item_that_is_done() {
    let mut todo = list_of("a\ttrue\nb\tfalse\n");
    assert_eq!(todo.remove(String::from("a")), "Item removed successfully");
    assert_eq!(todo.get("a"), None);
    assert_eq!(todo.get("b"), Some(false));
    assert_eq!(todo.len(), 1);
}

#[test]
fn remove_reports_success_for_an_item_that_is_not_done() {
    let mut todo = list_of("a\ttrue\nb\tfalse\nc\ttrue\n");
    assert_eq!(todo.remove(String::from("b")), "Item removed successfully");
    assert_eq!(todo.get("b"), None);
    assert_eq!(todo.save(), "a\ttrue\nc\ttrue\n");
}

#[test]
fn remove_of_an_unknown_text_keeps_the_others() {
    let mut todo = list_of("a\ttrue\n");
    assert_eq!(todo.remove(String::from("A")), "That item doesn't exist");
    assert_eq!(todo.save(), "a\ttrue\n");
}

#[test]
fn update_switches_a_flag_that_differs() {
    let mut todo = list_of("a\tfalse\nb\tfalse\n");
    assert_eq!(todo.update_item("a", true), Update::Changed);
    assert_eq!(todo.get("a"), Some(true));
    assert_eq!(todo.get("b"), Some(false));
    assert_eq!(todo.len(), 2);
    assert_eq!(todo.update_item("a", false), Update::Changed);
    assert_eq!(todo.get("a"), Some(false));
}

#[test]
fn update_leaves_a_flag_that_is_already_set() {
    let mut todo = list_of("a\ttrue\nb\tfalse\n");
    assert_eq!(todo.update_item("a", true), Update::Unchanged);
    assert_eq!(todo.update_item("b", false), Update::Unchanged);
    assert_eq!(todo.save(), "a\ttrue\nb\tfalse\n");
}

#[test]
fn update_of_an_absent_item_creates_nothing() {
    let mut todo = list_of("a\ttrue\n");
    assert_eq!(todo.update_item("b", true), Update::Missing);
    assert_eq!(todo.update_item("b", false), Update::Missing);
    assert_eq!(todo.get("b"), None);
    assert_eq!(todo.len(), 1);
    assert_eq!(todo.save(), "a\ttrue\n");
}

#[test]
fn update_keeps_the_place_of_the_item() {
    let mut todo = list_of("a\tfalse\nb\tfalse\nc\tfalse\n");
    assert_eq!(todo.update_item("b", true), Update::Changed);
    assert_eq!(todo.save(), "a\tfalse\nb\ttrue\nc\tfalse\n");
}

#[test]
fn update_messages_name_the_requested_flag() {
    assert_eq!(Update::Missing.message(true), "item doesn't exist!");
    assert_eq!(Update::Missing.message(false), "item doesn't exist!");
    assert_eq!(Update::Unchanged.message(true), "item was already marked as done");
    assert_eq!(Update::Unchanged.message(false), "item was already marked as not done");
    assert_eq!(Update::Changed.message(true), "item marked as done!");
    assert_eq!(Update::Changed.message(false), "item marked as not done!");
}

#[test]
fn texts_differ_by_case_and_by_white_space() {
    let mut todo = Todo::empty();
    assert_eq!(todo.add(String::from("a")), None);
    assert_eq!(todo.add(String::from("A")), None);
    assert_eq!(todo.add(String::from("a ")), None);
    assert_eq!(todo.len(), 3);
}
