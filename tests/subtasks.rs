use watermelon::errors::{make_error, validate_title};
use watermelon::models::SubTask;
use watermelon::subtasks::build_sub_task_tree;

fn sub(id: &str, parent: Option<&str>, order: i64) -> SubTask {
    SubTask {
        id: id.to_string(),
        task_id: "t".to_string(),
        parent_id: parent.map(|p| p.to_string()),
        title: format!("step {}", id),
        description: None,
        priority: "none".to_string(),
        due_date: None,
        completed: false,
        sort_order: order,
        created_at: "2024-01-01T00:00:00+00:00".to_string(),
        children: None,
    }
}

fn ids(v: &[SubTask]) -> Vec<String> {
    v.iter().map(|s| s.id.clone()).collect()
}

#[test]
fn sub_tasks_nest_under_their_parents() {
    let flat = vec![
        sub("a", None, 2),
        sub("b", Some("a"), 0),
        sub("c", None, 1),
        sub("d", Some("b"), 0),
        sub("e", Some("a"), 1),
        sub("f", Some("missing"), 0),
    ];
    let tree = build_sub_task_tree(flat);
    assert_eq!(ids(&tree), vec!["f", "c", "a"]);
    let a = &tree[2];
    let a_children = a.children.as_ref().unwrap();
    assert_eq!(ids(a_children), vec!["b", "e"]);
    assert_eq!(ids(a_children[0].children.as_ref().unwrap()), vec!["d"]);
    assert!(a_children[1].children.as_ref().unwrap().is_empty());
    assert!(tree[1].children.as_ref().unwrap().is_empty());
    assert_eq!(a.title, "step a");
}

#[test]
fn sub_tasks_on_a_parent_cycle_stand_at_the_top() {
    let flat = vec![
        sub("a", Some("b"), 1),
        sub("b", Some("a"), 0),
        sub("c", Some("a"), 0),
        sub("s", Some("s"), 5),
    ];
    let tree = build_sub_task_tree(flat);
    assert_eq!(ids(&tree), vec!["b", "a", "s"]);
    assert!(tree[0].children.as_ref().unwrap().is_empty());
    assert_eq!(ids(tree[1].children.as_ref().unwrap()), vec!["c"]);
    assert!(tree[2].children.as_ref().unwrap().is_empty());
}

#[test]
fn equal_sort_orders_keep_list_order() {
    let tree = build_sub_task_tree(vec![sub("x", None, 0), sub("y", None, 0), sub("z", None, -1)]);
    assert_eq!(ids(&tree), vec!["z", "x", "y"]);
    assert!(build_sub_task_tree(vec![]).is_empty());
}

#[test]
fn titles_must_hold_more_than_whitespace() {
    assert!(validate_title("Buy milk").is_ok());
    assert!(validate_title("  x ").is_ok());
    assert_eq!(validate_title("   ").err().unwrap().code, "VALIDATION_ERROR");
    assert!(validate_title("").is_err());
    assert!(validate_title("\t\n").is_err());
    assert!(validate_title(" ").err().unwrap().details.is_none());
    let e = make_error("NOT_FOUND", "Task not found");
    assert_eq!(e.code, "NOT_FOUND");
    assert_eq!(e.message, "Task not found");
    assert!(e.details.is_none());
}
