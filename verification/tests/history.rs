use muharrir::command::{Command, CommandHistory};
use muharrir::history::{Action, History};
use muharrir::inspector::{Property, PropertySheet};
use serde_json::Value;
use std::convert::Infallible;

fn object(pairs: Vec<(&str, Value)>) -> Value {
    let mut m = serde_json::Map::new();
    for (k, v) in pairs {
        m.insert(k.to_string(), v);
    }
    Value::Object(m)
}

fn action(kind: &str) -> Action {
    Action::new(kind, object(vec![("test", Value::Bool(true))]))
}

#[test]
fn new_history_is_empty() {
    let h = History::new();
    assert!(h.is_empty());
    assert_eq!(h.len(), 0);
    assert_eq!(h.cursor(), 0);
    assert!(!h.can_undo());
    assert!(!h.can_redo());
}

#[test]
fn record_increments_cursor() {
    let mut h = History::new();
    h.record("test", action("do_something"));
    assert_eq!(h.len(), 1);
    assert_eq!(h.cursor(), 1);
    assert!(h.can_undo());
    assert!(!h.can_redo());
}

#[test]
fn undo_moves_cursor_back() {
    let mut h = History::new();
    h.record("test", action("a"));
    h.record("test", action("b"));

    let entry = h.undo().unwrap();
    assert_eq!(entry.action(), "b");
    assert_eq!(h.cursor(), 1);
    assert!(h.can_undo());
    assert!(h.can_redo());
}

#[test]
fn redo_moves_cursor_forward() {
    let mut h = History::new();
    h.record("test", action("a"));
    h.undo();

    let entry = h.redo().unwrap();
    assert_eq!(entry.action(), "a");
    assert_eq!(h.cursor(), 1);
    assert!(!h.can_redo());
}

#[test]
fn undo_at_start_returns_none() {
    let mut h = History::new();
    assert!(h.undo().is_none());
}

#[test]
fn redo_at_end_returns_none() {
    let mut h = History::new();
    h.record("test", action("a"));
    assert!(h.redo().is_none());
}

#[test]
fn undo_redo_roundtrip() {
    let mut h = History::new();
    h.record("test", action("a"));
    h.record("test", action("b"));
    h.record("test", action("c"));

    h.undo();
    h.undo();
    assert_eq!(h.cursor(), 1);

    h.redo();
    h.redo();
    assert_eq!(h.cursor(), 3);
    assert!(!h.can_redo());
}

#[test]
fn verify_intact_chain() {
    let mut h = History::new();
    h.record("editor", action("move"));
    h.record("editor", action("rotate"));
    assert!(h.verify());
}

#[test]
fn applied_entries_tracks_cursor() {
    let mut h = History::new();
    h.record("test", action("a"));
    h.record("test", action("b"));
    h.record("test", action("c"));

    assert_eq!(h.applied_entries().len(), 3);
    h.undo();
    assert_eq!(h.applied_entries().len(), 2);
}

#[test]
fn page_returns_slice() {
    let mut h = History::new();
    for i in 0..10 {
        h.record("test", action(&format!("action_{i}")));
    }
    let page = h.page(5, 3);
    assert_eq!(page.len(), 3);
}

#[test]
fn page_past_the_end_is_short() {
    let mut h = History::new();
    for i in 0..4 {
        h.record("test", action(&format!("action_{i}")));
    }
    assert_eq!(h.page(3, 5).len(), 1);
    assert_eq!(h.page(9, 2).len(), 0);
}

#[test]
fn entries_preserves_details() {
    let mut h = History::new();
    let details = object(vec![
        ("entity", Value::from(42)),
        ("before", Value::Array(vec![Value::from(0), Value::from(0), Value::from(0)])),
        ("after", Value::Array(vec![Value::from(1), Value::from(2), Value::from(3)])),
    ]);
    h.record("inspector", Action::new("set_position", details.clone()));
    assert_eq!(h.entries()[0].details(), &details);
}

#[test]
fn default_trait() {
    let h = History::default();
    assert!(h.is_empty());
}

#[test]
fn record_after_undo_ends_redo() {
    let mut h = History::new();
    h.record("test", action("a"));
    h.record("test", action("b"));
    h.undo();
    assert!(h.can_redo());
    h.record("test", action("c"));
    assert!(!h.can_redo());
    assert_eq!(h.cursor(), 3);
    assert_eq!(h.len(), 3);
    assert_eq!(h.entries()[2].action(), "c");
    assert_eq!(h.entries()[2].source(), "test");
}

#[test]
fn history_tracks_property_changes() {
    let mut history = History::new();
    let mut sheet = PropertySheet::new();
    sheet.push(Property::new("Transform", "x", "0.0"));

    history.record(
        "inspector",
        Action::new(
            "set_property",
            object(vec![
                ("category", Value::from("Transform")),
                ("name", Value::from("x")),
                ("before", Value::from("0.0")),
                ("after", Value::from("5.0")),
            ]),
        ),
    );

    assert_eq!(history.len(), 1);
    assert!(history.verify());

    let entry = history.undo().unwrap();
    assert_eq!(entry.action(), "set_property");
}

#[derive(Debug)]
struct Inc;

impl Command for Inc {
    type Target = i32;
    type Error = Infallible;
    fn apply(&mut self, t: &mut i32) -> Result<(), Infallible> {
        *t += 1;
        Ok(())
    }
    fn reverse(&mut self, t: &mut i32) -> Result<(), Infallible> {
        *t -= 1;
        Ok(())
    }
    fn description(&self) -> &str {
        "increment"
    }
}

#[test]
fn command_with_audit_trail() {
    let mut value = 0i32;
    let mut commands = CommandHistory::new();
    let mut audit = History::new();

    commands.execute(Inc, &mut value).unwrap();
    audit.record("command", Action::new("increment", object(vec![("value", Value::from(value))])));

    commands.execute(Inc, &mut value).unwrap();
    audit.record("command", Action::new("increment", object(vec![("value", Value::from(value))])));

    assert_eq!(value, 2);
    assert_eq!(commands.undo_count(), 2);
    assert_eq!(audit.len(), 2);
    assert!(audit.verify());
}

#[test]
fn full_editor_workflow() {
    let mut history = History::new();

    // The values a property field's expressions give: sin(pi/4), and the
    // fallback 0.0 for input that does not evaluate.
    let x = (std::f64::consts::PI / 4.0).sin();
    let y = 0.0f64;

    history.record(
        "inspector",
        Action::new("set_transform", object(vec![("x", Value::from(x)), ("y", Value::from(y))])),
    );
    history.record(
        "hierarchy",
        Action::new("reparent", object(vec![("child", Value::from(5)), ("parent", Value::from(1))])),
    );

    assert_eq!(history.len(), 2);
    assert!(history.verify());

    history.undo();
    history.undo();
    assert_eq!(history.cursor(), 0);

    history.redo();
    assert_eq!(history.cursor(), 1);
}

#[test]
fn page_lists_records_from_offset() {
    let mut h = History::new();
    for i in 0..10 {
        h.record("test", action(&format!("action_{i}")));
    }
    let page = h.page(5, 3);
    let kinds: Vec<&str> = page.iter().map(|e| e.action()).collect();
    assert_eq!(kinds, vec!["action_5", "action_6", "action_7"]);
}

#[test]
fn applied_entries_are_the_first_records() {
    let mut h = History::new();
    h.record("a_src", action("a"));
    h.record("b_src", action("b"));
    h.record("c_src", action("c"));
    h.undo();
    let applied: Vec<(&str, &str)> = h.applied_entries().iter().map(|e| (e.source(), e.action())).collect();
    assert_eq!(applied, vec![("a_src", "a"), ("b_src", "b")]);
}

#[test]
fn undo_and_redo_return_recorded_details() {
    let mut h = History::new();
    let first = object(vec![("x", Value::from(1))]);
    let second = object(vec![("x", Value::from(2))]);
    h.record("inspector", Action::new("set_x", first.clone()));
    h.record("inspector", Action::new("set_x", second.clone()));
    assert_eq!(h.undo().unwrap().details(), &second);
    assert_eq!(h.undo().unwrap().details(), &first);
    assert_eq!(h.redo().unwrap().details(), &first);
    assert_eq!(h.page(1, 1)[0].details(), &second);
    assert_eq!(h.applied_entries()[0].details(), &first);
}
