use muharrir::command::{Command, CommandHistory, CompoundCommand, DEFAULT_MAX_DEPTH};
use muharrir::inspector::{Property, PropertySheet};
use std::convert::Infallible;

#[derive(Debug)]
struct PushCmd {
    value: i32,
}

impl Command for PushCmd {
    type Target = Vec<i32>;
    type Error = Infallible;

    fn apply(&mut self, target: &mut Vec<i32>) -> Result<(), Infallible> {
        target.push(self.value);
        Ok(())
    }

    fn reverse(&mut self, target: &mut Vec<i32>) -> Result<(), Infallible> {
        target.pop();
        Ok(())
    }

    fn description(&self) -> &str {
        "push"
    }
}

#[derive(Debug)]
struct RemoveLastCmd {
    removed: Option<i32>,
}

impl RemoveLastCmd {
    fn new() -> Self {
        Self { removed: None }
    }
}

impl Command for RemoveLastCmd {
    type Target = Vec<i32>;
    type Error = Infallible;

    fn apply(&mut self, target: &mut Vec<i32>) -> Result<(), Infallible> {
        self.removed = target.pop();
        Ok(())
    }

    fn reverse(&mut self, target: &mut Vec<i32>) -> Result<(), Infallible> {
        if let Some(v) = self.removed {
            target.push(v);
        }
        Ok(())
    }

    fn description(&self) -> &str {
        "remove last"
    }
}

#[derive(Debug)]
struct FailOnThreshold {
    value: i32,
    threshold: usize,
}

impl Command for FailOnThreshold {
    type Target = Vec<i32>;
    type Error = String;

    fn apply(&mut self, target: &mut Vec<i32>) -> Result<(), String> {
        if target.len() >= self.threshold {
            return Err("threshold reached".into());
        }
        target.push(self.value);
        Ok(())
    }

    fn reverse(&mut self, target: &mut Vec<i32>) -> Result<(), String> {
        target.pop();
        Ok(())
    }

    fn description(&self) -> &str {
        "fail on threshold"
    }
}

#[derive(Debug)]
struct FailReverse {
    applied: bool,
}

impl Command for FailReverse {
    type Target = Vec<i32>;
    type Error = String;

    fn apply(&mut self, target: &mut Vec<i32>) -> Result<(), String> {
        target.push(99);
        self.applied = true;
        Ok(())
    }

    fn reverse(&mut self, _target: &mut Vec<i32>) -> Result<(), String> {
        Err("reverse failed".into())
    }

    fn description(&self) -> &str {
        "fail reverse"
    }
}

#[derive(Debug)]
struct FailSecondApply {
    count: usize,
}

impl Command for FailSecondApply {
    type Target = Vec<i32>;
    type Error = String;

    fn apply(&mut self, target: &mut Vec<i32>) -> Result<(), String> {
        self.count += 1;
        if self.count > 1 {
            return Err("second apply failed".into());
        }
        target.push(1);
        Ok(())
    }

    fn reverse(&mut self, target: &mut Vec<i32>) -> Result<(), String> {
        target.pop();
        Ok(())
    }

    fn description(&self) -> &str {
        "fail second apply"
    }
}

// === Command trait ===

#[test]
fn apply_and_reverse() {
    let mut target = vec![];
    let mut cmd = PushCmd { value: 42 };
    cmd.apply(&mut target).unwrap();
    assert_eq!(target, vec![42]);
    cmd.reverse(&mut target).unwrap();
    assert!(target.is_empty());
}

#[test]
fn lazy_state_capture() {
    let mut target = vec![10, 20, 30];
    let mut cmd = RemoveLastCmd::new();
    assert!(cmd.removed.is_none());

    cmd.apply(&mut target).unwrap();
    assert_eq!(target, vec![10, 20]);
    assert_eq!(cmd.removed, Some(30));

    cmd.reverse(&mut target).unwrap();
    assert_eq!(target, vec![10, 20, 30]);
}

#[test]
fn infallible_commands_compile() {
    let mut target = vec![];
    let mut cmd = PushCmd { value: 1 };
    let result: Result<(), Infallible> = cmd.apply(&mut target);
    assert!(result.is_ok());
}

// === CompoundCommand ===

#[test]
fn compound_apply_in_order() {
    let mut target = vec![];
    let mut compound = CompoundCommand::new(
        "push three",
        vec![PushCmd { value: 1 }, PushCmd { value: 2 }, PushCmd { value: 3 }],
    );
    compound.apply(&mut target).unwrap();
    assert_eq!(target, vec![1, 2, 3]);
}

#[test]
fn compound_reverse_in_reverse_order() {
    let mut target = vec![];
    let mut compound = CompoundCommand::new(
        "push three",
        vec![PushCmd { value: 1 }, PushCmd { value: 2 }, PushCmd { value: 3 }],
    );
    compound.apply(&mut target).unwrap();
    compound.reverse(&mut target).unwrap();
    assert!(target.is_empty());
}

#[test]
fn compound_partial_failure_rollback() {
    let mut target = vec![];
    let mut compound = CompoundCommand::new(
        "fail on second",
        vec![
            FailOnThreshold { value: 1, threshold: 5 },
            FailOnThreshold { value: 2, threshold: 1 },
            FailOnThreshold { value: 3, threshold: 5 },
        ],
    );
    let result = compound.apply(&mut target);
    assert!(result.is_err());
    assert!(target.is_empty());
}

#[test]
fn compound_empty() {
    let mut target: Vec<i32> = vec![1, 2, 3];
    let mut compound: CompoundCommand<PushCmd> = CompoundCommand::new("empty", vec![]);
    compound.apply(&mut target).unwrap();
    assert_eq!(target, vec![1, 2, 3]);
    compound.reverse(&mut target).unwrap();
    assert_eq!(target, vec![1, 2, 3]);
}

#[test]
fn compound_accessors() {
    let compound = CompoundCommand::new("test", vec![PushCmd { value: 1 }, PushCmd { value: 2 }]);
    assert_eq!(compound.len(), 2);
    assert!(!compound.is_empty());
    assert_eq!(compound.commands().len(), 2);
    assert_eq!(compound.description(), "test");
}

#[test]
fn compound_with_dynamic_description() {
    let compound = CompoundCommand::with_description("dynamic".to_string(), vec![PushCmd { value: 1 }]);
    assert_eq!(compound.description(), "dynamic");
}

#[test]
fn compound_reverse_stops_at_failure() {
    // Reversal runs last-first and stops at the first failure.
    let mut target = vec![];
    let mut compound = CompoundCommand::new(
        "mixed",
        vec![FailOnThreshold { value: 1, threshold: 5 }, FailOnThreshold { value: 2, threshold: 5 }],
    );
    compound.apply(&mut target).unwrap();
    assert_eq!(target, vec![1, 2]);
    compound.reverse(&mut target).unwrap();
    assert!(target.is_empty());
    assert_eq!(compound.len(), 2);
}

// === CommandHistory ===

#[test]
fn history_execute() {
    let mut target = vec![];
    let mut history = CommandHistory::new();

    history.execute(PushCmd { value: 1 }, &mut target).unwrap();
    history.execute(PushCmd { value: 2 }, &mut target).unwrap();
    history.execute(PushCmd { value: 3 }, &mut target).unwrap();

    assert_eq!(target, vec![1, 2, 3]);
    assert_eq!(history.undo_count(), 3);
    assert_eq!(history.redo_count(), 0);
}

#[test]
fn history_undo() {
    let mut target = vec![];
    let mut history = CommandHistory::new();

    history.execute(PushCmd { value: 1 }, &mut target).unwrap();
    history.execute(PushCmd { value: 2 }, &mut target).unwrap();

    assert!(history.undo(&mut target).unwrap());
    assert_eq!(target, vec![1]);
    assert_eq!(history.undo_count(), 1);
    assert_eq!(history.redo_count(), 1);
}

#[test]
fn history_redo() {
    let mut target = vec![];
    let mut history = CommandHistory::new();

    history.execute(PushCmd { value: 1 }, &mut target).unwrap();
    history.undo(&mut target).unwrap();
    assert!(target.is_empty());

    assert!(history.redo(&mut target).unwrap());
    assert_eq!(target, vec![1]);
}

#[test]
fn history_undo_redo_roundtrip() {
    let mut target = vec![];
    let mut history = CommandHistory::new();

    history.execute(PushCmd { value: 1 }, &mut target).unwrap();
    history.execute(PushCmd { value: 2 }, &mut target).unwrap();
    history.execute(PushCmd { value: 3 }, &mut target).unwrap();

    history.undo(&mut target).unwrap();
    history.undo(&mut target).unwrap();
    assert_eq!(target, vec![1]);

    history.redo(&mut target).unwrap();
    history.redo(&mut target).unwrap();
    assert_eq!(target, vec![1, 2, 3]);
}

#[test]
fn history_undo_empty() {
    let mut target: Vec<i32> = vec![];
    let mut history: CommandHistory<PushCmd> = CommandHistory::new();
    assert!(!history.undo(&mut target).unwrap());
}

#[test]
fn history_redo_empty() {
    let mut target: Vec<i32> = vec![];
    let mut history: CommandHistory<PushCmd> = CommandHistory::new();
    assert!(!history.redo(&mut target).unwrap());
}

#[test]
fn history_execute_clears_redo() {
    let mut target = vec![];
    let mut history = CommandHistory::new();

    history.execute(PushCmd { value: 1 }, &mut target).unwrap();
    history.execute(PushCmd { value: 2 }, &mut target).unwrap();
    history.undo(&mut target).unwrap();
    assert!(history.can_redo());

    history.execute(PushCmd { value: 3 }, &mut target).unwrap();
    assert!(!history.can_redo());
    assert_eq!(target, vec![1, 3]);
}

#[test]
fn history_max_depth_eviction() {
    let mut target = vec![];
    let mut history = CommandHistory::with_max_depth(3);

    for i in 0..5 {
        history.execute(PushCmd { value: i }, &mut target).unwrap();
    }
    assert_eq!(history.undo_count(), 3);
    assert_eq!(history.max_depth(), 3);
}

#[test]
fn history_clear() {
    let mut target = vec![];
    let mut history = CommandHistory::new();

    history.execute(PushCmd { value: 1 }, &mut target).unwrap();
    history.execute(PushCmd { value: 2 }, &mut target).unwrap();
    history.undo(&mut target).unwrap();

    history.clear();
    assert!(!history.can_undo());
    assert!(!history.can_redo());
    assert_eq!(history.undo_count(), 0);
    assert_eq!(history.redo_count(), 0);
}

#[test]
fn history_default() {
    let history: CommandHistory<PushCmd> = CommandHistory::default();
    assert_eq!(history.max_depth(), DEFAULT_MAX_DEPTH);
    assert_eq!(history.undo_count(), 0);
}

#[test]
fn history_failed_undo_preserves_command() {
    let mut target = vec![];
    let mut history: CommandHistory<FailReverse> = CommandHistory::new();
    history.execute(FailReverse { applied: false }, &mut target).unwrap();
    assert_eq!(history.undo_count(), 1);

    let result = history.undo(&mut target);
    assert!(result.is_err());
    assert_eq!(history.undo_count(), 1);
    assert_eq!(history.redo_count(), 0);
}

#[test]
fn history_failed_redo_preserves_command() {
    let mut target = vec![];
    let mut history = CommandHistory::new();
    history.execute(FailSecondApply { count: 0 }, &mut target).unwrap();
    history.undo(&mut target).unwrap();
    assert_eq!(history.redo_count(), 1);

    let result = history.redo(&mut target);
    assert!(result.is_err());
    assert_eq!(history.redo_count(), 1);
    assert_eq!(history.undo_count(), 0);
}

#[test]
fn history_max_depth_one() {
    let mut target = vec![];
    let mut history = CommandHistory::with_max_depth(1);

    history.execute(PushCmd { value: 1 }, &mut target).unwrap();
    history.execute(PushCmd { value: 2 }, &mut target).unwrap();
    assert_eq!(history.undo_count(), 1);

    history.undo(&mut target).unwrap();
    assert_eq!(target, vec![1]);
}

#[test]
fn history_compound_through_history() {
    let mut target = vec![];
    let mut history: CommandHistory<CompoundCommand<PushCmd>> = CommandHistory::new();

    let compound = CompoundCommand::new(
        "batch push",
        vec![PushCmd { value: 10 }, PushCmd { value: 20 }, PushCmd { value: 30 }],
    );
    history.execute(compound, &mut target).unwrap();
    assert_eq!(target, vec![10, 20, 30]);
    assert_eq!(history.undo_count(), 1);

    history.undo(&mut target).unwrap();
    assert!(target.is_empty());

    history.redo(&mut target).unwrap();
    assert_eq!(target, vec![10, 20, 30]);
}

#[test]
fn history_max_depth_zero_keeps_nothing() {
    // A zero max depth applies commands but keeps none to undo.
    let mut target = vec![];
    let mut history = CommandHistory::with_max_depth(0);
    history.execute(PushCmd { value: 1 }, &mut target).unwrap();
    history.execute(PushCmd { value: 2 }, &mut target).unwrap();
    assert_eq!(target, vec![1, 2]);
    assert_eq!(history.undo_count(), 0);
    assert!(!history.undo(&mut target).unwrap());
    assert_eq!(target, vec![1, 2]);
}

#[test]
fn history_failed_execute_leaves_stacks() {
    let mut target = vec![0];
    let mut history = CommandHistory::new();
    history.execute(FailOnThreshold { value: 1, threshold: 5 }, &mut target).unwrap();
    history.undo(&mut target).unwrap();
    assert_eq!(history.redo_count(), 1);
    let result = history.execute(FailOnThreshold { value: 2, threshold: 0 }, &mut target);
    assert!(result.is_err());
    assert_eq!(history.undo_count(), 0);
    assert_eq!(history.redo_count(), 1);
}

#[test]
fn history_undo_then_redo_restores_counts() {
    let mut target = vec![];
    let mut history = CommandHistory::new();
    history.execute(PushCmd { value: 1 }, &mut target).unwrap();
    history.execute(PushCmd { value: 2 }, &mut target).unwrap();
    history.execute(PushCmd { value: 3 }, &mut target).unwrap();
    history.undo(&mut target).unwrap();
    let (u, r) = (history.undo_count(), history.redo_count());
    history.undo(&mut target).unwrap();
    history.redo(&mut target).unwrap();
    assert_eq!((history.undo_count(), history.redo_count()), (u, r));
}

// === Commands on a property sheet ===

#[derive(Debug)]
struct SetValue {
    name: &'static str,
    old_value: String,
    new_value: String,
}

impl Command for SetValue {
    type Target = PropertySheet;
    type Error = Infallible;

    fn apply(&mut self, target: &mut PropertySheet) -> Result<(), Infallible> {
        if let Some(p) = target.properties.iter_mut().find(|p| p.name == self.name) {
            self.old_value = std::mem::replace(&mut p.value, self.new_value.clone());
        }
        Ok(())
    }

    fn reverse(&mut self, target: &mut PropertySheet) -> Result<(), Infallible> {
        if let Some(p) = target.properties.iter_mut().find(|p| p.name == self.name) {
            p.value = self.old_value.clone();
        }
        Ok(())
    }

    fn description(&self) -> &str {
        "set value"
    }
}

#[test]
fn command_modifies_inspector() {
    let mut sheet = PropertySheet::new();
    sheet.push(Property::new("Transform", "x", "0.0"));

    let mut history = CommandHistory::new();
    history
        .execute(SetValue { name: "x", old_value: String::new(), new_value: "5.0".into() }, &mut sheet)
        .unwrap();

    assert_eq!(sheet.properties[0].value, "5.0");

    history.undo(&mut sheet).unwrap();
    assert_eq!(sheet.properties[0].value, "0.0");

    history.redo(&mut sheet).unwrap();
    assert_eq!(sheet.properties[0].value, "5.0");
}

#[test]
fn empty_compound_applies_and_reverses_cleanly() {
    let mut compound: CompoundCommand<PushCmd> = CompoundCommand::new("nothing", Vec::new());
    let mut target = vec![1, 2];
    assert!(compound.apply(&mut target).is_ok());
    assert!(compound.reverse(&mut target).is_ok());
    assert_eq!(target, vec![1, 2]);
    assert_eq!(compound.description(), "nothing");
}
