use skelanim::command::{Command, CommandHistory};

// Test command with simple state
#[derive(Debug)]
struct TestCommand {
    #[allow(dead_code)]
    value: i32,
    executed: bool,
}

impl TestCommand {
    fn new(value: i32) -> Self {
        Self { value, executed: false }
    }
}

impl Command for TestCommand {
    fn execute(&mut self) {
        self.executed = true;
    }

    fn undo(&mut self) -> bool {
        self.executed = false;
        true
    }

    fn is_undoable(&self) -> bool {
        true
    }

    fn name(&self) -> &'static str {
        "TestCommand"
    }
}

/// A command that cannot be taken back.
struct OneWay;

impl Command for OneWay {
    fn execute(&mut self) {}

    fn name(&self) -> &'static str {
        "OneWay"
    }
}

/// A command that says it can be undone and then refuses.
struct Stubborn;

impl Command for Stubborn {
    fn execute(&mut self) {}

    fn is_undoable(&self) -> bool {
        true
    }

    fn name(&self) -> &'static str {
        "Stubborn"
    }
}

#[test]
fn test_command_history_execute() {
    let mut history = CommandHistory::new();

    history.execute(Box::new(TestCommand::new(42)));

    assert_eq!(history.undo_count(), 1);
    assert!(history.can_undo());
}

#[test]
fn test_command_history_undo_redo() {
    let mut history = CommandHistory::new();

    history.execute(Box::new(TestCommand::new(1)));
    history.execute(Box::new(TestCommand::new(2)));

    assert_eq!(history.undo_count(), 2);

    // Undo
    assert!(history.undo());
    assert_eq!(history.undo_count(), 1);
    assert_eq!(history.redo_count(), 1);

    // Redo
    assert!(history.redo());
    assert_eq!(history.undo_count(), 2);
    assert_eq!(history.redo_count(), 0);
}

#[test]
fn test_command_history_max_size() {
    let mut history = CommandHistory::with_max_size(2);

    history.execute(Box::new(TestCommand::new(1)));
    history.execute(Box::new(TestCommand::new(2)));
    history.execute(Box::new(TestCommand::new(3)));

    // Should only keep 2 commands
    assert_eq!(history.undo_count(), 2);
}

#[test]
fn test_command_history_clear_redo_on_new_execute() {
    let mut history = CommandHistory::new();

    history.execute(Box::new(TestCommand::new(1)));
    history.undo();
    assert!(history.can_redo());

    // New execution clears redo stack
    history.execute(Box::new(TestCommand::new(2)));
    assert!(!history.can_redo());
}

#[test]
fn history_of_boxed_trait_objects_mixes_commands() {
    let mut history: CommandHistory<Box<dyn Command>> = CommandHistory::new();
    history.execute(Box::new(TestCommand::new(1)));
    history.execute(Box::new(OneWay));
    history.execute(Box::new(Stubborn));
    // The one-way command is carried out but not kept.
    assert_eq!(history.undo_count(), 2);
    // The stubborn command refuses and stays where it was.
    assert!(!history.undo());
    assert_eq!(history.undo_count(), 2);
    assert_eq!(history.redo_count(), 0);
}

#[test]
fn history_without_commands_has_nothing_to_undo_or_redo() {
    let mut history: CommandHistory<TestCommand> = CommandHistory::default();
    assert!(!history.can_undo());
    assert!(!history.can_redo());
    assert!(!history.undo());
    assert!(!history.redo());
    history.execute(TestCommand::new(5));
    history.clear();
    assert_eq!(history.undo_count(), 0);
    assert_eq!(history.redo_count(), 0);
}

#[test]
fn history_drops_the_oldest_command_over_its_limit() {
    let mut history = CommandHistory::with_max_size(1);
    history.record(TestCommand::new(1));
    history.record(TestCommand::new(2));
    assert_eq!(history.undo_count(), 1);
    assert!(history.undo());
    assert!(!history.undo());
    assert_eq!(history.redo_count(), 1);
}
