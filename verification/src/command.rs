//! Logical input actions, commands that can be undone, and the history that
//! keeps them.

use vstd::prelude::*;

verus! {

/// What a player wants to do, whatever key or button asked for it.
#[derive(Debug, Clone, Copy, PartialEq, Eq, Hash)]
#[non_exhaustive]
pub enum InputAction {
    /// Move forward.
    MoveForward,
    /// Move backward.
    MoveBackward,
    /// Strafe left.
    MoveLeft,
    /// Strafe right.
    MoveRight,
    /// Move up.
    MoveUp,
    /// Move down.
    MoveDown,
    /// Jump.
    Jump,
    /// Sprint.
    Sprint,
    /// Interact with an object.
    Interact,
    /// Primary action.
    PrimaryAction,
    /// Secondary action.
    SecondaryAction,
    /// Look up.
    LookUp,
    /// Look down.
    LookDown,
    /// Look left.
    LookLeft,
    /// Look right.
    LookRight,
    /// Pause, or open the menu.
    Pause,
    /// Open the inventory.
    Inventory,
    /// Confirm.
    Confirm,
    /// Cancel.
    Cancel,
}

/// An action that can be carried out and, where it supports it, taken back.
///
/// Nothing is assumed of an implementation: the history below is verified
/// for whatever these methods do and return, and says of every outcome that
/// it is one the command's own method can have.
pub trait Command {
    /// Carries the command out.
    fn execute(&mut self);

    /// Takes the command back. Returns whether that worked. A command that
    /// does not say otherwise stays as it is and answers that it did not.
    fn undo(&mut self) -> (worked: bool)
        default_ensures
            !worked,
            &*final(self) == &*old(self),
    {
        false
    }

    /// Whether the command can be taken back at all. A command that does not
    /// say otherwise cannot.
    fn is_undoable(&self) -> (answer: bool)
        default_ensures
            !answer,
    {
        false
    }

    /// A name for logs.
    fn name(&self) -> &'static str;
}

/// The undo stack `stack` cut down to `limit` entries by dropping the oldest
/// one, where `limit` is not zero and the stack is over it.
pub open spec fn trimmed<C>(stack: Seq<C>, limit: usize) -> Seq<C> {
    if limit > 0 && stack.len() > limit {
        stack.drop_first()
    } else {
        stack
    }
}

/// A boxed command is a command: every call goes to the command in the box,
/// and its outcome is the outcome of that call.
impl<C: Command + ?Sized> Command for Box<C> {
    fn execute(&mut self)
        ensures
            exists|inner: &mut C|
                {
                    &&& &*inner == &**old(self)
                    &&& &*final(inner) == &**final(self)
                    &&& #[trigger] C::execute.ensures((inner,), ())
                },
    {
        let inner: &mut C = &mut **self;
        inner.execute();
    }

    fn undo(&mut self) -> (worked: bool)
        ensures
            exists|inner: &mut C|
                {
                    &&& &*inner == &**old(self)
                    &&& &*final(inner) == &**final(self)
                    &&& #[trigger] C::undo.ensures((inner,), worked)
                },
    {
        let inner: &mut C = &mut **self;
        inner.undo()
    }

    fn is_undoable(&self) -> (answer: bool)
        ensures
            C::is_undoable.ensures((&**self,), answer),
    {
        (**self).is_undoable()
    }

    fn name(&self) -> (name: &'static str)
        ensures
            C::name.ensures((&**self,), name),
    {
        (**self).name()
    }
}

/// Two stacks of commands: those that can be undone, the latest on top, and
/// those that were undone and can be redone.
pub struct CommandHistory<C: Command> {
    undo_stack: Vec<C>,
    redo_stack: Vec<C>,
    max_size: usize,
}

impl<C: Command> CommandHistory<C> {
    /// The commands that can be undone, the latest last.
    pub closed spec fn undoable(&self) -> Seq<C> {
        self.undo_stack@
    }

    /// The commands that can be redone, the one undone last at the end.
    pub closed spec fn redoable(&self) -> Seq<C> {
        self.redo_stack@
    }

    /// The most commands kept for undoing; zero stands for no limit.
    pub closed spec fn limit(&self) -> usize {
        self.max_size
    }

    /// An empty history without a limit.
    pub fn new() -> (history: CommandHistory<C>)
        ensures
            history.undoable().len() == 0,
            history.redoable().len() == 0,
            history.limit() == 0,
    {
        CommandHistory { undo_stack: Vec::new(), redo_stack: Vec::new(), max_size: 0 }
    }

    /// An empty history that keeps at most `max_size` commands for undoing;
    /// zero stands for no limit.
    pub fn with_max_size(max_size: usize) -> (history: CommandHistory<C>)
        ensures
            history.undoable().len() == 0,
            history.redoable().len() == 0,
            history.limit() == max_size,
    {
        let reserve: usize = if max_size < 100 {
            max_size
        } else {
            100
        };
        CommandHistory { undo_stack: Vec::with_capacity(reserve), redo_stack: Vec::new(), max_size }
    }

    /// Enters a command that has been carried out: it becomes the latest
    /// command to undo, nothing is left to redo, and where the history is
    /// over its limit the oldest command is dropped.
    pub fn record(&mut self, cmd: C)
        ensures
            final(self).undoable() == trimmed(old(self).undoable().push(cmd), old(self).limit()),
            final(self).redoable().len() == 0,
            final(self).limit() == old(self).limit(),
    {
        self.undo_stack.push(cmd);
        self.redo_stack.clear();
        if self.max_size > 0 && self.undo_stack.len() > self.max_size {
            self.undo_stack.remove(0);
            proof {
                assert(self.undo_stack@ =~= old(self).undo_stack@.push(cmd).drop_first());
            }
        }
    }

    /// Carries `cmd` out and asks it whether it can be undone. If it says so,
    /// it is recorded as it stands after being carried out; if not, the
    /// history stays as it was.
    pub fn execute(&mut self, cmd: C)
        ensures
            final(self).limit() == old(self).limit(),
            exists|carried: &mut C, kept: bool|
                {
                    &&& *carried == cmd
                    &&& #[trigger] C::execute.ensures((carried,), ())
                    &&& #[trigger] C::is_undoable.ensures((&*final(carried),), kept)
                    &&& kept ==> {
                        &&& final(self).undoable() == trimmed(
                            old(self).undoable().push(*final(carried)),
                            old(self).limit(),
                        )
                        &&& final(self).redoable().len() == 0
                    }
                    &&& !kept ==> {
                        &&& final(self).undoable() == old(self).undoable()
                        &&& final(self).redoable() == old(self).redoable()
                    }
                },
    {
        let mut cmd = cmd;
        cmd.execute();
        if cmd.is_undoable() {
            self.record(cmd);
        }
    }

    /// Undoes the latest command: asks it to take itself back and returns its
    /// answer. A command that was undone moves to the commands to redo; one
    /// that could not be undone goes back where it was. Either way the
    /// command is kept as its own `undo` left it. Returns `false`, and
    /// changes nothing, when there is no command to undo.
    pub fn undo(&mut self) -> (undone: bool)
        ensures
            final(self).limit() == old(self).limit(),
            old(self).undoable().len() == 0 ==> {
                &&& !undone
                &&& final(self).undoable() == old(self).undoable()
                &&& final(self).redoable() == old(self).redoable()
            },
            old(self).undoable().len() > 0 ==> exists|cmd: &mut C|
                {
                    &&& *cmd == old(self).undoable().last()
                    &&& #[trigger] C::undo.ensures((cmd,), undone)
                    &&& undone ==> {
                        &&& final(self).undoable() == old(self).undoable().drop_last()
                        &&& final(self).redoable() == old(self).redoable().push(*final(cmd))
                    }
                    &&& !undone ==> {
                        &&& final(self).undoable() == old(self).undoable().drop_last().push(*final(cmd))
                        &&& final(self).redoable() == old(self).redoable()
                    }
                },
    {
        match self.undo_stack.pop() {
            Some(mut cmd) => {
                if cmd.undo() {
                    self.redo_stack.push(cmd);
                    proof {
                        assert(self.redo_stack@.drop_last() =~= old(self).redo_stack@);
                        assert(self.undo_stack@ =~= old(self).undo_stack@.drop_last());
                    }
                    return true;
                }
                self.undo_stack.push(cmd);
                proof {
                    assert(self.undo_stack@.drop_last() =~= old(self).undo_stack@.drop_last());
                }
                false
            },
            None => false,
        }
    }

    /// Carries out again the command that was undone last and makes it the
    /// latest command to undo. Returns `false` when there is none.
    pub fn redo(&mut self) -> (redone: bool)
        ensures
            final(self).limit() == old(self).limit(),
            redone == (old(self).redoable().len() > 0),
            !redone ==> {
                &&& final(self).undoable() == old(self).undoable()
                &&& final(self).redoable() == old(self).redoable()
            },
            redone ==> {
                &&& final(self).redoable() == old(self).redoable().drop_last()
                &&& final(self).undoable().len() == old(self).undoable().len() + 1
                &&& final(self).undoable().drop_last() == old(self).undoable()
            },
    {
        match self.redo_stack.pop() {
            Some(mut cmd) => {
                cmd.execute();
                self.undo_stack.push(cmd);
                proof {
                    assert(self.undo_stack@.drop_last() =~= old(self).undo_stack@);
                    assert(self.redo_stack@ =~= old(self).redo_stack@.drop_last());
                }
                true
            },
            None => false,
        }
    }

    /// Whether there is a command to undo.
    pub fn can_undo(&self) -> (can: bool)
        ensures
            can == (self.undoable().len() > 0),
    {
        !self.undo_stack.is_empty()
    }

    /// Whether there is a command to redo.
    pub fn can_redo(&self) -> (can: bool)
        ensures
            can == (self.redoable().len() > 0),
    {
        !self.redo_stack.is_empty()
    }

    /// The number of commands that can be undone.
    pub fn undo_count(&self) -> (count: usize)
        ensures
            count == self.undoable().len(),
    {
        self.undo_stack.len()
    }

    /// The number of commands that can be redone.
    pub fn redo_count(&self) -> (count: usize)
        ensures
            count == self.redoable().len(),
    {
        self.redo_stack.len()
    }

    /// Forgets every command.
    pub fn clear(&mut self)
        ensures
            final(self).undoable().len() == 0,
            final(self).redoable().len() == 0,
            final(self).limit() == old(self).limit(),
    {
        self.undo_stack.clear();
        self.redo_stack.clear();
    }
}

impl<C: Command> Default for CommandHistory<C> {
    fn default() -> (history: CommandHistory<C>)
        ensures
            history.undoable().len() == 0,
            history.redoable().len() == 0,
            history.limit() == 0,
    {
        CommandHistory::new()
    }
}

} // verus!
