//! The in-memory task store: an ordered sequence of tasks, each a
//! description with a completion flag. All mutating operations bounds-check
//! their index; an out-of-range index is reported and leaves the store
//! unchanged.

use vstd::prelude::*;

verus! {

/// The mathematical content of a task: its description text and whether it
/// has been completed.
pub struct TaskView {
    pub description: Seq<char>,
    pub is_completed: bool,
}

/// A single to-do item.
pub struct Task {
    pub description: String,
    pub is_completed: bool,
}

impl View for Task {
    type V = TaskView;

    open spec fn view(&self) -> TaskView {
        TaskView { description: self.description@, is_completed: self.is_completed }
    }
}

impl Task {
    /// A fresh task starts out not completed.
    pub fn new(description: &str) -> (t: Task)
        ensures
            t@.description == description@,
            !t@.is_completed,
    {
        Task { description: description.to_owned(), is_completed: false }
    }

    /// Sets the completion flag; the description is untouched.
    pub fn mark_completed(&mut self)
        ensures
            final(self)@.description == old(self)@.description,
            final(self)@.is_completed,
    {
        self.is_completed = true;
    }
}

/// The error every index-taking operation reports when the index does not
/// name a task.
#[derive(Clone, Copy, PartialEq, Eq, Structural, Debug)]
pub enum StoreError {
    IndexOutOfRange,
}

impl StoreError {
    /// The message shown to the user for this error.
    pub fn message(&self) -> (m: &'static str)
        ensures
            m@ == "Error: Task index out of range."@,
    {
        "Error: Task index out of range."
    }
}

/// The store a task at `i` moves to when it is marked completed: the same
/// sequence, with only the flag at `i` set.
pub open spec fn marked_at(s: Seq<TaskView>, i: int) -> Seq<TaskView>
    recommends
        0 <= i < s.len(),
{
    s.update(i, TaskView { description: s[i].description, is_completed: true })
}

/// The mathematical content of a sequence of tasks.
pub open spec fn tasks_view(ts: Seq<Task>) -> Seq<TaskView> {
    ts.map_values(|t: Task| t@)
}

/// The ordered collection of all tasks in a session.
pub struct TodoApp {
    pub tasks: Vec<Task>,
}

impl View for TodoApp {
    type V = Seq<TaskView>;

    open spec fn view(&self) -> Seq<TaskView> {
        tasks_view(self.tasks@)
    }
}

impl TodoApp {
    /// A new store holds no tasks.
    pub fn new() -> (app: TodoApp)
        ensures
            app@ == Seq::<TaskView>::empty(),
    {
        let app = TodoApp { tasks: Vec::new() };
        proof {
            assert(app@ =~= Seq::<TaskView>::empty());
        }
        app
    }

    /// How many tasks the store holds.
    pub fn len(&self) -> (n: usize)
        ensures
            n == self@.len(),
    {
        self.tasks.len()
    }

    /// Appends a new, not yet completed task; always succeeds.
    pub fn add_task(&mut self, description: &str)
        ensures
            final(self)@ == old(self)@.push(
                TaskView { description: description@, is_completed: false },
            ),
    {
        let task = Task::new(description);
        self.tasks.push(task);
        proof {
            assert(self@ =~= old(self)@.push(
                TaskView { description: description@, is_completed: false },
            ));
        }
    }

    /// Deletes the task at `index` when it is in range; otherwise reports the
    /// error and leaves the store unchanged.
    pub fn remove_task(&mut self, index: usize) -> (r: Result<(), StoreError>)
        ensures
            index < old(self)@.len() ==> r is Ok && final(self)@ == old(self)@.remove(
                index as int,
            ),
            index >= old(self)@.len() ==> r == Err::<(), StoreError>(StoreError::IndexOutOfRange)
                && final(self)@ == old(self)@,
    {
        if index < self.tasks.len() {
            self.tasks.remove(index);
            proof {
                assert(self@ =~= old(self)@.remove(index as int));
            }
            Ok(())
        } else {
            Err(StoreError::IndexOutOfRange)
        }
    }

    /// Replaces the description at `index` when it is in range; otherwise
    /// reports the error and leaves the store unchanged.
    pub fn edit_task(&mut self, index: usize, new_description: &str) -> (r: Result<
        (),
        StoreError,
    >)
        ensures
            index < old(self)@.len() ==> r is Ok && final(self)@ == old(self)@.update(
                index as int,
                (TaskView {
                    description: new_description@,
                    is_completed: old(self)@[index as int].is_completed,
                }),
            ),
            index >= old(self)@.len() ==> r == Err::<(), StoreError>(StoreError::IndexOutOfRange)
                && final(self)@ == old(self)@,
    {
        if index < self.tasks.len() {
            self.tasks[index].description = new_description.to_owned();
            proof {
                assert(self@ =~= old(self)@.update(
                    index as int,
                    (TaskView {
                        description: new_description@,
                        is_completed: old(self)@[index as int].is_completed,
                    }),
                ));
            }
            Ok(())
        } else {
            Err(StoreError::IndexOutOfRange)
        }
    }

    /// Sets the completion flag at `index` when it is in range; otherwise
    /// reports the error and leaves the store unchanged.
    pub fn mark_task_completed(&mut self, index: usize) -> (r: Result<(), StoreError>)
        ensures
            index < old(self)@.len() ==> r is Ok && final(self)@ == marked_at(
                old(self)@,
                index as int,
            ),
            index >= old(self)@.len() ==> r == Err::<(), StoreError>(StoreError::IndexOutOfRange)
                && final(self)@ == old(self)@,
    {
        if index < self.tasks.len() {
            self.tasks[index].mark_completed();
            proof {
                assert(self@ =~= marked_at(old(self)@, index as int));
            }
            Ok(())
        } else {
            Err(StoreError::IndexOutOfRange)
        }
    }
}

/// Marking a task completed is idempotent: marking the same index a second
/// time leaves the store exactly as the first marking did.
pub proof fn lemma_mark_completed_idempotent(s: Seq<TaskView>, i: int)
    requires
        0 <= i < s.len(),
    ensures
        marked_at(marked_at(s, i), i) == marked_at(s, i),
{
    assert(marked_at(marked_at(s, i), i) =~= marked_at(s, i));
}

} // verus!
