//! The in-memory task store: an ordered list of tasks, addressed by 1-based
//! display index, with append, delete and complete operations.
use vstd::prelude::*;

verus! {

/// One to-do item.
pub struct Task {
    pub priority: u8,
    pub title: String,
    pub is_completed: bool,
}

/// Mathematical image of a task: the title as a sequence of characters.
#[verifier::ext_equal]
pub struct TaskModel {
    pub priority: u8,
    pub title: Seq<char>,
    pub is_completed: bool,
}

impl View for Task {
    type V = TaskModel;

    open spec fn view(&self) -> TaskModel {
        TaskModel { priority: self.priority, title: self.title@, is_completed: self.is_completed }
    }
}

impl DeepView for Task {
    type V = TaskModel;

    open spec fn deep_view(&self) -> TaskModel {
        self@
    }
}

/// The one-line rendering of a task in a listing: its title, its priority in
/// parentheses, and whether it is completed.
pub open spec fn display_spec(t: TaskModel) -> Seq<char> {
    "* "@ + t.title + "("@ + crate::codec::dec_rep(t.priority as int) + ") - "@ + (
    if t.is_completed {
        "completed"@
    } else {
        "not completed"@
    })
}

impl Task {
    /// A fresh task starts out not completed.
    pub fn new(title: String, priority: u8) -> (t: Task)
        ensures
            t@ == (TaskModel { priority, title: title@, is_completed: false }),
    {
        Task { priority, title, is_completed: false }
    }

    /// Renders the task as its listing line: exactly what `display_spec` says.
    pub fn display_line(&self) -> (s: String)
        ensures
            s@ == display_spec(self@),
    {
        let mut buf: Vec<char> = Vec::new();
        crate::codec::push_lit(&mut buf, "* ");
        crate::codec::push_lit(&mut buf, self.title.as_str());
        crate::codec::push_lit(&mut buf, "(");
        crate::codec::push_dec(&mut buf, self.priority);
        crate::codec::push_lit(&mut buf, ") - ");
        if self.is_completed {
            crate::codec::push_lit(&mut buf, "completed");
        } else {
            crate::codec::push_lit(&mut buf, "not completed");
        }
        proof {
            assert(buf@ =~= display_spec(self@));
        }
        crate::text::chars_to_string(&buf)
    }
}

/// Appending a task puts it last, not completed.
pub open spec fn add_spec(ts: Seq<TaskModel>, title: Seq<char>, priority: u8) -> Seq<TaskModel> {
    ts.push(TaskModel { priority, title, is_completed: false })
}

/// A display index is valid when it names an element: indices are 1-based.
pub open spec fn index_valid(ts: Seq<TaskModel>, index: usize) -> bool {
    1 <= index <= ts.len()
}

/// Deleting by a valid index removes that element and shifts the rest down;
/// index 0 or an index past the end leaves the list unchanged.
pub open spec fn delete_spec(ts: Seq<TaskModel>, index: usize) -> Seq<TaskModel> {
    if index_valid(ts, index) {
        ts.remove(index - 1)
    } else {
        ts
    }
}

/// Completing by a valid index sets that element's flag in place;
/// an invalid index leaves the list unchanged.
pub open spec fn complete_spec(ts: Seq<TaskModel>, index: usize) -> Seq<TaskModel> {
    if index_valid(ts, index) {
        ts.update(
            index - 1,
            TaskModel {
                priority: ts[index - 1].priority,
                title: ts[index - 1].title,
                is_completed: true,
            },
        )
    } else {
        ts
    }
}

/// Appends a new, not-yet-completed task at the end of the list.
pub fn add_task(tasks: &mut Vec<Task>, title: String, priority: u8)
    ensures
        final(tasks).deep_view() == add_spec(old(tasks).deep_view(), title@, priority),
{
    let ghost before = tasks.deep_view();
    let ghost t_title = title@;
    tasks.push(Task::new(title, priority));
    proof {
        assert(final(tasks).deep_view() =~= add_spec(before, t_title, priority));
    }
}

/// Removes the task at the given 1-based index. Returns whether a task was
/// found there; when none is, the list is left untouched.
pub fn delete_task(tasks: &mut Vec<Task>, index: usize) -> (found: bool)
    ensures
        final(tasks).deep_view() == delete_spec(old(tasks).deep_view(), index),
        found == index_valid(old(tasks).deep_view(), index),
{
    let ghost before = tasks.deep_view();
    if index != 0 && index - 1 < tasks.len() {
        tasks.remove(index - 1);
        proof {
            assert(final(tasks).deep_view() =~= delete_spec(before, index));
        }
        true
    } else {
        false
    }
}

/// Marks the task at the given 1-based index as completed. Returns whether a
/// task was found there; when none is, the list is left untouched.
pub fn complete_task(tasks: &mut Vec<Task>, index: usize) -> (found: bool)
    ensures
        final(tasks).deep_view() == complete_spec(old(tasks).deep_view(), index),
        found == index_valid(old(tasks).deep_view(), index),
{
    let ghost before = tasks.deep_view();
    if index != 0 && index - 1 < tasks.len() {
        tasks[index - 1].is_completed = true;
        proof {
            assert(final(tasks).deep_view() =~= complete_spec(before, index));
        }
        true
    } else {
        false
    }
}

/// Deleting with index 0 or an index past the end never changes the list.
pub proof fn lemma_delete_out_of_range(ts: Seq<TaskModel>, index: usize)
    requires
        !index_valid(ts, index),
    ensures
        delete_spec(ts, index) == ts,
{
}

/// Completing a task is idempotent: doing it twice with the same index gives
/// the same list as doing it once, and the flag stays set.
pub proof fn lemma_complete_idempotent(ts: Seq<TaskModel>, index: usize)
    ensures
        complete_spec(complete_spec(ts, index), index) == complete_spec(ts, index),
        index_valid(ts, index) ==> complete_spec(ts, index)[index - 1].is_completed,
{
    if index_valid(ts, index) {
        assert(complete_spec(complete_spec(ts, index), index) =~= complete_spec(ts, index));
    }
}

} // verus!
