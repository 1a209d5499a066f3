//! The session state machine: which commands are legal while no file is open,
//! how a command with an open file mutates the task list or ends the file
//! session, and what the remembered last action resolves to once the final
//! persist is done. The filesystem work itself is the caller's; these
//! functions decide it.
use crate::parser::{Action, ActionModel};
use crate::tasks::{add_spec, add_task, complete_spec, complete_task, delete_spec, delete_task,
    index_valid, Task};
use vstd::prelude::*;

verus! {

/// The three states of a session.
#[derive(PartialEq, Eq, Structural, Clone, Copy, Debug)]
pub enum SessionState {
    /// No file is open; only opening, creating, help and exit are legal.
    NoFileOpen,
    /// A file is open and its task list is loaded.
    FileOpen,
    /// The exit command was given; terminal.
    Terminated,
}

/// What the caller must do with a command that arrives while no file is open.
pub enum StartStep {
    /// Open this existing file, then load its tasks.
    OpenFile(String),
    /// Create this file fresh (it must not pre-exist), then load its tasks.
    CreateFile(String),
    /// Print the usage text and stay put.
    ShowHelp,
    /// Terminate at once.
    Terminate,
    /// The command needs an open file: report that none is and stay put.
    Rejected,
}

/// Mathematical image of a start step.
pub enum StartStepModel {
    OpenFile(Seq<char>),
    CreateFile(Seq<char>),
    ShowHelp,
    Terminate,
    Rejected,
}

impl View for StartStep {
    type V = StartStepModel;

    open spec fn view(&self) -> StartStepModel {
        match self {
            StartStep::OpenFile(p) => StartStepModel::OpenFile(p@),
            StartStep::CreateFile(p) => StartStepModel::CreateFile(p@),
            StartStep::ShowHelp => StartStepModel::ShowHelp,
            StartStep::Terminate => StartStepModel::Terminate,
            StartStep::Rejected => StartStepModel::Rejected,
        }
    }
}

/// While no file is open, only opening, creating, help and exit are legal.
pub open spec fn start_spec(act: ActionModel) -> StartStepModel {
    match act {
        ActionModel::Open(p) => StartStepModel::OpenFile(p),
        ActionModel::CreateList(p) => StartStepModel::CreateFile(p),
        ActionModel::Help => StartStepModel::ShowHelp,
        ActionModel::Exit => StartStepModel::Terminate,
        _ => StartStepModel::Rejected,
    }
}

/// Decides a command that arrives while no file is open.
pub fn start_step(act: Action) -> (r: StartStep)
    ensures
        r@ == start_spec(act@),
{
    match act {
        Action::Open(p) => StartStep::OpenFile(p),
        Action::CreateList(p) => StartStep::CreateFile(p),
        Action::Help => StartStep::ShowHelp,
        Action::Exit => StartStep::Terminate,
        _ => StartStep::Rejected,
    }
}

/// Whether an action ends the inner command loop of an open file.
pub open spec fn ends_file_session(act: ActionModel) -> bool {
    match act {
        ActionModel::Open(_) => true,
        ActionModel::CreateList(_) => true,
        ActionModel::DeleteList(_) => true,
        ActionModel::Close => true,
        ActionModel::Exit => true,
        ActionModel::NoOp => true,
        _ => false,
    }
}

/// What the caller must do after dispatching one command with a file open.
pub enum InnerStep {
    /// The task list may have changed; read the next command.
    Continue,
    /// No task has this 1-based index; report it and continue unchanged.
    NotFound(usize),
    /// Persist the full task list now, then continue.
    SaveNow,
    /// Print the usage text, then continue.
    ShowHelp,
    /// The file session is over; persist once more, then resolve this action.
    End(Action),
}

/// Mathematical image of an inner step.
pub enum InnerStepModel {
    Continue,
    NotFound(usize),
    SaveNow,
    ShowHelp,
    End(ActionModel),
}

impl View for InnerStep {
    type V = InnerStepModel;

    open spec fn view(&self) -> InnerStepModel {
        match self {
            InnerStep::Continue => InnerStepModel::Continue,
            InnerStep::NotFound(i) => InnerStepModel::NotFound(*i),
            InnerStep::SaveNow => InnerStepModel::SaveNow,
            InnerStep::ShowHelp => InnerStepModel::ShowHelp,
            InnerStep::End(a) => InnerStepModel::End(a@),
        }
    }
}

/// How one command changes the task list while a file is open: only the three
/// task commands touch it; every other command leaves it as it stands.
pub open spec fn dispatch_tasks_spec(
    ts: Seq<crate::tasks::TaskModel>,
    act: ActionModel,
) -> Seq<crate::tasks::TaskModel> {
    match act {
        ActionModel::CreateTask(title, pri) => add_spec(ts, title, pri),
        ActionModel::DeleteTask(i) => delete_spec(ts, i),
        ActionModel::Complete(i) => complete_spec(ts, i),
        _ => ts,
    }
}

/// What the caller must do after one command while a file is open.
pub open spec fn dispatch_step_spec(
    ts: Seq<crate::tasks::TaskModel>,
    act: ActionModel,
) -> InnerStepModel {
    match act {
        ActionModel::CreateTask(_, _) => InnerStepModel::Continue,
        ActionModel::DeleteTask(i) => if index_valid(ts, i) {
            InnerStepModel::Continue
        } else {
            InnerStepModel::NotFound(i)
        },
        ActionModel::Complete(i) => if index_valid(ts, i) {
            InnerStepModel::Continue
        } else {
            InnerStepModel::NotFound(i)
        },
        ActionModel::Save => InnerStepModel::SaveNow,
        ActionModel::Help => InnerStepModel::ShowHelp,
        _ => InnerStepModel::End(act),
    }
}

/// Dispatches one command while a file is open: mutates the task list as the
/// command says and tells the caller what to do next. An action that ends the
/// file session is handed back to be resolved after the final persist.
pub fn dispatch(tasks: &mut Vec<Task>, act: Action) -> (r: InnerStep)
    ensures
        final(tasks).deep_view() == dispatch_tasks_spec(old(tasks).deep_view(), act@),
        r@ == dispatch_step_spec(old(tasks).deep_view(), act@),
        r@ matches InnerStepModel::End(a) ==> a == act@ && ends_file_session(act@),
{
    match act {
        Action::CreateTask(title, pri) => {
            add_task(tasks, title, pri);
            InnerStep::Continue
        },
        Action::DeleteTask(i) => {
            if delete_task(tasks, i) {
                InnerStep::Continue
            } else {
                InnerStep::NotFound(i)
            }
        },
        Action::Complete(i) => {
            if complete_task(tasks, i) {
                InnerStep::Continue
            } else {
                InnerStep::NotFound(i)
            }
        },
        Action::Save => InnerStep::SaveNow,
        Action::Help => InnerStep::ShowHelp,
        other => InnerStep::End(other),
    }
}

/// What the caller must do with the remembered last action, after the final
/// persist of the file session.
pub enum LastStep {
    /// Close the current file and wait with no file open.
    CloseCurrent,
    /// Close the current file, then open this existing one and load it.
    ReplaceOpen(String),
    /// Close the current file, then create this one fresh and load it.
    ReplaceCreate(String),
    /// Close the current file, then delete this path from the filesystem.
    DeleteFile(String),
    /// Terminate the program.
    Terminate,
}

/// Mathematical image of a last step.
pub enum LastStepModel {
    CloseCurrent,
    ReplaceOpen(Seq<char>),
    ReplaceCreate(Seq<char>),
    DeleteFile(Seq<char>),
    Terminate,
}

impl View for LastStep {
    type V = LastStepModel;

    open spec fn view(&self) -> LastStepModel {
        match self {
            LastStep::CloseCurrent => LastStepModel::CloseCurrent,
            LastStep::ReplaceOpen(p) => LastStepModel::ReplaceOpen(p@),
            LastStep::ReplaceCreate(p) => LastStepModel::ReplaceCreate(p@),
            LastStep::DeleteFile(p) => LastStepModel::DeleteFile(p@),
            LastStep::Terminate => LastStepModel::Terminate,
        }
    }
}

/// A no-op or a bare close closes the current file; opening or creating
/// another list replaces it; deleting closes it first and then removes the
/// named path; exit terminates.
pub open spec fn resolve_spec(last: ActionModel) -> LastStepModel {
    match last {
        ActionModel::NoOp => LastStepModel::CloseCurrent,
        ActionModel::Close => LastStepModel::CloseCurrent,
        ActionModel::Open(p) => LastStepModel::ReplaceOpen(p),
        ActionModel::CreateList(p) => LastStepModel::ReplaceCreate(p),
        ActionModel::DeleteList(p) => LastStepModel::DeleteFile(p),
        ActionModel::Exit => LastStepModel::Terminate,
        _ => LastStepModel::CloseCurrent,
    }
}

/// Resolves the remembered last action of a file session.
pub fn resolve_last(last: Action) -> (r: LastStep)
    requires
        ends_file_session(last@),
    ensures
        r@ == resolve_spec(last@),
{
    match last {
        Action::NoOp => LastStep::CloseCurrent,
        Action::Close => LastStep::CloseCurrent,
        Action::Open(p) => LastStep::ReplaceOpen(p),
        Action::CreateList(p) => LastStep::ReplaceCreate(p),
        Action::DeleteList(p) => LastStep::DeleteFile(p),
        Action::Exit => LastStep::Terminate,
        _ => LastStep::CloseCurrent,
    }
}

/// The report for a task command whose 1-based index names no task.
pub open spec fn not_found_spec(index: usize) -> Seq<char> {
    "Can't find a task with index "@ + crate::codec::dec_rep(index as int)
}

/// Renders the not-found report for the given index: exactly `not_found_spec`.
pub fn not_found_message(index: usize) -> (s: String)
    ensures
        s@ == not_found_spec(index),
{
    let mut buf: Vec<char> = Vec::new();
    crate::codec::push_lit(&mut buf, "Can't find a task with index ");
    crate::codec::push_dec_usize(&mut buf, index);
    proof {
        assert(buf@ =~= not_found_spec(index));
    }
    crate::text::chars_to_string(&buf)
}

/// The state the session is in after a command given with no file open: a
/// successful open or create enters the file session, exit terminates, and
/// everything else — help, a rejected command, a failed open or create —
/// stays with no file open.
pub open spec fn state_after_start(step: StartStepModel, op_ok: bool) -> SessionState {
    match step {
        StartStepModel::OpenFile(_) => if op_ok {
            SessionState::FileOpen
        } else {
            SessionState::NoFileOpen
        },
        StartStepModel::CreateFile(_) => if op_ok {
            SessionState::FileOpen
        } else {
            SessionState::NoFileOpen
        },
        StartStepModel::Terminate => SessionState::Terminated,
        _ => SessionState::NoFileOpen,
    }
}

/// The state the session is in after a resolved last action: replacing the
/// file re-enters the file session only when the filesystem operation
/// succeeded; closing and deleting return to no file open whatever happened;
/// terminate is terminal.
pub open spec fn state_after_last(step: LastStepModel, op_ok: bool) -> SessionState {
    match step {
        LastStepModel::CloseCurrent => SessionState::NoFileOpen,
        LastStepModel::ReplaceOpen(_) => if op_ok {
            SessionState::FileOpen
        } else {
            SessionState::NoFileOpen
        },
        LastStepModel::ReplaceCreate(_) => if op_ok {
            SessionState::FileOpen
        } else {
            SessionState::NoFileOpen
        },
        LastStepModel::DeleteFile(_) => SessionState::NoFileOpen,
        LastStepModel::Terminate => SessionState::Terminated,
    }
}

/// Computes `state_after_start` for a caller that runs the loops.
pub fn next_state_after_start(step: &StartStep, op_ok: bool) -> (s: SessionState)
    ensures
        s == state_after_start(step@, op_ok),
{
    match step {
        StartStep::OpenFile(_) => if op_ok {
            SessionState::FileOpen
        } else {
            SessionState::NoFileOpen
        },
        StartStep::CreateFile(_) => if op_ok {
            SessionState::FileOpen
        } else {
            SessionState::NoFileOpen
        },
        StartStep::Terminate => SessionState::Terminated,
        _ => SessionState::NoFileOpen,
    }
}

/// Computes `state_after_last` for a caller that runs the loops.
pub fn next_state_after_last(step: &LastStep, op_ok: bool) -> (s: SessionState)
    ensures
        s == state_after_last(step@, op_ok),
{
    match step {
        LastStep::CloseCurrent => SessionState::NoFileOpen,
        LastStep::ReplaceOpen(_) => if op_ok {
            SessionState::FileOpen
        } else {
            SessionState::NoFileOpen
        },
        LastStep::ReplaceCreate(_) => if op_ok {
            SessionState::FileOpen
        } else {
            SessionState::NoFileOpen
        },
        LastStep::DeleteFile(_) => SessionState::NoFileOpen,
        LastStep::Terminate => SessionState::Terminated,
    }
}

} // verus!
