use todo_list::codec::{decode, encode};
use todo_list::line_to_action;
use todo_list::parser::Action;
use todo_list::session::{
    dispatch, next_state_after_last, next_state_after_start, not_found_message, resolve_last,
    start_step, InnerStep, LastStep, SessionState, StartStep,
};
use todo_list::tasks::Task;
use todo_list::CommandError;

/// A stand-in for the filesystem: at most one list file, by name.
struct OneFile {
    name: Option<String>,
    content: String,
}

fn action_of(line: &str) -> Action {
    match line_to_action(line) {
        Ok(a) => a,
        Err(e) => panic!("line failed: {}", e.message()),
    }
}

#[test]
fn only_open_create_help_exit_are_legal_without_a_file() {
    assert!(matches!(
        start_step(action_of("open \"a.json\"")),
        StartStep::OpenFile(_)
    ));
    assert!(matches!(
        start_step(action_of("create list \"a.json\"")),
        StartStep::CreateFile(_)
    ));
    assert!(matches!(start_step(action_of("help")), StartStep::ShowHelp));
    assert!(matches!(start_step(action_of("exit")), StartStep::Terminate));
    assert!(matches!(
        start_step(action_of("create task \"t\" 1")),
        StartStep::Rejected
    ));
    assert!(matches!(start_step(action_of("close")), StartStep::Rejected));
    assert!(matches!(start_step(action_of("save")), StartStep::Rejected));
    assert!(matches!(
        start_step(action_of("complete 1")),
        StartStep::Rejected
    ));
}

#[test]
fn dispatch_routes_task_commands_and_enders() {
    let mut tasks: Vec<Task> = Vec::new();
    assert!(matches!(
        dispatch(&mut tasks, action_of("create task \"a\" 1")),
        InnerStep::Continue
    ));
    assert_eq!(tasks.len(), 1);
    assert!(matches!(
        dispatch(&mut tasks, action_of("save")),
        InnerStep::SaveNow
    ));
    assert!(matches!(
        dispatch(&mut tasks, action_of("help")),
        InnerStep::ShowHelp
    ));
    assert!(matches!(
        dispatch(&mut tasks, action_of("close")),
        InnerStep::End(Action::Close)
    ));
    assert!(matches!(
        dispatch(&mut tasks, action_of("exit")),
        InnerStep::End(Action::Exit)
    ));
    assert!(matches!(
        dispatch(&mut tasks, action_of("open \"b.json\"")),
        InnerStep::End(Action::Open(_))
    ));
    assert_eq!(tasks.len(), 1);
}

#[test]
fn resolve_last_maps_each_ender() {
    assert!(matches!(
        resolve_last(Action::Close),
        LastStep::CloseCurrent
    ));
    assert!(matches!(resolve_last(Action::NoOp), LastStep::CloseCurrent));
    assert!(matches!(
        resolve_last(Action::Open(String::from("p"))),
        LastStep::ReplaceOpen(_)
    ));
    assert!(matches!(
        resolve_last(Action::CreateList(String::from("p"))),
        LastStep::ReplaceCreate(_)
    ));
    assert!(matches!(
        resolve_last(Action::DeleteList(String::from("p"))),
        LastStep::DeleteFile(_)
    ));
    assert!(matches!(resolve_last(Action::Exit), LastStep::Terminate));
}

#[test]
fn state_transitions_follow_the_lifecycle() {
    let open = StartStep::OpenFile(String::from("p"));
    assert_eq!(next_state_after_start(&open, true), SessionState::FileOpen);
    assert_eq!(
        next_state_after_start(&open, false),
        SessionState::NoFileOpen
    );
    assert_eq!(
        next_state_after_start(&StartStep::Terminate, true),
        SessionState::Terminated
    );
    assert_eq!(
        next_state_after_start(&StartStep::ShowHelp, true),
        SessionState::NoFileOpen
    );
    assert_eq!(
        next_state_after_last(&LastStep::CloseCurrent, true),
        SessionState::NoFileOpen
    );
    let rep = LastStep::ReplaceOpen(String::from("p"));
    assert_eq!(next_state_after_last(&rep, true), SessionState::FileOpen);
    assert_eq!(next_state_after_last(&rep, false), SessionState::NoFileOpen);
    assert_eq!(
        next_state_after_last(&LastStep::DeleteFile(String::from("p")), true),
        SessionState::NoFileOpen
    );
    assert_eq!(
        next_state_after_last(&LastStep::Terminate, true),
        SessionState::Terminated
    );
}

#[test]
fn create_close_reopen_shows_the_saved_task() {
    let mut fs = OneFile {
        name: None,
        content: String::new(),
    };

    // create list "t.json"
    match start_step(action_of("create list \"t.json\"")) {
        StartStep::CreateFile(p) => {
            assert_eq!(p, "t.json");
            assert!(fs.name.is_none());
            fs.name = Some(p);
            fs.content = String::new();
        }
        _ => panic!("creating a list must be legal with no file open"),
    }
    let mut tasks = decode(&fs.content).expect("a fresh file is empty");
    assert_eq!(tasks.len(), 0);

    // create task "Buy milk" 3
    assert!(matches!(
        dispatch(&mut tasks, action_of("create task \"Buy milk\" 3")),
        InnerStep::Continue
    ));
    fs.content = encode(&tasks);

    // close: the session-ending persist runs, then the file is closed
    let last = match dispatch(&mut tasks, action_of("close")) {
        InnerStep::End(a) => a,
        _ => panic!("close must end the file session"),
    };
    fs.content = encode(&tasks);
    assert!(matches!(resolve_last(last), LastStep::CloseCurrent));
    fs.name = None;

    // open "t.json"
    match start_step(action_of("open \"t.json\"")) {
        StartStep::OpenFile(p) => {
            assert_eq!(p, "t.json");
            fs.name = Some(p);
        }
        _ => panic!("opening a list must be legal with no file open"),
    }
    let reloaded = decode(&fs.content).expect("the saved file must decode");
    assert_eq!(reloaded.len(), 1);
    assert_eq!(reloaded[0].display_line(), "* Buy milk(3) - not completed");
}

#[test]
fn deleting_the_first_task_shifts_the_listing() {
    let mut tasks: Vec<Task> = Vec::new();
    dispatch(&mut tasks, action_of("create task \"A\" 1"));
    dispatch(&mut tasks, action_of("create task \"B\" 2"));
    assert!(matches!(
        dispatch(&mut tasks, action_of("delete task 1")),
        InnerStep::Continue
    ));
    assert_eq!(tasks.len(), 1);
    assert_eq!(tasks[0].display_line(), "* B(2) - not completed");
}

#[test]
fn malformed_line_reports_and_changes_nothing() {
    let fs = OneFile {
        name: None,
        content: String::new(),
    };
    match line_to_action("creat list \"x\"") {
        Err(e @ CommandError::Lex(_)) => {
            assert_eq!(e.message(), "Invalid token: creat");
        }
        _ => panic!("a misspelt keyword must fail lexing"),
    }
    // the error comes before any action is decided: no file was created
    assert!(fs.name.is_none());
}

#[test]
fn completing_a_missing_index_reports_not_found() {
    let mut tasks: Vec<Task> = Vec::new();
    dispatch(&mut tasks, action_of("create task \"a\" 1"));
    dispatch(&mut tasks, action_of("create task \"b\" 2"));
    match dispatch(&mut tasks, action_of("complete 5")) {
        InnerStep::NotFound(i) => {
            assert_eq!(i, 5);
            assert_eq!(not_found_message(i), "Can't find a task with index 5");
        }
        _ => panic!("an out-of-range complete must report not-found"),
    }
    assert!(!tasks[0].is_completed);
    assert!(!tasks[1].is_completed);
}

#[test]
fn empty_line_ends_the_file_session_as_a_bare_close() {
    let mut tasks: Vec<Task> = Vec::new();
    let last = match dispatch(&mut tasks, action_of("")) {
        InnerStep::End(a) => a,
        _ => panic!("an empty line must end the file session"),
    };
    assert!(matches!(resolve_last(last), LastStep::CloseCurrent));
}
