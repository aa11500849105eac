use rtask::codec::{encode_tasks, parse_tasks};
use rtask::error::Error;
use rtask::task::{Task, TaskDescription, TaskId, TaskStatus};

fn task(id: u32, text: &str, status: TaskStatus, created: i64, updated: i64) -> Task {
    let mut t = Task::new_at(
        TaskId::new(id).unwrap(),
        TaskDescription::new(text.to_string()).unwrap(),
        created,
    );
    t.set_status_at(status, updated);
    t
}

#[test]
fn nonempty_description_is_accepted_and_empty_rejected() {
    let ok = TaskDescription::new("anything at all".to_string()).unwrap();
    assert_eq!(ok.as_str(), "anything at all");
    let err = TaskDescription::new(String::new());
    assert!(matches!(err, Err(Error::EmptyDescription)));
}

#[test]
fn encode_writes_the_exact_canonical_document() {
    let tasks = vec![task(1, "Buy milk", TaskStatus::Todo, 5, 5)];
    let text = encode_tasks(&tasks);
    assert_eq!(
        text,
        "[{\"id\":1,\"description\":\"Buy milk\",\"status\":\"todo\",\"created_at\":5,\"updated_at\":5}]"
    );
    let empty: Vec<Task> = vec![];
    assert_eq!(encode_tasks(&empty), "[]");
}

#[test]
fn encode_escapes_quotes_and_backslashes() {
    let tasks = vec![task(1, "say \"hi\" \\ wave", TaskStatus::Done, -3, 9)];
    let text = encode_tasks(&tasks);
    assert_eq!(
        text,
        "[{\"id\":1,\"description\":\"say \\\"hi\\\" \\\\ wave\",\"status\":\"done\",\"created_at\":-3,\"updated_at\":9}]"
    );
    let back = parse_tasks(&text).unwrap();
    assert_eq!(back[0].description.as_str(), "say \"hi\" \\ wave");
}

#[test]
fn persist_roundtrip_preserves_every_field() {
    let tasks = vec![
        task(1, "first", TaskStatus::Todo, 10, 10),
        task(2, "second", TaskStatus::InProgress, -50, 20),
        task(2, "repeated id", TaskStatus::Done, 0, 0),
    ];
    let text = encode_tasks(&tasks);
    let back = parse_tasks(&text).unwrap();
    assert_eq!(back.len(), tasks.len());
    for (a, b) in tasks.iter().zip(back.iter()) {
        assert_eq!(a.id.get(), b.id.get());
        assert_eq!(a.description.as_str(), b.description.as_str());
        assert_eq!(a.status, b.status);
        assert_eq!(a.created_at, b.created_at);
        assert_eq!(a.updated_at, b.updated_at);
    }
}

#[test]
fn parse_accepts_the_empty_document() {
    assert_eq!(parse_tasks("[]").unwrap().len(), 0);
}

#[test]
fn parse_rejects_malformed_documents() {
    for bad in [
        "",
        "[",
        "]",
        "{}",
        "garbage",
        "[]extra",
        "[{\"id\":1}]",
        "[{\"id\":01,\"description\":\"x\",\"status\":\"todo\",\"created_at\":0,\"updated_at\":0}]",
        "[{\"id\":1,\"description\":\"\",\"status\":\"todo\",\"created_at\":0,\"updated_at\":0}]",
        "[{\"id\":1,\"description\":\"x\",\"status\":\"later\",\"created_at\":0,\"updated_at\":0}]",
        "[{\"id\":1,\"description\":\"x\",\"status\":\"todo\",\"created_at\":5,\"updated_at\":4}]",
        "[{\"id\":1,\"description\":\"x\",\"status\":\"todo\",\"created_at\":0,\"updated_at\":0},]",
        "[{\"id\":4294967296,\"description\":\"x\",\"status\":\"todo\",\"created_at\":0,\"updated_at\":0}]",
        " []",
    ] {
        let r = parse_tasks(bad);
        assert!(
            matches!(r, Err(Error::FailedToAccessPersistedData)),
            "accepted: {bad}"
        );
    }
}

#[test]
fn status_tokens_parse_and_render() {
    assert_eq!(TaskStatus::from_str("todo").unwrap(), TaskStatus::Todo);
    assert_eq!(TaskStatus::from_str("in_progress").unwrap(), TaskStatus::InProgress);
    assert_eq!(TaskStatus::from_str("done").unwrap(), TaskStatus::Done);
    let bad = TaskStatus::from_str("later");
    assert!(matches!(bad, Err(Error::UnknownStatus { status }) if status == "later"));
    assert_eq!(TaskStatus::Todo.token(), "todo");
    assert_eq!(TaskStatus::InProgress.token(), "in_progress");
    assert_eq!(TaskStatus::Done.token(), "done");
}

#[test]
fn task_ids_parse_like_u32_text() {
    assert_eq!(TaskId::new_from_string("42".to_string()).unwrap().get(), 42);
    assert_eq!(TaskId::new_from_string("0".to_string()).unwrap().get(), 0);
    assert_eq!(TaskId::new_from_string("+07".to_string()).unwrap().get(), 7);
    assert_eq!(
        TaskId::new_from_string("4294967295".to_string()).unwrap().get(),
        u32::MAX
    );
    for bad in ["", "+", "abc", "-1", "12x", "4294967296"] {
        let r = TaskId::new_from_string(bad.to_string());
        assert!(matches!(r, Err(Error::IdMustBeNumber { id }) if id == bad));
    }
}

#[test]
fn fresh_tasks_are_dated_now_with_equal_timestamps() {
    let t = Task::new(
        TaskId::new(1).unwrap(),
        TaskDescription::new("clock".to_string()).unwrap(),
    );
    assert_eq!(t.created_at, t.updated_at);
    assert!(t.created_at >= 0);
    assert_eq!(t.status, TaskStatus::Todo);
}

#[test]
fn error_messages_match_the_documented_wording() {
    assert_eq!(
        Error::HomePathNotFound.message(),
        "Could not discover user's home directory"
    );
    assert_eq!(Error::NoCommand.message(), "No command provided");
    assert_eq!(Error::UnknownError.message(), "Unexpected error");
    assert_eq!(
        Error::UnknownCommand { command: "frob".to_string() }.message(),
        "Invalid command frob"
    );
    assert_eq!(
        Error::WrongNumberOfArguments { expected: 3, got: 5 }.message(),
        "Wrong number of arguments: Expected 3, got 5"
    );
    assert_eq!(
        Error::TooManyArguments { max: 3, got: 9 }.message(),
        "Wrong number of arguments: Expected up to 3, got 9"
    );
    assert_eq!(
        Error::EmptyDescription.message(),
        "Task description cannot be empty"
    );
    assert_eq!(
        Error::IdMustBeNumber { id: "x1".to_string() }.message(),
        "Expected numeric id, got x1"
    );
    assert_eq!(
        Error::FailedToPersistChanges.message(),
        "Could not persist changes"
    );
    assert_eq!(
        Error::FailedToAccessPersistedData.message(),
        "Could not access persisted data"
    );
    assert_eq!(
        Error::UnknownStatus { status: "soon".to_string() }.message(),
        "Unknown status: soon"
    );
    assert_eq!(
        Error::TaskNotFound { id: "12".to_string() }.message(),
        "Task not found. Id: 12"
    );
}
