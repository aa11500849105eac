use rtask::command::{parse_command, Command};
use rtask::error::Error;
use rtask::task::TaskStatus;

fn argv(parts: &[&str]) -> Vec<String> {
    parts.iter().map(|p| p.to_string()).collect()
}

#[test]
fn no_command_is_reported() {
    let r = parse_command(argv(&["rtask"]));
    assert!(matches!(r, Err(Error::NoCommand)));
}

#[test]
fn unknown_commands_are_rejected_with_their_name() {
    let r = parse_command(argv(&["rtask", "frobnicate"]));
    assert!(matches!(r, Err(Error::UnknownCommand { command }) if command == "frobnicate"));
}

#[test]
fn add_parses_its_description() {
    let r = parse_command(argv(&["rtask", "add", "Buy groceries"])).unwrap();
    match r {
        Command::Add(c) => assert_eq!(c.description.as_str(), "Buy groceries"),
        _ => panic!("wrong command"),
    }
}

#[test]
fn add_rejects_wrong_argument_counts_and_empty_text() {
    let r = parse_command(argv(&["rtask", "add"]));
    assert!(matches!(r, Err(Error::WrongNumberOfArguments { expected: 3, got: 2 })));
    let r = parse_command(argv(&["rtask", "add", "a", "b"]));
    assert!(matches!(r, Err(Error::WrongNumberOfArguments { expected: 3, got: 4 })));
    let r = parse_command(argv(&["rtask", "add", ""]));
    assert!(matches!(r, Err(Error::EmptyDescription)));
}

#[test]
fn update_parses_id_and_description() {
    let r = parse_command(argv(&["rtask", "update", "7", "new text"])).unwrap();
    match r {
        Command::Update(c) => {
            assert_eq!(c.id.get(), 7);
            assert_eq!(c.description.as_str(), "new text");
        },
        _ => panic!("wrong command"),
    }
    let r = parse_command(argv(&["rtask", "update", "x", "new text"]));
    assert!(matches!(r, Err(Error::IdMustBeNumber { id }) if id == "x"));
    let r = parse_command(argv(&["rtask", "update", "7"]));
    assert!(matches!(r, Err(Error::WrongNumberOfArguments { expected: 4, got: 3 })));
}

#[test]
fn delete_and_marks_parse_their_id() {
    match parse_command(argv(&["rtask", "delete", "3"])).unwrap() {
        Command::Delete(c) => assert_eq!(c.id.get(), 3),
        _ => panic!("wrong command"),
    }
    match parse_command(argv(&["rtask", "mark-in-progress", "4"])).unwrap() {
        Command::MarkInProgress(c) => assert_eq!(c.id.get(), 4),
        _ => panic!("wrong command"),
    }
    match parse_command(argv(&["rtask", "mark-done", "5"])).unwrap() {
        Command::MarkDone(c) => assert_eq!(c.id.get(), 5),
        _ => panic!("wrong command"),
    }
    let r = parse_command(argv(&["rtask", "mark-done", "many", "args"]));
    assert!(matches!(r, Err(Error::WrongNumberOfArguments { expected: 3, got: 4 })));
}

#[test]
fn list_parses_its_optional_status_filter() {
    match parse_command(argv(&["rtask", "list"])).unwrap() {
        Command::List(c) => assert_eq!(c.status, None),
        _ => panic!("wrong command"),
    }
    match parse_command(argv(&["rtask", "list", "done"])).unwrap() {
        Command::List(c) => assert_eq!(c.status, Some(TaskStatus::Done)),
        _ => panic!("wrong command"),
    }
    match parse_command(argv(&["rtask", "list", "todo"])).unwrap() {
        Command::List(c) => assert_eq!(c.status, Some(TaskStatus::Todo)),
        _ => panic!("wrong command"),
    }
    match parse_command(argv(&["rtask", "list", "in_progress"])).unwrap() {
        Command::List(c) => assert_eq!(c.status, Some(TaskStatus::InProgress)),
        _ => panic!("wrong command"),
    }
    let r = parse_command(argv(&["rtask", "list", "soon"]));
    assert!(matches!(r, Err(Error::UnknownStatus { status }) if status == "soon"));
    let r = parse_command(argv(&["rtask", "list", "a", "b"]));
    assert!(matches!(r, Err(Error::TooManyArguments { max: 3, got: 4 })));
}
