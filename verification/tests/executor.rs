use rtask::command::{CommandAdd, CommandDelete, CommandList, CommandMarkDone, CommandMarkInProgress, CommandUpdate};
use rtask::db::Db;
use rtask::execute_command::CommandExecutor;
use rtask::task::{TaskDescription, TaskId, TaskStatus};
use rtask::error::Error;

fn description(text: &str) -> TaskDescription {
    TaskDescription::new(text.to_string()).unwrap()
}

fn id(n: u32) -> TaskId {
    TaskId::new(n).unwrap()
}

#[test]
fn test_execute_command_add() {
    let db = Db::new();
    let mut command_executor = CommandExecutor::new(db);
    let command: CommandAdd = CommandAdd {
        description: TaskDescription::new("walk the dog".to_string()).unwrap(),
    };
    let result = command_executor.execute_command_add(command);
    assert!(result.is_ok());
    let result = command_executor.execute_command_list(CommandList { status: None });
    assert!(result.is_ok());
}

#[test]
fn add_increases_count_by_one_with_todo_status() {
    let mut ex = CommandExecutor::new(Db::new());
    ex.execute_command_add(CommandAdd { description: description("first") })
        .unwrap();
    let before = ex.tasks().len();
    let task = ex
        .execute_command_add(CommandAdd { description: description("X") })
        .unwrap();
    assert_eq!(ex.tasks().len(), before + 1);
    assert_eq!(task.status, TaskStatus::Todo);
    assert_eq!(task.description.as_str(), "X");
}

#[test]
fn update_missing_id_fails_and_leaves_collection_unchanged() {
    let mut ex = CommandExecutor::new(Db::new());
    ex.execute_command_add(CommandAdd { description: description("keep me") })
        .unwrap();
    let persisted_before = rtask::codec::encode_tasks(ex.tasks());
    let result = ex.execute_command_update(CommandUpdate {
        id: id(99),
        description: description("nope"),
    });
    assert!(matches!(result, Err(Error::TaskNotFound { .. })));
    let persisted_after = rtask::codec::encode_tasks(ex.tasks());
    assert_eq!(persisted_before, persisted_after);
    // re-load the persisted document and compare the collection
    let reloaded = rtask::codec::parse_tasks(&persisted_after).unwrap();
    assert_eq!(reloaded.len(), 1);
    assert_eq!(reloaded[0].description.as_str(), "keep me");
}

#[test]
fn update_replaces_description_in_place() {
    let mut ex = CommandExecutor::new(Db::new());
    ex.execute_command_add(CommandAdd { description: description("one") })
        .unwrap();
    ex.execute_command_add(CommandAdd { description: description("two") })
        .unwrap();
    let updated = ex
        .execute_command_update(CommandUpdate { id: id(1), description: description("first") })
        .unwrap();
    assert_eq!(updated.id.get(), 1);
    assert_eq!(updated.description.as_str(), "first");
    let tasks = ex.tasks();
    assert_eq!(tasks.len(), 2);
    assert_eq!(tasks[0].description.as_str(), "first");
    assert_eq!(tasks[1].description.as_str(), "two");
}

#[test]
fn mark_done_then_in_progress_keeps_description_and_advances_updated_at() {
    let mut ex = CommandExecutor::new(Db::new());
    let added = ex
        .execute_command_add_at(CommandAdd { description: description("laundry") }, 1_000)
        .unwrap();
    assert_eq!(added.created_at, 1_000);
    let first = ex.set_status_at(id(1), TaskStatus::Done, 2_000).unwrap();
    assert_eq!(first.old_status, TaskStatus::Todo);
    assert_eq!(first.new_status, TaskStatus::Done);
    let after_done = ex.tasks()[0].updated_at;
    assert_eq!(after_done, 2_000);
    let second = ex.set_status_at(id(1), TaskStatus::InProgress, 3_000).unwrap();
    assert_eq!(second.old_status, TaskStatus::Done);
    assert_eq!(second.new_status, TaskStatus::InProgress);
    let task = &ex.tasks()[0];
    assert_eq!(task.description.as_str(), "laundry");
    assert_eq!(task.status, TaskStatus::InProgress);
    assert!(task.updated_at >= after_done);
    assert_eq!(task.created_at, 1_000);
}

#[test]
fn mark_commands_report_the_status_move() {
    let mut ex = CommandExecutor::new(Db::new());
    ex.execute_command_add(CommandAdd { description: description("t") })
        .unwrap();
    let done = ex
        .execute_command_mark_done(CommandMarkDone { id: id(1) })
        .unwrap();
    assert_eq!(done.task_id.get(), 1);
    assert_eq!(done.old_status, TaskStatus::Todo);
    assert_eq!(done.new_status, TaskStatus::Done);
    let progress = ex
        .execute_command_mark_in_progress(CommandMarkInProgress { id: id(1) })
        .unwrap();
    assert_eq!(progress.old_status, TaskStatus::Done);
    assert_eq!(progress.new_status, TaskStatus::InProgress);
}

#[test]
fn mark_on_missing_id_fails_with_task_not_found() {
    let mut ex = CommandExecutor::new(Db::new());
    let r = ex.execute_command_mark_done(CommandMarkDone { id: id(7) });
    assert!(matches!(r, Err(Error::TaskNotFound { .. })));
    let r = ex.execute_command_mark_in_progress(CommandMarkInProgress { id: id(7) });
    assert!(matches!(r, Err(Error::TaskNotFound { .. })));
}

#[test]
fn delete_removes_exactly_one_and_fails_the_second_time() {
    let mut ex = CommandExecutor::new(Db::new());
    ex.execute_command_add(CommandAdd { description: description("a") })
        .unwrap();
    ex.execute_command_add(CommandAdd { description: description("b") })
        .unwrap();
    let deleted = ex.execute_command_delete(CommandDelete { id: id(1) }).unwrap();
    assert_eq!(deleted.get(), 1);
    assert_eq!(ex.tasks().len(), 1);
    assert_eq!(ex.tasks()[0].description.as_str(), "b");
    let again = ex.execute_command_delete(CommandDelete { id: id(1) });
    assert!(matches!(again, Err(Error::TaskNotFound { .. })));
}

#[test]
fn list_filters_by_status_preserving_order() {
    let mut ex = CommandExecutor::new(Db::new());
    ex.execute_command_add(CommandAdd { description: description("one") })
        .unwrap();
    ex.execute_command_add(CommandAdd { description: description("two") })
        .unwrap();
    ex.execute_command_add(CommandAdd { description: description("three") })
        .unwrap();
    ex.execute_command_mark_done(CommandMarkDone { id: id(1) }).unwrap();
    ex.execute_command_mark_done(CommandMarkDone { id: id(3) }).unwrap();
    let done = ex
        .execute_command_list(CommandList { status: Some(TaskStatus::Done) })
        .unwrap();
    assert_eq!(done.len(), 2);
    assert_eq!(done[0].id.get(), 1);
    assert_eq!(done[1].id.get(), 3);
    assert!(done.iter().all(|t| t.status == TaskStatus::Done));
    let todo = ex
        .execute_command_list(CommandList { status: Some(TaskStatus::Todo) })
        .unwrap();
    assert_eq!(todo.len(), 1);
    assert_eq!(todo[0].id.get(), 2);
    let all = ex.execute_command_list(CommandList { status: None }).unwrap();
    assert_eq!(all.len(), 3);
    assert_eq!(all[0].id.get(), 1);
    assert_eq!(all[1].id.get(), 2);
    assert_eq!(all[2].id.get(), 3);
}

#[test]
fn next_id_counts_live_tasks_so_a_deleted_id_can_collide() {
    let mut ex = CommandExecutor::new(Db::new());
    let first = ex
        .execute_command_add(CommandAdd { description: description("Buy milk") })
        .unwrap();
    assert_eq!(first.id.get(), 1);
    assert_eq!(first.description.as_str(), "Buy milk");
    assert_eq!(first.status, TaskStatus::Todo);
    let second = ex
        .execute_command_add(CommandAdd { description: description("Walk dog") })
        .unwrap();
    assert_eq!(second.id.get(), 2);
    ex.execute_command_delete(CommandDelete { id: id(1) }).unwrap();
    let third = ex
        .execute_command_add(CommandAdd { description: description("Clean") })
        .unwrap();
    // the next-id rule is live-count + 1, so the freed id 1 is not reused:
    // the new task gets id 2, colliding with the live task that has it
    assert_eq!(third.id.get(), 2);
    assert_eq!(ex.tasks().len(), 2);
}
