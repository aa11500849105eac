//! The command executor: applies one validated command against the task
//! collection and reports a typed result.
//!
//! Each mutating operation exists twice: a form taking an explicit clock
//! reading (exact about every field of the outcome), and the plain form the
//! command loop calls, which reads the clock itself and so leaves only the
//! fresh timestamp value open.

use vstd::prelude::*;
use crate::command::{
    CommandAdd, CommandDelete, CommandList, CommandMarkDone, CommandMarkInProgress, CommandUpdate,
};
use crate::db::{first_index, has_id, lemma_first_index, Db};
use crate::error::Error;
use crate::task::{bumped, now_millis, views_of, Task, TaskId, TaskStatus, TaskView};
use crate::text::dec_chars;

verus! {

/// What a mark command reports: the task touched and the status move.
pub struct UpdateStatusResult {
    pub task_id: TaskId,
    pub old_status: TaskStatus,
    pub new_status: TaskStatus,
}

/// The task an add command makes on top of collection `s`: the next id is
/// the live-task count plus one.
pub open spec fn added_task(s: Seq<TaskView>, description: Seq<char>, now_ms: i64) -> TaskView {
    TaskView {
        id: (s.len() + 1) as u32,
        description,
        status: TaskStatus::Todo,
        created_at: now_ms,
        updated_at: now_ms,
    }
}

/// The task at position `i` of `s` with its description replaced at clock
/// reading `now_ms`.
pub open spec fn with_description(t: TaskView, description: Seq<char>, now_ms: i64) -> TaskView {
    TaskView { description, updated_at: bumped(t.updated_at, now_ms), ..t }
}

/// The task `t` with its status replaced at clock reading `now_ms`.
pub open spec fn with_status(t: TaskView, status: TaskStatus, now_ms: i64) -> TaskView {
    TaskView { status, updated_at: bumped(t.updated_at, now_ms), ..t }
}

/// Whether a task passes a list filter.
pub open spec fn status_matches(filter: Option<TaskStatus>, status: TaskStatus) -> bool {
    match filter {
        None => true,
        Some(f) => f == status,
    }
}

/// Applies validated commands against an owned task collection.
pub struct CommandExecutor {
    db: Db,
}

impl View for CommandExecutor {
    type V = Seq<TaskView>;

    closed spec fn view(&self) -> Seq<TaskView> {
        self.db@
    }
}

impl CommandExecutor {
    /// Takes ownership of the collection to run commands against.
    pub fn new(db: Db) -> (ex: Self)
        ensures
            ex@ == db@,
    {
        Self { db }
    }

    /// The collection as it stands, for persisting or inspection.
    pub fn tasks(&self) -> (r: &Vec<Task>)
        ensures
            views_of(r@) == self@,
    {
        self.db.get_tasks()
    }

    /// Adds a task at a given clock reading.
    pub fn execute_command_add_at(&mut self, command: CommandAdd, now_ms: i64) -> (r: Result<
        Task,
        Error,
    >)
        requires
            old(self)@.len() < u32::MAX,
        ensures
            r matches Ok(t) && t@ == added_task(old(self)@, command.description@, now_ms),
            final(self)@ == old(self)@.push(added_task(old(self)@, command.description@, now_ms)),
    {
        let count = self.db.count_tasks();
        let id = match TaskId::new(1 + count) {
            Ok(i) => i,
            Err(_) => {
                return Err(Error::UnknownError);
            },
        };
        let task = Task::new_at(id, command.description, now_ms);
        let stored = task.duplicate();
        match self.db.create_task(stored) {
            Ok(_) => Ok(task),
            Err(_) => Err(Error::FailedToPersistChanges),
        }
    }

    /// Adds a task dated now: the new task takes the next id, starts at
    /// `Todo`, and is appended at the end of the collection.
    pub fn execute_command_add(&mut self, command: CommandAdd) -> (r: Result<Task, Error>)
        requires
            old(self)@.len() < u32::MAX,
        ensures
            r matches Ok(t) && t@ == added_task(old(self)@, command.description@, t@.created_at)
                && t@.created_at >= 0,
            final(self)@ == old(self)@.push(added_task(
                old(self)@,
                command.description@,
                (match r {
                    Ok(t) => t@.created_at,
                    Err(_) => 0,
                }),
            )),
    {
        let now_ms = now_millis();
        self.execute_command_add_at(command, now_ms)
    }

    /// Replaces a task's description at a given clock reading.
    pub fn execute_command_update_at(&mut self, command: CommandUpdate, now_ms: i64) -> (r: Result<
        Task,
        Error,
    >)
        ensures
            !has_id(old(self)@, command.id@) ==> (*final(self) == *old(self) && (match r {
                Err(Error::TaskNotFound { id }) => id@ == dec_chars(command.id@ as nat),
                _ => false,
            })),
            has_id(old(self)@, command.id@) ==> ({
                let i = first_index(old(self)@, command.id@);
                let updated = with_description(old(self)@[i], command.description@, now_ms);
                r matches Ok(t) && t@ == updated && final(self)@ == old(self)@.update(i, updated)
            }),
    {
        proof {
            if has_id(self@, command.id@) {
                lemma_first_index(self@, command.id@);
            }
        }
        let task = match self.db.get_task(&command.id) {
            Some(t) => t.duplicate(),
            None => {
                return Err(Error::TaskNotFound { id: command.id.render() });
            },
        };
        let mut updated_task = task;
        updated_task.set_description_at(command.description, now_ms);
        let stored = updated_task.duplicate();
        match self.db.update_task(&command.id, stored) {
            Ok(_) => Ok(updated_task),
            Err(_) => Err(Error::FailedToPersistChanges),
        }
    }

    /// Replaces a task's description, dating the change now; a missing id
    /// fails with `TaskNotFound` and changes nothing.
    pub fn execute_command_update(&mut self, command: CommandUpdate) -> (r: Result<Task, Error>)
        ensures
            !has_id(old(self)@, command.id@) ==> (*final(self) == *old(self) && (match r {
                Err(Error::TaskNotFound { id }) => id@ == dec_chars(command.id@ as nat),
                _ => false,
            })),
            has_id(old(self)@, command.id@) ==> ({
                let i = first_index(old(self)@, command.id@);
                r matches Ok(t) && t@.description == command.description@ && t@.id == old(self)@[i].id && t@.status == old(self)@[i].status && t@.created_at == old(self)@[i].created_at && t@.updated_at >= old(self)@[i].updated_at && final(self)@
                    == old(self)@.update(i, t@)
            }),
    {
        let now_ms = now_millis();
        let r = self.execute_command_update_at(command, now_ms);
        proof {
            if has_id(old(self)@, command.id@) {
                lemma_first_index(old(self)@, command.id@);
            }
        }
        r
    }

    /// Deletes every task with the given id; a missing id fails with
    /// `TaskNotFound` and changes nothing.
    pub fn execute_command_delete(&mut self, command: CommandDelete) -> (r: Result<TaskId, Error>)
        ensures
            !has_id(old(self)@, command.id@) ==> (*final(self) == *old(self) && (match r {
                Err(Error::TaskNotFound { id }) => id@ == dec_chars(command.id@ as nat),
                _ => false,
            })),
            has_id(old(self)@, command.id@) ==> (r matches Ok(i) && i@ == command.id@ && final(self)@ == old(self)@.filter(|t: TaskView| t.id != command.id@)),
    {
        match self.db.delete_task(&command.id) {
            Ok(_) => Ok(command.id),
            Err(e) => Err(e),
        }
    }

    /// Moves a task's status at a given clock reading.
    pub fn set_status_at(&mut self, id: TaskId, status: TaskStatus, now_ms: i64) -> (r: Result<
        UpdateStatusResult,
        Error,
    >)
        ensures
            !has_id(old(self)@, id@) ==> (*final(self) == *old(self) && (match r {
                Err(Error::TaskNotFound { id: s }) => s@ == dec_chars(id@ as nat),
                _ => false,
            })),
            has_id(old(self)@, id@) ==> ({
                let i = first_index(old(self)@, id@);
                let updated = with_status(old(self)@[i], status, now_ms);
                r matches Ok(u) && u.task_id@ == id@ && u.old_status == old(self)@[i].status
                    && u.new_status == status && final(self)@ == old(self)@.update(i, updated)
            }),
    {
        proof {
            if has_id(self@, id@) {
                lemma_first_index(self@, id@);
            }
        }
        let task = match self.db.get_task(&id) {
            Some(t) => t.duplicate(),
            None => {
                return Err(Error::TaskNotFound { id: id.render() });
            },
        };
        let task_id = task.id;
        let old_status = task.status;
        let mut updated_task = task;
        updated_task.set_status_at(status, now_ms);
        match self.db.update_task(&id, updated_task) {
            Ok(_) => Ok(UpdateStatusResult { task_id, old_status, new_status: status }),
            Err(_) => Err(Error::FailedToPersistChanges),
        }
    }

    /// Marks a task in progress, dating the change now; a missing id fails
    /// with `TaskNotFound` and changes nothing.
    pub fn execute_command_mark_in_progress(&mut self, command: CommandMarkInProgress) -> (r:
        Result<UpdateStatusResult, Error>)
        ensures
            !has_id(old(self)@, command.id@) ==> (*final(self) == *old(self) && (match r {
                Err(Error::TaskNotFound { id }) => id@ == dec_chars(command.id@ as nat),
                _ => false,
            })),
            has_id(old(self)@, command.id@) ==> ({
                let i = first_index(old(self)@, command.id@);
                r matches Ok(u) && u.task_id@ == command.id@ && u.old_status == old(self)@[i].status && u.new_status == TaskStatus::InProgress && final(self)@[i].status
                    == TaskStatus::InProgress && final(self)@[i].description == old(self)@[i].description && final(self)@[i].updated_at >= old(self)@[i].updated_at
                    && final(self)@ == old(self)@.update(i, final(self)@[i])
            }),
    {
        let now_ms = now_millis();
        let r = self.set_status_at(command.id, TaskStatus::InProgress, now_ms);
        proof {
            if has_id(old(self)@, command.id@) {
                lemma_first_index(old(self)@, command.id@);
            }
        }
        r
    }

    /// Marks a task done, dating the change now; a missing id fails with
    /// `TaskNotFound` and changes nothing.
    pub fn execute_command_mark_done(&mut self, command: CommandMarkDone) -> (r: Result<
        UpdateStatusResult,
        Error,
    >)
        ensures
            !has_id(old(self)@, command.id@) ==> (*final(self) == *old(self) && (match r {
                Err(Error::TaskNotFound { id }) => id@ == dec_chars(command.id@ as nat),
                _ => false,
            })),
            has_id(old(self)@, command.id@) ==> ({
                let i = first_index(old(self)@, command.id@);
                r matches Ok(u) && u.task_id@ == command.id@ && u.old_status == old(self)@[i].status && u.new_status == TaskStatus::Done && final(self)@[i].status
                    == TaskStatus::Done && final(self)@[i].description == old(self)@[i].description
                    && final(self)@[i].updated_at >= old(self)@[i].updated_at && final(self)@
                    == old(self)@.update(i, final(self)@[i])
            }),
    {
        let now_ms = now_millis();
        let r = self.set_status_at(command.id, TaskStatus::Done, now_ms);
        proof {
            if has_id(old(self)@, command.id@) {
                lemma_first_index(old(self)@, command.id@);
            }
        }
        r
    }

    /// Lists the collection: all tasks, or exactly those whose status equals
    /// the filter, in stored order.
    pub fn execute_command_list(&self, command: CommandList) -> (r: Result<Vec<Task>, Error>)
        ensures
            r matches Ok(ts) && views_of(ts@) == self@.filter(
                |t: TaskView| status_matches(command.status, t.status),
            ),
    {
        let ghost pred = |t: TaskView| status_matches(command.status, t.status);
        let source = self.db.get_tasks();
        let n = source.len();
        let mut out: Vec<Task> = Vec::new();
        let mut j: usize = 0;
        while j < n
            invariant
                n == source.len(),
                views_of(source@) == self@,
                j <= n,
                views_of(out@) == self@.take(j as int).filter(pred),
                pred == (|t: TaskView| status_matches(command.status, t.status)),
            decreases n - j,
        {
            let ghost prefix = self@.take(j as int);
            proof {
                assert(self@.take(j + 1).drop_last() =~= prefix);
                assert(self@.take(j + 1).last() == self@[j as int]);
            }
            let keep = match &command.status {
                None => true,
                Some(f) => *f == source[j].status,
            };
            if keep {
                out.push(source[j].duplicate());
                proof {
                    assert(views_of(out@) =~= prefix.filter(pred).push(self@[j as int]));
                    reveal_with_fuel(Seq::filter, 2);
                    assert(self@.take(j + 1).filter(pred) == prefix.filter(pred).push(
                        self@[j as int],
                    ));
                }
            } else {
                proof {
                    reveal_with_fuel(Seq::filter, 2);
                    assert(self@.take(j + 1).filter(pred) == prefix.filter(pred));
                }
            }
            j += 1;
        }
        proof {
            assert(self@.take(n as int) =~= self@);
        }
        Ok(out)
    }
}

} // verus!
