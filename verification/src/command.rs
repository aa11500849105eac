//! Validated commands, and the parsing of raw argument lists into them.
//!
//! `parse_command` expects the process argument convention: the element at
//! index 0 is the program name, the command word sits at index 1.

use vstd::prelude::*;
use crate::error::Error;
use crate::task::{is_u32_numeral, u32_numeral_val, TaskDescription, TaskId, TaskStatus};
use crate::text::str_eq;

verus! {

#[derive(Debug)]
pub struct CommandAdd {
    pub description: TaskDescription,
}

#[derive(Debug)]
pub struct CommandUpdate {
    pub id: TaskId,
    pub description: TaskDescription,
}

#[derive(Debug)]
pub struct CommandDelete {
    pub id: TaskId,
}

#[derive(Debug)]
pub struct CommandMarkInProgress {
    pub id: TaskId,
}

#[derive(Debug)]
pub struct CommandMarkDone {
    pub id: TaskId,
}

#[derive(Debug)]
pub struct CommandList {
    pub status: Option<TaskStatus>,
}

#[derive(Debug)]
pub enum Command {
    Add(CommandAdd),
    Update(CommandUpdate),
    Delete(CommandDelete),
    MarkInProgress(CommandMarkInProgress),
    MarkDone(CommandMarkDone),
    List(CommandList),
}

/// Checks the exact argument count a command expects.
fn validate_args_length(args: &Vec<String>, expected: u8) -> (r: Result<(), Error>)
    ensures
        args@.len() == expected ==> r is Ok,
        args@.len() != expected ==> r == Err::<(), Error>(Error::WrongNumberOfArguments {
            expected,
            got: args@.len() as u8,
        }),
{
    if args.len() != (expected as usize) {
        return Err(Error::WrongNumberOfArguments {
            expected,
            got: #[verifier::truncate] (args.len() as u8),
        });
    }
    Ok(())
}

fn parse_add_command(args: Vec<String>) -> (r: Result<CommandAdd, Error>)
    ensures
        args.deep_view().len() != 3 ==> r == Err::<CommandAdd, Error>(
            Error::WrongNumberOfArguments { expected: 3, got: args.deep_view().len() as u8 },
        ),
        args.deep_view().len() == 3 && args.deep_view()[2].len() == 0 ==> r
            == Err::<CommandAdd, Error>(Error::EmptyDescription),
        args.deep_view().len() == 3 && args.deep_view()[2].len() > 0 ==> (r matches Ok(c)
            && c.description@ == args.deep_view()[2]),
{
    if let Err(e) = validate_args_length(&args, 3) {
        return Err(e);
    }
    let description = match TaskDescription::new(args[2].clone()) {
        Ok(d) => d,
        Err(e) => {
            return Err(e);
        },
    };
    Ok(CommandAdd { description })
}

fn parse_update_command(args: Vec<String>) -> (r: Result<CommandUpdate, Error>)
    ensures
        args.deep_view().len() != 4 ==> r == Err::<CommandUpdate, Error>(
            Error::WrongNumberOfArguments { expected: 4, got: args.deep_view().len() as u8 },
        ),
        args.deep_view().len() == 4 && !is_u32_numeral(args.deep_view()[2]) ==> (match r {
            Err(Error::IdMustBeNumber { id }) => id@ == args.deep_view()[2],
            _ => false,
        }),
        args.deep_view().len() == 4 && is_u32_numeral(args.deep_view()[2])
            && args.deep_view()[3].len() == 0 ==> r == Err::<CommandUpdate, Error>(
            Error::EmptyDescription,
        ),
        args.deep_view().len() == 4 && is_u32_numeral(args.deep_view()[2])
            && args.deep_view()[3].len() > 0 ==> (r matches Ok(c) && c.id@ as int
            == u32_numeral_val(args.deep_view()[2]) && c.description@ == args.deep_view()[3]),
{
    if let Err(e) = validate_args_length(&args, 4) {
        return Err(e);
    }
    let id = match TaskId::new_from_string(args[2].clone()) {
        Ok(i) => i,
        Err(e) => {
            return Err(e);
        },
    };
    let description = match TaskDescription::new(args[3].clone()) {
        Ok(d) => d,
        Err(e) => {
            return Err(e);
        },
    };
    Ok(CommandUpdate { id, description })
}

/// Parses the single id argument the delete and mark commands take.
fn parse_id_only(args: &Vec<String>) -> (r: Result<TaskId, Error>)
    ensures
        args.deep_view().len() != 3 ==> r == Err::<TaskId, Error>(Error::WrongNumberOfArguments {
            expected: 3,
            got: args.deep_view().len() as u8,
        }),
        args.deep_view().len() == 3 && !is_u32_numeral(args.deep_view()[2]) ==> (match r {
            Err(Error::IdMustBeNumber { id }) => id@ == args.deep_view()[2],
            _ => false,
        }),
        args.deep_view().len() == 3 && is_u32_numeral(args.deep_view()[2]) ==> (r matches Ok(i)
            && i@ as int == u32_numeral_val(args.deep_view()[2])),
{
    if let Err(e) = validate_args_length(args, 3) {
        return Err(e);
    }
    TaskId::new_from_string(args[2].clone())
}

fn parse_delete_command(args: Vec<String>) -> (r: Result<CommandDelete, Error>)
    ensures
        args.deep_view().len() != 3 ==> r == Err::<CommandDelete, Error>(
            Error::WrongNumberOfArguments { expected: 3, got: args.deep_view().len() as u8 },
        ),
        args.deep_view().len() == 3 && !is_u32_numeral(args.deep_view()[2]) ==> (match r {
            Err(Error::IdMustBeNumber { id }) => id@ == args.deep_view()[2],
            _ => false,
        }),
        args.deep_view().len() == 3 && is_u32_numeral(args.deep_view()[2]) ==> (r matches Ok(c)
            && c.id@ as int == u32_numeral_val(args.deep_view()[2])),
{
    let id = match parse_id_only(&args) {
        Ok(i) => i,
        Err(e) => {
            return Err(e);
        },
    };
    Ok(CommandDelete { id })
}

fn parse_mark_in_progress_command(args: Vec<String>) -> (r: Result<CommandMarkInProgress, Error>)
    ensures
        args.deep_view().len() != 3 ==> r == Err::<CommandMarkInProgress, Error>(
            Error::WrongNumberOfArguments { expected: 3, got: args.deep_view().len() as u8 },
        ),
        args.deep_view().len() == 3 && !is_u32_numeral(args.deep_view()[2]) ==> (match r {
            Err(Error::IdMustBeNumber { id }) => id@ == args.deep_view()[2],
            _ => false,
        }),
        args.deep_view().len() == 3 && is_u32_numeral(args.deep_view()[2]) ==> (r matches Ok(c)
            && c.id@ as int == u32_numeral_val(args.deep_view()[2])),
{
    let id = match parse_id_only(&args) {
        Ok(i) => i,
        Err(e) => {
            return Err(e);
        },
    };
    Ok(CommandMarkInProgress { id })
}

fn parse_mark_done_command(args: Vec<String>) -> (r: Result<CommandMarkDone, Error>)
    ensures
        args.deep_view().len() != 3 ==> r == Err::<CommandMarkDone, Error>(
            Error::WrongNumberOfArguments { expected: 3, got: args.deep_view().len() as u8 },
        ),
        args.deep_view().len() == 3 && !is_u32_numeral(args.deep_view()[2]) ==> (match r {
            Err(Error::IdMustBeNumber { id }) => id@ == args.deep_view()[2],
            _ => false,
        }),
        args.deep_view().len() == 3 && is_u32_numeral(args.deep_view()[2]) ==> (r matches Ok(c)
            && c.id@ as int == u32_numeral_val(args.deep_view()[2])),
{
    let id = match parse_id_only(&args) {
        Ok(i) => i,
        Err(e) => {
            return Err(e);
        },
    };
    Ok(CommandMarkDone { id })
}

fn parse_list_command(args: Vec<String>) -> (r: Result<CommandList, Error>)
    ensures
        args.deep_view().len() == 2 ==> (r matches Ok(c) && c.status is None),
        args.deep_view().len() == 3 ==> {
            let token = args.deep_view()[2];
            if token == "todo"@ {
                r matches Ok(c) && c.status == Some(TaskStatus::Todo)
            } else if token == "in_progress"@ {
                r matches Ok(c) && c.status == Some(TaskStatus::InProgress)
            } else if token == "done"@ {
                r matches Ok(c) && c.status == Some(TaskStatus::Done)
            } else {
                match r {
                    Err(Error::UnknownStatus { status }) => status@ == token,
                    _ => false,
                }
            }
        },
        args.deep_view().len() > 3 ==> r == Err::<CommandList, Error>(Error::TooManyArguments {
            max: 3,
            got: args.deep_view().len() as u8,
        }),
        args.deep_view().len() < 2 ==> r == Err::<CommandList, Error>(Error::TooManyArguments {
            max: 3,
            got: args.deep_view().len() as u8,
        }),
{
    if args.len() == 2 {
        Ok(CommandList { status: None })
    } else if args.len() == 3 {
        let status = match TaskStatus::from_str(args[2].as_str()) {
            Ok(s) => s,
            Err(e) => {
                return Err(e);
            },
        };
        Ok(CommandList { status: Some(status) })
    } else {
        Err(Error::TooManyArguments {
            max: 3,
            got: #[verifier::truncate] (args.len() as u8),
        })
    }
}

/// What `parse_command` must return for a given argument list (element 0 is
/// the program name): the unique command or error each list maps to.
pub open spec fn parse_command_spec(a: Seq<Seq<char>>, r: Result<Command, Error>) -> bool {
    if a.len() <= 1 {
        r == Err::<Command, Error>(Error::NoCommand)
    } else {
        let word = a[1];
        if word == "add"@ {
            if a.len() != 3 {
                r == Err::<Command, Error>(Error::WrongNumberOfArguments {
                    expected: 3,
                    got: a.len() as u8,
                })
            } else if a[2].len() == 0 {
                r == Err::<Command, Error>(Error::EmptyDescription)
            } else {
                match r {
                    Ok(Command::Add(c)) => c.description@ == a[2],
                    _ => false,
                }
            }
        } else if word == "update"@ {
            if a.len() != 4 {
                r == Err::<Command, Error>(Error::WrongNumberOfArguments {
                    expected: 4,
                    got: a.len() as u8,
                })
            } else if !is_u32_numeral(a[2]) {
                match r {
                    Err(Error::IdMustBeNumber { id }) => id@ == a[2],
                    _ => false,
                }
            } else if a[3].len() == 0 {
                r == Err::<Command, Error>(Error::EmptyDescription)
            } else {
                match r {
                    Ok(Command::Update(c)) => c.id@ as int == u32_numeral_val(a[2])
                        && c.description@ == a[3],
                    _ => false,
                }
            }
        } else if word == "delete"@ {
            if a.len() != 3 {
                r == Err::<Command, Error>(Error::WrongNumberOfArguments {
                    expected: 3,
                    got: a.len() as u8,
                })
            } else if !is_u32_numeral(a[2]) {
                match r {
                    Err(Error::IdMustBeNumber { id }) => id@ == a[2],
                    _ => false,
                }
            } else {
                match r {
                    Ok(Command::Delete(c)) => c.id@ as int == u32_numeral_val(a[2]),
                    _ => false,
                }
            }
        } else if word == "mark-in-progress"@ {
            if a.len() != 3 {
                r == Err::<Command, Error>(Error::WrongNumberOfArguments {
                    expected: 3,
                    got: a.len() as u8,
                })
            } else if !is_u32_numeral(a[2]) {
                match r {
                    Err(Error::IdMustBeNumber { id }) => id@ == a[2],
                    _ => false,
                }
            } else {
                match r {
                    Ok(Command::MarkInProgress(c)) => c.id@ as int == u32_numeral_val(a[2]),
                    _ => false,
                }
            }
        } else if word == "mark-done"@ {
            if a.len() != 3 {
                r == Err::<Command, Error>(Error::WrongNumberOfArguments {
                    expected: 3,
                    got: a.len() as u8,
                })
            } else if !is_u32_numeral(a[2]) {
                match r {
                    Err(Error::IdMustBeNumber { id }) => id@ == a[2],
                    _ => false,
                }
            } else {
                match r {
                    Ok(Command::MarkDone(c)) => c.id@ as int == u32_numeral_val(a[2]),
                    _ => false,
                }
            }
        } else if word == "list"@ {
            if a.len() == 2 {
                match r {
                    Ok(Command::List(c)) => c.status is None,
                    _ => false,
                }
            } else if a.len() == 3 {
                if a[2] == "todo"@ {
                    match r {
                        Ok(Command::List(c)) => c.status == Some(TaskStatus::Todo),
                        _ => false,
                    }
                } else if a[2] == "in_progress"@ {
                    match r {
                        Ok(Command::List(c)) => c.status == Some(TaskStatus::InProgress),
                        _ => false,
                    }
                } else if a[2] == "done"@ {
                    match r {
                        Ok(Command::List(c)) => c.status == Some(TaskStatus::Done),
                        _ => false,
                    }
                } else {
                    match r {
                        Err(Error::UnknownStatus { status }) => status@ == a[2],
                        _ => false,
                    }
                }
            } else {
                r == Err::<Command, Error>(Error::TooManyArguments {
                    max: 3,
                    got: a.len() as u8,
                })
            }
        } else {
            match r {
                Err(Error::UnknownCommand { command }) => command@ == word,
                _ => false,
            }
        }
    }
}

/// Turns a raw argument list into a validated command, or the precise error
/// that rules it out.
pub fn parse_command(args: Vec<String>) -> (r: Result<Command, Error>)
    requires
        args@.len() >= 1,
    ensures
        parse_command_spec(args.deep_view(), r),
{
    proof {
        reveal_strlit("add");
        reveal_strlit("update");
        reveal_strlit("delete");
        reveal_strlit("mark-in-progress");
        reveal_strlit("mark-done");
        reveal_strlit("list");
        assert("add"@.len() == 3 && "update"@.len() == 6 && "delete"@.len() == 6
            && "mark-in-progress"@.len() == 16 && "mark-done"@.len() == 9 && "list"@.len() == 4);
        assert("update"@[0] == 'u' && "delete"@[0] == 'd');
    }
    if args.len() == 1 {
        return Err(Error::NoCommand);
    }
    let cmd = args[1].clone();
    if str_eq(cmd.as_str(), "add") {
        match parse_add_command(args) {
            Ok(c) => Ok(Command::Add(c)),
            Err(e) => Err(e),
        }
    } else if str_eq(cmd.as_str(), "update") {
        match parse_update_command(args) {
            Ok(c) => Ok(Command::Update(c)),
            Err(e) => Err(e),
        }
    } else if str_eq(cmd.as_str(), "delete") {
        match parse_delete_command(args) {
            Ok(c) => Ok(Command::Delete(c)),
            Err(e) => Err(e),
        }
    } else if str_eq(cmd.as_str(), "mark-in-progress") {
        match parse_mark_in_progress_command(args) {
            Ok(c) => Ok(Command::MarkInProgress(c)),
            Err(e) => Err(e),
        }
    } else if str_eq(cmd.as_str(), "mark-done") {
        match parse_mark_done_command(args) {
            Ok(c) => Ok(Command::MarkDone(c)),
            Err(e) => Err(e),
        }
    } else if str_eq(cmd.as_str(), "list") {
        match parse_list_command(args) {
            Ok(c) => Ok(Command::List(c)),
            Err(e) => Err(e),
        }
    } else {
        Err(Error::UnknownCommand { command: cmd })
    }
}

} // verus!
