//! The task model: value types with their construction and validation rules.
//!
//! Timestamps are kept as milliseconds since the Unix epoch (UTC), as plain
//! `i64` values. A task's `updated_at` never moves backwards: every mutation
//! sets it to the given clock reading or keeps it, whichever is later, so the
//! invariant `created_at <= updated_at` holds through arbitrary clock
//! behaviour.

use vstd::prelude::*;
use crate::error::Error;
use crate::text::{digits_val, is_digit, all_digits, digit_of, lemma_digits_val_prefix_le, str_eq, str_to_chars, u64_to_string};

verus! {

/// A status a task can be in.
#[derive(Debug, Clone, Copy, PartialEq, Eq, Structural)]
pub enum TaskStatus {
    Todo,
    InProgress,
    Done,
}

/// The token a status serializes to.
pub open spec fn status_chars(st: TaskStatus) -> Seq<char> {
    match st {
        TaskStatus::Todo => "todo"@,
        TaskStatus::InProgress => "in_progress"@,
        TaskStatus::Done => "done"@,
    }
}

impl TaskStatus {
    /// Parses a status token; exactly `todo`, `in_progress` and `done` are
    /// recognized.
    pub fn from_str(s: &str) -> (r: Result<Self, Error>)
        ensures
            s@ == "todo"@ ==> r == Ok::<Self, Error>(TaskStatus::Todo),
            s@ == "in_progress"@ ==> r == Ok::<Self, Error>(TaskStatus::InProgress),
            s@ == "done"@ ==> r == Ok::<Self, Error>(TaskStatus::Done),
            !(s@ == "todo"@ || s@ == "in_progress"@ || s@ == "done"@) ==> (match r {
                Err(Error::UnknownStatus { status }) => status@ == s@,
                _ => false,
            }),
    {
        proof {
            reveal_strlit("todo");
            reveal_strlit("in_progress");
            reveal_strlit("done");
            assert("todo"@.len() == 4 && "in_progress"@.len() == 11 && "done"@.len() == 4);
            assert("todo"@[0] == 't' && "done"@[0] == 'd');
            assert("todo"@ != "in_progress"@ && "in_progress"@ != "done"@);
            assert("todo"@ != "done"@);
        }
        if str_eq(s, "todo") {
            Ok(TaskStatus::Todo)
        } else if str_eq(s, "in_progress") {
            Ok(TaskStatus::InProgress)
        } else if str_eq(s, "done") {
            Ok(TaskStatus::Done)
        } else {
            Err(Error::UnknownStatus { status: s.to_owned() })
        }
    }

    /// Renders the status token.
    pub fn token(&self) -> (r: String)
        ensures
            r@ == status_chars(*self),
    {
        match self {
            TaskStatus::Todo => "todo".to_owned(),
            TaskStatus::InProgress => "in_progress".to_owned(),
            TaskStatus::Done => "done".to_owned(),
        }
    }
}

/// Identifier of a task: an opaque number, unique while ids are issued and
/// none is deleted.
#[derive(Debug, Clone, Copy, PartialEq, Eq, Structural)]
pub struct TaskId {
    id: u32,
}

impl View for TaskId {
    type V = u32;

    closed spec fn view(&self) -> u32 {
        self.id
    }
}

/// Whether `s` is a numeral that `u32` text parsing accepts: an optional `+`
/// sign, then one or more decimal digits (leading zeros allowed), with a
/// value that fits in a `u32`.
pub open spec fn is_u32_numeral(s: Seq<char>) -> bool {
    let ds = if s.len() > 0 && s[0] == '+' { s.drop_first() } else { s };
    ds.len() > 0 && all_digits(ds) && digits_val(ds) <= u32::MAX
}

/// The value of a `u32` numeral.
pub open spec fn u32_numeral_val(s: Seq<char>) -> int {
    let ds = if s.len() > 0 && s[0] == '+' { s.drop_first() } else { s };
    digits_val(ds)
}

impl TaskId {
    /// Parses an id from user-supplied text; any numeral a `u32` accepts is
    /// taken, anything else is rejected.
    pub fn new_from_string(id: String) -> (r: Result<Self, Error>)
        ensures
            is_u32_numeral(id@) ==> (r matches Ok(t) && t@ as int == u32_numeral_val(id@)),
            !is_u32_numeral(id@) ==> (match r {
                Err(Error::IdMustBeNumber { id: bad }) => bad@ == id@,
                _ => false,
            }),
    {
        let chars = str_to_chars(id.as_str());
        let start: usize = if chars.len() > 0 && chars[0] == '+' { 1 } else { 0 };
        let ghost ds = if id@.len() > 0 && id@[0] == '+' { id@.drop_first() } else { id@ };
        assert(ds =~= chars@.skip(start as int));
        if chars.len() == start {
            return Err(Error::IdMustBeNumber { id });
        }
        let mut value: u64 = 0;
        let mut i: usize = start;
        while i < chars.len()
            invariant
                start <= i <= chars.len(),
                chars@ == id@,
                ds == chars@.skip(start as int),
                ds == (if id@.len() > 0 && id@[0] == '+' { id@.drop_first() } else { id@ }),
                chars.len() > start,
                all_digits(ds.take(i - start)),
                value as int == digits_val(ds.take(i - start)),
                value <= u32::MAX,
            decreases chars.len() - i,
        {
            let d = digit_of(chars[i]);
            assert(ds[i - start] == chars@[i as int]);
            if d < 0 {
                assert(!all_digits(ds)) by {
                    assert(!is_digit(ds[i - start]));
                }
                return Err(Error::IdMustBeNumber { id });
            }
            proof {
                assert(ds.take(i + 1 - start).drop_last() =~= ds.take(i - start));
                assert(ds.take(i + 1 - start).last() == ds[i - start]);
            }
            value = value * 10 + (d as u64);
            assert(value as int == digits_val(ds.take(i + 1 - start)));
            assert(all_digits(ds.take(i + 1 - start))) by {
                assert(forall|j: int| 0 <= j < i + 1 - start ==> #[trigger] ds.take(i + 1 - start)[j] == ds.take(i - start + 1)[j]);
            }
            if value > u32::MAX as u64 {
                proof {
                    if all_digits(ds) {
                        lemma_digits_val_prefix_le(ds, i + 1 - start);
                    }
                }
                assert(!is_u32_numeral(id@));
                return Err(Error::IdMustBeNumber { id });
            }
            i += 1;
        }
        assert(ds.take(chars.len() - start) =~= ds);
        Ok(TaskId { id: value as u32 })
    }

    /// Wraps a raw number as an id.
    pub fn new(id: u32) -> (r: Result<Self, Error>)
        ensures
            r matches Ok(t) && t@ == id,
    {
        Ok(TaskId { id })
    }

    /// The raw number of this id.
    pub fn get(&self) -> (r: u32)
        ensures
            r == self@,
    {
        self.id
    }

    /// The id rendered in decimal, as task-not-found errors carry it.
    pub fn render(&self) -> (r: String)
        ensures
            r@ == crate::text::dec_chars(self@ as nat),
    {
        u64_to_string(self.id as u64)
    }
}

/// A task's text: always non-empty.
#[derive(Debug)]
pub struct TaskDescription {
    description: String,
}

impl View for TaskDescription {
    type V = Seq<char>;

    closed spec fn view(&self) -> Seq<char> {
        self.description@
    }
}

impl TaskDescription {
    /// The type invariant: a description is never empty.
    #[verifier::type_invariant]
    pub open spec fn inv(self) -> bool {
        self@.len() > 0
    }

    /// Validates a description: any non-empty text is accepted, empty text
    /// is rejected with `EmptyDescription`.
    pub fn new(description: String) -> (r: Result<Self, Error>)
        ensures
            description@.len() > 0 ==> (r matches Ok(d) && d@ == description@),
            description@.len() == 0 ==> r == Err::<Self, Error>(Error::EmptyDescription),
    {
        if description.as_str().is_empty() {
            Err(Error::EmptyDescription)
        } else {
            Ok(TaskDescription { description })
        }
    }

    /// The text itself.
    pub fn as_str(&self) -> (r: &str)
        ensures
            r@ == self@,
    {
        self.description.as_str()
    }

    /// An equal copy.
    pub fn duplicate(&self) -> (r: Self)
        ensures
            r == *self,
    {
        proof {
            use_type_invariant(self);
        }
        TaskDescription { description: self.description.clone() }
    }
}

/// A ghost-level picture of a task: the id number, the description text, the
/// status and the two timestamps (milliseconds since the Unix epoch).
pub struct TaskView {
    pub id: u32,
    pub description: Seq<char>,
    pub status: TaskStatus,
    pub created_at: i64,
    pub updated_at: i64,
}

impl TaskView {
    /// The task invariant: a non-empty description, and a task never updated
    /// before it was created.
    pub open spec fn wf(self) -> bool {
        self.description.len() > 0 && self.created_at <= self.updated_at
    }
}

/// The ghost-level picture of a sequence of tasks.
pub open spec fn views_of(s: Seq<Task>) -> Seq<TaskView> {
    s.map(|i: int, t: Task| t@)
}

/// Where `updated_at` moves when a mutation happens at clock reading
/// `now_ms`: forward to the reading, never backwards.
pub open spec fn bumped(updated_at: i64, now_ms: i64) -> i64 {
    if now_ms > updated_at { now_ms } else { updated_at }
}

/// A unit of work: id, description, status and timestamps.
#[derive(Debug)]
pub struct Task {
    pub id: TaskId,
    pub description: TaskDescription,
    pub status: TaskStatus,
    pub created_at: i64,
    pub updated_at: i64,
}

impl View for Task {
    type V = TaskView;

    open spec fn view(&self) -> TaskView {
        TaskView {
            id: self.id@,
            description: self.description@,
            status: self.status,
            created_at: self.created_at,
            updated_at: self.updated_at,
        }
    }
}

/// Relies on `chrono::Utc::now` (and its conversion `timestamp_millis`): the
/// current UTC time as whole milliseconds since the Unix epoch. `Utc::now`
/// rejects a pre-epoch system clock, so the reading is never negative.
#[verifier::external_body]
pub(crate) fn now_millis() -> (r: i64)
    ensures
        r >= 0,
{
    chrono::Utc::now().timestamp_millis()
}

impl Task {
    /// Makes a task at a given clock reading: status starts at `Todo` and
    /// both timestamps equal the reading.
    pub fn new_at(id: TaskId, description: TaskDescription, now_ms: i64) -> (t: Task)
        ensures
            t@ == (TaskView {
                id: id@,
                description: description@,
                status: TaskStatus::Todo,
                created_at: now_ms,
                updated_at: now_ms,
            }),
    {
        Task {
            id,
            description,
            status: TaskStatus::Todo,
            created_at: now_ms,
            updated_at: now_ms,
        }
    }

    /// Makes a task dated now.
    pub fn new(id: TaskId, description: TaskDescription) -> (t: Task)
        ensures
            t@.id == id@,
            t@.description == description@,
            t@.status == TaskStatus::Todo,
            t@.created_at == t@.updated_at,
            t@.created_at >= 0,
    {
        let now_ms = now_millis();
        Task::new_at(id, description, now_ms)
    }

    /// Replaces the description at a given clock reading; everything else
    /// but `updated_at` stays.
    pub fn set_description_at(&mut self, description: TaskDescription, now_ms: i64)
        ensures
            final(self)@ == (TaskView {
                description: description@,
                updated_at: bumped(old(self)@.updated_at, now_ms),
                ..old(self)@
            }),
    {
        self.description = description;
        if now_ms > self.updated_at {
            self.updated_at = now_ms;
        }
    }

    /// Replaces the description, dating the change now.
    pub fn set_description(&mut self, description: TaskDescription)
        ensures
            final(self)@.description == description@,
            final(self)@.updated_at >= old(self)@.updated_at,
            final(self)@.id == old(self)@.id,
            final(self)@.status == old(self)@.status,
            final(self)@.created_at == old(self)@.created_at,
    {
        let now_ms = now_millis();
        self.set_description_at(description, now_ms);
    }

    /// Replaces the status at a given clock reading; everything else but
    /// `updated_at` stays.
    pub fn set_status_at(&mut self, status: TaskStatus, now_ms: i64)
        ensures
            final(self)@ == (TaskView {
                status,
                updated_at: bumped(old(self)@.updated_at, now_ms),
                ..old(self)@
            }),
    {
        self.status = status;
        if now_ms > self.updated_at {
            self.updated_at = now_ms;
        }
    }

    /// Replaces the status, dating the change now.
    pub fn set_status(&mut self, status: TaskStatus)
        ensures
            final(self)@.status == status,
            final(self)@.updated_at >= old(self)@.updated_at,
            final(self)@.id == old(self)@.id,
            final(self)@.description == old(self)@.description,
            final(self)@.created_at == old(self)@.created_at,
    {
        let now_ms = now_millis();
        self.set_status_at(status, now_ms);
    }

    /// A task equal to this one in every field.
    pub fn duplicate(&self) -> (r: Task)
        ensures
            r == *self,
    {
        Task {
            id: self.id,
            description: self.description.duplicate(),
            status: self.status,
            created_at: self.created_at,
            updated_at: self.updated_at,
        }
    }
}

} // verus!
