//! Storage: the authoritative ordered task collection.
//!
//! The collection is an ordered sequence of tasks, insertion order preserved.
//! Lookup, replacement and deletion are keyed by id; lookup and replacement
//! act on the first task with the id, deletion removes every task with it,
//! as the persisted collection may briefly hold a repeated id (the next-id
//! rule counts live tasks, so an id can be reissued after a deletion).

use vstd::prelude::*;
use crate::error::Error;
use crate::task::{Task, TaskId, TaskView, views_of};
use crate::text::dec_chars;

verus! {

/// Whether some task in `s` has id `id`.
pub open spec fn has_id(s: Seq<TaskView>, id: u32) -> bool {
    exists|i: int| 0 <= i < s.len() && s[i].id == id
}

/// The position of the first task in `s` with id `id` (meaningful only when
/// `has_id(s, id)`).
pub open spec fn first_index(s: Seq<TaskView>, id: u32) -> int
    decreases s.len(),
{
    if s.len() == 0 {
        0
    } else if s[0].id == id {
        0
    } else {
        1 + first_index(s.drop_first(), id)
    }
}

/// `first_index` points at the first occurrence: a matching task, with none
/// before it.
pub proof fn lemma_first_index(s: Seq<TaskView>, id: u32)
    requires
        has_id(s, id),
    ensures
        0 <= first_index(s, id) < s.len(),
        s[first_index(s, id)].id == id,
        forall|j: int| 0 <= j < first_index(s, id) ==> s[j].id != id,
    decreases s.len(),
{
    if s.len() > 0 && s[0].id != id {
        assert(has_id(s.drop_first(), id)) by {
            let w = choose|i: int| 0 <= i < s.len() && s[i].id == id;
            assert(s.drop_first()[w - 1].id == id);
        }
        lemma_first_index(s.drop_first(), id);
        assert(forall|j: int| 1 <= j < first_index(s, id) ==> s[j] == s.drop_first()[j - 1]);
    }
}

/// At a position that matches with none before it, `first_index` is that
/// position.
pub proof fn lemma_first_index_at(s: Seq<TaskView>, id: u32, i: int)
    requires
        0 <= i < s.len(),
        s[i].id == id,
        forall|j: int| 0 <= j < i ==> s[j].id != id,
    ensures
        first_index(s, id) == i,
    decreases i,
{
    if i > 0 {
        assert(s.drop_first()[i - 1].id == id);
        assert(forall|j: int| 0 <= j < i - 1 ==> s.drop_first()[j] == s[j + 1]);
        lemma_first_index_at(s.drop_first(), id, i - 1);
    }
}

/// The task collection, kept in insertion order.
pub struct Db {
    pub tasks: Vec<Task>,
}

impl View for Db {
    type V = Seq<TaskView>;

    open spec fn view(&self) -> Seq<TaskView> {
        views_of(self.tasks@)
    }
}

impl Db {
    /// An empty collection.
    pub fn new() -> (db: Db)
        ensures
            db@ == Seq::<TaskView>::empty(),
    {
        let db = Db { tasks: Vec::new() };
        proof {
            assert(db@ =~= Seq::<TaskView>::empty());
        }
        db
    }

    /// A collection holding exactly the given tasks, in their order.
    pub fn from_tasks(tasks: Vec<Task>) -> (db: Db)
        ensures
            db@ == views_of(tasks@),
    {
        Db { tasks }
    }

    /// Appends a task at the end of the collection.
    pub fn create_task(&mut self, task: Task) -> (r: Result<(), Error>)
        ensures
            r is Ok,
            final(self)@ == old(self)@.push(task@),
    {
        let ghost target = self@.push(task@);
        self.tasks.push(task);
        proof {
            assert(self@ =~= target);
        }
        Ok(())
    }

    /// How many tasks the collection holds.
    pub fn count_tasks(&self) -> (r: u32)
        requires
            self@.len() <= u32::MAX,
        ensures
            r as nat == self@.len(),
    {
        self.tasks.len() as u32
    }

    /// The position of the first task with the given id, if any.
    fn find_pos(&self, id: &TaskId) -> (r: Option<usize>)
        ensures
            match r {
                Some(p) => has_id(self@, id@) && p < self@.len() && p as int == first_index(
                    self@,
                    id@,
                ),
                None => !has_id(self@, id@),
            },
    {
        let n = self.tasks.len();
        let mut i: usize = 0;
        while i < n
            invariant
                n == self.tasks.len(),
                i <= n,
                forall|j: int| 0 <= j < i ==> self@[j].id != id@,
            decreases n - i,
        {
            if self.tasks[i].id.get() == id.get() {
                proof {
                    lemma_first_index_at(self@, id@, i as int);
                }
                return Some(i);
            }
            i += 1;
        }
        None
    }

    /// The first task with the given id, if any.
    pub fn get_task(&self, id: &TaskId) -> (r: Option<&Task>)
        ensures
            has_id(self@, id@) ==> (r matches Some(t) && t@ == self@[first_index(self@, id@)]),
            !has_id(self@, id@) ==> r is None,
    {
        match self.find_pos(id) {
            Some(p) => Some(&self.tasks[p]),
            None => None,
        }
    }

    /// The full ordered collection.
    pub fn get_tasks(&self) -> (r: &Vec<Task>)
        ensures
            r@ == self.tasks@,
            views_of(r@) == self@,
    {
        &self.tasks
    }

    /// Replaces the first task with the given id, keeping its position;
    /// fails with `TaskNotFound` on a missing id, leaving the collection as
    /// it was.
    pub fn update_task(&mut self, id: &TaskId, task: Task) -> (r: Result<(), Error>)
        ensures
            !has_id(old(self)@, id@) ==> (*final(self) == *old(self) && (match r {
                Err(Error::TaskNotFound { id: s }) => s@ == dec_chars(id@ as nat),
                _ => false,
            })),
            has_id(old(self)@, id@) ==> (r is Ok && final(self)@ == old(self)@.update(
                first_index(old(self)@, id@),
                task@,
            )),
    {
        let pos: usize = match self.find_pos(id) {
            Some(p) => p,
            None => {
                return Err(Error::TaskNotFound { id: id.render() });
            },
        };
        let n = self.tasks.len();
        let ghost target = old(self)@.update(pos as int, task@);
        let mut out: Vec<Task> = Vec::new();
        let mut j: usize = 0;
        while j < n
            invariant
                n == self.tasks.len(),
                pos < n,
                self@ == old(self)@,
                target == old(self)@.update(pos as int, task@),
                target.len() == n,
                j <= n,
                out.len() == j,
                forall|k: int| 0 <= k < j ==> views_of(out@)[k] == target[k],
            decreases n - j,
        {
            if j == pos {
                out.push(task.duplicate());
            } else {
                out.push(self.tasks[j].duplicate());
            }
            j += 1;
        }
        self.tasks = out;
        proof {
            assert(self@ =~= target);
        }
        Ok(())
    }

    /// Removes every task with the given id; fails with `TaskNotFound` on a
    /// missing id, leaving the collection as it was.
    pub fn delete_task(&mut self, id: &TaskId) -> (r: Result<(), Error>)
        ensures
            !has_id(old(self)@, id@) ==> (*final(self) == *old(self) && (match r {
                Err(Error::TaskNotFound { id: s }) => s@ == dec_chars(id@ as nat),
                _ => false,
            })),
            has_id(old(self)@, id@) ==> (r is Ok && final(self)@ == old(self)@.filter(
                |t: TaskView| t.id != id@,
            )),
    {
        if self.find_pos(id).is_none() {
            return Err(Error::TaskNotFound { id: id.render() });
        }
        let n = self.tasks.len();
        let ghost pred = |t: TaskView| t.id != id@;
        let mut out: Vec<Task> = Vec::new();
        let mut j: usize = 0;
        while j < n
            invariant
                n == self.tasks.len(),
                self@ == old(self)@,
                j <= n,
                views_of(out@) == old(self)@.take(j as int).filter(pred),
                pred == (|t: TaskView| t.id != id@),
            decreases n - j,
        {
            let ghost prefix = old(self)@.take(j as int);
            proof {
                assert(old(self)@.take(j + 1).drop_last() =~= prefix);
                assert(old(self)@.take(j + 1).last() == old(self)@[j as int]);
            }
            if self.tasks[j].id.get() != id.get() {
                out.push(self.tasks[j].duplicate());
                proof {
                    assert(views_of(out@) =~= prefix.filter(pred).push(old(self)@[j as int]));
                    reveal_with_fuel(Seq::filter, 2);
                    assert(old(self)@.take(j + 1).filter(pred) == prefix.filter(pred).push(
                        old(self)@[j as int],
                    ));
                }
            } else {
                proof {
                    reveal_with_fuel(Seq::filter, 2);
                    assert(old(self)@.take(j + 1).filter(pred) == prefix.filter(pred));
                }
            }
            j += 1;
        }
        self.tasks = out;
        proof {
            assert(old(self)@.take(n as int) =~= old(self)@);
        }
        Ok(())
    }
}

} // verus!
