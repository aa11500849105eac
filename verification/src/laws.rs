//! Laws of the library, stated over the same spec functions its contracts
//! use and proved once and for all.

use vstd::prelude::*;
use crate::codec::{lemma_persist_roundtrip, spec_encode_tasks, spec_parse_tasks};
use crate::db::{first_index, has_id, lemma_first_index, lemma_first_index_at};
use crate::execute_command::{added_task, with_status};
use crate::task::{TaskStatus, TaskView};

verus! {

/// A valid description survives persistence unchanged: wherever a task
/// stands in a collection of well-formed tasks, reading back the written
/// document finds it with the same description.
pub proof fn lemma_description_persists(ts: Seq<TaskView>, i: int)
    requires
        forall|j: int| 0 <= j < ts.len() ==> (#[trigger] ts[j]).wf(),
        0 <= i < ts.len(),
    ensures
        ({
            let back = spec_parse_tasks(spec_encode_tasks(ts));
            back matches Some(ts2) && ts2[i].description == ts[i].description
        }),
{
    lemma_persist_roundtrip(ts);
}

/// How many tasks of `s` carry id `id`.
pub open spec fn count_id(s: Seq<TaskView>, id: u32) -> nat {
    s.filter(|t: TaskView| t.id == id).len()
}

/// Adding a task grows the collection by exactly one; the new task sits at
/// the end, starts at `Todo`, and carries the given description.
pub proof fn lemma_add_grows(s: Seq<TaskView>, description: Seq<char>, now_ms: i64)
    ensures
        ({
            let s2 = s.push(added_task(s, description, now_ms));
            s2.len() == s.len() + 1 && s2.last().status == TaskStatus::Todo
                && s2.last().description == description && s2.last().created_at == now_ms
                && s2.last().updated_at == now_ms
        }),
{
}

/// Marking a task done and then in progress leaves its description (and
/// creation time) unchanged, leaves it in progress, and never moves
/// `updated_at` backwards at either step.
pub proof fn lemma_mark_done_then_in_progress(s: Seq<TaskView>, id: u32, t1: i64, t2: i64)
    requires
        has_id(s, id),
    ensures
        ({
            let i = first_index(s, id);
            let s1 = s.update(i, with_status(s[i], TaskStatus::Done, t1));
            let i1 = first_index(s1, id);
            let s2 = s1.update(i1, with_status(s1[i1], TaskStatus::InProgress, t2));
            i1 == i && has_id(s1, id) && s2[i].description == s[i].description
                && s2[i].created_at == s[i].created_at && s2[i].status == TaskStatus::InProgress
                && s2[i].updated_at >= s1[i].updated_at >= s[i].updated_at
        }),
{
    lemma_first_index(s, id);
    let i = first_index(s, id);
    let s1 = s.update(i, with_status(s[i], TaskStatus::Done, t1));
    assert(s1[i].id == id);
    assert(forall|j: int| 0 <= j < i ==> s1[j].id != id);
    lemma_first_index_at(s1, id, i);
}

/// The tasks kept by a deletion and the tasks it removes partition the
/// collection.
proof fn lemma_delete_partition(s: Seq<TaskView>, id: u32)
    ensures
        s.filter(|t: TaskView| t.id != id).len() + count_id(s, id) == s.len(),
    decreases s.len(),
{
    reveal_with_fuel(Seq::filter, 2);
    if s.len() > 0 {
        lemma_delete_partition(s.drop_last(), id);
    }
}

/// A collection with the id present keeps at least one matching task in the
/// removed part.
proof fn lemma_count_id_pos(s: Seq<TaskView>, id: u32)
    requires
        has_id(s, id),
    ensures
        count_id(s, id) >= 1,
    decreases s.len(),
{
    reveal_with_fuel(Seq::filter, 2);
    let w = choose|i: int| 0 <= i < s.len() && s[i].id == id;
    if w == s.len() - 1 {
        assert(s.drop_last().push(s.last()) =~= s);
    } else {
        assert(has_id(s.drop_last(), id)) by {
            assert(s.drop_last()[w].id == id);
        }
        lemma_count_id_pos(s.drop_last(), id);
    }
}

/// Deleting an id removes every task with it, so deleting again fails; and
/// when the id named exactly one task, exactly one task is removed.
pub proof fn lemma_delete_removes(s: Seq<TaskView>, id: u32)
    requires
        has_id(s, id),
    ensures
        ({
            let s1 = s.filter(|t: TaskView| t.id != id);
            !has_id(s1, id) && s1.len() < s.len() && (count_id(s, id) == 1 ==> s1.len() == (
            s.len() - 1) as nat)
        }),
{
    let pred = |t: TaskView| t.id != id;
    let s1 = s.filter(pred);
    assert(!has_id(s1, id)) by {
        if has_id(s1, id) {
            let w = choose|i: int| 0 <= i < s1.len() && s1[i].id == id;
            s.lemma_filter_pred(pred, w);
        }
    }
    lemma_delete_partition(s, id);
    lemma_count_id_pos(s, id);
}

} // verus!
