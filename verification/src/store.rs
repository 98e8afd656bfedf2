//! The ordered task store: id assignment, append and removal.

use vstd::prelude::*;
use crate::task::{Task, TaskSpec, views};
use crate::Error;

verus! {

/// The id the next added task gets: one past the last task's id, or zero
/// when the sequence is empty.
pub open spec fn spec_next_id(ts: Seq<TaskSpec>) -> nat {
    if ts.len() == 0 {
        0
    } else {
        ts[ts.len() - 1].id + 1
    }
}

/// The id a task appended now would get.
pub fn next_id(tasks: &Vec<Task>) -> (r: usize)
    requires
        tasks@.len() > 0 ==> tasks@[tasks@.len() - 1]@.id < usize::MAX,
    ensures
        r == spec_next_id(views(tasks@)),
{
    if tasks.len() == 0 {
        0
    } else {
        tasks[tasks.len() - 1].id + 1
    }
}

/// Appends a task under the next id: the sequence grows by exactly one, and
/// the new last task carries the next id, the given name and creation
/// timestamp, and no completion.
pub fn add_task(tasks: &mut Vec<Task>, name: String, created_at: String)
    requires
        old(tasks)@.len() > 0 ==> old(tasks)@[old(tasks)@.len() - 1]@.id < usize::MAX,
    ensures
        views(final(tasks)@) == views(old(tasks)@).push(
            (TaskSpec {
                id: spec_next_id(views(old(tasks)@)),
                name: name@,
                created_at: created_at@,
                completed_at: None,
            }),
        ),
        final(tasks)@.len() == old(tasks)@.len() + 1,
{
    let id = if tasks.len() == 0 {
        0
    } else {
        tasks[tasks.len() - 1].id + 1
    };
    let t = Task { id, name, created_at, completed_at: None };
    tasks.push(t);
    proof {
        assert(views(tasks@) =~= views(old(tasks)@).push(
            (TaskSpec {
                id: spec_next_id(views(old(tasks)@)),
                name: name@,
                created_at: created_at@,
                completed_at: None,
            }),
        ));
    }
}

/// Appends a task under the next id unless that id would not fit the id
/// type; reports whether the task was added. On `false` nothing changed.
pub fn try_add_task(tasks: &mut Vec<Task>, name: String, created_at: String) -> (added: bool)
    ensures
        added == (old(tasks)@.len() == 0 || views(old(tasks)@).last().id < usize::MAX),
        added ==> views(final(tasks)@) == views(old(tasks)@).push(
            (TaskSpec {
                id: spec_next_id(views(old(tasks)@)),
                name: name@,
                created_at: created_at@,
                completed_at: None,
            }),
        ),
        !added ==> *final(tasks) == *old(tasks),
{
    if tasks.len() == 0 || tasks[tasks.len() - 1].id < usize::MAX {
        add_task(tasks, name, created_at);
        true
    } else {
        false
    }
}

/// Removes the task at `index`: on success the sequence is one shorter and
/// the remaining tasks keep their relative order. An index at or past the
/// end changes nothing and reports `IndexOutOfRange`.
pub fn remove_task_at(tasks: &mut Vec<Task>, index: usize) -> (r: Result<(), Error>)
    ensures
        match r {
            Ok(()) => index < old(tasks)@.len() && final(tasks)@ == old(tasks)@.subrange(
                0,
                index as int,
            ) + old(tasks)@.subrange(index + 1, old(tasks)@.len() as int) && final(tasks)@.len()
                == old(tasks)@.len() - 1,
            Err(e) => e == Error::IndexOutOfRange && index >= old(tasks)@.len() && *final(tasks)
                == *old(tasks),
        },
{
    if index < tasks.len() {
        tasks.remove(index);
        proof {
            assert(tasks@ =~= old(tasks)@.subrange(0, index as int) + old(tasks)@.subrange(
                index + 1,
                old(tasks)@.len() as int,
            ));
        }
        Ok(())
    } else {
        Err(Error::IndexOutOfRange)
    }
}

/// Relies on `chrono::Utc::now` and `chrono::DateTime::to_rfc3339`: the
/// clock's current instant, written as an RFC 3339 timestamp. Nothing is
/// promised of the value: it depends on the clock.
#[verifier::external_body]
fn now_rfc3339() -> String {
    chrono::Utc::now().to_rfc3339()
}

/// Appends a task under the next id, timestamped with the clock's current
/// time, unless the next id would not fit the id type; reports whether the
/// task was added. Everything but the creation timestamp is as `add_task`
/// gives it; the timestamp is whatever the clock call returned.
pub fn add_task_now(tasks: &mut Vec<Task>, name: String) -> (added: bool)
    ensures
        added == (old(tasks)@.len() == 0 || views(old(tasks)@).last().id < usize::MAX),
        added ==> final(tasks)@.len() == old(tasks)@.len() + 1,
        added ==> views(final(tasks)@).drop_last() == views(old(tasks)@),
        added ==> views(final(tasks)@).last().id == spec_next_id(views(old(tasks)@)),
        added ==> views(final(tasks)@).last().name == name@,
        added ==> views(final(tasks)@).last().completed_at is None,
        !added ==> *final(tasks) == *old(tasks),
{
    let created = now_rfc3339();
    let added = try_add_task(tasks, name, created);
    proof {
        if added {
            assert(views(tasks@).drop_last() =~= views(old(tasks)@));
        }
    }
    added
}

} // verus!
