//! The task record and its mathematical value.

use vstd::prelude::*;

verus! {

/// One to-do entry, as held in the ordered store.
///
/// Timestamps are carried as the text that the persisted file holds; the
/// store never computes with them.
#[derive(Debug)]
pub struct Task {
    /// Non-negative identifier, unique among the tasks currently stored.
    pub id: usize,
    /// Free-form description text.
    pub name: String,
    /// Creation timestamp text, set once at creation.
    pub created_at: String,
    /// Completion timestamp text; absent means "not completed".
    pub completed_at: Option<String>,
}

/// The value of a task: plain numbers and character sequences.
pub ghost struct TaskSpec {
    pub id: nat,
    pub name: Seq<char>,
    pub created_at: Seq<char>,
    pub completed_at: Option<Seq<char>>,
}

impl View for Task {
    type V = TaskSpec;

    open spec fn view(&self) -> TaskSpec {
        TaskSpec {
            id: self.id as nat,
            name: self.name@,
            created_at: self.created_at@,
            completed_at: match self.completed_at {
                Some(ref s) => Some(s@),
                None => None,
            },
        }
    }
}

impl Clone for Task {
    fn clone(&self) -> (r: Self)
        ensures
            r@ == self@,
    {
        Task {
            id: self.id,
            name: self.name.clone(),
            created_at: self.created_at.clone(),
            completed_at: match self.completed_at {
                Some(ref s) => Some(s.clone()),
                None => None,
            },
        }
    }
}

/// The values of a sequence of tasks, in order.
pub open spec fn views(ts: Seq<Task>) -> Seq<TaskSpec> {
    ts.map_values(|t: Task| t@)
}

} // verus!
