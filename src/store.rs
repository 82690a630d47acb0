//! The task store: tasks kept in ascending order of identifier, with a
//! counter from which new identifiers are drawn.

use vstd::prelude::*;
use crate::task::{Task, with_id};

verus! {

/// What a store holds, as a value.
pub struct StoreView {
    pub tasks: Seq<Task>,
    pub next_id: i32,
}

impl StoreView {
    /// Identifiers strictly ascend, are positive, and lie below `next_id`.
    pub open spec fn wf(self) -> bool {
        &&& 1 <= self.next_id
        &&& forall|i: int, j: int|
            0 <= i < j < self.tasks.len() ==> self.tasks[i].id < self.tasks[j].id
        &&& forall|i: int|
            0 <= i < self.tasks.len() ==> 0 < #[trigger] self.tasks[i].id < self.next_id
    }

    pub open spec fn contains(self, id: i32) -> bool {
        exists|i: int| 0 <= i < self.tasks.len() && #[trigger] self.tasks[i].id == id
    }

    /// Where the task with this identifier stands.
    pub open spec fn index_of(self, id: i32) -> int {
        choose|i: int| 0 <= i < self.tasks.len() && #[trigger] self.tasks[i].id == id
    }

    /// The task with this identifier.
    pub open spec fn get(self, id: i32) -> Task {
        self.tasks[self.index_of(id)]
    }

    /// Tasks before `k` have smaller identifiers than `id`, the others larger.
    pub open spec fn splits_at(self, k: int, id: i32) -> bool {
        &&& 0 <= k <= self.tasks.len()
        &&& forall|j: int| 0 <= j < k ==> #[trigger] self.tasks[j].id < id
        &&& forall|j: int| k <= j < self.tasks.len() ==> #[trigger] self.tasks[j].id > id
    }

    /// Where a task with identifier `id` belongs.
    pub open spec fn slot(self, id: i32) -> int {
        choose|k: int| self.splits_at(k, id)
    }

    /// A new task, numbered from the counter, at the end.
    pub open spec fn with_created(self, t: Task) -> StoreView {
        StoreView {
            tasks: self.tasks.push(with_id(t, self.next_id)),
            next_id: (self.next_id + 1) as i32,
        }
    }

    /// `t` put back under its own identifier, the counter moved past it.
    pub open spec fn with_inserted(self, t: Task) -> StoreView {
        StoreView {
            tasks: self.tasks.insert(self.slot(t.id), t),
            next_id: if t.id >= self.next_id {
                (t.id + 1) as i32
            } else {
                self.next_id
            },
        }
    }

    /// The task with this identifier taken out.
    pub open spec fn without(self, id: i32) -> StoreView {
        StoreView { tasks: self.tasks.remove(self.index_of(id)), next_id: self.next_id }
    }

    /// The task with `t`'s identifier replaced by `t`.
    pub open spec fn with_replaced(self, t: Task) -> StoreView {
        StoreView {
            tasks: self.tasks.update(self.index_of(t.id), t),
            next_id: self.next_id,
        }
    }
}

/// In a well-formed store each identifier stands at one place only.
pub proof fn lemma_index_of(s: StoreView, i: int)
    requires
        s.wf(),
        0 <= i < s.tasks.len(),
    ensures
        s.contains(s.tasks[i].id),
        s.index_of(s.tasks[i].id) == i,
{
    let id = s.tasks[i].id;
    assert(s.tasks[i].id == id);
    let k = s.index_of(id);
    if k < i {
        assert(s.tasks[k].id < s.tasks[i].id);
    } else if k > i {
        assert(s.tasks[i].id < s.tasks[k].id);
    }
}

/// There is at most one place where an identifier belongs.
pub proof fn lemma_slot(s: StoreView, k: int, id: i32)
    requires
        s.splits_at(k, id),
    ensures
        s.slot(id) == k,
        !s.contains(id),
{
    let k2 = s.slot(id);
    assert(s.splits_at(k2, id));
    if k2 < k {
        assert(s.tasks[k2].id < id);
    } else if k2 > k {
        assert(s.tasks[k].id < id);
    }
    if s.contains(id) {
        let i = choose|i: int| 0 <= i < s.tasks.len() && #[trigger] s.tasks[i].id == id;
        if i < k {
            assert(s.tasks[i].id < id);
        } else {
            assert(s.tasks[i].id > id);
        }
    }
}

/// Tasks held in ascending order of identifier.
pub struct TaskStore {
    tasks: Vec<Task>,
    next_id: i32,
}

impl View for TaskStore {
    type V = StoreView;

    closed spec fn view(&self) -> StoreView {
        StoreView { tasks: self.tasks@, next_id: self.next_id }
    }
}

impl TaskStore {
    /// An empty store whose first task gets identifier 1.
    pub fn new() -> (r: TaskStore)
        ensures
            r@.tasks.len() == 0,
            r@.next_id == 1,
            r@.wf(),
    {
        TaskStore { tasks: Vec::new(), next_id: 1 }
    }

    /// A store of these tasks, where they are in ascending order of
    /// identifier, positive, and below `next_id`.
    pub fn from_parts(tasks: Vec<Task>, next_id: i32) -> (r: Option<TaskStore>)
        ensures
            r is Some <==> (StoreView { tasks: tasks@, next_id }).wf(),
            r is Some ==> r->0@ == (StoreView { tasks: tasks@, next_id }),
    {
        let ghost s = StoreView { tasks: tasks@, next_id };
        if next_id < 1 {
            return None;
        }
        let mut i: usize = 0;
        while i < tasks.len()
            invariant
                s == (StoreView { tasks: tasks@, next_id }),
                1 <= next_id,
                i <= tasks@.len(),
                forall|a: int, b: int| 0 <= a < b < i ==> tasks@[a].id < tasks@[b].id,
                forall|a: int| 0 <= a < i ==> 0 < #[trigger] tasks@[a].id < next_id,
            decreases tasks@.len() - i,
        {
            let id = tasks[i].id;
            if id <= 0 || id >= next_id {
                return None;
            }
            if i > 0 && tasks[i - 1].id >= id {
                return None;
            }
            proof {
                assert forall|a: int, b: int| 0 <= a < b < i + 1 implies tasks@[a].id
                    < tasks@[b].id by {
                    if b == i && a < i - 1 {
                        assert(tasks@[a].id < tasks@[i - 1].id);
                    }
                }
            }
            i = i + 1;
        }
        Some(TaskStore { tasks, next_id })
    }

    /// Where the task with this identifier stands, if any.
    pub fn find(&self, id: i32) -> (r: Option<usize>)
        requires
            self@.wf(),
        ensures
            match r {
                Some(i) => self@.contains(id) && i == self@.index_of(id),
                None => !self@.contains(id),
            },
    {
        let mut i: usize = 0;
        while i < self.tasks.len()
            invariant
                self@.wf(),
                i <= self.tasks@.len(),
                forall|j: int| 0 <= j < i ==> #[trigger] self.tasks@[j].id != id,
            decreases self.tasks@.len() - i,
        {
            if self.tasks[i].id == id {
                proof {
                    lemma_index_of(self@, i as int);
                }
                return Some(i);
            }
            i = i + 1;
        }
        None
    }

    /// The tasks, in ascending order of identifier.
    pub fn tasks(&self) -> (r: &Vec<Task>)
        ensures
            r@ == self@.tasks,
    {
        &self.tasks
    }

    /// The identifier that the next new task gets.
    pub fn next_id(&self) -> (r: i32)
        ensures
            r == self@.next_id,
    {
        self.next_id
    }

    /// Adds `t` under the next identifier, unless the identifiers are used up.
    pub fn insert_new(&mut self, t: Task) -> (r: Option<i32>)
        requires
            old(self)@.wf(),
        ensures
            final(self)@.wf(),
            match r {
                Some(id) => {
                    &&& old(self)@.next_id < i32::MAX
                    &&& id == old(self)@.next_id
                    &&& final(self)@ == old(self)@.with_created(t)
                },
                None => old(self)@.next_id == i32::MAX && final(self)@ == old(self)@,
            },
    {
        if self.next_id == i32::MAX {
            return None;
        }
        let id = self.next_id;
        let t = Task {
            id,
            text: t.text,
            status: t.status,
            tag: t.tag,
            due_date: t.due_date,
            created_at: t.created_at,
        };
        self.tasks.push(t);
        self.next_id = id + 1;
        Some(id)
    }

    /// Puts `t` back under its own identifier; refused where that identifier
    /// is taken or out of range.
    pub fn insert_with_id(&mut self, t: Task) -> (r: bool)
        requires
            old(self)@.wf(),
        ensures
            final(self)@.wf(),
            r == (0 < t.id < i32::MAX && !old(self)@.contains(t.id)),
            r ==> final(self)@ == old(self)@.with_inserted(t),
            !r ==> final(self)@ == old(self)@,
    {
        if t.id <= 0 || t.id == i32::MAX {
            return false;
        }
        let mut k: usize = 0;
        while k < self.tasks.len() && self.tasks[k].id < t.id
            invariant
                self@.wf(),
                k <= self.tasks@.len(),
                forall|j: int| 0 <= j < k ==> #[trigger] self.tasks@[j].id < t.id,
            decreases self.tasks@.len() - k,
        {
            k = k + 1;
        }
        if k < self.tasks.len() && self.tasks[k].id == t.id {
            proof {
                lemma_index_of(self@, k as int);
            }
            return false;
        }
        proof {
            assert(self@.splits_at(k as int, t.id)) by {
                assert forall|j: int| k <= j < self.tasks@.len() implies #[trigger] self.tasks@[j].id
                    > t.id by {
                    if j > k {
                        assert(self.tasks@[k as int].id < self.tasks@[j].id);
                    }
                }
            }
            lemma_slot(self@, k as int, t.id);
        }
        let id = t.id;
        self.tasks.insert(k, t);
        if id >= self.next_id {
            self.next_id = id + 1;
        }
        true
    }

    /// Takes out the task with this identifier, if there is one.
    pub fn remove(&mut self, id: i32) -> (r: Option<Task>)
        requires
            old(self)@.wf(),
        ensures
            final(self)@.wf(),
            match r {
                Some(t) => {
                    &&& old(self)@.contains(id)
                    &&& t == old(self)@.get(id)
                    &&& final(self)@ == old(self)@.without(id)
                },
                None => !old(self)@.contains(id) && final(self)@ == old(self)@,
            },
    {
        match self.find(id) {
            Some(i) => Some(self.tasks.remove(i)),
            None => None,
        }
    }

    /// Replaces the task with `t`'s identifier by `t`; hands back what it held.
    pub fn replace(&mut self, t: Task) -> (r: Option<Task>)
        requires
            old(self)@.wf(),
        ensures
            final(self)@.wf(),
            match r {
                Some(prev) => {
                    &&& old(self)@.contains(t.id)
                    &&& prev == old(self)@.get(t.id)
                    &&& final(self)@ == old(self)@.with_replaced(t)
                },
                None => !old(self)@.contains(t.id) && final(self)@ == old(self)@,
            },
    {
        match self.find(t.id) {
            Some(i) => {
                let prev = self.tasks[i].snapshot();
                self.tasks.set(i, t);
                Some(prev)
            },
            None => None,
        }
    }
}

} // verus!
