//! The controller: every change to the store files its inverse in the undo
//! log; undo and redo replay the latest entry of one log and file its inverse
//! in the other.
//!
//! Two policies are fixed here. A new change leaves the redo log as it is. An
//! entry that can no longer be carried out is dropped from its log, and the
//! failure is reported as `TaskError::CorruptHistory`.

use vstd::prelude::*;
use crate::history::InverseOp;
use crate::store::{StoreView, TaskStore};
use crate::task::Task;

verus! {

/// Why a request failed.
#[derive(PartialEq, Eq, Structural, Clone, Copy, Debug)]
pub enum TaskError {
    /// No task has the identifier asked for.
    NotFound,
    /// The store could not take the change (its identifiers are used up).
    StorageError,
    /// A logged operation could not be carried out on the store.
    CorruptHistory,
}

/// What an undo or a redo did.
#[derive(PartialEq, Eq, Structural, Clone, Copy, Debug)]
pub enum Replay {
    /// The latest entry of the log was carried out.
    Applied,
    /// The log was empty: nothing was done.
    NothingToReplay,
}

/// The store and both logs, as a value.
pub struct HandlerView {
    pub store: StoreView,
    pub undo_log: Seq<InverseOp>,
    pub redo_log: Seq<InverseOp>,
}

/// `new`'s text, status, tag and due date on `prev`'s identifier and creation time.
pub open spec fn updated(prev: Task, new: Task) -> Task {
    Task {
        id: prev.id,
        text: new.text,
        status: new.status,
        tag: new.tag,
        due_date: new.due_date,
        created_at: prev.created_at,
    }
}

impl HandlerView {
    pub open spec fn wf(self) -> bool {
        self.store.wf()
    }

    pub open spec fn can_create(self) -> bool {
        self.store.next_id < i32::MAX
    }

    /// After creating `t`: it is stored under the next identifier, and the
    /// undo log ends with its removal.
    pub open spec fn after_create(self, t: Task) -> HandlerView {
        HandlerView {
            store: self.store.with_created(t),
            undo_log: self.undo_log.push(InverseOp::Remove(self.store.next_id)),
            redo_log: self.redo_log,
        }
    }

    /// After updating task `id` from `t`: the undo log ends with the task as it was.
    pub open spec fn after_update(self, id: i32, t: Task) -> HandlerView {
        HandlerView {
            store: self.store.with_replaced(updated(self.store.get(id), t)),
            undo_log: self.undo_log.push(InverseOp::ReinstateFields(self.store.get(id))),
            redo_log: self.redo_log,
        }
    }

    /// After deleting task `id`: the undo log ends with the task as it was.
    pub open spec fn after_delete(self, id: i32) -> HandlerView {
        HandlerView {
            store: self.store.without(id),
            undo_log: self.undo_log.push(InverseOp::Recreate(self.store.get(id))),
            redo_log: self.redo_log,
        }
    }

    /// After an undo: the latest undo entry is gone; where it could be carried
    /// out, the store shows it and the redo log ends with its inverse.
    pub open spec fn after_undo(self) -> HandlerView {
        if self.undo_log.len() == 0 {
            self
        } else {
            let op = self.undo_log.last();
            if op.applies(self.store) {
                HandlerView {
                    store: op.applied_to(self.store),
                    undo_log: self.undo_log.drop_last(),
                    redo_log: self.redo_log.push(op.inverse_on(self.store)),
                }
            } else {
                HandlerView {
                    store: self.store,
                    undo_log: self.undo_log.drop_last(),
                    redo_log: self.redo_log,
                }
            }
        }
    }

    /// After a redo: the mirror of `after_undo`, from the redo log to the undo log.
    pub open spec fn after_redo(self) -> HandlerView {
        if self.redo_log.len() == 0 {
            self
        } else {
            let op = self.redo_log.last();
            if op.applies(self.store) {
                HandlerView {
                    store: op.applied_to(self.store),
                    undo_log: self.undo_log.push(op.inverse_on(self.store)),
                    redo_log: self.redo_log.drop_last(),
                }
            } else {
                HandlerView {
                    store: self.store,
                    undo_log: self.undo_log,
                    redo_log: self.redo_log.drop_last(),
                }
            }
        }
    }
}

/// The store of tasks with its undo and redo logs.
pub struct DatabaseHandler {
    store: TaskStore,
    undo_log: Vec<InverseOp>,
    redo_log: Vec<InverseOp>,
}

impl View for DatabaseHandler {
    type V = HandlerView;

    closed spec fn view(&self) -> HandlerView {
        HandlerView { store: self.store@, undo_log: self.undo_log@, redo_log: self.redo_log@ }
    }
}

impl DatabaseHandler {
    /// No tasks, nothing to undo or redo.
    pub fn new_in_memory() -> (r: DatabaseHandler)
        ensures
            r@.wf(),
            r@.store.tasks.len() == 0,
            r@.store.next_id == 1,
            r@.undo_log.len() == 0,
            r@.redo_log.len() == 0,
    {
        DatabaseHandler { store: TaskStore::new(), undo_log: Vec::new(), redo_log: Vec::new() }
    }

    /// A handler over these tasks and logs, where the tasks are in ascending
    /// order of identifier, positive, and below `next_id`.
    pub fn restore(
        tasks: Vec<Task>,
        next_id: i32,
        undo_log: Vec<InverseOp>,
        redo_log: Vec<InverseOp>,
    ) -> (r: Option<DatabaseHandler>)
        ensures
            r is Some <==> (StoreView { tasks: tasks@, next_id }).wf(),
            r is Some ==> r->0@ == (HandlerView {
                store: StoreView { tasks: tasks@, next_id },
                undo_log: undo_log@,
                redo_log: redo_log@,
            }),
    {
        match TaskStore::from_parts(tasks, next_id) {
            Some(store) => Some(DatabaseHandler { store, undo_log, redo_log }),
            None => None,
        }
    }

    /// The identifier that the next new task gets.
    pub fn next_id(&self) -> (r: i32)
        ensures
            r == self@.store.next_id,
    {
        self.store.next_id()
    }

    /// The undo log, oldest entry first.
    pub fn undo_log(&self) -> (r: &Vec<InverseOp>)
        ensures
            r@ == self@.undo_log,
    {
        &self.undo_log
    }

    /// The redo log, oldest entry first.
    pub fn redo_log(&self) -> (r: &Vec<InverseOp>)
        ensures
            r@ == self@.redo_log,
    {
        &self.redo_log
    }

    /// Stores `task` under the next identifier, which it returns; the
    /// identifier `task` carries is not used.
    pub fn create_task(&mut self, task: Task) -> (r: Result<usize, TaskError>)
        requires
            old(self)@.wf(),
        ensures
            final(self)@.wf(),
            match r {
                Ok(id) => {
                    &&& old(self)@.can_create()
                    &&& id == old(self)@.store.next_id
                    &&& final(self)@ == old(self)@.after_create(task)
                },
                Err(e) => {
                    &&& !old(self)@.can_create()
                    &&& e == TaskError::StorageError
                    &&& final(self)@ == old(self)@
                },
            },
    {
        match self.store.insert_new(task) {
            Some(id) => {
                self.undo_log.push(InverseOp::Remove(id));
                Ok(id as usize)
            },
            None => Err(TaskError::StorageError),
        }
    }

    /// Every task, in ascending order of identifier.
    pub fn read_tasks(&self) -> (r: Vec<Task>)
        requires
            self@.wf(),
        ensures
            r@ == self@.store.tasks,
    {
        let tasks = self.store.tasks();
        let mut r: Vec<Task> = Vec::new();
        let mut i: usize = 0;
        while i < tasks.len()
            invariant
                tasks@ == self@.store.tasks,
                i <= tasks@.len(),
                r@ == tasks@.subrange(0, i as int),
            decreases tasks@.len() - i,
        {
            r.push(tasks[i].snapshot());
            assert(tasks@.subrange(0, i + 1) == tasks@.subrange(0, i as int).push(tasks@[i as int]));
            i = i + 1;
        }
        assert(tasks@ == tasks@.subrange(0, tasks@.len() as int));
        r
    }

    /// The task with this identifier, if there is one.
    pub fn read_task(&self, id: i32) -> (r: Option<Task>)
        requires
            self@.wf(),
        ensures
            r == if self@.store.contains(id) {
                Some(self@.store.get(id))
            } else {
                None
            },
    {
        match self.store.find(id) {
            Some(i) => Some(self.store.tasks()[i].snapshot()),
            None => None,
        }
    }

    /// Overwrites the text, status, tag and due date of task `id` with those of
    /// `new_task`; its identifier and creation time stay.
    pub fn update_task(&mut self, id: i32, new_task: &Task) -> (r: Result<(), TaskError>)
        requires
            old(self)@.wf(),
        ensures
            final(self)@.wf(),
            r is Ok <==> old(self)@.store.contains(id),
            r is Ok ==> final(self)@ == old(self)@.after_update(id, *new_task),
            r is Err ==> r == Err::<(), TaskError>(TaskError::NotFound) && final(self)@ == old(self)@,
    {
        match self.store.find(id) {
            Some(i) => {
                let prev = self.store.tasks()[i].snapshot();
                let fresh = new_task.snapshot();
                let t = Task {
                    id: prev.id,
                    text: fresh.text,
                    status: fresh.status,
                    tag: fresh.tag,
                    due_date: fresh.due_date,
                    created_at: prev.created_at,
                };
                proof {
                    crate::store::lemma_index_of(self@.store, i as int);
                }
                let _ = self.store.replace(t);
                self.undo_log.push(InverseOp::ReinstateFields(prev));
                Ok(())
            },
            None => Err(TaskError::NotFound),
        }
    }

    /// Deletes task `id`.
    pub fn delete_task(&mut self, id: i32) -> (r: Result<(), TaskError>)
        requires
            old(self)@.wf(),
        ensures
            final(self)@.wf(),
            r is Ok <==> old(self)@.store.contains(id),
            r is Ok ==> final(self)@ == old(self)@.after_delete(id),
            r is Err ==> r == Err::<(), TaskError>(TaskError::NotFound) && final(self)@ == old(self)@,
    {
        match self.store.remove(id) {
            Some(prev) => {
                self.undo_log.push(InverseOp::Recreate(prev));
                Ok(())
            },
            None => Err(TaskError::NotFound),
        }
    }

    /// Takes back the latest change still in the undo log.
    pub fn undo(&mut self) -> (r: Result<Replay, TaskError>)
        requires
            old(self)@.wf(),
        ensures
            final(self)@.wf(),
            final(self)@ == old(self)@.after_undo(),
            r == if old(self)@.undo_log.len() == 0 {
                Ok::<Replay, TaskError>(Replay::NothingToReplay)
            } else if old(self)@.undo_log.last().applies(old(self)@.store) {
                Ok(Replay::Applied)
            } else {
                Err(TaskError::CorruptHistory)
            },
    {
        match self.undo_log.pop() {
            None => Ok(Replay::NothingToReplay),
            Some(op) => match op.apply(&mut self.store) {
                Some(inv) => {
                    self.redo_log.push(inv);
                    Ok(Replay::Applied)
                },
                None => Err(TaskError::CorruptHistory),
            },
        }
    }

    /// Carries out again the latest change that an undo took back.
    pub fn redo(&mut self) -> (r: Result<Replay, TaskError>)
        requires
            old(self)@.wf(),
        ensures
            final(self)@.wf(),
            final(self)@ == old(self)@.after_redo(),
            r == if old(self)@.redo_log.len() == 0 {
                Ok::<Replay, TaskError>(Replay::NothingToReplay)
            } else if old(self)@.redo_log.last().applies(old(self)@.store) {
                Ok(Replay::Applied)
            } else {
                Err(TaskError::CorruptHistory)
            },
    {
        match self.redo_log.pop() {
            None => Ok(Replay::NothingToReplay),
            Some(op) => match op.apply(&mut self.store) {
                Some(inv) => {
                    self.undo_log.push(inv);
                    Ok(Replay::Applied)
                },
                None => Err(TaskError::CorruptHistory),
            },
        }
    }
}

} // verus!
