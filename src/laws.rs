//! What undo and redo guarantee over whole runs of changes.

use vstd::prelude::*;
use crate::db_handler::{HandlerView, updated};
use crate::history::InverseOp;
use crate::store::{StoreView, lemma_index_of, lemma_slot};
use crate::task::{Task, with_id};

verus! {

/// A change requested of the store.
pub enum Mutation {
    Create(Task),
    Update(i32, Task),
    Delete(i32),
}

/// Whether `m` succeeds on `h`.
pub open spec fn succeeds(h: HandlerView, m: Mutation) -> bool {
    match m {
        Mutation::Create(_) => h.can_create(),
        Mutation::Update(id, _) => h.store.contains(id),
        Mutation::Delete(id) => h.store.contains(id),
    }
}

/// `h` after `m` succeeded on it.
pub open spec fn mutated(h: HandlerView, m: Mutation) -> HandlerView {
    match m {
        Mutation::Create(t) => h.after_create(t),
        Mutation::Update(id, t) => h.after_update(id, t),
        Mutation::Delete(id) => h.after_delete(id),
    }
}

/// Whether every change of `ms`, made in order from `h`, succeeds.
pub open spec fn all_succeed(h: HandlerView, ms: Seq<Mutation>) -> bool
    decreases ms.len(),
{
    ms.len() == 0 || (succeeds(h, ms[0]) && all_succeed(mutated(h, ms[0]), ms.drop_first()))
}

/// `h` after the changes of `ms`, in order.
pub open spec fn run(h: HandlerView, ms: Seq<Mutation>) -> HandlerView
    decreases ms.len(),
{
    if ms.len() == 0 {
        h
    } else {
        run(mutated(h, ms[0]), ms.drop_first())
    }
}

/// `h` after `n` undos.
pub open spec fn undone(h: HandlerView, n: nat) -> HandlerView
    decreases n,
{
    if n == 0 {
        h
    } else {
        undone(h, (n - 1) as nat).after_undo()
    }
}

/// A change that succeeds keeps the store well-formed.
proof fn lemma_mutated_wf(h: HandlerView, m: Mutation)
    requires
        h.wf(),
        succeeds(h, m),
    ensures
        mutated(h, m).wf(),
{
    let s = h.store;
    match m {
        Mutation::Create(t) => {
            let s2 = s.with_created(t);
            assert forall|i: int, j: int| 0 <= i < j < s2.tasks.len() implies s2.tasks[i].id
                < s2.tasks[j].id by {
                if j == s.tasks.len() {
                    assert(0 < s.tasks[i].id < s.next_id);
                }
            }
        },
        Mutation::Update(id, t) => {
            let i = s.index_of(id);
            assert(s.tasks[i].id == id);
            let s2 = s.with_replaced(updated(s.get(id), t));
            assert forall|k: int| 0 <= k < s2.tasks.len() implies 0 < #[trigger] s2.tasks[k].id
                < s2.next_id by {
                assert(0 < s.tasks[k].id < s.next_id);
            }
        },
        Mutation::Delete(id) => {
            let i = s.index_of(id);
            let s2 = s.without(id);
            assert forall|a: int, b: int| 0 <= a < b < s2.tasks.len() implies s2.tasks[a].id
                < s2.tasks[b].id by {
                let a1 = if a < i { a } else { a + 1 };
                let b1 = if b < i { b } else { b + 1 };
                assert(s.tasks[a1].id < s.tasks[b1].id);
            }
            assert forall|k: int| 0 <= k < s2.tasks.len() implies 0 < #[trigger] s2.tasks[k].id
                < s2.next_id by {
                let k1 = if k < i { k } else { k + 1 };
                assert(0 < s.tasks[k1].id < s.next_id);
            }
        },
    }
}

/// A task whose identifier exceeds every stored one belongs at the end.
proof fn lemma_slot_at_end(s: StoreView, id: i32)
    requires
        forall|j: int| 0 <= j < s.tasks.len() ==> #[trigger] s.tasks[j].id < id,
    ensures
        s.slot(id) == s.tasks.len(),
        !s.contains(id),
{
    lemma_slot(s, s.tasks.len() as int, id);
}

/// Taking task `i` out and putting it back gives the store as it was.
proof fn lemma_slot_of_removed(s: StoreView, i: int)
    requires
        s.wf(),
        0 <= i < s.tasks.len(),
    ensures
        s.without(s.tasks[i].id).slot(s.tasks[i].id) == i,
        !s.without(s.tasks[i].id).contains(s.tasks[i].id),
        s.without(s.tasks[i].id).tasks.insert(i, s.tasks[i]) == s.tasks,
{
    let id = s.tasks[i].id;
    lemma_index_of(s, i);
    let s2 = s.without(id);
    assert(s2.splits_at(i, id)) by {
        assert forall|j: int| 0 <= j < i implies #[trigger] s2.tasks[j].id < id by {
            assert(s.tasks[j].id < s.tasks[i].id);
        }
        assert forall|j: int| i <= j < s2.tasks.len() implies #[trigger] s2.tasks[j].id > id by {
            assert(s.tasks[i].id < s.tasks[j + 1].id);
        }
    }
    lemma_slot(s2, i, id);
    assert(s2.tasks.insert(i, s.tasks[i]) =~= s.tasks);
}

/// The inverse filed by a successful change takes the store back to what it
/// was before it, whatever the counter has reached meanwhile.
proof fn lemma_inverse_restores(h: HandlerView, m: Mutation, s: StoreView)
    requires
        h.wf(),
        succeeds(h, m),
        s.tasks == mutated(h, m).store.tasks,
        s.next_id >= mutated(h, m).store.next_id,
        s.wf(),
    ensures
        mutated(h, m).undo_log.last().applies(s),
        mutated(h, m).undo_log.last().applied_to(s).tasks == h.store.tasks,
        mutated(h, m).undo_log.last().applied_to(s).next_id == s.next_id,
{
    let s0 = h.store;
    match m {
        Mutation::Create(t) => {
            let id = s0.next_id;
            let last = s.tasks.len() - 1;
            assert(s.tasks[last] == with_id(t, id));
            lemma_index_of(s, last);
            assert(s.tasks.remove(last) =~= s0.tasks);
        },
        Mutation::Update(id, t) => {
            let i = s0.index_of(id);
            lemma_index_of(s0, i);
            assert(s.tasks[i].id == id);
            lemma_index_of(s, i);
            assert(s.tasks.update(i, s0.tasks[i]) =~= s0.tasks);
        },
        Mutation::Delete(id) => {
            let i = s0.index_of(id);
            lemma_index_of(s0, i);
            lemma_slot_of_removed(s0, i);
            let s2 = s0.without(id);
            assert(s.tasks == s2.tasks);
            assert(s.splits_at(i, id));
            lemma_slot(s, i, id);
            assert(0 < s0.tasks[i].id < s0.next_id);
        },
    }
}

proof fn lemma_undo_wf(h: HandlerView)
    requires
        h.wf(),
    ensures
        h.after_undo().wf(),
{
    if h.undo_log.len() > 0 {
        lemma_op_wf(h.undo_log.last(), h.store);
    }
}

/// An identifier that no task holds has a place among them.
proof fn lemma_slot_exists(s: StoreView, id: i32, k: int)
    requires
        s.wf(),
        !s.contains(id),
        0 <= k <= s.tasks.len(),
        forall|j: int| 0 <= j < k ==> #[trigger] s.tasks[j].id < id,
    ensures
        s.splits_at(s.slot(id), id),
    decreases s.tasks.len() - k,
{
    if k == s.tasks.len() {
        assert(s.splits_at(k, id));
    } else if s.tasks[k].id < id {
        lemma_slot_exists(s, id, k + 1);
    } else {
        assert(s.tasks[k].id != id);
        assert forall|j: int| k <= j < s.tasks.len() implies #[trigger] s.tasks[j].id > id by {
            if j > k {
                assert(s.tasks[k].id < s.tasks[j].id);
            }
        }
        assert(s.splits_at(k, id));
    }
}

/// An operation that can be carried out keeps the store well-formed.
proof fn lemma_op_wf(op: InverseOp, s: StoreView)
    requires
        s.wf(),
    ensures
        op.applies(s) ==> op.applied_to(s).wf(),
{
    if op.applies(s) {
        match op {
            InverseOp::Recreate(t) => {
                lemma_slot_exists(s, t.id, 0);
                let k = s.slot(t.id);
                let s2 = op.applied_to(s);
                assert forall|a: int, b: int| 0 <= a < b < s2.tasks.len() implies s2.tasks[a].id
                    < s2.tasks[b].id by {
                    if a < k && b < k {
                        assert(s.tasks[a].id < s.tasks[b].id);
                    } else if a > k && b > k {
                        assert(s.tasks[a - 1].id < s.tasks[b - 1].id);
                    } else if a < k && b > k {
                        assert(s.tasks[a].id < t.id);
                        assert(s.tasks[b - 1].id > t.id);
                    } else if a == k {
                        assert(s.tasks[b - 1].id > t.id);
                    } else {
                        assert(s.tasks[a].id < t.id);
                    }
                }
                assert forall|j: int| 0 <= j < s2.tasks.len() implies 0
                    < #[trigger] s2.tasks[j].id < s2.next_id by {
                    if j < k {
                        assert(0 < s.tasks[j].id < s.next_id);
                    } else if j > k {
                        assert(0 < s.tasks[j - 1].id < s.next_id);
                    }
                }
            },
            InverseOp::Remove(id) => {
                let i = s.index_of(id);
                let s2 = s.without(id);
                assert forall|a: int, b: int| 0 <= a < b < s2.tasks.len() implies s2.tasks[a].id
                    < s2.tasks[b].id by {
                    let a1 = if a < i { a } else { a + 1 };
                    let b1 = if b < i { b } else { b + 1 };
                    assert(s.tasks[a1].id < s.tasks[b1].id);
                }
                assert forall|k: int| 0 <= k < s2.tasks.len() implies 0
                    < #[trigger] s2.tasks[k].id < s2.next_id by {
                    let k1 = if k < i { k } else { k + 1 };
                    assert(0 < s.tasks[k1].id < s.next_id);
                }
            },
            InverseOp::ReinstateFields(t) => {
                let i = s.index_of(t.id);
                let s2 = s.with_replaced(t);
                assert forall|a: int, b: int| 0 <= a < b < s2.tasks.len() implies s2.tasks[a].id
                    < s2.tasks[b].id by {
                    assert(s.tasks[a].id < s.tasks[b].id);
                }
                assert forall|k: int| 0 <= k < s2.tasks.len() implies 0
                    < #[trigger] s2.tasks[k].id < s2.next_id by {
                    assert(0 < s.tasks[k].id < s.next_id);
                }
            },
        }
    }
}

/// Changes that all succeed, undone one by one from the latest, give back the
/// tasks and the undo log as they were before them; the counter of
/// identifiers does not go back.
proof fn lemma_undo_run(h: HandlerView, ms: Seq<Mutation>)
    requires
        h.wf(),
        all_succeed(h, ms),
    ensures
        undone(run(h, ms), ms.len()).wf(),
        undone(run(h, ms), ms.len()).store.tasks == h.store.tasks,
        undone(run(h, ms), ms.len()).undo_log == h.undo_log,
        undone(run(h, ms), ms.len()).store.next_id >= h.store.next_id,
    decreases ms.len(),
{
    if ms.len() > 0 {
        let m = ms[0];
        let rest = ms.drop_first();
        let h1 = mutated(h, m);
        lemma_mutated_wf(h, m);
        lemma_undo_run(h1, rest);
        let e1 = undone(run(h1, rest), rest.len());
        assert(undone(run(h, ms), ms.len()) == e1.after_undo());
        lemma_inverse_restores(h, m, e1.store);
        lemma_undo_wf(e1);
        assert(h1.undo_log.drop_last() =~= h.undo_log);
    }
}

/// Undo, called once for each change of a run that succeeded, gives back
/// exactly the tasks that were there before the run.
pub proof fn law_undo_reverses_run(h: HandlerView, ms: Seq<Mutation>)
    requires
        h.wf(),
        all_succeed(h, ms),
    ensures
        undone(run(h, ms), ms.len()).store.tasks == h.store.tasks,
{
    lemma_undo_run(h, ms);
}

/// A change that succeeded, then undone, then redone, leaves the tasks as the
/// change alone left them.
pub proof fn law_redo_cancels_undo(h: HandlerView, m: Mutation)
    requires
        h.wf(),
        succeeds(h, m),
    ensures
        mutated(h, m).after_undo().after_redo().store.tasks == mutated(h, m).store.tasks,
{
    let h1 = mutated(h, m);
    lemma_mutated_wf(h, m);
    lemma_inverse_restores(h, m, h1.store);
    let u = h1.after_undo();
    let s0 = h.store;
    match m {
        Mutation::Create(t) => {
            let id = s0.next_id;
            let last = h1.store.tasks.len() - 1;
            lemma_index_of(h1.store, last);
            assert forall|j: int| 0 <= j < u.store.tasks.len() implies #[trigger] u.store.tasks[j].id
                < id by {
                assert(0 < s0.tasks[j].id < s0.next_id);
            }
            lemma_slot_at_end(u.store, id);
            assert(u.store.tasks.insert(u.store.tasks.len() as int, with_id(t, id))
                =~= h1.store.tasks);
        },
        Mutation::Update(id, t) => {
            let i = s0.index_of(id);
            lemma_index_of(s0, i);
            lemma_index_of(h1.store, i);
            lemma_index_of(u.store, i);
            assert(u.store.tasks.update(i, updated(s0.tasks[i], t)) =~= h1.store.tasks);
        },
        Mutation::Delete(id) => {
            let i = s0.index_of(id);
            lemma_index_of(s0, i);
            lemma_index_of(u.store, i);
        },
    }
}

/// Undo with an empty undo log, and redo with an empty redo log, change nothing.
pub proof fn law_empty_logs_change_nothing(h: HandlerView)
    ensures
        h.undo_log.len() == 0 ==> h.after_undo() == h,
        h.redo_log.len() == 0 ==> h.after_redo() == h,
{
}

} // verus!
