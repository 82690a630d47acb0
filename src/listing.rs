//! What a listing shows: which tasks, in which order, or which message.

use vstd::prelude::*;
use crate::task::{Task, TaskStatus};

verus! {

broadcast use vstd::seq_lib::group_to_multiset_ensures;

/// Whether `needle` occurs in `hay` as a contiguous run.
pub open spec fn is_infix(needle: Seq<char>, hay: Seq<char>) -> bool {
    exists|k: int|
        0 <= k <= hay.len() - needle.len() && #[trigger] hay.subrange(k, k + needle.len())
            == needle
}

/// The lower-case form of a text, as Unicode defines it.
pub uninterp spec fn lower_of(s: Seq<char>) -> Seq<char>;

/// Relies on `str::to_lowercase`: the result depends on the characters alone.
#[verifier::external_body]
fn lowercase(s: &str) -> (r: String)
    ensures
        r@ == lower_of(s@),
{
    s.to_lowercase()
}

/// Whether `needle` stands in `hay` from position `k` on.
fn occurs_at(hay: &str, needle: &str, k: usize) -> (r: bool)
    requires
        k + needle@.len() <= hay@.len(),
    ensures
        r == (hay@.subrange(k as int, k + needle@.len()) == needle@),
{
    let n = needle.unicode_len();
    let h = hay.unicode_len();
    let mut j: usize = 0;
    while j < n
        invariant
            n == needle@.len(),
            h == hay@.len(),
            k + n <= hay@.len(),
            j <= n,
            hay@.subrange(k as int, k + j) == needle@.subrange(0, j as int),
        decreases n - j,
    {
        if hay.get_char(k + j) != needle.get_char(j) {
            assert(hay@.subrange(k as int, k + n)[j as int] == hay@[k + j]);
            return false;
        }
        assert(hay@.subrange(k as int, k + j + 1) == hay@.subrange(k as int, k + j).push(hay@[k + j]));
        assert(needle@.subrange(0, j + 1) == needle@.subrange(0, j as int).push(needle@[j as int]));
        j = j + 1;
    }
    assert(needle@.subrange(0, n as int) == needle@);
    true
}

/// Whether `needle` occurs in `hay`.
pub fn contains_text(hay: &str, needle: &str) -> (r: bool)
    ensures
        r == is_infix(needle@, hay@),
{
    let h = hay.unicode_len();
    let n = needle.unicode_len();
    if n > h {
        return false;
    }
    let last = h - n;
    let mut k: usize = 0;
    loop
        invariant
            h == hay@.len(),
            n == needle@.len(),
            last == h - n,
            k <= last,
            forall|i: int| 0 <= i < k ==> #[trigger] hay@.subrange(i, i + n) != needle@,
        decreases last - k,
    {
        if occurs_at(hay, needle, k) {
            return true;
        }
        if k == last {
            return false;
        }
        k = k + 1;
    }
}

/// Whether `query` occurs in `text`, neither case counting.
pub fn matches_search(text: &str, query: &str) -> (r: bool)
    ensures
        r == is_infix(lower_of(query@), lower_of(text@)),
{
    let t = lowercase(text);
    let q = lowercase(query);
    contains_text(t.as_str(), q.as_str())
}

/// Which tasks a listing takes.
pub enum TaskFilter {
    /// Those not archived.
    Pending,
    /// All of them.
    Everything,
    /// The archived ones.
    ArchivedOnly,
    /// Those whose text holds this, neither case counting.
    Containing(String),
}

/// Whether the filter `f` takes `t`.
pub open spec fn keeps(f: TaskFilter, t: Task) -> bool {
    match f {
        TaskFilter::Pending => t.status != TaskStatus::Archived,
        TaskFilter::Everything => true,
        TaskFilter::ArchivedOnly => t.status == TaskStatus::Archived,
        TaskFilter::Containing(q) => is_infix(lower_of(q@), lower_of(t.text@)),
    }
}

impl TaskFilter {
    /// Whether this filter takes `t`.
    pub fn keeps(&self, t: &Task) -> (r: bool)
        ensures
            r == keeps(*self, *t),
    {
        match self {
            TaskFilter::Pending => t.status != TaskStatus::Archived,
            TaskFilter::Everything => true,
            TaskFilter::ArchivedOnly => t.status == TaskStatus::Archived,
            TaskFilter::Containing(q) => matches_search(t.text.as_str(), q.as_str()),
        }
    }
}

/// Whether the tasks go from the newest to the oldest.
pub open spec fn newest_first(s: Seq<Task>) -> bool {
    forall|i: int, j: int| 0 <= i < j < s.len() ==> s[i].created_at >= s[j].created_at
}

/// The tasks of `s` created at time `k`, in their order in `s`.
pub open spec fn created_at_time(s: Seq<Task>, k: i64) -> Seq<Task> {
    s.filter(|t: Task| t.created_at == k)
}

/// Inserting `t` in front of every task older than it adds it at the end of
/// the tasks of its own time, and leaves those of other times alone.
proof fn lemma_insert_keeps_ties(before: Seq<Task>, p: int, t: Task, k: i64)
    requires
        0 <= p <= before.len(),
        forall|j: int| p <= j < before.len() ==> #[trigger] before[j].created_at < t.created_at,
    ensures
        created_at_time(before.insert(p, t), k) == if t.created_at == k {
            created_at_time(before, k).push(t)
        } else {
            created_at_time(before, k)
        },
{
    let pred = |x: Task| x.created_at == k;
    let a = before.subrange(0, p);
    let b = before.subrange(p, before.len() as int);
    assert(before == a + b);
    assert(before.insert(p, t) == a.push(t) + b);
    Seq::filter_distributes_over_add(a, b, pred);
    Seq::filter_distributes_over_add(a.push(t), b, pred);
    a.lemma_filter_push(t, pred);
    if t.created_at == k {
        assert(b.all(|x: Task| !pred(x))) by {
            assert forall|j: int| 0 <= j < b.len() implies !pred(#[trigger] b[j]) by {
                assert(b[j] == before[p + j]);
            }
        }
        b.lemma_all_neg_filter_empty(pred);
        assert(b.filter(pred) == Seq::<Task>::empty());
        assert(a.filter(pred).push(t) + b.filter(pred) == a.filter(pred).push(t));
        assert(a.filter(pred) + b.filter(pred) == a.filter(pred));
    }
}

/// Orders the tasks from the newest to the oldest; tasks created at the same
/// time keep their order.
pub fn sort_newest_first(tasks: &mut Vec<Task>)
    ensures
        newest_first(final(tasks)@),
        final(tasks)@.to_multiset() == old(tasks)@.to_multiset(),
        forall|k: i64|
            #[trigger] created_at_time(final(tasks)@, k) == created_at_time(old(tasks)@, k),
{
    let mut r: Vec<Task> = Vec::new();
    let mut i: usize = 0;
    while i < tasks.len()
        invariant
            i <= tasks@.len(),
            newest_first(r@),
            r@.to_multiset() == tasks@.subrange(0, i as int).to_multiset(),
            forall|k: i64|
                #[trigger] created_at_time(r@, k) == created_at_time(
                    tasks@.subrange(0, i as int),
                    k,
                ),
        decreases tasks@.len() - i,
    {
        let t = tasks[i].snapshot();
        let mut p: usize = 0;
        while p < r.len() && r[p].created_at >= t.created_at
            invariant
                p <= r@.len(),
                forall|j: int| 0 <= j < p ==> #[trigger] r@[j].created_at >= t.created_at,
            decreases r@.len() - p,
        {
            p = p + 1;
        }
        let ghost before = r@;
        r.insert(p, t);
        proof {
            assert forall|a: int, b: int| 0 <= a < b < r@.len() implies r@[a].created_at
                >= r@[b].created_at by {
                if b < p {
                } else if a > p {
                    assert(before[a - 1].created_at >= before[b - 1].created_at);
                } else if a == p {
                    assert(before[p as int].created_at < t.created_at);
                    if b - 1 > p {
                        assert(before[p as int].created_at >= before[b - 1].created_at);
                    }
                } else if b == p {
                } else {
                    assert(before[a].created_at >= t.created_at);
                    assert(before[p as int].created_at < t.created_at);
                    if b - 1 > p {
                        assert(before[p as int].created_at >= before[b - 1].created_at);
                    }
                }
            }
            assert(tasks@.subrange(0, i + 1) == tasks@.subrange(0, i as int).push(tasks@[i as int]));
            assert forall|k: i64| #[trigger] created_at_time(r@, k) == created_at_time(
                tasks@.subrange(0, i + 1),
                k,
            ) by {
                assert forall|j: int| p <= j < before.len() implies #[trigger] before[j].created_at
                    < t.created_at by {
                    if j > p {
                        assert(before[p as int].created_at >= before[j].created_at);
                    }
                }
                lemma_insert_keeps_ties(before, p as int, t, k);
                tasks@.subrange(0, i as int).lemma_filter_push(
                    tasks@[i as int],
                    |x: Task| x.created_at == k,
                );
            }
        }
        i = i + 1;
    }
    assert(tasks@.subrange(0, tasks@.len() as int) == tasks@);
    *tasks = r;
}

/// What a listing shows.
pub enum Listing {
    /// The store is empty: a welcome with the first steps.
    Welcome,
    /// No task is undone, and archived tasks were not asked for.
    NothingPending,
    /// These tasks, in the order given.
    Tasks(Vec<Task>),
}

/// Decides what listing `tasks` through `filter` shows.
pub fn listing(tasks: &Vec<Task>, filter: &TaskFilter, show_archived: bool) -> (r: Listing)
    ensures
        tasks@.len() == 0 ==> r is Welcome,
        tasks@.len() > 0 && !show_archived && (forall|i: int|
            0 <= i < tasks@.len() ==> #[trigger] tasks@[i].status != TaskStatus::Undone)
            ==> r is NothingPending,
        (tasks@.len() > 0 && (show_archived || exists|i: int|
            0 <= i < tasks@.len() && #[trigger] tasks@[i].status == TaskStatus::Undone)) ==> (
        match r {
            Listing::Tasks(v) => v@ == tasks@.filter(|t: Task| keeps(*filter, t)),
            _ => false,
        }),
{
    if tasks.len() == 0 {
        return Listing::Welcome;
    }
    let mut any_undone = false;
    let mut i: usize = 0;
    while i < tasks.len()
        invariant
            i <= tasks@.len(),
            any_undone == exists|j: int| 0 <= j < i && #[trigger] tasks@[j].status == TaskStatus::Undone,
        decreases tasks@.len() - i,
    {
        if tasks[i].status == TaskStatus::Undone {
            any_undone = true;
        }
        i = i + 1;
    }
    if !any_undone && !show_archived {
        return Listing::NothingPending;
    }
    let ghost pred = |t: Task| keeps(*filter, t);
    let mut v: Vec<Task> = Vec::new();
    let mut k: usize = 0;
    while k < tasks.len()
        invariant
            k <= tasks@.len(),
            pred == (|t: Task| keeps(*filter, t)),
            v@ == tasks@.subrange(0, k as int).filter(pred),
        decreases tasks@.len() - k,
    {
        proof {
            tasks@.subrange(0, k as int).lemma_filter_push(tasks@[k as int], pred);
            assert(tasks@.subrange(0, k + 1) == tasks@.subrange(0, k as int).push(tasks@[k as int]));
        }
        if filter.keeps(&tasks[k]) {
            v.push(tasks[k].snapshot());
        }
        k = k + 1;
    }
    assert(tasks@.subrange(0, tasks@.len() as int) == tasks@);
    Listing::Tasks(v)
}

} // verus!
