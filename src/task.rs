//! Tasks and their status.

use vstd::prelude::*;

verus! {

/// Where a task stands.
#[derive(PartialEq, Eq, Structural, Clone, Copy, Debug)]
pub enum TaskStatus {
    Done,
    Undone,
    Archived,
}

/// The name under which a status is written and read back.
pub open spec fn status_name(s: TaskStatus) -> Seq<char> {
    match s {
        TaskStatus::Done => "Done"@,
        TaskStatus::Undone => "Undone"@,
        TaskStatus::Archived => "Archived"@,
    }
}

/// Character-wise equality of two strings.
pub(crate) fn str_equals(a: &str, b: &str) -> (r: bool)
    ensures
        r == (a@ == b@),
{
    let n = a.unicode_len();
    if n != b.unicode_len() {
        return false;
    }
    let mut i: usize = 0;
    while i < n
        invariant
            n == a@.len(),
            n == b@.len(),
            i <= n,
            a@.subrange(0, i as int) == b@.subrange(0, i as int),
        decreases n - i,
    {
        if a.get_char(i) != b.get_char(i) {
            return false;
        }
        assert(a@.subrange(0, i + 1) == a@.subrange(0, i as int).push(a@[i as int]));
        assert(b@.subrange(0, i + 1) == b@.subrange(0, i as int).push(b@[i as int]));
        i = i + 1;
    }
    assert(a@ == a@.subrange(0, n as int));
    assert(b@ == b@.subrange(0, n as int));
    true
}

impl TaskStatus {
    /// The name of this status.
    pub fn as_str(&self) -> (r: &'static str)
        ensures
            r@ == status_name(*self),
    {
        match self {
            TaskStatus::Done => "Done",
            TaskStatus::Undone => "Undone",
            TaskStatus::Archived => "Archived",
        }
    }

    /// Reads a status back from its name; any other text is no status.
    pub fn from_str(s: &str) -> (r: Option<TaskStatus>)
        ensures
            match r {
                Some(st) => s@ == status_name(st),
                None => forall|st: TaskStatus| s@ != #[trigger] status_name(st),
            },
    {
        if str_equals(s, "Archived") {
            Some(TaskStatus::Archived)
        } else if str_equals(s, "Done") {
            Some(TaskStatus::Done)
        } else if str_equals(s, "Undone") {
            Some(TaskStatus::Undone)
        } else {
            None
        }
    }
}

/// A unit of work.
///
/// `created_at` is a local wall-clock time in microseconds since 1970-01-01 00:00.
#[derive(Clone, Debug, PartialEq)]
pub struct Task {
    pub id: i32,
    pub text: String,
    pub status: TaskStatus,
    pub tag: Option<String>,
    pub due_date: Option<String>,
    pub created_at: i64,
}

/// `t` with its identifier replaced by `id`.
pub open spec fn with_id(t: Task, id: i32) -> Task {
    Task {
        id,
        text: t.text,
        status: t.status,
        tag: t.tag,
        due_date: t.due_date,
        created_at: t.created_at,
    }
}

/// Relies on chrono's `Local::now`, `naive_local` and `timestamp_micros`: the
/// current local time, in microseconds since 1970-01-01 00:00 of that time.
#[verifier::external_body]
fn local_now_micros() -> (r: i64) {
    chrono::Local::now().naive_local().and_utc().timestamp_micros()
}

fn copy_label(o: &Option<String>) -> (r: Option<String>)
    ensures
        r == *o,
{
    match o {
        Some(s) => Some(s.clone()),
        None => None,
    }
}

impl Task {
    /// A task stamped with the current time.
    pub fn new(
        id: i32,
        text: &str,
        status: TaskStatus,
        tag: Option<String>,
        due_date: Option<String>,
    ) -> (r: Task)
        ensures
            r.id == id,
            r.text@ == text@,
            r.status == status,
            r.tag == tag,
            r.due_date == due_date,
    {
        Task { id, text: text.to_owned(), status, tag, due_date, created_at: local_now_micros() }
    }

    /// A field-for-field copy.
    pub fn snapshot(&self) -> (r: Task)
        ensures
            r == *self,
    {
        Task {
            id: self.id,
            text: self.text.clone(),
            status: self.status,
            tag: copy_label(&self.tag),
            due_date: copy_label(&self.due_date),
            created_at: self.created_at,
        }
    }
}

impl Default for Task {
    /// Task 1, empty and undone, created at the start of 1970.
    fn default() -> (r: Task)
        ensures
            r.id == 1,
            r.text@ == Seq::<char>::empty(),
            r.status == TaskStatus::Undone,
            r.tag.is_none(),
            r.due_date.is_none(),
            r.created_at == 0,
    {
        Task {
            id: 1,
            text: String::new(),
            status: TaskStatus::Undone,
            tag: None,
            due_date: None,
            created_at: 0,
        }
    }
}

} // verus!
