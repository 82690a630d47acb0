//! The command line: a subcommand name followed by its arguments.

use vstd::prelude::*;
use crate::task::str_equals;

verus! {

/// What the user asked for.
pub enum Commands {
    /// Adds a task
    Add { text: String },
    /// Removes a task with a given id
    Remove { id: i32 },
    /// Updates a task with a given id
    Update { id: i32, text: String },
    /// Lists all pending tasks
    List {},
    /// List all tasks
    All {},
    /// List archived tasks
    Archived {},
    /// Sets a task with a given id to Archived
    Archive { id: i32 },
    /// Sets a task with a given id to Done
    Done { id: i32 },
    /// Sets a task with a given id to Undone
    Undone { id: i32 },
    /// Search for a task by its contents
    Search { content: String },
    /// Revert last change
    Undo {},
    /// Redo last change
    Redo {},
}

/// A parsed command line; no subcommand means the pending tasks are listed.
pub struct Cli {
    pub command: Option<Commands>,
}

pub open spec fn is_digit(c: char) -> bool {
    48 <= c as u32 <= 57
}

pub open spec fn is_digits(w: Seq<char>) -> bool {
    w.len() > 0 && forall|i: int| 0 <= i < w.len() ==> is_digit(#[trigger] w[i])
}

/// The number that a string of decimal digits writes.
pub open spec fn digits_value(w: Seq<char>) -> int
    decreases w.len(),
{
    if w.len() == 0 {
        0
    } else {
        digits_value(w.drop_last()) * 10 + (w.last() as u32 - 48)
    }
}

/// The number that `w` writes: decimal digits, with an optional sign in front.
pub open spec fn signed_value(w: Seq<char>) -> Option<int> {
    if w.len() > 0 && w[0] == '-' && is_digits(w.drop_first()) {
        Some(-digits_value(w.drop_first()))
    } else if w.len() > 0 && w[0] == '+' && is_digits(w.drop_first()) {
        Some(digits_value(w.drop_first()))
    } else if is_digits(w) {
        Some(digits_value(w))
    } else {
        None
    }
}

/// The identifier that `w` writes, where it fits in an `i32`.
pub open spec fn id_of(w: Seq<char>) -> Option<i32> {
    match signed_value(w) {
        Some(v) => if i32::MIN <= v <= i32::MAX {
            Some(v as i32)
        } else {
            None
        },
        None => None,
    }
}

proof fn lemma_digits_value_nonneg(w: Seq<char>)
    requires
        forall|i: int| 0 <= i < w.len() ==> is_digit(#[trigger] w[i]),
    ensures
        digits_value(w) >= 0,
    decreases w.len(),
{
    if w.len() > 0 {
        lemma_digits_value_nonneg(w.drop_last());
    }
}

/// The magnitude written by the digits of `w` from `start` on, where it is at
/// most 2^31.
fn magnitude(w: &str, start: usize) -> (r: Option<i64>)
    requires
        start <= w@.len(),
    ensures
        match r {
            Some(v) => is_digits(w@.skip(start as int)) && v == digits_value(w@.skip(start as int))
                && 0 <= v <= 0x8000_0000,
            None => !is_digits(w@.skip(start as int)) || digits_value(w@.skip(start as int))
                > 0x8000_0000,
        },
{
    let n = w.unicode_len();
    if start == n {
        return None;
    }
    let ghost tail = w@.skip(start as int);
    let mut acc: i64 = 0;
    let mut big = false;
    let mut i: usize = start;
    while i < n
        invariant
            n == w@.len(),
            start < n,
            start <= i <= n,
            tail == w@.skip(start as int),
            forall|j: int| start <= j < i ==> is_digit(#[trigger] w@[j]),
            !big ==> acc == digits_value(w@.subrange(start as int, i as int)),
            !big ==> 0 <= acc <= 0x8000_0000,
            big ==> digits_value(w@.subrange(start as int, i as int)) > 0x8000_0000,
        decreases n - i,
    {
        let c = w.get_char(i);
        let d = c as u32;
        if d < 48 || d > 57 {
            assert(tail[i - start] == c);
            return None;
        }
        let ghost prefix = w@.subrange(start as int, i as int);
        assert(w@.subrange(start as int, i + 1).drop_last() == prefix);
        proof {
            assert forall|j: int| 0 <= j < prefix.len() implies is_digit(#[trigger] prefix[j]) by {
                assert(prefix[j] == w@[start + j]);
            }
            lemma_digits_value_nonneg(prefix);
        }
        if !big {
            let next = acc * 10 + (d - 48) as i64;
            if next > 0x8000_0000 {
                big = true;
            } else {
                acc = next;
            }
        }
        i = i + 1;
    }
    assert(w@.subrange(start as int, n as int) == tail);
    assert forall|j: int| 0 <= j < tail.len() implies is_digit(#[trigger] tail[j]) by {
        assert(tail[j] == w@[start + j]);
    }
    if big {
        None
    } else {
        Some(acc)
    }
}

/// Reads an identifier: decimal digits with an optional sign, within `i32`.
pub fn parse_id(w: &str) -> (r: Option<i32>)
    ensures
        r == id_of(w@),
{
    let n = w.unicode_len();
    if n == 0 {
        return None;
    }
    let c = w.get_char(0);
    assert(w@.skip(1) == w@.drop_first());
    assert(w@.skip(0) == w@);
    assert(w@[0] == c);
    if c == '-' || c == '+' {
        assert(!is_digit(w@[0]));
    }
    if c == '-' {
        match magnitude(w, 1) {
            Some(v) => Some((-v) as i32),
            None => None,
        }
    } else if c == '+' {
        match magnitude(w, 1) {
            Some(v) => if v <= 0x7fff_ffff {
                Some(v as i32)
            } else {
                None
            },
            None => None,
        }
    } else {
        match magnitude(w, 0) {
            Some(v) => if v <= 0x7fff_ffff {
                Some(v as i32)
            } else {
                None
            },
            None => None,
        }
    }
}

/// The words of a command line, as character sequences.
pub open spec fn word_views(args: Seq<String>) -> Seq<Seq<char>> {
    args.map_values(|s: String| s@)
}

/// Whether the words `w` ask for `c`.
pub open spec fn describes(w: Seq<Seq<char>>, c: Option<Commands>) -> bool {
    match c {
        None => w.len() == 0,
        Some(cmd) => w.len() > 0 && match cmd {
            Commands::Add { text } => w[0] == "add"@ && w.len() == 2 && text@ == w[1],
            Commands::Remove { id } => w[0] == "remove"@ && w.len() == 2 && id_of(w[1]) == Some(id),
            Commands::Update { id, text } => w[0] == "update"@ && w.len() == 3 && id_of(w[1]) == Some(
                id,
            ) && text@ == w[2],
            Commands::List {  } => w[0] == "list"@ && w.len() == 1,
            Commands::All {  } => w[0] == "all"@ && w.len() == 1,
            Commands::Archived {  } => w[0] == "archived"@ && w.len() == 1,
            Commands::Archive { id } => w[0] == "archive"@ && w.len() == 2 && id_of(w[1]) == Some(id),
            Commands::Done { id } => w[0] == "done"@ && w.len() == 2 && id_of(w[1]) == Some(id),
            Commands::Undone { id } => w[0] == "undone"@ && w.len() == 2 && id_of(w[1]) == Some(id),
            Commands::Search { content } => w[0] == "search"@ && w.len() == 2 && content@ == w[1],
            Commands::Undo {  } => w[0] == "undo"@ && w.len() == 1,
            Commands::Redo {  } => w[0] == "redo"@ && w.len() == 1,
        },
    }
}

/// The identifier in the second word of a command of two words.
fn id_argument(args: &Vec<String>) -> (r: Option<i32>)
    requires
        args@.len() >= 2,
    ensures
        r == id_of(args@[1]@),
{
    parse_id(args[1].as_str())
}

impl Cli {
    /// Parses the words that follow the program's name; `None` where they
    /// ask for nothing this program knows.
    pub fn parse_arguments(args: &Vec<String>) -> (r: Option<Cli>)
        ensures
            match r {
                Some(cli) => describes(word_views(args@), cli.command),
                None => forall|c: Option<Commands>| !describes(word_views(args@), c),
            },
    {
        proof {
            reveal_strlit("add");
            reveal_strlit("remove");
            reveal_strlit("update");
            reveal_strlit("list");
            reveal_strlit("all");
            reveal_strlit("archived");
            reveal_strlit("archive");
            reveal_strlit("done");
            reveal_strlit("undone");
            reveal_strlit("search");
            reveal_strlit("undo");
            reveal_strlit("redo");
        }
        let ghost w = word_views(args@);
        let n = args.len();
        if n == 0 {
            return Some(Cli { command: None });
        }
        let name = args[0].as_str();
        assert(w[0] == name@);
        let command = if str_equals(name, "add") && n == 2 {
            Some(Commands::Add { text: args[1].clone() })
        } else if str_equals(name, "search") && n == 2 {
            Some(Commands::Search { content: args[1].clone() })
        } else if str_equals(name, "update") && n == 3 {
            match id_argument(args) {
                Some(id) => Some(Commands::Update { id, text: args[2].clone() }),
                None => None,
            }
        } else if str_equals(name, "list") && n == 1 {
            Some(Commands::List {  })
        } else if str_equals(name, "all") && n == 1 {
            Some(Commands::All {  })
        } else if str_equals(name, "archived") && n == 1 {
            Some(Commands::Archived {  })
        } else if str_equals(name, "undo") && n == 1 {
            Some(Commands::Undo {  })
        } else if str_equals(name, "redo") && n == 1 {
            Some(Commands::Redo {  })
        } else if n == 2 {
            match id_argument(args) {
                Some(id) => if str_equals(name, "remove") {
                    Some(Commands::Remove { id })
                } else if str_equals(name, "archive") {
                    Some(Commands::Archive { id })
                } else if str_equals(name, "done") {
                    Some(Commands::Done { id })
                } else if str_equals(name, "undone") {
                    Some(Commands::Undone { id })
                } else {
                    None
                },
                None => None,
            }
        } else {
            None
        };
        match command {
            Some(c) => Some(Cli { command: Some(c) }),
            None => None,
        }
    }
}

} // verus!
