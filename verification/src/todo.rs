//! The to-do item's lifecycle state and the row shape the report renders.

use vstd::prelude::*;
use vstd::string::*;

verus! {

/// The lifecycle state of a to-do item.
#[derive(Debug, Clone, Copy, PartialEq, Eq, Structural)]
pub enum ToDoState {
    NextUp,
    InProgress,
    Review,
    Completed,
    Closed,
    Unknown,
}

/// The state stored under numeric code `n`.
pub open spec fn state_of_code(n: int) -> ToDoState {
    if n == 0 {
        ToDoState::NextUp
    } else if n == 1 {
        ToDoState::InProgress
    } else if n == 2 {
        ToDoState::Review
    } else if n == 3 {
        ToDoState::Completed
    } else if n == 4 {
        ToDoState::Closed
    } else {
        ToDoState::Unknown
    }
}

/// The numeric code a state is stored under.
pub open spec fn code_of_state(s: ToDoState) -> Option<i32> {
    match s {
        ToDoState::NextUp => Some(0i32),
        ToDoState::InProgress => Some(1i32),
        ToDoState::Review => Some(2i32),
        ToDoState::Completed => Some(3i32),
        ToDoState::Closed => Some(4i32),
        ToDoState::Unknown => None,
    }
}

/// The state named by an already lowercased word.
pub open spec fn state_of_name(s: Seq<char>) -> ToDoState {
    if s == "n"@ || s == "next"@ {
        ToDoState::NextUp
    } else if s == "p"@ || s == "progress"@ {
        ToDoState::InProgress
    } else if s == "r"@ || s == "review"@ {
        ToDoState::Review
    } else if s == "c"@ || s == "cp"@ || s == "complete"@ || s == "completed"@ {
        ToDoState::Completed
    } else if s == "cl"@ || s == "close"@ || s == "closed"@ {
        ToDoState::Closed
    } else {
        ToDoState::Unknown
    }
}

/// The label a state displays as.
pub open spec fn display_name_of(s: ToDoState) -> Seq<char> {
    match s {
        ToDoState::NextUp => "Next Up"@,
        ToDoState::InProgress => "In Progress"@,
        ToDoState::Review => "Review"@,
        ToDoState::Completed => "Completed"@,
        ToDoState::Closed => "Closed"@,
        ToDoState::Unknown => "Unknown"@,
    }
}

/// What `str::to_lowercase` returns for a given character sequence.
pub uninterp spec fn lower_of(s: Seq<char>) -> Seq<char>;

/// Relies on `str::to_lowercase`: the result depends on the characters
/// alone.
#[verifier::external_body]
fn lowercase(s: &str) -> (r: String)
    ensures
        r@ == lower_of(s@),
{
    s.to_lowercase()
}

impl ToDoState {
    /// The state stored under numeric code `n`.
    pub fn from_code(n: i32) -> (r: ToDoState)
        ensures
            r == state_of_code(n as int),
    {
        match n {
            0 => ToDoState::NextUp,
            1 => ToDoState::InProgress,
            2 => ToDoState::Review,
            3 => ToDoState::Completed,
            4 => ToDoState::Closed,
            _ => ToDoState::Unknown,
        }
    }

    /// The state named by `s`, compared case-insensitively.
    pub fn from_name(s: &str) -> (r: ToDoState)
        ensures
            r == state_of_name(lower_of(s@)),
    {
        let low = lowercase(s);
        if low == String::from_str("n") || low == String::from_str("next") {
            ToDoState::NextUp
        } else if low == String::from_str("p") || low == String::from_str("progress") {
            ToDoState::InProgress
        } else if low == String::from_str("r") || low == String::from_str("review") {
            ToDoState::Review
        } else if low == String::from_str("c") || low == String::from_str("cp") || low
            == String::from_str("complete") || low == String::from_str("completed") {
            ToDoState::Completed
        } else if low == String::from_str("cl") || low == String::from_str("close") || low
            == String::from_str("closed") {
            ToDoState::Closed
        } else {
            ToDoState::Unknown
        }
    }

    /// The numeric code this state is stored under; `Unknown` has none.
    pub fn code(&self) -> (r: Option<i32>)
        ensures
            r == code_of_state(*self),
    {
        match *self {
            ToDoState::NextUp => Some(0),
            ToDoState::InProgress => Some(1),
            ToDoState::Review => Some(2),
            ToDoState::Completed => Some(3),
            ToDoState::Closed => Some(4),
            ToDoState::Unknown => None,
        }
    }

    /// The label this state displays as.
    pub fn display_name(&self) -> (r: &'static str)
        ensures
            r@ == display_name_of(*self),
    {
        match *self {
            ToDoState::NextUp => "Next Up",
            ToDoState::InProgress => "In Progress",
            ToDoState::Review => "Review",
            ToDoState::Completed => "Completed",
            ToDoState::Closed => "Closed",
            ToDoState::Unknown => "Unknown",
        }
    }
}

/// One to-do item as the report renders it: every cell already a string.
#[derive(Debug)]
pub struct TodoDisplay {
    pub id: String,
    pub title: String,
    pub due: String,
    pub run: String,
    pub state: ToDoState,
}

/// Build the rendered row of one to-do item: the identifier in its compact
/// encoding, the due column, and the elapsed time since creation.
pub fn make_todo_display(
    id: i32,
    title: String,
    due_at: Option<i64>,
    created_at: i64,
    now: i64,
    state: ToDoState,
) -> (r: TodoDisplay)
    requires
        0 <= id,
        -crate::timefmt::TIMESTAMP_BOUND <= created_at <= crate::timefmt::TIMESTAMP_BOUND,
        -crate::timefmt::TIMESTAMP_BOUND <= now <= crate::timefmt::TIMESTAMP_BOUND,
        due_at is Some ==> -crate::timefmt::TIMESTAMP_BOUND <= due_at->Some_0
            <= crate::timefmt::TIMESTAMP_BOUND,
    ensures
        r.id@ == crate::codec::encoding_of(id as int),
        r.title == title,
        r.due@ == crate::timefmt::due_str_of(due_at, now as int),
        r.run@ == crate::timefmt::time_span_str(created_at as int, now as int),
        r.state == state,
{
    TodoDisplay {
        id: crate::codec::get_c_from_charset(id),
        title,
        due: crate::timefmt::get_todo_due_str(due_at, now),
        run: crate::timefmt::get_str_by_time(created_at, now),
        state,
    }
}

} // verus!
