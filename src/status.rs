//! Task status: the closed set of statuses, the wire token of each, and the
//! classifier that reads the first status token of a line.

use vstd::prelude::*;
use crate::text::{chars_of, has_at, str_eq};
use crate::token::{has_token, matches_at, strip_kind, strip_text, TokenKind};

verus! {

/// Lifecycle stage of a task; `NoStatus` marks its absence.
#[derive(Clone, Copy, PartialEq, Eq, Structural, Debug, Hash)]
pub enum TaskStatus {
    NoStatus,
    Todo,
    Wip,
    Review,
}

impl TaskStatus {
    /// The token that stands for the status in text and on the wire.
    pub open spec fn token(self) -> Seq<char> {
        match self {
            TaskStatus::NoStatus => seq!['@', 'n', 'o', 'S', 't', 'a', 't', 'u', 's'],
            TaskStatus::Todo => seq!['@', 't', 'o', 'd', 'o'],
            TaskStatus::Wip => seq!['@', 'w', 'i', 'p'],
            TaskStatus::Review => seq!['@', 'r', 'e', 'v', 'i', 'e', 'w'],
        }
    }

    /// The wire token of the status (`@todo`, `@wip`, `@review`, `@noStatus`).
    pub fn as_token(&self) -> (r: &'static str)
        ensures
            r@ == self.token(),
    {
        match self {
            TaskStatus::NoStatus => {
                let r = "@noStatus";
                proof {
                    reveal_strlit("@noStatus");
                }
                assert(r@ =~= self.token());
                r
            },
            TaskStatus::Todo => {
                let r = "@todo";
                proof {
                    reveal_strlit("@todo");
                }
                assert(r@ =~= self.token());
                r
            },
            TaskStatus::Wip => {
                let r = "@wip";
                proof {
                    reveal_strlit("@wip");
                }
                assert(r@ =~= self.token());
                r
            },
            TaskStatus::Review => {
                let r = "@review";
                proof {
                    reveal_strlit("@review");
                }
                assert(r@ =~= self.token());
                r
            },
        }
    }
}

/// The status whose token starts at position `i` of `s`, or `NoStatus`.
pub open spec fn status_at(s: Seq<char>, i: int) -> TaskStatus {
    if has_at(s, i, TaskStatus::Todo.token()) {
        TaskStatus::Todo
    } else if has_at(s, i, TaskStatus::Wip.token()) {
        TaskStatus::Wip
    } else if has_at(s, i, TaskStatus::Review.token()) {
        TaskStatus::Review
    } else {
        TaskStatus::NoStatus
    }
}

/// The status whose token starts at position `i` of `s`, or `NoStatus`.
pub fn status_at_exec(s: &Vec<char>, i: usize) -> (r: TaskStatus)
    requires
        i <= s@.len(),
    ensures
        r == status_at(s@, i as int),
{
    if matches_at(s, i, TaskStatus::Todo.as_token()) {
        TaskStatus::Todo
    } else if matches_at(s, i, TaskStatus::Wip.as_token()) {
        TaskStatus::Wip
    } else if matches_at(s, i, TaskStatus::Review.as_token()) {
        TaskStatus::Review
    } else {
        TaskStatus::NoStatus
    }
}

/// The status of the first status token in `s[i..]`, or `NoStatus`.
pub open spec fn classify_from(s: Seq<char>, i: int) -> TaskStatus
    decreases s.len() - i,
{
    if i < 0 || i >= s.len() {
        TaskStatus::NoStatus
    } else if status_at(s, i) != TaskStatus::NoStatus {
        status_at(s, i)
    } else {
        classify_from(s, i + 1)
    }
}

/// The status of the leftmost status token of `s`, or `NoStatus`.
pub open spec fn classify_text(s: Seq<char>) -> TaskStatus {
    classify_from(s, 0)
}

/// A terminal colour in which a status is shown.
#[derive(Clone, Copy, PartialEq, Eq, Structural, Debug)]
pub enum TermColor {
    Black,
    Green,
    Red,
    Yellow,
}

impl TaskStatus {
    /// `task` without any status token (removed until none is left, as a
    /// removal can join the text around it into a new one), whitespace runs
    /// collapsed to one space.
    pub fn remove_status_str(task: &str) -> (r: String)
        ensures
            r@ == strip_kind(task@, TokenKind::Status),
            !has_token(r@, TokenKind::Status),
    {
        strip_text(task, TokenKind::Status)
    }

    /// The status of the first of `@todo`, `@wip`, `@review` found left to
    /// right in `task`; `NoStatus` when there is none.
    pub fn classify(task: &str) -> (r: TaskStatus)
        ensures
            r == classify_text(task@),
    {
        let s = chars_of(task);
        let mut i: usize = 0;
        while i < s.len()
            invariant
                i <= s@.len(),
                s@ == task@,
                classify_from(s@, i as int) == classify_from(s@, 0),
            decreases s@.len() - i,
        {
            let st = status_at_exec(&s, i);
            if st != TaskStatus::NoStatus {
                return st;
            }
            i = i + 1;
        }
        TaskStatus::NoStatus
    }

    /// Every status, in the order in which reports show them.
    pub fn all() -> (r: Vec<TaskStatus>)
        ensures
            r@ == seq![TaskStatus::Wip, TaskStatus::Review, TaskStatus::Todo, TaskStatus::NoStatus],
    {
        let r = vec![TaskStatus::Wip, TaskStatus::Review, TaskStatus::Todo, TaskStatus::NoStatus];
        assert(r@ =~= seq![TaskStatus::Wip, TaskStatus::Review, TaskStatus::Todo, TaskStatus::NoStatus]);
        r
    }

    /// The colour in which the status is shown.
    pub fn color(&self) -> (r: TermColor)
        ensures
            r == match self {
                TaskStatus::NoStatus => TermColor::Black,
                TaskStatus::Todo => TermColor::Green,
                TaskStatus::Wip => TermColor::Red,
                TaskStatus::Review => TermColor::Yellow,
            },
    {
        match self {
            TaskStatus::NoStatus => TermColor::Black,
            TaskStatus::Todo => TermColor::Green,
            TaskStatus::Wip => TermColor::Red,
            TaskStatus::Review => TermColor::Yellow,
        }
    }

    /// The status whose wire token is exactly `s`; otherwise the error
    /// `Unknown status: ` followed by `s`.
    pub fn from_token(s: &str) -> (r: Result<TaskStatus, String>)
        ensures
            r matches Ok(st) ==> st.token() == s@,
            r matches Err(e) ==> (forall|st: TaskStatus| st.token() != s@) && e@ == seq![
                'U',
                'n',
                'k',
                'n',
                'o',
                'w',
                'n',
                ' ',
                's',
                't',
                'a',
                't',
                'u',
                's',
                ':',
                ' ',
            ] + s@,
    {
        let all = [TaskStatus::NoStatus, TaskStatus::Todo, TaskStatus::Wip, TaskStatus::Review];
        let mut k: usize = 0;
        while k < 4
            invariant
                k <= 4,
                all@ == seq![TaskStatus::NoStatus, TaskStatus::Todo, TaskStatus::Wip, TaskStatus::Review],
                forall|m: int| 0 <= m < k ==> all@[m].token() != s@,
            decreases 4 - k,
        {
            let st = all[k];
            if str_eq(st.as_token(), s) {
                return Ok(st);
            }
            k = k + 1;
        }
        proof {
            assert forall|st: TaskStatus| st.token() != s@ by {
                match st {
                    TaskStatus::NoStatus => assert(all@[0] == st),
                    TaskStatus::Todo => assert(all@[1] == st),
                    TaskStatus::Wip => assert(all@[2] == st),
                    TaskStatus::Review => assert(all@[3] == st),
                }
            }
        }
        let prefix = "Unknown status: ";
        proof {
            reveal_strlit("Unknown status: ");
        }
        let mut e = String::from_str(prefix);
        e.append(s);
        Err(e)
    }
}

} // verus!
