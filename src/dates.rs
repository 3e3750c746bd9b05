//! Date tokens (`@s20240101`, `@d…`, `@v…`, `@b…`) and how they resolve into
//! the start, due and visible dates of a task.

use vstd::prelude::*;
use crate::token::{has_token, find_tokens, strip_kind, strip_text, tokens_from, views, TokenKind, date_at};
use crate::text::{chars_of, string_of};

verus! {

/// The dates of a task; at least one of them is present.
#[derive(Clone, Debug, PartialEq, Eq, Hash)]
pub struct TaskDates {
    pub start: Option<String>,
    pub due: Option<String>,
    pub visible: Option<String>,
}

/// The dates of a task as character sequences.
pub struct DatesView {
    pub start: Option<Seq<char>>,
    pub due: Option<Seq<char>>,
    pub visible: Option<Seq<char>>,
}

/// The view of an optional string.
pub open spec fn opt_view(o: Option<String>) -> Option<Seq<char>> {
    match o {
        Some(s) => Some(s@),
        None => None,
    }
}

impl View for TaskDates {
    type V = DatesView;

    open spec fn view(&self) -> DatesView {
        DatesView {
            start: opt_view(self.start),
            due: opt_view(self.due),
            visible: opt_view(self.visible),
        }
    }
}

/// The view of optional dates.
pub open spec fn opt_dates_view(o: Option<TaskDates>) -> Option<DatesView> {
    match o {
        Some(d) => Some(d@),
        None => None,
    }
}

/// Whether `t` is a whole date token.
pub open spec fn is_date_token(t: Seq<char>) -> bool {
    t.len() == 10 && date_at(t, 0)
}

/// The eight digits of the first token in `ts` whose letter is `c`.
pub open spec fn first_date(ts: Seq<Seq<char>>, c: char) -> Option<Seq<char>>
    decreases ts.len(),
{
    if ts.len() == 0 {
        None
    } else if ts[0][1] == c {
        Some(ts[0].subrange(2, 10))
    } else {
        first_date(ts.drop_first(), c)
    }
}

/// The dates that the date tokens of `s` give: `b` sets due and visible and
/// wins over `d` and `v`; `s` alone sets the start; none at all gives `None`.
pub open spec fn dates_of(s: Seq<char>) -> Option<DatesView> {
    let ts = tokens_from(s, 0, TokenKind::Date);
    let start = first_date(ts, 's');
    let both = first_date(ts, 'b');
    let due = if both is Some { both } else { first_date(ts, 'd') };
    let visible = if both is Some { both } else { first_date(ts, 'v') };
    if start is None && due is None && visible is None {
        None
    } else {
        Some(DatesView { start, due, visible })
    }
}

/// Every token that the date scan of a text yields is a whole date token.
pub proof fn lemma_date_tokens_whole(s: Seq<char>, i: int)
    requires
        0 <= i,
    ensures
        forall|k: int|
            0 <= k < tokens_from(s, i, TokenKind::Date).len() ==> is_date_token(
                #[trigger] tokens_from(s, i, TokenKind::Date)[k],
            ),
    decreases s.len() - i,
{
    if i < s.len() {
        let ts = tokens_from(s, i, TokenKind::Date);
        if date_at(s, i) {
            lemma_date_tokens_whole(s, i + 10);
            let t = s.subrange(i, i + 10);
            assert forall|k: int| 2 <= k < 10 implies crate::token::is_digit(#[trigger] t[k]) by {
                assert(t[k] == s[i + k]);
            }
            assert(date_at(t, 0));
            assert(ts == seq![t] + tokens_from(s, i + 10, TokenKind::Date));
            assert forall|k: int| 0 <= k < ts.len() implies is_date_token(#[trigger] ts[k]) by {
                if k > 0 {
                    assert(ts[k] == tokens_from(s, i + 10, TokenKind::Date)[k - 1]);
                }
            }
        } else {
            lemma_date_tokens_whole(s, i + 1);
            assert(ts == tokens_from(s, i + 1, TokenKind::Date));
        }
    }
}

impl TaskDates {
    /// The digits of the first token of `dates` whose letter is `c`.
    fn parse_date(dates: &Vec<String>, c: char) -> (r: Option<String>)
        requires
            forall|k: int| 0 <= k < dates@.len() ==> is_date_token(#[trigger] dates@[k]@),
        ensures
            opt_view(r) == first_date(views(dates@), c),
    {
        let mut k: usize = 0;
        assert(views(dates@).skip(0) =~= views(dates@));
        while k < dates.len()
            invariant
                k <= dates@.len(),
                forall|m: int| 0 <= m < dates@.len() ==> is_date_token(#[trigger] dates@[m]@),
                first_date(views(dates@), c) == first_date(views(dates@).skip(k as int), c),
            decreases dates@.len() - k,
        {
            let t = chars_of(dates[k].as_str());
            assert(views(dates@).skip(k as int)[0] == t@);
            if t[1] == c {
                let mut digits: Vec<char> = Vec::new();
                let mut m: usize = 2;
                while m < 10
                    invariant
                        2 <= m <= 10,
                        t@.len() == 10,
                        digits@ == t@.subrange(2, m as int),
                    decreases 10 - m,
                {
                    digits.push(t[m]);
                    assert(t@.subrange(2, m + 1) =~= t@.subrange(2, m as int).push(t@[m as int]));
                    m = m + 1;
                }
                return Some(string_of(&digits));
            }
            assert(views(dates@).skip(k as int).drop_first() =~= views(dates@).skip(k + 1));
            k = k + 1;
        }
        None
    }

    /// The start, due and visible dates given by the date tokens of `task`.
    pub fn extract_dates(task: &str) -> (r: Option<TaskDates>)
        ensures
            opt_dates_view(r) == dates_of(task@),
    {
        let s = chars_of(task);
        let dates = find_tokens(&s, TokenKind::Date);
        proof {
            lemma_date_tokens_whole(s@, 0);
            assert forall|k: int| 0 <= k < dates@.len() implies is_date_token(
                #[trigger] dates@[k]@,
            ) by {
                assert(views(dates@)[k] == dates@[k]@);
            }
        }
        let start = TaskDates::parse_date(&dates, 's');
        let both = TaskDates::parse_date(&dates, 'b');
        let due = match &both {
            Some(b) => Some(b.clone()),
            None => TaskDates::parse_date(&dates, 'd'),
        };
        let visible = match &both {
            Some(b) => Some(b.clone()),
            None => TaskDates::parse_date(&dates, 'v'),
        };
        if start.is_none() && due.is_none() && visible.is_none() {
            None
        } else {
            Some(TaskDates { start, due, visible })
        }
    }

    /// `task` without any date token (removed until none is left),
    /// whitespace runs collapsed.
    pub fn remove_date(task: &str) -> (r: String)
        ensures
            r@ == strip_kind(task@, TokenKind::Date),
            !has_token(r@, TokenKind::Date),
    {
        strip_text(task, TokenKind::Date)
    }
}

} // verus!
