//! A task: one bullet line parsed into status, contexts, dates and the
//! description that is left once every token is taken out.

use vstd::prelude::*;
use crate::context::TaskContext;
use crate::dates::{dates_of, opt_dates_view, opt_view, DatesView, TaskDates};
use crate::status::{classify_text, TaskStatus};
use crate::text::{
    chars_of, collapse_chars, collapse_ws, is_collapsed, lemma_collapse_is_collapsed,
    lemma_trim_subrange, push_char, starts_with, starts_with_str, string_of, trim_chars, trim_ws,
};
use crate::token::{
    clone_strings, contains_token, has_token, lemma_collapse_no_token, lemma_strip_fix,
    lemma_strip_len, lemma_strip_without_tokens, lemma_subrange_no_token, lemma_token_len_bound,
    slice_string, strip_from, strip_raw, token_len, tokens_from, views, TokenKind,
};

verus! {

/// One task read from a bullet line of a file.
#[derive(Clone, Debug, PartialEq, Eq, Hash)]
pub struct Task {
    /// The line with its bullet marker, tokens and surplus whitespace removed.
    pub description: String,
    /// The file the task was read from.
    pub project: String,
    pub status: TaskStatus,
    /// Context tags in order of appearance, repeats kept.
    pub contexts: Vec<String>,
    pub dates: Option<TaskDates>,
    /// Set only by the relay server.
    pub starred: bool,
}

/// A task as plain values.
pub struct TaskView {
    pub description: Seq<char>,
    pub project: Seq<char>,
    pub status: TaskStatus,
    pub contexts: Seq<Seq<char>>,
    pub dates: Option<DatesView>,
    pub starred: bool,
}

impl View for Task {
    type V = TaskView;

    open spec fn view(&self) -> TaskView {
        TaskView {
            description: self.description@,
            project: self.project@,
            status: self.status,
            contexts: views(self.contexts@),
            dates: opt_dates_view(self.dates),
            starred: self.starred,
        }
    }
}

/// `s` with its status, context and date tokens removed in one pass each,
/// in that order; whitespace is left as it is.
pub open spec fn strip3(s: Seq<char>) -> Seq<char> {
    strip_from(
        strip_from(strip_from(s, 0, TokenKind::Status), 0, TokenKind::Context),
        0,
        TokenKind::Date,
    )
}

/// The three passes of `strip3` never lengthen a text, and shorten one that
/// holds a token.
pub proof fn lemma_strip3_len(s: Seq<char>)
    ensures
        strip3(s).len() <= s.len(),
        has_any_token(s) ==> strip3(s).len() < s.len(),
{
    let a = strip_from(s, 0, TokenKind::Status);
    let b = strip_from(a, 0, TokenKind::Context);
    lemma_strip_len(s, 0, TokenKind::Status);
    lemma_strip_len(a, 0, TokenKind::Context);
    lemma_strip_len(b, 0, TokenKind::Date);
    lemma_strip_fix(s, TokenKind::Status);
    if !has_token(s, TokenKind::Status) {
        lemma_unstripped(s, TokenKind::Status);
        lemma_unstripped(a, TokenKind::Context);
    }
}

/// Stripping a text without tokens of family `kind` leaves it as it is.
pub proof fn lemma_unstripped(s: Seq<char>, kind: TokenKind)
    ensures
        !has_token(s, kind) ==> strip_from(s, 0, kind) == s,
{
    if !has_token(s, kind) {
        assert forall|j: int| 0 <= j < s.len() implies token_len(s, j, kind) == 0 by {
            lemma_token_len_bound(s, j, kind);
        }
        lemma_strip_without_tokens(s, 0, kind);
        assert(s.subrange(0, s.len() as int) =~= s);
    }
}

/// `s` with its status, context and date tokens removed again and again,
/// until no token of any family is left.
pub open spec fn clean_all(s: Seq<char>) -> Seq<char>
    decreases s.len(),
{
    if has_any_token(s) {
        proof {
            lemma_strip3_len(s);
        }
        clean_all(strip3(s))
    } else {
        s
    }
}

/// `s` without any status, context or date token, whitespace runs collapsed.
pub open spec fn strip_all(s: Seq<char>) -> Seq<char> {
    collapse_ws(clean_all(s))
}

/// Cleaning leaves no token; a text without tokens is left as it is.
pub proof fn lemma_clean_all(s: Seq<char>)
    ensures
        !has_any_token(clean_all(s)),
        !has_any_token(s) ==> clean_all(s) == s,
    decreases s.len(),
{
    if has_any_token(s) {
        lemma_strip3_len(s);
        lemma_clean_all(strip3(s));
    }
}

/// A stripped text holds no token, no whitespace but single spaces.
pub proof fn lemma_strip_all_clean(s: Seq<char>)
    ensures
        !has_any_token(strip_all(s)),
        is_collapsed(strip_all(s)),
{
    let c = clean_all(s);
    lemma_clean_all(s);
    lemma_collapse_no_token(c, TokenKind::Status);
    lemma_collapse_no_token(c, TokenKind::Context);
    lemma_collapse_no_token(c, TokenKind::Date);
    lemma_collapse_is_collapsed(c, 0, false);
}

/// A description holds no token, no whitespace but single spaces, and
/// neither starts nor ends with a space.
pub proof fn lemma_description_clean(line: Seq<char>)
    ensures
        !has_any_token(description_of(line)),
        is_collapsed(description_of(line)),
{
    let s = strip_all(bullet_body(line));
    lemma_strip_all_clean(bullet_body(line));
    lemma_trim_subrange(s);
    let (a, b) = choose|a: int, b: int| 0 <= a <= b <= s.len() && trim_ws(s) == s.subrange(a, b);
    lemma_subrange_no_token(s, a, b, TokenKind::Status);
    lemma_subrange_no_token(s, a, b, TokenKind::Context);
    lemma_subrange_no_token(s, a, b, TokenKind::Date);
    assert forall|i: int| 0 <= i < trim_ws(s).len() implies #[trigger] trim_ws(s)[i] == s[a + i] by {}
}

/// Whether `s` begins with a bullet marker, `- ` or `* `.
pub open spec fn is_bullet(s: Seq<char>) -> bool {
    starts_with(s, seq!['-', ' ']) || starts_with(s, seq!['*', ' '])
}

/// `s` without its bullet marker.
pub open spec fn bullet_body(s: Seq<char>) -> Seq<char> {
    if is_bullet(s) {
        s.skip(2)
    } else {
        s
    }
}

/// The description of a task line: its text without bullet marker and
/// tokens, whitespace runs collapsed and the ends trimmed.
pub open spec fn description_of(line: Seq<char>) -> Seq<char> {
    trim_ws(strip_all(bullet_body(line)))
}

/// The task that `line` of file `project` describes.
pub open spec fn parse_spec(line: Seq<char>, project: Seq<char>) -> TaskView {
    TaskView {
        description: description_of(line),
        project: project,
        status: classify_text(line),
        contexts: tokens_from(line, 0, TokenKind::Context),
        dates: dates_of(line),
        starred: false,
    }
}

/// A task with no status, no context and no date.
pub open spec fn is_flagless(t: TaskView) -> bool {
    t.contexts.len() == 0 && t.status == TaskStatus::NoStatus && t.dates is None
}

/// Whether `s` holds a token of any family.
pub open spec fn has_any_token(s: Seq<char>) -> bool {
    has_token(s, TokenKind::Status) || has_token(s, TokenKind::Context) || has_token(
        s,
        TokenKind::Date,
    )
}

/// Whether `line` begins with a bullet marker, `- ` or `* `.
pub fn is_task_line(line: &str) -> (r: bool)
    ensures
        r == is_bullet(line@),
{
    let dash = "- ";
    let star = "* ";
    proof {
        reveal_strlit("- ");
        reveal_strlit("* ");
        assert(dash@ =~= seq!['-', ' ']);
        assert(star@ =~= seq!['*', ' ']);
    }
    starts_with_str(line, dash) || starts_with_str(line, star)
}

/// `line` without its bullet marker.
fn bullet_body_str(line: &str) -> (r: String)
    ensures
        r@ == bullet_body(line@),
{
    let s = chars_of(line);
    if is_task_line(line) {
        slice_string(&s, 2, s.len())
    } else {
        string_of(&s)
    }
}

/// `d` followed by each of `labels`, one space before each.
pub open spec fn join_labels(d: Seq<char>, labels: Seq<Seq<char>>) -> Seq<char>
    decreases labels.len(),
{
    if labels.len() == 0 {
        d
    } else {
        join_labels(d, labels.drop_last()) + seq![' '] + labels.last()
    }
}

/// The start date of `d`, if any.
pub open spec fn start_of(d: Option<DatesView>) -> Option<Seq<char>> {
    match d {
        Some(v) => v.start,
        None => None,
    }
}

/// The due date of `d`, if any.
pub open spec fn due_of(d: Option<DatesView>) -> Option<Seq<char>> {
    match d {
        Some(v) => v.due,
        None => None,
    }
}

/// The visible date of `d`, if any.
pub open spec fn visible_of(d: Option<DatesView>) -> Option<Seq<char>> {
    match d {
        Some(v) => v.visible,
        None => None,
    }
}

/// `a` when present, else `b`.
pub open spec fn or_else(a: Option<Seq<char>>, b: Option<Seq<char>>) -> Option<Seq<char>> {
    if a is Some {
        a
    } else {
        b
    }
}

/// Task `t` of a file whose template task is `g`: a missing status and
/// missing dates are taken from `g`, and the contexts of `g` are appended.
/// The visible date falls back on the task's own due date before `g`'s
/// visible date.
pub open spec fn inherit_spec(t: TaskView, g: TaskView) -> TaskView {
    let start = or_else(start_of(t.dates), start_of(g.dates));
    let due = or_else(due_of(t.dates), due_of(g.dates));
    let visible = or_else(due_of(t.dates), visible_of(g.dates));
    TaskView {
        status: if t.status == TaskStatus::NoStatus {
            g.status
        } else {
            t.status
        },
        dates: if start is None && due is None && visible is None {
            None
        } else {
            Some(DatesView { start, due, visible })
        },
        contexts: t.contexts + g.contexts,
        ..t
    }
}

/// A copy of `o`.
fn clone_opt(o: &Option<String>) -> (r: Option<String>)
    ensures
        opt_view(r) == opt_view(*o),
{
    match o {
        Some(s) => Some(s.clone()),
        None => None,
    }
}

/// A copy of `a` when present, else of `b`.
fn first_present(a: &Option<String>, b: &Option<String>) -> (r: Option<String>)
    ensures
        opt_view(r) == or_else(opt_view(*a), opt_view(*b)),
{
    if a.is_some() {
        clone_opt(a)
    } else {
        clone_opt(b)
    }
}

/// The start, due and visible dates of `d`, each copied.
fn date_fields(d: &Option<TaskDates>) -> (r: (Option<String>, Option<String>, Option<String>))
    ensures
        opt_view(r.0) == start_of(opt_dates_view(*d)),
        opt_view(r.1) == due_of(opt_dates_view(*d)),
        opt_view(r.2) == visible_of(opt_dates_view(*d)),
{
    match d {
        Some(v) => (clone_opt(&v.start), clone_opt(&v.due), clone_opt(&v.visible)),
        None => (None, None, None),
    }
}

/// The task that `raw_line` of file `project_id` describes.
pub fn parse_task(raw_line: &str, project_id: &str) -> (r: Task)
    ensures
        r@ == parse_spec(raw_line@, project_id@),
{
    Task::from(raw_line, project_id)
}

impl Task {
    /// Parses `task`, a line of file `project`: its status, contexts and dates
    /// are read from its tokens, and its description is what remains.
    pub fn from(task: &str, project: &str) -> (r: Task)
        ensures
            r@ == parse_spec(task@, project@),
            !has_any_token(r.description@),
            is_collapsed(r.description@),
    {
        let status = TaskStatus::classify(task);
        let contexts = TaskContext::extract_contexts(task);
        let dates = TaskDates::extract_dates(task);
        let body = bullet_body_str(task);
        let mut cur = chars_of(body.as_str());
        while Task::has_any_token_chars(&cur)
            invariant
                clean_all(cur@) == clean_all(body@),
            decreases cur@.len(),
        {
            proof {
                lemma_strip3_len(cur@);
            }
            let a = strip_raw(&cur, TokenKind::Status);
            let b = strip_raw(&a, TokenKind::Context);
            cur = strip_raw(&b, TokenKind::Date);
        }
        let trimmed = trim_chars(&collapse_chars(&cur));
        let description = string_of(&trimmed);
        proof {
            lemma_description_clean(task@);
        }
        Task {
            project: String::from_str(project),
            description,
            status,
            contexts,
            dates,
            starred: false,
        }
    }

    /// Whether the task has no status, no context and no date.
    pub fn has_noflags(&self) -> (r: bool)
        ensures
            r == is_flagless(self@),
    {
        self.contexts.len() == 0 && self.status == TaskStatus::NoStatus && self.dates.is_none()
    }

    /// Whether `line` holds a status, context or date token.
    pub fn has_any_token(line: &str) -> (r: bool)
        ensures
            r == has_any_token(line@),
    {
        Task::has_any_token_chars(&chars_of(line))
    }

    /// Whether `s` holds a status, context or date token.
    fn has_any_token_chars(s: &Vec<char>) -> (r: bool)
        ensures
            r == has_any_token(s@),
    {
        contains_token(s, TokenKind::Status) || contains_token(s, TokenKind::Context)
            || contains_token(s, TokenKind::Date)
    }

    /// A copy of the task.
    pub fn cloned(&self) -> (r: Task)
        ensures
            r@ == self@,
    {
        let (start, due, visible) = date_fields(&self.dates);
        let dates = match &self.dates {
            Some(_) => Some(TaskDates { start, due, visible }),
            None => None,
        };
        Task {
            description: self.description.clone(),
            project: self.project.clone(),
            status: self.status,
            contexts: clone_strings(&self.contexts),
            dates,
            starred: self.starred,
        }
    }

    /// The task with the defaults of `template`, the template task of its
    /// file, filled in.
    pub fn inherit(&self, template: &Task) -> (r: Task)
        ensures
            r@ == inherit_spec(self@, template@),
    {
        let status = if self.status == TaskStatus::NoStatus {
            template.status
        } else {
            self.status
        };
        let (own_start, own_due, _) = date_fields(&self.dates);
        let (tpl_start, tpl_due, tpl_visible) = date_fields(&template.dates);
        let start = first_present(&own_start, &tpl_start);
        let due = first_present(&own_due, &tpl_due);
        let visible = first_present(&own_due, &tpl_visible);
        let dates = if start.is_none() && due.is_none() && visible.is_none() {
            None
        } else {
            Some(TaskDates { start, due, visible })
        };
        let mut contexts = clone_strings(&self.contexts);
        let extra = clone_strings(&template.contexts);
        let ghost before = contexts@;
        for i in 0..extra.len()
            invariant
                views(contexts@) == views(before) + views(extra@.take(i as int)),
        {
            let ghost prev = contexts@;
            contexts.push(extra[i].clone());
            assert(views(contexts@) =~= views(prev).push(extra@[i as int]@));
            assert(views(extra@.take(i + 1)) =~= views(extra@.take(i as int)).push(
                extra@[i as int]@,
            ));
            assert(views(contexts@) =~= views(before) + views(extra@.take(i + 1)));
        }
        assert(extra@.take(extra@.len() as int) =~= extra@);
        assert(views(self.contexts@) + views(template.contexts@) =~= views(contexts@));
        Task {
            description: self.description.clone(),
            project: self.project.clone(),
            status,
            contexts,
            dates,
            starred: self.starred,
        }
    }

    /// The description followed by `labels`, one space before each, with
    /// whitespace runs collapsed; `labels` stand for the contexts, as shown.
    pub fn line_with(&self, labels: &Vec<String>) -> (r: String)
        ensures
            r@ == collapse_ws(join_labels(self.description@, views(labels@))),
    {
        let mut line = self.description.clone();
        for i in 0..labels.len()
            invariant
                line@ == join_labels(self.description@, views(labels@.take(i as int))),
        {
            push_char(&mut line, ' ');
            line.append(labels[i].as_str());
            assert(views(labels@.take(i + 1)).drop_last() =~= views(labels@.take(i as int)));
        }
        assert(labels@.take(labels@.len() as int) =~= labels@);
        string_of(&collapse_chars(&chars_of(line.as_str())))
    }

    /// The description followed by the contexts, whitespace runs collapsed.
    pub fn to_line(&self) -> (r: String)
        ensures
            r@ == collapse_ws(join_labels(self.description@, self@.contexts)),
    {
        self.line_with(&self.contexts)
    }

    /// `label`, which stands for the project, then the description, with
    /// whitespace runs collapsed.
    pub fn ctx_line_with(&self, label: &str) -> (r: String)
        ensures
            r@ == collapse_ws(label@ + seq![' '] + self.description@),
    {
        let mut line = String::from_str(label);
        push_char(&mut line, ' ');
        line.append(self.description.as_str());
        assert(line@ =~= label@ + seq![' '] + self.description@);
        string_of(&collapse_chars(&chars_of(line.as_str())))
    }

    /// The project, then the description, with whitespace runs collapsed.
    pub fn ctx_line(&self) -> (r: String)
        ensures
            r@ == collapse_ws(self.project@ + seq![' '] + self.description@),
    {
        self.ctx_line_with(self.project.as_str())
    }
}

} // verus!
