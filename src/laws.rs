//! Laws of the token scans and of file parsing, stated over the spec
//! functions that the contracts of the extractors, strippers and file
//! functions use.

use vstd::prelude::*;
use crate::status::{classify_from, classify_text, status_at, TaskStatus};
use crate::filter::TaskFilter;
use crate::project::{
    file_tasks, first_bullet, group_by_status, is_template, of_status, pick_group, pick_plain,
    pick_status, plain_tasks, report_order, template_of, template_tasks,
};
use crate::sort::lemma_filter_map_source;
use crate::task::{
    clean_all, has_any_token, inherit_spec, is_bullet, is_flagless, lemma_clean_all,
    lemma_strip_all_clean, parse_spec, strip_all,
};
use crate::text::{collapse_ws, has_at, lemma_collapse_idempotent};
use crate::token::{
    has_token, lemma_status_at_token, lemma_status_len, lemma_status_token_shape, lemma_strip_fix,
    lemma_strip_shift, lemma_strip_without_tokens, lemma_token_len_shift, strip_fix, strip_from,
    strip_kind, token_len, TokenKind,
};

verus! {

/// No status token starts before a status token that follows a text
/// without status token.
proof fn lemma_no_status_before(a: Seq<char>, y: Seq<char>, i: int)
    requires
        y.len() > 0,
        y[0] == '@',
        0 <= i < a.len(),
        token_len(a, i, TokenKind::Status) == 0,
    ensures
        token_len(a + y, i, TokenKind::Status) == 0,
{
    let x = a + y;
    assert forall|st: TaskStatus| st != TaskStatus::NoStatus implies !has_at(x, i, st.token()) by {
        lemma_status_token_shape(st);
        let t = st.token();
        if has_at(x, i, t) {
            if i + t.len() <= a.len() {
                assert(a.subrange(i, i + t.len()) =~= x.subrange(i, i + t.len()));
                lemma_status_at_token(a, i, st);
            } else {
                let k = a.len() - i;
                assert(x.subrange(i, i + t.len())[k] == x[a.len() as int]);
                assert(x[a.len() as int] == y[0]);
                assert(t[k] != '@');
            }
        }
    }
    assert(!has_at(x, i, TaskStatus::Todo.token()));
    assert(!has_at(x, i, TaskStatus::Wip.token()));
    assert(!has_at(x, i, TaskStatus::Review.token()));
}

/// Where no status token starts from `i` on, no status is found from `i` on.
proof fn lemma_classify_without_tokens(s: Seq<char>, i: int)
    requires
        0 <= i,
        forall|j: int| i <= j < s.len() ==> token_len(s, j, TokenKind::Status) == 0,
    ensures
        classify_from(s, i) == TaskStatus::NoStatus,
    decreases s.len() - i,
{
    if i < s.len() {
        lemma_status_len(s, i);
        lemma_classify_without_tokens(s, i + 1);
    }
}

/// A text holding no status token has status `NoStatus`, and stripping the
/// status tokens from it only collapses its whitespace.
pub proof fn law_no_status_token(s: Seq<char>)
    requires
        !has_token(s, TokenKind::Status),
    ensures
        classify_text(s) == TaskStatus::NoStatus,
        strip_kind(s, TokenKind::Status) == collapse_ws(s),
{
    lemma_classify_without_tokens(s, 0);
    lemma_strip_fix(s, TokenKind::Status);
}

/// A text that holds exactly one status token, `a + token + b`, has that
/// token's status; stripping status tokens from it leaves none, and gives
/// what stripping gives for `a + b`: `a + b` with its whitespace collapsed
/// unless `a + b` itself spells a status token.
pub proof fn law_single_status_token(a: Seq<char>, st: TaskStatus, b: Seq<char>)
    requires
        st != TaskStatus::NoStatus,
        !has_token(a, TokenKind::Status),
        !has_token(b, TokenKind::Status),
    ensures
        classify_text(a + st.token() + b) == st,
        !has_token(strip_kind(a + st.token() + b, TokenKind::Status), TokenKind::Status),
        strip_kind(a + st.token() + b, TokenKind::Status) == strip_kind(a + b, TokenKind::Status),
        !has_token(a + b, TokenKind::Status) ==> strip_kind(a + st.token() + b, TokenKind::Status)
            == collapse_ws(a + b),
{
    let t = st.token();
    let y = t + b;
    let x = a + y;
    assert(a + st.token() + b =~= x);
    lemma_status_token_shape(st);
    assert(y[0] == '@');
    assert forall|i: int| 0 <= i < a.len() implies token_len(x, i, TokenKind::Status) == 0 by {
        lemma_no_status_before(a, y, i);
    }
    // the token itself
    lemma_token_len_shift(a, y, 0, TokenKind::Status);
    assert(y.subrange(0, t.len() as int) =~= t);
    lemma_status_at_token(y, 0, st);
    assert(status_at(y, 0) == st) by {
        assert(y[1] == t[1]);
        assert(y[2] == t[2]);
    }
    assert(token_len(x, a.len() as int, TokenKind::Status) == t.len());
    // classification
    assert forall|i: int| 0 <= i <= a.len() implies classify_from(x, i) == st by {
        lemma_classify_prefix(x, a.len() as int, i);
    }
    // stripping
    assert(x.subrange(0, a.len() as int) =~= a);
    lemma_strip_prefix(x, a, a.len() as int, 0);
    lemma_strip_shift(a + t, b, 0, TokenKind::Status);
    assert((a + t) + b =~= x);
    lemma_strip_without_tokens(b, 0, TokenKind::Status);
    assert(b.subrange(0, b.len() as int) =~= b);
    assert(a.subrange(0, a.len() as int) =~= a);
    assert(strip_from(x, 0, TokenKind::Status) == a + b);
    assert(has_token(x, TokenKind::Status));
    lemma_strip_fix(x, TokenKind::Status);
    lemma_strip_fix(a + b, TokenKind::Status);
}

/// Where no status token starts before `k`, the status found from `i <= k`
/// is the one found from `k`.
proof fn lemma_classify_prefix(x: Seq<char>, k: int, i: int)
    requires
        0 <= i <= k <= x.len(),
        forall|j: int| 0 <= j < k ==> token_len(x, j, TokenKind::Status) == 0,
    ensures
        classify_from(x, i) == classify_from(x, k),
    decreases k - i,
{
    if i < k {
        lemma_status_len(x, i);
        lemma_classify_prefix(x, k, i + 1);
    }
}

/// Where no status token starts before `k`, stripping from `i <= k` keeps
/// `x[i..k]` and goes on from `k`.
proof fn lemma_strip_prefix(x: Seq<char>, a: Seq<char>, k: int, i: int)
    requires
        0 <= i <= k <= x.len(),
        a.len() == k,
        x.subrange(0, k) == a,
        forall|j: int| 0 <= j < k ==> token_len(x, j, TokenKind::Status) == 0,
    ensures
        strip_from(x, i, TokenKind::Status) == a.subrange(i, k) + strip_from(
            x,
            k,
            TokenKind::Status,
        ),
    decreases k - i,
{
    if i < k {
        lemma_strip_prefix(x, a, k, i + 1);
        assert(x[i] == a[i]);
        assert(a.subrange(i, k) =~= seq![a[i]] + a.subrange(i + 1, k));
    } else {
        assert(a.subrange(k, k) =~= Seq::<char>::empty());
    }
}

/// Stripping the tokens of one family leaves none of them, so stripping a
/// second time changes nothing.
pub proof fn law_strip_idempotent(s: Seq<char>, kind: TokenKind)
    ensures
        !has_token(strip_kind(s, kind), kind),
        strip_kind(strip_kind(s, kind), kind) == strip_kind(s, kind),
{
    let f = strip_fix(s, kind);
    lemma_strip_fix(s, kind);
    lemma_strip_fix(strip_kind(s, kind), kind);
    lemma_collapse_idempotent(f);
}

/// Stripping status, context and date tokens leaves none of any family, so
/// stripping a second time changes nothing.
pub proof fn law_strip_all_idempotent(s: Seq<char>)
    ensures
        !has_any_token(strip_all(s)),
        strip_all(strip_all(s)) == strip_all(s),
{
    let y = strip_all(s);
    lemma_strip_all_clean(s);
    lemma_clean_all(y);
    lemma_collapse_idempotent(clean_all(s));
}

/// A line appended after the others changes the first bullet line only
/// when there was none.
proof fn lemma_first_bullet_push(lines: Seq<Seq<char>>, l: Seq<char>)
    requires
        is_bullet(l),
    ensures
        first_bullet(lines.push(l)) == match first_bullet(lines) {
            Some(b) => Some(b),
            None => Some(l),
        },
    decreases lines.len(),
{
    if lines.len() > 0 {
        assert(lines.push(l)[0] == lines[0]);
        if !is_bullet(lines[0]) {
            assert(lines.push(l).drop_first() =~= lines.drop_first().push(l));
            lemma_first_bullet_push(lines.drop_first(), l);
        }
    } else {
        assert(lines.push(l)[0] == l);
    }
}

/// A bullet line without status, context or date, appended to a file, adds
/// no task when the file has no template task, and adds that line's task,
/// with the template's defaults, when it has one.
pub proof fn law_flagless_line(
    file: Seq<char>,
    lines: Seq<Seq<char>>,
    l: Seq<char>,
    f: TaskFilter,
)
    requires
        is_bullet(l),
        !is_template(l),
        is_flagless(parse_spec(l, file)),
    ensures
        template_of(file, lines) is None ==> file_tasks(file, lines.push(l), f) == file_tasks(
            file,
            lines,
            f,
        ),
        template_of(file, lines) matches Some(g) ==> file_tasks(file, lines.push(l), f)
            == file_tasks(file, lines, f).push(inherit_spec(parse_spec(l, file), g)),
{
    lemma_first_bullet_push(lines, l);
    assert(template_of(file, lines.push(l)) == template_of(file, lines));
    assert(lines.push(l).drop_last() =~= lines);
    assert(lines.push(l).last() == l);
    match template_of(file, lines) {
        Some(g) => {
            assert(template_tasks(file, lines.push(l), g) =~= template_tasks(file, lines, g).push(
                inherit_spec(parse_spec(l, file), g),
            ));
        },
        None => {
            assert(!f.keeps_spec(parse_spec(l, file)));
            assert(plain_tasks(file, lines.push(l), f) =~= plain_tasks(file, lines, f));
        },
    }
}

/// With statuses asked for, every status group of the tasks of a file
/// without template task has one of those statuses.
pub proof fn law_status_filter(file: Seq<char>, lines: Seq<Seq<char>>, f: TaskFilter)
    requires
        template_of(file, lines) is None,
        f.statuses@.len() > 0,
    ensures
        forall|i: int|
            0 <= i < group_by_status(file_tasks(file, lines, f)).len() ==> f.statuses@.contains(
                (#[trigger] group_by_status(file_tasks(file, lines, f))[i]).0,
            ),
{
    let ts = file_tasks(file, lines, f);
    let gs = group_by_status(ts);
    assert forall|i: int| 0 <= i < gs.len() implies f.statuses@.contains(
        (#[trigger] gs[i]).0,
    ) by {
        lemma_filter_map_source(report_order(), pick_group(ts), i);
        let k = choose|k: int|
            0 <= k < report_order().len() && pick_group(ts)(report_order()[k]) == Some(gs[i]);
        let st = report_order()[k];
        assert(of_status(ts, st).len() > 0);
        lemma_filter_map_source(ts, pick_status(st), 0);
        let m = choose|m: int| 0 <= m < ts.len() && pick_status(st)(ts[m]) == Some(
            of_status(ts, st)[0],
        );
        lemma_filter_map_source(lines, pick_plain(file, f), m);
    }
}

} // verus!
