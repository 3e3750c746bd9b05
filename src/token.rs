//! The three token families found in task lines (status, context, date),
//! the length of the token that starts at a position, and the left-to-right
//! scans that list the tokens of a line and strip them from it.

use vstd::prelude::*;
use crate::status::{status_at, status_at_exec, TaskStatus};
use crate::text::{
    chars_of, collapse_chars, collapse_ws, has_at, is_ws, lemma_collapse_word_origin, no_ws,
    push_char, string_of,
};

verus! {

/// A family of tokens, each recognised by its own pattern.
#[derive(Clone, Copy, PartialEq, Eq, Structural, Debug)]
pub enum TokenKind {
    /// `@todo`, `@wip` or `@review`.
    Status,
    /// `#x` followed by a maximal run of ASCII letters and digits.
    Context,
    /// `@` then one of `d`, `s`, `b`, `v`, then exactly eight digits.
    Date,
}

/// Whether `t` occurs in `s` at position `i`.
pub fn matches_at(s: &Vec<char>, i: usize, t: &str) -> (r: bool)
    requires
        i <= s@.len(),
    ensures
        r == has_at(s@, i as int, t@),
{
    let n = t.unicode_len();
    if n > s.len() - i {
        return false;
    }
    let mut k: usize = 0;
    while k < n
        invariant
            n == t@.len(),
            i + n <= s.len(),
            k <= n,
            forall|j: int| 0 <= j < k ==> s@[i + j] == t@[j],
        decreases n - k,
    {
        if s[i + k] != t.get_char(k) {
            assert(s@.subrange(i as int, i + n)[k as int] != t@[k as int]);
            return false;
        }
        k = k + 1;
    }
    assert(s@.subrange(i as int, i + n) =~= t@);
    true
}

/// A character of `[A-Za-z0-9]`.
pub open spec fn is_word(c: char) -> bool {
    ('a' <= c && c <= 'z') || ('A' <= c && c <= 'Z') || ('0' <= c && c <= '9')
}

/// Whether `c` is one of `[A-Za-z0-9]`.
pub fn is_word_char(c: char) -> (r: bool)
    ensures
        r == is_word(c),
{
    ('a' <= c && c <= 'z') || ('A' <= c && c <= 'Z') || ('0' <= c && c <= '9')
}

/// Whether a context tag (`#x` and one letter or digit) starts at `i`.
pub open spec fn tag_at(s: Seq<char>, i: int) -> bool {
    0 <= i && i + 2 < s.len() && s[i] == '#' && s[i + 1] == 'x' && is_word(s[i + 2])
}

/// Where a context token that has reached `j` ends: at the first character
/// from `j` on that is not a letter or digit.
pub open spec fn context_end(s: Seq<char>, j: int) -> int
    decreases s.len() - j,
{
    if 0 <= j < s.len() && is_word(s[j]) {
        context_end(s, j + 1)
    } else {
        j
    }
}

/// A context token read from `j` ends within the text.
pub proof fn lemma_context_end_bound(s: Seq<char>, j: int)
    requires
        0 <= j <= s.len(),
    ensures
        j <= context_end(s, j) <= s.len(),
    decreases s.len() - j,
{
    if 0 <= j < s.len() && is_word(s[j]) {
        lemma_context_end_bound(s, j + 1);
    }
}

/// One of the letters `d`, `s`, `b`, `v` of a date token.
pub open spec fn is_date_letter(c: char) -> bool {
    c == 'd' || c == 's' || c == 'b' || c == 'v'
}

/// An ASCII digit.
pub open spec fn is_digit(c: char) -> bool {
    '0' <= c && c <= '9'
}

/// Whether a date token (`@`, a date letter, eight digits) starts at `i`.
pub open spec fn date_at(s: Seq<char>, i: int) -> bool {
    &&& 0 <= i
    &&& i + 10 <= s.len()
    &&& s[i] == '@'
    &&& is_date_letter(s[i + 1])
    &&& forall|k: int| 2 <= k < 10 ==> is_digit(#[trigger] s[i + k])
}

/// The length of the token of family `kind` that starts at `i`; 0 if none does.
pub open spec fn token_len(s: Seq<char>, i: int, kind: TokenKind) -> int {
    match kind {
        TokenKind::Status => {
            if status_at(s, i) != TaskStatus::NoStatus {
                status_at(s, i).token().len() as int
            } else {
                0
            }
        },
        TokenKind::Context => {
            if tag_at(s, i) {
                context_end(s, i + 3) - i
            } else {
                0
            }
        },
        TokenKind::Date => {
            if date_at(s, i) {
                10
            } else {
                0
            }
        },
    }
}

/// A token lies within the text.
pub proof fn lemma_token_len_bound(s: Seq<char>, i: int, kind: TokenKind)
    requires
        0 <= i < s.len(),
    ensures
        0 <= token_len(s, i, kind) <= s.len() - i,
{
    if kind == TokenKind::Context && tag_at(s, i) {
        lemma_context_end_bound(s, i + 3);
    }
}

/// A context token read in `p + s` from `p.len() + j` ends where it ends in `s`.
pub proof fn lemma_context_end_shift(p: Seq<char>, s: Seq<char>, j: int)
    requires
        0 <= j,
    ensures
        context_end(p + s, p.len() + j) == p.len() + context_end(s, j),
    decreases s.len() - j,
{
    let x = p + s;
    if 0 <= j < s.len() {
        assert(x[p.len() + j] == s[j]);
    }
    if j + 2 < s.len() {
        assert(x[p.len() + j + 1] == s[j + 1]);
        assert(x[p.len() + j + 2] == s[j + 2]);
    }
    if 0 <= j < s.len() && is_word(s[j]) {
        lemma_context_end_shift(p, s, j + 1);
    }
}

/// Tokens are read forward only: a prefix does not change them.
pub proof fn lemma_token_len_shift(p: Seq<char>, s: Seq<char>, j: int, kind: TokenKind)
    requires
        0 <= j,
    ensures
        token_len(p + s, p.len() + j, kind) == token_len(s, j, kind),
{
    let x = p + s;
    let i = p.len() + j;
    assert forall|t: Seq<char>| #[trigger] has_at(x, i, t) == has_at(s, j, t) by {
        if j + t.len() <= s.len() {
            assert(x.subrange(i, i + t.len()) =~= s.subrange(j, j + t.len()));
        }
    }
    match kind {
        TokenKind::Status => {},
        TokenKind::Context => {
            if j + 2 < s.len() {
                assert(x[i] == s[j]);
                assert(x[i + 1] == s[j + 1]);
                assert(x[i + 2] == s[j + 2]);
            }
            if tag_at(s, j) {
                lemma_context_end_shift(p, s, j + 3);
            }
        },
        TokenKind::Date => {
            if j + 10 <= s.len() {
                assert(x[i] == s[j]);
                assert(x[i + 1] == s[j + 1]);
                assert forall|k: int| 2 <= k < 10 implies #[trigger] x[i + k] == s[j + k] by {}
                if date_at(s, j) {
                    assert forall|k: int| 2 <= k < 10 implies is_digit(#[trigger] x[i + k]) by {
                        assert(x[i + k] == s[j + k]);
                    }
                }
                if date_at(x, i) {
                    assert forall|k: int| 2 <= k < 10 implies is_digit(#[trigger] s[j + k]) by {
                        assert(x[i + k] == s[j + k]);
                    }
                }
            }
        },
    }
}

/// `s[i..]` without the tokens of family `kind`, found left to right.
pub open spec fn strip_from(s: Seq<char>, i: int, kind: TokenKind) -> Seq<char>
    decreases s.len() - i,
{
    if i < 0 || i >= s.len() {
        Seq::empty()
    } else if token_len(s, i, kind) > 0 {
        proof {
            lemma_token_len_bound(s, i, kind);
        }
        strip_from(s, i + token_len(s, i, kind), kind)
    } else {
        seq![s[i]] + strip_from(s, i + 1, kind)
    }
}

/// The tokens of family `kind` in `s[i..]`, left to right, none overlapping.
pub open spec fn tokens_from(s: Seq<char>, i: int, kind: TokenKind) -> Seq<Seq<char>>
    decreases s.len() - i,
{
    if i < 0 || i >= s.len() {
        Seq::empty()
    } else if token_len(s, i, kind) > 0 {
        proof {
            lemma_token_len_bound(s, i, kind);
        }
        seq![s.subrange(i, i + token_len(s, i, kind))] + tokens_from(
            s,
            i + token_len(s, i, kind),
            kind,
        )
    } else {
        tokens_from(s, i + 1, kind)
    }
}

/// Stripping reads `p + s` from `p.len() + j` as it reads `s` from `j`.
pub proof fn lemma_strip_shift(p: Seq<char>, s: Seq<char>, j: int, kind: TokenKind)
    requires
        0 <= j,
    ensures
        strip_from(p + s, p.len() + j, kind) == strip_from(s, j, kind),
    decreases s.len() - j,
{
    if j < s.len() {
        lemma_token_len_shift(p, s, j, kind);
        lemma_token_len_bound(s, j, kind);
        assert((p + s)[p.len() + j] == s[j]);
        if token_len(s, j, kind) > 0 {
            lemma_strip_shift(p, s, j + token_len(s, j, kind), kind);
        } else {
            lemma_strip_shift(p, s, j + 1, kind);
        }
    }
}

/// Where no token starts from `i` on, stripping leaves `s[i..]` as it is.
pub proof fn lemma_strip_without_tokens(s: Seq<char>, i: int, kind: TokenKind)
    requires
        0 <= i <= s.len(),
        forall|j: int| i <= j < s.len() ==> token_len(s, j, kind) == 0,
    ensures
        strip_from(s, i, kind) == s.subrange(i, s.len() as int),
    decreases s.len() - i,
{
    if i < s.len() {
        lemma_strip_without_tokens(s, i + 1, kind);
        assert(s.subrange(i, s.len() as int) =~= seq![s[i]] + s.subrange(i + 1, s.len() as int));
    } else {
        assert(s.subrange(i, s.len() as int) =~= Seq::<char>::empty());
    }
}

/// Stripping never lengthens, and shortens wherever a token starts.
pub proof fn lemma_strip_len(s: Seq<char>, i: int, kind: TokenKind)
    requires
        0 <= i <= s.len(),
    ensures
        strip_from(s, i, kind).len() <= s.len() - i,
        (exists|j: int| i <= j < s.len() && token_len(s, j, kind) > 0) ==> strip_from(
            s,
            i,
            kind,
        ).len() < s.len() - i,
    decreases s.len() - i,
{
    if i < s.len() {
        lemma_token_len_bound(s, i, kind);
        if token_len(s, i, kind) > 0 {
            lemma_strip_len(s, i + token_len(s, i, kind), kind);
        } else {
            lemma_strip_len(s, i + 1, kind);
            if exists|j: int| i <= j < s.len() && token_len(s, j, kind) > 0 {
                let j = choose|j: int| i <= j < s.len() && token_len(s, j, kind) > 0;
                assert(i + 1 <= j);
            }
        }
    }
}

/// The shape of a status token: an `@`, then at least three characters that
/// are neither `@` nor whitespace.
pub proof fn lemma_status_token_shape(st: TaskStatus)
    requires
        st != TaskStatus::NoStatus,
    ensures
        st.token().len() >= 4,
        st.token()[0] == '@',
        no_ws(st.token()),
        forall|k: int| 1 <= k < st.token().len() ==> #[trigger] st.token()[k] != '@',
{
    let t = st.token();
    assert forall|k: int| 0 <= k < t.len() implies !crate::text::is_ws(#[trigger] t[k]) && (k
        > 0 ==> t[k] != '@') by {
        if k == 0 {
        } else if k == 1 {
        } else if k == 2 {
        } else if k == 3 {
        } else if k == 4 {
        } else if k == 5 {
        } else {
        }
    }
}

/// A status token starts at `i` exactly where a status is found at `i`.
pub proof fn lemma_status_len(s: Seq<char>, i: int)
    ensures
        (token_len(s, i, TokenKind::Status) > 0) == (status_at(s, i) != TaskStatus::NoStatus),
{
    if status_at(s, i) != TaskStatus::NoStatus {
        lemma_status_token_shape(status_at(s, i));
    }
}

/// A status token at `i` is exactly a status token of the scan at `i`.
pub proof fn lemma_status_at_token(s: Seq<char>, i: int, st: TaskStatus)
    requires
        st != TaskStatus::NoStatus,
        has_at(s, i, st.token()),
    ensures
        status_at(s, i) != TaskStatus::NoStatus,
{
}

/// Whether a token of family `kind` occurs anywhere in `s`.
pub open spec fn has_token(s: Seq<char>, kind: TokenKind) -> bool {
    exists|i: int| 0 <= i < s.len() && token_len(s, i, kind) > 0
}

/// `s` with its tokens of family `kind` removed again and again, until
/// none is left: removing a token can join the text around it into a new one.
pub open spec fn strip_fix(s: Seq<char>, kind: TokenKind) -> Seq<char>
    decreases s.len(),
{
    if has_token(s, kind) {
        proof {
            lemma_strip_len(s, 0, kind);
        }
        strip_fix(strip_from(s, 0, kind), kind)
    } else {
        s
    }
}

/// `s` without any token of family `kind`, whitespace runs collapsed.
pub open spec fn strip_kind(s: Seq<char>, kind: TokenKind) -> Seq<char> {
    collapse_ws(strip_fix(s, kind))
}

/// The words that show a token of family `kind` where they occur: a status
/// token, `#x` and a letter or digit, or a whole date token.
pub open spec fn token_word(w: Seq<char>, kind: TokenKind) -> bool {
    match kind {
        TokenKind::Status => w == TaskStatus::Todo.token() || w == TaskStatus::Wip.token() || w
            == TaskStatus::Review.token(),
        TokenKind::Context => w.len() == 3 && tag_at(w, 0),
        TokenKind::Date => w.len() == 10 && date_at(w, 0),
    }
}

/// A token word is not empty and holds no whitespace.
pub proof fn lemma_token_word_shape(w: Seq<char>, kind: TokenKind)
    requires
        token_word(w, kind),
    ensures
        w.len() > 0,
        no_ws(w),
{
    match kind {
        TokenKind::Status => {
            if w == TaskStatus::Todo.token() {
                lemma_status_token_shape(TaskStatus::Todo);
            } else if w == TaskStatus::Wip.token() {
                lemma_status_token_shape(TaskStatus::Wip);
            } else {
                lemma_status_token_shape(TaskStatus::Review);
            }
        },
        TokenKind::Context => {
            assert forall|k: int| 0 <= k < w.len() implies !is_ws(#[trigger] w[k]) by {
                if k == 2 {
                    assert(is_word(w[2]));
                }
            }
        },
        TokenKind::Date => {
            assert forall|k: int| 0 <= k < w.len() implies !is_ws(#[trigger] w[k]) by {
                if k >= 2 {
                    assert(is_digit(w[0 + k]));
                }
            }
        },
    }
}

/// A token starts at `j` exactly where a token word occurs at `j`.
pub proof fn lemma_token_word(x: Seq<char>, j: int, kind: TokenKind)
    requires
        0 <= j < x.len(),
    ensures
        token_len(x, j, kind) > 0 <==> exists|w: Seq<char>| token_word(w, kind) && has_at(x, j, w),
{
    match kind {
        TokenKind::Status => {
            lemma_status_len(x, j);
            if token_len(x, j, kind) > 0 {
                let w = status_at(x, j).token();
                assert(token_word(w, kind) && has_at(x, j, w));
            }
            if exists|w: Seq<char>| token_word(w, kind) && has_at(x, j, w) {
                let w = choose|w: Seq<char>| token_word(w, kind) && has_at(x, j, w);
                if w == TaskStatus::Todo.token() {
                    lemma_status_at_token(x, j, TaskStatus::Todo);
                } else if w == TaskStatus::Wip.token() {
                    lemma_status_at_token(x, j, TaskStatus::Wip);
                } else {
                    lemma_status_at_token(x, j, TaskStatus::Review);
                }
            }
        },
        TokenKind::Context => {
            if tag_at(x, j) {
                lemma_context_end_bound(x, j + 3);
                let w = x.subrange(j, j + 3);
                assert(w[0] == x[j] && w[1] == x[j + 1] && w[2] == x[j + 2]);
                assert(token_word(w, kind) && has_at(x, j, w));
            }
            if exists|w: Seq<char>| token_word(w, kind) && has_at(x, j, w) {
                let w = choose|w: Seq<char>| token_word(w, kind) && has_at(x, j, w);
                assert(x.subrange(j, j + 3)[0] == x[j]);
                assert(x.subrange(j, j + 3)[1] == x[j + 1]);
                assert(x.subrange(j, j + 3)[2] == x[j + 2]);
                lemma_context_end_bound(x, j + 3);
            }
        },
        TokenKind::Date => {
            if date_at(x, j) {
                let w = x.subrange(j, j + 10);
                assert forall|k: int| 2 <= k < 10 implies is_digit(#[trigger] w[0 + k]) by {
                    assert(w[k] == x[j + k]);
                }
                assert(w[0] == x[j] && w[1] == x[j + 1]);
                assert(token_word(w, kind) && has_at(x, j, w));
            }
            if exists|w: Seq<char>| token_word(w, kind) && has_at(x, j, w) {
                let w = choose|w: Seq<char>| token_word(w, kind) && has_at(x, j, w);
                assert forall|k: int| 2 <= k < 10 implies is_digit(#[trigger] x[j + k]) by {
                    assert(w[k] == x[j + k]);
                    assert(is_digit(w[0 + k]));
                }
                assert(w[0] == x[j] && w[1] == x[j + 1]);
            }
        },
    }
}

/// Collapsing whitespace creates no token.
pub proof fn lemma_collapse_no_token(y: Seq<char>, kind: TokenKind)
    requires
        !has_token(y, kind),
    ensures
        !has_token(collapse_ws(y), kind),
{
    let c = collapse_ws(y);
    if has_token(c, kind) {
        let j = choose|j: int| 0 <= j < c.len() && token_len(c, j, kind) > 0;
        lemma_token_word(c, j, kind);
        let w = choose|w: Seq<char>| token_word(w, kind) && has_at(c, j, w);
        lemma_token_word_shape(w, kind);
        lemma_collapse_word_origin(y, 0, false, j, w);
        let m = choose|m: int| 0 <= m && has_at(y, m, w);
        lemma_token_word(y, m, kind);
    }
}

/// A part of a text without tokens holds none.
pub proof fn lemma_subrange_no_token(y: Seq<char>, a: int, b: int, kind: TokenKind)
    requires
        0 <= a <= b <= y.len(),
        !has_token(y, kind),
    ensures
        !has_token(y.subrange(a, b), kind),
{
    let c = y.subrange(a, b);
    if has_token(c, kind) {
        let j = choose|j: int| 0 <= j < c.len() && token_len(c, j, kind) > 0;
        lemma_token_word(c, j, kind);
        let w = choose|w: Seq<char>| token_word(w, kind) && has_at(c, j, w);
        assert(y.subrange(a + j, a + j + w.len()) =~= c.subrange(j, j + w.len()));
        lemma_token_word_shape(w, kind);
        lemma_token_word(y, a + j, kind);
    }
}

/// Stripping until no token is left leaves none.
pub proof fn lemma_strip_fix(s: Seq<char>, kind: TokenKind)
    ensures
        !has_token(strip_fix(s, kind), kind),
        !has_token(strip_kind(s, kind), kind),
        strip_fix(s, kind).len() <= s.len(),
        !has_token(s, kind) ==> strip_fix(s, kind) == s,
    decreases s.len(),
{
    if has_token(s, kind) {
        lemma_strip_len(s, 0, kind);
        lemma_strip_fix(strip_from(s, 0, kind), kind);
    }
    lemma_collapse_no_token(strip_fix(s, kind), kind);
}

/// Whether a context tag starts at `i`.
pub fn tag_at_exec(s: &Vec<char>, i: usize) -> (r: bool)
    ensures
        r == tag_at(s@, i as int),
{
    i < s.len() && s.len() - i > 2 && s[i] == '#' && s[i + 1] == 'x' && is_word_char(s[i + 2])
}

/// Where a context token that has reached `j0` ends.
pub fn context_end_exec(s: &Vec<char>, j0: usize) -> (r: usize)
    requires
        j0 <= s@.len(),
    ensures
        r == context_end(s@, j0 as int),
        j0 <= r <= s@.len(),
{
    let mut j = j0;
    loop
        invariant
            j0 <= j <= s@.len(),
            context_end(s@, j as int) == context_end(s@, j0 as int),
        ensures
            j == context_end(s@, j0 as int),
            j0 <= j <= s@.len(),
        decreases s@.len() - j,
    {
        if j < s.len() && is_word_char(s[j]) {
            j = j + 1;
        } else {
            break;
        }
    }
    j
}

/// Whether a date token starts at `i`.
pub fn date_at_exec(s: &Vec<char>, i: usize) -> (r: bool)
    ensures
        r == date_at(s@, i as int),
{
    if i >= s.len() || s.len() - i < 10 {
        return false;
    }
    let l = s[i + 1];
    if s[i] != '@' || !(l == 'd' || l == 's' || l == 'b' || l == 'v') {
        return false;
    }
    let mut k: usize = 2;
    while k < 10
        invariant
            2 <= k <= 10,
            i + 10 <= s.len(),
            forall|m: int| 2 <= m < k ==> is_digit(#[trigger] s@[i + m]),
        decreases 10 - k,
    {
        let c = s[i + k];
        if !('0' <= c && c <= '9') {
            assert(!is_digit(s@[i + k as int]));
            return false;
        }
        k = k + 1;
    }
    true
}

/// The length of the token of family `kind` that starts at `i`; 0 if none does.
pub fn token_len_at(s: &Vec<char>, i: usize, kind: TokenKind) -> (n: usize)
    requires
        i < s@.len(),
    ensures
        n == token_len(s@, i as int, kind),
        i + n <= s@.len(),
{
    proof {
        lemma_token_len_bound(s@, i as int, kind);
    }
    match kind {
        TokenKind::Status => {
            let st = status_at_exec(s, i);
            if st != TaskStatus::NoStatus {
                st.as_token().unicode_len()
            } else {
                0
            }
        },
        TokenKind::Context => {
            if tag_at_exec(s, i) {
                assert(i + 3 <= s.len());
                context_end_exec(s, i + 3) - i
            } else {
                0
            }
        },
        TokenKind::Date => {
            if date_at_exec(s, i) {
                10
            } else {
                0
            }
        },
    }
}

/// `s` without its tokens of family `kind`; whitespace is left as it is.
pub fn strip_raw(s: &Vec<char>, kind: TokenKind) -> (r: Vec<char>)
    ensures
        r@ == strip_from(s@, 0, kind),
{
    let mut r: Vec<char> = Vec::new();
    let mut i: usize = 0;
    while i < s.len()
        invariant
            i <= s@.len(),
            r@ + strip_from(s@, i as int, kind) == strip_from(s@, 0, kind),
        decreases s@.len() - i,
    {
        let n = token_len_at(s, i, kind);
        if n > 0 {
            i = i + n;
        } else {
            let c = s[i];
            assert(r@.push(c) + strip_from(s@, i + 1, kind) =~= r@ + (seq![c] + strip_from(
                s@,
                i + 1,
                kind,
            )));
            r.push(c);
            i = i + 1;
        }
    }
    assert(r@ + strip_from(s@, i as int, kind) =~= r@);
    r
}

/// Whether a token of family `kind` occurs anywhere in `s`.
pub fn contains_token(s: &Vec<char>, kind: TokenKind) -> (r: bool)
    ensures
        r == has_token(s@, kind),
{
    let mut i: usize = 0;
    while i < s.len()
        invariant
            i <= s@.len(),
            forall|j: int| 0 <= j < i ==> token_len(s@, j, kind) == 0,
        decreases s@.len() - i,
    {
        if token_len_at(s, i, kind) > 0 {
            return true;
        }
        i = i + 1;
    }
    false
}

/// The views of a sequence of strings.
pub open spec fn views(v: Seq<String>) -> Seq<Seq<char>> {
    v.map_values(|t: String| t@)
}

/// The string made of `s[from..to]`.
pub fn slice_string(s: &Vec<char>, from: usize, to: usize) -> (r: String)
    requires
        from <= to <= s@.len(),
    ensures
        r@ == s@.subrange(from as int, to as int),
{
    let mut r = String::new();
    let mut k = from;
    while k < to
        invariant
            from <= k <= to <= s@.len(),
            r@ == s@.subrange(from as int, k as int),
        decreases to - k,
    {
        push_char(&mut r, s[k]);
        assert(s@.subrange(from as int, k + 1) =~= s@.subrange(from as int, k as int).push(
            s@[k as int],
        ));
        k = k + 1;
    }
    r
}

/// A copy of each string of `v`.
pub fn clone_strings(v: &Vec<String>) -> (r: Vec<String>)
    ensures
        views(r@) == views(v@),
{
    let mut r: Vec<String> = Vec::new();
    for i in 0..v.len()
        invariant
            views(r@) == views(v@.take(i as int)),
    {
        let ghost prev = r@;
        r.push(v[i].clone());
        assert(views(r@) =~= views(prev).push(v@[i as int]@));
        assert(views(v@.take(i + 1)) =~= views(v@.take(i as int)).push(v@[i as int]@));
    }
    assert(v@.take(v@.len() as int) =~= v@);
    r
}

/// The tokens of family `kind` in `s`, left to right.
pub fn find_tokens(s: &Vec<char>, kind: TokenKind) -> (r: Vec<String>)
    ensures
        views(r@) == tokens_from(s@, 0, kind),
{
    let mut r: Vec<String> = Vec::new();
    let mut i: usize = 0;
    while i < s.len()
        invariant
            i <= s@.len(),
            views(r@) + tokens_from(s@, i as int, kind) == tokens_from(s@, 0, kind),
        decreases s@.len() - i,
    {
        let n = token_len_at(s, i, kind);
        if n > 0 {
            let t = slice_string(s, i, i + n);
            assert(views(r@.push(t)) =~= views(r@).push(t@));
            assert(views(r@).push(t@) + tokens_from(s@, i + n, kind) =~= views(r@) + (seq![t@]
                + tokens_from(s@, i + n, kind)));
            r.push(t);
            i = i + n;
        } else {
            i = i + 1;
        }
    }
    assert(views(r@) + tokens_from(s@, i as int, kind) =~= views(r@));
    r
}

/// `s` without any token of family `kind`, whitespace runs collapsed.
pub fn strip_text(s: &str, kind: TokenKind) -> (r: String)
    ensures
        r@ == strip_kind(s@, kind),
        !has_token(r@, kind),
{
    let mut cur = chars_of(s);
    while contains_token(&cur, kind)
        invariant
            strip_fix(cur@, kind) == strip_fix(s@, kind),
        decreases cur@.len(),
    {
        proof {
            lemma_strip_len(cur@, 0, kind);
        }
        cur = strip_raw(&cur, kind);
    }
    let collapsed = collapse_chars(&cur);
    proof {
        lemma_strip_fix(s@, kind);
    }
    string_of(&collapsed)
}

} // verus!
