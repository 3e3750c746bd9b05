//! Character-level helpers shared by every token family: whitespace
//! collapsing, conversion between strings and character vectors, and
//! lexicographic order on character sequences.

use vstd::prelude::*;

verus! {

/// The Unicode `White_Space` characters: the class that `\s` denotes.
pub open spec fn is_ws(c: char) -> bool {
    let u = c as u32;
    (9 <= u && u <= 13) || u == 32 || u == 0x85 || u == 0xA0 || u == 0x1680 || (0x2000 <= u
        && u <= 0x200A) || u == 0x2028 || u == 0x2029 || u == 0x202F || u == 0x205F || u == 0x3000
}

/// Whether `c` is whitespace.
pub fn is_ws_char(c: char) -> (r: bool)
    ensures
        r == is_ws(c),
{
    let u = c as u32;
    (9 <= u && u <= 13) || u == 32 || u == 0x85 || u == 0xA0 || u == 0x1680 || (0x2000 <= u
        && u <= 0x200A) || u == 0x2028 || u == 0x2029 || u == 0x202F || u == 0x205F || u == 0x3000
}

/// What `s[i..]` turns into when every maximal run of whitespace becomes a
/// single space; `in_run` tells whether `s[i - 1]` was whitespace already
/// written out as that space.
pub open spec fn collapse_from(s: Seq<char>, i: int, in_run: bool) -> Seq<char>
    decreases s.len() - i,
{
    if i < 0 || i >= s.len() {
        Seq::empty()
    } else if is_ws(s[i]) {
        if in_run {
            collapse_from(s, i + 1, true)
        } else {
            seq![' '] + collapse_from(s, i + 1, true)
        }
    } else {
        seq![s[i]] + collapse_from(s, i + 1, false)
    }
}

/// `s` with every maximal run of whitespace replaced by one space.
pub open spec fn collapse_ws(s: Seq<char>) -> Seq<char> {
    collapse_from(s, 0, false)
}

/// Whether two strings hold the same characters.
pub fn str_eq(a: &str, b: &str) -> (r: bool)
    ensures
        r == (a@ == b@),
{
    let n = a.unicode_len();
    if n != b.unicode_len() {
        return false;
    }
    let mut k: usize = 0;
    while k < n
        invariant
            n == a@.len(),
            n == b@.len(),
            k <= n,
            forall|j: int| 0 <= j < k ==> a@[j] == b@[j],
        decreases n - k,
    {
        if a.get_char(k) != b.get_char(k) {
            return false;
        }
        k = k + 1;
    }
    assert(a@ =~= b@);
    true
}

/// Whether `t` occurs in `s` at position `i`.
pub open spec fn has_at(s: Seq<char>, i: int, t: Seq<char>) -> bool {
    0 <= i && i + t.len() <= s.len() && s.subrange(i, i + t.len()) == t
}

/// Whether `w` holds no whitespace.
pub open spec fn no_ws(w: Seq<char>) -> bool {
    forall|k: int| 0 <= k < w.len() ==> !is_ws(#[trigger] w[k])
}

/// A word without whitespace at the start of a collapse from a position
/// not inside a whitespace run stands at that position of the text.
pub proof fn lemma_collapse_prefix_word(y: Seq<char>, i: int, w: Seq<char>)
    requires
        0 <= i <= y.len(),
        no_ws(w),
        has_at(collapse_from(y, i, false), 0, w),
    ensures
        has_at(y, i, w),
    decreases w.len(),
{
    let c = collapse_from(y, i, false);
    if w.len() > 0 {
        assert(c[0] == w[0]);
        assert(!is_ws(w[0]));
        assert(i < y.len());
        assert(!is_ws(y[i]));
        let rest = collapse_from(y, i + 1, false);
        assert(c == seq![y[i]] + rest);
        let w1 = w.drop_first();
        assert(rest.subrange(0, w1.len() as int) =~= c.subrange(1, w.len() as int));
        assert(c.subrange(1, w.len() as int) =~= w1);
        lemma_collapse_prefix_word(y, i + 1, w1);
        assert(y.subrange(i, i + w.len()) =~= seq![y[i]] + y.subrange(i + 1, i + 1 + w1.len()));
        assert(w =~= seq![w[0]] + w1);
    } else {
        assert(y.subrange(i, i) =~= w);
    }
}

/// A word without whitespace found in a collapsed text is found in the text.
pub proof fn lemma_collapse_word_origin(y: Seq<char>, i: int, in_run: bool, j: int, w: Seq<char>)
    requires
        0 <= i,
        w.len() > 0,
        no_ws(w),
        has_at(collapse_from(y, i, in_run), j, w),
    ensures
        exists|m: int| i <= m && has_at(y, m, w),
    decreases y.len() - i,
{
    let c = collapse_from(y, i, in_run);
    if i < y.len() {
        if is_ws(y[i]) {
            if in_run {
                lemma_collapse_word_origin(y, i + 1, true, j, w);
            } else {
                let rest = collapse_from(y, i + 1, true);
                assert(c == seq![' '] + rest);
                if j == 0 {
                    assert(c[0] == w[0]);
                    assert(!is_ws(w[0]));
                } else {
                    assert(rest.subrange(j - 1, j - 1 + w.len()) =~= c.subrange(j, j + w.len()));
                    lemma_collapse_word_origin(y, i + 1, true, j - 1, w);
                }
            }
        } else {
            let rest = collapse_from(y, i + 1, false);
            assert(c == seq![y[i]] + rest);
            if j == 0 {
                assert(c.subrange(0, w.len() as int) =~= c.subrange(0, w.len() as int));
                assert(c =~= collapse_from(y, i, false));
                lemma_collapse_prefix_word(y, i, w);
            } else {
                assert(rest.subrange(j - 1, j - 1 + w.len()) =~= c.subrange(j, j + w.len()));
                lemma_collapse_word_origin(y, i + 1, false, j - 1, w);
            }
        }
    }
}

/// Collapsing reads `p + s` from `p.len() + i` as it reads `s` from `i`.
pub proof fn lemma_collapse_shift(p: Seq<char>, s: Seq<char>, i: int, in_run: bool)
    requires
        0 <= i,
    ensures
        collapse_from(p + s, p.len() + i, in_run) == collapse_from(s, i, in_run),
    decreases s.len() - i,
{
    if i < s.len() {
        assert((p + s)[p.len() + i] == s[i]);
        lemma_collapse_shift(p, s, i + 1, true);
        lemma_collapse_shift(p, s, i + 1, false);
    }
}

/// Collapsing never lengthens.
pub proof fn lemma_collapse_len(s: Seq<char>, i: int, in_run: bool)
    requires
        0 <= i <= s.len(),
    ensures
        collapse_from(s, i, in_run).len() <= s.len() - i,
    decreases s.len() - i,
{
    if i < s.len() {
        lemma_collapse_len(s, i + 1, true);
        lemma_collapse_len(s, i + 1, false);
    }
}

/// A collapsed text is left as it is by a second collapse.
pub proof fn lemma_collapse_from_idempotent(s: Seq<char>, i: int, in_run: bool)
    requires
        0 <= i,
    ensures
        collapse_from(collapse_from(s, i, in_run), 0, in_run) == collapse_from(s, i, in_run),
    decreases s.len() - i,
{
    if i < s.len() {
        lemma_collapse_from_idempotent(s, i + 1, true);
        lemma_collapse_from_idempotent(s, i + 1, false);
        if is_ws(s[i]) {
            if !in_run {
                let rest = collapse_from(s, i + 1, true);
                lemma_collapse_shift(seq![' '], rest, 0, true);
                assert(collapse_from(seq![' '] + rest, 0, false) == seq![' '] + collapse_from(
                    seq![' '] + rest,
                    1,
                    true,
                ));
            }
        } else {
            let rest = collapse_from(s, i + 1, false);
            lemma_collapse_shift(seq![s[i]], rest, 0, false);
            assert(collapse_from(seq![s[i]] + rest, 0, in_run) == seq![s[i]] + collapse_from(
                seq![s[i]] + rest,
                1,
                false,
            ));
        }
    }
}

/// Collapsing twice is collapsing once.
pub proof fn lemma_collapse_idempotent(s: Seq<char>)
    ensures
        collapse_ws(collapse_ws(s)) == collapse_ws(s),
{
    lemma_collapse_from_idempotent(s, 0, false);
}

/// The characters of `s`, in order.
pub fn chars_of(s: &str) -> (r: Vec<char>)
    ensures
        r@ == s@,
{
    let mut r: Vec<char> = Vec::new();
    for c in it: s.chars()
        invariant
            r@ == it.seq().take(it.index()),
    {
        r.push(c);
    }
    r
}

/// Relies on `String::push`: appends one character at the end.
#[verifier::external_body]
pub fn push_char(s: &mut String, c: char)
    ensures
        final(s)@ == old(s)@.push(c),
{
    s.push(c);
}

/// The string made of the characters of `v`, in order.
pub fn string_of(v: &Vec<char>) -> (r: String)
    ensures
        r@ == v@,
{
    let mut r = String::new();
    for i in 0..v.len()
        invariant
            r@ == v@.take(i as int),
    {
        push_char(&mut r, v[i]);
        assert(v@.take(i + 1) =~= v@.take(i as int).push(v@[i as int]));
    }
    assert(v@.take(v@.len() as int) =~= v@);
    r
}

/// `s` with every maximal run of whitespace replaced by one space.
pub fn collapse_chars(s: &Vec<char>) -> (r: Vec<char>)
    ensures
        r@ == collapse_ws(s@),
{
    let mut r: Vec<char> = Vec::new();
    let mut in_run = false;
    for i in 0..s.len()
        invariant
            r@ + collapse_from(s@, i as int, in_run) == collapse_ws(s@),
    {
        let c = s[i];
        if is_ws_char(c) {
            if !in_run {
                assert(r@.push(' ') + collapse_from(s@, i + 1, true) =~= r@ + (seq![' ']
                    + collapse_from(s@, i + 1, true)));
                r.push(' ');
            }
            in_run = true;
        } else {
            assert(r@.push(c) + collapse_from(s@, i + 1, false) =~= r@ + (seq![c]
                + collapse_from(s@, i + 1, false)));
            r.push(c);
            in_run = false;
        }
    }
    assert(r@ + collapse_from(s@, s@.len() as int, in_run) =~= r@);
    r
}

/// `s` without its leading whitespace.
pub open spec fn trim_start(s: Seq<char>) -> Seq<char>
    decreases s.len(),
{
    if s.len() > 0 && is_ws(s[0]) {
        trim_start(s.drop_first())
    } else {
        s
    }
}

/// `s` without its trailing whitespace.
pub open spec fn trim_end(s: Seq<char>) -> Seq<char>
    decreases s.len(),
{
    if s.len() > 0 && is_ws(s.last()) {
        trim_end(s.drop_last())
    } else {
        s
    }
}

/// `s` without leading and trailing whitespace.
pub open spec fn trim_ws(s: Seq<char>) -> Seq<char> {
    trim_end(trim_start(s))
}

/// `s` without leading and trailing whitespace.
pub fn trim_chars(s: &Vec<char>) -> (r: Vec<char>)
    ensures
        r@ == trim_ws(s@),
{
    let mut lo: usize = 0;
    assert(s@.subrange(0, s@.len() as int) =~= s@);
    while lo < s.len() && is_ws_char(s[lo])
        invariant
            lo <= s@.len(),
            trim_start(s@) == trim_start(s@.subrange(lo as int, s@.len() as int)),
        decreases s@.len() - lo,
    {
        assert(s@.subrange(lo as int, s@.len() as int).drop_first() =~= s@.subrange(
            lo + 1,
            s@.len() as int,
        ));
        lo = lo + 1;
    }
    let mut hi: usize = s.len();
    while hi > lo && is_ws_char(s[hi - 1])
        invariant
            lo <= hi <= s@.len(),
            trim_start(s@) == s@.subrange(lo as int, s@.len() as int),
            trim_ws(s@) == trim_end(s@.subrange(lo as int, hi as int)),
        decreases hi,
    {
        assert(s@.subrange(lo as int, hi as int).drop_last() =~= s@.subrange(
            lo as int,
            hi - 1,
        ));
        hi = hi - 1;
    }
    let mut r: Vec<char> = Vec::new();
    let mut k = lo;
    while k < hi
        invariant
            lo <= k <= hi <= s@.len(),
            r@ == s@.subrange(lo as int, k as int),
        decreases hi - k,
    {
        r.push(s[k]);
        assert(s@.subrange(lo as int, k + 1) =~= s@.subrange(lo as int, k as int).push(
            s@[k as int],
        ));
        k = k + 1;
    }
    r
}

/// Whether the only whitespace in `s` is single spaces.
pub open spec fn is_collapsed(s: Seq<char>) -> bool {
    forall|i: int|
        0 <= i < s.len() && is_ws(#[trigger] s[i]) ==> s[i] == ' ' && (i + 1 < s.len() ==> !is_ws(
            s[i + 1],
        ))
}

/// A collapse holds only single spaces, and none first when it starts
/// inside a whitespace run.
pub proof fn lemma_collapse_is_collapsed(s: Seq<char>, i: int, in_run: bool)
    requires
        0 <= i,
    ensures
        is_collapsed(collapse_from(s, i, in_run)),
        in_run && collapse_from(s, i, in_run).len() > 0 ==> !is_ws(collapse_from(s, i, in_run)[0]),
    decreases s.len() - i,
{
    if i < s.len() {
        lemma_collapse_is_collapsed(s, i + 1, true);
        lemma_collapse_is_collapsed(s, i + 1, false);
        let c = collapse_from(s, i, in_run);
        if is_ws(s[i]) {
            if !in_run {
                let rest = collapse_from(s, i + 1, true);
                assert forall|k: int| 0 <= k < c.len() && is_ws(#[trigger] c[k]) implies c[k]
                    == ' ' && (k + 1 < c.len() ==> !is_ws(c[k + 1])) by {
                    if k > 0 {
                        assert(c[k] == rest[k - 1]);
                        if k + 1 < c.len() {
                            assert(c[k + 1] == rest[k]);
                        }
                    } else if c.len() > 1 {
                        assert(c[1] == rest[0]);
                    }
                }
            }
        } else {
            let rest = collapse_from(s, i + 1, false);
            assert forall|k: int| 0 <= k < c.len() && is_ws(#[trigger] c[k]) implies c[k] == ' '
                && (k + 1 < c.len() ==> !is_ws(c[k + 1])) by {
                if k > 0 {
                    assert(c[k] == rest[k - 1]);
                    if k + 1 < c.len() {
                        assert(c[k + 1] == rest[k]);
                    }
                }
            }
        }
    }
}

/// Trimming keeps a part of the text.
pub proof fn lemma_trim_subrange(s: Seq<char>)
    ensures
        exists|a: int, b: int| 0 <= a <= b <= s.len() && trim_ws(s) == s.subrange(a, b),
{
    lemma_trim_start_suffix(s);
    let a = choose|a: int| 0 <= a <= s.len() && trim_start(s) == s.subrange(a, s.len() as int);
    let t = trim_start(s);
    lemma_trim_end_prefix(t);
    let k = choose|k: int| 0 <= k <= t.len() && trim_end(t) == t.subrange(0, k);
    assert(trim_ws(s) =~= s.subrange(a, a + k));
}

proof fn lemma_trim_start_suffix(s: Seq<char>)
    ensures
        exists|a: int| 0 <= a <= s.len() && trim_start(s) == s.subrange(a, s.len() as int),
    decreases s.len(),
{
    if s.len() > 0 && is_ws(s[0]) {
        lemma_trim_start_suffix(s.drop_first());
        let a = choose|a: int|
            0 <= a <= s.drop_first().len() && trim_start(s.drop_first()) == s.drop_first().subrange(
                a,
                s.drop_first().len() as int,
            );
        assert(s.drop_first().subrange(a, s.drop_first().len() as int) =~= s.subrange(
            a + 1,
            s.len() as int,
        ));
    } else {
        assert(s.subrange(0, s.len() as int) =~= s);
    }
}

proof fn lemma_trim_end_prefix(s: Seq<char>)
    ensures
        exists|k: int| 0 <= k <= s.len() && trim_end(s) == s.subrange(0, k),
    decreases s.len(),
{
    if s.len() > 0 && is_ws(s.last()) {
        lemma_trim_end_prefix(s.drop_last());
        let k = choose|k: int|
            0 <= k <= s.drop_last().len() && trim_end(s.drop_last()) == s.drop_last().subrange(
                0,
                k,
            );
        assert(s.drop_last().subrange(0, k) =~= s.subrange(0, k));
    } else {
        assert(s.subrange(0, s.len() as int) =~= s);
    }
}

/// Whether `s` begins with `p`.
pub open spec fn starts_with(s: Seq<char>, p: Seq<char>) -> bool {
    p.len() <= s.len() && s.subrange(0, p.len() as int) == p
}

/// Whether `s` begins with `p`.
pub fn starts_with_str(s: &str, p: &str) -> (r: bool)
    ensures
        r == starts_with(s@, p@),
{
    let n = p.unicode_len();
    if n > s.unicode_len() {
        return false;
    }
    let mut k: usize = 0;
    while k < n
        invariant
            n == p@.len(),
            n <= s@.len(),
            k <= n,
            forall|j: int| 0 <= j < k ==> s@[j] == p@[j],
        decreases n - k,
    {
        if s.get_char(k) != p.get_char(k) {
            assert(s@.subrange(0, n as int)[k as int] != p@[k as int]);
            return false;
        }
        k = k + 1;
    }
    assert(s@.subrange(0, n as int) =~= p@);
    true
}

} // verus!
