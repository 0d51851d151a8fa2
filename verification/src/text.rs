//! The character-level model of text that the parsers and renderers are
//! specified against, with the executable primitives that realise it.
//!
//! Text is modelled as `Seq<char>`, the view of `str` and `String`.
use vstd::prelude::*;

verus! {

// ── Whitespace ────────────────────────────────────────────────────────────

/// The characters with the Unicode `White_Space` property, which is what
/// `char::is_whitespace` (and so `str::trim`) accepts.
pub open spec fn is_ws(c: char) -> bool {
    ||| ('\u{9}' <= c && c <= '\u{d}')
    ||| c == ' '
    ||| c == '\u{85}'
    ||| c == '\u{a0}'
    ||| c == '\u{1680}'
    ||| ('\u{2000}' <= c && c <= '\u{200a}')
    ||| c == '\u{2028}'
    ||| c == '\u{2029}'
    ||| c == '\u{202f}'
    ||| c == '\u{205f}'
    ||| c == '\u{3000}'
}

/// Executable form of [`is_ws`].
pub fn is_whitespace_char(c: char) -> (r: bool)
    ensures
        r == is_ws(c),
{
    ('\u{9}' <= c && c <= '\u{d}') || c == ' ' || c == '\u{85}' || c == '\u{a0}' || c
        == '\u{1680}' || ('\u{2000}' <= c && c <= '\u{200a}') || c == '\u{2028}' || c
        == '\u{2029}' || c == '\u{202f}' || c == '\u{205f}' || c == '\u{3000}'
}

/// Whether `s` holds at least one character that is not whitespace.
pub open spec fn has_non_ws(s: Seq<char>) -> bool {
    exists|i: int| 0 <= i < s.len() && !is_ws(#[trigger] s[i])
}

/// `s` with its leading whitespace removed (`str::trim_start`).
pub open spec fn trim_start(s: Seq<char>) -> Seq<char>
    decreases s.len(),
{
    if s.len() > 0 && is_ws(s[0]) {
        trim_start(s.drop_first())
    } else {
        s
    }
}

/// `s` with its trailing whitespace removed (`str::trim_end`).
pub open spec fn trim_end(s: Seq<char>) -> Seq<char>
    decreases s.len(),
{
    if s.len() > 0 && is_ws(s.last()) {
        trim_end(s.drop_last())
    } else {
        s
    }
}

/// `s` with whitespace removed at both ends (`str::trim`).
pub open spec fn trim(s: Seq<char>) -> Seq<char> {
    trim_end(trim_start(s))
}

/// `s` with every leading and trailing `c` removed (`str::trim_matches`).
pub open spec fn trim_char(s: Seq<char>, c: char) -> Seq<char> {
    trim_char_end(trim_char_start(s, c), c)
}

/// `s` with every leading `c` removed.
pub open spec fn trim_char_start(s: Seq<char>, c: char) -> Seq<char>
    decreases s.len(),
{
    if s.len() > 0 && s[0] == c {
        trim_char_start(s.drop_first(), c)
    } else {
        s
    }
}

/// `s` with every trailing `c` removed (`str::trim_end_matches`).
pub open spec fn trim_char_end(s: Seq<char>, c: char) -> Seq<char>
    decreases s.len(),
{
    if s.len() > 0 && s.last() == c {
        trim_char_end(s.drop_last(), c)
    } else {
        s
    }
}

pub proof fn lemma_trim_start_skip(s: Seq<char>, k: int)
    requires
        0 <= k <= s.len(),
        forall|j: int| 0 <= j < k ==> is_ws(#[trigger] s[j]),
    ensures
        trim_start(s) == trim_start(s.skip(k)),
    decreases k,
{
    if k > 0 {
        assert(s.drop_first().skip(k - 1) =~= s.skip(k));
        lemma_trim_start_skip(s.drop_first(), k - 1);
    } else {
        assert(s.skip(0) =~= s);
    }
}

pub proof fn lemma_trim_end_take(s: Seq<char>, k: int)
    requires
        0 <= k <= s.len(),
        forall|j: int| k <= j < s.len() ==> is_ws(#[trigger] s[j]),
    ensures
        trim_end(s) == trim_end(s.take(k)),
    decreases s.len() - k,
{
    if k < s.len() {
        assert(s.drop_last().take(k) =~= s.take(k));
        lemma_trim_end_take(s.drop_last(), k);
    } else {
        assert(s.take(k) =~= s);
    }
}

pub proof fn lemma_trim_char_start_skip(s: Seq<char>, c: char, k: int)
    requires
        0 <= k <= s.len(),
        forall|j: int| 0 <= j < k ==> #[trigger] s[j] == c,
    ensures
        trim_char_start(s, c) == trim_char_start(s.skip(k), c),
    decreases k,
{
    if k > 0 {
        assert(s.drop_first().skip(k - 1) =~= s.skip(k));
        lemma_trim_char_start_skip(s.drop_first(), c, k - 1);
    } else {
        assert(s.skip(0) =~= s);
    }
}

pub proof fn lemma_trim_char_end_take(s: Seq<char>, c: char, k: int)
    requires
        0 <= k <= s.len(),
        forall|j: int| k <= j < s.len() ==> #[trigger] s[j] == c,
    ensures
        trim_char_end(s, c) == trim_char_end(s.take(k), c),
    decreases s.len() - k,
{
    if k < s.len() {
        assert(s.drop_last().take(k) =~= s.take(k));
        lemma_trim_char_end_take(s.drop_last(), c, k);
    } else {
        assert(s.take(k) =~= s);
    }
}

/// What `trim_start` leaves: a suffix of `s` that does not start with
/// whitespace, preceded in `s` only by whitespace.
pub proof fn lemma_trim_start_shape(s: Seq<char>)
    ensures
        trim_start(s).len() <= s.len(),
        trim_start(s) == s.skip(s.len() - trim_start(s).len()),
        trim_start(s).len() > 0 ==> !is_ws(trim_start(s)[0]),
        forall|j: int| 0 <= j < s.len() - trim_start(s).len() ==> is_ws(#[trigger] s[j]),
    decreases s.len(),
{
    if s.len() > 0 && is_ws(s[0]) {
        lemma_trim_start_shape(s.drop_first());
        let t = trim_start(s.drop_first());
        assert(s.drop_first().skip(s.drop_first().len() - t.len()) =~= s.skip(s.len() - t.len()));
        assert forall|j: int| 0 <= j < s.len() - t.len() implies is_ws(#[trigger] s[j]) by {
            if j > 0 {
                assert(s[j] == s.drop_first()[j - 1]);
            }
        }
    } else {
        assert(s.skip(0) =~= s);
    }
}

/// What `trim_end` leaves: a prefix of `s` that does not end with
/// whitespace, followed in `s` only by whitespace.
pub proof fn lemma_trim_end_shape(s: Seq<char>)
    ensures
        trim_end(s).len() <= s.len(),
        trim_end(s) == s.take(trim_end(s).len() as int),
        trim_end(s).len() > 0 ==> !is_ws(trim_end(s).last()),
        forall|j: int| trim_end(s).len() <= j < s.len() ==> is_ws(#[trigger] s[j]),
    decreases s.len(),
{
    if s.len() > 0 && is_ws(s.last()) {
        lemma_trim_end_shape(s.drop_last());
        let t = trim_end(s.drop_last());
        assert(s.drop_last().take(t.len() as int) =~= s.take(t.len() as int));
        assert forall|j: int| t.len() <= j < s.len() implies is_ws(#[trigger] s[j]) by {
            if j < s.len() - 1 {
                assert(s[j] == s.drop_last()[j]);
            }
        }
    } else {
        assert(s.take(s.len() as int) =~= s);
    }
}

/// `trim` leaves a piece of `s` with no whitespace at either end.
pub proof fn lemma_trim_shape(s: Seq<char>)
    ensures
        trim(s).len() <= s.len(),
        trim(s).len() > 0 ==> !is_ws(trim(s)[0]) && !is_ws(trim(s).last()),
        trim(s).len() == 0 <==> !has_non_ws(s),
{
    lemma_trim_start_shape(s);
    let t = trim_start(s);
    lemma_trim_end_shape(t);
    let u = trim_end(t);
    if u.len() > 0 {
        assert(u[0] == t[0]);
        let k = s.len() - t.len();
        assert(s[k] == t[0]);
        assert(!is_ws(s[k]));
    } else {
        assert forall|i: int| 0 <= i < s.len() implies is_ws(#[trigger] s[i]) by {
            let k = s.len() - t.len();
            if i >= k {
                assert(s[i] == t[i - k]);
            }
        }
    }
}

// ── Searching ─────────────────────────────────────────────────────────────

/// The index of the first `c` in `s`.
pub open spec fn find_char(s: Seq<char>, c: char) -> Option<int>
    decreases s.len(),
{
    if s.len() == 0 {
        None
    } else if s[0] == c {
        Some(0)
    } else {
        match find_char(s.drop_first(), c) {
            Some(i) => Some(i + 1),
            None => None,
        }
    }
}

/// The index of the first whitespace character in `s`.
pub open spec fn find_ws(s: Seq<char>) -> Option<int>
    decreases s.len(),
{
    if s.len() == 0 {
        None
    } else if is_ws(s[0]) {
        Some(0)
    } else {
        match find_ws(s.drop_first()) {
            Some(i) => Some(i + 1),
            None => None,
        }
    }
}

/// The index of the first occurrence of the non-empty pattern `p` in `s`.
pub open spec fn find_sub(s: Seq<char>, p: Seq<char>) -> Option<int>
    decreases s.len(),
{
    if s.len() < p.len() || p.len() == 0 {
        None
    } else if s.take(p.len() as int) == p {
        Some(0)
    } else {
        match find_sub(s.drop_first(), p) {
            Some(i) => Some(i + 1),
            None => None,
        }
    }
}

pub proof fn lemma_find_char(s: Seq<char>, c: char)
    ensures
        match find_char(s, c) {
            Some(i) => 0 <= i < s.len() && s[i] == c && forall|j: int|
                0 <= j < i ==> #[trigger] s[j] != c,
            None => forall|j: int| 0 <= j < s.len() ==> #[trigger] s[j] != c,
        },
    decreases s.len(),
{
    if s.len() > 0 && s[0] != c {
        lemma_find_char(s.drop_first(), c);
        assert forall|j: int| 0 < j < s.len() implies #[trigger] s[j] == s.drop_first()[j - 1] by {}
    }
}

pub proof fn lemma_find_ws(s: Seq<char>)
    ensures
        match find_ws(s) {
            Some(i) => 0 <= i < s.len() && is_ws(s[i]) && forall|j: int|
                0 <= j < i ==> !is_ws(#[trigger] s[j]),
            None => forall|j: int| 0 <= j < s.len() ==> !is_ws(#[trigger] s[j]),
        },
    decreases s.len(),
{
    if s.len() > 0 && !is_ws(s[0]) {
        lemma_find_ws(s.drop_first());
        assert forall|j: int| 0 < j < s.len() implies #[trigger] s[j] == s.drop_first()[j - 1] by {}
    }
}

/// Whether `p` occurs in `s` at index `i`.
pub open spec fn occurs_at(s: Seq<char>, p: Seq<char>, i: int) -> bool {
    0 <= i && i + p.len() <= s.len() && s.subrange(i, i + p.len()) == p
}

pub proof fn lemma_find_sub(s: Seq<char>, p: Seq<char>)
    requires
        p.len() > 0,
    ensures
        match find_sub(s, p) {
            Some(i) => occurs_at(s, p, i) && forall|j: int| 0 <= j < i ==> !#[trigger] occurs_at(s, p, j),
            None => forall|j: int| !#[trigger] occurs_at(s, p, j),
        },
    decreases s.len(),
{
    if s.len() < p.len() {
        assert forall|j: int| !#[trigger] occurs_at(s, p, j) by {}
    } else if s.take(p.len() as int) == p {
        assert(s.subrange(0, p.len() as int) =~= s.take(p.len() as int));
    } else {
        lemma_find_sub(s.drop_first(), p);
        assert forall|j: int| 0 < j implies #[trigger] occurs_at(s, p, j) == occurs_at(
            s.drop_first(),
            p,
            j - 1,
        ) by {
            if 0 < j && j + p.len() <= s.len() {
                assert(s.subrange(j, j + p.len()) =~= s.drop_first().subrange(j - 1, j - 1 + p.len()));
            }
        }
        assert(!occurs_at(s, p, 0)) by {
            assert(s.subrange(0, p.len() as int) =~= s.take(p.len() as int));
        }
    }
}

/// The two sides of the first `c` in `s` (`str::split_once` with a char).
pub open spec fn split_once_char(s: Seq<char>, c: char) -> Option<(Seq<char>, Seq<char>)> {
    match find_char(s, c) {
        Some(i) => Some((s.take(i), s.skip(i + 1))),
        None => None,
    }
}

/// The two sides of the first occurrence of `p` in `s` (`str::split_once`
/// with a string pattern).
pub open spec fn split_once_sub(s: Seq<char>, p: Seq<char>) -> Option<(Seq<char>, Seq<char>)> {
    match find_sub(s, p) {
        Some(i) => Some((s.take(i), s.skip(i + p.len()))),
        None => None,
    }
}

// ── Executable primitives on char slices ──────────────────────────────────

/// The characters of `s`, in order.
pub fn to_chars(s: &str) -> (v: Vec<char>)
    ensures
        v@ == s@,
{
    let mut v: Vec<char> = Vec::new();
    for c in it: s.chars()
        invariant
            v@ == it.seq().take(it.index() as int),
            it.seq() == s@,
    {
        v.push(c);
    }
    v
}

/// `s[i..j]`.
pub fn slice<'a>(s: &'a [char], i: usize, j: usize) -> (r: &'a [char])
    requires
        i <= j <= s@.len(),
    ensures
        r@ == s@.subrange(i as int, j as int),
{
    &s[i..j]
}

pub fn trim_start_chars<'a>(s: &'a [char]) -> (r: &'a [char])
    ensures
        r@ == trim_start(s@),
{
    let mut i: usize = 0;
    while i < s.len() && is_whitespace_char(s[i])
        invariant
            i <= s@.len(),
            forall|j: int| 0 <= j < i ==> is_ws(#[trigger] s@[j]),
        decreases s.len() - i,
    {
        i = i + 1;
    }
    proof {
        lemma_trim_start_skip(s@, i as int);
    }
    slice(s, i, s.len())
}

pub fn trim_end_chars<'a>(s: &'a [char]) -> (r: &'a [char])
    ensures
        r@ == trim_end(s@),
{
    let mut k: usize = s.len();
    while k > 0 && is_whitespace_char(s[k - 1])
        invariant
            k <= s@.len(),
            forall|j: int| k <= j < s@.len() ==> is_ws(#[trigger] s@[j]),
        decreases k,
    {
        k = k - 1;
    }
    proof {
        lemma_trim_end_take(s@, k as int);
    }
    slice(s, 0, k)
}

pub fn trim_chars<'a>(s: &'a [char]) -> (r: &'a [char])
    ensures
        r@ == trim(s@),
{
    trim_end_chars(trim_start_chars(s))
}

pub fn trim_char_end_chars<'a>(s: &'a [char], c: char) -> (r: &'a [char])
    ensures
        r@ == trim_char_end(s@, c),
{
    let mut k: usize = s.len();
    while k > 0 && s[k - 1] == c
        invariant
            k <= s@.len(),
            forall|j: int| k <= j < s@.len() ==> #[trigger] s@[j] == c,
        decreases k,
    {
        k = k - 1;
    }
    proof {
        lemma_trim_char_end_take(s@, c, k as int);
    }
    slice(s, 0, k)
}

pub fn trim_char_chars<'a>(s: &'a [char], c: char) -> (r: &'a [char])
    ensures
        r@ == trim_char(s@, c),
{
    let mut i: usize = 0;
    while i < s.len() && s[i] == c
        invariant
            i <= s@.len(),
            forall|j: int| 0 <= j < i ==> #[trigger] s@[j] == c,
        decreases s.len() - i,
    {
        i = i + 1;
    }
    proof {
        lemma_trim_char_start_skip(s@, c, i as int);
    }
    trim_char_end_chars(slice(s, i, s.len()), c)
}

/// Executable form of [`find_char`].
pub fn find_char_in(s: &[char], c: char) -> (r: Option<usize>)
    ensures
        match r {
            Some(i) => find_char(s@, c) == Some(i as int),
            None => find_char(s@, c) is None,
        },
{
    proof {
        lemma_find_char(s@, c);
    }
    let mut i: usize = 0;
    while i < s.len()
        invariant
            i <= s@.len(),
            forall|j: int| 0 <= j < i ==> #[trigger] s@[j] != c,
        decreases s.len() - i,
    {
        if s[i] == c {
            proof {
                lemma_find_char(s@, c);
            }
            return Some(i);
        }
        i = i + 1;
    }
    None
}

/// Executable form of [`find_ws`].
pub fn find_ws_in(s: &[char]) -> (r: Option<usize>)
    ensures
        match r {
            Some(i) => find_ws(s@) == Some(i as int),
            None => find_ws(s@) is None,
        },
{
    proof {
        lemma_find_ws(s@);
    }
    let mut i: usize = 0;
    while i < s.len()
        invariant
            i <= s@.len(),
            forall|j: int| 0 <= j < i ==> !is_ws(#[trigger] s@[j]),
        decreases s.len() - i,
    {
        if is_whitespace_char(s[i]) {
            proof {
                lemma_find_ws(s@);
            }
            return Some(i);
        }
        i = i + 1;
    }
    None
}

/// Whether `p` occurs in `s` at index `i`.
fn occurs_at_exec(s: &[char], p: &[char], i: usize) -> (r: bool)
    requires
        i + p@.len() <= s@.len(),
    ensures
        r == occurs_at(s@, p@, i as int),
{
    let n = s.len();
    let mut k: usize = 0;
    while k < p.len()
        invariant
            n == s@.len(),
            i + p@.len() <= s@.len(),
            k <= p@.len(),
            forall|j: int| 0 <= j < k ==> #[trigger] s@[i + j] == p@[j],
        decreases p.len() - k,
    {
        if s[i + k] != p[k] {
            assert(s@.subrange(i as int, i + p@.len())[k as int] != p@[k as int]);
            return false;
        }
        k = k + 1;
    }
    assert forall|j: int| 0 <= j < p@.len() implies #[trigger] s@.subrange(
        i as int,
        i + p@.len(),
    )[j] == p@[j] by {
        assert(s@[i + j] == p@[j]);
    }
    assert(s@.subrange(i as int, i + p@.len()) =~= p@);
    true
}

/// Executable form of [`find_sub`], for a non-empty pattern.
pub fn find_sub_in(s: &[char], p: &[char]) -> (r: Option<usize>)
    requires
        p@.len() > 0,
    ensures
        match r {
            Some(i) => find_sub(s@, p@) == Some(i as int),
            None => find_sub(s@, p@) is None,
        },
{
    proof {
        lemma_find_sub(s@, p@);
    }
    if s.len() < p.len() {
        assert forall|j: int| !#[trigger] occurs_at(s@, p@, j) by {}
        return None;
    }
    let last = s.len() - p.len();
    let mut i: usize = 0;
    while i <= last
        invariant
            last + p@.len() == s@.len(),
            s@.len() <= usize::MAX,
            p@.len() > 0,
            i <= last + 1,
            forall|j: int| 0 <= j < i ==> !#[trigger] occurs_at(s@, p@, j),
        decreases last + 1 - i,
    {
        if occurs_at_exec(s, p, i) {
            proof {
                lemma_find_sub(s@, p@);
            }
            return Some(i);
        }
        i = i + 1;
    }
    assert forall|j: int| !#[trigger] occurs_at(s@, p@, j) by {}
    proof {
        lemma_find_sub(s@, p@);
    }
    None
}

/// Executable form of [`split_once_char`].
pub fn split_once_char_in<'a>(s: &'a [char], c: char) -> (r: Option<(&'a [char], &'a [char])>)
    ensures
        match r {
            Some((a, b)) => split_once_char(s@, c) == Some((a@, b@)),
            None => split_once_char(s@, c) is None,
        },
{
    proof {
        lemma_find_char(s@, c);
    }
    let n = s.len();
    match find_char_in(s, c) {
        Some(i) => Some((slice(s, 0, i), slice(s, i + 1, n))),
        None => None,
    }
}

/// Executable form of [`split_once_sub`], for a non-empty pattern.
pub fn split_once_sub_in<'a>(s: &'a [char], p: &[char]) -> (r: Option<(&'a [char], &'a [char])>)
    requires
        p@.len() > 0,
    ensures
        match r {
            Some((a, b)) => split_once_sub(s@, p@) == Some((a@, b@)),
            None => split_once_sub(s@, p@) is None,
        },
{
    proof {
        lemma_find_sub(s@, p@);
    }
    let n = s.len();
    match find_sub_in(s, p) {
        Some(i) => Some((slice(s, 0, i), slice(s, i + p.len(), n))),
        None => None,
    }
}

// ── Lines and fields ──────────────────────────────────────────────────────

/// `l` without one trailing carriage return.
pub open spec fn strip_cr(l: Seq<char>) -> Seq<char> {
    if l.len() > 0 && l.last() == '\r' {
        l.drop_last()
    } else {
        l
    }
}

/// The lines of `s` as `str::lines` yields them: split after each `'\n'`,
/// the `"\n"` or `"\r\n"` ending removed, and no empty line after a final
/// line ending.
pub open spec fn lines_of(s: Seq<char>) -> Seq<Seq<char>>
    decreases s.len(),
{
    if s.len() == 0 {
        seq![]
    } else {
        match find_char(s, '\n') {
            Some(i) => {
                proof {
                    lemma_find_char(s, '\n');
                }
                seq![strip_cr(s.take(i))] + lines_of(s.skip(i + 1))
            },
            None => seq![s],
        }
    }
}

/// Where the word at the start of `t` ends: at its first whitespace, or at
/// its end.
pub open spec fn word_end(t: Seq<char>) -> int {
    match find_ws(t) {
        Some(i) => i,
        None => t.len() as int,
    }
}

/// The whitespace-separated words of `s` (`str::split_whitespace`).
pub open spec fn words(s: Seq<char>) -> Seq<Seq<char>>
    decreases s.len(),
{
    let t = trim_start(s);
    if t.len() == 0 {
        seq![]
    } else {
        proof {
            lemma_trim_start_shape(s);
            lemma_find_ws(t);
        }
        seq![t.take(word_end(t))] + words(t.skip(word_end(t)))
    }
}

/// At most `k + 1` fields of `rest`: `k` words, then everything that is left.
pub open spec fn fields_rec(rest: Seq<char>, k: nat) -> Seq<Seq<char>>
    decreases k,
{
    if rest.len() == 0 {
        seq![]
    } else if k == 0 {
        seq![rest]
    } else {
        seq![rest.take(word_end(rest))] + fields_rec(trim_start(rest.skip(word_end(rest))), (k - 1) as nat)
    }
}

/// `s` split into at most `n` whitespace-delimited fields, the last of which
/// holds all the remaining text, inner spaces included; no field at all
/// where `n` is 0.
pub open spec fn split_n(s: Seq<char>, n: nat) -> Seq<Seq<char>> {
    if n == 0 {
        seq![]
    } else {
        fields_rec(trim_start(s), (n - 1) as nat)
    }
}

/// The character sequences that a vector of slices holds.
pub open spec fn slice_views(v: Seq<&[char]>) -> Seq<Seq<char>> {
    Seq::new(v.len(), |i: int| v[i]@)
}

pub proof fn lemma_slice_views_push(v: Seq<&[char]>, x: &[char])
    ensures
        slice_views(v.push(x)) == slice_views(v).push(x@),
{
    assert(slice_views(v.push(x)) =~= slice_views(v).push(x@));
}

/// The lines of `s` (`str::lines`), as slices of `s`.
pub fn split_lines<'a>(s: &'a [char]) -> (r: Vec<&'a [char]>)
    ensures
        slice_views(r@) == lines_of(s@),
{
    let n = s.len();
    let mut out: Vec<&'a [char]> = Vec::new();
    let mut start: usize = 0;
    assert(s@.skip(0) =~= s@);
    assert(slice_views(out@) =~= Seq::<Seq<char>>::empty());
    while start < n
        invariant
            n == s@.len(),
            start <= n,
            lines_of(s@) =~= slice_views(out@) + lines_of(s@.skip(start as int)),
        decreases n - start,
    {
        let rest = slice(s, start, n);
        assert(rest@ =~= s@.skip(start as int));
        proof {
            lemma_find_char(rest@, '\n');
        }
        match find_char_in(rest, '\n') {
            Some(i) => {
                let piece = if i > 0 && rest[i - 1] == '\r' {
                    slice(rest, 0, i - 1)
                } else {
                    slice(rest, 0, i)
                };
                assert(piece@ =~= strip_cr(rest@.take(i as int)));
                assert(rest@.skip(i + 1) =~= s@.skip(start + i + 1));
                proof {
                    lemma_slice_views_push(out@, piece);
                }
                out.push(piece);
                start = start + i + 1;
            },
            None => {
                proof {
                    lemma_slice_views_push(out@, rest);
                }
                out.push(rest);
                start = n;
                assert(s@.skip(n as int) =~= Seq::<char>::empty());
            },
        }
    }
    assert(s@.skip(n as int) =~= Seq::<char>::empty());
    out
}

/// The end of the word that starts `t`.
pub fn word_end_in(t: &[char]) -> (e: usize)
    ensures
        e == word_end(t@),
{
    proof {
        lemma_find_ws(t@);
    }
    match find_ws_in(t) {
        Some(i) => i,
        None => t.len(),
    }
}

/// The whitespace-separated words of `s` (`str::split_whitespace`).
pub fn words_in<'a>(s: &'a [char]) -> (r: Vec<&'a [char]>)
    ensures
        slice_views(r@) == words(s@),
{
    let mut out: Vec<&'a [char]> = Vec::new();
    let mut rest = s;
    assert(slice_views(out@) =~= Seq::<Seq<char>>::empty());
    loop
        invariant
            words(s@) =~= slice_views(out@) + words(rest@),
        decreases rest@.len(),
    {
        let t = trim_start_chars(rest);
        if t.len() == 0 {
            assert(words(rest@) =~= Seq::<Seq<char>>::empty());
            return out;
        }
        proof {
            lemma_trim_start_shape(rest@);
            lemma_find_ws(t@);
        }
        let e = word_end_in(t);
        let w = slice(t, 0, e);
        proof {
            lemma_slice_views_push(out@, w);
        }
        out.push(w);
        rest = slice(t, e, t.len());
    }
}

/// `s` split into at most `n` whitespace-delimited fields, the final field
/// holding all remaining text; none where `n` is 0.
pub fn split_n_in<'a>(s: &'a [char], n: usize) -> (r: Vec<&'a [char]>)
    ensures
        slice_views(r@) == split_n(s@, n as nat),
{
    let mut out: Vec<&'a [char]> = Vec::new();
    assert(slice_views(out@) =~= Seq::<Seq<char>>::empty());
    if n == 0 {
        return out;
    }
    let mut rest = trim_start_chars(s);
    let mut k: usize = n - 1;
    loop
        invariant
            split_n(s@, n as nat) =~= slice_views(out@) + fields_rec(rest@, k as nat),
        decreases k,
    {
        if rest.len() == 0 {
            assert(fields_rec(rest@, k as nat) =~= Seq::<Seq<char>>::empty());
            return out;
        }
        if k == 0 {
            proof {
                lemma_slice_views_push(out@, rest);
            }
            out.push(rest);
            return out;
        }
        let e = word_end_in(rest);
        proof {
            lemma_find_ws(rest@);
        }
        let w = slice(rest, 0, e);
        proof {
            lemma_slice_views_push(out@, w);
        }
        out.push(w);
        rest = trim_start_chars(slice(rest, e, rest.len()));
        k = k - 1;
    }
}

// ── Numbers ───────────────────────────────────────────────────────────────

pub open spec fn is_digit(c: char) -> bool {
    '0' <= c && c <= '9'
}

pub open spec fn digit_value(c: char) -> nat {
    (c as int - '0' as int) as nat
}

pub open spec fn all_digits(s: Seq<char>) -> bool {
    forall|i: int| 0 <= i < s.len() ==> is_digit(#[trigger] s[i])
}

/// The number that the decimal digits `s` spell.
pub open spec fn digits_value(s: Seq<char>) -> nat
    decreases s.len(),
{
    if s.len() == 0 {
        0
    } else {
        digits_value(s.drop_last()) * 10 + digit_value(s.last())
    }
}

/// The digits of an unsigned integer literal: `s` without one leading `'+'`.
pub open spec fn unsigned_digits(s: Seq<char>) -> Seq<char> {
    if s.len() > 0 && s[0] == '+' {
        s.drop_first()
    } else {
        s
    }
}

/// What `str::parse` gives for an unsigned integer type whose largest value
/// is `max`: an optional `'+'`, then one or more ASCII digits whose value
/// does not exceed `max`.
pub open spec fn parse_unsigned(s: Seq<char>, max: nat) -> Option<nat> {
    let d = unsigned_digits(s);
    if d.len() > 0 && all_digits(d) && digits_value(d) <= max {
        Some(digits_value(d))
    } else {
        None
    }
}

pub proof fn lemma_digits_value_prefix(s: Seq<char>, k: int)
    requires
        0 <= k <= s.len(),
        all_digits(s),
    ensures
        digits_value(s.take(k)) <= digits_value(s),
    decreases s.len(),
{
    if k < s.len() {
        assert(s.drop_last().take(k) =~= s.take(k));
        assert(all_digits(s.drop_last())) by {
            assert forall|i: int| 0 <= i < s.drop_last().len() implies is_digit(
                #[trigger] s.drop_last()[i],
            ) by {
                assert(s.drop_last()[i] == s[i]);
            }
        }
        lemma_digits_value_prefix(s.drop_last(), k);
    } else {
        assert(s.take(k) =~= s);
    }
}

/// Executable form of [`parse_unsigned`].
pub fn parse_unsigned_in(s: &[char], max: u64) -> (r: Option<u64>)
    ensures
        match r {
            Some(v) => parse_unsigned(s@, max as nat) == Some(v as nat),
            None => parse_unsigned(s@, max as nat) is None,
        },
{
    let d = if s.len() > 0 && s[0] == '+' {
        slice(s, 1, s.len())
    } else {
        s
    };
    assert(d@ =~= unsigned_digits(s@));
    if d.len() == 0 {
        return None;
    }
    let mut v: u64 = 0;
    let mut i: usize = 0;
    assert(d@.take(0) =~= Seq::<char>::empty());
    while i < d.len()
        invariant
            d@ == unsigned_digits(s@),
            i <= d@.len(),
            d@.len() > 0,
            v as nat == digits_value(d@.take(i as int)),
            v <= max,
            forall|j: int| 0 <= j < i ==> is_digit(#[trigger] d@[j]),
        decreases d.len() - i,
    {
        let c = d[i];
        if !('0' <= c && c <= '9') {
            return None;
        }
        let dv: u64 = (c as u32 - '0' as u32) as u64;
        assert(d@.take(i + 1).drop_last() =~= d@.take(i as int));
        if dv > max || v > (max - dv) / 10 {
            proof {
                assert(digits_value(d@.take(i + 1)) == v * 10 + dv);
                assert(v * 10 + dv > max) by (nonlinear_arith)
                    requires
                        dv > max || v > (max - dv) / 10,
                        dv <= max ==> max - dv >= 0,
                ;
                if all_digits(d@) {
                    lemma_digits_value_prefix(d@, i + 1);
                }
            }
            return None;
        }
        proof {
            assert(v * 10 + dv <= max) by (nonlinear_arith)
                requires
                    v <= (max - dv) / 10,
                    dv <= max,
            ;
        }
        v = v * 10 + dv;
        i = i + 1;
    }
    assert(d@.take(d@.len() as int) =~= d@);
    Some(v)
}

/// The ASCII digit for `d < 10`.
pub open spec fn digit_char(d: nat) -> char {
    (d + 48) as char
}

/// The decimal representation of `n`, without leading zeros.
pub open spec fn dec(n: nat) -> Seq<char>
    decreases n,
{
    if n < 10 {
        seq![digit_char(n)]
    } else {
        dec(n / 10).push(digit_char(n % 10))
    }
}

/// `n` written with at least two digits (`{:02}`).
pub open spec fn dec2(n: nat) -> Seq<char> {
    if n < 10 {
        seq!['0', digit_char(n)]
    } else {
        dec(n)
    }
}

// ── Building output ───────────────────────────────────────────────────────

/// Appends one character to a string.
/// Calls `String::push`, which appends the given char to the end of the
/// string.
#[verifier::external_body]
pub fn push_char(s: &mut String, c: char)
    ensures
        final(s)@ == old(s)@.push(c),
{
    s.push(c);
}

/// `n` copies of `c`.
pub open spec fn repeat_char(c: char, n: nat) -> Seq<char> {
    Seq::new(n, |i: int| c)
}

/// `s` padded with spaces on the right to at least `w` characters
/// (`{:<w}`, the default for strings).
#[verifier::opaque]
pub open spec fn align_left(s: Seq<char>, w: nat) -> Seq<char> {
    if s.len() < w {
        s + repeat_char(' ', (w - s.len()) as nat)
    } else {
        s
    }
}

/// `s` padded with spaces on the left to at least `w` characters (`{:>w}`).
#[verifier::opaque]
pub open spec fn align_right(s: Seq<char>, w: nat) -> Seq<char> {
    if s.len() < w {
        repeat_char(' ', (w - s.len()) as nat) + s
    } else {
        s
    }
}

pub fn push_str(out: &mut String, s: &str)
    ensures
        final(out)@ == old(out)@ + s@,
{
    out.append(s);
}

pub fn push_chars(out: &mut String, s: &[char])
    ensures
        final(out)@ == old(out)@ + s@,
{
    let ghost start = out@;
    let mut i: usize = 0;
    while i < s.len()
        invariant
            i <= s@.len(),
            out@ == start + s@.take(i as int),
        decreases s.len() - i,
    {
        assert(s@.take(i + 1) =~= s@.take(i as int).push(s@[i as int]));
        push_char(out, s[i]);
        i = i + 1;
    }
    assert(s@.take(s@.len() as int) =~= s@);
}

/// A new string holding the characters of `s`.
pub fn string_of(s: &[char]) -> (r: String)
    ensures
        r@ == s@,
{
    let mut r = String::new();
    push_chars(&mut r, s);
    assert(r@ =~= s@);
    r
}

pub fn push_repeat(out: &mut String, c: char, n: usize)
    ensures
        final(out)@ == old(out)@ + repeat_char(c, n as nat),
{
    let ghost start = out@;
    let mut i: usize = 0;
    while i < n
        invariant
            i <= n,
            out@ == start + repeat_char(c, i as nat),
        decreases n - i,
    {
        assert(repeat_char(c, (i + 1) as nat) =~= repeat_char(c, i as nat).push(c));
        push_char(out, c);
        i = i + 1;
    }
}

/// Appends `s` left-aligned in a field of `w` characters.
pub fn push_left(out: &mut String, s: &str, w: usize)
    ensures
        final(out)@ == old(out)@ + align_left(s@, w as nat),
{
    reveal(align_left);
    let len = s.unicode_len();
    push_str(out, s);
    if len < w {
        push_repeat(out, ' ', w - len);
    }
}

/// Appends `s` right-aligned in a field of `w` characters.
pub fn push_right(out: &mut String, s: &str, w: usize)
    ensures
        final(out)@ == old(out)@ + align_right(s@, w as nat),
{
    reveal(align_right);
    let len = s.unicode_len();
    if len < w {
        push_repeat(out, ' ', w - len);
    }
    push_str(out, s);
}

/// The decimal representation of `n`.
pub fn dec_string_wide(n: u128) -> (r: String)
    ensures
        r@ == dec(n as nat),
    decreases n,
{
    let d: u8 = (n % 10) as u8;
    let c: char = (d + 48) as char;
    if n < 10 {
        let mut r = String::new();
        push_char(&mut r, c);
        assert(r@ =~= dec(n as nat));
        r
    } else {
        let mut r = dec_string_wide(n / 10);
        push_char(&mut r, c);
        r
    }
}

/// The decimal representation of `n`.
pub fn dec_string(n: u64) -> (r: String)
    ensures
        r@ == dec(n as nat),
{
    dec_string_wide(n as u128)
}

/// `n` with at least two digits.
pub fn dec2_string(n: u64) -> (r: String)
    ensures
        r@ == dec2(n as nat),
{
    if n < 10 {
        let mut r = String::new();
        push_char(&mut r, '0');
        push_char(&mut r, ((n as u8) + 48) as char);
        assert(r@ =~= dec2(n as nat));
        r
    } else {
        dec_string(n)
    }
}

} // verus!
