//! Properties that hold of the parsers and renderers for every input.
use vstd::prelude::*;

use crate::parse::{filter_map_seq, key_values_colon, key_values_equals, kv_colon_entries, kv_colon_line, kv_equals_entries, kv_equals_line, kv_pairs, kv_value, lemma_filter_map_from, lemma_filter_map_len, lines, nonblank_line, nonblank_lines};
use crate::render::{bytes_text, f64_value, gib, kib, mib, one_decimal, round_half_even, units_to_log};
use crate::text::{align_left, align_right, dec, digit_char, fields_rec, find_char, find_ws, has_non_ws, is_digit, is_ws, lemma_find_char, lemma_find_ws, lemma_trim_end_shape, lemma_trim_shape, lemma_trim_start_shape, lines_of, repeat_char, split_n, trim, trim_char, trim_char_end, trim_char_start, trim_end, trim_start, word_end, words};
use crate::types::{SystemdUnitView};

verus! {

// ── Field splitting ───────────────────────────────────────────────────────

pub proof fn lemma_trim_start_idempotent(s: Seq<char>)
    ensures
        trim_start(trim_start(s)) == trim_start(s),
{
    lemma_trim_start_shape(s);
}

/// A piece of text without whitespace.
pub open spec fn no_ws(w: Seq<char>) -> bool {
    forall|i: int| 0 <= i < w.len() ==> !is_ws(#[trigger] w[i])
}

pub proof fn lemma_words_trim_start(s: Seq<char>)
    ensures
        words(s) == words(trim_start(s)),
{
    lemma_trim_start_idempotent(s);
}

proof fn lemma_first_word(rest: Seq<char>)
    requires
        rest.len() > 0,
        trim_start(rest) == rest,
    ensures
        1 <= word_end(rest) <= rest.len(),
        rest.take(word_end(rest)).len() > 0,
        no_ws(rest.take(word_end(rest))),
        trim_start(rest.skip(word_end(rest))).len() < rest.len(),
{
    lemma_trim_start_shape(rest);
    lemma_find_ws(rest);
    let e = word_end(rest);
    lemma_trim_start_shape(rest.skip(e));
    assert forall|i: int| 0 <= i < e implies !is_ws(#[trigger] rest.take(e)[i]) by {
        assert(rest.take(e)[i] == rest[i]);
    }
}

/// How the fields of an already trimmed `rest` relate to its words: as many
/// as fit in `k + 1`, the first `k` are words, and a field past the `k`-th
/// word holds the rest of the text from the next word on.
proof fn lemma_fields_rec_words(rest: Seq<char>, k: nat)
    requires
        trim_start(rest) == rest,
    ensures
        ({
            let f = fields_rec(rest, k);
            let w = words(rest);
            &&& f.len() == if w.len() < k + 1 { w.len() } else { k + 1 }
            &&& forall|i: int| 0 <= i < k && i < w.len() ==> #[trigger] f[i] == w[i]
            &&& w.len() > k ==> {
                &&& f[k as int].len() > 0
                &&& !is_ws(f[k as int][0])
                &&& f[k as int].len() <= rest.len()
                &&& rest.skip(rest.len() - f[k as int].len()) == f[k as int]
                &&& words(f[k as int]) == w.skip(k as int)
            }
        }),
    decreases k,
{
    let f = fields_rec(rest, k);
    let w = words(rest);
    if rest.len() == 0 {
        assert(w.len() == 0);
    } else if k == 0 {
        lemma_first_word(rest);
        assert(w.len() >= 1);
        assert(f =~= seq![rest]);
        assert(rest.skip(0) =~= rest);
        assert(w.skip(0) =~= w);
        lemma_trim_start_shape(rest);
    } else {
        lemma_first_word(rest);
        let e = word_end(rest);
        let after = rest.skip(e);
        let next = trim_start(after);
        lemma_trim_start_shape(after);
        lemma_trim_start_idempotent(after);
        lemma_words_trim_start(after);
        let k1 = (k - 1) as nat;
        lemma_fields_rec_words(next, k1);
        let f1 = fields_rec(next, k1);
        let w1 = words(next);
        assert(f == seq![rest.take(e)] + f1);
        assert(w == seq![rest.take(e)] + words(after));
        assert(w == seq![rest.take(e)] + w1);
        assert forall|i: int| 0 <= i < k && i < w.len() implies #[trigger] f[i] == w[i] by {
            if i > 0 {
                assert(f[i] == f1[i - 1]);
                assert(w[i] == w1[i - 1]);
            }
        }
        if w.len() > k {
            let last = f[k as int];
            assert(last == f1[k1 as int]);
            assert(rest.skip(rest.len() - last.len()) =~= next.skip(next.len() - last.len()));
            assert(w.skip(k as int) =~= w1.skip(k1 as int));
        }
    }
}

/// Splitting into at most `n` fields (`n >= 1`) against the words of `s`:
/// there are as many fields as words, up to `n`; the first `n - 1` fields are
/// the first words; where there are fewer than `n` words the fields are
/// exactly the words; otherwise the last field is the end of `s` from the
/// `n`-th word on, inner and trailing whitespace kept: it starts with that
/// word, and its words are the words that remain.
pub proof fn law_split_n_fields_words(s: Seq<char>, n: nat)
    requires
        n >= 1,
    ensures
        ({
            let f = split_n(s, n);
            let w = words(s);
            &&& f.len() == if w.len() < n { w.len() } else { n }
            &&& forall|i: int| 0 <= i < n - 1 && i < w.len() ==> #[trigger] f[i] == w[i]
            &&& w.len() < n ==> f == w
            &&& w.len() >= n ==> {
                let last = f[n - 1];
                &&& last.len() > 0
                &&& !is_ws(last[0])
                &&& last.len() <= s.len()
                &&& s.skip(s.len() - last.len()) == last
                &&& words(last) == w.skip(n - 1)
                &&& w[n - 1].is_prefix_of(last)
            }
        }),
{
    let t = trim_start(s);
    lemma_trim_start_idempotent(s);
    lemma_words_trim_start(s);
    lemma_trim_start_shape(s);
    lemma_fields_rec_words(t, (n - 1) as nat);
    let f = split_n(s, n);
    let w = words(s);
    if w.len() < n {
        assert(f =~= w);
    } else {
        let last = f[n - 1];
        assert(s.skip(s.len() - last.len()) =~= t.skip(t.len() - last.len()));
        assert(trim_start(last) == last);
        lemma_find_ws(last);
        assert(words(last)[0] == last.take(word_end(last)));
        assert(w.skip(n - 1)[0] == w[n - 1]);
        assert(w[n - 1] =~= last.subrange(0, w[n - 1].len() as int));
    }
}

proof fn lemma_fields_rec_shape(rest: Seq<char>, k: nat)
    requires
        trim_start(rest) == rest,
    ensures
        fields_rec(rest, k).len() <= k + 1,
        forall|i: int| 0 <= i < fields_rec(rest, k).len() ==> #[trigger] fields_rec(rest, k)[i].len() > 0,
        forall|i: int| 0 <= i < fields_rec(rest, k).len() - 1 ==> no_ws(#[trigger] fields_rec(rest, k)[i]),
    decreases k,
{
    if rest.len() == 0 || k == 0 {
    } else {
        lemma_first_word(rest);
        let e = word_end(rest);
        let next = trim_start(rest.skip(e));
        lemma_trim_start_idempotent(rest.skip(e));
        lemma_fields_rec_shape(next, (k - 1) as nat);
        let tail = fields_rec(next, (k - 1) as nat);
        let all = fields_rec(rest, k);
        assert(all == seq![rest.take(e)] + tail);
        assert forall|i: int| 0 <= i < all.len() implies #[trigger] all[i].len() > 0 by {
            if i > 0 {
                assert(all[i] == tail[i - 1]);
            }
        }
        assert forall|i: int| 0 <= i < all.len() - 1 implies no_ws(#[trigger] all[i]) by {
            if i > 0 {
                assert(all[i] == tail[i - 1]);
            }
        }
    }
}

/// Splitting into at most `n` fields gives at most `n` fields (none for
/// `n == 0`), none of them empty, and only the last of them may hold
/// whitespace.
pub proof fn law_split_n_fields_shape(s: Seq<char>, n: nat)
    ensures
        split_n(s, n).len() <= n,
        forall|i: int| 0 <= i < split_n(s, n).len() ==> #[trigger] split_n(s, n)[i].len() > 0,
        forall|i: int| 0 <= i < split_n(s, n).len() - 1 ==> no_ws(#[trigger] split_n(s, n)[i]),
{
    if n >= 1 {
        lemma_trim_start_idempotent(s);
        lemma_fields_rec_shape(trim_start(s), (n - 1) as nat);
    }
}

// ── Lines ─────────────────────────────────────────────────────────────────

/// Every line that `lines` keeps holds something other than whitespace and
/// does not end with whitespace; no more lines are kept than `text` has.
pub proof fn law_lines_nonblank(text: Seq<char>)
    ensures
        nonblank_lines(text).len() <= lines_of(text).len(),
        forall|i: int|
            0 <= i < nonblank_lines(text).len() ==> {
                let l = #[trigger] nonblank_lines(text)[i];
                has_non_ws(l) && !is_ws(l.last())
            },
{
    let f = |l: Seq<char>| nonblank_line(l);
    lemma_filter_map_len(lines_of(text), f);
    assert forall|i: int| 0 <= i < nonblank_lines(text).len() implies {
        let l = #[trigger] nonblank_lines(text)[i];
        has_non_ws(l) && !is_ws(l.last())
    } by {
        lemma_filter_map_from(lines_of(text), f, i);
        let j = choose|j: int|
            0 <= j < lines_of(text).len() && f(#[trigger] lines_of(text)[j]) == Some(
                nonblank_lines(text)[i],
            );
        let raw = lines_of(text)[j];
        lemma_trim_end_shape(raw);
        let l = trim_end(raw);
        let k = choose|k: int| 0 <= k < l.len() && !is_ws(#[trigger] l[k]);
        assert(l.len() > 0);
    }
}

// ── Key/value entries ─────────────────────────────────────────────────────

/// No whitespace at either end of `s`.
pub open spec fn is_trimmed(s: Seq<char>) -> bool {
    s.len() > 0 ==> !is_ws(s[0]) && !is_ws(s.last())
}

proof fn lemma_trim_char_start_shape(s: Seq<char>, c: char)
    ensures
        trim_char_start(s, c).len() <= s.len(),
        trim_char_start(s, c) == s.skip(s.len() - trim_char_start(s, c).len()),
        trim_char_start(s, c).len() > 0 ==> trim_char_start(s, c)[0] != c,
    decreases s.len(),
{
    if s.len() > 0 && s[0] == c {
        lemma_trim_char_start_shape(s.drop_first(), c);
        let t = trim_char_start(s.drop_first(), c);
        assert(s.drop_first().skip(s.drop_first().len() - t.len()) =~= s.skip(s.len() - t.len()));
    } else {
        assert(s.skip(0) =~= s);
    }
}

proof fn lemma_trim_char_end_shape(s: Seq<char>, c: char)
    ensures
        trim_char_end(s, c).len() <= s.len(),
        trim_char_end(s, c) == s.take(trim_char_end(s, c).len() as int),
        trim_char_end(s, c).len() > 0 ==> trim_char_end(s, c).last() != c,
    decreases s.len(),
{
    if s.len() > 0 && s.last() == c {
        lemma_trim_char_end_shape(s.drop_last(), c);
        let t = trim_char_end(s.drop_last(), c);
        assert(s.drop_last().take(t.len() as int) =~= s.take(t.len() as int));
    } else {
        assert(s.take(s.len() as int) =~= s);
    }
}

/// What `trim_char` leaves neither starts nor ends with `c`.
pub proof fn lemma_trim_char_shape(s: Seq<char>, c: char)
    ensures
        trim_char(s, c).len() > 0 ==> trim_char(s, c)[0] != c && trim_char(s, c).last() != c,
{
    lemma_trim_char_start_shape(s, c);
    let t = trim_char_start(s, c);
    lemma_trim_char_end_shape(t, c);
    let u = trim_char_end(t, c);
    if u.len() > 0 {
        assert(u[0] == t[0]);
    }
}

/// Every key that `key_values_equals` reports is trimmed and holds no `=`,
/// and no value starts or ends with a double quote.
pub proof fn law_key_values_equals_entries(text: Seq<char>)
    ensures
        forall|i: int|
            0 <= i < kv_equals_entries(text).len() ==> {
                let e = #[trigger] kv_equals_entries(text)[i];
                &&& is_trimmed(e.0)
                &&& !e.0.contains('=')
                &&& e.1.len() > 0 ==> e.1[0] != '"' && e.1.last() != '"'
            },
{
    let f = |l: Seq<char>| kv_equals_line(l);
    assert forall|i: int| 0 <= i < kv_equals_entries(text).len() implies {
        let e = #[trigger] kv_equals_entries(text)[i];
        &&& is_trimmed(e.0)
        &&& !e.0.contains('=')
        &&& e.1.len() > 0 ==> e.1[0] != '"' && e.1.last() != '"'
    } by {
        lemma_filter_map_from(lines_of(text), f, i);
        let j = choose|j: int|
            0 <= j < lines_of(text).len() && f(#[trigger] lines_of(text)[j]) == Some(
                filter_map_seq(lines_of(text), f)[i],
            );
        let t = trim(lines_of(text)[j]);
        lemma_find_char(t, '=');
        let e = find_char(t, '=').unwrap();
        lemma_trim_char_shape(trim(t.skip(e + 1)), '"');
        lemma_trim_shape(t.take(e));
        lemma_trim_piece_from(t.take(e));
        assert(!t.take(e).contains('=')) by {
            assert forall|j: int| 0 <= j < t.take(e).len() implies #[trigger] t.take(e)[j] != '=' by {
                assert(t.take(e)[j] == t[j]);
            }
        }
        assert(!trim(t.take(e)).contains('='));
    }
}

/// Every entry that `key_values_colon` reports has a trimmed key holding no
/// `:` and a trimmed value.
pub proof fn law_key_values_colon_entries(text: Seq<char>)
    ensures
        forall|i: int|
            0 <= i < kv_colon_entries(text).len() ==> {
                let e = #[trigger] kv_colon_entries(text)[i];
                is_trimmed(e.0) && !e.0.contains(':') && is_trimmed(e.1)
            },
{
    let f = |l: Seq<char>| kv_colon_line(l);
    assert forall|i: int| 0 <= i < kv_colon_entries(text).len() implies {
        let e = #[trigger] kv_colon_entries(text)[i];
        is_trimmed(e.0) && !e.0.contains(':') && is_trimmed(e.1)
    } by {
        lemma_filter_map_from(lines_of(text), f, i);
        let j = choose|j: int|
            0 <= j < lines_of(text).len() && f(#[trigger] lines_of(text)[j]) == Some(
                filter_map_seq(lines_of(text), f)[i],
            );
        let t = trim(lines_of(text)[j]);
        lemma_find_char(t, ':');
        let e = find_char(t, ':').unwrap();
        lemma_trim_shape(t.take(e));
        lemma_trim_shape(t.skip(e + 1));
        lemma_trim_piece_from(t.take(e));
        assert(!t.take(e).contains(':')) by {
            assert forall|j: int| 0 <= j < t.take(e).len() implies #[trigger] t.take(e)[j] != ':' by {
                assert(t.take(e)[j] == t[j]);
            }
        }
        assert(!trim(t.take(e)).contains(':'));
    }
}

/// Every character of `trim(s)` is a character of `s`.
pub proof fn lemma_trim_piece_from(s: Seq<char>)
    ensures
        forall|c: char| trim(s).contains(c) ==> s.contains(c),
{
    lemma_trim_start_shape(s);
    let t = trim_start(s);
    lemma_trim_end_shape(t);
    let k = s.len() - t.len();
    assert forall|c: char| trim(s).contains(c) implies s.contains(c) by {
        let i = choose|i: int| 0 <= i < trim(s).len() && trim(s)[i] == c;
        assert(trim(s)[i] == t[i]);
        assert(t[i] == s[k + i]);
    }
}

// ── Command output ────────────────────────────────────────────────────────

/// Where a command could not be run, its lines are the one error note,
/// whatever single-line message the error carries.
pub proof fn law_error_note_is_one_line(e: Seq<char>)
    requires
        !e.contains('\n'),
    ensures
        nonblank_lines("[error: "@ + e + "]"@) == seq!["[error: "@ + e + "]"@],
{
    reveal_strlit("[error: ");
    reveal_strlit("]");
    let note = "[error: "@ + e + "]"@;
    lemma_find_char(note, '\n');
    assert forall|j: int| 0 <= j < note.len() implies #[trigger] note[j] != '\n' by {
        if 8 <= j < 8 + e.len() {
            assert(note[j] == e[j - 8]);
            assert(e.contains(e[j - 8]));
        }
    }
    assert(lines_of(note) == seq![note]);
    assert(!is_ws(note.last()));
    assert(trim_end(note) == note);
    assert(has_non_ws(note)) by {
        assert(!is_ws(note[0]));
    }
    let f = |l: Seq<char>| nonblank_line(l);
    assert(f(note) == Some(note));
    assert(seq![note].drop_last() =~= Seq::<Seq<char>>::empty());
    assert(filter_map_seq(Seq::<Seq<char>>::empty(), f) =~= Seq::<Seq<char>>::empty());
    assert(filter_map_seq(seq![note], f) =~= seq![note]);
}

// ── lsblk pairs ───────────────────────────────────────────────────────────

/// One `KEY="value"` item.
pub open spec fn kv_item(p: (Seq<char>, Seq<char>)) -> Seq<char> {
    p.0 + "=\""@ + p.1 + "\""@
}

/// Pairs written as `lsblk -P` writes them: `KEY="value"` items separated by
/// single spaces.
pub open spec fn kv_line_text(ps: Seq<(Seq<char>, Seq<char>)>) -> Seq<char>
    decreases ps.len(),
{
    if ps.len() == 0 {
        seq![]
    } else if ps.len() == 1 {
        kv_item(ps[0])
    } else {
        kv_item(ps[0]) + " "@ + kv_line_text(ps.drop_first())
    }
}

/// A pair that the line format can carry: the key holds no `=` and no
/// whitespace at its ends, and the value holds no double quote.
pub open spec fn writable_pair(p: (Seq<char>, Seq<char>)) -> bool {
    &&& !p.0.contains('=')
    &&& is_trimmed(p.0)
    &&& !p.1.contains('"')
}

proof fn lemma_trim_start_noop(s: Seq<char>)
    requires
        s.len() == 0 || !is_ws(s[0]),
    ensures
        trim_start(s) == s,
{
}

proof fn lemma_trim_end_noop(s: Seq<char>)
    requires
        s.len() == 0 || !is_ws(s.last()),
    ensures
        trim_end(s) == s,
{
}

proof fn lemma_kv_line_text_first(ps: Seq<(Seq<char>, Seq<char>)>)
    requires
        ps.len() > 0,
        forall|i: int| 0 <= i < ps.len() ==> writable_pair(#[trigger] ps[i]),
    ensures
        !is_ws(kv_line_text(ps)[0]),
        kv_line_text(ps).len() > 0,
        kv_line_text(ps).last() == '"',
    decreases ps.len(),
{
    reveal_strlit("=\"");
    reveal_strlit("\"");
    reveal_strlit(" ");
    let p = ps[0];
    assert(writable_pair(p));
    if p.0.len() > 0 {
        assert(kv_line_text(ps)[0] == p.0[0]) by {
            if ps.len() > 1 {
                assert((kv_item(p) + " "@ + kv_line_text(ps.drop_first()))[0] == kv_item(p)[0]);
            }
        }
    } else {
        assert(kv_line_text(ps)[0] == '=') by {
            if ps.len() > 1 {
                assert((kv_item(p) + " "@ + kv_line_text(ps.drop_first()))[0] == kv_item(p)[0]);
            }
        }
    }
    if ps.len() > 1 {
        assert forall|i: int| 0 <= i < ps.drop_first().len() implies writable_pair(
            #[trigger] ps.drop_first()[i],
        ) by {
            assert(ps.drop_first()[i] == ps[i + 1]);
        }
        lemma_kv_line_text_first(ps.drop_first());
    }
}

proof fn lemma_kv_pairs_of_text(ps: Seq<(Seq<char>, Seq<char>)>)
    requires
        forall|i: int| 0 <= i < ps.len() ==> writable_pair(#[trigger] ps[i]),
    ensures
        kv_pairs(kv_line_text(ps)) == ps,
    decreases ps.len(),
{
    reveal_strlit("=\"");
    reveal_strlit("\"");
    reveal_strlit(" ");
    if ps.len() == 0 {
        return;
    }
    let p = ps[0];
    assert(writable_pair(p));
    let rest_text = if ps.len() == 1 {
        Seq::<char>::empty()
    } else {
        " "@ + kv_line_text(ps.drop_first())
    };
    let s = kv_line_text(ps);
    assert(s =~= p.0 + "=\""@ + p.1 + "\""@ + rest_text);
    // The first '=' is the one after the key.
    lemma_find_char(s, '=');
    assert(s[p.0.len() as int] == '=');
    assert forall|j: int| 0 <= j < p.0.len() implies #[trigger] s[j] != '=' by {
        assert(s[j] == p.0[j]);
        assert(p.0.contains(p.0[j]));
    }
    let eq = p.0.len() as int;
    assert(find_char(s, '=') == Some(eq));
    assert(s.take(eq) =~= p.0);
    lemma_trim_start_noop(p.0);
    lemma_trim_end_noop(p.0);
    assert(trim(p.0) == p.0);
    let r = s.skip(eq + 1);
    assert(r =~= seq!['"'] + p.1 + "\""@ + rest_text);
    let r2 = r.drop_first();
    assert(r2 =~= p.1 + "\""@ + rest_text);
    lemma_find_char(r2, '"');
    assert(r2[p.1.len() as int] == '"');
    assert forall|j: int| 0 <= j < p.1.len() implies #[trigger] r2[j] != '"' by {
        assert(r2[j] == p.1[j]);
        assert(p.1.contains(p.1[j]));
    }
    assert(find_char(r2, '"') == Some(p.1.len() as int));
    assert(r2.take(p.1.len() as int) =~= p.1);
    assert(r2.skip(p.1.len() as int + 1) =~= rest_text);
    assert(kv_value(r) == (p.1, rest_text));
    if ps.len() == 1 {
        assert(kv_pairs(s) == seq![(p.0, p.1)] + kv_pairs(trim_start(rest_text)));
        assert(kv_pairs(s) =~= ps);
    } else {
        let tail = ps.drop_first();
        assert forall|i: int| 0 <= i < tail.len() implies writable_pair(#[trigger] tail[i]) by {
            assert(tail[i] == ps[i + 1]);
        }
        lemma_kv_line_text_first(tail);
        lemma_kv_pairs_of_text(tail);
        assert(is_ws(rest_text[0]));
        assert(rest_text.drop_first() =~= kv_line_text(tail));
        lemma_trim_start_noop(kv_line_text(tail));
        assert(trim_start(rest_text) == kv_line_text(tail));
        assert(kv_pairs(s) == seq![(p.0, p.1)] + kv_pairs(kv_line_text(tail)));
        assert(kv_pairs(s) =~= ps);
    }
}

/// Parsing a line written in the `lsblk -P` format gives back exactly the
/// pairs it was written from, in order.
pub proof fn law_lsblk_kv_round_trip(ps: Seq<(Seq<char>, Seq<char>)>)
    requires
        forall|i: int| 0 <= i < ps.len() ==> writable_pair(#[trigger] ps[i]),
    ensures
        kv_pairs(trim(kv_line_text(ps))) == ps,
{
    if ps.len() > 0 {
        lemma_kv_line_text_first(ps);
        reveal_strlit("\"");
        lemma_trim_start_noop(kv_line_text(ps));
        lemma_trim_end_noop(kv_line_text(ps));
    }
    lemma_kv_pairs_of_text(ps);
}

// ── Units to log ──────────────────────────────────────────────────────────

/// The two units whose logs are always collected.
pub open spec fn default_units() -> Seq<Seq<char>> {
    seq!["NetworkManager.service"@, "sshd@.service"@]
}

/// No unit is listed twice.
pub open spec fn distinct(units: Seq<Seq<char>>) -> bool {
    forall|i: int, j: int| 0 <= i < j < units.len() ==> units[i] != units[j]
}

/// The units to log start with the two defaults, name every listed service,
/// name nothing else, and name nothing twice.
pub proof fn law_log_units(services: Seq<SystemdUnitView>)
    ensures
        units_to_log(services).len() >= 2,
        units_to_log(services).take(2) == default_units(),
        distinct(units_to_log(services)),
        forall|i: int|
            0 <= i < services.len() ==> units_to_log(services).contains(#[trigger] services[i].unit),
        forall|u: Seq<char>|
            units_to_log(services).contains(u) ==> default_units().contains(u) || exists|i: int|
                0 <= i < services.len() && #[trigger] services[i].unit == u,
    decreases services.len(),
{
    reveal_strlit("NetworkManager.service");
    reveal_strlit("sshd@.service");
    let units = units_to_log(services);
    if services.len() == 0 {
        assert("NetworkManager.service"@[0] != "sshd@.service"@[0]);
        assert(units.take(2) =~= default_units());
        assert forall|u: Seq<char>| units.contains(u) implies default_units().contains(u) by {}
    } else {
        let prev_services = services.drop_last();
        law_log_units(prev_services);
        let prev = units_to_log(prev_services);
        let last = services.last();
        if prev.contains(last.unit) {
            assert(units == prev);
        } else {
            assert(units == prev.push(last.unit));
            assert(units.take(2) =~= prev.take(2));
        }
        assert forall|i: int| 0 <= i < services.len() implies units.contains(
            #[trigger] services[i].unit,
        ) by {
            if i < services.len() - 1 {
                assert(services[i] == prev_services[i]);
                assert(prev.contains(prev_services[i].unit));
                let k = choose|k: int| 0 <= k < prev.len() && prev[k] == prev_services[i].unit;
                assert(units[k] == prev[k]);
            } else {
                if !prev.contains(last.unit) {
                    assert(units[units.len() - 1] == last.unit);
                }
            }
        }
        assert forall|u: Seq<char>| units.contains(u) implies default_units().contains(u) || exists|
            i: int,
        | 0 <= i < services.len() && #[trigger] services[i].unit == u by {
            let k = choose|k: int| 0 <= k < units.len() && units[k] == u;
            if k < prev.len() {
                assert(prev[k] == u);
                assert(prev.contains(u));
                if !default_units().contains(u) {
                    let i = choose|i: int|
                        0 <= i < prev_services.len() && #[trigger] prev_services[i].unit == u;
                    assert(services[i] == prev_services[i]);
                }
            } else {
                assert(services[services.len() - 1].unit == u);
            }
        }
    }
}

/// Whether some service listed before index `before` has unit `u`.
pub open spec fn listed_before(services: Seq<SystemdUnitView>, u: Seq<char>, before: int) -> bool {
    exists|k: int| 0 <= k < before && #[trigger] services[k].unit == u
}

/// After the two defaults, the units to log are services that are not
/// defaults, in the order in which they are first listed: wherever a later
/// one is listed, an earlier one has been listed before it.
pub proof fn law_log_units_order(services: Seq<SystemdUnitView>)
    ensures
        forall|i: int|
            2 <= i < units_to_log(services).len() ==> !default_units().contains(
                #[trigger] units_to_log(services)[i],
            ) && listed_before(services, units_to_log(services)[i], services.len() as int),
        forall|i: int, j: int, kj: int|
            2 <= i < j < units_to_log(services).len() && 0 <= kj < services.len()
                && #[trigger] services[kj].unit == #[trigger] units_to_log(services)[j]
                ==> listed_before(services, #[trigger] units_to_log(services)[i], kj),
    decreases services.len(),
{
    law_log_units(services);
    let units = units_to_log(services);
    if services.len() == 0 {
        return;
    }
    let prev_s = services.drop_last();
    law_log_units_order(prev_s);
    law_log_units(prev_s);
    let prev = units_to_log(prev_s);
    let last = services.last();
    let n = services.len() as int;
    assert forall|u: Seq<char>, b: int| b <= n - 1 && listed_before(prev_s, u, b) implies
        #[trigger] listed_before(services, u, b) by {
        let k = choose|k: int| 0 <= k < b && #[trigger] prev_s[k].unit == u;
        assert(services[k] == prev_s[k]);
    }
    assert(prev.take(2) == default_units());
    assert forall|i: int| 2 <= i < units.len() implies !default_units().contains(
        #[trigger] units[i],
    ) && listed_before(services, units[i], n) by {
        if i < prev.len() {
            assert(units[i] == prev[i]);
            assert(listed_before(prev_s, prev[i], n - 1));
            assert(listed_before(services, units[i], n - 1));
            let k = choose|k: int| 0 <= k < n - 1 && #[trigger] services[k].unit == units[i];
            assert(listed_before(services, units[i], n));
        } else {
            assert(!prev.contains(last.unit));
            assert(units[i] == last.unit);
            assert forall|d: int| 0 <= d < 2 implies #[trigger] default_units()[d] != last.unit by {
                assert(prev[d] == prev.take(2)[d]);
            }
            assert(services[n - 1].unit == units[i]);
        }
    }
    assert forall|i: int, j: int, kj: int|
        2 <= i < j < units.len() && 0 <= kj < services.len()
            && #[trigger] services[kj].unit == #[trigger] units[j] implies listed_before(
        services,
        #[trigger] units[i],
        kj,
    ) by {
        assert(units[i] == prev[i]);
        assert(listed_before(prev_s, prev[i], n - 1));
        if j < prev.len() {
            assert(units[j] == prev[j]);
            if kj < n - 1 {
                assert(prev_s[kj] == services[kj]);
                assert(prev_s[kj].unit == prev[j]);
                assert(listed_before(prev_s, prev[i], kj));
            } else {
                assert(listed_before(services, prev[i], n - 1));
            }
        } else {
            assert(units[j] == last.unit);
            assert(!prev.contains(last.unit));
            if kj < n - 1 {
                assert(prev_s[kj] == services[kj]);
                assert(prev.contains(prev_s[kj].unit));
            }
            assert(listed_before(services, prev[i], n - 1));
        }
    }
}

// ── Uptime and byte counts ────────────────────────────────────────────────

/// The uptime text names days, hours, minutes and seconds that add up to
/// exactly the seconds it was given, with hours below 24 and minutes and
/// seconds below 60.
pub proof fn law_uptime_parts(total: nat)
    ensures
        ({
            let days = total / 86400;
            let hours = (total % 86400) / 3600;
            let minutes = (total % 3600) / 60;
            let seconds = total % 60;
            &&& days * 86400 + hours * 3600 + minutes * 60 + seconds == total
            &&& hours < 24
            &&& minutes < 60
            &&& seconds < 60
        }),
{
    let days = total / 86400;
    let hours = (total % 86400) / 3600;
    let minutes = (total % 3600) / 60;
    let seconds = total % 60;
    assert(days * 86400 + hours * 3600 + minutes * 60 + seconds == total) by (nonlinear_arith)
        requires
            days == total / 86400,
            hours == (total % 86400) / 3600,
            minutes == (total % 3600) / 60,
            seconds == total % 60,
    ;
    assert(hours < 24) by (nonlinear_arith)
        requires
            hours == (total % 86400) / 3600,
    ;
}

/// The one-decimal figure is within half a tenth of a unit of the count it
/// stands for: `t / 10` units, where `t` is the rounded number of tenths.
pub proof fn law_one_decimal_is_nearest(n: nat, unit: nat)
    requires
        unit > 0,
    ensures
        ({
            let t = round_half_even(10 * n, unit);
            &&& 2 * (t * unit - 10 * n) <= unit
            &&& 2 * (10 * n - t * unit) <= unit
        }),
{
    let m = 10 * n;
    let q = m / unit;
    let r = m % unit;
    assert(m == q * unit + r && 0 <= r < unit) by (nonlinear_arith)
        requires
            unit > 0,
            q == m / unit,
            r == m % unit,
    ;
    let t = round_half_even(m, unit);
    if t == q + 1 {
        assert(t * unit == q * unit + unit) by (nonlinear_arith)
            requires
                t == q + 1,
        ;
    } else {
        assert(t * unit == q * unit);
    }
}

// ── Words of concatenated text ────────────────────────────────────────────

/// Every character of `x` is whitespace.
pub open spec fn all_ws(x: Seq<char>) -> bool {
    forall|i: int| 0 <= i < x.len() ==> is_ws(#[trigger] x[i])
}

proof fn lemma_words_drop_ws(x: Seq<char>)
    requires
        x.len() > 0,
        is_ws(x[0]),
    ensures
        words(x) == words(x.drop_first()),
{
    assert(trim_start(x) == trim_start(x.drop_first()));
}

pub proof fn lemma_words_empty()
    ensures
        words(Seq::<char>::empty()) == Seq::<Seq<char>>::empty(),
{
}

/// The words of a non-empty piece without whitespace: the piece itself.
pub proof fn lemma_words_single(x: Seq<char>)
    requires
        x.len() > 0,
        no_ws(x),
    ensures
        words(x) == seq![x],
{
    lemma_find_ws(x);
    assert(trim_start(x) == x);
    assert(word_end(x) == x.len());
    assert(x.take(x.len() as int) =~= x);
    assert(x.skip(x.len() as int) =~= Seq::<char>::empty());
    lemma_words_empty();
}

/// Whitespace in front of `q` adds no word.
pub proof fn lemma_words_ws_prefix(p: Seq<char>, q: Seq<char>)
    requires
        all_ws(p),
    ensures
        words(p + q) == words(q),
    decreases p.len(),
{
    if p.len() == 0 {
        assert(p + q =~= q);
    } else {
        lemma_words_drop_ws(p + q);
        assert((p + q).drop_first() =~= p.drop_first() + q);
        lemma_words_ws_prefix(p.drop_first(), q);
    }
}

/// Where whitespace (or nothing) follows `p`, the words of `p + q` are those
/// of `p` followed by those of `q`.
pub proof fn lemma_words_append(p: Seq<char>, q: Seq<char>)
    requires
        q.len() == 0 || is_ws(q[0]),
    ensures
        words(p + q) == words(p) + words(q),
    decreases p.len(),
{
    let s = p + q;
    if p.len() == 0 {
        assert(s =~= q);
        lemma_words_empty();
        assert(words(p) + words(q) =~= words(q));
    } else if is_ws(p[0]) {
        lemma_words_drop_ws(s);
        lemma_words_drop_ws(p);
        assert(s.drop_first() =~= p.drop_first() + q);
        lemma_words_append(p.drop_first(), q);
    } else {
        assert(trim_start(s) == s);
        assert(trim_start(p) == p);
        lemma_find_ws(p);
        lemma_find_ws(s);
        match find_ws(p) {
            Some(i) => {
                assert(s[i] == p[i]);
                assert forall|j: int| 0 <= j < i implies !is_ws(#[trigger] s[j]) by {
                    assert(s[j] == p[j]);
                }
                assert(word_end(s) == i);
                assert(s.take(i) =~= p.take(i));
                assert(s.skip(i) =~= p.skip(i) + q);
                lemma_words_append(p.skip(i), q);
                assert(words(s) == seq![p.take(i)] + words(p.skip(i) + q));
                assert(words(p) == seq![p.take(i)] + words(p.skip(i)));
                assert(words(s) =~= words(p) + words(q));
            },
            None => {
                assert forall|j: int| 0 <= j < p.len() implies !is_ws(#[trigger] s[j]) by {
                    assert(s[j] == p[j]);
                }
                if q.len() > 0 {
                    assert(s[p.len() as int] == q[0]);
                }
                assert(word_end(s) == p.len());
                assert(s.take(p.len() as int) =~= p);
                assert(s.skip(p.len() as int) =~= q);
                assert(p.take(p.len() as int) =~= p);
                assert(p.skip(p.len() as int) =~= Seq::<char>::empty());
                lemma_words_empty();
                assert(words(p) =~= seq![p]);
                assert(words(s) =~= words(p) + words(q));
            },
        }
    }
}

proof fn lemma_spaces_all_ws(n: nat)
    ensures
        all_ws(repeat_char(' ', n)),
{
}

/// A column of `x` (padded either way) has the words of `x`.
pub proof fn lemma_words_aligned(x: Seq<char>, w: nat)
    ensures
        words(align_left(x, w)) == words(x),
        words(align_right(x, w)) == words(x),
{
    reveal(align_left);
    reveal(align_right);
    if x.len() < w {
        let sp = repeat_char(' ', (w - x.len()) as nat);
        lemma_spaces_all_ws((w - x.len()) as nat);
        lemma_words_append(x, sp);
        lemma_words_ws_prefix(sp, Seq::<char>::empty());
        lemma_words_empty();
        assert(sp + Seq::<char>::empty() =~= sp);
        assert(words(x) + words(sp) =~= words(x));
        lemma_words_ws_prefix(sp, x);
    }
}

/// A column, then two spaces and what follows: the words of the column, then
/// those of what follows.
pub proof fn lemma_words_column(c: Seq<char>, rest: Seq<char>)
    ensures
        words(c + ("  "@ + rest)) == words(c) + words(rest),
{
    reveal_strlit("  ");
    lemma_words_append(c, "  "@ + rest);
    lemma_words_ws_prefix("  "@, rest);
}

// ── Characters of printed numbers ─────────────────────────────────────────

/// Neither a line feed nor a carriage return anywhere in `x`.
pub open spec fn no_nl(x: Seq<char>) -> bool {
    forall|i: int| 0 <= i < x.len() ==> #[trigger] x[i] != '\n'
}

pub proof fn lemma_digit_char(d: nat)
    requires
        d < 10,
    ensures
        is_digit(digit_char(d)),
{
    assert((d + 48) as char as int == d + 48);
}

/// A decimal number is a non-empty run of digits.
pub proof fn lemma_dec_digits(n: nat)
    ensures
        dec(n).len() > 0,
        forall|i: int| 0 <= i < dec(n).len() ==> is_digit(#[trigger] dec(n)[i]),
    decreases n,
{
    if n < 10 {
        lemma_digit_char(n);
    } else {
        lemma_dec_digits(n / 10);
        lemma_digit_char(n % 10);
        assert forall|i: int| 0 <= i < dec(n).len() implies is_digit(#[trigger] dec(n)[i]) by {
            if i < dec(n / 10).len() {
                assert(dec(n)[i] == dec(n / 10)[i]);
            }
        }
    }
}

/// A piece of text that can stand as one word in a column.
pub open spec fn token(x: Seq<char>) -> bool {
    x.len() > 0 && no_ws(x) && no_nl(x) && x.last() != '\r'
}

pub proof fn lemma_dec_token(n: nat)
    ensures
        token(dec(n)),
{
    lemma_dec_digits(n);
}

/// A byte count as printed is one word.
pub proof fn lemma_bytes_text_token(b: nat)
    ensures
        token(bytes_text(b)),
{
    reveal_strlit(".");
    reveal_strlit("G");
    reveal_strlit("M");
    reveal_strlit("K");
    reveal_strlit("B");
    let x = bytes_text(b);
    if b >= gib() || b >= mib() || b >= kib() {
        let (v, unit) = if b >= gib() {
            (f64_value(b), gib())
        } else if b >= mib() {
            (b, mib())
        } else {
            (b, kib())
        };
        let t = round_half_even(10 * v, unit);
        lemma_dec_digits(t / 10);
        lemma_digit_char(t % 10);
        let d = one_decimal(v, unit);
        assert forall|i: int| 0 <= i < x.len() implies !is_ws(#[trigger] x[i]) && x[i] != '\n' by {
            if i < dec(t / 10).len() {
                assert(x[i] == dec(t / 10)[i]);
            }
        }
    } else {
        lemma_dec_digits(b);
        assert forall|i: int| 0 <= i < x.len() implies !is_ws(#[trigger] x[i]) && x[i] != '\n' by {
            if i < dec(b).len() {
                assert(x[i] == dec(b)[i]);
            }
        }
    }
}

} // verus!
