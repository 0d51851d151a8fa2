//! Parsers for the text that system commands print.
use vstd::prelude::*;

use crate::text::{find_char, find_char_in, has_non_ws, is_digit, lemma_find_char, lemma_slice_views_push, lemma_trim_shape, lemma_trim_start_shape, lines_of, parse_unsigned, parse_unsigned_in, push_str, slice, slice_views, split_lines, split_n, split_n_in, split_once_char, split_once_char_in, split_once_sub, split_once_sub_in, string_of, to_chars, trim, trim_char, trim_char_chars, trim_char_end, trim_char_end_chars, trim_chars, trim_end, trim_end_chars, trim_start, trim_start_chars, words, words_in};
use crate::types::{BlockDevice, BlockDeviceView, DfEntry, DfEntryView, DiskUsage, KeyValue, MemoryRow, MemoryRowView, MountEntry, MountEntryView, PciDevice, Process, ProcessView, SocketEntry, SocketEntryView, SystemdUnit, SystemdUnitView, TextLines, UsbDevice, UsbDeviceView, lemma_views_push, views};

verus! {

// ── Sequences ─────────────────────────────────────────────────────────────

/// The values `f` gives for the elements of `s`, in order, where it gives one.
pub open spec fn filter_map_seq<A, B>(s: Seq<A>, f: spec_fn(A) -> Option<B>) -> Seq<B>
    decreases s.len(),
{
    if s.len() == 0 {
        seq![]
    } else {
        let prev = filter_map_seq(s.drop_last(), f);
        match f(s.last()) {
            Some(b) => prev.push(b),
            None => prev,
        }
    }
}

pub proof fn lemma_filter_map_take<A, B>(s: Seq<A>, f: spec_fn(A) -> Option<B>, i: int)
    requires
        0 <= i < s.len(),
    ensures
        filter_map_seq(s.take(i + 1), f) == match f(s[i]) {
            Some(b) => filter_map_seq(s.take(i), f).push(b),
            None => filter_map_seq(s.take(i), f),
        },
{
    assert(s.take(i + 1).drop_last() =~= s.take(i));
}

pub proof fn lemma_filter_map_len<A, B>(s: Seq<A>, f: spec_fn(A) -> Option<B>)
    ensures
        filter_map_seq(s, f).len() <= s.len(),
    decreases s.len(),
{
    if s.len() > 0 {
        lemma_filter_map_len(s.drop_last(), f);
    }
}

/// Each element of `filter_map_seq(s, f)` is what `f` gives for some
/// element of `s`.
pub proof fn lemma_filter_map_from<A, B>(s: Seq<A>, f: spec_fn(A) -> Option<B>, k: int)
    requires
        0 <= k < filter_map_seq(s, f).len(),
    ensures
        exists|i: int| 0 <= i < s.len() && f(#[trigger] s[i]) == Some(filter_map_seq(s, f)[k]),
    decreases s.len(),
{
    lemma_filter_map_len(s, f);
    let prev = filter_map_seq(s.drop_last(), f);
    lemma_filter_map_len(s.drop_last(), f);
    if k < prev.len() {
        lemma_filter_map_from(s.drop_last(), f, k);
        let i = choose|i: int|
            0 <= i < s.drop_last().len() && f(#[trigger] s.drop_last()[i]) == Some(prev[k]);
        assert(s[i] == s.drop_last()[i]);
    } else {
        assert(f(s[s.len() - 1]) == Some(filter_map_seq(s, f)[k]));
    }
}

/// `ss` joined with `sep` between neighbours (`join`).
pub open spec fn join(ss: Seq<Seq<char>>, sep: Seq<char>) -> Seq<char>
    decreases ss.len(),
{
    if ss.len() == 0 {
        seq![]
    } else if ss.len() == 1 {
        ss[0]
    } else {
        join(ss.drop_last(), sep) + sep + ss.last()
    }
}

/// The pieces of `s` between the occurrences of `c` (`str::split` with a
/// char): one more piece than there are `c`s, empty pieces included.
pub open spec fn split_char(s: Seq<char>, c: char) -> Seq<Seq<char>>
    decreases s.len(),
{
    match find_char(s, c) {
        Some(i) => {
            proof {
                lemma_find_char(s, c);
            }
            seq![s.take(i)] + split_char(s.skip(i + 1), c)
        },
        None => seq![s],
    }
}

/// `ss` with each piece trimmed.
pub open spec fn trim_each(ss: Seq<Seq<char>>) -> Seq<Seq<char>> {
    Seq::new(ss.len(), |i: int| trim(ss[i]))
}

/// The number that `s` spells, or 0 where it spells none that fits below
/// `max` (`s.parse().unwrap_or(0)`).
pub open spec fn parse_or_zero(s: Seq<char>, max: nat) -> nat {
    match parse_unsigned(s, max) {
        Some(v) => v,
        None => 0,
    }
}

// ── Executable helpers ────────────────────────────────────────────────────

/// A string for each slice.
pub fn strings_of(v: &[&[char]]) -> (r: Vec<String>)
    ensures
        views(r@) == slice_views(v@),
{
    let mut r: Vec<String> = Vec::new();
    let mut i: usize = 0;
    while i < v.len()
        invariant
            i <= v@.len(),
            views(r@) =~= slice_views(v@).take(i as int),
        decreases v.len() - i,
    {
        let s = string_of(v[i]);
        proof {
            lemma_views_push(r@, s);
        }
        r.push(s);
        assert(slice_views(v@).take(i + 1) =~= slice_views(v@).take(i as int).push(v@[i as int]@));
        i = i + 1;
    }
    r
}

/// Executable form of [`join`].
pub fn join_strings(ss: &Vec<String>, sep: &str) -> (r: String)
    ensures
        r@ == join(views(ss@), sep@),
{
    let mut r = String::new();
    let mut i: usize = 0;
    assert(views(ss@).take(0) =~= Seq::<Seq<char>>::empty());
    while i < ss.len()
        invariant
            i <= ss@.len(),
            r@ == join(views(ss@).take(i as int), sep@),
        decreases ss.len() - i,
    {
        let ghost before = views(ss@).take(i as int);
        assert(views(ss@).take(i + 1).drop_last() =~= before);
        if i > 0 {
            push_str(&mut r, sep);
        }
        push_str(&mut r, ss[i].as_str());
        proof {
            if i == 0 {
                assert(r@ =~= views(ss@).take(1)[0]);
            } else {
                assert(r@ =~= join(before, sep@) + sep@ + ss@[i as int]@);
            }
        }
        i = i + 1;
    }
    assert(views(ss@).take(ss@.len() as int) =~= views(ss@));
    r
}

/// Executable form of [`split_char`].
pub fn split_char_in<'a>(s: &'a [char], c: char) -> (r: Vec<&'a [char]>)
    ensures
        slice_views(r@) == split_char(s@, c),
{
    let mut out: Vec<&'a [char]> = Vec::new();
    let mut rest = s;
    assert(slice_views(out@) =~= Seq::<Seq<char>>::empty());
    loop
        invariant
            split_char(s@, c) =~= slice_views(out@) + split_char(rest@, c),
        decreases rest@.len(),
    {
        proof {
            lemma_find_char(rest@, c);
        }
        let n = rest.len();
        match find_char_in(rest, c) {
            Some(i) => {
                let piece = slice(rest, 0, i);
                proof {
                    lemma_slice_views_push(out@, piece);
                }
                out.push(piece);
                rest = slice(rest, i + 1, n);
            },
            None => {
                proof {
                    lemma_slice_views_push(out@, rest);
                }
                out.push(rest);
                return out;
            },
        }
    }
}

/// Executable form of [`trim_each`].
pub fn trim_each_in<'a>(v: &Vec<&'a [char]>) -> (r: Vec<&'a [char]>)
    ensures
        slice_views(r@) == trim_each(slice_views(v@)),
{
    let mut r: Vec<&'a [char]> = Vec::new();
    let mut i: usize = 0;
    while i < v.len()
        invariant
            i <= v@.len(),
            slice_views(r@) =~= trim_each(slice_views(v@)).take(i as int),
        decreases v.len() - i,
    {
        let t = trim_chars(v[i]);
        proof {
            lemma_slice_views_push(r@, t);
        }
        r.push(t);
        assert(trim_each(slice_views(v@)).take(i + 1) =~= trim_each(slice_views(v@)).take(
            i as int,
        ).push(t@));
        i = i + 1;
    }
    r
}

/// Executable form of [`parse_or_zero`].
pub fn parse_or_zero_in(s: &[char], max: u64) -> (r: u64)
    ensures
        r as nat == parse_or_zero(s@, max as nat),
{
    match parse_unsigned_in(s, max) {
        Some(v) => v,
        None => 0,
    }
}

// ── Lines and key/value text ──────────────────────────────────────────────

/// A line with its trailing whitespace removed, where it holds anything
/// but whitespace.
pub open spec fn nonblank_line(l: Seq<char>) -> Option<Seq<char>> {
    if has_non_ws(trim_end(l)) {
        Some(trim_end(l))
    } else {
        None
    }
}

/// The lines of `text` that are not blank, each without trailing whitespace.
pub open spec fn nonblank_lines(text: Seq<char>) -> Seq<Seq<char>> {
    filter_map_seq(lines_of(text), |l: Seq<char>| nonblank_line(l))
}

/// The non-blank lines of `text`, each with trailing whitespace removed.
pub fn lines(text: &str) -> (r: Vec<String>)
    ensures
        views(r@) == nonblank_lines(text@),
{
    let chars = to_chars(text);
    let ls = split_lines(chars.as_slice());
    let mut out: Vec<String> = Vec::new();
    let mut i: usize = 0;
    let ghost all = lines_of(text@);
    assert(all.take(0) =~= Seq::<Seq<char>>::empty());
    while i < ls.len()
        invariant
            i <= ls@.len(),
            slice_views(ls@) == all,
            all == lines_of(text@),
            views(out@) == filter_map_seq(all.take(i as int), |l: Seq<char>| nonblank_line(l)),
        decreases ls.len() - i,
    {
        proof {
            lemma_filter_map_take(all, |l: Seq<char>| nonblank_line(l), i as int);
        }
        let t = trim_end_chars(ls[i]);
        assert(t@ == trim_end(all[i as int]));
        let inner = trim_chars(t);
        proof {
            lemma_trim_shape(t@);
        }
        if inner.len() > 0 {
            let s = string_of(t);
            proof {
                lemma_views_push(out@, s);
            }
            out.push(s);
        }
        i = i + 1;
    }
    assert(all.take(ls@.len() as int) =~= all);
    out
}

/// A `key=value` line: both sides trimmed, double quotes stripped from the
/// value.
pub open spec fn kv_equals_line(l: Seq<char>) -> Option<(Seq<char>, Seq<char>)> {
    match split_once_char(trim(l), '=') {
        Some((k, v)) => Some((trim(k), trim_char(trim(v), '"'))),
        None => None,
    }
}

/// The `key=value` entries of `text`, one per line that has an `=`.
pub open spec fn kv_equals_entries(text: Seq<char>) -> Seq<(Seq<char>, Seq<char>)> {
    filter_map_seq(lines_of(text), |l: Seq<char>| kv_equals_line(l))
}

/// The `key: value` entries of `text`, one per line that has a `:`.
pub open spec fn kv_colon_entries(text: Seq<char>) -> Seq<(Seq<char>, Seq<char>)> {
    filter_map_seq(lines_of(text), |l: Seq<char>| kv_colon_line(l))
}

/// A `key: value` line: both sides trimmed.
pub open spec fn kv_colon_line(l: Seq<char>) -> Option<(Seq<char>, Seq<char>)> {
    match split_once_char(trim(l), ':') {
        Some((k, v)) => Some((trim(k), trim(v))),
        None => None,
    }
}

fn kv_line_in(l: &[char], sep: char, unquote: bool) -> (r: Option<KeyValue>)
    ensures
        sep == '=' && unquote ==> match r {
            Some(kv) => kv_equals_line(l@) == Some(kv@),
            None => kv_equals_line(l@) is None,
        },
        sep == ':' && !unquote ==> match r {
            Some(kv) => kv_colon_line(l@) == Some(kv@),
            None => kv_colon_line(l@) is None,
        },
{
    let t = trim_chars(l);
    match split_once_char_in(t, sep) {
        Some((k, v)) => {
            let key = string_of(trim_chars(k));
            let value = if unquote {
                string_of(trim_char_chars(trim_chars(v), '"'))
            } else {
                string_of(trim_chars(v))
            };
            Some(KeyValue { key, value })
        },
        None => None,
    }
}

fn key_values_in(text: &str, sep: char, unquote: bool) -> (r: Vec<KeyValue>)
    ensures
        sep == '=' && unquote ==> views(r@) == filter_map_seq(
            lines_of(text@),
            |l: Seq<char>| kv_equals_line(l),
        ),
        sep == ':' && !unquote ==> views(r@) == filter_map_seq(
            lines_of(text@),
            |l: Seq<char>| kv_colon_line(l),
        ),
{
    let chars = to_chars(text);
    let ls = split_lines(chars.as_slice());
    let mut out: Vec<KeyValue> = Vec::new();
    let mut i: usize = 0;
    let ghost all = lines_of(text@);
    assert(all.take(0) =~= Seq::<Seq<char>>::empty());
    while i < ls.len()
        invariant
            i <= ls@.len(),
            slice_views(ls@) == all,
            all == lines_of(text@),
            sep == '=' && unquote ==> views(out@) == filter_map_seq(
                all.take(i as int),
                |l: Seq<char>| kv_equals_line(l),
            ),
            sep == ':' && !unquote ==> views(out@) == filter_map_seq(
                all.take(i as int),
                |l: Seq<char>| kv_colon_line(l),
            ),
        decreases ls.len() - i,
    {
        proof {
            lemma_filter_map_take(all, |l: Seq<char>| kv_equals_line(l), i as int);
            lemma_filter_map_take(all, |l: Seq<char>| kv_colon_line(l), i as int);
        }
        assert(ls@[i as int]@ == all[i as int]);
        match kv_line_in(ls[i], sep, unquote) {
            Some(kv) => {
                proof {
                    lemma_views_push(out@, kv);
                }
                out.push(kv);
            },
            None => {},
        }
        i = i + 1;
    }
    assert(all.take(ls@.len() as int) =~= all);
    out
}

/// The `key=value` entries of `text`, one per line; lines without `=` are
/// skipped, and double quotes around a value are removed.
pub fn key_values_equals(text: &str) -> (r: Vec<KeyValue>)
    ensures
        views(r@) == kv_equals_entries(text@),
{
    key_values_in(text, '=', true)
}

/// The `key: value` entries of `text`, one per line; lines without `:` are
/// skipped.
pub fn key_values_colon(text: &str) -> (r: Vec<KeyValue>)
    ensures
        views(r@) == kv_colon_entries(text@),
{
    key_values_in(text, ':', false)
}

// ── Command output ────────────────────────────────────────────────────────

/// What a command printed: its standard output where that holds anything
/// but whitespace, else its standard error where that does, else nothing.
pub open spec fn chosen_output(stdout: Seq<char>, stderr: Seq<char>) -> Seq<char> {
    if has_non_ws(stdout) {
        stdout
    } else if has_non_ws(stderr) {
        stderr
    } else {
        seq![]
    }
}

/// Whether `s` holds anything but whitespace.
pub fn has_content(s: &str) -> (r: bool)
    ensures
        r == has_non_ws(s@),
{
    let chars = to_chars(s);
    let t = trim_chars(chars.as_slice());
    proof {
        lemma_trim_shape(s@);
    }
    t.len() > 0
}

/// The text to keep of a command's run: standard output, else standard
/// error, else the empty string.
pub fn command_output(stdout: String, stderr: String) -> (r: String)
    ensures
        r@ == chosen_output(stdout@, stderr@),
{
    if has_content(stdout.as_str()) {
        stdout
    } else if has_content(stderr.as_str()) {
        stderr
    } else {
        String::new()
    }
}

/// The text that stands for a command's run: its output, or a one-line
/// `[error: ...]` note where it could not be run.
pub open spec fn output_or_error(output: Result<String, String>) -> Seq<char> {
    match output {
        Ok(t) => t@,
        Err(e) => "[error: "@ + e@ + "]"@,
    }
}

/// The non-blank lines of a command's output, or of the error note where
/// the command could not be run (`Err` holds the error's message).
pub fn text_or_error(output: Result<String, String>) -> (r: TextLines)
    ensures
        views(r.lines@) == nonblank_lines(output_or_error(output)),
{
    match output {
        Ok(t) => TextLines { lines: lines(t.as_str()) },
        Err(e) => {
            let mut note = String::new();
            push_str(&mut note, "[error: ");
            push_str(&mut note, e.as_str());
            push_str(&mut note, "]");
            TextLines { lines: lines(note.as_str()) }
        },
    }
}

/// The `key=value` entries of a command's output, or a single `error`
/// entry holding the message where the command could not be run.
pub fn kv_or_error_equals(output: Result<String, String>) -> (r: Vec<KeyValue>)
    ensures
        match output {
            Ok(t) => views(r@) == kv_equals_entries(t@),
            Err(e) => views(r@) == seq![("error"@, e@)],
        },
{
    match output {
        Ok(t) => key_values_equals(t.as_str()),
        Err(e) => error_entry(e),
    }
}

/// The `key: value` entries of a command's output, or a single `error`
/// entry holding the message where the command could not be run.
pub fn kv_or_error_colon(output: Result<String, String>) -> (r: Vec<KeyValue>)
    ensures
        match output {
            Ok(t) => views(r@) == kv_colon_entries(t@),
            Err(e) => views(r@) == seq![("error"@, e@)],
        },
{
    match output {
        Ok(t) => key_values_colon(t.as_str()),
        Err(e) => error_entry(e),
    }
}

fn error_entry(message: String) -> (r: Vec<KeyValue>)
    ensures
        views(r@) == seq![("error"@, message@)],
{
    let key = String::from_str("error");
    let kv = KeyValue { key, value: message };
    let mut r: Vec<KeyValue> = Vec::new();
    r.push(kv);
    assert(views(r@) =~= seq![("error"@, kv.value@)]);
    r
}

// ── Fields ────────────────────────────────────────────────────────────────

/// `s` split into at most `n` whitespace-delimited fields, where the final
/// field captures all remaining text (including spaces); no fields where `n`
/// is 0.
pub fn split_n_fields(s: &str, n: usize) -> (r: Vec<String>)
    ensures
        views(r@) == split_n(s@, n as nat),
{
    let chars = to_chars(s);
    let fields = split_n_in(chars.as_slice(), n);
    strings_of(fields.as_slice())
}

/// Whether `s` starts with `p`.
pub open spec fn starts_with(s: Seq<char>, p: Seq<char>) -> bool {
    p.len() <= s.len() && s.take(p.len() as int) == p
}

/// Executable form of [`starts_with`].
pub fn starts_with_in(s: &[char], p: &str) -> (r: bool)
    ensures
        r == starts_with(s@, p@),
{
    let pc = to_chars(p);
    if pc.len() > s.len() {
        return false;
    }
    let mut i: usize = 0;
    while i < pc.len()
        invariant
            pc@ == p@,
            pc@.len() <= s@.len(),
            i <= pc@.len(),
            forall|j: int| 0 <= j < i ==> #[trigger] s@[j] == pc@[j],
        decreases pc.len() - i,
    {
        if s[i] != pc[i] {
            assert(s@.take(pc@.len() as int)[i as int] != p@[i as int]);
            return false;
        }
        i = i + 1;
    }
    assert(s@.take(pc@.len() as int) =~= p@);
    true
}

/// Whether two strings hold the same characters.
pub fn same_text(a: &str, b: &str) -> (r: bool)
    ensures
        r == (a@ == b@),
{
    let ac = to_chars(a);
    let bc = to_chars(b);
    if ac.len() != bc.len() {
        return false;
    }
    let mut i: usize = 0;
    while i < ac.len()
        invariant
            ac@ == a@,
            bc@ == b@,
            ac@.len() == bc@.len(),
            i <= ac@.len(),
            forall|j: int| 0 <= j < i ==> #[trigger] ac@[j] == bc@[j],
        decreases ac.len() - i,
    {
        if ac[i] != bc[i] {
            return false;
        }
        i = i + 1;
    }
    assert(ac@ =~= bc@);
    true
}

// ── lsblk ─────────────────────────────────────────────────────────────────

/// The value after an opening quote, and what follows its closing quote.
pub open spec fn quoted_value(r: Seq<char>) -> (Seq<char>, Seq<char>) {
    match find_char(r, '"') {
        Some(e) => (r.take(e), r.skip(e + 1)),
        None => (r, seq![]),
    }
}

/// An unquoted value, up to the next space, and what follows it.
pub open spec fn bare_value(r: Seq<char>) -> (Seq<char>, Seq<char>) {
    match find_char(r, ' ') {
        Some(e) => (r.take(e), r.skip(e)),
        None => (r, seq![]),
    }
}

/// The value at the start of `r` (quoted or not), and what follows it.
pub open spec fn kv_value(r: Seq<char>) -> (Seq<char>, Seq<char>) {
    if r.len() > 0 && r[0] == '"' {
        quoted_value(r.drop_first())
    } else {
        bare_value(r)
    }
}

pub proof fn lemma_kv_value_len(r: Seq<char>)
    ensures
        kv_value(r).1.len() <= r.len(),
{
    if r.len() > 0 && r[0] == '"' {
        lemma_find_char(r.drop_first(), '"');
    } else {
        lemma_find_char(r, ' ');
    }
}

/// The `KEY=value` pairs of `rest`, in order.
pub open spec fn kv_pairs(rest: Seq<char>) -> Seq<(Seq<char>, Seq<char>)>
    decreases rest.len(),
{
    if rest.len() == 0 {
        seq![]
    } else {
        match find_char(rest, '=') {
            None => seq![],
            Some(eq) => {
                proof {
                    lemma_find_char(rest, '=');
                    lemma_kv_value_len(rest.skip(eq + 1));
                    lemma_trim_start_shape(kv_value(rest.skip(eq + 1)).1);
                }
                seq![(trim(rest.take(eq)), kv_value(rest.skip(eq + 1)).0)] + kv_pairs(
                    trim_start(kv_value(rest.skip(eq + 1)).1),
                )
            },
        }
    }
}

/// Parse a single `lsblk -P` output line (KEY="value" KEY="value" …) into
/// a list of (key, value) pairs.
pub fn parse_lsblk_kv_line(line: &str) -> (r: Vec<(String, String)>)
    ensures
        views(r@) == kv_pairs(trim(line@)),
{
    let chars = to_chars(line);
    let mut out: Vec<(String, String)> = Vec::new();
    let mut rest = trim_chars(chars.as_slice());
    assert(views(out@) =~= Seq::<(Seq<char>, Seq<char>)>::empty());
    loop
        invariant
            kv_pairs(trim(line@)) =~= views(out@) + kv_pairs(rest@),
        decreases rest@.len(),
    {
        if rest.len() == 0 {
            assert(kv_pairs(rest@) =~= Seq::<(Seq<char>, Seq<char>)>::empty());
            return out;
        }
        proof {
            lemma_find_char(rest@, '=');
        }
        let n = rest.len();
        let eq = match find_char_in(rest, '=') {
            Some(p) => p,
            None => {
                assert(kv_pairs(rest@) =~= Seq::<(Seq<char>, Seq<char>)>::empty());
                return out;
            },
        };
        let key = string_of(trim_chars(slice(rest, 0, eq)));
        let r = slice(rest, eq + 1, n);
        let (value, after) = if r.len() > 0 && r[0] == '"' {
            let r2 = slice(r, 1, r.len());
            assert(r2@ =~= r@.drop_first());
            proof {
                lemma_find_char(r2@, '"');
            }
            let m = r2.len();
            match find_char_in(r2, '"') {
                Some(e) => (slice(r2, 0, e), slice(r2, e + 1, m)),
                None => (r2, slice(r2, m, m)),
            }
        } else {
            proof {
                lemma_find_char(r@, ' ');
            }
            let m = r.len();
            match find_char_in(r, ' ') {
                Some(e) => (slice(r, 0, e), slice(r, e, m)),
                None => (r, slice(r, m, m)),
            }
        };
        assert(value@ == kv_value(r@).0);
        assert(after@ =~= kv_value(r@).1);
        proof {
            lemma_kv_value_len(r@);
            lemma_trim_start_shape(after@);
        }
        let pair = (key, string_of(value));
        proof {
            lemma_views_push(out@, pair);
        }
        out.push(pair);
        rest = trim_start_chars(after);
    }
}

/// The value of the first pair whose key is `key`, or the empty text.
pub open spec fn lookup(pairs: Seq<(Seq<char>, Seq<char>)>, key: Seq<char>) -> Seq<char>
    decreases pairs.len(),
{
    if pairs.len() == 0 {
        seq![]
    } else if pairs[0].0 == key {
        pairs[0].1
    } else {
        lookup(pairs.drop_first(), key)
    }
}

/// Executable form of [`lookup`].
pub fn lookup_in(pairs: &Vec<(String, String)>, key: &str) -> (r: String)
    ensures
        r@ == lookup(views(pairs@), key@),
{
    let mut i: usize = 0;
    assert(views(pairs@).skip(0) =~= views(pairs@));
    while i < pairs.len()
        invariant
            i <= pairs@.len(),
            lookup(views(pairs@), key@) == lookup(views(pairs@).skip(i as int), key@),
        decreases pairs.len() - i,
    {
        let ghost rest = views(pairs@).skip(i as int);
        assert(rest.drop_first() =~= views(pairs@).skip(i + 1));
        if same_text(pairs[i].0.as_str(), key) {
            return pairs[i].1.clone();
        }
        i = i + 1;
    }
    String::new()
}

/// The block device that a line of `lsblk -P` output describes.
pub open spec fn lsblk_line(l: Seq<char>) -> Option<BlockDeviceView> {
    let t = trim(l);
    if t.len() == 0 {
        None
    } else {
        let p = kv_pairs(trim(t));
        let mp = lookup(p, "MOUNTPOINT"@);
        Some(
            BlockDeviceView {
                name: lookup(p, "NAME"@),
                size: lookup(p, "SIZE"@),
                device_type: lookup(p, "TYPE"@),
                fstype: lookup(p, "FSTYPE"@),
                label: lookup(p, "LABEL"@),
                uuid: lookup(p, "UUID"@),
                mountpoints: if mp.len() == 0 {
                    seq![]
                } else {
                    seq![mp]
                },
            },
        )
    }
}

fn lsblk_line_in(l: &[char]) -> (r: Option<BlockDevice>)
    ensures
        match r {
            Some(d) => lsblk_line(l@) == Some(d@),
            None => lsblk_line(l@) is None,
        },
{
    let t = trim_chars(l);
    if t.len() == 0 {
        return None;
    }
    let ts = string_of(t);
    let pairs = parse_lsblk_kv_line(ts.as_str());
    let mp = lookup_in(&pairs, "MOUNTPOINT");
    let mut mountpoints: Vec<String> = Vec::new();
    if mp.unicode_len() > 0 {
        mountpoints.push(mp);
    }
    let d = BlockDevice {
        name: lookup_in(&pairs, "NAME"),
        size: lookup_in(&pairs, "SIZE"),
        device_type: lookup_in(&pairs, "TYPE"),
        fstype: lookup_in(&pairs, "FSTYPE"),
        label: lookup_in(&pairs, "LABEL"),
        uuid: lookup_in(&pairs, "UUID"),
        mountpoints,
    };
    assert(views(d.mountpoints@) =~= lsblk_line(l@).unwrap().mountpoints);
    Some(d)
}

/// Parse `lsblk -P -o NAME,SIZE,TYPE,FSTYPE,LABEL,UUID,MOUNTPOINT` output
/// into `BlockDevice` entries.
pub fn parse_lsblk(text: &str) -> (r: Vec<BlockDevice>)
    ensures
        views(r@) == filter_map_seq(lines_of(text@), |l: Seq<char>| lsblk_line(l)),
{
    let chars = to_chars(text);
    let ls = split_lines(chars.as_slice());
    let mut out: Vec<BlockDevice> = Vec::new();
    let mut i: usize = 0;
    let ghost all = lines_of(text@);
    assert(all.take(0) =~= Seq::<Seq<char>>::empty());
    while i < ls.len()
        invariant
            i <= ls@.len(),
            slice_views(ls@) == all,
            views(out@) == filter_map_seq(all.take(i as int), |l: Seq<char>| lsblk_line(l)),
        decreases ls.len() - i,
    {
        proof {
            lemma_filter_map_take(all, |l: Seq<char>| lsblk_line(l), i as int);
        }
        assert(ls@[i as int]@ == all[i as int]);
        match lsblk_line_in(ls[i]) {
            Some(d) => {
                proof {
                    lemma_views_push(out@, d);
                }
                out.push(d);
            },
            None => {},
        }
        i = i + 1;
    }
    assert(all.take(ls@.len() as int) =~= all);
    out
}

/// The lines after the first (`lines().skip(1)`).
pub open spec fn after_first<A>(s: Seq<A>) -> Seq<A> {
    if s.len() == 0 {
        s
    } else {
        s.drop_first()
    }
}

fn header_skipped<'a, 'b>(ls: &'b Vec<&'a [char]>) -> (r: &'b [&'a [char]])
    ensures
        slice_views(r@) == after_first(slice_views(ls@)),
{
    if ls.len() == 0 {
        ls.as_slice()
    } else {
        let r = vstd::slice::slice_subrange(ls.as_slice(), 1, ls.len());
        assert(slice_views(r@) =~= slice_views(ls@).drop_first());
        r
    }
}

/// Converts an optional parsed number to the type it was parsed for.
pub open spec fn opt_u64(o: Option<nat>) -> Option<u64> {
    match o {
        Some(v) => Some(v as u64),
        None => None,
    }
}

/// A pattern to search for, as characters.
fn pattern(p: &str) -> (r: Vec<char>)
    ensures
        r@ == p@,
{
    to_chars(p)
}

// ── du, lspci, mount ──────────────────────────────────────────────────────

/// A `du` line: size and path, separated by a tab.
pub open spec fn du_line(l: Seq<char>) -> Option<(Seq<char>, Seq<char>)> {
    match split_once_char(trim(l), '\t') {
        Some((a, b)) => Some((trim(a), trim(b))),
        None => None,
    }
}

fn du_line_in(l: &[char]) -> (r: Option<DiskUsage>)
    ensures
        match r {
            Some(e) => du_line(l@) == Some(e@),
            None => du_line(l@) is None,
        },
{
    let t = trim_chars(l);
    match split_once_char_in(t, '\t') {
        Some((a, b)) => Some(DiskUsage { size: string_of(trim_chars(a)), path: string_of(trim_chars(b)) }),
        None => None,
    }
}

/// Parse `du -sh <paths>` output into `DiskUsage` entries.
pub fn parse_du(text: &str) -> (r: Vec<DiskUsage>)
    ensures
        views(r@) == filter_map_seq(lines_of(text@), |l: Seq<char>| du_line(l)),
{
    let chars = to_chars(text);
    let ls = split_lines(chars.as_slice());
    let rows = ls.as_slice();
    let mut out: Vec<DiskUsage> = Vec::new();
    let mut i: usize = 0;
    let ghost all = lines_of(text@);
    assert(all.take(0) =~= Seq::<Seq<char>>::empty());
    while i < rows.len()
        invariant
            i <= rows@.len(),
            slice_views(rows@) == all,
            views(out@) == filter_map_seq(all.take(i as int), |l: Seq<char>| du_line(l)),
        decreases rows.len() - i,
    {
        proof {
            lemma_filter_map_take(all, |l: Seq<char>| du_line(l), i as int);
        }
        assert(rows@[i as int]@ == all[i as int]);
        match du_line_in(rows[i]) {
            Some(e) => {
                proof {
                    lemma_views_push(out@, e);
                }
                out.push(e);
            },
            None => {},
        }
        i = i + 1;
    }
    assert(all.take(rows@.len() as int) =~= all);
    out
}

/// An `lspci` line: `<slot> <class>: <description>`.
pub open spec fn pci_line(l: Seq<char>) -> Option<(Seq<char>, Seq<char>, Seq<char>)> {
    match split_once_char(trim(l), ' ') {
        Some((slot, rest)) => match split_once_sub(rest, ": "@) {
            Some((class, description)) => Some((slot, trim(class), trim(description))),
            None => None,
        },
        None => None,
    }
}

fn pci_line_in(l: &[char]) -> (r: Option<PciDevice>)
    ensures
        match r {
            Some(e) => pci_line(l@) == Some(e@),
            None => pci_line(l@) is None,
        },
{
    let t = trim_chars(l);
    let colon = pattern(": ");
    proof {
        reveal_strlit(": ");
    }
    match split_once_char_in(t, ' ') {
        Some((slot, rest)) => match split_once_sub_in(rest, colon.as_slice()) {
            Some((class, description)) => Some(
                PciDevice {
                    slot: string_of(slot),
                    class: string_of(trim_chars(class)),
                    description: string_of(trim_chars(description)),
                },
            ),
            None => None,
        },
        None => None,
    }
}

/// Parse `lspci` output into `PciDevice` entries.
pub fn parse_lspci(text: &str) -> (r: Vec<PciDevice>)
    ensures
        views(r@) == filter_map_seq(lines_of(text@), |l: Seq<char>| pci_line(l)),
{
    let chars = to_chars(text);
    let ls = split_lines(chars.as_slice());
    let rows = ls.as_slice();
    let mut out: Vec<PciDevice> = Vec::new();
    let mut i: usize = 0;
    let ghost all = lines_of(text@);
    assert(all.take(0) =~= Seq::<Seq<char>>::empty());
    while i < rows.len()
        invariant
            i <= rows@.len(),
            slice_views(rows@) == all,
            views(out@) == filter_map_seq(all.take(i as int), |l: Seq<char>| pci_line(l)),
        decreases rows.len() - i,
    {
        proof {
            lemma_filter_map_take(all, |l: Seq<char>| pci_line(l), i as int);
        }
        assert(rows@[i as int]@ == all[i as int]);
        match pci_line_in(rows[i]) {
            Some(e) => {
                proof {
                    lemma_views_push(out@, e);
                }
                out.push(e);
            },
            None => {},
        }
        i = i + 1;
    }
    assert(all.take(rows@.len() as int) =~= all);
    out
}

/// A `mount` line: `<device> on <mountpoint> type <fstype> (<options>)`.
pub open spec fn mount_line(l: Seq<char>) -> Option<MountEntryView> {
    match split_once_sub(trim(l), " on "@) {
        Some((device, rest)) => match split_once_sub(rest, " ("@) {
            Some((rest2, options_raw)) => match split_once_sub(rest2, " type "@) {
                Some((mountpoint, fstype)) => Some(
                    MountEntryView {
                        device: trim(device),
                        mountpoint: trim(mountpoint),
                        fstype: trim(fstype),
                        options: trim_each(split_char(trim_char_end(options_raw, ')'), ',')),
                    },
                ),
                None => None,
            },
            None => None,
        },
        None => None,
    }
}

fn mount_line_in(l: &[char]) -> (r: Option<MountEntry>)
    ensures
        match r {
            Some(e) => mount_line(l@) == Some(e@),
            None => mount_line(l@) is None,
        },
{
    let t = trim_chars(l);
    let on = pattern(" on ");
    let paren = pattern(" (");
    let typ = pattern(" type ");
    proof {
        reveal_strlit(" on ");
        reveal_strlit(" (");
        reveal_strlit(" type ");
    }
    match split_once_sub_in(t, on.as_slice()) {
        Some((device, rest)) => match split_once_sub_in(rest, paren.as_slice()) {
            Some((rest2, options_raw)) => match split_once_sub_in(rest2, typ.as_slice()) {
                Some((mountpoint, fstype)) => {
                    let pieces = split_char_in(trim_char_end_chars(options_raw, ')'), ',');
                    let trimmed = trim_each_in(&pieces);
                    let options = strings_of(trimmed.as_slice());
                    Some(
                        MountEntry {
                            device: string_of(trim_chars(device)),
                            mountpoint: string_of(trim_chars(mountpoint)),
                            fstype: string_of(trim_chars(fstype)),
                            options,
                        },
                    )
                },
                None => None,
            },
            None => None,
        },
        None => None,
    }
}

/// Parse `mount` output into `MountEntry` entries.
pub fn parse_mount(text: &str) -> (r: Vec<MountEntry>)
    ensures
        views(r@) == filter_map_seq(lines_of(text@), |l: Seq<char>| mount_line(l)),
{
    let chars = to_chars(text);
    let ls = split_lines(chars.as_slice());
    let rows = ls.as_slice();
    let mut out: Vec<MountEntry> = Vec::new();
    let mut i: usize = 0;
    let ghost all = lines_of(text@);
    assert(all.take(0) =~= Seq::<Seq<char>>::empty());
    while i < rows.len()
        invariant
            i <= rows@.len(),
            slice_views(rows@) == all,
            views(out@) == filter_map_seq(all.take(i as int), |l: Seq<char>| mount_line(l)),
        decreases rows.len() - i,
    {
        proof {
            lemma_filter_map_take(all, |l: Seq<char>| mount_line(l), i as int);
        }
        assert(rows@[i as int]@ == all[i as int]);
        match mount_line_in(rows[i]) {
            Some(e) => {
                proof {
                    lemma_views_push(out@, e);
                }
                out.push(e);
            },
            None => {},
        }
        i = i + 1;
    }
    assert(all.take(rows@.len() as int) =~= all);
    out
}

// ── free, df, ps ──────────────────────────────────────────────────────────

/// A row of `free -b` output: a label and at least three numbers.
pub open spec fn free_row(l: Seq<char>) -> Option<MemoryRowView> {
    let p = words(trim(l));
    if p.len() < 4 {
        None
    } else {
        Some(
            MemoryRowView {
                label: trim_char_end(p[0], ':'),
                total_bytes: parse_or_zero(p[1], u64::MAX as nat) as u64,
                used_bytes: parse_or_zero(p[2], u64::MAX as nat) as u64,
                free_bytes: parse_or_zero(p[3], u64::MAX as nat) as u64,
                shared_bytes: if p.len() >= 7 {
                    opt_u64(parse_unsigned(p[4], u64::MAX as nat))
                } else {
                    None
                },
                buff_cache_bytes: if p.len() >= 7 {
                    opt_u64(parse_unsigned(p[5], u64::MAX as nat))
                } else {
                    None
                },
                available_bytes: if p.len() >= 7 {
                    opt_u64(parse_unsigned(p[6], u64::MAX as nat))
                } else {
                    None
                },
            },
        )
    }
}

fn opt_number(s: &[char]) -> (r: Option<u64>)
    ensures
        r == opt_u64(parse_unsigned(s@, u64::MAX as nat)),
{
    parse_unsigned_in(s, u64::MAX)
}

fn free_row_in(l: &[char]) -> (r: Option<MemoryRow>)
    ensures
        match r {
            Some(e) => free_row(l@) == Some(e@),
            None => free_row(l@) is None,
        },
{
    let p = words_in(trim_chars(l));
    if p.len() < 4 {
        return None;
    }
    assert(p@[0]@ == slice_views(p@)[0]);
    assert(p@[1]@ == slice_views(p@)[1]);
    assert(p@[2]@ == slice_views(p@)[2]);
    assert(p@[3]@ == slice_views(p@)[3]);
    let full = p.len() >= 7;
    let (shared_bytes, buff_cache_bytes, available_bytes) = if full {
        assert(p@[4]@ == slice_views(p@)[4]);
        assert(p@[5]@ == slice_views(p@)[5]);
        assert(p@[6]@ == slice_views(p@)[6]);
        (opt_number(p[4]), opt_number(p[5]), opt_number(p[6]))
    } else {
        (None, None, None)
    };
    Some(
        MemoryRow {
            label: string_of(trim_char_end_chars(p[0], ':')),
            total_bytes: parse_or_zero_in(p[1], u64::MAX),
            used_bytes: parse_or_zero_in(p[2], u64::MAX),
            free_bytes: parse_or_zero_in(p[3], u64::MAX),
            shared_bytes,
            buff_cache_bytes,
            available_bytes,
        },
    )
}

/// Parse `free -b` output into `MemoryRow` entries (the header line is skipped).
pub fn parse_free(text: &str) -> (r: Vec<MemoryRow>)
    ensures
        views(r@) == filter_map_seq(after_first(lines_of(text@)), |l: Seq<char>| free_row(l)),
{
    let chars = to_chars(text);
    let ls = split_lines(chars.as_slice());
    let rows = header_skipped(&ls);
    let mut out: Vec<MemoryRow> = Vec::new();
    let mut i: usize = 0;
    let ghost all = after_first(lines_of(text@));
    assert(all.take(0) =~= Seq::<Seq<char>>::empty());
    while i < rows.len()
        invariant
            i <= rows@.len(),
            slice_views(rows@) == all,
            views(out@) == filter_map_seq(all.take(i as int), |l: Seq<char>| free_row(l)),
        decreases rows.len() - i,
    {
        proof {
            lemma_filter_map_take(all, |l: Seq<char>| free_row(l), i as int);
        }
        assert(rows@[i as int]@ == all[i as int]);
        match free_row_in(rows[i]) {
            Some(e) => {
                proof {
                    lemma_views_push(out@, e);
                }
                out.push(e);
            },
            None => {},
        }
        i = i + 1;
    }
    assert(all.take(rows@.len() as int) =~= all);
    out
}

/// A row of `df` output: six fields, the last of which (the mount point)
/// may hold spaces.
pub open spec fn df_row(l: Seq<char>) -> Option<DfEntryView> {
    let p = split_n(trim(l), 6);
    if p.len() < 6 {
        None
    } else {
        Some(
            DfEntryView {
                filesystem: p[0],
                size: p[1],
                used: p[2],
                avail: p[3],
                use_percent: parse_or_zero(trim_char_end(p[4], '%'), u8::MAX as nat) as u8,
                mountpoint: p[5],
            },
        )
    }
}

fn df_row_in(l: &[char]) -> (r: Option<DfEntry>)
    ensures
        match r {
            Some(e) => df_row(l@) == Some(e@),
            None => df_row(l@) is None,
        },
{
    let p = split_n_in(trim_chars(l), 6);
    if p.len() < 6 {
        return None;
    }
    assert(p@[0]@ == slice_views(p@)[0]);
    assert(p@[1]@ == slice_views(p@)[1]);
    assert(p@[2]@ == slice_views(p@)[2]);
    assert(p@[3]@ == slice_views(p@)[3]);
    assert(p@[4]@ == slice_views(p@)[4]);
    assert(p@[5]@ == slice_views(p@)[5]);
    let pct = parse_or_zero_in(trim_char_end_chars(p[4], '%'), 255);
    Some(
        DfEntry {
            filesystem: string_of(p[0]),
            size: string_of(p[1]),
            used: string_of(p[2]),
            avail: string_of(p[3]),
            use_percent: pct as u8,
            mountpoint: string_of(p[5]),
        },
    )
}

/// Parse `df` output into `DfEntry` entries (the header line is skipped; the
/// layout is the same for sizes and for inodes).
pub fn parse_df(text: &str) -> (r: Vec<DfEntry>)
    ensures
        views(r@) == filter_map_seq(after_first(lines_of(text@)), |l: Seq<char>| df_row(l)),
{
    let chars = to_chars(text);
    let ls = split_lines(chars.as_slice());
    let rows = header_skipped(&ls);
    let mut out: Vec<DfEntry> = Vec::new();
    let mut i: usize = 0;
    let ghost all = after_first(lines_of(text@));
    assert(all.take(0) =~= Seq::<Seq<char>>::empty());
    while i < rows.len()
        invariant
            i <= rows@.len(),
            slice_views(rows@) == all,
            views(out@) == filter_map_seq(all.take(i as int), |l: Seq<char>| df_row(l)),
        decreases rows.len() - i,
    {
        proof {
            lemma_filter_map_take(all, |l: Seq<char>| df_row(l), i as int);
        }
        assert(rows@[i as int]@ == all[i as int]);
        match df_row_in(rows[i]) {
            Some(e) => {
                proof {
                    lemma_views_push(out@, e);
                }
                out.push(e);
            },
            None => {},
        }
        i = i + 1;
    }
    assert(all.take(rows@.len() as int) =~= all);
    out
}

/// A row of `ps aux` output: eleven fields, the last of which (the
/// command) may hold spaces.
pub open spec fn ps_row(l: Seq<char>) -> Option<ProcessView> {
    let p = split_n(trim(l), 11);
    if p.len() < 11 {
        None
    } else {
        Some(
            ProcessView {
                user: p[0],
                pid: parse_or_zero(p[1], u32::MAX as nat) as u32,
                cpu_pct: p[2],
                mem_pct: p[3],
                vsz_kb: parse_or_zero(p[4], u64::MAX as nat) as u64,
                rss_kb: parse_or_zero(p[5], u64::MAX as nat) as u64,
                tty: p[6],
                stat: p[7],
                start: p[8],
                time: p[9],
                command: p[10],
            },
        )
    }
}

fn ps_row_in(l: &[char]) -> (r: Option<Process>)
    ensures
        match r {
            Some(e) => ps_row(l@) == Some(e@),
            None => ps_row(l@) is None,
        },
{
    let p = split_n_in(trim_chars(l), 11);
    if p.len() < 11 {
        return None;
    }
    assert(p@[0]@ == slice_views(p@)[0]);
    assert(p@[1]@ == slice_views(p@)[1]);
    assert(p@[2]@ == slice_views(p@)[2]);
    assert(p@[3]@ == slice_views(p@)[3]);
    assert(p@[4]@ == slice_views(p@)[4]);
    assert(p@[5]@ == slice_views(p@)[5]);
    assert(p@[6]@ == slice_views(p@)[6]);
    assert(p@[7]@ == slice_views(p@)[7]);
    assert(p@[8]@ == slice_views(p@)[8]);
    assert(p@[9]@ == slice_views(p@)[9]);
    assert(p@[10]@ == slice_views(p@)[10]);
    let pid = parse_or_zero_in(p[1], 0xffff_ffff);
    Some(
        Process {
            user: string_of(p[0]),
            pid: pid as u32,
            cpu_pct: string_of(p[2]),
            mem_pct: string_of(p[3]),
            vsz_kb: parse_or_zero_in(p[4], u64::MAX),
            rss_kb: parse_or_zero_in(p[5], u64::MAX),
            tty: string_of(p[6]),
            stat: string_of(p[7]),
            start: string_of(p[8]),
            time: string_of(p[9]),
            command: string_of(p[10]),
        },
    )
}

/// Parse `ps aux` output into `Process` entries (the header line is skipped;
/// the percentages are kept as printed).
pub fn parse_ps(text: &str) -> (r: Vec<Process>)
    ensures
        views(r@) == filter_map_seq(after_first(lines_of(text@)), |l: Seq<char>| ps_row(l)),
{
    let chars = to_chars(text);
    let ls = split_lines(chars.as_slice());
    let rows = header_skipped(&ls);
    let mut out: Vec<Process> = Vec::new();
    let mut i: usize = 0;
    let ghost all = after_first(lines_of(text@));
    assert(all.take(0) =~= Seq::<Seq<char>>::empty());
    while i < rows.len()
        invariant
            i <= rows@.len(),
            slice_views(rows@) == all,
            views(out@) == filter_map_seq(all.take(i as int), |l: Seq<char>| ps_row(l)),
        decreases rows.len() - i,
    {
        proof {
            lemma_filter_map_take(all, |l: Seq<char>| ps_row(l), i as int);
        }
        assert(rows@[i as int]@ == all[i as int]);
        match ps_row_in(rows[i]) {
            Some(e) => {
                proof {
                    lemma_views_push(out@, e);
                }
                out.push(e);
            },
            None => {},
        }
        i = i + 1;
    }
    assert(all.take(rows@.len() as int) =~= all);
    out
}

// ── lsusb, systemctl ──────────────────────────────────────────────────────

/// An `lsusb` line: `Bus <bus> Device <device>: ID <vendor>:<product>
/// <description>`.
pub open spec fn usb_line(l: Seq<char>) -> Option<UsbDeviceView> {
    let p = words(trim(l));
    if p.len() < 6 {
        None
    } else {
        match (
            parse_unsigned(p[1], u32::MAX as nat),
            parse_unsigned(trim_char_end(p[3], ':'), u32::MAX as nat),
            split_once_char(p[5], ':'),
        ) {
            (Some(bus), Some(device), Some((vendor_id, product_id))) => Some(
                UsbDeviceView {
                    bus: bus as u32,
                    device: device as u32,
                    vendor_id,
                    product_id,
                    description: if p.len() > 6 {
                        join(p.skip(6), " "@)
                    } else {
                        seq![]
                    },
                },
            ),
            _ => None,
        }
    }
}

fn usb_line_in(l: &[char]) -> (r: Option<UsbDevice>)
    ensures
        match r {
            Some(e) => usb_line(l@) == Some(e@),
            None => usb_line(l@) is None,
        },
{
    let p = words_in(trim_chars(l));
    if p.len() < 6 {
        return None;
    }
    assert(p@[1]@ == slice_views(p@)[1]);
    assert(p@[3]@ == slice_views(p@)[3]);
    assert(p@[5]@ == slice_views(p@)[5]);
    let bus = match parse_unsigned_in(p[1], 0xffff_ffff) {
        Some(v) => v,
        None => {
            return None;
        },
    };
    let device = match parse_unsigned_in(trim_char_end_chars(p[3], ':'), 0xffff_ffff) {
        Some(v) => v,
        None => {
            return None;
        },
    };
    let (vendor_id, product_id) = match split_once_char_in(p[5], ':') {
        Some((a, b)) => (a, b),
        None => {
            return None;
        },
    };
    let description = if p.len() > 6 {
        let tail = vstd::slice::slice_subrange(p.as_slice(), 6, p.len());
        let tail_strings = strings_of(tail);
        assert(views(tail_strings@) =~= slice_views(p@).skip(6));
        join_strings(&tail_strings, " ")
    } else {
        String::new()
    };
    Some(
        UsbDevice {
            bus: bus as u32,
            device: device as u32,
            vendor_id: string_of(vendor_id),
            product_id: string_of(product_id),
            description,
        },
    )
}

/// Parse `lsusb` output into `UsbDevice` entries.
pub fn parse_lsusb(text: &str) -> (r: Vec<UsbDevice>)
    ensures
        views(r@) == filter_map_seq(lines_of(text@), |l: Seq<char>| usb_line(l)),
{
    let chars = to_chars(text);
    let ls = split_lines(chars.as_slice());
    let rows = ls.as_slice();
    let mut out: Vec<UsbDevice> = Vec::new();
    let mut i: usize = 0;
    let ghost all = lines_of(text@);
    assert(all.take(0) =~= Seq::<Seq<char>>::empty());
    while i < rows.len()
        invariant
            i <= rows@.len(),
            slice_views(rows@) == all,
            views(out@) == filter_map_seq(all.take(i as int), |l: Seq<char>| usb_line(l)),
        decreases rows.len() - i,
    {
        proof {
            lemma_filter_map_take(all, |l: Seq<char>| usb_line(l), i as int);
        }
        assert(rows@[i as int]@ == all[i as int]);
        match usb_line_in(rows[i]) {
            Some(e) => {
                proof {
                    lemma_views_push(out@, e);
                }
                out.push(e);
            },
            None => {},
        }
        i = i + 1;
    }
    assert(all.take(rows@.len() as int) =~= all);
    out
}

/// A row of `systemctl list-units --plain --no-legend` output; rows that
/// start with a digit (footers such as "123 loaded units listed.") are not
/// units.
pub open spec fn unit_row(l: Seq<char>) -> Option<SystemdUnitView> {
    let t = trim(l);
    if t.len() == 0 || is_digit(t[0]) {
        None
    } else {
        let p = split_n(t, 5);
        if p.len() < 4 {
            None
        } else {
            Some(
                SystemdUnitView {
                    unit: p[0],
                    load: p[1],
                    active: p[2],
                    sub: p[3],
                    description: if p.len() > 4 {
                        p[4]
                    } else {
                        seq![]
                    },
                },
            )
        }
    }
}

fn unit_row_in(l: &[char]) -> (r: Option<SystemdUnit>)
    ensures
        match r {
            Some(e) => unit_row(l@) == Some(e@),
            None => unit_row(l@) is None,
        },
{
    let t = trim_chars(l);
    if t.len() == 0 {
        return None;
    }
    let c = t[0];
    if '0' <= c && c <= '9' {
        return None;
    }
    let p = split_n_in(t, 5);
    if p.len() < 4 {
        return None;
    }
    assert(p@[0]@ == slice_views(p@)[0]);
    assert(p@[1]@ == slice_views(p@)[1]);
    assert(p@[2]@ == slice_views(p@)[2]);
    assert(p@[3]@ == slice_views(p@)[3]);
    let description = if p.len() > 4 {
        assert(p@[4]@ == slice_views(p@)[4]);
        string_of(p[4])
    } else {
        String::new()
    };
    Some(
        SystemdUnit {
            unit: string_of(p[0]),
            load: string_of(p[1]),
            active: string_of(p[2]),
            sub: string_of(p[3]),
            description,
        },
    )
}

/// Parse `systemctl list-units --type=service --all --plain --no-legend` into
/// `SystemdUnit` entries.
pub fn parse_systemd_units(text: &str) -> (r: Vec<SystemdUnit>)
    ensures
        views(r@) == filter_map_seq(lines_of(text@), |l: Seq<char>| unit_row(l)),
{
    let chars = to_chars(text);
    let ls = split_lines(chars.as_slice());
    let rows = ls.as_slice();
    let mut out: Vec<SystemdUnit> = Vec::new();
    let mut i: usize = 0;
    let ghost all = lines_of(text@);
    assert(all.take(0) =~= Seq::<Seq<char>>::empty());
    while i < rows.len()
        invariant
            i <= rows@.len(),
            slice_views(rows@) == all,
            views(out@) == filter_map_seq(all.take(i as int), |l: Seq<char>| unit_row(l)),
        decreases rows.len() - i,
    {
        proof {
            lemma_filter_map_take(all, |l: Seq<char>| unit_row(l), i as int);
        }
        assert(rows@[i as int]@ == all[i as int]);
        match unit_row_in(rows[i]) {
            Some(e) => {
                proof {
                    lemma_views_push(out@, e);
                }
                out.push(e);
            },
            None => {},
        }
        i = i + 1;
    }
    assert(all.take(rows@.len() as int) =~= all);
    out
}

// ── netstat ───────────────────────────────────────────────────────────────

/// Whether the section of `netstat -an` output after line `l` lists
/// internet connections, given whether the section before it did.
pub open spec fn netstat_step(inside: bool, l: Seq<char>) -> bool {
    let t = trim(l);
    if starts_with(t, "Active Internet"@) {
        true
    } else if starts_with(t, "Active UNIX"@) {
        false
    } else {
        inside
    }
}

/// Whether the lines `ls` end inside the internet-connections section.
pub open spec fn netstat_inside(ls: Seq<Seq<char>>) -> bool
    decreases ls.len(),
{
    if ls.len() == 0 {
        false
    } else {
        netstat_step(netstat_inside(ls.drop_last()), ls.last())
    }
}

/// A connection row, where `inside` says whether it stands in the
/// internet-connections section.
pub open spec fn socket_row(inside: bool, l: Seq<char>) -> Option<SocketEntryView> {
    let t = trim(l);
    if starts_with(t, "Active Internet"@) || starts_with(t, "Active UNIX"@) || !inside || t.len()
        == 0 || starts_with(t, "Proto"@) {
        None
    } else {
        let p = words(t);
        if p.len() < 5 {
            None
        } else {
            Some(
                SocketEntryView {
                    proto: p[0],
                    recv_q: parse_or_zero(p[1], u64::MAX as nat) as u64,
                    send_q: parse_or_zero(p[2], u64::MAX as nat) as u64,
                    local_addr: p[3],
                    foreign_addr: p[4],
                    state: if p.len() > 5 {
                        p[5]
                    } else {
                        seq![]
                    },
                },
            )
        }
    }
}

/// The connections listed in the internet-connections sections of `ls`.
pub open spec fn sockets(ls: Seq<Seq<char>>) -> Seq<SocketEntryView>
    decreases ls.len(),
{
    if ls.len() == 0 {
        seq![]
    } else {
        let prev = sockets(ls.drop_last());
        match socket_row(netstat_inside(ls.drop_last()), ls.last()) {
            Some(e) => prev.push(e),
            None => prev,
        }
    }
}

fn socket_row_in(inside: bool, l: &[char]) -> (r: (bool, Option<SocketEntry>))
    ensures
        r.0 == netstat_step(inside, l@),
        match r.1 {
            Some(e) => socket_row(inside, l@) == Some(e@),
            None => socket_row(inside, l@) is None,
        },
{
    let t = trim_chars(l);
    if starts_with_in(t, "Active Internet") {
        return (true, None);
    }
    if starts_with_in(t, "Active UNIX") {
        return (false, None);
    }
    if !inside || t.len() == 0 || starts_with_in(t, "Proto") {
        return (inside, None);
    }
    let p = words_in(t);
    if p.len() < 5 {
        return (inside, None);
    }
    assert(p@[0]@ == slice_views(p@)[0]);
    assert(p@[1]@ == slice_views(p@)[1]);
    assert(p@[2]@ == slice_views(p@)[2]);
    assert(p@[3]@ == slice_views(p@)[3]);
    assert(p@[4]@ == slice_views(p@)[4]);
    let state = if p.len() > 5 {
        assert(p@[5]@ == slice_views(p@)[5]);
        string_of(p[5])
    } else {
        String::new()
    };
    (
        inside,
        Some(
            SocketEntry {
                proto: string_of(p[0]),
                recv_q: parse_or_zero_in(p[1], u64::MAX),
                send_q: parse_or_zero_in(p[2], u64::MAX),
                local_addr: string_of(p[3]),
                foreign_addr: string_of(p[4]),
                state,
            },
        ),
    )
}

/// Parse `netstat -an` internet-connection lines into `SocketEntry` entries.
pub fn parse_netstat(text: &str) -> (r: Vec<SocketEntry>)
    ensures
        views(r@) == sockets(lines_of(text@)),
{
    let chars = to_chars(text);
    let ls = split_lines(chars.as_slice());
    let mut out: Vec<SocketEntry> = Vec::new();
    let mut inside = false;
    let mut i: usize = 0;
    let ghost all = lines_of(text@);
    assert(all.take(0) =~= Seq::<Seq<char>>::empty());
    while i < ls.len()
        invariant
            i <= ls@.len(),
            slice_views(ls@) == all,
            inside == netstat_inside(all.take(i as int)),
            views(out@) == sockets(all.take(i as int)),
        decreases ls.len() - i,
    {
        assert(all.take(i + 1).drop_last() =~= all.take(i as int));
        assert(ls@[i as int]@ == all[i as int]);
        let (next, row) = socket_row_in(inside, ls[i]);
        match row {
            Some(e) => {
                proof {
                    lemma_views_push(out@, e);
                }
                out.push(e);
            },
            None => {},
        }
        inside = next;
        i = i + 1;
    }
    assert(all.take(ls@.len() as int) =~= all);
    out
}

// ── os-release, hostname ──────────────────────────────────────────────────

/// The value of the first `PRETTY_NAME=` line, without surrounding double
/// quotes, or the empty text where there is none.
pub open spec fn pretty_name(ls: Seq<Seq<char>>) -> Seq<char>
    decreases ls.len(),
{
    if ls.len() == 0 {
        seq![]
    } else if starts_with(ls[0], "PRETTY_NAME="@) {
        trim_char(ls[0].skip("PRETTY_NAME="@.len() as int), '"')
    } else {
        pretty_name(ls.drop_first())
    }
}

/// The operating system's pretty name, read from the contents of an
/// os-release file.
pub fn os_pretty_name(contents: &str) -> (r: String)
    ensures
        r@ == pretty_name(lines_of(contents@)),
{
    let chars = to_chars(contents);
    let ls = split_lines(chars.as_slice());
    let prefix = pattern("PRETTY_NAME=");
    let mut i: usize = 0;
    let ghost all = lines_of(contents@);
    assert(all.skip(0) =~= all);
    while i < ls.len()
        invariant
            i <= ls@.len(),
            slice_views(ls@) == all,
            prefix@ == "PRETTY_NAME="@,
            all == lines_of(contents@),
            pretty_name(all) == pretty_name(all.skip(i as int)),
        decreases ls.len() - i,
    {
        assert(all.skip(i as int).drop_first() =~= all.skip(i + 1));
        assert(ls@[i as int]@ == all[i as int]);
        let line = ls[i];
        if starts_with_in(line, "PRETTY_NAME=") {
            let value = slice(line, prefix.len(), line.len());
            assert(all.skip(i as int)[0] == all[i as int]);
            assert(value@ =~= all[i as int].skip("PRETTY_NAME="@.len() as int));
            return string_of(trim_char_chars(value, '"'));
        }
        i = i + 1;
    }
    String::new()
}

/// The host name in a buffer that the system filled: the bytes before the
/// first NUL, or the whole buffer where it holds none.
pub fn hostname_from_buffer(buffer: &[u8]) -> (r: Vec<u8>)
    ensures
        r@.len() <= buffer@.len(),
        r@ == buffer@.take(r@.len() as int),
        forall|i: int| 0 <= i < r@.len() ==> #[trigger] r@[i] != 0,
        r@.len() < buffer@.len() ==> buffer@[r@.len() as int] == 0,
{
    let mut r: Vec<u8> = Vec::new();
    let mut i: usize = 0;
    while i < buffer.len()
        invariant
            i <= buffer@.len(),
            r@ == buffer@.take(i as int),
            forall|j: int| 0 <= j < i ==> #[trigger] buffer@[j] != 0,
        decreases buffer.len() - i,
    {
        if buffer[i] == 0 {
            return r;
        }
        r.push(buffer[i]);
        assert(buffer@.take(i + 1) =~= buffer@.take(i as int).push(buffer@[i as int]));
        i = i + 1;
    }
    r
}

} // verus!
