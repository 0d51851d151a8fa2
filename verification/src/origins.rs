//! Where each parsed record and each report section comes from: every
//! record holds the fields of one input line, and every section is built
//! from its own part of the snapshot.
use vstd::prelude::*;

use crate::laws::{law_split_n_fields_words, lemma_words_empty};
use crate::parse::{nonblank_line, nonblank_lines, pretty_name, starts_with, after_first, filter_map_seq, lemma_filter_map_from, df_row, du_line, free_row, join, kv_pairs, lookup, lsblk_line, netstat_inside, parse_or_zero, mount_line, pci_line, ps_row, socket_row, sockets, split_char, trim_each, unit_row, usb_line};
use crate::text::{has_non_ws, lemma_trim_end_shape, lemma_trim_start_shape, trim_char, find_char, find_sub, is_digit, lemma_find_char, lemma_find_sub, lemma_trim_shape, occurs_at, split_once_char, split_once_sub, lines_of, parse_unsigned, split_n, trim, trim_char_end, trim_end, trim_start, words};
use crate::render::{block_device_table, df_table, du_table, filesystems_report, hardware_report, kv_lookup, kvs_block, labelled, lines_block, memory_table, mount_table, network_report, pci_table, resources_report, summary_text, sysinfo_report, systemd_status_report, usb_table};
use crate::types::{views, BlockDeviceView, DfEntryView, FilesystemSection, HardwareSection, NetworkSection, SystemdStatusSection, MemoryRowView, MountEntryView, ProcessView, SocketEntryView, SystemdUnitView, UsbDeviceView};

verus! {

// ── Sequences ─────────────────────────────────────────────────────────────

/// Every element that `f` gives for an element of `s` is kept.
pub proof fn lemma_filter_map_to<A, B>(s: Seq<A>, f: spec_fn(A) -> Option<B>, i: int)
    requires
        0 <= i < s.len(),
        f(s[i]) is Some,
    ensures
        exists|k: int|
            0 <= k < filter_map_seq(s, f).len() && #[trigger] filter_map_seq(s, f)[k] == f(
                s[i],
            )->0,
    decreases s.len(),
{
    let prev = filter_map_seq(s.drop_last(), f);
    if i == s.len() - 1 {
        assert(filter_map_seq(s, f) == prev.push(f(s[i])->0));
        assert(filter_map_seq(s, f)[prev.len() as int] == f(s[i])->0);
    } else {
        assert(s.drop_last()[i] == s[i]);
        lemma_filter_map_to(s.drop_last(), f, i);
        let k = choose|k: int| 0 <= k < prev.len() && #[trigger] prev[k] == f(s[i])->0;
        match f(s.last()) {
            Some(b) => {
                assert(filter_map_seq(s, f) == prev.push(b));
                assert(filter_map_seq(s, f)[k] == prev[k]);
            },
            None => {
                assert(filter_map_seq(s, f) == prev);
                assert(filter_map_seq(s, f)[k] == prev[k]);
            },
        }
    }
}

// ── ps ────────────────────────────────────────────────────────────────────

/// `e` holds the fields of the `ps aux` row `l`: the first ten whitespace
/// fields of the trimmed line in order (user, pid, %CPU, %MEM, VSZ, RSS,
/// TTY, STAT, START, TIME; the numbers parsed, 0 where they do not parse),
/// and the command from the eleventh field on.
pub open spec fn ps_line_fields(e: ProcessView, l: Seq<char>) -> bool {
    let w = words(trim(l));
    &&& w.len() >= 11
    &&& e.user == w[0]
    &&& e.pid == parse_or_zero(w[1], u32::MAX as nat)
    &&& e.cpu_pct == w[2]
    &&& e.mem_pct == w[3]
    &&& e.vsz_kb == parse_or_zero(w[4], u64::MAX as nat)
    &&& e.rss_kb == parse_or_zero(w[5], u64::MAX as nat)
    &&& e.tty == w[6]
    &&& e.stat == w[7]
    &&& e.start == w[8]
    &&& e.time == w[9]
    &&& w[10].is_prefix_of(e.command)
    &&& words(e.command) == w.skip(10)
}

proof fn lemma_ps_row_fields(l: Seq<char>)
    ensures
        ps_row(l) is Some <==> words(trim(l)).len() >= 11,
        ps_row(l) is Some ==> ps_line_fields(ps_row(l)->0, l),
{
    law_split_n_fields_words(trim(l), 11);
    let w = words(trim(l));
    let p = split_n(trim(l), 11);
    if w.len() >= 11 {
        let e = ps_row(l)->0;
        assert(p[1] == w[1]);
        assert(p[4] == w[4]);
        assert(p[5] == w[5]);
    }
}

/// What `parse_ps` gives for `text`: each process holds the fields of one
/// row after the header, and each row after the header with at least eleven
/// fields gives a process.
pub proof fn law_ps_rows_from_lines(text: Seq<char>)
    ensures
        ({
            let rows = after_first(lines_of(text));
            let ps = filter_map_seq(rows, |l: Seq<char>| ps_row(l));
            &&& forall|k: int|
                #![trigger ps[k]]
                0 <= k < ps.len() ==> exists|i: int|
                    0 <= i < rows.len() && ps_line_fields(ps[k], #[trigger] rows[i])
            &&& forall|i: int|
                0 <= i < rows.len() && words(trim(#[trigger] rows[i])).len() >= 11 ==> exists|
                    k: int,
                | 0 <= k < ps.len() && ps_line_fields(#[trigger] ps[k], rows[i])
        }),
{
    let rows = after_first(lines_of(text));
    let f = |l: Seq<char>| ps_row(l);
    let ps = filter_map_seq(rows, f);
    assert forall|k: int| #![trigger ps[k]] 0 <= k < ps.len() implies exists|i: int|
        0 <= i < rows.len() && ps_line_fields(ps[k], #[trigger] rows[i]) by {
        lemma_filter_map_from(rows, f, k);
        let i = choose|i: int| 0 <= i < rows.len() && f(#[trigger] rows[i]) == Some(ps[k]);
        lemma_ps_row_fields(rows[i]);
    }
    assert forall|i: int| 0 <= i < rows.len() && words(trim(#[trigger] rows[i])).len() >= 11 implies exists|
        k: int,
    | 0 <= k < ps.len() && ps_line_fields(#[trigger] ps[k], rows[i]) by {
        lemma_ps_row_fields(rows[i]);
        lemma_filter_map_to(rows, f, i);
    }
}

// ── netstat ───────────────────────────────────────────────────────────────

/// `e` holds the fields of the `netstat -an` row `l`: protocol, receive
/// queue, send queue, local and foreign address, in that order among the
/// whitespace fields of the trimmed line (the queues parsed, 0 where they do
/// not parse), and the sixth field as the state, empty where there is none.
pub open spec fn socket_line_fields(e: SocketEntryView, l: Seq<char>) -> bool {
    let w = words(trim(l));
    &&& w.len() >= 5
    &&& e.proto == w[0]
    &&& e.recv_q == parse_or_zero(w[1], u64::MAX as nat)
    &&& e.send_q == parse_or_zero(w[2], u64::MAX as nat)
    &&& e.local_addr == w[3]
    &&& e.foreign_addr == w[4]
    &&& e.state == if w.len() > 5 {
        w[5]
    } else {
        seq![]
    }
}

/// Some line of `ls` that stands inside an internet-connections section
/// holds the fields of `e`.
pub open spec fn socket_from_line(ls: Seq<Seq<char>>, e: SocketEntryView) -> bool {
    exists|i: int|
        0 <= i < ls.len() && netstat_inside(ls.take(i)) && #[trigger] socket_line_fields(e, ls[i])
}

/// What `parse_netstat` gives for the lines `ls`: each socket holds the
/// fields of one line that stands inside an internet-connections section.
pub proof fn law_netstat_rows_from_lines(ls: Seq<Seq<char>>)
    ensures
        forall|k: int| 0 <= k < sockets(ls).len() ==> socket_from_line(ls, #[trigger] sockets(ls)[k]),
    decreases ls.len(),
{
    if ls.len() > 0 {
        let prev_ls = ls.drop_last();
        law_netstat_rows_from_lines(prev_ls);
        let prev = sockets(prev_ls);
        let n = ls.len() - 1;
        assert(ls.take(n) =~= prev_ls);
        assert forall|k: int| 0 <= k < sockets(ls).len() implies socket_from_line(
            ls,
            #[trigger] sockets(ls)[k],
        ) by {
            if k < prev.len() {
                assert(sockets(ls)[k] == prev[k]);
                assert(socket_from_line(prev_ls, prev[k]));
                let i = choose|i: int|
                    0 <= i < prev_ls.len() && netstat_inside(prev_ls.take(i))
                        && #[trigger] socket_line_fields(prev[k], prev_ls[i]);
                assert(prev_ls.take(i) =~= ls.take(i));
                assert(prev_ls[i] == ls[i]);
                assert(socket_line_fields(sockets(ls)[k], ls[i]));
            } else {
                assert(socket_row(netstat_inside(prev_ls), ls[n]) == Some(sockets(ls)[k]));
                assert(socket_line_fields(sockets(ls)[k], ls[n]));
            }
        }
    } else {
        assert(sockets(ls).len() == 0);
    }
}

// ── lsblk ─────────────────────────────────────────────────────────────────

/// `v` is the value of the first pair in `pairs` whose key is `key`, or
/// empty where no pair has that key.
pub open spec fn first_value(pairs: Seq<(Seq<char>, Seq<char>)>, key: Seq<char>, v: Seq<char>) -> bool {
    ||| exists|j: int|
        0 <= j < pairs.len() && #[trigger] pairs[j].0 == key && pairs[j].1 == v && forall|m: int|
            0 <= m < j ==> pairs[m].0 != key
    ||| (forall|j: int| 0 <= j < pairs.len() ==> #[trigger] pairs[j].0 != key) && v == Seq::<
        char,
    >::empty()
}

proof fn lemma_lookup_first(pairs: Seq<(Seq<char>, Seq<char>)>, key: Seq<char>)
    ensures
        first_value(pairs, key, lookup(pairs, key)),
    decreases pairs.len(),
{
    if pairs.len() > 0 && pairs[0].0 != key {
        let rest = pairs.drop_first();
        lemma_lookup_first(rest, key);
        let v = lookup(pairs, key);
        assert(v == lookup(rest, key));
        if exists|j: int|
            0 <= j < rest.len() && #[trigger] rest[j].0 == key && rest[j].1 == v && forall|m: int|
                0 <= m < j ==> rest[m].0 != key {
            let j = choose|j: int|
                0 <= j < rest.len() && #[trigger] rest[j].0 == key && rest[j].1 == v && forall|
                    m: int,
                | 0 <= m < j ==> rest[m].0 != key;
            assert(pairs[j + 1] == rest[j]);
            assert forall|m: int| 0 <= m < j + 1 implies pairs[m].0 != key by {
                if m > 0 {
                    assert(pairs[m] == rest[m - 1]);
                }
            }
        } else {
            assert forall|j: int| 0 <= j < pairs.len() implies #[trigger] pairs[j].0 != key by {
                if j > 0 {
                    assert(pairs[j] == rest[j - 1]);
                }
            }
        }
    } else if pairs.len() > 0 {
        assert(pairs[0].0 == key);
    }
}

/// `e` holds the values of the `lsblk -P` line `l`, as the pairs that
/// `parse_lsblk_kv_line` reads from it give them: each field the first value
/// under its key (`NAME`, `SIZE`, `TYPE`, `FSTYPE`, `LABEL`, `UUID`), empty
/// where the key is missing, and the mount point, where it is not empty, as
/// the only mount point.
pub open spec fn lsblk_line_fields(e: BlockDeviceView, l: Seq<char>) -> bool {
    let p = kv_pairs(trim(l));
    &&& trim(l).len() > 0
    &&& first_value(p, "NAME"@, e.name)
    &&& first_value(p, "SIZE"@, e.size)
    &&& first_value(p, "TYPE"@, e.device_type)
    &&& first_value(p, "FSTYPE"@, e.fstype)
    &&& first_value(p, "LABEL"@, e.label)
    &&& first_value(p, "UUID"@, e.uuid)
    &&& exists|mp: Seq<char>|
        #[trigger] first_value(p, "MOUNTPOINT"@, mp) && e.mountpoints == if mp.len() == 0 {
            Seq::<Seq<char>>::empty()
        } else {
            seq![mp]
        }
}

proof fn lemma_trim_trim(l: Seq<char>)
    ensures
        trim(trim(l)) == trim(l),
{
    lemma_trim_shape(l);
    let t = trim(l);
    assert(trim_start(t) == t);
    assert(trim_end(t) == t);
}

proof fn lemma_lsblk_line_fields(l: Seq<char>)
    ensures
        lsblk_line(l) is Some <==> trim(l).len() > 0,
        lsblk_line(l) is Some ==> lsblk_line_fields(lsblk_line(l)->0, l),
{
    lemma_trim_trim(l);
    let p = kv_pairs(trim(l));
    lemma_lookup_first(p, "NAME"@);
    lemma_lookup_first(p, "SIZE"@);
    lemma_lookup_first(p, "TYPE"@);
    lemma_lookup_first(p, "FSTYPE"@);
    lemma_lookup_first(p, "LABEL"@);
    lemma_lookup_first(p, "UUID"@);
    lemma_lookup_first(p, "MOUNTPOINT"@);
}

/// What `parse_lsblk` gives for `text`: each device holds the values of one
/// non-blank line, and each non-blank line gives a device.
pub proof fn law_lsblk_devices_from_lines(text: Seq<char>)
    ensures
        ({
            let ls = lines_of(text);
            let ds = filter_map_seq(ls, |l: Seq<char>| lsblk_line(l));
            &&& forall|k: int|
                #![trigger ds[k]]
                0 <= k < ds.len() ==> exists|i: int|
                    0 <= i < ls.len() && lsblk_line_fields(ds[k], #[trigger] ls[i])
            &&& forall|i: int|
                0 <= i < ls.len() && trim(#[trigger] ls[i]).len() > 0 ==> exists|k: int|
                    0 <= k < ds.len() && lsblk_line_fields(#[trigger] ds[k], ls[i])
        }),
{
    let ls = lines_of(text);
    let f = |l: Seq<char>| lsblk_line(l);
    let ds = filter_map_seq(ls, f);
    assert forall|k: int| #![trigger ds[k]] 0 <= k < ds.len() implies exists|i: int|
        0 <= i < ls.len() && lsblk_line_fields(ds[k], #[trigger] ls[i]) by {
        lemma_filter_map_from(ls, f, k);
        let i = choose|i: int| 0 <= i < ls.len() && f(#[trigger] ls[i]) == Some(ds[k]);
        lemma_lsblk_line_fields(ls[i]);
    }
    assert forall|i: int| 0 <= i < ls.len() && trim(#[trigger] ls[i]).len() > 0 implies exists|
        k: int,
    | 0 <= k < ds.len() && lsblk_line_fields(#[trigger] ds[k], ls[i]) by {
        lemma_lsblk_line_fields(ls[i]);
        lemma_filter_map_to(ls, f, i);
    }
}

// ── Records of one line each ──────────────────────────────────────────────

/// Each record that `f` keeps from the lines `ls` satisfies `p` with one of
/// those lines, and each line that `f` reads as a record gives one.
pub proof fn lemma_filter_map_lines<B>(
    ls: Seq<Seq<char>>,
    f: spec_fn(Seq<char>) -> Option<B>,
    p: spec_fn(B, Seq<char>) -> bool,
)
    requires
        forall|l: Seq<char>| #[trigger] f(l) is Some ==> p(f(l)->0, l),
    ensures
        forall|k: int|
            #![trigger filter_map_seq(ls, f)[k]]
            0 <= k < filter_map_seq(ls, f).len() ==> exists|i: int|
                0 <= i < ls.len() && p(filter_map_seq(ls, f)[k], #[trigger] ls[i]),
        forall|i: int|
            0 <= i < ls.len() && #[trigger] f(ls[i]) is Some ==> exists|k: int|
                0 <= k < filter_map_seq(ls, f).len() && #[trigger] filter_map_seq(ls, f)[k] == f(
                    ls[i],
                )->0,
{
    let r = filter_map_seq(ls, f);
    assert forall|k: int| #![trigger r[k]] 0 <= k < r.len() implies exists|i: int|
        0 <= i < ls.len() && p(r[k], #[trigger] ls[i]) by {
        lemma_filter_map_from(ls, f, k);
        let i = choose|i: int| 0 <= i < ls.len() && f(#[trigger] ls[i]) == Some(r[k]);
        assert(f(ls[i]) is Some);
    }
    assert forall|i: int| 0 <= i < ls.len() && #[trigger] f(ls[i]) is Some implies exists|k: int|
        0 <= k < r.len() && #[trigger] r[k] == f(ls[i])->0 by {
        lemma_filter_map_to(ls, f, i);
    }
}

/// `e` holds the figures of the `free -b` row `l`: the label (its first
/// whitespace field without a trailing colon), then total, used and free
/// (parsed, 0 where they do not parse), and, where the row has seven fields
/// or more, shared, buffer/cache and available where they parse.
pub open spec fn free_line_fields(e: MemoryRowView, l: Seq<char>) -> bool {
    let w = words(trim(l));
    let max = u64::MAX as nat;
    &&& w.len() >= 4
    &&& e.label == trim_char_end(w[0], ':')
    &&& e.total_bytes == parse_or_zero(w[1], max)
    &&& e.used_bytes == parse_or_zero(w[2], max)
    &&& e.free_bytes == parse_or_zero(w[3], max)
    &&& e.shared_bytes == if w.len() >= 7 && parse_unsigned(w[4], max) is Some {
        Some(parse_unsigned(w[4], max)->0 as u64)
    } else {
        None
    }
    &&& e.buff_cache_bytes == if w.len() >= 7 && parse_unsigned(w[5], max) is Some {
        Some(parse_unsigned(w[5], max)->0 as u64)
    } else {
        None
    }
    &&& e.available_bytes == if w.len() >= 7 && parse_unsigned(w[6], max) is Some {
        Some(parse_unsigned(w[6], max)->0 as u64)
    } else {
        None
    }
}

/// What `parse_free` gives for `text`: each row holds the figures of one
/// line after the header, and each line after the header with four fields
/// or more gives a row.
pub proof fn law_free_rows_from_lines(text: Seq<char>)
    ensures
        ({
            let ls = after_first(lines_of(text));
            let r = filter_map_seq(ls, |l: Seq<char>| free_row(l));
            &&& forall|k: int|
                #![trigger r[k]]
                0 <= k < r.len() ==> exists|i: int|
                    0 <= i < ls.len() && free_line_fields(r[k], #[trigger] ls[i])
            &&& forall|i: int|
                0 <= i < ls.len() && words(trim(#[trigger] ls[i])).len() >= 4 ==> exists|k: int|
                    0 <= k < r.len() && free_line_fields(#[trigger] r[k], ls[i])
        }),
{
    let ls = after_first(lines_of(text));
    let f = |l: Seq<char>| free_row(l);
    let p = |e: MemoryRowView, l: Seq<char>| free_line_fields(e, l);
    assert forall|l: Seq<char>| #[trigger] f(l) is Some implies p(f(l)->0, l) by {}
    lemma_filter_map_lines(ls, f, p);
    assert forall|i: int| 0 <= i < ls.len() && words(trim(#[trigger] ls[i])).len() >= 4 implies exists|
        k: int,
    | 0 <= k < filter_map_seq(ls, f).len() && free_line_fields(#[trigger] filter_map_seq(ls, f)[k], ls[i]) by {
        assert(f(ls[i]) is Some);
    }
}

/// `e` holds the fields of the `df` row `l`: file system, size, used and
/// available as the first four whitespace fields of the trimmed line, the
/// use percentage from the fifth (without its `%`, 0 where it does not
/// parse), and the mount point from the sixth field on, spaces kept.
pub open spec fn df_line_fields(e: DfEntryView, l: Seq<char>) -> bool {
    let w = words(trim(l));
    &&& w.len() >= 6
    &&& e.filesystem == w[0]
    &&& e.size == w[1]
    &&& e.used == w[2]
    &&& e.avail == w[3]
    &&& e.use_percent == parse_or_zero(trim_char_end(w[4], '%'), u8::MAX as nat)
    &&& w[5].is_prefix_of(e.mountpoint)
    &&& words(e.mountpoint) == w.skip(5)
}

proof fn lemma_df_row_fields(l: Seq<char>)
    ensures
        df_row(l) is Some <==> words(trim(l)).len() >= 6,
        df_row(l) is Some ==> df_line_fields(df_row(l)->0, l),
{
    law_split_n_fields_words(trim(l), 6);
    let w = words(trim(l));
    let p = split_n(trim(l), 6);
    if w.len() >= 6 {
        assert(p[4] == w[4]);
    }
}

/// What `parse_df` gives for `text`: each entry holds the fields of one line
/// after the header, and each line after the header with six fields or more
/// gives an entry.
pub proof fn law_df_rows_from_lines(text: Seq<char>)
    ensures
        ({
            let ls = after_first(lines_of(text));
            let r = filter_map_seq(ls, |l: Seq<char>| df_row(l));
            &&& forall|k: int|
                #![trigger r[k]]
                0 <= k < r.len() ==> exists|i: int|
                    0 <= i < ls.len() && df_line_fields(r[k], #[trigger] ls[i])
            &&& forall|i: int|
                0 <= i < ls.len() && words(trim(#[trigger] ls[i])).len() >= 6 ==> exists|k: int|
                    0 <= k < r.len() && df_line_fields(#[trigger] r[k], ls[i])
        }),
{
    let ls = after_first(lines_of(text));
    let f = |l: Seq<char>| df_row(l);
    let p = |e: DfEntryView, l: Seq<char>| df_line_fields(e, l);
    assert forall|l: Seq<char>| #[trigger] f(l) is Some implies p(f(l)->0, l) by {
        lemma_df_row_fields(l);
    }
    lemma_filter_map_lines(ls, f, p);
    assert forall|i: int| 0 <= i < ls.len() && words(trim(#[trigger] ls[i])).len() >= 6 implies exists|
        k: int,
    | 0 <= k < filter_map_seq(ls, f).len() && df_line_fields(#[trigger] filter_map_seq(ls, f)[k], ls[i]) by {
        lemma_df_row_fields(ls[i]);
        assert(f(ls[i]) is Some);
    }
}

/// `e` holds the fields of the `systemctl list-units` row `l`: unit, load,
/// active and sub state as the first four whitespace fields of the trimmed
/// line, and the description from the fifth field on, spaces kept (empty
/// where there is none).
pub open spec fn unit_line_fields(e: SystemdUnitView, l: Seq<char>) -> bool {
    let w = words(trim(l));
    &&& w.len() >= 4
    &&& e.unit == w[0]
    &&& e.load == w[1]
    &&& e.active == w[2]
    &&& e.sub == w[3]
    &&& words(e.description) == w.skip(4)
    &&& (w.len() > 4 ==> w[4].is_prefix_of(e.description))
    &&& (w.len() == 4 ==> e.description.len() == 0)
}

proof fn lemma_unit_row_fields(l: Seq<char>)
    ensures
        unit_row(l) is Some <==> words(trim(l)).len() >= 4 && !is_digit(trim(l)[0]),
        unit_row(l) is Some ==> unit_line_fields(unit_row(l)->0, l),
{
    law_split_n_fields_words(trim(l), 5);
    lemma_words_empty();
    let w = words(trim(l));
    if w.len() == 4 {
        assert(w.skip(4) =~= Seq::<Seq<char>>::empty());
    }
    if trim(l).len() == 0 {
        assert(w.len() == 0);
    }
}

/// What `parse_systemd_units` gives for `text`: each unit holds the fields
/// of one line, and each line with four fields or more that does not start
/// with a digit gives a unit.
pub proof fn law_unit_rows_from_lines(text: Seq<char>)
    ensures
        ({
            let ls = lines_of(text);
            let r = filter_map_seq(ls, |l: Seq<char>| unit_row(l));
            &&& forall|k: int|
                #![trigger r[k]]
                0 <= k < r.len() ==> exists|i: int|
                    0 <= i < ls.len() && unit_line_fields(r[k], #[trigger] ls[i])
            &&& forall|i: int|
                0 <= i < ls.len() && words(trim(#[trigger] ls[i])).len() >= 4 && !is_digit(
                    trim(ls[i])[0],
                ) ==> exists|k: int| 0 <= k < r.len() && unit_line_fields(#[trigger] r[k], ls[i])
        }),
{
    let ls = lines_of(text);
    let f = |l: Seq<char>| unit_row(l);
    let p = |e: SystemdUnitView, l: Seq<char>| unit_line_fields(e, l);
    assert forall|l: Seq<char>| #[trigger] f(l) is Some implies p(f(l)->0, l) by {
        lemma_unit_row_fields(l);
    }
    lemma_filter_map_lines(ls, f, p);
    assert forall|i: int|
        0 <= i < ls.len() && words(trim(#[trigger] ls[i])).len() >= 4 && !is_digit(
            trim(ls[i])[0],
        ) implies exists|k: int|
        0 <= k < filter_map_seq(ls, f).len() && unit_line_fields(#[trigger] filter_map_seq(ls, f)[k], ls[i]) by {
        lemma_unit_row_fields(ls[i]);
        assert(f(ls[i]) is Some);
    }
}

/// `x` is a line of `ls` that holds something other than whitespace, with
/// its trailing whitespace removed.
pub open spec fn trimmed_line_of(ls: Seq<Seq<char>>, x: Seq<char>) -> bool {
    exists|i: int| 0 <= i < ls.len() && #[trigger] has_non_ws(ls[i]) && x == trim_end(ls[i])
}

/// What `lines` gives for `text`: each kept line is a line of `text` that
/// holds something other than whitespace, with its trailing whitespace
/// removed, and each such line of `text` is kept.
pub proof fn law_lines_from_lines(text: Seq<char>)
    ensures
        forall|k: int|
            0 <= k < nonblank_lines(text).len() ==> trimmed_line_of(
                lines_of(text),
                #[trigger] nonblank_lines(text)[k],
            ),
        forall|i: int|
            0 <= i < lines_of(text).len() && has_non_ws(#[trigger] lines_of(text)[i])
                ==> nonblank_lines(text).contains(trim_end(lines_of(text)[i])),
{
    let ls = lines_of(text);
    let f = |l: Seq<char>| nonblank_line(l);
    let p = |e: Seq<char>, l: Seq<char>| has_non_ws(l) && e == trim_end(l);
    assert forall|l: Seq<char>| #[trigger] f(l) is Some implies p(f(l)->0, l) by {
        lemma_trim_end_content(l);
    }
    lemma_filter_map_lines(ls, f, p);
    let r = filter_map_seq(ls, f);
    assert(nonblank_lines(text) == r);
    assert forall|k: int| 0 <= k < r.len() implies trimmed_line_of(ls, #[trigger] r[k]) by {
        let i = choose|i: int| 0 <= i < ls.len() && p(r[k], #[trigger] ls[i]);
        assert(has_non_ws(ls[i]) && r[k] == trim_end(ls[i]));
    }
    assert forall|i: int| 0 <= i < ls.len() && has_non_ws(#[trigger] ls[i]) implies r.contains(
        trim_end(ls[i]),
    ) by {
        lemma_trim_end_content(ls[i]);
        assert(f(ls[i]) is Some);
        let k = choose|k: int| 0 <= k < r.len() && #[trigger] r[k] == f(ls[i])->0;
        assert(r[k] == trim_end(ls[i]));
    }
}

/// Removing trailing whitespace keeps whatever else a line holds.
proof fn lemma_trim_end_content(l: Seq<char>)
    ensures
        has_non_ws(trim_end(l)) == has_non_ws(l),
{
    lemma_trim_shape(l);
    lemma_trim_end_shape(l);
    lemma_trim_start_shape(trim_end(l));
    lemma_trim_start_shape(l);
}

/// The line `l` starts with `PRETTY_NAME=`.
pub open spec fn pretty_line(l: Seq<char>) -> bool {
    "PRETTY_NAME="@.is_prefix_of(l)
}

/// What `os_pretty_name` gives for the lines `ls`: where some line starts
/// with `PRETTY_NAME=`, wherever it stands, the rest of the first such line
/// with its surrounding double quotes removed; where none does, nothing.
pub proof fn law_pretty_name_first_line(ls: Seq<Seq<char>>)
    ensures
        forall|j: int|
            0 <= j < ls.len() && pretty_line(#[trigger] ls[j]) && (forall|m: int|
                0 <= m < j ==> !pretty_line(#[trigger] ls[m])) ==> pretty_name(ls) == trim_char(
                ls[j].skip(12),
                '"',
            ),
        (forall|j: int| 0 <= j < ls.len() ==> !pretty_line(#[trigger] ls[j])) ==> pretty_name(ls)
            == Seq::<char>::empty(),
    decreases ls.len(),
{
    reveal_strlit("PRETTY_NAME=");
    if ls.len() > 0 {
        let rest = ls.drop_first();
        law_pretty_name_first_line(rest);
        assert(starts_with(ls[0], "PRETTY_NAME="@) == pretty_line(ls[0])) by {
            if "PRETTY_NAME="@.len() <= ls[0].len() {
                assert(ls[0].take(12) =~= ls[0].subrange(0, 12));
            }
        }
        assert forall|j: int|
            0 <= j < ls.len() && pretty_line(#[trigger] ls[j]) && (forall|m: int|
                0 <= m < j ==> !pretty_line(#[trigger] ls[m])) implies pretty_name(ls) == trim_char(
            ls[j].skip(12),
            '"',
        ) by {
            if j > 0 {
                assert(!pretty_line(ls[0]));
                assert(rest[j - 1] == ls[j]);
                assert forall|m: int| 0 <= m < j - 1 implies !pretty_line(#[trigger] rest[m]) by {
                    assert(rest[m] == ls[m + 1]);
                    assert(!pretty_line(ls[m + 1]));
                }
            }
        }
        if forall|j: int| 0 <= j < ls.len() ==> !pretty_line(#[trigger] ls[j]) {
            assert(!pretty_line(ls[0]));
            assert forall|j: int| 0 <= j < rest.len() implies !pretty_line(#[trigger] rest[j]) by {
                assert(rest[j] == ls[j + 1]);
            }
        }
    }
}

// ── Records split at separators ───────────────────────────────────────────

/// `s` is `a`, then `p`, then `b`, and no `p` in `s` starts before this
/// one.
pub open spec fn split_at_first(s: Seq<char>, p: Seq<char>, a: Seq<char>, b: Seq<char>) -> bool {
    &&& s == a + p + b
    &&& forall|j: int| 0 <= j < a.len() ==> !#[trigger] occurs_at(s, p, j)
}

proof fn lemma_split_once_sub(s: Seq<char>, p: Seq<char>)
    requires
        p.len() > 0,
    ensures
        match split_once_sub(s, p) {
            Some(ab) => split_at_first(s, p, ab.0, ab.1),
            None => true,
        },
{
    lemma_find_sub(s, p);
    if let Some(i) = find_sub(s, p) {
        assert(s =~= s.take(i) + p + s.skip(i + p.len()));
    }
}

proof fn lemma_split_once_char(s: Seq<char>, c: char)
    ensures
        match split_once_char(s, c) {
            Some(ab) => split_at_first(s, seq![c], ab.0, ab.1),
            None => true,
        },
{
    lemma_find_char(s, c);
    if let Some(i) = find_char(s, c) {
        assert(s =~= s.take(i) + seq![c] + s.skip(i + 1));
        assert forall|j: int| 0 <= j < i implies !#[trigger] occurs_at(s, seq![c], j) by {
            if occurs_at(s, seq![c], j) {
                assert(s.subrange(j, j + 1)[0] == s[j]);
            }
        }
    }
}

/// `e` holds the two sides of the first tab of the `du` line `l`, each
/// trimmed: the size, then the path.
pub open spec fn du_line_fields(e: (Seq<char>, Seq<char>), l: Seq<char>) -> bool {
    exists|a: Seq<char>, b: Seq<char>|
        #[trigger] split_at_first(trim(l), seq!['\t'], a, b) && e == (trim(a), trim(b))
}

/// What `parse_du` gives for `text`: each entry holds the two sides of the
/// first tab of one line.
pub proof fn law_du_entries_from_lines(text: Seq<char>)
    ensures
        ({
            let ls = lines_of(text);
            let r = filter_map_seq(ls, |l: Seq<char>| du_line(l));
            forall|k: int|
                #![trigger r[k]]
                0 <= k < r.len() ==> exists|i: int|
                    0 <= i < ls.len() && du_line_fields(r[k], #[trigger] ls[i])
        }),
{
    let ls = lines_of(text);
    let f = |l: Seq<char>| du_line(l);
    let p = |e: (Seq<char>, Seq<char>), l: Seq<char>| du_line_fields(e, l);
    assert forall|l: Seq<char>| #[trigger] f(l) is Some implies p(f(l)->0, l) by {
        lemma_split_once_char(trim(l), '\t');
        let (a, b) = split_once_char(trim(l), '\t')->0;
        assert(split_at_first(trim(l), seq!['\t'], a, b));
    }
    lemma_filter_map_lines(ls, f, p);
}

/// `e` holds the slot, class and description of the `lspci` line `l`: the
/// slot before the first space of the trimmed line, the class before the
/// first `": "` after it, and the description after that, both trimmed.
pub open spec fn pci_line_fields(e: (Seq<char>, Seq<char>, Seq<char>), l: Seq<char>) -> bool {
    exists|slot: Seq<char>, rest: Seq<char>, class: Seq<char>, description: Seq<char>|
        #[trigger] split_at_first(trim(l), seq![' '], slot, rest) && #[trigger] split_at_first(
            rest,
            ": "@,
            class,
            description,
        ) && e == (slot, trim(class), trim(description))
}

/// What `parse_lspci` gives for `text`: each device holds the slot, class
/// and description of one line.
pub proof fn law_pci_devices_from_lines(text: Seq<char>)
    ensures
        ({
            let ls = lines_of(text);
            let r = filter_map_seq(ls, |l: Seq<char>| pci_line(l));
            forall|k: int|
                #![trigger r[k]]
                0 <= k < r.len() ==> exists|i: int|
                    0 <= i < ls.len() && pci_line_fields(r[k], #[trigger] ls[i])
        }),
{
    reveal_strlit(": ");
    let ls = lines_of(text);
    let f = |l: Seq<char>| pci_line(l);
    let p = |e: (Seq<char>, Seq<char>, Seq<char>), l: Seq<char>| pci_line_fields(e, l);
    assert forall|l: Seq<char>| #[trigger] f(l) is Some implies p(f(l)->0, l) by {
        lemma_split_once_char(trim(l), ' ');
        let (slot, rest) = split_once_char(trim(l), ' ')->0;
        lemma_split_once_sub(rest, ": "@);
        let (class, description) = split_once_sub(rest, ": "@)->0;
        assert(split_at_first(trim(l), seq![' '], slot, rest));
        assert(split_at_first(rest, ": "@, class, description));
    }
    lemma_filter_map_lines(ls, f, p);
}

/// `e` holds the parts of the `mount` line `l`: the device before the first
/// `" on "`, the mount point between it and the first `" type "` of what
/// stands before the first `" ("` after it, the file system type after that
/// `" type "`, each trimmed, and the options: what follows `" ("` without
/// its closing parentheses, split at commas, each trimmed.
pub open spec fn mount_line_fields(e: MountEntryView, l: Seq<char>) -> bool {
    exists|device: Seq<char>, rest: Seq<char>, rest2: Seq<char>, options: Seq<char>, mountpoint: Seq<
        char,
    >, fstype: Seq<char>|
        #[trigger] split_at_first(trim(l), " on "@, device, rest) && #[trigger] split_at_first(
            rest,
            " ("@,
            rest2,
            options,
        ) && #[trigger] split_at_first(rest2, " type "@, mountpoint, fstype) && e.device == trim(
            device,
        ) && e.mountpoint == trim(mountpoint) && e.fstype == trim(fstype) && e.options
            == trim_each(split_char(trim_char_end(options, ')'), ','))
}

/// What `parse_mount` gives for `text`: each mount holds the parts of one
/// line.
pub proof fn law_mount_entries_from_lines(text: Seq<char>)
    ensures
        ({
            let ls = lines_of(text);
            let r = filter_map_seq(ls, |l: Seq<char>| mount_line(l));
            forall|k: int|
                #![trigger r[k]]
                0 <= k < r.len() ==> exists|i: int|
                    0 <= i < ls.len() && mount_line_fields(r[k], #[trigger] ls[i])
        }),
{
    reveal_strlit(" on ");
    reveal_strlit(" (");
    reveal_strlit(" type ");
    let ls = lines_of(text);
    let f = |l: Seq<char>| mount_line(l);
    let p = |e: MountEntryView, l: Seq<char>| mount_line_fields(e, l);
    assert forall|l: Seq<char>| #[trigger] f(l) is Some implies p(f(l)->0, l) by {
        lemma_split_once_sub(trim(l), " on "@);
        let (device, rest) = split_once_sub(trim(l), " on "@)->0;
        lemma_split_once_sub(rest, " ("@);
        let (rest2, options) = split_once_sub(rest, " ("@)->0;
        lemma_split_once_sub(rest2, " type "@);
        let (mountpoint, fstype) = split_once_sub(rest2, " type "@)->0;
        assert(split_at_first(trim(l), " on "@, device, rest));
        assert(split_at_first(rest, " ("@, rest2, options));
        assert(split_at_first(rest2, " type "@, mountpoint, fstype));
    }
    lemma_filter_map_lines(ls, f, p);
}

/// `e` holds the fields of the `lsusb` line `l`: the bus from the second
/// whitespace field, the device from the fourth without its colon, vendor
/// and product id as the two sides of the first colon of the sixth, and the
/// description as the remaining fields joined by single spaces.
pub open spec fn usb_line_fields(e: UsbDeviceView, l: Seq<char>) -> bool {
    let w = words(trim(l));
    &&& w.len() >= 6
    &&& parse_unsigned(w[1], u32::MAX as nat) == Some(e.bus as nat)
    &&& parse_unsigned(trim_char_end(w[3], ':'), u32::MAX as nat) == Some(e.device as nat)
    &&& split_at_first(w[5], seq![':'], e.vendor_id, e.product_id)
    &&& e.description == join(w.skip(6), " "@)
}

/// What `parse_lsusb` gives for `text`: each device holds the fields of one
/// line.
pub proof fn law_usb_devices_from_lines(text: Seq<char>)
    ensures
        ({
            let ls = lines_of(text);
            let r = filter_map_seq(ls, |l: Seq<char>| usb_line(l));
            forall|k: int|
                #![trigger r[k]]
                0 <= k < r.len() ==> exists|i: int|
                    0 <= i < ls.len() && usb_line_fields(r[k], #[trigger] ls[i])
        }),
{
    let ls = lines_of(text);
    let f = |l: Seq<char>| usb_line(l);
    let p = |e: UsbDeviceView, l: Seq<char>| usb_line_fields(e, l);
    assert forall|l: Seq<char>| #[trigger] f(l) is Some implies p(f(l)->0, l) by {
        let w = words(trim(l));
        lemma_split_once_char(w[5], ':');
        if w.len() == 6 {
            assert(w.skip(6) =~= Seq::<Seq<char>>::empty());
        }
    }
    lemma_filter_map_lines(ls, f, p);
}

// ── Reports ───────────────────────────────────────────────────────────────

/// `x` stands somewhere in `s`, as one stretch.
pub open spec fn occurs_in(x: Seq<char>, s: Seq<char>) -> bool {
    exists|i: int| 0 <= i <= s.len() - x.len() && #[trigger] s.subrange(i, i + x.len()) == x
}

proof fn lemma_occurs_facts()
    ensures
        forall|x: Seq<char>| #[trigger] occurs_in(x, x),
        forall|x: Seq<char>, a: Seq<char>, b: Seq<char>|
            occurs_in(x, a) || occurs_in(x, b) ==> #[trigger] occurs_in(x, a + b),
{
    assert forall|x: Seq<char>| #[trigger] occurs_in(x, x) by {
        let i: int = 0;
        assert(x.subrange(i, i + x.len()) =~= x);
    }
    assert forall|x: Seq<char>, a: Seq<char>, b: Seq<char>|
        occurs_in(x, a) || occurs_in(x, b) implies #[trigger] occurs_in(x, a + b) by {
        let s = a + b;
        if occurs_in(x, a) {
            let i = choose|i: int| 0 <= i <= a.len() - x.len() && #[trigger] a.subrange(i, i + x.len()) == x;
            assert(s.subrange(i, i + x.len()) =~= a.subrange(i, i + x.len()));
        } else {
            let i = choose|i: int| 0 <= i <= b.len() - x.len() && #[trigger] b.subrange(i, i + x.len()) == x;
            let j = i + a.len();
            assert(s.subrange(j, j + x.len()) =~= b.subrange(i, i + x.len()));
        }
    }
}

/// The file systems report holds each of its tables, each built from its
/// own part of the section and under its own title: the mounts, the
/// `findmnt` lines, the block devices, disk usage under "df -h", inode
/// usage under "df -ih (inodes)", and the two directory size lists.
pub proof fn law_filesystems_sections(f: FilesystemSection)
    ensures
        occurs_in(mount_table("mount", views(f.mounts@)), filesystems_report(f)),
        occurs_in(lines_block("findmnt", views(f.findmnt.lines@)), filesystems_report(f)),
        occurs_in(block_device_table("lsblk", views(f.block_devices@)), filesystems_report(f)),
        occurs_in(df_table("df -h", views(f.df@)), filesystems_report(f)),
        occurs_in(df_table("df -ih (inodes)", views(f.df_inodes@)), filesystems_report(f)),
        occurs_in(du_table("du -sh /var/log /tmp", views(f.du_log_tmp@)), filesystems_report(f)),
        occurs_in(du_table("du -h /media/card", views(f.du_media_card@)), filesystems_report(f)),
{
    lemma_occurs_facts();
}

/// The resources report holds the uptime, the memory table and the root
/// disk table, each built from its own argument under its own title.
pub proof fn law_resources_sections(
    uptime_pretty: Seq<char>,
    memory: Seq<MemoryRowView>,
    disk_root: Seq<DfEntryView>,
)
    ensures
        occurs_in(
            lines_block("Resources: uptime", seq![uptime_pretty]),
            resources_report(uptime_pretty, memory, disk_root),
        ),
        occurs_in(
            memory_table("Resources: memory", memory),
            resources_report(uptime_pretty, memory, disk_root),
        ),
        occurs_in(
            df_table("Resources: disk (root)", disk_root),
            resources_report(uptime_pretty, memory, disk_root),
        ),
{
    lemma_occurs_facts();
}

/// The system information report holds the os-release entries, the host
/// name and uptime lines, and the `hostnamectl`, `timedatectl` and `locale`
/// entries, each built from its own argument under its own title.
pub proof fn law_sysinfo_sections(
    os_release: Seq<(Seq<char>, Seq<char>)>,
    hostname: Seq<char>,
    uptime_pretty: Seq<char>,
    hostnamectl: Seq<(Seq<char>, Seq<char>)>,
    timedatectl: Seq<(Seq<char>, Seq<char>)>,
    locale: Seq<(Seq<char>, Seq<char>)>,
)
    ensures
        ({
            let r = sysinfo_report(os_release, hostname, uptime_pretty, hostnamectl, timedatectl, locale);
            &&& occurs_in(kvs_block("OS release", os_release), r)
            &&& occurs_in(labelled("Hostname: "@, hostname), r)
            &&& occurs_in(labelled("Uptime: "@, uptime_pretty), r)
            &&& occurs_in(kvs_block("hostnamectl", hostnamectl), r)
            &&& occurs_in(kvs_block("timedatectl", timedatectl), r)
            &&& occurs_in(kvs_block("locale", locale), r)
        }),
{
    lemma_occurs_facts();
}

/// The hardware report holds the memory, block device, `blkid`, PCI and USB
/// tables, each built from its own part of the section under its own title.
pub proof fn law_hardware_sections(h: HardwareSection)
    ensures
        occurs_in(memory_table("Memory", views(h.memory@)), hardware_report(h)),
        occurs_in(block_device_table("Block devices", views(h.block_devices@)), hardware_report(h)),
        occurs_in(kvs_block("blkid", views(h.blkid@)), hardware_report(h)),
        occurs_in(pci_table("PCI devices", views(h.pci_devices@)), hardware_report(h)),
        occurs_in(usb_table("USB devices", views(h.usb_devices@)), hardware_report(h)),
{
    lemma_occurs_facts();
}

/// The service manager report holds the failed services, failed units,
/// timers and jobs, each from its own part of the section under its own
/// title.
pub proof fn law_systemd_status_sections(st: SystemdStatusSection)
    ensures
        occurs_in(lines_block("systemctl --failed", views(st.failed.lines@)), systemd_status_report(st)),
        occurs_in(
            lines_block("systemctl list-units --state=failed", views(st.failed_units.lines@)),
            systemd_status_report(st),
        ),
        occurs_in(
            lines_block("systemctl list-timers --all", views(st.timers.lines@)),
            systemd_status_report(st),
        ),
        occurs_in(lines_block("systemctl list-jobs", views(st.jobs.lines@)), systemd_status_report(st)),
{
    lemma_occurs_facts();
}

/// The network report holds the addresses, routes, rules, resolver status
/// and resolver configuration, each from its own part of the section under
/// its own title.
pub proof fn law_network_sections(n: NetworkSection)
    ensures
        occurs_in(lines_block("ip addr", views(n.ip_addr.lines@)), network_report(n)),
        occurs_in(lines_block("ip route", views(n.ip_route.lines@)), network_report(n)),
        occurs_in(lines_block("ip rule", views(n.ip_rule.lines@)), network_report(n)),
        occurs_in(
            lines_block("resolvectl status", views(n.resolvectl_status.lines@)),
            network_report(n),
        ),
        occurs_in(lines_block("/etc/resolv.conf", views(n.resolv_conf.lines@)), network_report(n)),
{
    lemma_occurs_facts();
}

/// The index of the first entry whose key is `key`, where there is one.
pub open spec fn first_with_key(entries: Seq<(Seq<char>, Seq<char>)>, key: Seq<char>, j: int) -> bool {
    0 <= j < entries.len() && entries[j].0 == key && forall|m: int|
        0 <= m < j ==> #[trigger] entries[m].0 != key
}

proof fn lemma_kv_lookup_first(entries: Seq<(Seq<char>, Seq<char>)>, key: Seq<char>)
    ensures
        forall|j: int| first_with_key(entries, key, j) ==> kv_lookup(entries, key) == Some(
            #[trigger] entries[j].1,
        ),
        (forall|j: int| 0 <= j < entries.len() ==> #[trigger] entries[j].0 != key) ==> kv_lookup(
            entries,
            key,
        ) is None,
    decreases entries.len(),
{
    if entries.len() > 0 {
        let rest = entries.drop_first();
        lemma_kv_lookup_first(rest, key);
        assert forall|j: int| first_with_key(entries, key, j) implies kv_lookup(entries, key) == Some(
            #[trigger] entries[j].1,
        ) by {
            if j > 0 {
                assert(entries[0].0 != key);
                assert(rest[j - 1] == entries[j]);
                assert forall|m: int| 0 <= m < j - 1 implies #[trigger] rest[m].0 != key by {
                    assert(rest[m] == entries[m + 1]);
                }
                assert(first_with_key(rest, key, j - 1));
            }
        }
        if forall|j: int| 0 <= j < entries.len() ==> #[trigger] entries[j].0 != key {
            assert(entries[0].0 != key);
            assert forall|j: int| 0 <= j < rest.len() implies #[trigger] rest[j].0 != key by {
                assert(rest[j] == entries[j + 1]);
            }
        }
    }
}

/// The OS line of the summary: where some os-release entry has the key
/// `PRETTY_NAME`, wherever it stands, the summary holds `OS: ` and the value
/// of the first such entry on a line of its own, and it is the summary that
/// this one entry alone would give; where none has that key, the summary is
/// the one that no entries at all would give.
pub proof fn law_summary_os_line(
    generated_at: Seq<char>,
    collector_version: Seq<char>,
    hostname: Seq<char>,
    os_release: Seq<(Seq<char>, Seq<char>)>,
    uptime_pretty: Seq<char>,
    load: Seq<char>,
)
    ensures
        forall|j: int|
            #![trigger os_release[j]]
            first_with_key(os_release, "PRETTY_NAME"@, j) ==> {
                &&& occurs_in(
                    "\nOS: "@ + os_release[j].1 + "\n"@,
                    summary_text(
                        generated_at,
                        collector_version,
                        hostname,
                        os_release,
                        uptime_pretty,
                        load,
                    ),
                )
                &&& summary_text(
                    generated_at,
                    collector_version,
                    hostname,
                    os_release,
                    uptime_pretty,
                    load,
                ) == summary_text(
                    generated_at,
                    collector_version,
                    hostname,
                    seq![os_release[j]],
                    uptime_pretty,
                    load,
                )
            },
        (forall|j: int|
            0 <= j < os_release.len() ==> #[trigger] os_release[j].0 != "PRETTY_NAME"@)
            ==> summary_text(
            generated_at,
            collector_version,
            hostname,
            os_release,
            uptime_pretty,
            load,
        ) == summary_text(
            generated_at,
            collector_version,
            hostname,
            Seq::empty(),
            uptime_pretty,
            load,
        ),
{
    let key = "PRETTY_NAME"@;
    lemma_kv_lookup_first(os_release, key);
    lemma_occurs_facts();
    assert forall|j: int| #![trigger os_release[j]] first_with_key(os_release, key, j) implies {
        &&& occurs_in(
            "\nOS: "@ + os_release[j].1 + "\n"@,
            summary_text(generated_at, collector_version, hostname, os_release, uptime_pretty, load),
        )
        &&& summary_text(generated_at, collector_version, hostname, os_release, uptime_pretty, load)
            == summary_text(
            generated_at,
            collector_version,
            hostname,
            seq![os_release[j]],
            uptime_pretty,
            load,
        )
    } by {
        let v = os_release[j].1;
        let one = seq![os_release[j]];
        assert(first_with_key(one, key, 0));
        lemma_kv_lookup_first(one, key);
        assert(kv_lookup(os_release, key) == Some(v));
        assert(kv_lookup(one, key) == Some(v));
        let head = "System State Dump\n"@ + labelled("Collected: "@, generated_at) + labelled(
            "Collector version: "@,
            collector_version,
        ) + "Hostname: "@ + hostname;
        let tail = labelled("Uptime: "@, uptime_pretty) + labelled("Load: "@, load);
        let s = summary_text(generated_at, collector_version, hostname, os_release, uptime_pretty, load);
        assert(s =~= head + ("\nOS: "@ + v + "\n"@) + tail) by {
            reveal_strlit("\n");
            reveal_strlit("OS: ");
            reveal_strlit("\nOS: ");
            assert("\n"@ + "OS: "@ =~= "\nOS: "@);
        }
    }
    lemma_kv_lookup_first(Seq::<(Seq<char>, Seq<char>)>::empty(), key);
}

} // verus!
