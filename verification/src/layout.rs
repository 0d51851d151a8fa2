//! The line structure of the rendered tables: a title, its underline, a
//! header, then one line per record.
use vstd::prelude::*;

use crate::laws::{all_ws, lemma_words_ws_prefix, lemma_bytes_text_token, lemma_dec_token, lemma_words_aligned, lemma_words_column, lemma_words_empty, lemma_words_single, no_nl, no_ws};
use crate::parse::join;
use crate::render::{df_table_row_line, du_table_row_line, pci_table_row_line, socket_table_row_line, unit_table_row_line, usb_table_row_line, block_device_table, block_device_table_header_line, block_device_table_row, block_device_table_row_line, bytes_text, concat_map, heading, memory_table, memory_table_header_line, memory_table_row, memory_table_row_line, mount_table, process_table, process_table_header_line, process_table_row, process_table_row_line, mount_table_header_line, mount_table_row, mount_table_row_line, opt_bytes_text};
use crate::text::{align_left, align_right, dec, find_char, is_ws, lemma_find_char, lines_of, repeat_char, strip_cr, words};
use crate::types::{BlockDeviceView, DfEntryView, MemoryRowView, MountEntryView, ProcessView, SocketEntryView, SystemdUnitView, UsbDeviceView};

verus! {

// ── Lines of terminated text ──────────────────────────────────────────────

/// Text that reads back as one line: no line feed in it, and no carriage
/// return at its end.
pub open spec fn line_safe(x: Seq<char>) -> bool {
    no_nl(x) && (x.len() == 0 || x.last() != '\r')
}

/// The lines `ls`, each followed by a line feed.
pub open spec fn terminated(ls: Seq<Seq<char>>) -> Seq<char>
    decreases ls.len(),
{
    if ls.len() == 0 {
        seq![]
    } else {
        ls[0] + "\n"@ + terminated(ls.drop_first())
    }
}

/// Lines that are each fit to stand alone read back as themselves.
pub proof fn lemma_lines_of_terminated(ls: Seq<Seq<char>>)
    requires
        forall|i: int| 0 <= i < ls.len() ==> line_safe(#[trigger] ls[i]),
    ensures
        lines_of(terminated(ls)) == ls,
    decreases ls.len(),
{
    reveal_strlit("\n");
    if ls.len() == 0 {
        assert(terminated(ls) =~= Seq::<char>::empty());
    } else {
        let a = ls[0];
        let rest = terminated(ls.drop_first());
        let s = terminated(ls);
        assert(line_safe(ls[0]));
        assert(s =~= a + seq!['\n'] + rest);
        let k = a.len() as int;
        assert(s[k] == '\n');
        lemma_find_char(s, '\n');
        match find_char(s, '\n') {
            Some(i) => {
                if i < k {
                    assert(s[i] == a[i]);
                } else if i > k {
                    assert(s[k] != '\n');
                }
                assert(i == k);
            },
            None => {
                assert(s[k] != '\n');
            },
        }
        assert(s.take(k) =~= a);
        assert(strip_cr(a) == a);
        assert(s.skip(k + 1) =~= rest);
        assert forall|i: int| 0 <= i < ls.drop_first().len() implies line_safe(
            #[trigger] ls.drop_first()[i],
        ) by {
            assert(ls.drop_first()[i] == ls[i + 1]);
        }
        lemma_lines_of_terminated(ls.drop_first());
        assert(lines_of(s) =~= seq![a] + ls.drop_first());
        assert(seq![a] + ls.drop_first() =~= ls);
    }
}

/// Terminating two runs of lines one after the other terminates their
/// concatenation.
pub proof fn lemma_terminated_append(a: Seq<Seq<char>>, b: Seq<Seq<char>>)
    ensures
        terminated(a + b) == terminated(a) + terminated(b),
    decreases a.len(),
{
    if a.len() == 0 {
        assert(a + b =~= b);
        assert(terminated(a) + terminated(b) =~= terminated(b));
    } else {
        assert((a + b).drop_first() =~= a.drop_first() + b);
        lemma_terminated_append(a.drop_first(), b);
        assert(terminated(a + b) =~= terminated(a) + terminated(b));
    }
}

/// Pieces that each end in a line feed are the terminated lines before it.
pub proof fn lemma_concat_map_terminated<T>(
    s: Seq<T>,
    f: spec_fn(T) -> Seq<char>,
    g: spec_fn(T) -> Seq<char>,
)
    requires
        forall|e: T| #[trigger] f(e) == g(e) + "\n"@,
    ensures
        concat_map(s, f) == terminated(s.map_values(g)),
    decreases s.len(),
{
    if s.len() == 0 {
        assert(s.map_values(g) =~= Seq::<Seq<char>>::empty());
    } else {
        lemma_concat_map_terminated(s.drop_last(), f, g);
        let last = seq![g(s.last())];
        assert(s.map_values(g) =~= s.drop_last().map_values(g) + last);
        lemma_terminated_append(s.drop_last().map_values(g), last);
        assert(last.drop_first() =~= Seq::<Seq<char>>::empty());
        assert(terminated(last.drop_first()) =~= Seq::<char>::empty());
        assert(terminated(last) =~= g(s.last()) + "\n"@);
        assert(concat_map(s, f) =~= terminated(s.map_values(g)));
    }
}

// ── Pieces that keep a line whole ─────────────────────────────────────────

pub proof fn lemma_no_nl_concat(a: Seq<char>, b: Seq<char>)
    requires
        no_nl(a),
        no_nl(b),
    ensures
        no_nl(a + b),
{
    let s = a + b;
    assert forall|i: int| 0 <= i < s.len() implies #[trigger] s[i] != '\n' by {
        if i < a.len() {
            assert(s[i] == a[i]);
        } else {
            assert(s[i] == b[i - a.len()]);
        }
    }
}

/// Text without line feeds, then a whole line, is a whole line, as long as
/// the second part is not empty or the first is whole itself.
pub proof fn lemma_line_safe_concat(a: Seq<char>, b: Seq<char>)
    requires
        no_nl(a),
        line_safe(b),
        b.len() > 0 || line_safe(a),
    ensures
        line_safe(a + b),
{
    lemma_no_nl_concat(a, b);
    if b.len() > 0 {
        assert((a + b).last() == b.last());
    } else {
        assert(a + b =~= a);
    }
}

/// What every concatenation in a table row needs.
pub proof fn lemma_concat_facts()
    ensures
        forall|a: Seq<char>, b: Seq<char>| no_nl(a) && no_nl(b) ==> #[trigger] no_nl(a + b),
        forall|a: Seq<char>, b: Seq<char>|
            no_nl(a) && line_safe(b) && (b.len() > 0 || line_safe(a)) ==> #[trigger] line_safe(
                a + b,
            ),
{
    assert forall|a: Seq<char>, b: Seq<char>| no_nl(a) && no_nl(b) implies #[trigger] no_nl(
        a + b,
    ) by {
        lemma_no_nl_concat(a, b);
    }
    assert forall|a: Seq<char>, b: Seq<char>|
        no_nl(a) && line_safe(b) && (b.len() > 0 || line_safe(a)) implies #[trigger] line_safe(
        a + b,
    ) by {
        lemma_line_safe_concat(a, b);
    }
}

/// Padding a column adds no line break.
pub proof fn lemma_aligned_whole(x: Seq<char>, w: nat)
    ensures
        no_nl(x) ==> no_nl(align_left(x, w)) && no_nl(align_right(x, w)),
        line_safe(x) ==> line_safe(align_left(x, w)) && line_safe(align_right(x, w)),
{
    reveal(align_left);
    reveal(align_right);
    if x.len() < w {
        let sp = repeat_char(' ', (w - x.len()) as nat);
        assert(line_safe(sp));
        if no_nl(x) {
            lemma_no_nl_concat(x, sp);
            lemma_no_nl_concat(sp, x);
            lemma_line_safe_concat(x, sp);
        }
        if line_safe(x) {
            lemma_line_safe_concat(sp, x);
        }
    }
}

proof fn lemma_no_nl_join(ss: Seq<Seq<char>>, sep: Seq<char>)
    requires
        no_nl(sep),
        forall|i: int| 0 <= i < ss.len() ==> no_nl(#[trigger] ss[i]),
    ensures
        no_nl(join(ss, sep)),
    decreases ss.len(),
{
    if ss.len() == 1 {
        assert(no_nl(ss[0]));
    } else if ss.len() > 1 {
        assert forall|i: int| 0 <= i < ss.drop_last().len() implies no_nl(
            #[trigger] ss.drop_last()[i],
        ) by {
            assert(ss.drop_last()[i] == ss[i]);
        }
        lemma_no_nl_join(ss.drop_last(), sep);
        assert(no_nl(ss[ss.len() - 1]));
        lemma_no_nl_concat(join(ss.drop_last(), sep), sep);
        lemma_no_nl_concat(join(ss.drop_last(), sep) + sep, ss.last());
    }
}

/// Pieces without line feeds, joined by a non-empty separator that is whole,
/// make a whole line if the last piece is whole.
pub proof fn lemma_line_safe_join(ss: Seq<Seq<char>>, sep: Seq<char>)
    requires
        sep.len() > 0,
        line_safe(sep),
        forall|i: int| 0 <= i < ss.len() ==> no_nl(#[trigger] ss[i]),
        ss.len() == 0 || line_safe(ss.last()),
    ensures
        line_safe(join(ss, sep)),
{
    lemma_no_nl_join(ss, sep);
    if ss.len() > 1 {
        assert forall|i: int| 0 <= i < ss.drop_last().len() implies no_nl(
            #[trigger] ss.drop_last()[i],
        ) by {
            assert(ss.drop_last()[i] == ss[i]);
        }
        lemma_no_nl_join(ss.drop_last(), sep);
        lemma_line_safe_concat(join(ss.drop_last(), sep), sep);
        lemma_no_nl_concat(join(ss.drop_last(), sep), sep);
        lemma_line_safe_concat(join(ss.drop_last(), sep) + sep, ss.last());
    }
}

// ── Tables ────────────────────────────────────────────────────────────────

/// A heading, a header line and rows that each end in a line feed read back
/// as the title, the underline, the header and one line per row.
pub proof fn lemma_table_lines<T>(
    title: &str,
    header: Seq<char>,
    entries: Seq<T>,
    f: spec_fn(T) -> Seq<char>,
    g: spec_fn(T) -> Seq<char>,
)
    requires
        forall|e: T| #[trigger] f(e) == g(e) + "\n"@,
        line_safe(title@),
        line_safe(header),
        forall|i: int| 0 <= i < entries.len() ==> line_safe(#[trigger] g(entries[i])),
    ensures
        lines_of(heading(title) + (header + "\n"@) + concat_map(entries, f)) == seq![
            title@,
            repeat_char('-', title.len() as nat),
            header,
        ] + entries.map_values(g),
{
    let top = seq![title@, repeat_char('-', title.len() as nat), header];
    let rows = entries.map_values(g);
    lemma_concat_map_terminated(entries, f, g);
    lemma_terminated_append(top, rows);
    assert(top.drop_first().drop_first().drop_first() =~= Seq::<Seq<char>>::empty());
    assert(terminated(top.drop_first().drop_first().drop_first()) =~= Seq::<char>::empty());
    reveal_with_fuel(terminated, 4);
    assert(terminated(top) =~= heading(title) + (header + "\n"@));
    assert(heading(title) + (header + "\n"@) + concat_map(entries, f) == terminated(top + rows));
    assert(line_safe(repeat_char('-', title.len() as nat)));
    assert forall|i: int| 0 <= i < (top + rows).len() implies line_safe(#[trigger] (top + rows)[i]) by {
        if i >= 3 {
            assert((top + rows)[i] == g(entries[i - 3]));
        }
    }
    lemma_lines_of_terminated(top + rows);
}

// ── The memory table ──────────────────────────────────────────────────────

proof fn lemma_bytes_text_whole(b: nat)
    ensures
        line_safe(bytes_text(b)),
        bytes_text(b).len() > 0,
        no_ws(bytes_text(b)),
        words(bytes_text(b)) == seq![bytes_text(b)],
{
    lemma_bytes_text_token(b);
    lemma_words_single(bytes_text(b));
}

/// The words that an optional byte count adds: its text where it is there.
pub open spec fn opt_bytes_words(b: Option<u64>) -> Seq<Seq<char>> {
    match b {
        Some(v) => seq![bytes_text(v as nat)],
        None => seq![],
    }
}

proof fn lemma_opt_bytes_text_whole(b: Option<u64>)
    ensures
        line_safe(opt_bytes_text(b)),
        words(opt_bytes_text(b)) == opt_bytes_words(b),
{
    match b {
        Some(v) => lemma_bytes_text_whole(v as nat),
        None => lemma_words_empty(),
    }
}

proof fn lemma_memory_row_whole(e: MemoryRowView)
    requires
        no_nl(e.label),
    ensures
        line_safe(memory_table_row_line(e)),
{
    reveal_strlit("  ");
    lemma_concat_facts();
    lemma_aligned_whole(e.label, 6);
    lemma_bytes_text_whole(e.total_bytes as nat);
    lemma_bytes_text_whole(e.used_bytes as nat);
    lemma_bytes_text_whole(e.free_bytes as nat);
    lemma_opt_bytes_text_whole(e.shared_bytes);
    lemma_opt_bytes_text_whole(e.buff_cache_bytes);
    lemma_opt_bytes_text_whole(e.available_bytes);
    lemma_aligned_whole(bytes_text(e.total_bytes as nat), 10);
    lemma_aligned_whole(bytes_text(e.used_bytes as nat), 10);
    lemma_aligned_whole(bytes_text(e.free_bytes as nat), 10);
    lemma_aligned_whole(opt_bytes_text(e.shared_bytes), 10);
    lemma_aligned_whole(opt_bytes_text(e.buff_cache_bytes), 12);
    lemma_aligned_whole(opt_bytes_text(e.available_bytes), 12);
    assert(line_safe("  "@));
}

/// The memory table reads back, line by line, as its title, the title's
/// underline, the header, and one line per row, in order.
pub proof fn law_memory_table_lines(title: &str, entries: Seq<MemoryRowView>)
    requires
        line_safe(title@),
        forall|i: int| 0 <= i < entries.len() ==> no_nl(#[trigger] entries[i].label),
    ensures
        lines_of(memory_table(title, entries)) == seq![
            title@,
            repeat_char('-', title.len() as nat),
            memory_table_header_line(),
        ] + entries.map_values(|e: MemoryRowView| memory_table_row_line(e)),
        lines_of(memory_table(title, entries)).len() == entries.len() + 3,
{
    reveal_strlit("  ");
    reveal_strlit("");
    reveal_strlit("total");
    reveal_strlit("used");
    reveal_strlit("free");
    reveal_strlit("shared");
    reveal_strlit("buff/cache");
    reveal_strlit("available");
    lemma_concat_facts();
    lemma_aligned_whole(""@, 6);
    lemma_aligned_whole("total"@, 10);
    lemma_aligned_whole("used"@, 10);
    lemma_aligned_whole("free"@, 10);
    lemma_aligned_whole("shared"@, 10);
    lemma_aligned_whole("buff/cache"@, 12);
    lemma_aligned_whole("available"@, 12);
    assert(line_safe("  "@));
    assert(line_safe(memory_table_header_line()));
    assert forall|i: int| 0 <= i < entries.len() implies line_safe(
        #[trigger] memory_table_row_line(entries[i]),
    ) by {
        lemma_memory_row_whole(entries[i]);
    }
    lemma_table_lines(
        title,
        memory_table_header_line(),
        entries,
        |e: MemoryRowView| memory_table_row(e),
        |e: MemoryRowView| memory_table_row_line(e),
    );
}

/// The words of a memory row: its label, its total, used and free counts,
/// then each of the shared, buffer/cache and available counts that it has.
pub proof fn law_memory_row_words(e: MemoryRowView)
    requires
        e.label.len() > 0,
        no_ws(e.label),
    ensures
        words(memory_table_row_line(e)) == seq![
            e.label,
            bytes_text(e.total_bytes as nat),
            bytes_text(e.used_bytes as nat),
            bytes_text(e.free_bytes as nat),
        ] + opt_bytes_words(e.shared_bytes) + opt_bytes_words(e.buff_cache_bytes)
            + opt_bytes_words(e.available_bytes),
{
    let sp = "  "@;
    let c1 = align_left(e.label, 6);
    let c2 = align_right(bytes_text(e.total_bytes as nat), 10);
    let c3 = align_right(bytes_text(e.used_bytes as nat), 10);
    let c4 = align_right(bytes_text(e.free_bytes as nat), 10);
    let c5 = align_right(opt_bytes_text(e.shared_bytes), 10);
    let c6 = align_right(opt_bytes_text(e.buff_cache_bytes), 12);
    let c7 = align_right(opt_bytes_text(e.available_bytes), 12);
    let r6 = c6 + (sp + c7);
    let r5 = c5 + (sp + r6);
    let r4 = c4 + (sp + r5);
    let r3 = c3 + (sp + r4);
    let r2 = c2 + (sp + r3);
    assert(memory_table_row_line(e) =~= c1 + (sp + r2));
    lemma_words_column(c1, r2);
    lemma_words_column(c2, r3);
    lemma_words_column(c3, r4);
    lemma_words_column(c4, r5);
    lemma_words_column(c5, r6);
    lemma_words_column(c6, c7);
    lemma_words_aligned(e.label, 6);
    lemma_words_single(e.label);
    lemma_words_aligned(bytes_text(e.total_bytes as nat), 10);
    lemma_words_aligned(bytes_text(e.used_bytes as nat), 10);
    lemma_words_aligned(bytes_text(e.free_bytes as nat), 10);
    lemma_words_aligned(opt_bytes_text(e.shared_bytes), 10);
    lemma_words_aligned(opt_bytes_text(e.buff_cache_bytes), 12);
    lemma_words_aligned(opt_bytes_text(e.available_bytes), 12);
    lemma_bytes_text_whole(e.total_bytes as nat);
    lemma_bytes_text_whole(e.used_bytes as nat);
    lemma_bytes_text_whole(e.free_bytes as nat);
    lemma_opt_bytes_text_whole(e.shared_bytes);
    lemma_opt_bytes_text_whole(e.buff_cache_bytes);
    lemma_opt_bytes_text_whole(e.available_bytes);
    assert(words(memory_table_row_line(e)) =~= seq![
        e.label,
        bytes_text(e.total_bytes as nat),
        bytes_text(e.used_bytes as nat),
        bytes_text(e.free_bytes as nat),
    ] + opt_bytes_words(e.shared_bytes) + opt_bytes_words(e.buff_cache_bytes)
        + opt_bytes_words(e.available_bytes));
}

// ── The block device table ────────────────────────────────────────────────

/// A block device whose fields keep its table row on one line: no line feed
/// in any field, and no carriage return at the end of its last mount point.
pub open spec fn block_device_whole(e: BlockDeviceView) -> bool {
    &&& no_nl(e.name)
    &&& no_nl(e.size)
    &&& no_nl(e.device_type)
    &&& no_nl(e.fstype)
    &&& no_nl(e.label)
    &&& no_nl(e.uuid)
    &&& forall|i: int| 0 <= i < e.mountpoints.len() ==> no_nl(#[trigger] e.mountpoints[i])
    &&& e.mountpoints.len() == 0 || line_safe(e.mountpoints.last())
}

proof fn lemma_block_device_row_whole(e: BlockDeviceView)
    requires
        block_device_whole(e),
    ensures
        line_safe(block_device_table_row_line(e)),
{
    reveal_strlit("  ");
    reveal_strlit(", ");
    lemma_concat_facts();
    lemma_aligned_whole(e.name, 14);
    lemma_aligned_whole(e.size, 8);
    lemma_aligned_whole(e.device_type, 6);
    lemma_aligned_whole(e.fstype, 8);
    lemma_aligned_whole(e.label, 20);
    lemma_aligned_whole(e.uuid, 36);
    assert(line_safe("  "@));
    assert(line_safe(", "@));
    lemma_line_safe_join(e.mountpoints, ", "@);
}

/// The block device table reads back, line by line, as its title, the
/// title's underline, the header, and one line per device, in order.
pub proof fn law_block_device_table_lines(title: &str, entries: Seq<BlockDeviceView>)
    requires
        line_safe(title@),
        forall|i: int| 0 <= i < entries.len() ==> block_device_whole(#[trigger] entries[i]),
    ensures
        lines_of(block_device_table(title, entries)) == seq![
            title@,
            repeat_char('-', title.len() as nat),
            block_device_table_header_line(),
        ] + entries.map_values(|e: BlockDeviceView| block_device_table_row_line(e)),
        lines_of(block_device_table(title, entries)).len() == entries.len() + 3,
{
    reveal_strlit("  ");
    reveal_strlit("Name");
    reveal_strlit("Size");
    reveal_strlit("Type");
    reveal_strlit("FSType");
    reveal_strlit("Label");
    reveal_strlit("UUID");
    reveal_strlit("Mountpoints");
    lemma_concat_facts();
    lemma_aligned_whole("Name"@, 14);
    lemma_aligned_whole("Size"@, 8);
    lemma_aligned_whole("Type"@, 6);
    lemma_aligned_whole("FSType"@, 8);
    lemma_aligned_whole("Label"@, 20);
    lemma_aligned_whole("UUID"@, 36);
    assert(line_safe("  "@));
    assert(line_safe("Mountpoints"@));
    assert(line_safe(block_device_table_header_line()));
    assert forall|i: int| 0 <= i < entries.len() implies line_safe(
        #[trigger] block_device_table_row_line(entries[i]),
    ) by {
        lemma_block_device_row_whole(entries[i]);
    }
    lemma_table_lines(
        title,
        block_device_table_header_line(),
        entries,
        |e: BlockDeviceView| block_device_table_row(e),
        |e: BlockDeviceView| block_device_table_row_line(e),
    );
}

/// A block device's row starts with its name and ends with two spaces and
/// its mount points joined by `", "`.
pub proof fn law_block_device_row_ends(e: BlockDeviceView)
    ensures
        e.name.is_prefix_of(block_device_table_row_line(e)),
        ("  "@ + join(e.mountpoints, ", "@)).is_suffix_of(block_device_table_row_line(e)),
{
    reveal(align_left);
    let l = block_device_table_row_line(e);
    let tail = "  "@ + join(e.mountpoints, ", "@);
    let front = align_left(e.name, 14) + "  "@ + align_right(e.size, 8) + "  "@ + align_right(
        e.device_type,
        6,
    ) + "  "@ + align_right(e.fstype, 8) + "  "@ + align_left(e.label, 20) + "  "@ + align_left(
        e.uuid,
        36,
    );
    assert(l =~= front + tail);
    assert(l.subrange(0, e.name.len() as int) =~= e.name) by {
        assert forall|i: int| 0 <= i < e.name.len() implies l[i] == e.name[i] by {
            assert(l[i] == align_left(e.name, 14)[i]);
        }
    }
    assert(l.subrange(l.len() - tail.len(), l.len() as int) =~= tail);
}

// ── The mount table ───────────────────────────────────────────────────────

/// A mount whose fields keep its table row on one line: no line feed in any
/// field, and no carriage return at the end of its last option.
pub open spec fn mount_entry_whole(e: MountEntryView) -> bool {
    &&& no_nl(e.device)
    &&& no_nl(e.mountpoint)
    &&& no_nl(e.fstype)
    &&& forall|i: int| 0 <= i < e.options.len() ==> no_nl(#[trigger] e.options[i])
    &&& e.options.len() == 0 || line_safe(e.options.last())
}

proof fn lemma_mount_row_whole(e: MountEntryView)
    requires
        mount_entry_whole(e),
    ensures
        line_safe(mount_table_row_line(e)),
{
    reveal_strlit("  ");
    reveal_strlit(",");
    lemma_concat_facts();
    lemma_aligned_whole(e.device, 30);
    lemma_aligned_whole(e.mountpoint, 25);
    lemma_aligned_whole(e.fstype, 12);
    assert(line_safe("  "@));
    assert(line_safe(","@));
    lemma_line_safe_join(e.options, ","@);
}

/// The mount table reads back, line by line, as its title, the title's
/// underline, the header, and one line per mount, in order.
pub proof fn law_mount_table_lines(title: &str, entries: Seq<MountEntryView>)
    requires
        line_safe(title@),
        forall|i: int| 0 <= i < entries.len() ==> mount_entry_whole(#[trigger] entries[i]),
    ensures
        lines_of(mount_table(title, entries)) == seq![
            title@,
            repeat_char('-', title.len() as nat),
            mount_table_header_line(),
        ] + entries.map_values(|e: MountEntryView| mount_table_row_line(e)),
        lines_of(mount_table(title, entries)).len() == entries.len() + 3,
{
    reveal_strlit("  ");
    reveal_strlit("Device");
    reveal_strlit("Mountpoint");
    reveal_strlit("FSType");
    reveal_strlit("Options");
    lemma_concat_facts();
    lemma_aligned_whole("Device"@, 30);
    lemma_aligned_whole("Mountpoint"@, 25);
    lemma_aligned_whole("FSType"@, 12);
    assert(line_safe("  "@));
    assert(line_safe("Options"@));
    assert(line_safe(mount_table_header_line()));
    assert forall|i: int| 0 <= i < entries.len() implies line_safe(
        #[trigger] mount_table_row_line(entries[i]),
    ) by {
        lemma_mount_row_whole(entries[i]);
    }
    lemma_table_lines(
        title,
        mount_table_header_line(),
        entries,
        |e: MountEntryView| mount_table_row(e),
        |e: MountEntryView| mount_table_row_line(e),
    );
}

/// A mount's row starts with its device and ends with two spaces and its
/// options joined by `","`, with no space.
pub proof fn law_mount_row_ends(e: MountEntryView)
    ensures
        e.device.is_prefix_of(mount_table_row_line(e)),
        ("  "@ + join(e.options, ","@)).is_suffix_of(mount_table_row_line(e)),
{
    reveal(align_left);
    let l = mount_table_row_line(e);
    let tail = "  "@ + join(e.options, ","@);
    let front = align_left(e.device, 30) + "  "@ + align_left(e.mountpoint, 25) + "  "@
        + align_left(e.fstype, 12);
    assert(l =~= front + tail);
    assert(l.subrange(0, e.device.len() as int) =~= e.device) by {
        assert forall|i: int| 0 <= i < e.device.len() implies l[i] == e.device[i] by {
            assert(l[i] == align_left(e.device, 30)[i]);
        }
    }
    assert(l.subrange(l.len() - tail.len(), l.len() as int) =~= tail);
}

// ── The process table ─────────────────────────────────────────────────────

/// A process whose fields keep its table row on one line: no line feed in
/// any field, and no carriage return at the end of its command.
pub open spec fn process_whole(e: ProcessView) -> bool {
    &&& no_nl(e.user)
    &&& no_nl(e.cpu_pct)
    &&& no_nl(e.mem_pct)
    &&& no_nl(e.tty)
    &&& no_nl(e.stat)
    &&& no_nl(e.start)
    &&& no_nl(e.time)
    &&& line_safe(e.command)
}

proof fn lemma_dec_whole(n: nat)
    ensures
        line_safe(dec(n)),
        words(dec(n)) == seq![dec(n)],
{
    lemma_dec_token(n);
    lemma_words_single(dec(n));
}

proof fn lemma_process_row_whole(e: ProcessView)
    requires
        process_whole(e),
    ensures
        line_safe(process_table_row_line(e)),
{
    reveal_strlit("  ");
    lemma_concat_facts();
    lemma_dec_whole(e.pid as nat);
    lemma_dec_whole(e.vsz_kb as nat);
    lemma_dec_whole(e.rss_kb as nat);
    lemma_aligned_whole(e.user, 12);
    lemma_aligned_whole(dec(e.pid as nat), 7);
    lemma_aligned_whole(e.cpu_pct, 5);
    lemma_aligned_whole(e.mem_pct, 5);
    lemma_aligned_whole(dec(e.vsz_kb as nat), 8);
    lemma_aligned_whole(dec(e.rss_kb as nat), 8);
    lemma_aligned_whole(e.tty, 8);
    lemma_aligned_whole(e.stat, 6);
    lemma_aligned_whole(e.start, 8);
    lemma_aligned_whole(e.time, 8);
    assert(line_safe("  "@));
}

/// The process table reads back, line by line, as its title, the title's
/// underline, the header, and one line per process, in order.
pub proof fn law_process_table_lines(title: &str, entries: Seq<ProcessView>)
    requires
        line_safe(title@),
        forall|i: int| 0 <= i < entries.len() ==> process_whole(#[trigger] entries[i]),
    ensures
        lines_of(process_table(title, entries)) == seq![
            title@,
            repeat_char('-', title.len() as nat),
            process_table_header_line(),
        ] + entries.map_values(|e: ProcessView| process_table_row_line(e)),
        lines_of(process_table(title, entries)).len() == entries.len() + 3,
{
    reveal_strlit("  ");
    reveal_strlit("USER");
    reveal_strlit("PID");
    reveal_strlit("%CPU");
    reveal_strlit("%MEM");
    reveal_strlit("VSZ");
    reveal_strlit("RSS");
    reveal_strlit("TTY");
    reveal_strlit("STAT");
    reveal_strlit("START");
    reveal_strlit("TIME");
    reveal_strlit("COMMAND");
    lemma_concat_facts();
    lemma_aligned_whole("USER"@, 12);
    lemma_aligned_whole("PID"@, 7);
    lemma_aligned_whole("%CPU"@, 5);
    lemma_aligned_whole("%MEM"@, 5);
    lemma_aligned_whole("VSZ"@, 8);
    lemma_aligned_whole("RSS"@, 8);
    lemma_aligned_whole("TTY"@, 8);
    lemma_aligned_whole("STAT"@, 6);
    lemma_aligned_whole("START"@, 8);
    lemma_aligned_whole("TIME"@, 8);
    assert(line_safe("  "@));
    assert(line_safe("COMMAND"@));
    assert(line_safe(process_table_header_line()));
    assert forall|i: int| 0 <= i < entries.len() implies line_safe(
        #[trigger] process_table_row_line(entries[i]),
    ) by {
        lemma_process_row_whole(entries[i]);
    }
    lemma_table_lines(
        title,
        process_table_header_line(),
        entries,
        |e: ProcessView| process_table_row(e),
        |e: ProcessView| process_table_row_line(e),
    );
}

/// A process's row starts with its user and ends with two spaces and its
/// command.
pub proof fn law_process_row_ends(e: ProcessView)
    ensures
        e.user.is_prefix_of(process_table_row_line(e)),
        ("  "@ + e.command).is_suffix_of(process_table_row_line(e)),
{
    reveal(align_left);
    let l = process_table_row_line(e);
    let sp = "  "@;
    let c1 = align_left(e.user, 12);
    let front = c1 + sp + align_right(dec(e.pid as nat), 7) + sp + align_right(e.cpu_pct, 5) + sp
        + align_right(e.mem_pct, 5) + sp + align_right(dec(e.vsz_kb as nat), 8) + sp + align_right(
        dec(e.rss_kb as nat),
        8,
    ) + sp + align_left(e.tty, 8) + sp + align_left(e.stat, 6) + sp + align_left(e.start, 8) + sp
        + align_left(e.time, 8);
    let tail = sp + e.command;
    assert(l =~= front + tail);
    assert(l.subrange(0, e.user.len() as int) =~= e.user) by {
        assert forall|i: int| 0 <= i < e.user.len() implies l[i] == e.user[i] by {
            assert(l[i] == c1[i]);
        }
    }
    assert(l.subrange(l.len() - tail.len(), l.len() as int) =~= tail);
}

/// A column holding one word, then two spaces and what follows: that word,
/// then the words of what follows.
proof fn lemma_words_word_column(x: Seq<char>, w: nat, rest: Seq<char>)
    requires
        x.len() > 0,
        no_ws(x),
    ensures
        words(align_left(x, w) + ("  "@ + rest)) == seq![x] + words(rest),
        words(align_right(x, w) + ("  "@ + rest)) == seq![x] + words(rest),
{
    lemma_words_column(align_left(x, w), rest);
    lemma_words_column(align_right(x, w), rest);
    lemma_words_single(x);
    lemma_words_aligned(x, w);
}

/// The last five columns of a process's row, from its terminal on.
#[verifier::opaque]
pub open spec fn process_back_columns(e: ProcessView) -> Seq<char> {
    align_left(e.tty, 8) + "  "@ + align_left(e.stat, 6) + "  "@ + align_left(e.start, 8) + "  "@
        + align_left(e.time, 8) + "  "@ + e.command
}

/// The first six columns of a process's row, in front of `rest`.
pub open spec fn process_front_columns(e: ProcessView, rest: Seq<char>) -> Seq<char> {
    align_left(e.user, 12) + ("  "@ + (align_right(dec(e.pid as nat), 7) + ("  "@ + (align_right(
        e.cpu_pct,
        5,
    ) + ("  "@ + (align_right(e.mem_pct, 5) + ("  "@ + (align_right(dec(e.vsz_kb as nat), 8) + (
    "  "@ + (align_right(dec(e.rss_kb as nat), 8) + ("  "@ + rest)))))))))))
}

proof fn lemma_process_front_words(e: ProcessView, rest: Seq<char>)
    requires
        e.user.len() > 0,
        no_ws(e.user),
        e.cpu_pct.len() > 0,
        no_ws(e.cpu_pct),
        e.mem_pct.len() > 0,
        no_ws(e.mem_pct),
    ensures
        words(process_front_columns(e, rest)) == seq![
            e.user,
            dec(e.pid as nat),
            e.cpu_pct,
            e.mem_pct,
            dec(e.vsz_kb as nat),
            dec(e.rss_kb as nat),
        ] + words(rest),
{
    let sp = "  "@;
    let r6 = align_right(dec(e.rss_kb as nat), 8) + (sp + rest);
    let r5 = align_right(dec(e.vsz_kb as nat), 8) + (sp + r6);
    let r4 = align_right(e.mem_pct, 5) + (sp + r5);
    let r3 = align_right(e.cpu_pct, 5) + (sp + r4);
    let r2 = align_right(dec(e.pid as nat), 7) + (sp + r3);
    lemma_dec_token(e.pid as nat);
    lemma_dec_token(e.vsz_kb as nat);
    lemma_dec_token(e.rss_kb as nat);
    lemma_words_word_column(dec(e.rss_kb as nat), 8, rest);
    lemma_words_word_column(dec(e.vsz_kb as nat), 8, r6);
    lemma_words_word_column(e.mem_pct, 5, r5);
    lemma_words_word_column(e.cpu_pct, 5, r4);
    lemma_words_word_column(dec(e.pid as nat), 7, r3);
    lemma_words_word_column(e.user, 12, r2);
    assert(words(process_front_columns(e, rest)) =~= seq![
        e.user,
        dec(e.pid as nat),
        e.cpu_pct,
        e.mem_pct,
        dec(e.vsz_kb as nat),
        dec(e.rss_kb as nat),
    ] + words(rest));
}

/// Where the user and both percentages are single words, the first six words
/// of a process's row are the user, the pid, the two percentages, the
/// virtual size and the resident size.
#[verifier::rlimit(60)]
pub proof fn law_process_row_words(e: ProcessView)
    requires
        e.user.len() > 0,
        no_ws(e.user),
        e.cpu_pct.len() > 0,
        no_ws(e.cpu_pct),
        e.mem_pct.len() > 0,
        no_ws(e.mem_pct),
    ensures
        words(process_table_row_line(e)).take(6) == seq![
            e.user,
            dec(e.pid as nat),
            e.cpu_pct,
            e.mem_pct,
            dec(e.vsz_kb as nat),
            dec(e.rss_kb as nat),
        ],
{
    let rest = process_back_columns(e);
    assert(process_table_row_line(e) =~= process_front_columns(e, rest)) by {
        reveal(process_back_columns);
    }
    lemma_process_front_words(e, rest);
    let first = seq![
        e.user,
        dec(e.pid as nat),
        e.cpu_pct,
        e.mem_pct,
        dec(e.vsz_kb as nat),
        dec(e.rss_kb as nat),
    ];
    assert((first + words(rest)).take(6) =~= first);
}

// ── Words of the other table rows ─────────────────────────────────────────

/// A single word, then two spaces and what follows: that word, then the
/// words of what follows.
proof fn lemma_words_plain_column(x: Seq<char>, rest: Seq<char>)
    requires
        x.len() > 0,
        no_ws(x),
    ensures
        words(x + ("  "@ + rest)) == seq![x] + words(rest),
{
    lemma_words_column(x, rest);
    lemma_words_single(x);
}

/// A piece of text that stands as one word.
pub open spec fn one_word(x: Seq<char>) -> bool {
    x.len() > 0 && no_ws(x)
}

/// Where file system, size, used and available are single words, the words
/// of a disk usage row are those four, the use percentage with its `%`, and
/// the words of the mount point.
pub proof fn law_df_row_words(e: DfEntryView)
    requires
        one_word(e.filesystem),
        one_word(e.size),
        one_word(e.used),
        one_word(e.avail),
    ensures
        words(df_table_row_line(e)) == seq![
            e.filesystem,
            e.size,
            e.used,
            e.avail,
            dec(e.use_percent as nat) + "%"@,
        ] + words(e.mountpoint),
{
    reveal_strlit("%");
    reveal_strlit("%  ");
    reveal_strlit("  ");
    reveal(align_right);
    let sp = "  "@;
    let d = dec(e.use_percent as nat);
    lemma_dec_token(e.use_percent as nat);
    let pct = d + "%"@;
    assert(one_word(pct)) by {
        assert forall|i: int| 0 <= i < pct.len() implies !is_ws(#[trigger] pct[i]) by {
            if i < d.len() {
                assert(pct[i] == d[i]);
            }
        }
    }
    let pad = if d.len() < 3 {
        repeat_char(' ', (3 - d.len()) as nat)
    } else {
        Seq::<char>::empty()
    };
    assert(align_right(d, 3) == pad + d);
    let r5 = pad + (pct + (sp + e.mountpoint));
    let r4 = align_right(e.avail, 8) + (sp + r5);
    let r3 = align_right(e.used, 8) + (sp + r4);
    let r2 = align_right(e.size, 8) + (sp + r3);
    assert(df_table_row_line(e) =~= align_left(e.filesystem, 30) + (sp + r2));
    lemma_words_plain_column(pct, e.mountpoint);
    assert(all_ws(pad));
    lemma_words_ws_prefix(pad, pct + (sp + e.mountpoint));
    lemma_words_word_column(e.avail, 8, r5);
    lemma_words_word_column(e.used, 8, r4);
    lemma_words_word_column(e.size, 8, r3);
    lemma_words_word_column(e.filesystem, 30, r2);
    assert(words(df_table_row_line(e)) =~= seq![e.filesystem, e.size, e.used, e.avail, pct]
        + words(e.mountpoint));
}

/// Where the size is a single word, the words of a directory size row are
/// the size, then the words of the path.
pub proof fn law_du_row_words(e: (Seq<char>, Seq<char>))
    requires
        one_word(e.0),
    ensures
        words(du_table_row_line(e)) == seq![e.0] + words(e.1),
{
    assert(du_table_row_line(e) =~= align_right(e.0, 8) + ("  "@ + e.1));
    lemma_words_word_column(e.0, 8, e.1);
}

/// Where the slot and class are single words, the words of a PCI row are
/// the slot, the class with its colon, then the words of the description.
pub proof fn law_pci_row_words(e: (Seq<char>, Seq<char>, Seq<char>))
    requires
        one_word(e.0),
        no_ws(e.1),
    ensures
        words(pci_table_row_line(e)) == seq![e.0, e.1 + ":"@] + words(e.2),
{
    reveal_strlit(":");
    reveal_strlit(":  ");
    reveal_strlit("  ");
    let sp = "  "@;
    let c = e.1 + ":"@;
    assert(one_word(c)) by {
        assert forall|i: int| 0 <= i < c.len() implies !is_ws(#[trigger] c[i]) by {
            if i < e.1.len() {
                assert(c[i] == e.1[i]);
            }
        }
    }
    assert(pci_table_row_line(e) =~= e.0 + (sp + (c + (sp + e.2))));
    lemma_words_plain_column(c, e.2);
    lemma_words_plain_column(e.0, c + (sp + e.2));
}

/// Where the vendor and product ids hold no whitespace, the words of a USB
/// row are the bus, the device, `vendor:product`, then the words of the
/// description.
pub proof fn law_usb_row_words(e: UsbDeviceView)
    requires
        no_ws(e.vendor_id),
        no_ws(e.product_id),
    ensures
        words(usb_table_row_line(e)) == seq![
            dec(e.bus as nat),
            dec(e.device as nat),
            e.vendor_id + ":"@ + e.product_id,
        ] + words(e.description),
{
    reveal_strlit(":");
    reveal_strlit("  ");
    let sp = "  "@;
    let c = e.vendor_id + ":"@ + e.product_id;
    assert(one_word(c)) by {
        assert forall|i: int| 0 <= i < c.len() implies !is_ws(#[trigger] c[i]) by {
            if i < e.vendor_id.len() {
                assert(c[i] == e.vendor_id[i]);
            } else if i > e.vendor_id.len() {
                assert(c[i] == e.product_id[i - e.vendor_id.len() - 1]);
            }
        }
    }
    lemma_dec_token(e.bus as nat);
    lemma_dec_token(e.device as nat);
    let r3 = c + (sp + e.description);
    let r2 = align_right(dec(e.device as nat), 6) + (sp + r3);
    assert(usb_table_row_line(e) =~= align_right(dec(e.bus as nat), 3) + (sp + r2));
    lemma_words_plain_column(c, e.description);
    lemma_words_word_column(dec(e.device as nat), 6, r3);
    lemma_words_word_column(dec(e.bus as nat), 3, r2);
    assert(words(usb_table_row_line(e)) =~= seq![dec(e.bus as nat), dec(e.device as nat), c]
        + words(e.description));
}

/// Where the protocol and both addresses are single words, the words of a
/// socket row are the protocol, the two queue lengths, the two addresses,
/// then the words of the state.
pub proof fn law_socket_row_words(e: SocketEntryView)
    requires
        one_word(e.proto),
        one_word(e.local_addr),
        one_word(e.foreign_addr),
    ensures
        words(socket_table_row_line(e)) == seq![
            e.proto,
            dec(e.recv_q as nat),
            dec(e.send_q as nat),
            e.local_addr,
            e.foreign_addr,
        ] + words(e.state),
{
    let sp = "  "@;
    lemma_dec_token(e.recv_q as nat);
    lemma_dec_token(e.send_q as nat);
    let r5 = align_left(e.foreign_addr, 28) + (sp + e.state);
    let r4 = align_left(e.local_addr, 28) + (sp + r5);
    let r3 = align_right(dec(e.send_q as nat), 7) + (sp + r4);
    let r2 = align_right(dec(e.recv_q as nat), 7) + (sp + r3);
    assert(socket_table_row_line(e) =~= align_left(e.proto, 6) + (sp + r2));
    lemma_words_word_column(e.foreign_addr, 28, e.state);
    lemma_words_word_column(e.local_addr, 28, r5);
    lemma_words_word_column(dec(e.send_q as nat), 7, r4);
    lemma_words_word_column(dec(e.recv_q as nat), 7, r3);
    lemma_words_word_column(e.proto, 6, r2);
    assert(words(socket_table_row_line(e)) =~= seq![
        e.proto,
        dec(e.recv_q as nat),
        dec(e.send_q as nat),
        e.local_addr,
        e.foreign_addr,
    ] + words(e.state));
}

/// Where unit, load, active and sub state are single words, the words of a
/// unit row are those four, then the words of the description.
pub proof fn law_unit_row_words(e: SystemdUnitView)
    requires
        one_word(e.unit),
        one_word(e.load),
        one_word(e.active),
        one_word(e.sub),
    ensures
        words(unit_table_row_line(e)) == seq![e.unit, e.load, e.active, e.sub] + words(
            e.description,
        ),
{
    let sp = "  "@;
    let r4 = align_left(e.sub, 10) + (sp + e.description);
    let r3 = align_left(e.active, 8) + (sp + r4);
    let r2 = align_left(e.load, 8) + (sp + r3);
    assert(unit_table_row_line(e) =~= align_left(e.unit, 40) + (sp + r2));
    lemma_words_word_column(e.sub, 10, e.description);
    lemma_words_word_column(e.active, 8, r4);
    lemma_words_word_column(e.load, 8, r3);
    lemma_words_word_column(e.unit, 40, r2);
    assert(words(unit_table_row_line(e)) =~= seq![e.unit, e.load, e.active, e.sub] + words(
        e.description,
    ));
}

} // verus!
