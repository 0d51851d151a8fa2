//! Renderers that turn parsed records into the plain-text reports.
use vstd::prelude::*;

use crate::parse::{join, join_strings, lines, same_text, sockets};
use crate::text::{align_left, align_right, dec, dec2, dec2_string, dec_string, dec_string_wide, digit_char, push_char, push_left, push_repeat, push_right, push_str, repeat_char};
use crate::types::{BlockDevice, BlockDeviceView, DfEntry, DfEntryView, DiskUsage, FilesystemSection, HardwareSection, KeyValue, MemoryRow, MemoryRowView, MountEntry, MountEntryView, NetworkSection, PciDevice, Process, ProcessView, SocketEntry, SocketEntryView, SystemdStatusSection, SystemdUnit, SystemdUnitView, TextLines, UsbDevice, UsbDeviceView, lemma_views_push, views};

verus! {

// ── Building blocks ───────────────────────────────────────────────────────

/// The pieces that `f` gives for the elements of `s`, one after another.
pub open spec fn concat_map<T>(s: Seq<T>, f: spec_fn(T) -> Seq<char>) -> Seq<char>
    decreases s.len(),
{
    if s.len() == 0 {
        seq![]
    } else {
        concat_map(s.drop_last(), f) + f(s.last())
    }
}

pub proof fn lemma_concat_map_take<T>(s: Seq<T>, f: spec_fn(T) -> Seq<char>, i: int)
    requires
        0 <= i < s.len(),
    ensures
        concat_map(s.take(i + 1), f) == concat_map(s.take(i), f) + f(s[i]),
{
    assert(s.take(i + 1).drop_last() =~= s.take(i));
}

/// A title on its own line, underlined with one dash per byte of the title.
pub open spec fn heading(title: &str) -> Seq<char> {
    title@ + "\n"@ + repeat_char('-', title.len() as nat) + "\n"@
}

fn push_heading(out: &mut String, title: &str)
    ensures
        final(out)@ == old(out)@ + heading(title),
{
    let ghost start = out@;
    push_str(out, title);
    push_str(out, "\n");
    push_repeat(out, '-', title.len());
    push_str(out, "\n");
    assert(out@ =~= start + heading(title));
}

/// Appends `n` in decimal, right-aligned in a field of `w` characters.
fn push_number_right(out: &mut String, n: u64, w: usize)
    ensures
        final(out)@ == old(out)@ + align_right(dec(n as nat), w as nat),
{
    let d = dec_string(n);
    push_right(out, d.as_str(), w);
}

// ── Plain lists ───────────────────────────────────────────────────────────

/// A line of text followed by a line break.
pub open spec fn text_line(l: Seq<char>) -> Seq<char> {
    l + "\n"@
}

/// Lines under a heading, one per line.
pub open spec fn lines_block(title: &str, lines: Seq<Seq<char>>) -> Seq<char> {
    heading(title) + concat_map(lines, |l: Seq<char>| text_line(l))
}

/// Lines under a heading, one per line.
pub fn render_lines(title: &str, lines: &[String]) -> (r: String)
    ensures
        r@ == lines_block(title, views(lines@)),
{
    let mut out = String::new();
    push_heading(&mut out, title);
    let ghost start = out@;
    let mut i: usize = 0;
    assert(views(lines@).take(0) =~= Seq::<Seq<char>>::empty());
    while i < lines.len()
        invariant
            i <= lines@.len(),
            out@ == start + concat_map(views(lines@).take(i as int), |l: Seq<char>| text_line(l)),
        decreases lines.len() - i,
    {
        proof {
            lemma_concat_map_take(views(lines@), |l: Seq<char>| text_line(l), i as int);
        }
        let ghost before = out@;
        push_str(&mut out, lines[i].as_str());
        push_str(&mut out, "\n");
        assert(out@ =~= before + text_line(lines@[i as int]@));
        i = i + 1;
    }
    assert(views(lines@).take(lines@.len() as int) =~= views(lines@));
    assert(out@ =~= lines_block(title, views(lines@)));
    out
}

/// A key/value entry as a `key: value` line.
pub open spec fn kv_text(e: (Seq<char>, Seq<char>)) -> Seq<char> {
    e.0 + ": "@ + e.1 + "\n"@
}

/// Key/value entries under a heading, one `key: value` per line.
pub open spec fn kvs_block(title: &str, entries: Seq<(Seq<char>, Seq<char>)>) -> Seq<char> {
    heading(title) + concat_map(entries, |e: (Seq<char>, Seq<char>)| kv_text(e))
}

/// Key/value entries under a heading, one `key: value` per line.
pub fn render_kvs(title: &str, entries: &[KeyValue]) -> (r: String)
    ensures
        r@ == kvs_block(title, views(entries@)),
{
    let mut out = String::new();
    push_heading(&mut out, title);
    let ghost start = out@;
    let mut i: usize = 0;
    assert(views(entries@).take(0) =~= Seq::<(Seq<char>, Seq<char>)>::empty());
    while i < entries.len()
        invariant
            i <= entries@.len(),
            out@ == start + concat_map(
                views(entries@).take(i as int),
                |e: (Seq<char>, Seq<char>)| kv_text(e),
            ),
        decreases entries.len() - i,
    {
        proof {
            lemma_concat_map_take(views(entries@), |e: (Seq<char>, Seq<char>)| kv_text(e), i as int);
        }
        let ghost before = out@;
        push_str(&mut out, entries[i].key.as_str());
        push_str(&mut out, ": ");
        push_str(&mut out, entries[i].value.as_str());
        push_str(&mut out, "\n");
        assert(out@ =~= before + kv_text(entries@[i as int]@));
        i = i + 1;
    }
    assert(views(entries@).take(entries@.len() as int) =~= views(entries@));
    assert(out@ =~= kvs_block(title, views(entries@)));
    out
}

// ── Byte counts ───────────────────────────────────────────────────────────

/// `n / d` rounded to the nearest integer, ties to the even one.
pub open spec fn round_half_even(n: nat, d: nat) -> nat {
    let q = n / d;
    let r = n % d;
    if r * 2 > d || (r * 2 == d && q % 2 == 1) {
        q + 1
    } else {
        q
    }
}

/// The power of two by which a count must be divided to leave it below
/// 2^53, the precision of an `f64`.
pub open spec fn f64_scale(b: nat) -> nat
    decreases b,
{
    if b < 0x20_0000_0000_0000 {
        1
    } else {
        2 * f64_scale(b / 2)
    }
}

/// The value of `b as f64`: `b` rounded to 53 significant bits, ties to
/// even.
pub open spec fn f64_value(b: nat) -> nat {
    round_half_even(b, f64_scale(b)) * f64_scale(b)
}

/// `n / unit` written with one decimal, rounded to nearest, ties to even
/// (`{:.1}`).
pub open spec fn one_decimal(n: nat, unit: nat) -> Seq<char> {
    let t = round_half_even(10 * n, unit);
    dec(t / 10) + "."@ + seq![digit_char(t % 10)]
}

pub open spec fn gib() -> nat {
    0x4000_0000
}

pub open spec fn mib() -> nat {
    0x10_0000
}

pub open spec fn kib() -> nat {
    0x400
}

/// A byte count in the largest binary unit it reaches, with one decimal:
/// `G`, `M` or `K`; below 1024, the count itself with `B`.
pub open spec fn bytes_text(b: nat) -> Seq<char> {
    if b >= gib() {
        one_decimal(f64_value(b), gib()) + "G"@
    } else if b >= mib() {
        one_decimal(b, mib()) + "M"@
    } else if b >= kib() {
        one_decimal(b, kib()) + "K"@
    } else {
        dec(b) + "B"@
    }
}

/// [`bytes_text`] of a count that may be missing; nothing where it is.
pub open spec fn opt_bytes_text(b: Option<u64>) -> Seq<char> {
    match b {
        Some(v) => bytes_text(v as nat),
        None => seq![],
    }
}

fn round_half_even_exec(n: u128, d: u128) -> (r: u128)
    requires
        d > 0,
        n < 0x1000_0000_0000_0000_0000_0000_0000_0000,
        d < 0x1000_0000_0000_0000_0000_0000_0000_0000,
    ensures
        r == round_half_even(n as nat, d as nat),
{
    let q = n / d;
    let r = n % d;
    if r * 2 > d || (r * 2 == d && q % 2 == 1) {
        q + 1
    } else {
        q
    }
}

/// The value of `b as f64`, exactly.
fn f64_value_exec(b: u64) -> (r: u128)
    ensures
        r == f64_value(b as nat),
        r <= 0x20_0000_0000_0000 * 0xffff_ffff_ffff_ffff,
{
    let mut x: u64 = b;
    let mut s: u128 = 1;
    while x >= 0x20_0000_0000_0000
        invariant
            s >= 1,
            s <= 0xffff_ffff_ffff_ffff,
            s == 1 || s <= b,
            x == b as nat / s as nat,
            f64_scale(b as nat) == s * f64_scale(x as nat),
        decreases x,
    {
        proof {
            assert(f64_scale(x as nat) == 2 * f64_scale((x / 2) as nat));
            assert(f64_scale(b as nat) == (s * 2) * f64_scale((x / 2) as nat)) by (nonlinear_arith)
                requires
                    f64_scale(b as nat) == s * f64_scale(x as nat),
                    f64_scale(x as nat) == 2 * f64_scale((x / 2) as nat),
            ;
            vstd::arithmetic::div_mod::lemma_div_denominator(b as int, s as int, 2);
            assert(s * 2 <= b) by (nonlinear_arith)
                requires
                    x == b as nat / s as nat,
                    x >= 2,
                    s >= 1,
            ;
        }
        x = x / 2;
        s = s * 2;
    }
    let q = b as u128 / s;
    assert(q == x);
    let rounded = round_half_even_exec(b as u128, s);
    proof {
        vstd::arithmetic::div_mod::lemma_fundamental_div_mod(b as int, s as int);
        assert(x * s <= b) by (nonlinear_arith)
            requires
                b as int == s * x + (b as int % s as int),
                b as int % s as int >= 0,
        ;
        assert(rounded <= x + 1);
        assert(rounded * s <= 0x20_0000_0000_0000 * 0xffff_ffff_ffff_ffff) by (nonlinear_arith)
            requires
                rounded <= x + 1,
                x < 0x20_0000_0000_0000,
                s <= 0xffff_ffff_ffff_ffff,
        ;
        assert(f64_scale(x as nat) == 1);
        assert(f64_scale(b as nat) == s) by (nonlinear_arith)
            requires
                f64_scale(b as nat) == s * f64_scale(x as nat),
                f64_scale(x as nat) == 1,
        ;
    }
    rounded * s
}

fn push_one_decimal(out: &mut String, n: u128, unit: u128)
    requires
        unit >= 1,
        unit <= 0x4000_0000,
        n <= 0x20_0000_0000_0000 * 0xffff_ffff_ffff_ffff,
    ensures
        final(out)@ == old(out)@ + one_decimal(n as nat, unit as nat),
{
    let t = round_half_even_exec(10 * n, unit);
    let whole = dec_string_wide(t / 10);
    let ghost start = out@;
    push_str(out, whole.as_str());
    push_str(out, ".");
    push_char(out, (((t % 10) as u8) + 48) as char);
    assert(out@ =~= start + one_decimal(n as nat, unit as nat));
}

/// A byte count in human-readable binary units, as `{:.1}` prints the
/// quotient: `1.5G`, `512.0M`, `2.0K`, or `100B`.
pub fn format_bytes(bytes: u64) -> (r: String)
    ensures
        r@ == bytes_text(bytes as nat),
{
    let mut out = String::new();
    if bytes >= 0x4000_0000 {
        let v = f64_value_exec(bytes);
        push_one_decimal(&mut out, v, 0x4000_0000);
        push_str(&mut out, "G");
    } else if bytes >= 0x10_0000 {
        push_one_decimal(&mut out, bytes as u128, 0x10_0000);
        push_str(&mut out, "M");
    } else if bytes >= 0x400 {
        push_one_decimal(&mut out, bytes as u128, 0x400);
        push_str(&mut out, "K");
    } else {
        let d = dec_string(bytes);
        push_str(&mut out, d.as_str());
        push_str(&mut out, "B");
    }
    assert(out@ =~= bytes_text(bytes as nat));
    out
}

fn opt_format_bytes(b: Option<u64>) -> (r: String)
    ensures
        r@ == opt_bytes_text(b),
{
    match b {
        Some(v) => format_bytes(v),
        None => String::new(),
    }
}

// ── Tables ────────────────────────────────────────────────────────────────

/// The header row of the table, without its line break.
pub open spec fn memory_table_header_line() -> Seq<char> {
    align_left(""@, 6) + "  "@ + align_right("total"@, 10) + "  "@ + align_right("used"@, 10) + "  "@ + align_right("free"@, 10) + "  "@ + align_right("shared"@, 10) + "  "@ + align_right("buff/cache"@, 12) + "  "@ + align_right("available"@, 12)
}

/// The header row of the table, with its line break.
pub open spec fn memory_table_header() -> Seq<char> {
    memory_table_header_line() + "\n"@
}

/// A memory row: the label, then each figure in human-readable units.
pub open spec fn memory_table_row_line(e: MemoryRowView) -> Seq<char> {
    align_left(e.label, 6) + "  "@ + align_right(bytes_text(e.total_bytes as nat), 10) + "  "@ + align_right(bytes_text(e.used_bytes as nat), 10) + "  "@ + align_right(bytes_text(e.free_bytes as nat), 10) + "  "@ + align_right(opt_bytes_text(e.shared_bytes), 10) + "  "@ + align_right(opt_bytes_text(e.buff_cache_bytes), 12) + "  "@ + align_right(opt_bytes_text(e.available_bytes), 12)
}

/// [`memory_table_row_line`] with its line break.
pub open spec fn memory_table_row(e: MemoryRowView) -> Seq<char> {
    memory_table_row_line(e) + "\n"@
}

/// Memory rows under a heading, as a table with one column per figure.
pub open spec fn memory_table(title: &str, entries: Seq<MemoryRowView>) -> Seq<char> {
    heading(title) + memory_table_header() + concat_map(entries, |e: MemoryRowView| memory_table_row(e))
}

fn push_memory_table_row(out: &mut String, e: &MemoryRow)
    ensures
        final(out)@ == old(out)@ + memory_table_row(e@),
{
    let ghost start = out@;
    push_left(out, e.label.as_str(), 6);
    push_str(out, "  ");
    push_right(out, format_bytes(e.total_bytes).as_str(), 10);
    push_str(out, "  ");
    push_right(out, format_bytes(e.used_bytes).as_str(), 10);
    push_str(out, "  ");
    assert(out@ =~= start + align_left(e@.label, 6) + "  "@ + align_right(bytes_text(e@.total_bytes as nat), 10) + "  "@ + align_right(bytes_text(e@.used_bytes as nat), 10) + "  "@);
    push_right(out, format_bytes(e.free_bytes).as_str(), 10);
    push_str(out, "  ");
    push_right(out, opt_format_bytes(e.shared_bytes).as_str(), 10);
    push_str(out, "  ");
    push_right(out, opt_format_bytes(e.buff_cache_bytes).as_str(), 12);
    push_str(out, "  ");
    assert(out@ =~= start + align_left(e@.label, 6) + "  "@ + align_right(bytes_text(e@.total_bytes as nat), 10) + "  "@ + align_right(bytes_text(e@.used_bytes as nat), 10) + "  "@ + align_right(bytes_text(e@.free_bytes as nat), 10) + "  "@ + align_right(opt_bytes_text(e@.shared_bytes), 10) + "  "@ + align_right(opt_bytes_text(e@.buff_cache_bytes), 12) + "  "@);
    push_right(out, opt_format_bytes(e.available_bytes).as_str(), 12);
    push_str(out, "\n");
    assert(out@ =~= start + memory_table_row(e@));
}

/// Memory rows under a heading, as a table with one column per figure.
pub fn render_memory_rows(title: &str, entries: &[MemoryRow]) -> (r: String)
    ensures
        r@ == memory_table(title, views(entries@)),
{
    let mut out = String::new();
    push_heading(&mut out, title);
    let ghost before = out@;
    push_left(&mut out, "", 6);
    push_str(&mut out, "  ");
    push_right(&mut out, "total", 10);
    push_str(&mut out, "  ");
    push_right(&mut out, "used", 10);
    push_str(&mut out, "  ");
    push_right(&mut out, "free", 10);
    push_str(&mut out, "  ");
    push_right(&mut out, "shared", 10);
    push_str(&mut out, "  ");
    push_right(&mut out, "buff/cache", 12);
    push_str(&mut out, "  ");
    push_right(&mut out, "available", 12);
    push_str(&mut out, "\n");
    assert(out@ =~= before + align_left(""@, 6) + "  "@ + align_right("total"@, 10) + "  "@ + align_right("used"@, 10) + "  "@ + align_right("free"@, 10) + "  "@ + align_right("shared"@, 10) + "  "@ + align_right("buff/cache"@, 12) + "  "@ + align_right("available"@, 12) + "\n"@);
    let ghost start = out@;
    let mut i: usize = 0;
    assert(views(entries@).take(0) =~= Seq::<MemoryRowView>::empty());
    while i < entries.len()
        invariant
            i <= entries@.len(),
            out@ == start + concat_map(views(entries@).take(i as int), |e: MemoryRowView| memory_table_row(e)),
        decreases entries.len() - i,
    {
        proof {
            lemma_concat_map_take(views(entries@), |e: MemoryRowView| memory_table_row(e), i as int);
        }
        push_memory_table_row(&mut out, &entries[i]);
        i = i + 1;
    }
    assert(views(entries@).take(entries@.len() as int) =~= views(entries@));
    assert(out@ =~= memory_table(title, views(entries@)));
    out
}

/// The header row of the table, without its line break.
pub open spec fn df_table_header_line() -> Seq<char> {
    align_left("Filesystem"@, 30) + "  "@ + align_right("Size"@, 8) + "  "@ + align_right("Used"@, 8) + "  "@ + align_right("Avail"@, 8) + "  "@ + align_right("Use%"@, 4) + "  "@ + "Mounted on"@
}

/// The header row of the table, with its line break.
pub open spec fn df_table_header() -> Seq<char> {
    df_table_header_line() + "\n"@
}

/// A `df` entry as a table row.
pub open spec fn df_table_row_line(e: DfEntryView) -> Seq<char> {
    align_left(e.filesystem, 30) + "  "@ + align_right(e.size, 8) + "  "@ + align_right(e.used, 8) + "  "@ + align_right(e.avail, 8) + "  "@ + align_right(dec(e.use_percent as nat), 3) + "%  "@ + e.mountpoint
}

/// [`df_table_row_line`] with its line break.
pub open spec fn df_table_row(e: DfEntryView) -> Seq<char> {
    df_table_row_line(e) + "\n"@
}

/// `df` entries under a heading, as a table.
pub open spec fn df_table(title: &str, entries: Seq<DfEntryView>) -> Seq<char> {
    heading(title) + df_table_header() + concat_map(entries, |e: DfEntryView| df_table_row(e))
}

fn push_df_table_row(out: &mut String, e: &DfEntry)
    ensures
        final(out)@ == old(out)@ + df_table_row(e@),
{
    let ghost start = out@;
    push_left(out, e.filesystem.as_str(), 30);
    push_str(out, "  ");
    push_right(out, e.size.as_str(), 8);
    push_str(out, "  ");
    push_right(out, e.used.as_str(), 8);
    push_str(out, "  ");
    assert(out@ =~= start + align_left(e@.filesystem, 30) + "  "@ + align_right(e@.size, 8) + "  "@ + align_right(e@.used, 8) + "  "@);
    push_right(out, e.avail.as_str(), 8);
    push_str(out, "  ");
    push_number_right(out, e.use_percent as u64, 3);
    push_str(out, "%  ");
    push_str(out, e.mountpoint.as_str());
    push_str(out, "\n");
    assert(out@ =~= start + df_table_row(e@));
}

/// `df` entries under a heading, as a table.
pub fn render_df_entries(title: &str, entries: &[DfEntry]) -> (r: String)
    ensures
        r@ == df_table(title, views(entries@)),
{
    let mut out = String::new();
    push_heading(&mut out, title);
    let ghost before = out@;
    push_left(&mut out, "Filesystem", 30);
    push_str(&mut out, "  ");
    push_right(&mut out, "Size", 8);
    push_str(&mut out, "  ");
    push_right(&mut out, "Used", 8);
    push_str(&mut out, "  ");
    push_right(&mut out, "Avail", 8);
    push_str(&mut out, "  ");
    push_right(&mut out, "Use%", 4);
    push_str(&mut out, "  ");
    push_str(&mut out, "Mounted on");
    push_str(&mut out, "\n");
    assert(out@ =~= before + align_left("Filesystem"@, 30) + "  "@ + align_right("Size"@, 8) + "  "@ + align_right("Used"@, 8) + "  "@ + align_right("Avail"@, 8) + "  "@ + align_right("Use%"@, 4) + "  "@ + "Mounted on"@ + "\n"@);
    let ghost start = out@;
    let mut i: usize = 0;
    assert(views(entries@).take(0) =~= Seq::<DfEntryView>::empty());
    while i < entries.len()
        invariant
            i <= entries@.len(),
            out@ == start + concat_map(views(entries@).take(i as int), |e: DfEntryView| df_table_row(e)),
        decreases entries.len() - i,
    {
        proof {
            lemma_concat_map_take(views(entries@), |e: DfEntryView| df_table_row(e), i as int);
        }
        push_df_table_row(&mut out, &entries[i]);
        i = i + 1;
    }
    assert(views(entries@).take(entries@.len() as int) =~= views(entries@));
    assert(out@ =~= df_table(title, views(entries@)));
    out
}

/// A `du` entry: the size right-aligned, then the path.
pub open spec fn du_table_row_line(e: (Seq<char>, Seq<char>)) -> Seq<char> {
    align_right(e.0, 8) + "  "@ + e.1
}

/// [`du_table_row_line`] with its line break.
pub open spec fn du_table_row(e: (Seq<char>, Seq<char>)) -> Seq<char> {
    du_table_row_line(e) + "\n"@
}

/// `du` entries under a heading.
pub open spec fn du_table(title: &str, entries: Seq<(Seq<char>, Seq<char>)>) -> Seq<char> {
    heading(title) + concat_map(entries, |e: (Seq<char>, Seq<char>)| du_table_row(e))
}

fn push_du_table_row(out: &mut String, e: &DiskUsage)
    ensures
        final(out)@ == old(out)@ + du_table_row(e@),
{
    let ghost start = out@;
    push_right(out, e.size.as_str(), 8);
    push_str(out, "  ");
    push_str(out, e.path.as_str());
    push_str(out, "\n");
    assert(out@ =~= start + du_table_row(e@));
}

/// `du` entries under a heading.
pub fn render_disk_usage(title: &str, entries: &[DiskUsage]) -> (r: String)
    ensures
        r@ == du_table(title, views(entries@)),
{
    let mut out = String::new();
    push_heading(&mut out, title);
    let ghost start = out@;
    let mut i: usize = 0;
    assert(views(entries@).take(0) =~= Seq::<(Seq<char>, Seq<char>)>::empty());
    while i < entries.len()
        invariant
            i <= entries@.len(),
            out@ == start + concat_map(views(entries@).take(i as int), |e: (Seq<char>, Seq<char>)| du_table_row(e)),
        decreases entries.len() - i,
    {
        proof {
            lemma_concat_map_take(views(entries@), |e: (Seq<char>, Seq<char>)| du_table_row(e), i as int);
        }
        push_du_table_row(&mut out, &entries[i]);
        i = i + 1;
    }
    assert(views(entries@).take(entries@.len() as int) =~= views(entries@));
    assert(out@ =~= du_table(title, views(entries@)));
    out
}

/// The header row of the table, without its line break.
pub open spec fn block_device_table_header_line() -> Seq<char> {
    align_left("Name"@, 14) + "  "@ + align_right("Size"@, 8) + "  "@ + align_right("Type"@, 6) + "  "@ + align_right("FSType"@, 8) + "  "@ + align_left("Label"@, 20) + "  "@ + align_left("UUID"@, 36) + "  "@ + "Mountpoints"@
}

/// The header row of the table, with its line break.
pub open spec fn block_device_table_header() -> Seq<char> {
    block_device_table_header_line() + "\n"@
}

/// A block device as a table row, its mount points joined by commas.
pub open spec fn block_device_table_row_line(e: BlockDeviceView) -> Seq<char> {
    align_left(e.name, 14) + "  "@ + align_right(e.size, 8) + "  "@ + align_right(e.device_type, 6) + "  "@ + align_right(e.fstype, 8) + "  "@ + align_left(e.label, 20) + "  "@ + align_left(e.uuid, 36) + "  "@ + join(e.mountpoints, ", "@)
}

/// [`block_device_table_row_line`] with its line break.
pub open spec fn block_device_table_row(e: BlockDeviceView) -> Seq<char> {
    block_device_table_row_line(e) + "\n"@
}

/// Block devices under a heading, as a table.
pub open spec fn block_device_table(title: &str, entries: Seq<BlockDeviceView>) -> Seq<char> {
    heading(title) + block_device_table_header() + concat_map(entries, |e: BlockDeviceView| block_device_table_row(e))
}

fn push_block_device_table_row(out: &mut String, e: &BlockDevice)
    ensures
        final(out)@ == old(out)@ + block_device_table_row(e@),
{
    let ghost start = out@;
    push_left(out, e.name.as_str(), 14);
    push_str(out, "  ");
    push_right(out, e.size.as_str(), 8);
    push_str(out, "  ");
    push_right(out, e.device_type.as_str(), 6);
    push_str(out, "  ");
    assert(out@ =~= start + align_left(e@.name, 14) + "  "@ + align_right(e@.size, 8) + "  "@ + align_right(e@.device_type, 6) + "  "@);
    push_right(out, e.fstype.as_str(), 8);
    push_str(out, "  ");
    push_left(out, e.label.as_str(), 20);
    push_str(out, "  ");
    push_left(out, e.uuid.as_str(), 36);
    push_str(out, "  ");
    assert(out@ =~= start + align_left(e@.name, 14) + "  "@ + align_right(e@.size, 8) + "  "@ + align_right(e@.device_type, 6) + "  "@ + align_right(e@.fstype, 8) + "  "@ + align_left(e@.label, 20) + "  "@ + align_left(e@.uuid, 36) + "  "@);
    push_str(out, join_strings(&e.mountpoints, ", ").as_str());
    push_str(out, "\n");
    assert(out@ =~= start + block_device_table_row(e@));
}

/// Block devices under a heading, as a table.
pub fn render_block_devices(title: &str, entries: &[BlockDevice]) -> (r: String)
    ensures
        r@ == block_device_table(title, views(entries@)),
{
    let mut out = String::new();
    push_heading(&mut out, title);
    let ghost before = out@;
    push_left(&mut out, "Name", 14);
    push_str(&mut out, "  ");
    push_right(&mut out, "Size", 8);
    push_str(&mut out, "  ");
    push_right(&mut out, "Type", 6);
    push_str(&mut out, "  ");
    push_right(&mut out, "FSType", 8);
    push_str(&mut out, "  ");
    push_left(&mut out, "Label", 20);
    push_str(&mut out, "  ");
    push_left(&mut out, "UUID", 36);
    push_str(&mut out, "  ");
    push_str(&mut out, "Mountpoints");
    push_str(&mut out, "\n");
    assert(out@ =~= before + align_left("Name"@, 14) + "  "@ + align_right("Size"@, 8) + "  "@ + align_right("Type"@, 6) + "  "@ + align_right("FSType"@, 8) + "  "@ + align_left("Label"@, 20) + "  "@ + align_left("UUID"@, 36) + "  "@ + "Mountpoints"@ + "\n"@);
    let ghost start = out@;
    let mut i: usize = 0;
    assert(views(entries@).take(0) =~= Seq::<BlockDeviceView>::empty());
    while i < entries.len()
        invariant
            i <= entries@.len(),
            out@ == start + concat_map(views(entries@).take(i as int), |e: BlockDeviceView| block_device_table_row(e)),
        decreases entries.len() - i,
    {
        proof {
            lemma_concat_map_take(views(entries@), |e: BlockDeviceView| block_device_table_row(e), i as int);
        }
        push_block_device_table_row(&mut out, &entries[i]);
        i = i + 1;
    }
    assert(views(entries@).take(entries@.len() as int) =~= views(entries@));
    assert(out@ =~= block_device_table(title, views(entries@)));
    out
}

/// A PCI device: slot, class and description.
pub open spec fn pci_table_row_line(e: (Seq<char>, Seq<char>, Seq<char>)) -> Seq<char> {
    e.0 + "  "@ + e.1 + ":  "@ + e.2
}

/// [`pci_table_row_line`] with its line break.
pub open spec fn pci_table_row(e: (Seq<char>, Seq<char>, Seq<char>)) -> Seq<char> {
    pci_table_row_line(e) + "\n"@
}

/// PCI devices under a heading.
pub open spec fn pci_table(title: &str, entries: Seq<(Seq<char>, Seq<char>, Seq<char>)>) -> Seq<char> {
    heading(title) + concat_map(entries, |e: (Seq<char>, Seq<char>, Seq<char>)| pci_table_row(e))
}

fn push_pci_table_row(out: &mut String, e: &PciDevice)
    ensures
        final(out)@ == old(out)@ + pci_table_row(e@),
{
    let ghost start = out@;
    push_str(out, e.slot.as_str());
    push_str(out, "  ");
    push_str(out, e.class.as_str());
    push_str(out, ":  ");
    push_str(out, e.description.as_str());
    push_str(out, "\n");
    assert(out@ =~= start + pci_table_row(e@));
}

/// PCI devices under a heading.
pub fn render_pci_devices(title: &str, entries: &[PciDevice]) -> (r: String)
    ensures
        r@ == pci_table(title, views(entries@)),
{
    let mut out = String::new();
    push_heading(&mut out, title);
    let ghost start = out@;
    let mut i: usize = 0;
    assert(views(entries@).take(0) =~= Seq::<(Seq<char>, Seq<char>, Seq<char>)>::empty());
    while i < entries.len()
        invariant
            i <= entries@.len(),
            out@ == start + concat_map(views(entries@).take(i as int), |e: (Seq<char>, Seq<char>, Seq<char>)| pci_table_row(e)),
        decreases entries.len() - i,
    {
        proof {
            lemma_concat_map_take(views(entries@), |e: (Seq<char>, Seq<char>, Seq<char>)| pci_table_row(e), i as int);
        }
        push_pci_table_row(&mut out, &entries[i]);
        i = i + 1;
    }
    assert(views(entries@).take(entries@.len() as int) =~= views(entries@));
    assert(out@ =~= pci_table(title, views(entries@)));
    out
}

/// The header row of the table, without its line break.
pub open spec fn usb_table_header_line() -> Seq<char> {
    align_right("Bus"@, 3) + "  "@ + align_right("Device"@, 6) + "  "@ + align_right("Vendor"@, 6) + ":"@ + align_left("Product"@, 6) + "  "@ + "Description"@
}

/// The header row of the table, with its line break.
pub open spec fn usb_table_header() -> Seq<char> {
    usb_table_header_line() + "\n"@
}

/// A USB device as a table row.
pub open spec fn usb_table_row_line(e: UsbDeviceView) -> Seq<char> {
    align_right(dec(e.bus as nat), 3) + "  "@ + align_right(dec(e.device as nat), 6) + "  "@ + e.vendor_id + ":"@ + e.product_id + "  "@ + e.description
}

/// [`usb_table_row_line`] with its line break.
pub open spec fn usb_table_row(e: UsbDeviceView) -> Seq<char> {
    usb_table_row_line(e) + "\n"@
}

/// USB devices under a heading, as a table.
pub open spec fn usb_table(title: &str, entries: Seq<UsbDeviceView>) -> Seq<char> {
    heading(title) + usb_table_header() + concat_map(entries, |e: UsbDeviceView| usb_table_row(e))
}

fn push_usb_table_row(out: &mut String, e: &UsbDevice)
    ensures
        final(out)@ == old(out)@ + usb_table_row(e@),
{
    let ghost start = out@;
    push_number_right(out, e.bus as u64, 3);
    push_str(out, "  ");
    push_number_right(out, e.device as u64, 6);
    push_str(out, "  ");
    push_str(out, e.vendor_id.as_str());
    push_str(out, ":");
    assert(out@ =~= start + align_right(dec(e@.bus as nat), 3) + "  "@ + align_right(dec(e@.device as nat), 6) + "  "@ + e@.vendor_id + ":"@);
    push_str(out, e.product_id.as_str());
    push_str(out, "  ");
    push_str(out, e.description.as_str());
    push_str(out, "\n");
    assert(out@ =~= start + usb_table_row(e@));
}

/// USB devices under a heading, as a table.
pub fn render_usb_devices(title: &str, entries: &[UsbDevice]) -> (r: String)
    ensures
        r@ == usb_table(title, views(entries@)),
{
    let mut out = String::new();
    push_heading(&mut out, title);
    let ghost before = out@;
    push_right(&mut out, "Bus", 3);
    push_str(&mut out, "  ");
    push_right(&mut out, "Device", 6);
    push_str(&mut out, "  ");
    push_right(&mut out, "Vendor", 6);
    push_str(&mut out, ":");
    push_left(&mut out, "Product", 6);
    push_str(&mut out, "  ");
    push_str(&mut out, "Description");
    push_str(&mut out, "\n");
    assert(out@ =~= before + align_right("Bus"@, 3) + "  "@ + align_right("Device"@, 6) + "  "@ + align_right("Vendor"@, 6) + ":"@ + align_left("Product"@, 6) + "  "@ + "Description"@ + "\n"@);
    let ghost start = out@;
    let mut i: usize = 0;
    assert(views(entries@).take(0) =~= Seq::<UsbDeviceView>::empty());
    while i < entries.len()
        invariant
            i <= entries@.len(),
            out@ == start + concat_map(views(entries@).take(i as int), |e: UsbDeviceView| usb_table_row(e)),
        decreases entries.len() - i,
    {
        proof {
            lemma_concat_map_take(views(entries@), |e: UsbDeviceView| usb_table_row(e), i as int);
        }
        push_usb_table_row(&mut out, &entries[i]);
        i = i + 1;
    }
    assert(views(entries@).take(entries@.len() as int) =~= views(entries@));
    assert(out@ =~= usb_table(title, views(entries@)));
    out
}

/// The header row of the table, without its line break.
pub open spec fn process_table_header_line() -> Seq<char> {
    align_left("USER"@, 12) + "  "@ + align_right("PID"@, 7) + "  "@ + align_right("%CPU"@, 5) + "  "@ + align_right("%MEM"@, 5) + "  "@ + align_right("VSZ"@, 8) + "  "@ + align_right("RSS"@, 8) + "  "@ + align_left("TTY"@, 8) + "  "@ + align_left("STAT"@, 6) + "  "@ + align_left("START"@, 8) + "  "@ + align_left("TIME"@, 8) + "  "@ + "COMMAND"@
}

/// The header row of the table, with its line break.
pub open spec fn process_table_header() -> Seq<char> {
    process_table_header_line() + "\n"@
}

/// A process as a table row.
pub open spec fn process_table_row_line(e: ProcessView) -> Seq<char> {
    align_left(e.user, 12) + "  "@ + align_right(dec(e.pid as nat), 7) + "  "@ + align_right(e.cpu_pct, 5) + "  "@ + align_right(e.mem_pct, 5) + "  "@ + align_right(dec(e.vsz_kb as nat), 8) + "  "@ + align_right(dec(e.rss_kb as nat), 8) + "  "@ + align_left(e.tty, 8) + "  "@ + align_left(e.stat, 6) + "  "@ + align_left(e.start, 8) + "  "@ + align_left(e.time, 8) + "  "@ + e.command
}

/// [`process_table_row_line`] with its line break.
pub open spec fn process_table_row(e: ProcessView) -> Seq<char> {
    process_table_row_line(e) + "\n"@
}

/// Processes under a heading, as a table; the two percentages are printed as given.
pub open spec fn process_table(title: &str, entries: Seq<ProcessView>) -> Seq<char> {
    heading(title) + process_table_header() + concat_map(entries, |e: ProcessView| process_table_row(e))
}

fn push_process_table_row(out: &mut String, e: &Process)
    ensures
        final(out)@ == old(out)@ + process_table_row(e@),
{
    let ghost start = out@;
    push_left(out, e.user.as_str(), 12);
    push_str(out, "  ");
    push_number_right(out, e.pid as u64, 7);
    push_str(out, "  ");
    push_right(out, e.cpu_pct.as_str(), 5);
    push_str(out, "  ");
    assert(out@ =~= start + align_left(e@.user, 12) + "  "@ + align_right(dec(e@.pid as nat), 7) + "  "@ + align_right(e@.cpu_pct, 5) + "  "@);
    push_right(out, e.mem_pct.as_str(), 5);
    push_str(out, "  ");
    push_number_right(out, e.vsz_kb as u64, 8);
    push_str(out, "  ");
    push_number_right(out, e.rss_kb as u64, 8);
    push_str(out, "  ");
    assert(out@ =~= start + align_left(e@.user, 12) + "  "@ + align_right(dec(e@.pid as nat), 7) + "  "@ + align_right(e@.cpu_pct, 5) + "  "@ + align_right(e@.mem_pct, 5) + "  "@ + align_right(dec(e@.vsz_kb as nat), 8) + "  "@ + align_right(dec(e@.rss_kb as nat), 8) + "  "@);
    push_left(out, e.tty.as_str(), 8);
    push_str(out, "  ");
    push_left(out, e.stat.as_str(), 6);
    push_str(out, "  ");
    push_left(out, e.start.as_str(), 8);
    push_str(out, "  ");
    assert(out@ =~= start + align_left(e@.user, 12) + "  "@ + align_right(dec(e@.pid as nat), 7) + "  "@ + align_right(e@.cpu_pct, 5) + "  "@ + align_right(e@.mem_pct, 5) + "  "@ + align_right(dec(e@.vsz_kb as nat), 8) + "  "@ + align_right(dec(e@.rss_kb as nat), 8) + "  "@ + align_left(e@.tty, 8) + "  "@ + align_left(e@.stat, 6) + "  "@ + align_left(e@.start, 8) + "  "@);
    push_left(out, e.time.as_str(), 8);
    push_str(out, "  ");
    push_str(out, e.command.as_str());
    push_str(out, "\n");
    assert(out@ =~= start + process_table_row(e@));
}

/// Processes under a heading, as a table; the two percentages are printed as given.
pub fn render_processes(title: &str, entries: &[Process]) -> (r: String)
    ensures
        r@ == process_table(title, views(entries@)),
{
    let mut out = String::new();
    push_heading(&mut out, title);
    let ghost before = out@;
    push_left(&mut out, "USER", 12);
    push_str(&mut out, "  ");
    push_right(&mut out, "PID", 7);
    push_str(&mut out, "  ");
    push_right(&mut out, "%CPU", 5);
    push_str(&mut out, "  ");
    push_right(&mut out, "%MEM", 5);
    push_str(&mut out, "  ");
    push_right(&mut out, "VSZ", 8);
    push_str(&mut out, "  ");
    push_right(&mut out, "RSS", 8);
    push_str(&mut out, "  ");
    push_left(&mut out, "TTY", 8);
    push_str(&mut out, "  ");
    push_left(&mut out, "STAT", 6);
    push_str(&mut out, "  ");
    push_left(&mut out, "START", 8);
    push_str(&mut out, "  ");
    push_left(&mut out, "TIME", 8);
    push_str(&mut out, "  ");
    push_str(&mut out, "COMMAND");
    push_str(&mut out, "\n");
    assert(out@ =~= before + align_left("USER"@, 12) + "  "@ + align_right("PID"@, 7) + "  "@ + align_right("%CPU"@, 5) + "  "@ + align_right("%MEM"@, 5) + "  "@ + align_right("VSZ"@, 8) + "  "@ + align_right("RSS"@, 8) + "  "@ + align_left("TTY"@, 8) + "  "@ + align_left("STAT"@, 6) + "  "@ + align_left("START"@, 8) + "  "@ + align_left("TIME"@, 8) + "  "@ + "COMMAND"@ + "\n"@);
    let ghost start = out@;
    let mut i: usize = 0;
    assert(views(entries@).take(0) =~= Seq::<ProcessView>::empty());
    while i < entries.len()
        invariant
            i <= entries@.len(),
            out@ == start + concat_map(views(entries@).take(i as int), |e: ProcessView| process_table_row(e)),
        decreases entries.len() - i,
    {
        proof {
            lemma_concat_map_take(views(entries@), |e: ProcessView| process_table_row(e), i as int);
        }
        push_process_table_row(&mut out, &entries[i]);
        i = i + 1;
    }
    assert(views(entries@).take(entries@.len() as int) =~= views(entries@));
    assert(out@ =~= process_table(title, views(entries@)));
    out
}

/// The header row of the table, without its line break.
pub open spec fn socket_table_header_line() -> Seq<char> {
    align_left("Proto"@, 6) + "  "@ + align_right("Recv-Q"@, 7) + "  "@ + align_right("Send-Q"@, 7) + "  "@ + align_left("Local Address"@, 28) + "  "@ + align_left("Foreign Address"@, 28) + "  "@ + "State"@
}

/// The header row of the table, with its line break.
pub open spec fn socket_table_header() -> Seq<char> {
    socket_table_header_line() + "\n"@
}

/// A socket as a table row.
pub open spec fn socket_table_row_line(e: SocketEntryView) -> Seq<char> {
    align_left(e.proto, 6) + "  "@ + align_right(dec(e.recv_q as nat), 7) + "  "@ + align_right(dec(e.send_q as nat), 7) + "  "@ + align_left(e.local_addr, 28) + "  "@ + align_left(e.foreign_addr, 28) + "  "@ + e.state
}

/// [`socket_table_row_line`] with its line break.
pub open spec fn socket_table_row(e: SocketEntryView) -> Seq<char> {
    socket_table_row_line(e) + "\n"@
}

/// Sockets under a heading, as a table.
pub open spec fn socket_table(title: &str, entries: Seq<SocketEntryView>) -> Seq<char> {
    heading(title) + socket_table_header() + concat_map(entries, |e: SocketEntryView| socket_table_row(e))
}

fn push_socket_table_row(out: &mut String, e: &SocketEntry)
    ensures
        final(out)@ == old(out)@ + socket_table_row(e@),
{
    let ghost start = out@;
    push_left(out, e.proto.as_str(), 6);
    push_str(out, "  ");
    push_number_right(out, e.recv_q as u64, 7);
    push_str(out, "  ");
    push_number_right(out, e.send_q as u64, 7);
    push_str(out, "  ");
    assert(out@ =~= start + align_left(e@.proto, 6) + "  "@ + align_right(dec(e@.recv_q as nat), 7) + "  "@ + align_right(dec(e@.send_q as nat), 7) + "  "@);
    push_left(out, e.local_addr.as_str(), 28);
    push_str(out, "  ");
    push_left(out, e.foreign_addr.as_str(), 28);
    push_str(out, "  ");
    push_str(out, e.state.as_str());
    push_str(out, "\n");
    assert(out@ =~= start + socket_table_row(e@));
}

/// Sockets under a heading, as a table.
pub fn render_socket_entries(title: &str, entries: &[SocketEntry]) -> (r: String)
    ensures
        r@ == socket_table(title, views(entries@)),
{
    let mut out = String::new();
    push_heading(&mut out, title);
    let ghost before = out@;
    push_left(&mut out, "Proto", 6);
    push_str(&mut out, "  ");
    push_right(&mut out, "Recv-Q", 7);
    push_str(&mut out, "  ");
    push_right(&mut out, "Send-Q", 7);
    push_str(&mut out, "  ");
    push_left(&mut out, "Local Address", 28);
    push_str(&mut out, "  ");
    push_left(&mut out, "Foreign Address", 28);
    push_str(&mut out, "  ");
    push_str(&mut out, "State");
    push_str(&mut out, "\n");
    assert(out@ =~= before + align_left("Proto"@, 6) + "  "@ + align_right("Recv-Q"@, 7) + "  "@ + align_right("Send-Q"@, 7) + "  "@ + align_left("Local Address"@, 28) + "  "@ + align_left("Foreign Address"@, 28) + "  "@ + "State"@ + "\n"@);
    let ghost start = out@;
    let mut i: usize = 0;
    assert(views(entries@).take(0) =~= Seq::<SocketEntryView>::empty());
    while i < entries.len()
        invariant
            i <= entries@.len(),
            out@ == start + concat_map(views(entries@).take(i as int), |e: SocketEntryView| socket_table_row(e)),
        decreases entries.len() - i,
    {
        proof {
            lemma_concat_map_take(views(entries@), |e: SocketEntryView| socket_table_row(e), i as int);
        }
        push_socket_table_row(&mut out, &entries[i]);
        i = i + 1;
    }
    assert(views(entries@).take(entries@.len() as int) =~= views(entries@));
    assert(out@ =~= socket_table(title, views(entries@)));
    out
}

/// The header row of the table, without its line break.
pub open spec fn unit_table_header_line() -> Seq<char> {
    align_left("UNIT"@, 40) + "  "@ + align_left("LOAD"@, 8) + "  "@ + align_left("ACTIVE"@, 8) + "  "@ + align_left("SUB"@, 10) + "  "@ + "DESCRIPTION"@
}

/// The header row of the table, with its line break.
pub open spec fn unit_table_header() -> Seq<char> {
    unit_table_header_line() + "\n"@
}

/// A unit as a table row.
pub open spec fn unit_table_row_line(e: SystemdUnitView) -> Seq<char> {
    align_left(e.unit, 40) + "  "@ + align_left(e.load, 8) + "  "@ + align_left(e.active, 8) + "  "@ + align_left(e.sub, 10) + "  "@ + e.description
}

/// [`unit_table_row_line`] with its line break.
pub open spec fn unit_table_row(e: SystemdUnitView) -> Seq<char> {
    unit_table_row_line(e) + "\n"@
}

/// Systemd units under a heading, as a table.
pub open spec fn unit_table(title: &str, entries: Seq<SystemdUnitView>) -> Seq<char> {
    heading(title) + unit_table_header() + concat_map(entries, |e: SystemdUnitView| unit_table_row(e))
}

fn push_unit_table_row(out: &mut String, e: &SystemdUnit)
    ensures
        final(out)@ == old(out)@ + unit_table_row(e@),
{
    let ghost start = out@;
    push_left(out, e.unit.as_str(), 40);
    push_str(out, "  ");
    push_left(out, e.load.as_str(), 8);
    push_str(out, "  ");
    push_left(out, e.active.as_str(), 8);
    push_str(out, "  ");
    assert(out@ =~= start + align_left(e@.unit, 40) + "  "@ + align_left(e@.load, 8) + "  "@ + align_left(e@.active, 8) + "  "@);
    push_left(out, e.sub.as_str(), 10);
    push_str(out, "  ");
    push_str(out, e.description.as_str());
    push_str(out, "\n");
    assert(out@ =~= start + unit_table_row(e@));
}

/// Systemd units under a heading, as a table.
pub fn render_systemd_units(title: &str, entries: &[SystemdUnit]) -> (r: String)
    ensures
        r@ == unit_table(title, views(entries@)),
{
    let mut out = String::new();
    push_heading(&mut out, title);
    let ghost before = out@;
    push_left(&mut out, "UNIT", 40);
    push_str(&mut out, "  ");
    push_left(&mut out, "LOAD", 8);
    push_str(&mut out, "  ");
    push_left(&mut out, "ACTIVE", 8);
    push_str(&mut out, "  ");
    push_left(&mut out, "SUB", 10);
    push_str(&mut out, "  ");
    push_str(&mut out, "DESCRIPTION");
    push_str(&mut out, "\n");
    assert(out@ =~= before + align_left("UNIT"@, 40) + "  "@ + align_left("LOAD"@, 8) + "  "@ + align_left("ACTIVE"@, 8) + "  "@ + align_left("SUB"@, 10) + "  "@ + "DESCRIPTION"@ + "\n"@);
    let ghost start = out@;
    let mut i: usize = 0;
    assert(views(entries@).take(0) =~= Seq::<SystemdUnitView>::empty());
    while i < entries.len()
        invariant
            i <= entries@.len(),
            out@ == start + concat_map(views(entries@).take(i as int), |e: SystemdUnitView| unit_table_row(e)),
        decreases entries.len() - i,
    {
        proof {
            lemma_concat_map_take(views(entries@), |e: SystemdUnitView| unit_table_row(e), i as int);
        }
        push_unit_table_row(&mut out, &entries[i]);
        i = i + 1;
    }
    assert(views(entries@).take(entries@.len() as int) =~= views(entries@));
    assert(out@ =~= unit_table(title, views(entries@)));
    out
}

/// The header row of the table, without its line break.
pub open spec fn mount_table_header_line() -> Seq<char> {
    align_left("Device"@, 30) + "  "@ + align_left("Mountpoint"@, 25) + "  "@ + align_left("FSType"@, 12) + "  "@ + "Options"@
}

/// The header row of the table, with its line break.
pub open spec fn mount_table_header() -> Seq<char> {
    mount_table_header_line() + "\n"@
}

/// A mount as a table row, its options joined by commas.
pub open spec fn mount_table_row_line(e: MountEntryView) -> Seq<char> {
    align_left(e.device, 30) + "  "@ + align_left(e.mountpoint, 25) + "  "@ + align_left(e.fstype, 12) + "  "@ + join(e.options, ","@)
}

/// [`mount_table_row_line`] with its line break.
pub open spec fn mount_table_row(e: MountEntryView) -> Seq<char> {
    mount_table_row_line(e) + "\n"@
}

/// Mounts under a heading, as a table.
pub open spec fn mount_table(title: &str, entries: Seq<MountEntryView>) -> Seq<char> {
    heading(title) + mount_table_header() + concat_map(entries, |e: MountEntryView| mount_table_row(e))
}

fn push_mount_table_row(out: &mut String, e: &MountEntry)
    ensures
        final(out)@ == old(out)@ + mount_table_row(e@),
{
    let ghost start = out@;
    push_left(out, e.device.as_str(), 30);
    push_str(out, "  ");
    push_left(out, e.mountpoint.as_str(), 25);
    push_str(out, "  ");
    push_left(out, e.fstype.as_str(), 12);
    push_str(out, "  ");
    assert(out@ =~= start + align_left(e@.device, 30) + "  "@ + align_left(e@.mountpoint, 25) + "  "@ + align_left(e@.fstype, 12) + "  "@);
    push_str(out, join_strings(&e.options, ",").as_str());
    push_str(out, "\n");
    assert(out@ =~= start + mount_table_row(e@));
}

/// Mounts under a heading, as a table.
pub fn render_mount_entries(title: &str, entries: &[MountEntry]) -> (r: String)
    ensures
        r@ == mount_table(title, views(entries@)),
{
    let mut out = String::new();
    push_heading(&mut out, title);
    let ghost before = out@;
    push_left(&mut out, "Device", 30);
    push_str(&mut out, "  ");
    push_left(&mut out, "Mountpoint", 25);
    push_str(&mut out, "  ");
    push_left(&mut out, "FSType", 12);
    push_str(&mut out, "  ");
    push_str(&mut out, "Options");
    push_str(&mut out, "\n");
    assert(out@ =~= before + align_left("Device"@, 30) + "  "@ + align_left("Mountpoint"@, 25) + "  "@ + align_left("FSType"@, 12) + "  "@ + "Options"@ + "\n"@);
    let ghost start = out@;
    let mut i: usize = 0;
    assert(views(entries@).take(0) =~= Seq::<MountEntryView>::empty());
    while i < entries.len()
        invariant
            i <= entries@.len(),
            out@ == start + concat_map(views(entries@).take(i as int), |e: MountEntryView| mount_table_row(e)),
        decreases entries.len() - i,
    {
        proof {
            lemma_concat_map_take(views(entries@), |e: MountEntryView| mount_table_row(e), i as int);
        }
        push_mount_table_row(&mut out, &entries[i]);
        i = i + 1;
    }
    assert(views(entries@).take(entries@.len() as int) =~= views(entries@));
    assert(out@ =~= mount_table(title, views(entries@)));
    out
}

// ── Uptime ────────────────────────────────────────────────────────────────

/// An uptime of `total` whole seconds as `up 1 day, 01:01:01`, or as
/// `up 01:01:01` below one day.
pub open spec fn uptime_text(total: nat) -> Seq<char> {
    let days = total / 86400;
    let hours = (total % 86400) / 3600;
    let minutes = (total % 3600) / 60;
    let seconds = total % 60;
    let clock = dec2(hours) + ":"@ + dec2(minutes) + ":"@ + dec2(seconds);
    if days > 0 {
        "up "@ + dec(days) + " day"@ + (if days == 1 {
            seq![]
        } else {
            "s"@
        }) + ", "@ + clock
    } else {
        "up "@ + clock
    }
}

/// An uptime of `total_seconds` whole seconds, written as `uptime` does.
pub fn format_uptime(total_seconds: u64) -> (r: String)
    ensures
        r@ == uptime_text(total_seconds as nat),
{
    let days = total_seconds / 86_400;
    let hours = (total_seconds % 86_400) / 3_600;
    let minutes = (total_seconds % 3_600) / 60;
    let seconds = total_seconds % 60;
    let mut out = String::new();
    push_str(&mut out, "up ");
    if days > 0 {
        let d = dec_string(days);
        push_str(&mut out, d.as_str());
        push_str(&mut out, " day");
        if days != 1 {
            push_str(&mut out, "s");
        }
        push_str(&mut out, ", ");
    }
    let h = dec2_string(hours);
    let m = dec2_string(minutes);
    let s = dec2_string(seconds);
    push_str(&mut out, h.as_str());
    push_str(&mut out, ":");
    push_str(&mut out, m.as_str());
    push_str(&mut out, ":");
    push_str(&mut out, s.as_str());
    assert(out@ =~= uptime_text(total_seconds as nat));
    out
}

// ── Summary and unit list ─────────────────────────────────────────────────

/// The value of the first entry whose key is `key`.
pub open spec fn kv_lookup(entries: Seq<(Seq<char>, Seq<char>)>, key: Seq<char>) -> Option<
    Seq<char>,
>
    decreases entries.len(),
{
    if entries.len() == 0 {
        None
    } else if entries[0].0 == key {
        Some(entries[0].1)
    } else {
        kv_lookup(entries.drop_first(), key)
    }
}

/// A `label: value` line.
pub open spec fn labelled(label: Seq<char>, value: Seq<char>) -> Seq<char> {
    label + value + "\n"@
}

/// The short summary of a snapshot; the OS line is there only where the
/// os-release entries hold a `PRETTY_NAME`.
pub open spec fn summary_text(
    generated_at: Seq<char>,
    collector_version: Seq<char>,
    hostname: Seq<char>,
    os_release: Seq<(Seq<char>, Seq<char>)>,
    uptime_pretty: Seq<char>,
    load: Seq<char>,
) -> Seq<char> {
    "System State Dump\n"@ + labelled("Collected: "@, generated_at) + labelled(
        "Collector version: "@,
        collector_version,
    ) + labelled("Hostname: "@, hostname) + match kv_lookup(os_release, "PRETTY_NAME"@) {
        Some(name) => labelled("OS: "@, name),
        None => seq![],
    } + labelled("Uptime: "@, uptime_pretty) + labelled("Load: "@, load)
}

fn push_labelled(out: &mut String, label: &str, value: &str)
    ensures
        final(out)@ == old(out)@ + labelled(label@, value@),
{
    let ghost start = out@;
    push_str(out, label);
    push_str(out, value);
    push_str(out, "\n");
    assert(out@ =~= start + labelled(label@, value@));
}

/// Executable form of [`kv_lookup`].
fn kv_lookup_in<'a>(entries: &'a [KeyValue], key: &str) -> (r: Option<&'a String>)
    ensures
        match r {
            Some(v) => kv_lookup(views(entries@), key@) == Some(v@),
            None => kv_lookup(views(entries@), key@) is None,
        },
{
    let mut i: usize = 0;
    assert(views(entries@).skip(0) =~= views(entries@));
    while i < entries.len()
        invariant
            i <= entries@.len(),
            kv_lookup(views(entries@), key@) == kv_lookup(views(entries@).skip(i as int), key@),
        decreases entries.len() - i,
    {
        assert(views(entries@).skip(i as int).drop_first() =~= views(entries@).skip(i + 1));
        if same_text(entries[i].key.as_str(), key) {
            return Some(&entries[i].value);
        }
        i = i + 1;
    }
    None
}

/// The short summary of a snapshot. `load` is the three load averages as
/// they are to be printed.
pub fn summary_text_inner(
    generated_at: &str,
    collector_version: &str,
    hostname: &str,
    os_release: &[KeyValue],
    uptime_pretty: &str,
    load: &str,
) -> (r: String)
    ensures
        r@ == summary_text(
            generated_at@,
            collector_version@,
            hostname@,
            views(os_release@),
            uptime_pretty@,
            load@,
        ),
{
    let mut out = String::new();
    push_str(&mut out, "System State Dump\n");
    push_labelled(&mut out, "Collected: ", generated_at);
    push_labelled(&mut out, "Collector version: ", collector_version);
    push_labelled(&mut out, "Hostname: ", hostname);
    let ghost before = out@;
    match kv_lookup_in(os_release, "PRETTY_NAME") {
        Some(name) => push_labelled(&mut out, "OS: ", name.as_str()),
        None => {},
    }
    push_labelled(&mut out, "Uptime: ", uptime_pretty);
    push_labelled(&mut out, "Load: ", load);
    assert(out@ =~= summary_text(
        generated_at@,
        collector_version@,
        hostname@,
        views(os_release@),
        uptime_pretty@,
        load@,
    ));
    out
}

/// `units` with `u` appended unless it is already there.
pub open spec fn add_unique(units: Seq<Seq<char>>, u: Seq<char>) -> Seq<Seq<char>> {
    if units.contains(u) {
        units
    } else {
        units.push(u)
    }
}

/// The units whose logs are collected: the network manager and the ssh
/// daemon, then each listed service once, in the order first listed.
pub open spec fn units_to_log(services: Seq<SystemdUnitView>) -> Seq<Seq<char>>
    decreases services.len(),
{
    if services.len() == 0 {
        seq!["NetworkManager.service"@, "sshd@.service"@]
    } else {
        add_unique(units_to_log(services.drop_last()), services.last().unit)
    }
}

/// Whether `v` holds text equal to `s`.
fn contains_text(v: &Vec<String>, s: &str) -> (r: bool)
    ensures
        r == views(v@).contains(s@),
{
    let mut i: usize = 0;
    while i < v.len()
        invariant
            i <= v@.len(),
            forall|j: int| 0 <= j < i ==> #[trigger] v@[j]@ != s@,
        decreases v.len() - i,
    {
        if same_text(v[i].as_str(), s) {
            assert(views(v@)[i as int] == s@);
            return true;
        }
        i = i + 1;
    }
    assert forall|j: int| 0 <= j < views(v@).len() implies #[trigger] views(v@)[j] != s@ by {
        assert(views(v@)[j] == v@[j]@);
    }
    false
}

/// The units whose journal to collect: `NetworkManager.service` and
/// `sshd@.service`, then every listed service not yet named.
pub fn log_units(services: &[SystemdUnit]) -> (r: Vec<String>)
    ensures
        views(r@) == units_to_log(views(services@)),
{
    let mut units: Vec<String> = Vec::new();
    units.push(String::from_str("NetworkManager.service"));
    units.push(String::from_str("sshd@.service"));
    let mut i: usize = 0;
    assert(views(services@).take(0) =~= Seq::<SystemdUnitView>::empty());
    assert(views(units@) =~= units_to_log(views(services@).take(0)));
    while i < services.len()
        invariant
            i <= services@.len(),
            views(units@) == units_to_log(views(services@).take(i as int)),
        decreases services.len() - i,
    {
        assert(views(services@).take(i + 1).drop_last() =~= views(services@).take(i as int));
        let name = services[i].unit.as_str();
        if !contains_text(&units, name) {
            let u = String::from_str(name);
            proof {
                lemma_views_push(units@, u);
            }
            units.push(u);
        }
        i = i + 1;
    }
    assert(views(services@).take(services@.len() as int) =~= views(services@));
    units
}

// ── Reports ───────────────────────────────────────────────────────────────

/// The resources report: uptime, memory, and the root file system.
pub open spec fn resources_report(
    uptime_pretty: Seq<char>,
    memory: Seq<MemoryRowView>,
    disk_root: Seq<DfEntryView>,
) -> Seq<char> {
    lines_block("Resources: uptime", seq![uptime_pretty]) + "\n"@ + memory_table(
        "Resources: memory",
        memory,
    ) + "\n"@ + df_table("Resources: disk (root)", disk_root)
}

/// The resources report: uptime, memory, and the root file system.
pub fn resources_text(uptime_pretty: &str, memory: &[MemoryRow], disk_root: &[DfEntry]) -> (r:
    String)
    ensures
        r@ == resources_report(uptime_pretty@, views(memory@), views(disk_root@)),
{
    let mut one: Vec<String> = Vec::new();
    one.push(String::from_str(uptime_pretty));
    assert(views(one@) =~= seq![uptime_pretty@]);
    let mut out = String::new();
    let a = render_lines("Resources: uptime", one.as_slice());
    push_str(&mut out, a.as_str());
    push_str(&mut out, "\n");
    let b = render_memory_rows("Resources: memory", memory);
    push_str(&mut out, b.as_str());
    push_str(&mut out, "\n");
    let c = render_df_entries("Resources: disk (root)", disk_root);
    push_str(&mut out, c.as_str());
    assert(out@ =~= resources_report(uptime_pretty@, views(memory@), views(disk_root@)));
    out
}

/// The system information report.
pub open spec fn sysinfo_report(
    os_release: Seq<(Seq<char>, Seq<char>)>,
    hostname: Seq<char>,
    uptime_pretty: Seq<char>,
    hostnamectl: Seq<(Seq<char>, Seq<char>)>,
    timedatectl: Seq<(Seq<char>, Seq<char>)>,
    locale: Seq<(Seq<char>, Seq<char>)>,
) -> Seq<char> {
    kvs_block("OS release", os_release) + labelled("Hostname: "@, hostname) + labelled(
        "Uptime: "@,
        uptime_pretty,
    ) + "\n"@ + kvs_block("hostnamectl", hostnamectl) + kvs_block("timedatectl", timedatectl)
        + kvs_block("locale", locale)
}

/// The system information report: os-release, host name, uptime, and the
/// `hostnamectl`, `timedatectl` and `locale` entries.
pub fn sysinfo_text(
    os_release: &[KeyValue],
    hostname: &str,
    uptime_pretty: &str,
    hostnamectl: &[KeyValue],
    timedatectl: &[KeyValue],
    locale: &[KeyValue],
) -> (r: String)
    ensures
        r@ == sysinfo_report(
            views(os_release@),
            hostname@,
            uptime_pretty@,
            views(hostnamectl@),
            views(timedatectl@),
            views(locale@),
        ),
{
    let mut out = String::new();
    let a = render_kvs("OS release", os_release);
    push_str(&mut out, a.as_str());
    push_labelled(&mut out, "Hostname: ", hostname);
    push_labelled(&mut out, "Uptime: ", uptime_pretty);
    push_str(&mut out, "\n");
    let b = render_kvs("hostnamectl", hostnamectl);
    push_str(&mut out, b.as_str());
    let c = render_kvs("timedatectl", timedatectl);
    push_str(&mut out, c.as_str());
    let d = render_kvs("locale", locale);
    push_str(&mut out, d.as_str());
    assert(out@ =~= sysinfo_report(
        views(os_release@),
        hostname@,
        uptime_pretty@,
        views(hostnamectl@),
        views(timedatectl@),
        views(locale@),
    ));
    out
}

/// The hardware report.
pub open spec fn hardware_report(h: HardwareSection) -> Seq<char> {
    memory_table("Memory", views(h.memory@)) + "\n"@ + block_device_table(
        "Block devices",
        views(h.block_devices@),
    ) + "\n"@ + kvs_block("blkid", views(h.blkid@)) + "\n"@ + pci_table(
        "PCI devices",
        views(h.pci_devices@),
    ) + "\n"@ + usb_table("USB devices", views(h.usb_devices@))
}

/// The hardware report: memory, block devices, `blkid`, PCI and USB devices.
pub fn hardware_text(h: &HardwareSection) -> (r: String)
    ensures
        r@ == hardware_report(*h),
{
    let mut out = String::new();
    let a = render_memory_rows("Memory", h.memory.as_slice());
    push_str(&mut out, a.as_str());
    push_str(&mut out, "\n");
    let b = render_block_devices("Block devices", h.block_devices.as_slice());
    push_str(&mut out, b.as_str());
    push_str(&mut out, "\n");
    let c = render_kvs("blkid", h.blkid.as_slice());
    push_str(&mut out, c.as_str());
    push_str(&mut out, "\n");
    let d = render_pci_devices("PCI devices", h.pci_devices.as_slice());
    push_str(&mut out, d.as_str());
    push_str(&mut out, "\n");
    let e = render_usb_devices("USB devices", h.usb_devices.as_slice());
    push_str(&mut out, e.as_str());
    assert(out@ =~= hardware_report(*h));
    out
}

/// The services report: every service unit as a table.
pub fn services_text(services: &[SystemdUnit]) -> (r: String)
    ensures
        r@ == unit_table("systemctl list-units --type=service --all", views(services@)),
{
    render_systemd_units("systemctl list-units --type=service --all", services)
}

/// The systemd status report.
pub open spec fn systemd_status_report(s: SystemdStatusSection) -> Seq<char> {
    lines_block("systemctl --failed", views(s.failed.lines@)) + lines_block(
        "systemctl list-units --state=failed",
        views(s.failed_units.lines@),
    ) + lines_block("systemctl list-timers --all", views(s.timers.lines@)) + lines_block(
        "systemctl list-jobs",
        views(s.jobs.lines@),
    )
}

/// The systemd status report: failed units, timers and jobs.
pub fn systemd_status_text(s: &SystemdStatusSection) -> (r: String)
    ensures
        r@ == systemd_status_report(*s),
{
    let mut out = String::new();
    let a = render_lines("systemctl --failed", s.failed.lines.as_slice());
    push_str(&mut out, a.as_str());
    let b = render_lines("systemctl list-units --state=failed", s.failed_units.lines.as_slice());
    push_str(&mut out, b.as_str());
    let c = render_lines("systemctl list-timers --all", s.timers.lines.as_slice());
    push_str(&mut out, c.as_str());
    let d = render_lines("systemctl list-jobs", s.jobs.lines.as_slice());
    push_str(&mut out, d.as_str());
    assert(out@ =~= systemd_status_report(*s));
    out
}

/// The network report.
pub open spec fn network_report(n: NetworkSection) -> Seq<char> {
    lines_block("ip addr", views(n.ip_addr.lines@)) + lines_block(
        "ip route",
        views(n.ip_route.lines@),
    ) + lines_block("ip rule", views(n.ip_rule.lines@)) + lines_block(
        "resolvectl status",
        views(n.resolvectl_status.lines@),
    ) + lines_block("/etc/resolv.conf", views(n.resolv_conf.lines@))
}

/// The network report: addresses, routes, rules and name resolution.
pub fn network_text(n: &NetworkSection) -> (r: String)
    ensures
        r@ == network_report(*n),
{
    let mut out = String::new();
    let a = render_lines("ip addr", n.ip_addr.lines.as_slice());
    push_str(&mut out, a.as_str());
    let b = render_lines("ip route", n.ip_route.lines.as_slice());
    push_str(&mut out, b.as_str());
    let c = render_lines("ip rule", n.ip_rule.lines.as_slice());
    push_str(&mut out, c.as_str());
    let d = render_lines("resolvectl status", n.resolvectl_status.lines.as_slice());
    push_str(&mut out, d.as_str());
    let e = render_lines("/etc/resolv.conf", n.resolv_conf.lines.as_slice());
    push_str(&mut out, e.as_str());
    assert(out@ =~= network_report(*n));
    out
}

/// The Wi-Fi report: the lines of `nmcli dev wifi`.
pub fn wifi_text(wifi: &TextLines) -> (r: String)
    ensures
        r@ == lines_block("nmcli dev wifi", views(wifi.lines@)),
{
    render_lines("nmcli dev wifi", wifi.lines.as_slice())
}

/// The ports report: the sockets as a table.
pub fn ports_text(ports: &[SocketEntry]) -> (r: String)
    ensures
        r@ == socket_table("netstat -an", views(ports@)),
{
    render_socket_entries("netstat -an", ports)
}

/// The file systems report.
pub open spec fn filesystems_report(f: FilesystemSection) -> Seq<char> {
    mount_table("mount", views(f.mounts@)) + "\n"@ + lines_block("findmnt", views(f.findmnt.lines@))
        + "\n"@ + block_device_table("lsblk", views(f.block_devices@)) + "\n"@ + df_table(
        "df -h",
        views(f.df@),
    ) + "\n"@ + df_table("df -ih (inodes)", views(f.df_inodes@)) + "\n"@ + du_table(
        "du -sh /var/log /tmp",
        views(f.du_log_tmp@),
    ) + "\n"@ + du_table("du -h /media/card", views(f.du_media_card@))
}

/// The file systems report: mounts, `findmnt`, block devices, disk and
/// inode usage, and directory sizes.
pub fn filesystems_text(f: &FilesystemSection) -> (r: String)
    ensures
        r@ == filesystems_report(*f),
{
    let mut out = String::new();
    let a = render_mount_entries("mount", f.mounts.as_slice());
    push_str(&mut out, a.as_str());
    push_str(&mut out, "\n");
    let b = render_lines("findmnt", f.findmnt.lines.as_slice());
    push_str(&mut out, b.as_str());
    push_str(&mut out, "\n");
    let c = render_block_devices("lsblk", f.block_devices.as_slice());
    push_str(&mut out, c.as_str());
    push_str(&mut out, "\n");
    let d = render_df_entries("df -h", f.df.as_slice());
    push_str(&mut out, d.as_str());
    push_str(&mut out, "\n");
    let e = render_df_entries("df -ih (inodes)", f.df_inodes.as_slice());
    push_str(&mut out, e.as_str());
    push_str(&mut out, "\n");
    let g = render_disk_usage("du -sh /var/log /tmp", f.du_log_tmp.as_slice());
    push_str(&mut out, g.as_str());
    push_str(&mut out, "\n");
    let h = render_disk_usage("du -h /media/card", f.du_media_card.as_slice());
    push_str(&mut out, h.as_str());
    assert(out@ =~= filesystems_report(*f));
    out
}

/// The processes report: every process as a table.
pub fn processes_text(processes: &[Process]) -> (r: String)
    ensures
        r@ == process_table("ps aux", views(processes@)),
{
    render_processes("ps aux", processes)
}

} // verus!
