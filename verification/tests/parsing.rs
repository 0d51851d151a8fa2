use state_collector::parse::same_text;
use state_collector::text::{is_whitespace_char, to_chars};
use state_collector::{
    command_output, hostname_from_buffer, kv_or_error_colon, kv_or_error_equals, lines,
    os_pretty_name, parse_df, parse_du, parse_free, parse_lsblk, parse_lsblk_kv_line, parse_lspci,
    parse_lsusb, parse_mount, parse_netstat, parse_ps, parse_systemd_units, split_n_fields,
    text_or_error,
};

#[test]
fn whitespace_agrees_with_char_is_whitespace() {
    for code in 0u32..=0x10FFFF {
        if let Some(c) = char::from_u32(code) {
            assert_eq!(is_whitespace_char(c), c.is_whitespace(), "U+{code:04X}");
        }
    }
}

#[test]
fn to_chars_keeps_every_char() {
    let s = "añ\u{3000}€z";
    assert_eq!(to_chars(s), s.chars().collect::<Vec<char>>());
}

#[test]
fn same_text_compares_contents() {
    assert!(same_text("NAME", "NAME"));
    assert!(!same_text("NAME", "NAMES"));
    assert!(!same_text("SIZE", "size"));
}

#[test]
fn lines_drops_blank_lines_and_trailing_whitespace() {
    let text = "first  \n\n   \n  second\r\nthird\t";
    assert_eq!(lines(text), vec!["first", "  second", "third"]);
    assert!(lines("").is_empty());
    assert!(lines(" \n\t\n").is_empty());
}

#[test]
fn lines_agree_with_str_lines() {
    let samples = ["a\nb\n", "a\r\nb", "\n\nx", "x\r", "tail  \u{a0}\nnext\u{3000}\n", "one"];
    for text in samples {
        let expected: Vec<String> = text
            .lines()
            .map(str::trim_end)
            .filter(|l| !l.trim().is_empty())
            .map(ToOwned::to_owned)
            .collect();
        assert_eq!(lines(text), expected, "{text:?}");
    }
}

#[test]
fn split_n_fields_with_zero_or_one_field() {
    assert!(split_n_fields("  a b  ", 0).is_empty());
    assert_eq!(split_n_fields("  a b  ", 1), vec!["a b  "]);
    assert!(split_n_fields("   ", 3).is_empty());
}

#[test]
fn split_n_fields_keeps_trailing_text_of_last_field() {
    assert_eq!(split_n_fields("a b ", 2), vec!["a", "b "]);
    assert_eq!(split_n_fields("a\tb  c", 4), vec!["a", "b", "c"]);
}

#[test]
fn lsblk_kv_line_handles_unquoted_and_unterminated_values() {
    let pairs = parse_lsblk_kv_line("  A=1 B=\"two words\" C=\"open");
    let expected = vec![
        ("A".to_string(), "1".to_string()),
        ("B".to_string(), "two words".to_string()),
        ("C".to_string(), "open".to_string()),
    ];
    assert_eq!(pairs, expected);
    assert!(parse_lsblk_kv_line("no pairs here").is_empty());
}

#[test]
fn lsblk_kv_line_round_trips_written_pairs() {
    let pairs = vec![
        ("NAME".to_string(), "nvme0n1p1".to_string()),
        ("LABEL".to_string(), "my disk".to_string()),
        ("UUID".to_string(), "".to_string()),
    ];
    let line = pairs
        .iter()
        .map(|(k, v)| format!("{k}=\"{v}\""))
        .collect::<Vec<_>>()
        .join(" ");
    assert_eq!(parse_lsblk_kv_line(&line), pairs);
}

#[test]
fn command_output_prefers_stdout_then_stderr() {
    assert_eq!(command_output("out\n".into(), "err".into()), "out\n");
    assert_eq!(command_output(" \n".into(), "err\n".into()), "err\n");
    assert_eq!(command_output(" ".into(), "\t".into()), "");
}

#[test]
fn text_or_error_notes_the_error() {
    let ok = text_or_error(Ok("a\n\nb\n".to_string()));
    assert_eq!(ok.lines, vec!["a", "b"]);
    let err = text_or_error(Err("No such file or directory (os error 2)".to_string()));
    assert_eq!(err.lines, vec!["[error: No such file or directory (os error 2)]"]);
}

#[test]
fn kv_or_error_gives_one_error_entry() {
    let kvs = kv_or_error_equals(Err("boom".to_string()));
    assert_eq!(kvs.len(), 1);
    assert_eq!(kvs[0].key, "error");
    assert_eq!(kvs[0].value, "boom");
    let kvs = kv_or_error_colon(Ok("Static hostname: box\n".to_string()));
    assert_eq!(kvs.len(), 1);
    assert_eq!(kvs[0].key, "Static hostname");
    assert_eq!(kvs[0].value, "box");
    let kvs = kv_or_error_equals(Ok("LANG=\"C.UTF-8\"\n".to_string()));
    assert_eq!(kvs[0].value, "C.UTF-8");
}

#[test]
fn parse_free_reads_mem_and_swap() {
    let text = "               total        used        free      shared  buff/cache   available\n\
Mem:     16600000000  4000000000  9000000000   300000000  3600000000 12000000000\n\
Swap:     2147479552           0  2147479552\n\
Bad: 1 2\n";
    let rows = parse_free(text);
    assert_eq!(rows.len(), 2);
    assert_eq!(rows[0].label, "Mem");
    assert_eq!(rows[0].total_bytes, 16600000000);
    assert_eq!(rows[0].used_bytes, 4000000000);
    assert_eq!(rows[0].free_bytes, 9000000000);
    assert_eq!(rows[0].shared_bytes, Some(300000000));
    assert_eq!(rows[0].buff_cache_bytes, Some(3600000000));
    assert_eq!(rows[0].available_bytes, Some(12000000000));
    assert_eq!(rows[1].label, "Swap");
    assert_eq!(rows[1].used_bytes, 0);
    assert_eq!(rows[1].shared_bytes, None);
}

#[test]
fn parse_free_defaults_unreadable_numbers_to_zero() {
    let rows = parse_free("header\nMem: x 18446744073709551616 +7 a b c\n");
    assert_eq!(rows[0].total_bytes, 0);
    assert_eq!(rows[0].used_bytes, 0);
    assert_eq!(rows[0].free_bytes, 7);
    assert_eq!(rows[0].shared_bytes, None);
}

#[test]
fn parse_df_reads_percent_and_mountpoint_with_spaces() {
    let text = "Filesystem      Size  Used Avail Use% Mounted on\n\
/dev/sda1        50G   20G   28G  42% /\n\
/dev/sdb1       100G  100G     0 100% /media/my card\n\
short line\n";
    let entries = parse_df(text);
    assert_eq!(entries.len(), 2);
    assert_eq!(entries[0].filesystem, "/dev/sda1");
    assert_eq!(entries[0].size, "50G");
    assert_eq!(entries[0].used, "20G");
    assert_eq!(entries[0].avail, "28G");
    assert_eq!(entries[0].use_percent, 42);
    assert_eq!(entries[0].mountpoint, "/");
    assert_eq!(entries[1].use_percent, 100);
    assert_eq!(entries[1].mountpoint, "/media/my card");
    let odd = parse_df("h\nfs 1 2 3 -% /x\nfs 1 2 3 300% /y\n");
    assert_eq!(odd[0].use_percent, 0);
    assert_eq!(odd[1].use_percent, 0);
}

#[test]
fn parse_du_splits_on_tab() {
    let entries = parse_du("4.0K\t/var/log\n1.2M\t/tmp dir\nno tab here\n");
    assert_eq!(entries.len(), 2);
    assert_eq!(entries[0].size, "4.0K");
    assert_eq!(entries[0].path, "/var/log");
    assert_eq!(entries[1].path, "/tmp dir");
}

#[test]
fn parse_lsblk_builds_devices() {
    let text = "NAME=\"sda\" SIZE=\"500G\" TYPE=\"disk\" FSTYPE=\"\" LABEL=\"\" UUID=\"\" MOUNTPOINT=\"\"\n\
\n\
NAME=\"sda1\" SIZE=\"512M\" TYPE=\"part\" FSTYPE=\"vfat\" LABEL=\"EFI\" UUID=\"AB-CD\" MOUNTPOINT=\"/boot/efi\"\n";
    let devices = parse_lsblk(text);
    assert_eq!(devices.len(), 2);
    assert_eq!(devices[0].name, "sda");
    assert_eq!(devices[0].device_type, "disk");
    assert!(devices[0].mountpoints.is_empty());
    assert_eq!(devices[1].fstype, "vfat");
    assert_eq!(devices[1].label, "EFI");
    assert_eq!(devices[1].uuid, "AB-CD");
    assert_eq!(devices[1].mountpoints, vec!["/boot/efi"]);
}

#[test]
fn parse_lspci_reads_slot_class_description() {
    let devices = parse_lspci(
        "00:02.0 VGA compatible controller: Intel Corporation UHD Graphics 620 (rev 07)\nnot a device\n",
    );
    assert_eq!(devices.len(), 1);
    assert_eq!(devices[0].slot, "00:02.0");
    assert_eq!(devices[0].class, "VGA compatible controller");
    assert_eq!(devices[0].description, "Intel Corporation UHD Graphics 620 (rev 07)");
}

#[test]
fn parse_lsusb_reads_ids_and_description() {
    let text = "Bus 002 Device 003: ID 046d:c07e Logitech, Inc. G402 Gaming Mouse\n\
Bus 001 Device 001: ID 1d6b:0002\n\
Bus x Device 001: ID 1d6b:0002 Bad bus\n\
Bus 001 Device 004: ID 1d6b0002 No colon\n";
    let devices = parse_lsusb(text);
    assert_eq!(devices.len(), 2);
    assert_eq!(devices[0].bus, 2);
    assert_eq!(devices[0].device, 3);
    assert_eq!(devices[0].vendor_id, "046d");
    assert_eq!(devices[0].product_id, "c07e");
    assert_eq!(devices[0].description, "Logitech, Inc. G402 Gaming Mouse");
    assert_eq!(devices[1].description, "");
}

#[test]
fn parse_ps_skips_header_and_keeps_command() {
    let text = "USER         PID %CPU %MEM    VSZ   RSS TTY      STAT START   TIME COMMAND\n\
root           1  0.0  0.1 168000 11000 ?        Ss   09:00   0:02 /sbin/init splash\n\
user        4242 12.5  3.2 999999 88888 pts/0    R+   10:15   1:23 cargo test --all\n";
    let procs = parse_ps(text);
    assert_eq!(procs.len(), 2);
    assert_eq!(procs[0].user, "root");
    assert_eq!(procs[0].pid, 1);
    assert_eq!(procs[0].cpu_pct, "0.0");
    assert_eq!(procs[0].vsz_kb, 168000);
    assert_eq!(procs[0].command, "/sbin/init splash");
    assert_eq!(procs[1].pid, 4242);
    assert_eq!(procs[1].mem_pct, "3.2");
    assert_eq!(procs[1].tty, "pts/0");
    assert_eq!(procs[1].command, "cargo test --all");
}

#[test]
fn parse_netstat_keeps_internet_section_only() {
    let text = "Active Internet connections (servers and established)\n\
Proto Recv-Q Send-Q Local Address           Foreign Address         State\n\
tcp        0      0 0.0.0.0:22              0.0.0.0:*               LISTEN\n\
udp        5      0 127.0.0.53:53           0.0.0.0:*\n\
Active UNIX domain sockets (servers and established)\n\
Proto RefCnt Flags       Type       State         I-Node   Path\n\
unix  2      [ ACC ]     STREAM     LISTENING     12345    /run/x\n";
    let entries = parse_netstat(text);
    assert_eq!(entries.len(), 2);
    assert_eq!(entries[0].proto, "tcp");
    assert_eq!(entries[0].local_addr, "0.0.0.0:22");
    assert_eq!(entries[0].state, "LISTEN");
    assert_eq!(entries[1].recv_q, 5);
    assert_eq!(entries[1].state, "");
}

#[test]
fn parse_systemd_units_skips_footer() {
    let text = "ssh.service      loaded active running OpenBSD Secure Shell server\n\
cron.service loaded active running\n\
2 loaded units listed.\n";
    let units = parse_systemd_units(text);
    assert_eq!(units.len(), 2);
    assert_eq!(units[0].unit, "ssh.service");
    assert_eq!(units[0].load, "loaded");
    assert_eq!(units[0].active, "active");
    assert_eq!(units[0].sub, "running");
    assert_eq!(units[0].description, "OpenBSD Secure Shell server");
    assert_eq!(units[1].description, "");
}

#[test]
fn parse_mount_reads_options() {
    let text = "/dev/sda1 on / type ext4 (rw,relatime, errors=remount-ro)\n\
proc on /proc type proc (rw,nosuid)\n\
garbage line\n";
    let mounts = parse_mount(text);
    assert_eq!(mounts.len(), 2);
    assert_eq!(mounts[0].device, "/dev/sda1");
    assert_eq!(mounts[0].mountpoint, "/");
    assert_eq!(mounts[0].fstype, "ext4");
    assert_eq!(mounts[0].options, vec!["rw", "relatime", "errors=remount-ro"]);
    assert_eq!(mounts[1].options, vec!["rw", "nosuid"]);
}

#[test]
fn os_pretty_name_reads_first_entry() {
    let contents = "NAME=\"Ubuntu\"\nPRETTY_NAME=\"Ubuntu 22.04.4 LTS\"\nPRETTY_NAME=\"Other\"\n";
    assert_eq!(os_pretty_name(contents), "Ubuntu 22.04.4 LTS");
    assert_eq!(os_pretty_name("NAME=x\n"), "");
}

#[test]
fn hostname_stops_at_first_nul() {
    let mut buffer = vec![0u8; 16];
    buffer[..4].copy_from_slice(b"host");
    assert_eq!(hostname_from_buffer(&buffer), b"host".to_vec());
    assert_eq!(hostname_from_buffer(b"full"), b"full".to_vec());
}

#[test]
fn split_n_fields_counts_against_words() {
    assert_eq!(split_n_fields("  a b   c  ", 2), vec!["a", "b   c  "]);
    assert_eq!(split_n_fields("  a b   c  ", 3), vec!["a", "b", "c  "]);
    assert_eq!(split_n_fields("  a b   c  ", 4), vec!["a", "b", "c"]);
    assert!(split_n_fields("x", 0).is_empty());
}
