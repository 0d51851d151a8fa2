use state_collector::types::{BlockDevice, DfEntry, DiskUsage, KeyValue, MemoryRow, MountEntry, PciDevice, Process, SocketEntry, SystemdUnit, UsbDevice};
use state_collector::{
    format_bytes, format_uptime, log_units, render_block_devices, render_df_entries,
    render_disk_usage, render_kvs, render_lines, render_memory_rows, render_mount_entries,
    render_pci_devices, render_processes, render_socket_entries, render_systemd_units,
    render_usb_devices, summary_text_inner,
};

/// Byte counts as floating-point formatting writes them.
fn float_bytes(bytes: u64) -> String {
    const GIB: u64 = 1 << 30;
    const MIB: u64 = 1 << 20;
    const KIB: u64 = 1 << 10;
    if bytes >= GIB {
        format!("{:.1}G", bytes as f64 / GIB as f64)
    } else if bytes >= MIB {
        format!("{:.1}M", bytes as f64 / MIB as f64)
    } else if bytes >= KIB {
        format!("{:.1}K", bytes as f64 / KIB as f64)
    } else {
        format!("{}B", bytes)
    }
}

fn s(x: &str) -> String {
    x.to_string()
}

#[test]
fn format_bytes_exact_values() {
    assert_eq!(format_bytes(0), "0B");
    assert_eq!(format_bytes(1023), "1023B");
    assert_eq!(format_bytes(1024), "1.0K");
    assert_eq!(format_bytes(1536), "1.5K");
    assert_eq!(format_bytes(1 << 20), "1.0M");
    assert_eq!(format_bytes(1 << 30), "1.0G");
    assert_eq!(format_bytes(16_600_000_000), "15.5G");
}

#[test]
fn format_bytes_matches_float_formatting() {
    let mut values: Vec<u64> = Vec::new();
    for b in 0u64..5000 {
        values.push(b);
    }
    for unit in [1u64 << 10, 1 << 20, 1 << 30] {
        for k in 1u64..300 {
            // values around exact ties of the first decimal
            let tie = k * unit / 20 + unit;
            for d in [0u64, 1, 2] {
                values.push(tie.saturating_sub(d));
                values.push(tie + d);
            }
            values.push(k * unit);
            values.push(k * unit + unit / 20);
            values.push(k * unit + 3 * unit / 20);
        }
    }
    let mut x: u64 = 0x9e37_79b9_7f4a_7c15;
    for _ in 0..20000 {
        x ^= x << 13;
        x ^= x >> 7;
        x ^= x << 17;
        values.push(x);
        values.push(x >> (x % 64));
    }
    for shift in 50..64 {
        let base = 1u64 << shift;
        for d in 0u64..40 {
            values.push(base + d);
            values.push(base - d);
            values.push(base | (1 << (shift - 53).max(0)) | d);
        }
    }
    values.push(u64::MAX);
    values.push(u64::MAX - 1);
    values.push(u64::MAX - 1024);
    values.push((1u64 << 63) + (1u64 << 10));
    for b in values {
        assert_eq!(format_bytes(b), float_bytes(b), "{b}");
    }
}

#[test]
fn format_uptime_edges() {
    assert_eq!(format_uptime(0), "up 00:00:00");
    assert_eq!(format_uptime(59), "up 00:00:59");
    assert_eq!(format_uptime(86_399), "up 23:59:59");
    assert_eq!(format_uptime(86_400), "up 1 day, 00:00:00");
    assert_eq!(format_uptime(10 * 86_400 + 3_600 * 5 + 61), "up 10 days, 05:01:01");
}

#[test]
fn render_lines_underlines_by_bytes() {
    let out = render_lines("ip addr", &[s("one"), s("two")]);
    assert_eq!(out, "ip addr\n-------\none\ntwo\n");
    let out = render_lines("Grüße", &[]);
    assert_eq!(out, format!("Grüße\n{}\n", "-".repeat("Grüße".len())));
}

#[test]
fn render_kvs_lists_entries() {
    let entries = vec![
        KeyValue { key: s("NAME"), value: s("Ubuntu") },
        KeyValue { key: s("VERSION"), value: s("22.04") },
    ];
    assert_eq!(render_kvs("OS release", &entries), "OS release\n----------\nNAME: Ubuntu\nVERSION: 22.04\n");
}

fn heading(title: &str) -> String {
    format!("{title}\n{}\n", "-".repeat(title.len()))
}

#[test]
fn render_memory_rows_matches_layout() {
    let rows = vec![
        MemoryRow { label: s("Mem"), total_bytes: 16_600_000_000, used_bytes: 4_000_000_000, free_bytes: 9_000_000_000, shared_bytes: Some(300_000_000), buff_cache_bytes: Some(3_600_000_000), available_bytes: Some(12_000_000_000) },
        MemoryRow { label: s("Swap"), total_bytes: 2_147_479_552, used_bytes: 0, free_bytes: 2_147_479_552, shared_bytes: None, buff_cache_bytes: None, available_bytes: None },
    ];
    let mut expected = heading("Memory");
    expected.push_str(&format!(
        "{:6}  {:>10}  {:>10}  {:>10}  {:>10}  {:>12}  {:>12}\n",
        "", "total", "used", "free", "shared", "buff/cache", "available"
    ));
    for row in &rows {
        expected.push_str(&format!(
            "{:6}  {:>10}  {:>10}  {:>10}  {:>10}  {:>12}  {:>12}\n",
            row.label,
            float_bytes(row.total_bytes),
            float_bytes(row.used_bytes),
            float_bytes(row.free_bytes),
            row.shared_bytes.map(float_bytes).unwrap_or_default(),
            row.buff_cache_bytes.map(float_bytes).unwrap_or_default(),
            row.available_bytes.map(float_bytes).unwrap_or_default(),
        ));
    }
    assert_eq!(render_memory_rows("Memory", &rows), expected);
}

#[test]
fn render_df_entries_matches_layout() {
    let entries = vec![
        DfEntry { filesystem: s("/dev/sda1"), size: s("50G"), used: s("20G"), avail: s("28G"), use_percent: 42, mountpoint: s("/") },
        DfEntry { filesystem: s("a-very-long-filesystem-name-that-overflows"), size: s("1T"), used: s("1T"), avail: s("0"), use_percent: 100, mountpoint: s("/media/my card") },
    ];
    let mut expected = heading("df -h");
    expected.push_str(&format!(
        "{:<30}  {:>8}  {:>8}  {:>8}  {:>4}  {}\n",
        "Filesystem", "Size", "Used", "Avail", "Use%", "Mounted on"
    ));
    for e in &entries {
        expected.push_str(&format!(
            "{:<30}  {:>8}  {:>8}  {:>8}  {:>3}%  {}\n",
            e.filesystem, e.size, e.used, e.avail, e.use_percent, e.mountpoint
        ));
    }
    assert_eq!(render_df_entries("df -h", &entries), expected);
}

#[test]
fn render_disk_usage_and_pci_match_layout() {
    let du = vec![DiskUsage { size: s("4.0K"), path: s("/var/log") }];
    assert_eq!(render_disk_usage("du", &du), format!("{}{:>8}  {}\n", heading("du"), "4.0K", "/var/log"));
    let pci = vec![PciDevice { slot: s("00:02.0"), class: s("VGA"), description: s("Intel") }];
    assert_eq!(render_pci_devices("PCI devices", &pci), format!("{}00:02.0  VGA:  Intel\n", heading("PCI devices")));
}

#[test]
fn render_block_devices_matches_layout() {
    let devices = vec![
        BlockDevice { name: s("sda1"), size: s("512M"), device_type: s("part"), fstype: s("vfat"), label: s("EFI"), uuid: s("AB-CD"), mountpoints: vec![s("/boot/efi"), s("/efi")] },
        BlockDevice { name: s("sda"), size: s("500G"), device_type: s("disk"), fstype: s(""), label: s(""), uuid: s(""), mountpoints: vec![] },
    ];
    let mut expected = heading("lsblk");
    expected.push_str(&format!(
        "{:<14}  {:>8}  {:>6}  {:>8}  {:<20}  {:<36}  {}\n",
        "Name", "Size", "Type", "FSType", "Label", "UUID", "Mountpoints"
    ));
    for d in &devices {
        expected.push_str(&format!(
            "{:<14}  {:>8}  {:>6}  {:>8}  {:<20}  {:<36}  {}\n",
            d.name, d.size, d.device_type, d.fstype, d.label, d.uuid, d.mountpoints.join(", ")
        ));
    }
    assert_eq!(render_block_devices("lsblk", &devices), expected);
}

#[test]
fn render_usb_devices_matches_layout() {
    let devices = vec![UsbDevice { bus: 2, device: 3, vendor_id: s("046d"), product_id: s("c07e"), description: s("Logitech") }];
    let mut expected = heading("USB devices");
    expected.push_str(&format!("{:>3}  {:>6}  {:>6}:{:<6}  {}\n", "Bus", "Device", "Vendor", "Product", "Description"));
    for d in &devices {
        expected.push_str(&format!("{:>3}  {:>6}  {}:{}  {}\n", d.bus, d.device, d.vendor_id, d.product_id, d.description));
    }
    assert_eq!(render_usb_devices("USB devices", &devices), expected);
}

#[test]
fn render_processes_matches_layout() {
    let cpu: f32 = 12.5;
    let mem: f32 = 3.25;
    let procs = vec![Process {
        user: s("user"), pid: 4242, cpu_pct: format!("{:.1}", cpu), mem_pct: format!("{:.1}", mem), vsz_kb: 999_999, rss_kb: 88_888,
        tty: s("pts/0"), stat: s("R+"), start: s("10:15"), time: s("1:23"), command: s("cargo test --all"),
    }];
    let mut expected = heading("ps aux");
    expected.push_str(&format!(
        "{:<12}  {:>7}  {:>5}  {:>5}  {:>8}  {:>8}  {:<8}  {:<6}  {:<8}  {:<8}  {}\n",
        "USER", "PID", "%CPU", "%MEM", "VSZ", "RSS", "TTY", "STAT", "START", "TIME", "COMMAND"
    ));
    expected.push_str(&format!(
        "{:<12}  {:>7}  {:>5.1}  {:>5.1}  {:>8}  {:>8}  {:<8}  {:<6}  {:<8}  {:<8}  {}\n",
        "user", 4242, cpu, mem, 999_999, 88_888, "pts/0", "R+", "10:15", "1:23", "cargo test --all"
    ));
    assert_eq!(render_processes("ps aux", &procs), expected);
}

#[test]
fn render_sockets_units_mounts_match_layout() {
    let sockets = vec![SocketEntry { proto: s("tcp"), recv_q: 0, send_q: 12, local_addr: s("0.0.0.0:22"), foreign_addr: s("0.0.0.0:*"), state: s("LISTEN") }];
    let mut expected = heading("netstat -an");
    expected.push_str(&format!("{:<6}  {:>7}  {:>7}  {:<28}  {:<28}  {}\n", "Proto", "Recv-Q", "Send-Q", "Local Address", "Foreign Address", "State"));
    expected.push_str(&format!("{:<6}  {:>7}  {:>7}  {:<28}  {:<28}  {}\n", "tcp", 0, 12, "0.0.0.0:22", "0.0.0.0:*", "LISTEN"));
    assert_eq!(render_socket_entries("netstat -an", &sockets), expected);

    let units = vec![SystemdUnit { unit: s("ssh.service"), load: s("loaded"), active: s("active"), sub: s("running"), description: s("OpenSSH") }];
    let mut expected = heading("units");
    expected.push_str(&format!("{:<40}  {:<8}  {:<8}  {:<10}  {}\n", "UNIT", "LOAD", "ACTIVE", "SUB", "DESCRIPTION"));
    expected.push_str(&format!("{:<40}  {:<8}  {:<8}  {:<10}  {}\n", "ssh.service", "loaded", "active", "running", "OpenSSH"));
    assert_eq!(render_systemd_units("units", &units), expected);

    let mounts = vec![MountEntry { device: s("/dev/sda1"), mountpoint: s("/"), fstype: s("ext4"), options: vec![s("rw"), s("relatime")] }];
    let mut expected = heading("mount");
    expected.push_str(&format!("{:<30}  {:<25}  {:<12}  {}\n", "Device", "Mountpoint", "FSType", "Options"));
    expected.push_str(&format!("{:<30}  {:<25}  {:<12}  {}\n", "/dev/sda1", "/", "ext4", "rw,relatime"));
    assert_eq!(render_mount_entries("mount", &mounts), expected);
}

#[test]
fn summary_includes_os_only_when_known() {
    let os = vec![KeyValue { key: s("PRETTY_NAME"), value: s("Ubuntu 22.04") }];
    let text = summary_text_inner("2024-01-01 00:00:00", "0.1.0", "box", &os, "up 01:00:00", "0.10, 0.20, 0.30");
    assert_eq!(
        text,
        "System State Dump\nCollected: 2024-01-01 00:00:00\nCollector version: 0.1.0\nHostname: box\nOS: Ubuntu 22.04\nUptime: up 01:00:00\nLoad: 0.10, 0.20, 0.30\n"
    );
    let text = summary_text_inner("t", "v", "h", &[], "u", "l");
    assert_eq!(text, "System State Dump\nCollected: t\nCollector version: v\nHostname: h\nUptime: u\nLoad: l\n");
}

#[test]
fn log_units_lists_each_unit_once() {
    let unit = |name: &str| SystemdUnit { unit: s(name), load: s("loaded"), active: s("active"), sub: s("running"), description: s("") };
    let services = vec![unit("ssh.service"), unit("NetworkManager.service"), unit("cron.service"), unit("ssh.service")];
    assert_eq!(
        log_units(&services),
        vec!["NetworkManager.service", "sshd@.service", "ssh.service", "cron.service"]
    );
    assert_eq!(log_units(&[]), vec!["NetworkManager.service", "sshd@.service"]);
}

#[test]
fn memory_table_lines_are_title_underline_header_rows() {
    let rows = vec![
        MemoryRow { label: s("Mem:"), total_bytes: 8 << 30, used_bytes: 3 << 30, free_bytes: 1 << 30, shared_bytes: Some(512 << 20), buff_cache_bytes: None, available_bytes: Some(4 << 30) },
        MemoryRow { label: s("Swap:"), total_bytes: 2048, used_bytes: 0, free_bytes: 2048, shared_bytes: None, buff_cache_bytes: None, available_bytes: None },
    ];
    let text = render_memory_rows("Memory", &rows);
    let lines: Vec<&str> = text.lines().collect();
    assert_eq!(lines.len(), rows.len() + 3);
    assert_eq!(lines[0], "Memory");
    assert_eq!(lines[1], "------");
    assert_eq!(
        lines[2].split_whitespace().collect::<Vec<_>>(),
        vec!["total", "used", "free", "shared", "buff/cache", "available"]
    );
    assert_eq!(lines[3].split_whitespace().collect::<Vec<_>>(), vec!["Mem:", "8.0G", "3.0G", "1.0G", "512.0M", "4.0G"]);
    assert_eq!(lines[4].split_whitespace().collect::<Vec<_>>(), vec!["Swap:", "2.0K", "0B", "2.0K"]);
}

#[test]
fn block_device_and_mount_rows_start_and_end_with_their_fields() {
    let devices = vec![
        BlockDevice { name: s("nvme0n1p2"), size: s("1T"), device_type: s("part"), fstype: s("ext4"), label: s("root"), uuid: s("1234"), mountpoints: vec![s("/"), s("/srv")] },
        BlockDevice { name: s("loop0"), size: s("4K"), device_type: s("loop"), fstype: s(""), label: s(""), uuid: s(""), mountpoints: vec![] },
    ];
    let text = render_block_devices("Block devices", &devices);
    let lines: Vec<&str> = text.lines().collect();
    assert_eq!(lines.len(), devices.len() + 3);
    assert_eq!(lines[1], "-".repeat("Block devices".len()));
    for (line, d) in lines[3..].iter().zip(&devices) {
        assert!(line.starts_with(&d.name));
        assert!(line.ends_with(&format!("  {}", d.mountpoints.join(", "))));
    }

    let mounts = vec![MountEntry { device: s("tmpfs"), mountpoint: s("/run"), fstype: s("tmpfs"), options: vec![s("rw"), s("nosuid"), s("size=10%")] }];
    let text = render_mount_entries("Mounts", &mounts);
    let lines: Vec<&str> = text.lines().collect();
    assert_eq!(lines.len(), 4);
    assert!(lines[3].starts_with("tmpfs"));
    assert!(lines[3].ends_with("  rw,nosuid,size=10%"));
}

#[test]
fn process_rows_show_user_numbers_and_command() {
    let procs = vec![Process {
        user: s("www-data"), pid: 77, cpu_pct: s("0.3"), mem_pct: s("1.5"), vsz_kb: 123_456, rss_kb: 7_890,
        tty: s("?"), stat: s("S"), start: s("Jan01"), time: s("0:05"), command: s("nginx: worker  process"),
    }];
    let text = render_processes("Processes", &procs);
    let lines: Vec<&str> = text.lines().collect();
    assert_eq!(lines.len(), 4);
    assert_eq!(lines[0], "Processes");
    let row = lines[3];
    assert!(row.starts_with("www-data"));
    assert!(row.ends_with("  nginx: worker  process"));
    assert_eq!(
        row.split_whitespace().take(6).collect::<Vec<_>>(),
        vec!["www-data", "77", "0.3", "1.5", "123456", "7890"]
    );
}

#[test]
fn log_units_keep_order_of_first_listing() {
    let unit = |name: &str| SystemdUnit { unit: s(name), load: s("loaded"), active: s("active"), sub: s("running"), description: s("") };
    let services = vec![unit("b.service"), unit("sshd@.service"), unit("a.service"), unit("b.service"), unit("c.service"), unit("a.service")];
    assert_eq!(
        log_units(&services),
        vec!["NetworkManager.service", "sshd@.service", "b.service", "a.service", "c.service"]
    );
}
