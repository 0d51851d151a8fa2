use state_collector::{format_uptime, key_values_colon, key_values_equals, parse_lsblk_kv_line, split_n_fields};

/// Whole seconds of an uptime reading, as the collector takes them.
fn whole_seconds(seconds: f64) -> u64 {
    seconds.max(0.0).floor() as u64
}

#[test]
fn format_uptime_hours_only() {
    assert_eq!(format_uptime(whole_seconds(3661.0)), "up 01:01:01");
}

#[test]
fn format_uptime_single_day() {
    assert_eq!(format_uptime(whole_seconds(90061.0)), "up 1 day, 01:01:01");
}

#[test]
fn format_uptime_multiple_days() {
    assert_eq!(format_uptime(whole_seconds(176461.0)), "up 2 days, 01:01:01");
}

#[test]
fn split_n_fields_captures_remainder_in_last() {
    assert_eq!(split_n_fields("a b c d e", 3), vec!["a", "b", "c d e"]);
}

#[test]
fn split_n_fields_fewer_fields_than_n() {
    assert_eq!(split_n_fields("a b", 5), vec!["a", "b"]);
}

#[test]
fn split_n_fields_preserves_spaces_in_command() {
    let line = "user 123 0.5 1.0 1234 567 ? S 10:00 0:01 /usr/bin/cmd arg1 arg2";
    let fields = split_n_fields(line, 11);
    assert_eq!(fields.len(), 11);
    assert_eq!(fields[10], "/usr/bin/cmd arg1 arg2");
}

#[test]
fn parse_lsblk_kv_line_extracts_all_fields() {
    let line = r#"NAME="sda" SIZE="500G" TYPE="disk" FSTYPE="" LABEL="" UUID="" MOUNTPOINT="""#;
    let pairs = parse_lsblk_kv_line(line);
    let get = |key: &str| {
        pairs
            .iter()
            .find(|(k, _)| k == key)
            .map(|(_, v)| v.as_str())
    };
    assert_eq!(get("NAME"), Some("sda"));
    assert_eq!(get("SIZE"), Some("500G"));
    assert_eq!(get("TYPE"), Some("disk"));
    assert_eq!(get("FSTYPE"), Some(""));
    assert_eq!(get("UUID"), Some(""));
}

#[test]
fn key_values_equals_strips_quotes() {
    let text = "PRETTY_NAME=\"Ubuntu 22.04\"\nVERSION_ID=22.04\n";
    let kvs = key_values_equals(text);
    assert_eq!(kvs.len(), 2);
    assert_eq!(kvs[0].key, "PRETTY_NAME");
    assert_eq!(kvs[0].value, "Ubuntu 22.04");
    assert_eq!(kvs[1].key, "VERSION_ID");
    assert_eq!(kvs[1].value, "22.04");
}

#[test]
fn key_values_equals_skips_empty_lines() {
    let text = "\nKEY=value\n\n";
    let kvs = key_values_equals(text);
    assert_eq!(kvs.len(), 1);
    assert_eq!(kvs[0].key, "KEY");
    assert_eq!(kvs[0].value, "value");
}

#[test]
fn key_values_colon_trims_whitespace() {
    let text = " Operating System: Ubuntu 22.04\n Kernel: Linux 5.15\n";
    let kvs = key_values_colon(text);
    assert_eq!(kvs.len(), 2);
    assert_eq!(kvs[0].key, "Operating System");
    assert_eq!(kvs[0].value, "Ubuntu 22.04");
    assert_eq!(kvs[1].key, "Kernel");
    assert_eq!(kvs[1].value, "Linux 5.15");
}

#[test]
fn key_values_colon_skips_lines_without_colon() {
    let text = "no colon here\nkey: value\n";
    let kvs = key_values_colon(text);
    assert_eq!(kvs.len(), 1);
    assert_eq!(kvs[0].key, "key");
}
