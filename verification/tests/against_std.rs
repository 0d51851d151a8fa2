//! The parsers held against the same parsing written with `str`'s own
//! methods, on many generated inputs.
use state_collector::{
    key_values_colon, key_values_equals, parse_df, parse_du, parse_free, parse_lsblk_kv_line,
    parse_lspci, parse_lsusb, parse_mount, parse_systemd_units, split_n_fields,
};

struct Rng(u64);

impl Rng {
    fn next(&mut self) -> u64 {
        self.0 ^= self.0 << 13;
        self.0 ^= self.0 >> 7;
        self.0 ^= self.0 << 17;
        self.0
    }

    fn text(&mut self, alphabet: &[&str], max_len: u64) -> String {
        let len = self.next() % (max_len + 1);
        (0..len)
            .map(|_| alphabet[(self.next() % alphabet.len() as u64) as usize])
            .collect()
    }
}

const ALPHABET: &[&str] = &[
    "a", "b", "x", "=", ":", "\"", " ", " ", "\t", "\n", "\r", "(", ")", ",", "%", "1", "2", "0",
    "+", "-", "\u{a0}", "\u{3000}", "é", " on ", " type ", " (", ": ", "ID ", "Bus ",
];

/// At most `n` fields: none where `n` is 0.
fn std_split_n_fields(s: &str, n: usize) -> Vec<&str> {
    let mut result = Vec::new();
    if n == 0 {
        return result;
    }
    let mut rest = s.trim_start();
    for _ in 0..n.saturating_sub(1) {
        if rest.is_empty() {
            break;
        }
        let end = rest.find(char::is_whitespace).unwrap_or(rest.len());
        result.push(&rest[..end]);
        rest = rest[end..].trim_start();
    }
    if !rest.is_empty() {
        result.push(rest);
    }
    result
}

fn std_kv(text: &str, sep: char, unquote: bool) -> Vec<(String, String)> {
    text.lines()
        .filter_map(|line| {
            let line = line.trim();
            if line.is_empty() {
                return None;
            }
            let (key, value) = line.split_once(sep)?;
            let value = if unquote { value.trim().trim_matches('"') } else { value.trim() };
            Some((key.trim().to_string(), value.to_string()))
        })
        .collect()
}

fn std_lsblk_kv_line(line: &str) -> Vec<(String, String)> {
    let mut result = Vec::new();
    let mut rest = line.trim();
    while !rest.is_empty() {
        let eq = match rest.find('=') {
            Some(p) => p,
            None => break,
        };
        let key = rest[..eq].trim().to_string();
        rest = &rest[eq + 1..];
        let value = if rest.starts_with('"') {
            rest = &rest[1..];
            let end = rest.find('"').unwrap_or(rest.len());
            let val = rest[..end].to_string();
            rest = if end < rest.len() { &rest[end + 1..] } else { "" };
            val
        } else {
            let end = rest.find(' ').unwrap_or(rest.len());
            let val = rest[..end].to_string();
            rest = &rest[end..];
            val
        };
        rest = rest.trim_start();
        result.push((key, value));
    }
    result
}

fn std_mount(text: &str) -> Vec<(String, String, String, Vec<String>)> {
    text.lines()
        .filter_map(|line| {
            let line = line.trim();
            if line.is_empty() {
                return None;
            }
            let (device, rest) = line.split_once(" on ")?;
            let (rest, options_raw) = rest.split_once(" (")?;
            let (mountpoint, fstype_part) = rest.split_once(" type ")?;
            let options = options_raw
                .trim_end_matches(')')
                .split(',')
                .map(|s| s.trim().to_string())
                .collect();
            Some((
                device.trim().to_string(),
                mountpoint.trim().to_string(),
                fstype_part.trim().to_string(),
                options,
            ))
        })
        .collect()
}

fn std_lspci(text: &str) -> Vec<(String, String, String)> {
    text.lines()
        .filter_map(|line| {
            let line = line.trim();
            if line.is_empty() {
                return None;
            }
            let (slot, rest) = line.split_once(' ')?;
            let (class, description) = rest.split_once(": ")?;
            Some((slot.to_string(), class.trim().to_string(), description.trim().to_string()))
        })
        .collect()
}

fn std_lsusb(text: &str) -> Vec<(u32, u32, String, String, String)> {
    text.lines()
        .filter_map(|line| {
            let line = line.trim();
            if line.is_empty() {
                return None;
            }
            let parts: Vec<&str> = line.split_whitespace().collect();
            if parts.len() < 6 {
                return None;
            }
            let bus: u32 = parts[1].parse().ok()?;
            let device: u32 = parts[3].trim_end_matches(':').parse().ok()?;
            let id_parts: Vec<&str> = parts[5].splitn(2, ':').collect();
            if id_parts.len() < 2 {
                return None;
            }
            let description = if parts.len() > 6 { parts[6..].join(" ") } else { String::new() };
            Some((bus, device, id_parts[0].to_string(), id_parts[1].to_string(), description))
        })
        .collect()
}

fn std_du(text: &str) -> Vec<(String, String)> {
    text.lines()
        .filter_map(|line| {
            let line = line.trim();
            if line.is_empty() {
                return None;
            }
            let (size, path) = line.split_once('\t')?;
            Some((size.trim().to_string(), path.trim().to_string()))
        })
        .collect()
}

#[allow(clippy::type_complexity)]
fn std_free(text: &str) -> Vec<(String, u64, u64, u64, Option<u64>, Option<u64>, Option<u64>)> {
    let mut rows = Vec::new();
    for line in text.lines().skip(1) {
        let line = line.trim();
        if line.is_empty() {
            continue;
        }
        let parts: Vec<&str> = line.split_whitespace().collect();
        if parts.len() < 4 {
            continue;
        }
        let full = parts.len() >= 7;
        rows.push((
            parts[0].trim_end_matches(':').to_string(),
            parts[1].parse().unwrap_or(0),
            parts[2].parse().unwrap_or(0),
            parts[3].parse().unwrap_or(0),
            if full { parts[4].parse().ok() } else { None },
            if full { parts[5].parse().ok() } else { None },
            if full { parts[6].parse().ok() } else { None },
        ));
    }
    rows
}

fn std_df(text: &str) -> Vec<(String, String, String, String, u8, String)> {
    let mut result = Vec::new();
    for line in text.lines().skip(1) {
        let line = line.trim();
        if line.is_empty() {
            continue;
        }
        let parts = std_split_n_fields(line, 6);
        if parts.len() < 6 {
            continue;
        }
        result.push((
            parts[0].to_string(),
            parts[1].to_string(),
            parts[2].to_string(),
            parts[3].to_string(),
            parts[4].trim_end_matches('%').parse().unwrap_or(0),
            parts[5].to_string(),
        ));
    }
    result
}

fn std_units(text: &str) -> Vec<(String, String, String, String, String)> {
    let mut result = Vec::new();
    for line in text.lines() {
        let line = line.trim();
        if line.is_empty() {
            continue;
        }
        if line.chars().next().is_some_and(|c| c.is_ascii_digit()) {
            continue;
        }
        let parts = std_split_n_fields(line, 5);
        if parts.len() < 4 {
            continue;
        }
        result.push((
            parts[0].to_string(),
            parts[1].to_string(),
            parts[2].to_string(),
            parts[3].to_string(),
            parts.get(4).unwrap_or(&"").to_string(),
        ));
    }
    result
}

#[test]
fn generated_inputs_parse_as_with_str_methods() {
    let mut rng = Rng(0x2545_f491_4f6c_dd1d);
    for round in 0..4000 {
        let text = rng.text(ALPHABET, 30);
        let n = (round % 8) as usize;
        assert_eq!(split_n_fields(&text, n), std_split_n_fields(&text, n), "{text:?} {n}");
        let eq: Vec<(String, String)> = key_values_equals(&text).into_iter().map(|k| (k.key, k.value)).collect();
        assert_eq!(eq, std_kv(&text, '=', true), "{text:?}");
        let colon: Vec<(String, String)> = key_values_colon(&text).into_iter().map(|k| (k.key, k.value)).collect();
        assert_eq!(colon, std_kv(&text, ':', false), "{text:?}");
        assert_eq!(parse_lsblk_kv_line(&text), std_lsblk_kv_line(&text), "{text:?}");
        let mounts: Vec<_> = parse_mount(&text)
            .into_iter()
            .map(|m| (m.device, m.mountpoint, m.fstype, m.options))
            .collect();
        assert_eq!(mounts, std_mount(&text), "{text:?}");
        let pci: Vec<_> = parse_lspci(&text).into_iter().map(|d| (d.slot, d.class, d.description)).collect();
        assert_eq!(pci, std_lspci(&text), "{text:?}");
        let du: Vec<_> = parse_du(&text).into_iter().map(|d| (d.size, d.path)).collect();
        assert_eq!(du, std_du(&text), "{text:?}");
    }
}

const NUMERIC: &[&str] = &[
    "1", "0", "9", "12", "+", "-", "%", ":", " ", " ", "\t", "\n", "a", "ID ", "1d6b:0002", "Bus ",
    "18446744073709551615", "18446744073709551616", "4294967296", "255", "256",
];

#[test]
fn generated_tables_parse_as_with_str_methods() {
    let mut rng = Rng(0x9e37_79b9_7f4a_7c15);
    for _ in 0..4000 {
        let text = rng.text(NUMERIC, 40);
        let free: Vec<_> = parse_free(&text)
            .into_iter()
            .map(|r| (r.label, r.total_bytes, r.used_bytes, r.free_bytes, r.shared_bytes, r.buff_cache_bytes, r.available_bytes))
            .collect();
        assert_eq!(free, std_free(&text), "{text:?}");
        let df: Vec<_> = parse_df(&text)
            .into_iter()
            .map(|e| (e.filesystem, e.size, e.used, e.avail, e.use_percent, e.mountpoint))
            .collect();
        assert_eq!(df, std_df(&text), "{text:?}");
        let usb: Vec<_> = parse_lsusb(&text)
            .into_iter()
            .map(|d| (d.bus, d.device, d.vendor_id, d.product_id, d.description))
            .collect();
        assert_eq!(usb, std_lsusb(&text), "{text:?}");
        let units: Vec<_> = parse_systemd_units(&text)
            .into_iter()
            .map(|u| (u.unit, u.load, u.active, u.sub, u.description))
            .collect();
        assert_eq!(units, std_units(&text), "{text:?}");
    }
}
