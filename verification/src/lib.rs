//! Parsing and rendering of system state as collected from command output.
//!
//! [`parse`] turns what system commands print into records, [`render`]
//! turns records into the plain-text reports, [`text`] holds the character
//! model that both are specified against, and [`laws`], [`layout`] and
//! [`origins`] the properties that hold of them for every input.

pub mod laws;
pub mod layout;
pub mod origins;
pub mod parse;
pub mod render;
pub mod text;
pub mod types;

pub use parse::{
    command_output, hostname_from_buffer, key_values_colon, key_values_equals, kv_or_error_colon,
    kv_or_error_equals, lines, os_pretty_name, parse_df, parse_du, parse_free, parse_lsblk,
    parse_lsblk_kv_line, parse_lspci, parse_lsusb, parse_mount, parse_netstat, parse_ps,
    parse_systemd_units, split_n_fields, text_or_error,
};
pub use render::{
    filesystems_text, format_bytes, format_uptime, hardware_text, log_units, network_text,
    ports_text, processes_text, render_block_devices, render_df_entries, render_disk_usage,
    render_kvs, render_lines, render_memory_rows, render_mount_entries, render_pci_devices,
    render_processes, render_socket_entries, render_systemd_units, render_usb_devices,
    resources_text, services_text, summary_text_inner, sysinfo_text, systemd_status_text,
    wifi_text,
};
pub use types::{
    BlockDevice, DfEntry, DiskUsage, FilesystemSection, Format, HardwareSection, KeyValue,
    MemoryRow, MountEntry, NetworkSection, PciDevice, Process, SocketEntry, SystemdStatusSection,
    SystemdUnit, TextLines, UsbDevice,
};
