//! The records that the parsers produce and the renderers print, each with
//! a view that the contracts speak of.
use vstd::prelude::*;

verus! {

/// The views of the elements of `v`, in order.
pub open spec fn views<T: View>(v: Seq<T>) -> Seq<T::V> {
    Seq::new(v.len(), |i: int| v[i]@)
}

pub proof fn lemma_views_push<T: View>(v: Seq<T>, x: T)
    ensures
        views(v.push(x)) == views(v).push(x@),
{
    assert(views(v.push(x)) =~= views(v).push(x@));
}

/// A `key: value` or `key=value` entry.
#[derive(Clone, Debug)]
pub struct KeyValue {
    pub key: String,
    pub value: String,
}

impl View for KeyValue {
    type V = (Seq<char>, Seq<char>);

    open spec fn view(&self) -> (Seq<char>, Seq<char>) {
        (self.key@, self.value@)
    }
}

/// The text formats a snapshot can be serialised to.
#[derive(Clone, Copy, Debug, PartialEq, Eq)]
pub enum Format {
    Json,
    PrettyJson,
    Rsn,
    RsnPretty,
}

/// The non-blank lines of a command's output.
#[derive(Clone, Debug)]
pub struct TextLines {
    pub lines: Vec<String>,
}

/// One row from `free -b` output (Mem or Swap).
#[derive(Clone, Debug)]
pub struct MemoryRow {
    pub label: String,
    pub total_bytes: u64,
    pub used_bytes: u64,
    pub free_bytes: u64,
    pub shared_bytes: Option<u64>,
    pub buff_cache_bytes: Option<u64>,
    pub available_bytes: Option<u64>,
}

/// What a [`MemoryRow`] holds, as the contracts speak of it.
pub struct MemoryRowView {
    pub label: Seq<char>,
    pub total_bytes: u64,
    pub used_bytes: u64,
    pub free_bytes: u64,
    pub shared_bytes: Option<u64>,
    pub buff_cache_bytes: Option<u64>,
    pub available_bytes: Option<u64>,
}

impl View for MemoryRow {
    type V = MemoryRowView;

    open spec fn view(&self) -> MemoryRowView {
        MemoryRowView {
            label: self.label@,
            total_bytes: self.total_bytes,
            used_bytes: self.used_bytes,
            free_bytes: self.free_bytes,
            shared_bytes: self.shared_bytes,
            buff_cache_bytes: self.buff_cache_bytes,
            available_bytes: self.available_bytes,
        }
    }
}

/// One row from `df` output.
#[derive(Clone, Debug)]
pub struct DfEntry {
    pub filesystem: String,
    pub size: String,
    pub used: String,
    pub avail: String,
    pub use_percent: u8,
    pub mountpoint: String,
}

/// What a [`DfEntry`] holds, as the contracts speak of it.
pub struct DfEntryView {
    pub filesystem: Seq<char>,
    pub size: Seq<char>,
    pub used: Seq<char>,
    pub avail: Seq<char>,
    pub use_percent: u8,
    pub mountpoint: Seq<char>,
}

impl View for DfEntry {
    type V = DfEntryView;

    open spec fn view(&self) -> DfEntryView {
        DfEntryView {
            filesystem: self.filesystem@,
            size: self.size@,
            used: self.used@,
            avail: self.avail@,
            use_percent: self.use_percent,
            mountpoint: self.mountpoint@,
        }
    }
}

/// One row from `du` output.
#[derive(Clone, Debug)]
pub struct DiskUsage {
    pub size: String,
    pub path: String,
}

impl View for DiskUsage {
    type V = (Seq<char>, Seq<char>);

    open spec fn view(&self) -> (Seq<char>, Seq<char>) {
        (self.size@, self.path@)
    }
}

/// One block device from `lsblk -P` output.
#[derive(Clone, Debug)]
pub struct BlockDevice {
    pub name: String,
    pub size: String,
    pub device_type: String,
    pub fstype: String,
    pub label: String,
    pub uuid: String,
    pub mountpoints: Vec<String>,
}

/// What a [`BlockDevice`] holds, as the contracts speak of it.
pub struct BlockDeviceView {
    pub name: Seq<char>,
    pub size: Seq<char>,
    pub device_type: Seq<char>,
    pub fstype: Seq<char>,
    pub label: Seq<char>,
    pub uuid: Seq<char>,
    pub mountpoints: Seq<Seq<char>>,
}

impl View for BlockDevice {
    type V = BlockDeviceView;

    open spec fn view(&self) -> BlockDeviceView {
        BlockDeviceView {
            name: self.name@,
            size: self.size@,
            device_type: self.device_type@,
            fstype: self.fstype@,
            label: self.label@,
            uuid: self.uuid@,
            mountpoints: views(self.mountpoints@),
        }
    }
}

/// One device from `lspci` output.
#[derive(Clone, Debug)]
pub struct PciDevice {
    pub slot: String,
    pub class: String,
    pub description: String,
}

impl View for PciDevice {
    type V = (Seq<char>, Seq<char>, Seq<char>);

    open spec fn view(&self) -> (Seq<char>, Seq<char>, Seq<char>) {
        (self.slot@, self.class@, self.description@)
    }
}

/// One device from `lsusb` output.
#[derive(Clone, Debug)]
pub struct UsbDevice {
    pub bus: u32,
    pub device: u32,
    pub vendor_id: String,
    pub product_id: String,
    pub description: String,
}

/// What a [`UsbDevice`] holds, as the contracts speak of it.
pub struct UsbDeviceView {
    pub bus: u32,
    pub device: u32,
    pub vendor_id: Seq<char>,
    pub product_id: Seq<char>,
    pub description: Seq<char>,
}

impl View for UsbDevice {
    type V = UsbDeviceView;

    open spec fn view(&self) -> UsbDeviceView {
        UsbDeviceView {
            bus: self.bus,
            device: self.device,
            vendor_id: self.vendor_id@,
            product_id: self.product_id@,
            description: self.description@,
        }
    }
}

/// One process from `ps aux` output.
///
/// The two percentages are held as text: as `ps` printed them where a
/// parser produced the record, and as they are to be printed where a
/// renderer consumes it.
#[derive(Clone, Debug)]
pub struct Process {
    pub user: String,
    pub pid: u32,
    pub cpu_pct: String,
    pub mem_pct: String,
    pub vsz_kb: u64,
    pub rss_kb: u64,
    pub tty: String,
    pub stat: String,
    pub start: String,
    pub time: String,
    pub command: String,
}

/// What a [`Process`] holds, as the contracts speak of it.
pub struct ProcessView {
    pub user: Seq<char>,
    pub pid: u32,
    pub cpu_pct: Seq<char>,
    pub mem_pct: Seq<char>,
    pub vsz_kb: u64,
    pub rss_kb: u64,
    pub tty: Seq<char>,
    pub stat: Seq<char>,
    pub start: Seq<char>,
    pub time: Seq<char>,
    pub command: Seq<char>,
}

impl View for Process {
    type V = ProcessView;

    open spec fn view(&self) -> ProcessView {
        ProcessView {
            user: self.user@,
            pid: self.pid,
            cpu_pct: self.cpu_pct@,
            mem_pct: self.mem_pct@,
            vsz_kb: self.vsz_kb,
            rss_kb: self.rss_kb,
            tty: self.tty@,
            stat: self.stat@,
            start: self.start@,
            time: self.time@,
            command: self.command@,
        }
    }
}

/// One socket from `netstat -an` output (internet connections only).
#[derive(Clone, Debug)]
pub struct SocketEntry {
    pub proto: String,
    pub recv_q: u64,
    pub send_q: u64,
    pub local_addr: String,
    pub foreign_addr: String,
    pub state: String,
}

/// What a [`SocketEntry`] holds, as the contracts speak of it.
pub struct SocketEntryView {
    pub proto: Seq<char>,
    pub recv_q: u64,
    pub send_q: u64,
    pub local_addr: Seq<char>,
    pub foreign_addr: Seq<char>,
    pub state: Seq<char>,
}

impl View for SocketEntry {
    type V = SocketEntryView;

    open spec fn view(&self) -> SocketEntryView {
        SocketEntryView {
            proto: self.proto@,
            recv_q: self.recv_q,
            send_q: self.send_q,
            local_addr: self.local_addr@,
            foreign_addr: self.foreign_addr@,
            state: self.state@,
        }
    }
}

/// One unit from `systemctl list-units` output.
#[derive(Clone, Debug)]
pub struct SystemdUnit {
    pub unit: String,
    pub load: String,
    pub active: String,
    pub sub: String,
    pub description: String,
}

/// What a [`SystemdUnit`] holds, as the contracts speak of it.
pub struct SystemdUnitView {
    pub unit: Seq<char>,
    pub load: Seq<char>,
    pub active: Seq<char>,
    pub sub: Seq<char>,
    pub description: Seq<char>,
}

impl View for SystemdUnit {
    type V = SystemdUnitView;

    open spec fn view(&self) -> SystemdUnitView {
        SystemdUnitView {
            unit: self.unit@,
            load: self.load@,
            active: self.active@,
            sub: self.sub@,
            description: self.description@,
        }
    }
}

/// One entry from `mount` output.
#[derive(Clone, Debug)]
pub struct MountEntry {
    pub device: String,
    pub mountpoint: String,
    pub fstype: String,
    pub options: Vec<String>,
}

/// What a [`MountEntry`] holds, as the contracts speak of it.
pub struct MountEntryView {
    pub device: Seq<char>,
    pub mountpoint: Seq<char>,
    pub fstype: Seq<char>,
    pub options: Seq<Seq<char>>,
}

impl View for MountEntry {
    type V = MountEntryView;

    open spec fn view(&self) -> MountEntryView {
        MountEntryView {
            device: self.device@,
            mountpoint: self.mountpoint@,
            fstype: self.fstype@,
            options: views(self.options@),
        }
    }
}

/// The hardware records of a snapshot.
#[derive(Clone, Debug)]
pub struct HardwareSection {
    pub memory: Vec<MemoryRow>,
    pub block_devices: Vec<BlockDevice>,
    pub blkid: Vec<KeyValue>,
    pub pci_devices: Vec<PciDevice>,
    pub usb_devices: Vec<UsbDevice>,
}

/// The service-manager records of a snapshot.
#[derive(Clone, Debug)]
pub struct SystemdStatusSection {
    pub services: Vec<SystemdUnit>,
    pub failed: TextLines,
    pub failed_units: TextLines,
    pub timers: TextLines,
    pub jobs: TextLines,
}

/// The network records of a snapshot.
#[derive(Clone, Debug)]
pub struct NetworkSection {
    pub ip_addr: TextLines,
    pub ip_route: TextLines,
    pub ip_rule: TextLines,
    pub resolvectl_status: TextLines,
    pub resolv_conf: TextLines,
}

/// The file-system records of a snapshot.
#[derive(Clone, Debug)]
pub struct FilesystemSection {
    pub mounts: Vec<MountEntry>,
    pub findmnt: TextLines,
    pub block_devices: Vec<BlockDevice>,
    pub df: Vec<DfEntry>,
    pub df_inodes: Vec<DfEntry>,
    pub du_log_tmp: Vec<DiskUsage>,
    pub du_media_card: Vec<DiskUsage>,
}

} // verus!
