//! The report: each device's statistics, joined with what the inventory
//! snapshot knows of the device.
use vstd::prelude::*;

use crate::detector::dev_prefix;
use crate::event::{class_log, day_log, Ereport};
use crate::histogram::{hist_view, histogram};
use crate::hwgrok::{HwGrok, HwGrokDriveBay, HwGrokPciDevices};
use crate::pipeline::has_prefix;
use crate::table::{DeviceHash, DeviceHashEnt};

verus! {

/// What a drive bay tells of the disk it holds.
pub struct DiskInfo {
    pub label: String,
    pub manufacturer: String,
    pub model: String,
    pub serial: String,
    pub firmware: String,
}

/// What the inventory tells of a PCI device.
pub struct PciInfo {
    pub vendor: String,
    pub device: String,
    pub subsystem: String,
}

/// What the inventory adds to a device's report.
pub enum Enrichment {
    /// The device's path names neither a disk nor a PCI device.
    Absent,
    /// Every drive bay whose disk has the device's path, in inventory order.
    Disks(Vec<DiskInfo>),
    /// Every PCI device with the device's path, in inventory order.
    Pcis(Vec<PciInfo>),
}

/// The report of one device.
pub struct DeviceReport {
    pub key: String,
    pub enrichment: Enrichment,
    pub total: usize,
    /// Each class with its count.
    pub classes: Vec<(String, usize)>,
    /// Each day with its count, in first-seen order.
    pub days: Vec<(String, usize)>,
}

pub open spec fn pci_prefix() -> Seq<char> {
    seq!['/', 'p', 'c', 'i']
}

pub open spec fn disk_word() -> Seq<char> {
    seq!['d', 'i', 's', 'k']
}

/// Whether `sub` occurs in `s`.
pub open spec fn occurs_in(sub: Seq<char>, s: Seq<char>) -> bool {
    exists|i: int| 0 <= i && i + sub.len() <= s.len() && #[trigger] s.subrange(i, i + sub.len()) == sub
}

/// The device path of an identity key: the key without its `dev://`
/// scheme, or the key itself for other schemes.
pub open spec fn device_path_of(key: Seq<char>) -> Seq<char> {
    if dev_prefix().is_prefix_of(key) {
        key.subrange(dev_prefix().len() as int, key.len() as int)
    } else {
        key
    }
}

/// Whether a path names a disk below a PCI device.
pub open spec fn is_disk_path(p: Seq<char>) -> bool {
    pci_prefix().is_prefix_of(p) && occurs_in(disk_word(), p)
}

pub open spec fn bay_matches(b: HwGrokDriveBay, p: Seq<char>) -> bool {
    b.bay_disk matches Some(d) && d.disk_device_path@ == p
}

pub open spec fn pci_matches(d: HwGrokPciDevices, p: Seq<char>) -> bool {
    d.pci_device_path@ == p
}

/// Label, manufacturer, model, serial number and firmware revision.
pub type DiskView = (Seq<char>, Seq<char>, Seq<char>, Seq<char>, Seq<char>);

/// Vendor, device and subsystem names.
pub type PciView = (Seq<char>, Seq<char>, Seq<char>);

pub open spec fn disk_info_view(d: DiskInfo) -> DiskView {
    (d.label@, d.manufacturer@, d.model@, d.serial@, d.firmware@)
}

pub open spec fn pci_info_view(d: PciInfo) -> PciView {
    (d.vendor@, d.device@, d.subsystem@)
}

/// What a drive bay that holds a disk tells of it.
pub open spec fn bay_view(b: HwGrokDriveBay) -> DiskView {
    match b.bay_disk {
        Some(d) => (
            b.bay_label@,
            d.disk_manufacturer@,
            d.disk_model@,
            d.disk_serial_number@,
            d.disk_firmware_rev@,
        ),
        None => (b.bay_label@, Seq::empty(), Seq::empty(), Seq::empty(), Seq::empty()),
    }
}

pub open spec fn pci_view(d: HwGrokPciDevices) -> PciView {
    (d.pci_vendor_name@, d.pci_device_name@, d.pci_subsystem_name@)
}

/// The drive bays whose disk has path `p`, in order.
pub open spec fn matching_disks(bays: Seq<HwGrokDriveBay>, p: Seq<char>) -> Seq<DiskView>
    decreases bays.len(),
{
    if bays.len() == 0 {
        Seq::empty()
    } else if bay_matches(bays.last(), p) {
        matching_disks(bays.drop_last(), p).push(bay_view(bays.last()))
    } else {
        matching_disks(bays.drop_last(), p)
    }
}

/// The PCI devices with path `p`, in order.
pub open spec fn matching_pcis(devs: Seq<HwGrokPciDevices>, p: Seq<char>) -> Seq<PciView>
    decreases devs.len(),
{
    if devs.len() == 0 {
        Seq::empty()
    } else if pci_matches(devs.last(), p) {
        matching_pcis(devs.drop_last(), p).push(pci_view(devs.last()))
    } else {
        matching_pcis(devs.drop_last(), p)
    }
}

/// The enrichment owed to the device with identity key `key`: a disk path
/// gets every drive bay whose disk has that path, another PCI path every
/// PCI device with that path, and any other key nothing.
pub open spec fn enrichment_of(key: Seq<char>, inv: HwGrok, en: Enrichment) -> bool {
    let p = device_path_of(key);
    if is_disk_path(p) {
        en matches Enrichment::Disks(v) && v@.map_values(|d: DiskInfo| disk_info_view(d))
            == matching_disks(inv.drive_bays@, p)
    } else if pci_prefix().is_prefix_of(p) {
        en matches Enrichment::Pcis(v) && v@.map_values(|d: PciInfo| pci_info_view(d))
            == matching_pcis(inv.pci_devices@, p)
    } else {
        en is Absent
    }
}

/// Whether `sub` occurs in `s`.
pub fn contains_str(s: &str, sub: &str) -> (r: bool)
    ensures
        r == occurs_in(sub@, s@),
{
    let n = s.unicode_len();
    let m = sub.unicode_len();
    if m > n {
        assert(!occurs_in(sub@, s@)) by {
            assert forall|i: int| 0 <= i && i + sub@.len() <= s@.len() implies #[trigger] s@.subrange(
                i,
                i + sub@.len(),
            ) != sub@ by {}
        }
        return false;
    }
    let mut i: usize = 0;
    while i <= n - m
        invariant
            m <= n,
            n == s@.len(),
            m == sub@.len(),
            forall|k: int| 0 <= k < i ==> #[trigger] s@.subrange(k, k + m) != sub@,
        decreases n - m + 1 - i,
    {
        let rest = s.substring_char(i, n);
        if has_prefix(rest, sub) {
            assert(rest@.subrange(0, m as int) =~= s@.subrange(i as int, i + m));
            return true;
        }
        assert(rest@.subrange(0, m as int) =~= s@.subrange(i as int, i + m));
        i = i + 1;
    }
    assert forall|k: int| 0 <= k && k + sub@.len() <= s@.len() implies #[trigger] s@.subrange(
        k,
        k + sub@.len(),
    ) != sub@ by {}
    false
}

/// The device path of an identity key.
pub fn device_path(key: &String) -> (r: String)
    ensures
        r@ == device_path_of(key@),
{
    proof {
        reveal_strlit("dev://");
        assert("dev://"@ =~= dev_prefix());
    }
    if has_prefix(key.as_str(), "dev://") {
        key.as_str().substring_char(6, key.as_str().unicode_len()).to_string()
    } else {
        key.clone()
    }
}

/// Looks the device's path up in the inventory.
pub fn enrichment(key: &String, inv: &HwGrok) -> (r: Enrichment)
    ensures
        enrichment_of(key@, *inv, r),
{
    let p = device_path(key);
    proof {
        reveal_strlit("/pci");
        reveal_strlit("disk");
        assert("/pci"@ =~= pci_prefix());
        assert("disk"@ =~= disk_word());
    }
    let pci = has_prefix(p.as_str(), "/pci");
    if pci && contains_str(p.as_str(), "disk") {
        let bays = &inv.drive_bays;
        let mut v: Vec<DiskInfo> = Vec::new();
        let mut i: usize = 0;
        while i < bays.len()
            invariant
                i <= bays@.len(),
                v@.map_values(|d: DiskInfo| disk_info_view(d)) == matching_disks(
                    bays@.subrange(0, i as int),
                    p@,
                ),
            decreases bays@.len() - i,
        {
            let ghost pre = bays@.subrange(0, i + 1);
            assert(pre.drop_last() =~= bays@.subrange(0, i as int));
            assert(pre.last() == bays@[i as int]);
            let ghost before = v@;
            match &bays[i].bay_disk {
                Some(d) => {
                    if d.disk_device_path == p {
                        v.push(
                            DiskInfo {
                                label: bays[i].bay_label.clone(),
                                manufacturer: d.disk_manufacturer.clone(),
                                model: d.disk_model.clone(),
                                serial: d.disk_serial_number.clone(),
                                firmware: d.disk_firmware_rev.clone(),
                            },
                        );
                        assert(v@.map_values(|d: DiskInfo| disk_info_view(d)) =~= before.map_values(
                            |d: DiskInfo| disk_info_view(d),
                        ).push(bay_view(bays@[i as int])));
                    }
                },
                None => {},
            }
            i = i + 1;
        }
        assert(bays@.subrange(0, bays@.len() as int) =~= bays@);
        Enrichment::Disks(v)
    } else if pci {
        let devs = &inv.pci_devices;
        let mut v: Vec<PciInfo> = Vec::new();
        let mut i: usize = 0;
        while i < devs.len()
            invariant
                i <= devs@.len(),
                v@.map_values(|d: PciInfo| pci_info_view(d)) == matching_pcis(
                    devs@.subrange(0, i as int),
                    p@,
                ),
            decreases devs@.len() - i,
        {
            let ghost pre = devs@.subrange(0, i + 1);
            assert(pre.drop_last() =~= devs@.subrange(0, i as int));
            assert(pre.last() == devs@[i as int]);
            let ghost before = v@;
            let d = &devs[i];
            if d.pci_device_path == p {
                v.push(
                    PciInfo {
                        vendor: d.pci_vendor_name.clone(),
                        device: d.pci_device_name.clone(),
                        subsystem: d.pci_subsystem_name.clone(),
                    },
                );
                assert(v@.map_values(|d: PciInfo| pci_info_view(d)) =~= before.map_values(
                    |d: PciInfo| pci_info_view(d),
                ).push(pci_view(devs@[i as int])));
            }
            i = i + 1;
        }
        assert(devs@.subrange(0, devs@.len() as int) =~= devs@);
        Enrichment::Pcis(v)
    } else {
        Enrichment::Absent
    }
}

/// Whether `r` reports the device with key `key`, whose reports are `evs`.
pub open spec fn report_of(r: DeviceReport, key: Seq<char>, evs: Seq<Ereport>, inv: HwGrok) -> bool {
    &&& r.key@ == key
    &&& enrichment_of(key, inv, r.enrichment)
    &&& r.total == evs.len()
    &&& hist_view(r.classes@) == histogram(class_log(evs))
    &&& hist_view(r.days@) == histogram(day_log(evs))
}

/// The report of one device.
pub fn device_report(key: &String, ent: &DeviceHashEnt, inv: &HwGrok) -> (r: DeviceReport)
    requires
        ent.wf(),
    ensures
        report_of(r, key@, ent@, *inv),
{
    DeviceReport {
        key: key.clone(),
        enrichment: enrichment(key, inv),
        total: ent.total(),
        classes: ent.class_counts(),
        days: ent.day_counts(),
    }
}

/// The report of every device in the table, in the table's key order.
pub fn assemble_report(table: &DeviceHash, inv: &HwGrok) -> (r: Vec<DeviceReport>)
    requires
        table.wf(),
    ensures
        r@.len() == table.key_seq().len(),
        forall|k: Seq<char>|
            table@.contains_key(k) <==> exists|i: int| 0 <= i < r@.len() && (#[trigger] r@[i]).key@ == k,
        forall|i: int, j: int|
            0 <= i < j < r@.len() ==> (#[trigger] r@[i]).key@ != (#[trigger] r@[j]).key@,
        forall|i: int|
            0 <= i < r@.len() ==> report_of(
                #[trigger] r@[i],
                table.key_seq()[i],
                table@[table.key_seq()[i]],
                *inv,
            ),
{
    let mut r: Vec<DeviceReport> = Vec::new();
    let n = table.len();
    let mut i: usize = 0;
    while i < n
        invariant
            table.wf(),
            n == table.key_seq().len(),
            i <= n,
            r@.len() == i,
            forall|k: int|
                0 <= k < i ==> report_of(
                    #[trigger] r@[k],
                    table.key_seq()[k],
                    table@[table.key_seq()[k]],
                    *inv,
                ),
        decreases n - i,
    {
        let rep = device_report(table.key_at(i), table.entry_at(i), inv);
        r.push(rep);
        i = i + 1;
    }
    proof {
        table.lemma_keys();
        let ks = table.key_seq();
        assert forall|k: Seq<char>| table@.contains_key(k) <==> exists|i: int|
            0 <= i < r@.len() && (#[trigger] r@[i]).key@ == k by {
            if table@.contains_key(k) {
                let i = choose|i: int| 0 <= i < ks.len() && ks[i] == k;
                assert(r@[i].key@ == k);
            }
            if exists|i: int| 0 <= i < r@.len() && (#[trigger] r@[i]).key@ == k {
                let i = choose|i: int| 0 <= i < r@.len() && (#[trigger] r@[i]).key@ == k;
                assert(ks[i] == k);
            }
        }
        assert forall|i: int, j: int| 0 <= i < j < r@.len() implies (#[trigger] r@[i]).key@ != (
        #[trigger] r@[j]).key@ by {
            assert(r@[i].key@ == ks[i]);
            assert(r@[j].key@ == ks[j]);
        }
    }
    r
}

} // verus!
