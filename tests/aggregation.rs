use fm_log_report::day::{event_day, MAX_DAY_SECS, MIN_DAY_SECS};
use fm_log_report::detector::{Detector, HcPair};
use fm_log_report::event::{Ereport, TimeError};
use fm_log_report::hwgrok::{HwGrok, HwGrokDisk, HwGrokDriveBay, HwGrokPciDevices};
use fm_log_report::pipeline::{
    classify, has_prefix, process_line, process_lines, FatalError, FatalKind, LineFilter,
    LineOutcome, ParsedLine,
};
use fm_log_report::report::{assemble_report, contains_str, device_path, enrichment, Enrichment};
use fm_log_report::table::DeviceHash;

const DAY: i64 = 86_400;

fn hc(pairs: &[(&str, &str)]) -> Detector {
    Detector::Hc {
        hc_list: pairs
            .iter()
            .map(|(n, i)| HcPair { hc_name: n.to_string(), hc_id: i.to_string() })
            .collect(),
    }
}

fn dev(path: &str) -> Detector {
    Detector::Dev { device_path: path.to_string() }
}

fn ereport(class: &str, detector: Detector, secs: i64) -> Ereport {
    Ereport { class: class.to_string(), detector, tod: vec![secs, 0] }
}

fn line(class: &str, detector: Detector, secs: i64) -> ParsedLine {
    ParsedLine { class: Some(class.to_string()), ereport: Some(ereport(class, detector, secs)) }
}

fn ok_run(lines: Vec<ParsedLine>) -> fm_log_report::pipeline::RunResult {
    let r = process_lines(lines);
    assert_eq!(r.fatal, None);
    r
}

fn counts(v: &[(String, usize)]) -> Vec<(&str, usize)> {
    v.iter().map(|(k, c)| (k.as_str(), *c)).collect()
}

#[test]
fn hc_key_lists_components_in_order() {
    let d = hc(&[("a", "1"), ("b", "2")]);
    assert_eq!(d.get_fmristr(), Some("hc:///a=1/b=2".to_string()));
    let e = hc(&[("b", "2"), ("a", "1")]);
    assert_eq!(e.get_fmristr(), Some("hc:///b=2/a=1".to_string()));
    assert_eq!(hc(&[]).get_fmristr(), Some("hc://".to_string()));
}

#[test]
fn dev_key_prefixes_path() {
    assert_eq!(dev("/pci@0/disk@1").get_fmristr(), Some("dev:///pci@0/disk@1".to_string()));
}

#[test]
fn fmd_key_names_module() {
    let d = Detector::Fmd { mod_name: "zfs-diagnosis".to_string() };
    assert_eq!(d.get_fmristr(), Some("fmd:///module/zfs-diagnosis".to_string()));
}

#[test]
fn unsupported_scheme_has_no_key() {
    let d = Detector::Unsupported { scheme: "mem".to_string() };
    assert_eq!(d.get_fmristr(), None);
}

#[test]
fn event_day_formats_utc_dates() {
    assert_eq!(event_day(0), Some("1970-01-01".to_string()));
    assert_eq!(event_day(1_000_000_000), Some("2001-09-09".to_string()));
    assert_eq!(event_day(-1), Some("1969-12-31".to_string()));
    assert_eq!(event_day(DAY - 1), Some("1970-01-01".to_string()));
    assert_eq!(event_day(i64::MAX), None);
    assert_eq!(event_day(i64::MIN), None);
    assert!(event_day(8_100_000_000_000).is_some());
    assert!(event_day(-8_300_000_000_000).is_some());
    assert!(event_day(MIN_DAY_SECS).is_some());
    assert!(event_day(MAX_DAY_SECS).is_some());
    assert_eq!(event_day(MIN_DAY_SECS - 1), None);
    assert_eq!(event_day(MAX_DAY_SECS + 1), None);
}

#[test]
fn n_events_one_key_add_up() {
    let mut t = DeviceHash::new();
    let classes = ["ereport.a", "ereport.b", "ereport.a", "ereport.c", "ereport.a"];
    for (i, c) in classes.iter().enumerate() {
        let r = t.record("k".to_string(), ereport(c, dev("/x"), (i as i64) * DAY / 2));
        assert_eq!(r, Ok(()));
    }
    let e = t.get(&"k".to_string()).unwrap();
    assert_eq!(e.total(), 5);
    assert_eq!(e.ereports().len(), 5);
    let ch = e.class_counts();
    let dh = e.day_counts();
    assert_eq!(ch.iter().map(|p| p.1).sum::<usize>(), 5);
    assert_eq!(dh.iter().map(|p| p.1).sum::<usize>(), 5);
    assert_eq!(counts(&ch), vec![("ereport.a", 3), ("ereport.b", 1), ("ereport.c", 1)]);
    assert_eq!(
        counts(&dh),
        vec![("1970-01-01", 2), ("1970-01-02", 2), ("1970-01-03", 1)]
    );
}

#[test]
fn day_order_is_first_seen() {
    let mut t = DeviceHash::new();
    for secs in [3 * DAY, DAY, 3 * DAY + 5, 2 * DAY, DAY + 7] {
        t.record("k".to_string(), ereport("ereport.x", dev("/x"), secs)).unwrap();
    }
    let e = t.get(&"k".to_string()).unwrap();
    assert_eq!(e.day_order(), vec!["1970-01-04", "1970-01-02", "1970-01-03"]);
}

#[test]
fn same_day_two_classes() {
    let mut t = DeviceHash::new();
    t.record("k".to_string(), ereport("ereport.io.a", dev("/x"), 100)).unwrap();
    t.record("k".to_string(), ereport("ereport.io.b", dev("/x"), 200)).unwrap();
    let e = t.get(&"k".to_string()).unwrap();
    assert_eq!(counts(&e.class_counts()), vec![("ereport.io.a", 1), ("ereport.io.b", 1)]);
    assert_eq!(counts(&e.day_counts()), vec![("1970-01-01", 2)]);
}

#[test]
fn keys_are_kept_apart() {
    let mut t = DeviceHash::new();
    t.record("a".to_string(), ereport("ereport.x", dev("/a"), 0)).unwrap();
    t.record("b".to_string(), ereport("ereport.x", dev("/b"), 0)).unwrap();
    t.record("a".to_string(), ereport("ereport.y", dev("/a"), 0)).unwrap();
    assert_eq!(t.len(), 2);
    assert_eq!(t.key_at(0), "a");
    assert_eq!(t.key_at(1), "b");
    assert_eq!(t.get(&"a".to_string()).unwrap().total(), 2);
    assert_eq!(t.get(&"b".to_string()).unwrap().total(), 1);
    assert!(t.get(&"c".to_string()).is_none());
}

#[test]
fn record_rejects_missing_or_far_time() {
    let mut t = DeviceHash::new();
    let mut e = ereport("ereport.x", dev("/a"), 0);
    e.tod = vec![];
    assert_eq!(t.record("a".to_string(), e), Err(TimeError::Missing));
    let e = ereport("ereport.x", dev("/a"), i64::MAX);
    assert_eq!(t.record("a".to_string(), e), Err(TimeError::OutOfRange));
    assert_eq!(t.len(), 0);
    let e = ereport("ereport.x", dev("/a"), 8_100_000_000_000);
    assert_eq!(t.record("a".to_string(), e), Ok(()));
    assert_eq!(t.len(), 1);
}

#[test]
fn class_filter() {
    assert_eq!(classify("ereport.fs.zfs.io"), LineFilter::Filesystem);
    assert_eq!(classify("ereport.fm.fmd.log_event"), LineFilter::FmdLog);
    assert_eq!(classify("list.suspect"), LineFilter::NotEreport);
    assert_eq!(classify("ereport"), LineFilter::NotEreport);
    assert_eq!(classify("ereport.io.pciex.rc.ce"), LineFilter::Accepted);
    assert_eq!(classify("ereport.fm.fmd.other"), LineFilter::Accepted);
}

#[test]
fn filtered_lines_make_no_entry() {
    let lines = vec![
        ParsedLine { class: Some("ereport.fs.zfs.io".to_string()), ereport: None },
        ParsedLine { class: Some("ereport.fm.fmd.log_event".to_string()), ereport: None },
    ];
    let r = ok_run(lines);
    assert_eq!(r.table.len(), 0);
    assert!(r.dropped.is_empty());
}

#[test]
fn pipeline_records_and_drops() {
    let lines = vec![
        line("ereport.io.scsi.cmd", dev("/pci@0/disk@1"), 0),
        line("ereport.cpu.intel.l2", hc(&[("motherboard", "0"), ("chip", "1")]), DAY),
        line("ereport.x", Detector::Unsupported { scheme: "mem".to_string() }, 0),
        ParsedLine { class: Some("resource.fm.asru.ok".to_string()), ereport: None },
        line("ereport.io.scsi.cmd", dev("/pci@0/disk@1"), 1),
    ];
    let r = ok_run(lines);
    assert_eq!(r.dropped, vec![2]);
    assert_eq!(r.table.len(), 2);
    assert_eq!(r.table.key_at(0), "dev:///pci@0/disk@1");
    assert_eq!(r.table.key_at(1), "hc:///motherboard=0/chip=1");
    assert_eq!(r.table.entry_at(0).total(), 2);
}

#[test]
fn process_line_outcomes() {
    let mut t = DeviceHash::new();
    let o = process_line(&mut t, line("ereport.a", dev("/a"), 0));
    assert_eq!(o, Ok(LineOutcome::Recorded));
    let o = process_line(&mut t, ParsedLine { class: Some("x".to_string()), ereport: None });
    assert_eq!(o, Ok(LineOutcome::Skipped(LineFilter::NotEreport)));
    let o = process_line(&mut t, ParsedLine { class: None, ereport: None });
    assert_eq!(o, Err(FatalKind::MalformedLine));
}

#[test]
fn malformed_line_is_fatal() {
    let lines = vec![
        line("ereport.a", dev("/a"), 0),
        ParsedLine { class: Some("ereport.io.x".to_string()), ereport: None },
        line("ereport.b", dev("/b"), 0),
    ];
    let r = process_lines(lines);
    assert_eq!(r.fatal, Some(FatalError { line: 1, kind: FatalKind::MalformedEreport }));
    assert_eq!(r.table.len(), 1);
    let lines = vec![ParsedLine { class: None, ereport: None }];
    assert_eq!(
        process_lines(lines).fatal,
        Some(FatalError { line: 0, kind: FatalKind::MalformedLine })
    );
    let lines = vec![
        line("ereport.x", Detector::Unsupported { scheme: "mem".to_string() }, 0),
        ParsedLine { class: None, ereport: None },
    ];
    let r = process_lines(lines);
    assert_eq!(r.dropped, vec![0]);
    assert_eq!(r.fatal, Some(FatalError { line: 1, kind: FatalKind::MalformedLine }));
    let mut bad = line("ereport.a", dev("/a"), 0);
    bad.ereport.as_mut().unwrap().tod.clear();
    assert_eq!(
        process_lines(vec![bad]).fatal,
        Some(FatalError { line: 0, kind: FatalKind::BadTime(TimeError::Missing) })
    );
}

fn inventory() -> HwGrok {
    let mut inv = HwGrok::default();
    inv.drive_bays.push(HwGrokDriveBay { bay_label: "Empty".to_string(), ..Default::default() });
    inv.drive_bays.push(HwGrokDriveBay {
        bay_label: "Bay 3".to_string(),
        bay_disk: Some(HwGrokDisk {
            disk_manufacturer: "SEAGATE".to_string(),
            disk_model: "ST4000".to_string(),
            disk_serial_number: "Z1Z2".to_string(),
            disk_firmware_rev: "0004".to_string(),
            disk_device_path: "/pci@0/disk@1".to_string(),
            ..Default::default()
        }),
        ..Default::default()
    });
    inv.pci_devices.push(HwGrokPciDevices {
        pci_vendor_name: "Intel".to_string(),
        pci_device_name: "X710".to_string(),
        pci_subsystem_name: "Ethernet".to_string(),
        pci_device_path: "/pci@0/pci8086@3".to_string(),
        ..Default::default()
    });
    inv
}

#[test]
fn disk_report_is_enriched() {
    let lines = vec![line("ereport.io.scsi.cmd.disk.tran", dev("/pci@0/disk@1"), 0)];
    let r = ok_run(lines);
    let rep = assemble_report(&r.table, &inventory());
    assert_eq!(rep.len(), 1);
    assert_eq!(rep[0].key, "dev:///pci@0/disk@1");
    assert_eq!(rep[0].total, 1);
    match &rep[0].enrichment {
        Enrichment::Disks(v) => {
            assert_eq!(v.len(), 1);
            assert_eq!(v[0].label, "Bay 3");
            assert_eq!(v[0].manufacturer, "SEAGATE");
            assert_eq!(v[0].model, "ST4000");
            assert_eq!(v[0].serial, "Z1Z2");
            assert_eq!(v[0].firmware, "0004");
        }
        _ => panic!("no disk enrichment"),
    }
    assert_eq!(counts(&rep[0].classes), vec![("ereport.io.scsi.cmd.disk.tran", 1)]);
    assert_eq!(counts(&rep[0].days), vec![("1970-01-01", 1)]);
}

#[test]
fn pci_and_absent_enrichment() {
    let inv = inventory();
    match enrichment(&"dev:///pci@0/pci8086@3".to_string(), &inv) {
        Enrichment::Pcis(v) => {
            assert_eq!(v.len(), 1);
            assert_eq!(v[0].vendor, "Intel");
            assert_eq!(v[0].device, "X710");
            assert_eq!(v[0].subsystem, "Ethernet");
        }
        _ => panic!("no pci enrichment"),
    }
    assert!(matches!(enrichment(&"dev:///pci@0/disk@9".to_string(), &inv), Enrichment::Disks(v) if v.is_empty()));
    assert!(matches!(enrichment(&"dev:///pci@0/pci1@1".to_string(), &inv), Enrichment::Pcis(v) if v.is_empty()));
    assert!(matches!(enrichment(&"hc:///chip=0".to_string(), &inv), Enrichment::Absent));
}

#[test]
fn every_match_is_reported() {
    let mut inv = inventory();
    inv.pci_devices.push(HwGrokPciDevices {
        pci_vendor_name: "Broadcom".to_string(),
        pci_device_path: "/pci@0/pci8086@3".to_string(),
        ..Default::default()
    });
    inv.drive_bays.push(HwGrokDriveBay {
        bay_label: "Bay 7".to_string(),
        bay_disk: Some(HwGrokDisk {
            disk_model: "X".to_string(),
            disk_device_path: "/pci@0/disk@1".to_string(),
            ..Default::default()
        }),
        ..Default::default()
    });
    match enrichment(&"dev:///pci@0/pci8086@3".to_string(), &inv) {
        Enrichment::Pcis(v) => {
            let vendors: Vec<&str> = v.iter().map(|d| d.vendor.as_str()).collect();
            assert_eq!(vendors, vec!["Intel", "Broadcom"]);
        }
        _ => panic!("no pci enrichment"),
    }
    match enrichment(&"dev:///pci@0/disk@1".to_string(), &inv) {
        Enrichment::Disks(v) => {
            let labels: Vec<&str> = v.iter().map(|d| d.label.as_str()).collect();
            assert_eq!(labels, vec!["Bay 3", "Bay 7"]);
        }
        _ => panic!("no disk enrichment"),
    }
}

#[test]
fn string_helpers() {
    assert!(has_prefix("ereport.io", "ereport."));
    assert!(!has_prefix("ereport", "ereport."));
    assert!(contains_str("/pci@0/disk@1", "disk"));
    assert!(!contains_str("/pci@0/dis", "disk"));
    assert!(contains_str("disk", "disk"));
    assert_eq!(device_path(&"dev:///pci@0".to_string()), "/pci@0");
    assert_eq!(device_path(&"hc:///a=1".to_string()), "hc:///a=1");
}
