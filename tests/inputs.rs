use fm_log_report::detector::{str_eq, Detector, HcPair};
use fm_log_report::Config;

#[test]
fn detector_from_fields_by_scheme() {
    let d = Detector::from_fields("dev".to_string(), Some("/pci@0".to_string()), None, None);
    assert_eq!(d.unwrap().get_fmristr(), Some("dev:///pci@0".to_string()));
    let pairs = vec![HcPair { hc_name: "chip".to_string(), hc_id: "0".to_string() }];
    let d = Detector::from_fields("hc".to_string(), None, Some(pairs), None);
    assert_eq!(d.unwrap().get_fmristr(), Some("hc:///chip=0".to_string()));
    let d = Detector::from_fields("fmd".to_string(), None, None, Some("eft".to_string()));
    assert_eq!(d.unwrap().get_fmristr(), Some("fmd:///module/eft".to_string()));
    let d = Detector::from_fields("mem".to_string(), Some("/x".to_string()), None, None);
    assert!(matches!(d, Some(Detector::Unsupported { ref scheme }) if scheme == "mem"));
}

#[test]
fn detector_from_fields_missing_field() {
    assert!(Detector::from_fields("dev".to_string(), None, None, Some("m".to_string())).is_none());
    let d = Detector::from_fields("hc".to_string(), Some("/p".to_string()), None, None).unwrap();
    assert!(matches!(d, Detector::Incomplete { ref scheme } if scheme == "hc"));
    assert_eq!(d.get_fmristr(), None);
    let d = Detector::from_fields("fmd".to_string(), None, Some(vec![]), None).unwrap();
    assert!(matches!(d, Detector::Incomplete { ref scheme } if scheme == "fmd"));
    assert_eq!(d.get_fmristr(), None);
}

#[test]
fn string_equality() {
    assert!(str_eq("dev", "dev"));
    assert!(!str_eq("dev", "devx"));
    assert!(!str_eq("dev", "deV"));
    assert!(str_eq("", ""));
}

#[test]
fn config_keeps_paths() {
    let c = Config::new("log.json".to_string(), Some("hw.json".to_string()));
    assert_eq!(c.fmlog_path, "log.json");
    assert_eq!(c.hwgrok_path, Some("hw.json".to_string()));
    let c = Config::new("log.json".to_string(), None);
    assert_eq!(c.hwgrok_path, None);
}
