use usb_resolver::{DeviceRule, MatchMethod, RawDeviceInfo};

fn device(
    vid: u16,
    pid: u16,
    serial: Option<&str>,
    port_path: &str,
    system_path: &str,
) -> RawDeviceInfo {
    RawDeviceInfo {
        vid,
        pid,
        serial: serial.map(|s| s.to_string()),
        port_path: port_path.to_string(),
        system_path: system_path.to_string(),
        system_path_alt: None,
    }
}

fn rule(
    role: &str,
    vid: u16,
    pid: u16,
    serial: Option<&str>,
    port_path: Option<&str>,
) -> DeviceRule {
    DeviceRule {
        role: role.to_string(),
        vid,
        pid,
        serial: serial.map(|s| s.to_string()),
        port_path: port_path.map(|s| s.to_string()),
    }
}

#[test]
fn serial_match_beats_port_path() {
    // A rule with both serial and port path set, and a device agreeing on
    // both, always matches by serial, never by port path.
    let r = rule("cam", 4292, 60000, Some("SN01"), Some("1-1.2"));
    let d = device(4292, 60000, Some("SN01"), "1-1.2", "/dev/ttyUSB0");
    assert_eq!(r.matches(&d), Some(MatchMethod::SerialExact));
}

#[test]
fn loose_rule_matches_on_vid_pid_alone() {
    let r = rule("sensor", 0x1AE4, 0x56B2, None, None);
    let d = device(0x1AE4, 0x56B2, Some("whatever"), "any-port", "/dev/x");
    assert_eq!(r.matches(&d), Some(MatchMethod::VidPidOnly));
    let d2 = device(0x1AE4, 0x56B2, None, "other-port", "/dev/y");
    assert_eq!(r.matches(&d2), Some(MatchMethod::VidPidOnly));
}

#[test]
fn vid_pid_gate_is_mandatory() {
    // Whenever vid or pid differ the result is no match, regardless of the
    // serial and path fields.
    let d = device(4292, 60000, Some("SN01"), "1-1.2", "/dev/ttyUSB0");
    let wrong_vid = rule("cam", 4293, 60000, Some("SN01"), Some("1-1.2"));
    assert_eq!(wrong_vid.matches(&d), None);
    let wrong_pid = rule("cam", 4292, 59999, Some("SN01"), Some("1-1.2"));
    assert_eq!(wrong_pid.matches(&d), None);
    let loose_wrong = rule("cam", 1, 2, None, None);
    assert_eq!(loose_wrong.matches(&d), None);
}

#[test]
fn serial_mismatch_with_matching_port_uses_port_path() {
    // The port-path strategy accepts before the topological fallback can be
    // reached, which is why the fallback method never appears.
    let r = rule("cam", 4292, 60000, Some("SN01"), Some("1-1.2"));
    let d = device(4292, 60000, Some("SN02"), "1-1.2", "/dev/ttyUSB0");
    assert_eq!(r.matches(&d), Some(MatchMethod::PortPath));
}

#[test]
fn serial_mismatch_without_port_is_no_match() {
    let r = rule("cam", 4292, 60000, Some("SN01"), None);
    let d = device(4292, 60000, Some("SN02"), "1-1.2", "/dev/ttyUSB0");
    assert_eq!(r.matches(&d), None);
}

#[test]
fn rule_serial_absent_device_serial_present_falls_through() {
    // Only the rule's configured fields decide which strategies apply.
    let r = rule("cam", 4292, 60000, None, Some("1-1.2"));
    let d = device(4292, 60000, Some("SN01"), "1-1.2", "/dev/ttyUSB0");
    assert_eq!(r.matches(&d), Some(MatchMethod::PortPath));
    let d2 = device(4292, 60000, Some("SN01"), "2-0", "/dev/ttyUSB1");
    assert_eq!(r.matches(&d2), None);
}
