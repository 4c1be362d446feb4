use usb_resolver::supervisor::{MonitorPhase, Supervisor};
use usb_resolver::{DeviceEvent, DeviceRule, MatchMethod, RawDeviceInfo};

fn device(vid: u16, pid: u16, serial: Option<&str>, system_path: &str) -> RawDeviceInfo {
    RawDeviceInfo {
        vid,
        pid,
        serial: serial.map(|s| s.to_string()),
        port_path: "port".to_string(),
        system_path: system_path.to_string(),
        system_path_alt: None,
    }
}

fn rule(role: &str, vid: u16, pid: u16, serial: Option<&str>) -> DeviceRule {
    DeviceRule {
        role: role.to_string(),
        vid,
        pid,
        serial: serial.map(|s| s.to_string()),
        port_path: None,
    }
}

#[test]
fn lifecycle_phases() {
    let mut sup = Supervisor::new(Vec::new());
    assert_eq!(sup.phase, MonitorPhase::Init);
    sup.initial_scan(&Vec::new());
    assert_eq!(sup.phase, MonitorPhase::AttemptEventDriven);
    sup.subscription_result(true);
    assert_eq!(sup.phase, MonitorPhase::EventLoop);
    sup.source_terminated();
    assert_eq!(sup.phase, MonitorPhase::PollingLoop);
}

#[test]
fn failed_subscription_falls_back_to_polling() {
    let mut sup = Supervisor::new(Vec::new());
    sup.initial_scan(&Vec::new());
    sup.subscription_result(false);
    assert_eq!(sup.phase, MonitorPhase::PollingLoop);
}

#[test]
fn initial_scan_reports_the_complete_starting_inventory() {
    let rules = vec![rule("cam", 1, 2, None), rule("arm", 3, 4, None)];
    let mut sup = Supervisor::new(rules);
    let devices = vec![
        device(9, 9, None, "/ignored"),
        device(1, 2, None, "/p1"),
        device(3, 4, None, "/p2"),
    ];
    let events = sup.initial_scan(&devices);
    assert_eq!(events.len(), 2);
    assert!(matches!(&events[0], DeviceEvent::Attached(rd) if rd.role == "cam"));
    assert!(matches!(&events[1], DeviceEvent::Attached(rd) if rd.role == "arm"));
}

#[test]
fn serial_matched_device_attaches_with_the_serial_method() {
    let rules = vec![rule("cam", 4292, 60000, Some("SN01"))];
    let mut sup = Supervisor::new(rules);
    sup.initial_scan(&Vec::new());
    sup.subscription_result(true);

    let ev = sup.handle_attach(&device(4292, 60000, Some("SN01"), "/dev/ttyUSB0"));
    match ev {
        Some(DeviceEvent::Attached(rd)) => {
            assert_eq!(rd.role, "cam");
            assert_eq!(rd.match_method, MatchMethod::SerialExact);
            assert_eq!(rd.device.serial, Some("SN01".to_string()));
        }
        _ => panic!("expected an attach event"),
    }
}

#[test]
fn event_driven_attach_takes_the_first_rule_in_configured_order() {
    // Rule list order is significant: the serial-mismatched device does not
    // match the first rule, but a later rule for the same role can still
    // accept it; the first acceptance wins.
    let rules = vec![
        rule("cam", 4292, 60000, Some("SN01")),
        DeviceRule {
            role: "cam".to_string(),
            vid: 4292,
            pid: 60000,
            serial: None,
            port_path: Some("1-1.2".to_string()),
        },
    ];
    let mut sup = Supervisor::new(rules);
    sup.initial_scan(&Vec::new());
    sup.subscription_result(true);

    let mut dev = device(4292, 60000, Some("SN02"), "/dev/ttyUSB0");
    dev.port_path = "1-1.2".to_string();
    let ev = sup.handle_attach(&dev);
    match ev {
        Some(DeviceEvent::Attached(rd)) => {
            assert_eq!(rd.role, "cam");
            assert_eq!(rd.match_method, MatchMethod::PortPath);
        }
        _ => panic!("expected an attach event"),
    }
}

#[test]
fn occupied_role_ignores_later_devices_until_detach() {
    let rules = vec![rule("sensor", 1, 2, None)];
    let mut sup = Supervisor::new(rules);
    sup.initial_scan(&Vec::new());
    sup.subscription_result(true);

    assert!(sup.handle_attach(&device(1, 2, None, "/p1")).is_some());
    // The second device matching the same loose rule is simply not assigned.
    assert!(sup.handle_attach(&device(1, 2, None, "/p2")).is_none());

    match sup.handle_detach(&"/p1".to_string()) {
        Some(DeviceEvent::Detached(role)) => assert_eq!(role, "sensor"),
        _ => panic!("expected a detach event"),
    }
    // Now the role is free again.
    assert!(sup.handle_attach(&device(1, 2, None, "/p2")).is_some());
}

#[test]
fn duplicate_add_notification_fills_the_next_free_role() {
    // Acceptance depends on the role alone, so a device announced twice can
    // fill a second matching role with the same path -- the first rule's
    // role is taken, the search moves on to the next in configured order.
    let rules = vec![rule("cam", 1, 2, None), rule("aux", 1, 2, None)];
    let mut sup = Supervisor::new(rules);
    sup.initial_scan(&Vec::new());
    sup.subscription_result(true);

    assert!(sup.handle_attach(&device(1, 2, None, "/p1")).is_some());
    match sup.handle_attach(&device(1, 2, None, "/p1")) {
        Some(DeviceEvent::Attached(rd)) => assert_eq!(rd.role, "aux"),
        _ => panic!("expected the second role to accept"),
    }
    // With every matching role taken, a third announcement is a no-op.
    assert!(sup.handle_attach(&device(1, 2, None, "/p1")).is_none());
}

#[test]
fn detach_with_unknown_path_representation_is_a_no_op() {
    let rules = vec![rule("cam", 1, 2, None)];
    let mut sup = Supervisor::new(rules);
    sup.initial_scan(&vec![device(1, 2, None, "/dev/ttyUSB0")]);
    sup.subscription_result(true);
    // The removal notification carries the bus node, not the promoted path.
    assert!(sup.handle_detach(&"/dev/bus/usb/001/005".to_string()).is_none());
    assert_eq!(sup.registry.path_of(&"cam".to_string()), Some("/dev/ttyUSB0".to_string()));
}

#[test]
fn polling_after_fallback_reconciles_against_the_initial_inventory() {
    let rules = vec![rule("cam", 1, 2, None)];
    let mut sup = Supervisor::new(rules);
    let events = sup.initial_scan(&vec![device(1, 2, None, "/p1")]);
    assert_eq!(events.len(), 1);
    sup.subscription_result(false);

    // The device is gone by the first polling cycle.
    let events = sup.poll_cycle(&Vec::new());
    assert_eq!(events.len(), 1);
    assert!(matches!(&events[0], DeviceEvent::Detached(role) if role == "cam"));
}
