use usb_resolver::reconcile::{compute_cycle_matches, reconcile_cycle};
use usb_resolver::registry::RoleRegistry;
use usb_resolver::{DeviceEvent, DeviceRule, MatchMethod, RawDeviceInfo};

fn device(vid: u16, pid: u16, serial: Option<&str>, system_path: &str) -> RawDeviceInfo {
    RawDeviceInfo {
        vid,
        pid,
        serial: serial.map(|s| s.to_string()),
        port_path: "port".to_string(),
        system_path: system_path.to_string(),
        system_path_alt: None,
    }
}

fn loose_rule(role: &str, vid: u16, pid: u16) -> DeviceRule {
    DeviceRule { role: role.to_string(), vid, pid, serial: None, port_path: None }
}

fn attached_roles(events: &[DeviceEvent]) -> Vec<String> {
    events
        .iter()
        .filter_map(|e| match e {
            DeviceEvent::Attached(rd) => Some(rd.role.clone()),
            DeviceEvent::Detached(_) => None,
        })
        .collect()
}

fn detached_roles(events: &[DeviceEvent]) -> Vec<String> {
    events
        .iter()
        .filter_map(|e| match e {
            DeviceEvent::Detached(role) => Some(role.clone()),
            DeviceEvent::Attached(_) => None,
        })
        .collect()
}

#[test]
fn first_device_in_scan_order_claims_a_loose_rule() {
    // Two devices with identical vid/pid both satisfy a loose rule: only the
    // first encountered in scan order is assigned.
    let rules = vec![loose_rule("sensor", 1, 2)];
    let devices = vec![device(1, 2, None, "/p1"), device(1, 2, None, "/p2")];
    let ms = compute_cycle_matches(&rules, &devices);
    assert_eq!(ms.len(), 1);
    assert_eq!(ms[0].role, "sensor");
    assert_eq!(ms[0].device.system_path, "/p1");
}

#[test]
fn second_device_takes_the_next_free_loose_role() {
    let rules = vec![loose_rule("sensor_a", 1, 2), loose_rule("sensor_b", 1, 2)];
    let devices = vec![device(1, 2, None, "/p1"), device(1, 2, None, "/p2")];
    let ms = compute_cycle_matches(&rules, &devices);
    assert_eq!(ms.len(), 2);
    assert_eq!(ms[0].role, "sensor_a");
    assert_eq!(ms[0].device.system_path, "/p1");
    assert_eq!(ms[1].role, "sensor_b");
    assert_eq!(ms[1].device.system_path, "/p2");
}

#[test]
fn cycle_reports_attaches_for_new_roles_only() {
    let rules = vec![loose_rule("cam", 1, 2), loose_rule("arm", 3, 4)];
    let mut reg = RoleRegistry::new();

    let first = vec![device(1, 2, None, "/p1")];
    let events = reconcile_cycle(&mut reg, &rules, &first);
    assert_eq!(attached_roles(&events), vec!["cam".to_string()]);
    assert!(detached_roles(&events).is_empty());

    // The same snapshot again: the role is continuously present, no events.
    let events = reconcile_cycle(&mut reg, &rules, &first);
    assert!(events.is_empty());

    // A second device appears: exactly one attach for the new role.
    let second = vec![device(1, 2, None, "/p1"), device(3, 4, None, "/p2")];
    let events = reconcile_cycle(&mut reg, &rules, &second);
    assert_eq!(attached_roles(&events), vec!["arm".to_string()]);
    assert!(detached_roles(&events).is_empty());
}

#[test]
fn vanished_device_detaches_its_role_exactly_once() {
    // Polling cycle one binds a role; cycle two's scan omits that path
    // entirely, so exactly one detach for the role is emitted.
    let rules = vec![loose_rule("arm", 3, 4)];
    let mut reg = RoleRegistry::new();
    let events = reconcile_cycle(&mut reg, &rules, &vec![device(3, 4, None, "/p1")]);
    assert_eq!(attached_roles(&events), vec!["arm".to_string()]);

    let events = reconcile_cycle(&mut reg, &rules, &Vec::new());
    assert_eq!(events.len(), 1);
    assert_eq!(detached_roles(&events), vec!["arm".to_string()]);

    // And nothing more on the next empty cycle.
    let events = reconcile_cycle(&mut reg, &rules, &Vec::new());
    assert!(events.is_empty());
}

#[test]
fn attaches_come_before_detaches_within_one_cycle() {
    let rules = vec![loose_rule("cam", 1, 2), loose_rule("arm", 3, 4)];
    let mut reg = RoleRegistry::new();
    reconcile_cycle(&mut reg, &rules, &vec![device(1, 2, None, "/p1")]);

    // The camera disappears and the arm appears in the same cycle.
    let events = reconcile_cycle(&mut reg, &rules, &vec![device(3, 4, None, "/p2")]);
    assert_eq!(events.len(), 2);
    assert!(matches!(&events[0], DeviceEvent::Attached(rd) if rd.role == "arm"));
    assert!(matches!(&events[1], DeviceEvent::Detached(role) if role == "cam"));
}

#[test]
fn role_present_in_both_snapshots_keeps_its_previous_binding() {
    // The role both disappeared (its device at the first path) and stayed
    // claimable (another device satisfies the loose rule) within one cycle:
    // it is treated as continuously present, no event is emitted, and the
    // registry keeps the previously bound path.
    let rules = vec![loose_rule("sensor", 1, 2)];
    let mut reg = RoleRegistry::new();
    let both = vec![device(1, 2, None, "/p1"), device(1, 2, None, "/p2")];
    let events = reconcile_cycle(&mut reg, &rules, &both);
    assert_eq!(attached_roles(&events), vec!["sensor".to_string()]);

    let only_second = vec![device(1, 2, None, "/p2")];
    let events = reconcile_cycle(&mut reg, &rules, &only_second);
    assert!(events.is_empty());
    assert_eq!(reg.path_of(&"sensor".to_string()), Some("/p1".to_string()));

    // Only once the role's rule goes entirely unmatched is it detached, and
    // the waiting device then claims it on the next cycle.
    let events = reconcile_cycle(&mut reg, &rules, &Vec::new());
    assert_eq!(detached_roles(&events), vec!["sensor".to_string()]);
    let events = reconcile_cycle(&mut reg, &rules, &only_second);
    assert_eq!(attached_roles(&events), vec!["sensor".to_string()]);
    assert_eq!(reg.path_of(&"sensor".to_string()), Some("/p2".to_string()));
}

#[test]
fn cycle_match_records_the_method() {
    let rules = vec![DeviceRule {
        role: "cam".to_string(),
        vid: 4292,
        pid: 60000,
        serial: Some("SN01".to_string()),
        port_path: None,
    }];
    let devices = vec![device(4292, 60000, Some("SN01"), "/dev/ttyUSB0")];
    let ms = compute_cycle_matches(&rules, &devices);
    assert_eq!(ms.len(), 1);
    assert_eq!(ms[0].method, MatchMethod::SerialExact);
}
