use usb_resolver::registry::RoleRegistry;
use usb_resolver::{DeviceEvent, DeviceRule, MatchMethod, RawDeviceInfo};

fn device(vid: u16, pid: u16, system_path: &str) -> RawDeviceInfo {
    RawDeviceInfo {
        vid,
        pid,
        serial: None,
        port_path: "port".to_string(),
        system_path: system_path.to_string(),
        system_path_alt: None,
    }
}

fn rule(role: &str, vid: u16, pid: u16) -> DeviceRule {
    DeviceRule { role: role.to_string(), vid, pid, serial: None, port_path: None }
}

#[test]
fn attach_binds_role_and_path() {
    let mut reg = RoleRegistry::new();
    let r = rule("cam", 1, 2);
    let d = device(1, 2, "/p1");
    let ev = reg.try_attach(&r, &d, MatchMethod::VidPidOnly);
    match ev {
        Some(DeviceEvent::Attached(rd)) => {
            assert_eq!(rd.role, "cam");
            assert_eq!(rd.device.system_path, "/p1");
            assert_eq!(rd.match_method, MatchMethod::VidPidOnly);
        }
        _ => panic!("expected an attach event"),
    }
    assert_eq!(reg.len(), 1);
    assert_eq!(reg.path_of(&"cam".to_string()), Some("/p1".to_string()));
    assert_eq!(reg.role_of(&"/p1".to_string()), Some("cam".to_string()));
}

#[test]
fn occupied_role_rejects_second_device() {
    // First match in enumeration order wins; no replacement.
    let mut reg = RoleRegistry::new();
    let r = rule("cam", 1, 2);
    assert!(reg.try_attach(&r, &device(1, 2, "/p1"), MatchMethod::VidPidOnly).is_some());
    assert!(reg.try_attach(&r, &device(1, 2, "/p2"), MatchMethod::VidPidOnly).is_none());
    assert_eq!(reg.path_of(&"cam".to_string()), Some("/p1".to_string()));
    assert_eq!(reg.len(), 1);
}

#[test]
fn detach_by_path_removes_both_directions() {
    let mut reg = RoleRegistry::new();
    reg.try_attach(&rule("cam", 1, 2), &device(1, 2, "/p1"), MatchMethod::VidPidOnly);
    reg.try_attach(&rule("arm", 3, 4), &device(3, 4, "/p2"), MatchMethod::VidPidOnly);
    let ev = reg.detach_by_path(&"/p1".to_string());
    match ev {
        Some(DeviceEvent::Detached(role)) => assert_eq!(role, "cam"),
        _ => panic!("expected a detach event"),
    }
    assert_eq!(reg.len(), 1);
    assert_eq!(reg.path_of(&"cam".to_string()), None);
    assert_eq!(reg.role_of(&"/p1".to_string()), None);
    assert_eq!(reg.path_of(&"arm".to_string()), Some("/p2".to_string()));
}

#[test]
fn detach_of_unknown_path_is_a_silent_no_op() {
    // Common on platforms whose removal notification carries a different
    // path representation than the one stored.
    let mut reg = RoleRegistry::new();
    reg.try_attach(&rule("cam", 1, 2), &device(1, 2, "/p1"), MatchMethod::VidPidOnly);
    assert!(reg.detach_by_path(&"/dev/bus/usb/001/005".to_string()).is_none());
    assert_eq!(reg.len(), 1);
}

#[test]
fn detach_by_role_frees_the_role() {
    let mut reg = RoleRegistry::new();
    reg.try_attach(&rule("cam", 1, 2), &device(1, 2, "/p1"), MatchMethod::VidPidOnly);
    let ev = reg.detach_by_role(&"cam".to_string());
    match ev {
        Some(DeviceEvent::Detached(role)) => assert_eq!(role, "cam"),
        _ => panic!("expected a detach event"),
    }
    assert!(reg.detach_by_role(&"cam".to_string()).is_none());
    // The role can be filled again afterwards.
    assert!(reg.try_attach(&rule("cam", 1, 2), &device(1, 2, "/p9"), MatchMethod::VidPidOnly)
        .is_some());
    assert_eq!(reg.path_of(&"cam".to_string()), Some("/p9".to_string()));
}

#[test]
fn exclusivity_after_a_mixed_sequence_of_fresh_paths() {
    // While every accepted attach carries a path no other binding still
    // holds, any sequence of attach and detach calls keeps the two maps
    // inverse: every active role's path maps back to that role, and no two
    // roles share a path.
    let mut reg = RoleRegistry::new();
    reg.try_attach(&rule("cam", 1, 2), &device(1, 2, "/p1"), MatchMethod::VidPidOnly);
    reg.try_attach(&rule("arm", 3, 4), &device(3, 4, "/p2"), MatchMethod::VidPidOnly);
    reg.try_attach(&rule("cam", 1, 2), &device(1, 2, "/p3"), MatchMethod::VidPidOnly);
    reg.detach_by_path(&"/p2".to_string());
    reg.try_attach(&rule("lidar", 5, 6), &device(5, 6, "/p2"), MatchMethod::VidPidOnly);
    reg.try_attach(&rule("aux", 7, 8), &device(7, 8, "/p5"), MatchMethod::VidPidOnly);
    reg.detach_by_role(&"cam".to_string());
    reg.try_attach(&rule("cam", 1, 2), &device(1, 2, "/p4"), MatchMethod::VidPidOnly);

    let roles = ["cam", "arm", "lidar", "aux"];
    let mut seen_paths: Vec<String> = Vec::new();
    for role in roles {
        if let Some(path) = reg.path_of(&role.to_string()) {
            assert_eq!(reg.role_of(&path), Some(role.to_string()));
            assert!(!seen_paths.contains(&path), "two roles share path {path}");
            seen_paths.push(path);
        }
    }
    assert_eq!(reg.path_of(&"cam".to_string()), Some("/p4".to_string()));
    assert_eq!(reg.path_of(&"lidar".to_string()), Some("/p2".to_string()));
    assert_eq!(reg.path_of(&"arm".to_string()), None);
}

#[test]
fn a_reused_path_breaks_the_inverse_relation_until_detached() {
    // The one kind of step that leaves path exclusivity behind: an accepted
    // attach whose path a stale binding still holds.  Acceptance depends on
    // the role alone, the reverse index follows the newer binding, and the
    // stale role stays listed -- the documented consistency gap, preserved
    // rather than silently repaired.
    let mut reg = RoleRegistry::new();
    reg.try_attach(&rule("cam", 1, 2), &device(1, 2, "/p1"), MatchMethod::VidPidOnly);
    let ev = reg.try_attach(&rule("aux", 3, 4), &device(3, 4, "/p1"), MatchMethod::VidPidOnly);
    match ev {
        Some(DeviceEvent::Attached(rd)) => assert_eq!(rd.role, "aux"),
        _ => panic!("expected the attach to be accepted on the free role"),
    }

    // Both roles now list the same path; the reverse index holds the newer.
    assert_eq!(reg.role_of(&"/p1".to_string()), Some("aux".to_string()));
    assert_eq!(reg.path_of(&"cam".to_string()), Some("/p1".to_string()));
    assert_eq!(reg.path_of(&"aux".to_string()), Some("/p1".to_string()));

    // Detaching by the path removes the newest binding for it.
    match reg.detach_by_path(&"/p1".to_string()) {
        Some(DeviceEvent::Detached(role)) => assert_eq!(role, "aux"),
        _ => panic!("expected the newest binding to be detached"),
    }
    assert_eq!(reg.path_of(&"aux".to_string()), None);
    assert_eq!(reg.path_of(&"cam".to_string()), Some("/p1".to_string()));
}
