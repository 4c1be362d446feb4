use usb_resolver::platform::linux::LinuxMonitor;
use usb_resolver::platform::macos::MacMonitor;
use usb_resolver::platform::windows::WindowsMonitor;

#[test]
fn hardware_id_with_vid_and_pid() {
    let r = WindowsMonitor::parse_hardware_id("USB\\VID_1AE4&PID_56B2&REV_0100");
    assert_eq!(r, Some((0x1AE4, 0x56B2)));
    assert_eq!(r, Some((6884, 22194)));
}

#[test]
fn hardware_id_with_lowercase_hex() {
    assert_eq!(WindowsMonitor::parse_hardware_id("USB\\VID_1ae4&PID_56b2"), Some((0x1AE4, 0x56B2)));
}

#[test]
fn hardware_id_without_markers_is_rejected() {
    assert_eq!(WindowsMonitor::parse_hardware_id("HID\\Something"), None);
    assert_eq!(WindowsMonitor::parse_hardware_id("USB\\VID_1AE4"), None);
    assert_eq!(WindowsMonitor::parse_hardware_id(""), None);
}

#[test]
fn hardware_id_with_truncated_digits_is_rejected() {
    // Fewer than four characters after a marker.
    assert_eq!(WindowsMonitor::parse_hardware_id("USB\\VID_1AE4&PID_56"), None);
    assert_eq!(WindowsMonitor::parse_hardware_id("USB\\PID_56B2&VID_1A"), None);
}

#[test]
fn hardware_id_with_non_hex_digits_is_rejected() {
    assert_eq!(WindowsMonitor::parse_hardware_id("USB\\VID_1XE4&PID_56B2"), None);
    assert_eq!(WindowsMonitor::parse_hardware_id("USB\\VID_1AE4&PID_5&B2"), None);
}

#[test]
fn serial_is_the_last_instance_id_segment() {
    assert_eq!(
        WindowsMonitor::extract_serial("USB\\VID_1234&PID_5678\\SN001"),
        Some("SN001".to_string())
    );
}

#[test]
fn generated_pseudo_serial_is_filtered_out() {
    // Segments with an ampersand are system-generated, not hardware serials.
    assert_eq!(WindowsMonitor::extract_serial("USB\\VID_1234&PID_5678\\5&2A3B4C5D&0&1"), None);
}

#[test]
fn serial_without_any_backslash_is_the_whole_id() {
    assert_eq!(WindowsMonitor::extract_serial("PLAINSERIAL"), Some("PLAINSERIAL".to_string()));
    assert_eq!(WindowsMonitor::extract_serial("HAS&AMP"), None);
}

#[test]
fn com_port_is_cut_out_of_the_friendly_name() {
    assert_eq!(
        WindowsMonitor::extract_com_port("USB Serial Device (COM3)"),
        Some("COM3".to_string())
    );
    assert_eq!(
        WindowsMonitor::extract_com_port("Prolific PL2303 (COM12) extra"),
        Some("COM12".to_string())
    );
}

#[test]
fn friendly_name_without_com_group_yields_nothing() {
    assert_eq!(WindowsMonitor::extract_com_port("USB Mass Storage"), None);
    assert_eq!(WindowsMonitor::extract_com_port("Oddly (COM3 unclosed"), None);
}

#[test]
fn id_property_parses_hexadecimal_text() {
    assert_eq!(LinuxMonitor::parse_id_property("1a2b"), Some(0x1A2B));
    assert_eq!(LinuxMonitor::parse_id_property("0403"), Some(0x0403));
    assert_eq!(LinuxMonitor::parse_id_property("ffff"), Some(0xFFFF));
    assert_eq!(LinuxMonitor::parse_id_property("+ff"), Some(0xFF));
}

#[test]
fn id_property_rejects_bad_text_and_overflow() {
    assert_eq!(LinuxMonitor::parse_id_property(""), None);
    assert_eq!(LinuxMonitor::parse_id_property("+"), None);
    assert_eq!(LinuxMonitor::parse_id_property("12 4"), None);
    assert_eq!(LinuxMonitor::parse_id_property("0x1a"), None);
    assert_eq!(LinuxMonitor::parse_id_property("10000"), None);
    assert_eq!(LinuxMonitor::parse_id_property("-1"), None);
}

#[test]
fn tty_node_is_promoted_to_primary() {
    let (primary, alt) = LinuxMonitor::promote_paths(
        Some("/dev/ttyUSB0".to_string()),
        "/dev/bus/usb/001/005".to_string(),
    );
    assert_eq!(primary, "/dev/ttyUSB0");
    assert_eq!(alt, Some("/dev/bus/usb/001/005".to_string()));
}

#[test]
fn device_without_tty_keeps_the_raw_path() {
    let (primary, alt) = LinuxMonitor::promote_paths(None, "/dev/bus/usb/001/007".to_string());
    assert_eq!(primary, "/dev/bus/usb/001/007");
    assert_eq!(alt, None);
}

#[test]
fn callout_node_is_preferred_over_dialin() {
    let (primary, alt) = MacMonitor::select_paths(
        Some("/dev/cu.usbserial".to_string()),
        Some("/dev/tty.usbserial".to_string()),
        "IOService:/root/device".to_string(),
    );
    assert_eq!(primary, "/dev/cu.usbserial");
    assert_eq!(alt, Some("/dev/tty.usbserial".to_string()));

    let (primary, alt) = MacMonitor::select_paths(
        Some("/dev/cu.usbserial".to_string()),
        None,
        "IOService:/root/device".to_string(),
    );
    assert_eq!(primary, "/dev/cu.usbserial");
    assert_eq!(alt, None);
}

#[test]
fn dialin_alone_and_registry_placeholder_cases() {
    let (primary, alt) = MacMonitor::select_paths(
        None,
        Some("/dev/tty.usbserial".to_string()),
        "IOService:/root/device".to_string(),
    );
    assert_eq!(primary, "/dev/tty.usbserial");
    assert_eq!(alt, None);

    let (primary, alt) =
        MacMonitor::select_paths(None, None, "IOService:/root/keyboard".to_string());
    assert_eq!(primary, "IOService:/root/keyboard");
    assert_eq!(alt, None);
}
