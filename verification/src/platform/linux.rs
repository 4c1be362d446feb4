//! The Linux monitor's decision logic.  Device properties come from the
//! system's device manager: vendor and product ids as hexadecimal property
//! strings, a raw bus node path, and possibly a TTY child node.

use vstd::prelude::*;

use crate::text;

verus! {

/// Monitors USB devices on Linux, natively through the device manager's
/// event socket and by polling as the fallback.
#[derive(Debug)]
pub struct LinuxMonitor;

impl LinuxMonitor {
    pub fn new() -> Self {
        Self
    }

    /// Parse a vendor or product id property string, which the device
    /// manager reports as hexadecimal text.
    pub fn parse_id_property(s: &str) -> (r: Option<u16>)
        ensures
            match r {
                Some(v) => text::hex_shape(s@) && text::hex_value(text::hex_digits(s@)) <= 0xFFFF
                    && v == text::hex_value(text::hex_digits(s@)),
                None => !text::hex_shape(s@) || text::hex_value(text::hex_digits(s@)) > 0xFFFF,
            },
    {
        text::parse_hex_u16(s)
    }

    /// Decide the primary and alternate system paths for a parsed device: a
    /// discovered TTY child node is promoted to primary and the raw bus node
    /// becomes the alternate; a device without one (a keyboard) keeps the
    /// raw node as primary.
    pub fn promote_paths(tty_node: Option<String>, raw_usb_path: String) -> (r: (
        String,
        Option<String>,
    ))
        ensures
            ({
                match tty_node {
                    Some(tty) => r == (tty, Some(raw_usb_path)),
                    None => r == (raw_usb_path, None::<String>),
                }
            }),
    {
        match tty_node {
            Some(tty) => (tty, Some(raw_usb_path)),
            None => (raw_usb_path, None),
        }
    }
}

} // verus!
