//! The Windows monitor's decision logic.  The device installer's registry
//! reports a hardware identifier carrying the vendor and product ids as
//! hexadecimal text, an instance identifier whose last segment may be a
//! serial number, and a friendly name that may carry a COM port.

use vstd::prelude::*;

use crate::text;

verus! {

/// Monitors USB devices on Windows, by polling the device installer's
/// registry.
#[derive(Debug)]
pub struct WindowsMonitor;

impl Default for WindowsMonitor {
    fn default() -> Self {
        Self::new()
    }
}

/// What parsing a hardware identifier yields: the four hexadecimal
/// characters after the first vendor-id marker and the four after the first
/// product-id marker, both present and in range, or nothing.
pub open spec fn spec_parse_hardware_id(s: Seq<char>) -> Option<(u16, u16)> {
    match (text::spec_find(s, "VID_"@), text::spec_find(s, "PID_"@)) {
        (Some(vi), Some(pi)) => {
            if vi + 8 <= s.len() && pi + 8 <= s.len() {
                let vs = s.subrange(vi + 4, vi + 8);
                let ps = s.subrange(pi + 4, pi + 8);
                if text::hex_shape(vs) && text::hex_value(text::hex_digits(vs)) <= 0xFFFF
                    && text::hex_shape(ps) && text::hex_value(text::hex_digits(ps)) <= 0xFFFF {
                    Some(
                        (
                            text::hex_value(text::hex_digits(vs)) as u16,
                            text::hex_value(text::hex_digits(ps)) as u16,
                        ),
                    )
                } else {
                    None
                }
            } else {
                None
            }
        },
        _ => None,
    }
}

/// The serial number hidden in an instance identifier: the text after the
/// last backslash (the whole identifier when there is none), unless it
/// contains an ampersand -- then it is a system-generated placeholder, not a
/// hardware serial.
pub open spec fn spec_extract_serial(s: Seq<char>) -> Option<Seq<char>> {
    let tail = match text::last_index_of(s, '\\', s.len() as int) {
        Some(i) => s.subrange(i + 1, s.len() as int),
        None => s,
    };
    if text::has_char(tail, '&') {
        None
    } else {
        Some(tail)
    }
}

/// The COM port in a friendly device name: the text from just after the
/// opening parenthesis of the first "(COM" group up to the next closing
/// parenthesis.
pub open spec fn spec_extract_com_port(s: Seq<char>) -> Option<Seq<char>> {
    match text::spec_find(s, "(COM"@) {
        Some(st) => {
            match text::spec_find(s.subrange(st, s.len() as int), ")"@) {
                Some(e) => Some(s.subrange(st + 1, st + e)),
                None => None,
            }
        },
        None => None,
    }
}

impl WindowsMonitor {
    pub fn new() -> Self {
        Self
    }

    /// Parse the vendor and product ids out of a hardware identifier: four
    /// hexadecimal characters after each of the two markers.
    pub fn parse_hardware_id(id_str: &str) -> (r: Option<(u16, u16)>)
        ensures
            r == spec_parse_hardware_id(id_str@),
    {
        proof {
            reveal_strlit("VID_");
            reveal_strlit("PID_");
        }
        let vid_index = match text::find_str(id_str, "VID_") {
            Some(i) => i,
            None => {
                return None;
            },
        };
        let pid_index = match text::find_str(id_str, "PID_") {
            Some(i) => i,
            None => {
                return None;
            },
        };
        let n = id_str.unicode_len();
        proof {
            text::lemma_find_some(id_str@, "VID_"@, 0, vid_index as int);
            text::lemma_find_some(id_str@, "PID_"@, 0, pid_index as int);
        }
        if n - vid_index < 8 || n - pid_index < 8 {
            return None;
        }
        let vs = id_str.substring_char(vid_index + 4, vid_index + 8);
        let ps = id_str.substring_char(pid_index + 4, pid_index + 8);
        let vid = match text::parse_hex_u16(vs) {
            Some(v) => v,
            None => {
                return None;
            },
        };
        let pid = match text::parse_hex_u16(ps) {
            Some(v) => v,
            None => {
                return None;
            },
        };
        Some((vid, pid))
    }

    /// The serial number from an instance identifier's last segment, when it
    /// is a real one.
    pub fn extract_serial(instance_id: &str) -> (r: Option<String>)
        ensures
            match r {
                Some(out) => spec_extract_serial(instance_id@) == Some(out@),
                None => spec_extract_serial(instance_id@) is None,
            },
    {
        let n = instance_id.unicode_len();
        proof {
            text::lemma_last_index_of(instance_id@, '\\', n as int);
        }
        let start: usize = match text::rfind_char(instance_id, '\\') {
            Some(i) => i + 1,
            None => 0,
        };
        let tail = instance_id.substring_char(start, n);
        proof {
            match text::last_index_of(instance_id@, '\\', n as int) {
                Some(i) => {
                    assert(tail@ =~= instance_id@.subrange(i + 1, n as int));
                },
                None => {
                    assert(tail@ =~= instance_id@);
                },
            }
        }
        if text::contains_char(tail, '&') {
            None
        } else {
            Some(tail.to_owned())
        }
    }

    /// The COM port named in a friendly device name, when one is.
    pub fn extract_com_port(friendly_name: &str) -> (r: Option<String>)
        ensures
            match r {
                Some(out) => spec_extract_com_port(friendly_name@) == Some(out@),
                None => spec_extract_com_port(friendly_name@) is None,
            },
    {
        proof {
            reveal_strlit("(COM");
            reveal_strlit(")");
        }
        let start = match text::find_str(friendly_name, "(COM") {
            Some(i) => i,
            None => {
                return None;
            },
        };
        let n = friendly_name.unicode_len();
        proof {
            text::lemma_find_some(friendly_name@, "(COM"@, 0, start as int);
        }
        let tail = friendly_name.substring_char(start, n);
        let end = match text::find_str(tail, ")") {
            Some(e) => e,
            None => {
                return None;
            },
        };
        proof {
            text::lemma_find_some(tail@, ")"@, 0, end as int);
            assert(friendly_name@.subrange(start as int, start + 4 as int)[0] == '(');
            assert(tail@[0] == friendly_name@[start as int]);
            if end == 0 {
                assert(tail@.subrange(0, 1)[0] == ')');
                assert(false);
            }
        }
        let out = friendly_name.substring_char(start + 1, start + end);
        Some(out.to_owned())
    }
}

} // verus!
