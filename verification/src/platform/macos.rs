//! The macOS monitor's decision logic.  Device properties come from the
//! kernel's registry; a serial device's data-path nodes are a callout node
//! (preferred, as opening it does not block) and a dialin node.

use vstd::prelude::*;

verus! {

/// Monitors USB devices on macOS, through kernel registry notifications.
#[derive(Debug)]
pub struct MacMonitor;

impl Default for MacMonitor {
    fn default() -> Self {
        Self::new()
    }
}

impl MacMonitor {
    pub fn new() -> Self {
        Self
    }

    /// Decide the primary and alternate system paths from what the registry
    /// search found: prefer the callout node, fall back to the dialin node,
    /// and for a device with neither (a keyboard) use its registry path as a
    /// placeholder identifier.
    pub fn select_paths(
        callout: Option<String>,
        dialin: Option<String>,
        registry_path: String,
    ) -> (r: (String, Option<String>))
        ensures
            ({
                match (callout, dialin) {
                    (Some(c), Some(t)) => r == (c, Some(t)),
                    (Some(c), None) => r == (c, None::<String>),
                    (None, Some(t)) => r == (t, None::<String>),
                    (None, None) => r == (registry_path, None::<String>),
                }
            }),
    {
        match (callout, dialin) {
            (Some(c), Some(t)) => (c, Some(t)),
            (Some(c), None) => (c, None),
            (None, Some(t)) => (t, None),
            (None, None) => (registry_path, None),
        }
    }
}

} // verus!
