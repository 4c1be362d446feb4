//! Stable, OS-path-independent identities ("roles") for USB peripherals.
//!
//! The operating system reassigns device-node paths on every replug, so a
//! configured rule (vendor id, product id, optionally a serial number or a
//! topological port path) is matched against freshly scanned devices, and a
//! registry keeps the role -> device binding stable for the device's connected
//! lifetime.  The matching algorithm, the role registry, the snapshot diffing
//! used in polling mode, the monitor supervisor's mode switching and the
//! bounded retry strategy for secondary path discovery all live here, fully
//! verified; the per-platform scanners that read the raw properties are
//! unverified collaborators that hand in plain values.

use vstd::prelude::*;

pub mod platform;
pub mod reconcile;
pub mod registry;
pub mod retry;
pub mod supervisor;
pub mod text;

verus! {

/// Logical name for a physical device's function (e.g. a top-mounted camera),
/// assigned by the operator and independent of OS-assigned paths.
pub type RoleId = String;

/// Raw device information, as read by a platform scanner at one point in time.
#[derive(Debug)]
pub struct RawDeviceInfo {
    /// USB vendor id.
    pub vid: u16,
    /// USB product id.
    pub pid: u16,
    /// Serial number, when the hardware reports one.
    pub serial: Option<String>,
    /// Platform-native topological address (bus/port numbers); stable across
    /// replug into the same physical port, not across ports.
    pub port_path: String,
    /// The OS's current unique identifier for this device instance; when a
    /// secondary data-path node exists it is promoted into this field.
    pub system_path: String,
    /// The other node of the pair when both a primary and a secondary data
    /// path exist.
    pub system_path_alt: Option<String>,
}

/// Clone an optional string, preserving its contents.
fn clone_opt_string(o: &Option<String>) -> (r: Option<String>)
    ensures
        r == *o,
{
    match o {
        Some(s) => Some(s.clone()),
        None => None,
    }
}

impl Clone for RawDeviceInfo {
    /// A field-for-field copy, equal to the original.
    fn clone(&self) -> (r: Self)
        ensures
            r == *self,
    {
        RawDeviceInfo {
            vid: self.vid,
            pid: self.pid,
            serial: clone_opt_string(&self.serial),
            port_path: self.port_path.clone(),
            system_path: self.system_path.clone(),
            system_path_alt: clone_opt_string(&self.system_path_alt),
        }
    }
}

/// How a rule matched a device; recorded for diagnostics only and never
/// consulted again once a match is accepted.
#[derive(Debug, Clone, Copy, PartialEq, Eq, Structural)]
pub enum MatchMethod {
    SerialExact,
    TopologyFallback,
    PortPath,
    VidPidOnly,
}

/// A device that satisfied a configured rule.
#[derive(Debug, Clone)]
pub struct ResolvedDevice {
    pub role: RoleId,
    pub device: RawDeviceInfo,
    pub match_method: MatchMethod,
}

/// An observable device transition, delivered on the outbound channel.
#[derive(Debug, Clone)]
pub enum DeviceEvent {
    /// A device satisfying a configured rule has come online.
    Attached(ResolvedDevice),
    /// The device bound to this role has been removed.
    Detached(RoleId),
}

/// One configured rule, supplied once at startup; the configured order of the
/// rule list is significant (first match wins).
#[derive(Debug, Clone)]
pub struct DeviceRule {
    pub role: RoleId,
    pub vid: u16,
    pub pid: u16,
    /// When present, an exact serial match is the preferred strategy.
    pub serial: Option<String>,
    /// When present, a topological fallback address.
    pub port_path: Option<String>,
}

/// What `DeviceRule::matches` returns: the vid/pid gate is mandatory; then an
/// exact serial match wins, then a configured port path, and a rule with
/// neither serial nor port path accepts on vid/pid alone.
pub open spec fn spec_matches(rule: DeviceRule, dev: RawDeviceInfo) -> Option<MatchMethod> {
    if rule.vid != dev.vid || rule.pid != dev.pid {
        None
    } else if rule.serial matches Some(rs) && dev.serial matches Some(ds) && rs@ == ds@ {
        Some(MatchMethod::SerialExact)
    } else if rule.port_path matches Some(rp) && rp@ == dev.port_path@ {
        Some(MatchMethod::PortPath)
    } else if rule.serial is None && rule.port_path is None {
        Some(MatchMethod::VidPidOnly)
    } else {
        None
    }
}

impl DeviceRule {
    /// Core matching algorithm, strict about the vid/pid gate.
    pub fn matches(&self, device: &RawDeviceInfo) -> (r: Option<MatchMethod>)
        ensures
            r == spec_matches(*self, *device),
    {
        // Gate: vid and pid must both agree before any strategy applies.
        if self.vid != device.vid || self.pid != device.pid {
            return None;
        }

        // Strategy A: exact serial number match has the highest priority.
        if let (Some(rule_sn), Some(dev_sn)) = (&self.serial, &device.serial) {
            if text::string_eq(rule_sn, dev_sn) {
                return Some(MatchMethod::SerialExact);
            }
        }

        // Next, the configured physical port path.
        if let Some(rule_path) = &self.port_path {
            if text::string_eq(rule_path, &device.port_path) {
                return Some(MatchMethod::PortPath);
            }
        }

        // A rule with neither serial nor port path is loose: the vid/pid gate
        // alone decides.
        if self.serial.is_none() && self.port_path.is_none() {
            return Some(MatchMethod::VidPidOnly);
        }

        // Strategy B: topological fallback, tried only after the serial
        // strategy declined and only when a path is configured.  The port-path
        // strategy above already accepted on the identical condition, so this
        // branch cannot fire; it is kept as documented behavior.
        if let Some(cfg_path) = &self.port_path {
            if text::string_eq(cfg_path, &device.port_path) {
                return Some(MatchMethod::TopologyFallback);
            }
        }

        None
    }
}

/// For a rule with both a serial and a port path configured, and a device
/// agreeing on both, the match method is always the serial one, never the
/// port path.
pub proof fn lemma_matcher_priority(rule: DeviceRule, dev: RawDeviceInfo)
    requires
        rule.vid == dev.vid,
        rule.pid == dev.pid,
        rule.serial matches Some(rs) && dev.serial matches Some(ds) && rs@ == ds@,
        rule.port_path matches Some(rp) && rp@ == dev.port_path@,
    ensures
        spec_matches(rule, dev) == Some(MatchMethod::SerialExact),
{
}

/// A rule with neither serial nor port path matches any device sharing its
/// vid and pid, with the loose method.
pub proof fn lemma_loose_match(rule: DeviceRule, dev: RawDeviceInfo)
    requires
        rule.vid == dev.vid,
        rule.pid == dev.pid,
        rule.serial is None,
        rule.port_path is None,
    ensures
        spec_matches(rule, dev) == Some(MatchMethod::VidPidOnly),
{
}

/// Whenever vid or pid differ, no strategy applies and nothing matches,
/// regardless of the serial and path fields.
pub proof fn lemma_gate_invariant(rule: DeviceRule, dev: RawDeviceInfo)
    requires
        rule.vid != dev.vid || rule.pid != dev.pid,
    ensures
        spec_matches(rule, dev) is None,
{
}

/// The topological fallback strategy is shadowed by the port-path strategy,
/// which accepts on the identical condition first: no rule/device pair ever
/// yields it.
pub proof fn lemma_topology_fallback_unreachable(rule: DeviceRule, dev: RawDeviceInfo)
    ensures
        spec_matches(rule, dev) != Some(MatchMethod::TopologyFallback),
{
}

} // verus!
