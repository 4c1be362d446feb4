//! The monitor supervisor: one synchronous initial scan, then a background
//! worker that either consumes native hotplug notifications or, when no
//! native source can be had or an existing one terminates, falls back to
//! periodic polling through the diff engine.  The decisions -- which phase
//! comes next, which device fills which role, which events to emit -- live
//! here; the surrounding process performs the waiting, the native
//! subscription and the channel sends, handing plain values in and out.

use vstd::prelude::*;

use crate::reconcile::{
    attach_events, cycle_claims, detach_events, reconcile_cycle, spec_cycle_matches,
};
use crate::registry::{last_path_index, paths_distinct, RoleRegistry};
use crate::{spec_matches, DeviceEvent, DeviceRule, RawDeviceInfo};

verus! {

/// The supervisor's operating phase.  The only transitions are the initial
/// scan, the one-shot subscription outcome, and the one-directional switch
/// from the event loop to polling when the native source terminates.
#[derive(Debug, Clone, Copy, PartialEq, Eq, Structural)]
pub enum MonitorPhase {
    /// Created; the initial inventory has not been scanned yet.
    Init,
    /// Initial scan done; the native subscription attempt is pending.
    AttemptEventDriven,
    /// Consuming a native source's add/remove notifications.
    EventLoop,
    /// Differencing periodic full scans.
    PollingLoop,
}

/// Index of the first rule at or after position `k` that matches the device
/// and whose role is not currently active.
pub open spec fn first_free_rule(
    rules: Seq<DeviceRule>,
    roles: Map<Seq<char>, Seq<char>>,
    dev: RawDeviceInfo,
    k: int,
) -> Option<int>
    decreases rules.len() - k,
{
    if k < 0 || k >= rules.len() {
        None
    } else if spec_matches(rules[k], dev) is Some && !roles.contains_key(rules[k].role@) {
        Some(k)
    } else {
        first_free_rule(rules, roles, dev, k + 1)
    }
}

/// How one scanned device changes the role maps, and the event it emits:
/// its first matching rule with a free role claims it; the role alone
/// decides acceptance.
pub open spec fn scan_step(
    rules: Seq<DeviceRule>,
    roles: Map<Seq<char>, Seq<char>>,
    paths: Map<Seq<char>, Seq<char>>,
    dev: RawDeviceInfo,
) -> (Map<Seq<char>, Seq<char>>, Map<Seq<char>, Seq<char>>, Option<DeviceEvent>) {
    match first_free_rule(rules, roles, dev, 0) {
        Some(i) => (
            roles.insert(rules[i].role@, dev.system_path@),
            paths.insert(dev.system_path@, rules[i].role@),
            Some(
                DeviceEvent::Attached(
                    crate::ResolvedDevice {
                        role: rules[i].role,
                        device: dev,
                        match_method: match spec_matches(rules[i], dev) {
                            Some(m) => m,
                            None => crate::MatchMethod::VidPidOnly,
                        },
                    },
                ),
            ),
        ),
        None => (roles, paths, None),
    }
}

/// The role maps and emitted events after feeding the first `n` devices of a
/// snapshot through the attach path, in scan order.
pub open spec fn scan_fold(
    rules: Seq<DeviceRule>,
    roles: Map<Seq<char>, Seq<char>>,
    paths: Map<Seq<char>, Seq<char>>,
    devs: Seq<RawDeviceInfo>,
    n: int,
) -> (Map<Seq<char>, Seq<char>>, Map<Seq<char>, Seq<char>>, Seq<DeviceEvent>)
    decreases n,
{
    if n <= 0 {
        (roles, paths, Seq::empty())
    } else {
        let acc = scan_fold(rules, roles, paths, devs, n - 1);
        let st = scan_step(rules, acc.0, acc.1, devs[n - 1]);
        (
            st.0,
            st.1,
            match st.2 {
                Some(e) => acc.2.push(e),
                None => acc.2,
            },
        )
    }
}

/// The initial scan emits attach events only: before the monitor starts, no
/// binding exists that a scan could take down, so consumers first see a
/// complete inventory of arrivals.
pub proof fn lemma_initial_scan_only_attaches(
    rules: Seq<DeviceRule>,
    roles: Map<Seq<char>, Seq<char>>,
    paths: Map<Seq<char>, Seq<char>>,
    devs: Seq<RawDeviceInfo>,
    n: int,
)
    ensures
        forall|i: int|
            0 <= i < scan_fold(rules, roles, paths, devs, n).2.len() ==> scan_fold(
                rules,
                roles,
                paths,
                devs,
                n,
            ).2[i] is Attached,
    decreases n,
{
    if n > 0 {
        lemma_initial_scan_only_attaches(rules, roles, paths, devs, n - 1);
    }
}

/// Orchestrates the monitor: owns the configured rules, the role registry and
/// the current phase.
#[derive(Debug)]
pub struct Supervisor {
    /// Current phase of the monitor lifecycle.
    pub phase: MonitorPhase,
    /// The configured rules, in significant order; immutable for the
    /// supervisor's lifetime.
    pub rules: Vec<DeviceRule>,
    /// The role registry this supervisor feeds.
    pub registry: RoleRegistry,
}

impl Supervisor {
    /// The registry's invariant, lifted to the supervisor.
    pub open spec fn wf(&self) -> bool {
        self.registry.wf()
    }

    /// A fresh supervisor: empty registry, initial phase.
    pub fn new(rules: Vec<DeviceRule>) -> (s: Self)
        ensures
            s.wf(),
            s.phase == MonitorPhase::Init,
            s.rules == rules,
            s.registry.bindings() =~= Seq::<crate::registry::Binding>::empty(),
            s.registry.roles() =~= Map::<Seq<char>, Seq<char>>::empty(),
            s.registry.paths() =~= Map::<Seq<char>, Seq<char>>::empty(),
    {
        Supervisor { phase: MonitorPhase::Init, rules, registry: RoleRegistry::new() }
    }

    /// Resolve one newly seen device: take the first rule, in configured
    /// order, that matches it and whose role is still free.  Acceptance
    /// depends on the role alone.  Serves both the initial scan and the
    /// event-driven branch, where each native notification already
    /// identifies a single device transition.
    #[verifier::loop_isolation(false)]
    pub fn handle_attach(&mut self, dev: &RawDeviceInfo) -> (r: Option<DeviceEvent>)
        requires
            old(self).wf(),
        ensures
            final(self).wf(),
            final(self).phase == old(self).phase,
            final(self).rules == old(self).rules,
            ({
                let rules = old(self).rules@;
                let roles = old(self).registry.roles();
                let paths = old(self).registry.paths();
                match first_free_rule(rules, roles, *dev, 0) {
                    Some(i) => {
                        &&& r matches Some(DeviceEvent::Attached(rd))
                        &&& rd.role == rules[i].role
                        &&& rd.device == *dev
                        &&& Some(rd.match_method) == spec_matches(rules[i], *dev)
                        &&& final(self).registry.roles() == roles.insert(
                            rules[i].role@,
                            dev.system_path@,
                        )
                        &&& final(self).registry.paths() == paths.insert(
                            dev.system_path@,
                            rules[i].role@,
                        )
                    },
                    None => {
                        &&& r is None
                        &&& final(self).registry.bindings() == old(self).registry.bindings()
                    },
                }
            }),
    {
        let nr = self.rules.len();
        for i in 0..nr
            invariant
                self.phase == old(self).phase,
                self.registry == old(self).registry,
                self.rules == old(self).rules,
                first_free_rule(self.rules@, self.registry.roles(), *dev, 0) == first_free_rule(
                    self.rules@,
                    self.registry.roles(),
                    *dev,
                    i as int,
                ),
        {
            let matched = self.rules[i].matches(dev);
            match matched {
                Some(m) => {
                    if !self.registry.is_active(&self.rules[i].role) {
                        proof {
                            assert(first_free_rule(
                                self.rules@,
                                self.registry.roles(),
                                *dev,
                                i as int,
                            ) == Some(i as int));
                        }
                        let ev = self.registry.attach_role(&self.rules[i].role, dev, m);
                        return ev;
                    }
                },
                None => {},
            }
        }
        None
    }

    /// Forget the binding the reverse index holds for this system path, if
    /// any: the event-driven branch's removal path.  An untracked path is a
    /// no-op.
    pub fn handle_detach(&mut self, system_path: &String) -> (r: Option<DeviceEvent>)
        requires
            old(self).wf(),
        ensures
            final(self).wf(),
            final(self).phase == old(self).phase,
            final(self).rules == old(self).rules,
            ({
                let path = system_path@;
                let paths = old(self).registry.paths();
                if paths.contains_key(path) {
                    &&& last_path_index(old(self).registry.bindings(), path) matches Some(i)
                    &&& r matches Some(DeviceEvent::Detached(role))
                    &&& role == old(self).registry.bindings()[i].role
                    &&& role@ == paths[path]
                    &&& final(self).registry.bindings() == old(self).registry.bindings().remove(i)
                    &&& final(self).registry.roles() == old(self).registry.roles().remove(role@)
                    &&& paths_distinct(old(self).registry.bindings())
                        ==> final(self).registry.paths() == paths.remove(path)
                } else {
                    &&& r is None
                    &&& final(self).registry.bindings() == old(self).registry.bindings()
                }
            }),
    {
        self.registry.detach_by_path(system_path)
    }

    /// The synchronous initial scan, before any hotplug event is possible:
    /// feed every discovered device through the attach path so consumers see
    /// a complete starting inventory, then await the subscription attempt.
    #[verifier::loop_isolation(false)]
    pub fn initial_scan(&mut self, devices: &Vec<RawDeviceInfo>) -> (events: Vec<DeviceEvent>)
        requires
            old(self).wf(),
            old(self).phase == MonitorPhase::Init,
        ensures
            final(self).wf(),
            final(self).phase == MonitorPhase::AttemptEventDriven,
            final(self).rules == old(self).rules,
            ({
                let f = scan_fold(
                    old(self).rules@,
                    old(self).registry.roles(),
                    old(self).registry.paths(),
                    devices@,
                    devices@.len() as int,
                );
                &&& final(self).registry.roles() == f.0
                &&& final(self).registry.paths() == f.1
                &&& events@ == f.2
            }),
    {
        let ghost rules0 = self.rules@;
        let ghost roles0 = self.registry.roles();
        let ghost paths0 = self.registry.paths();
        let mut events: Vec<DeviceEvent> = Vec::new();
        let n = devices.len();
        for d in 0..n
            invariant
                self.wf(),
                self.phase == old(self).phase,
                self.rules == old(self).rules,
                self.registry.roles() == scan_fold(rules0, roles0, paths0, devices@, d as int).0,
                self.registry.paths() == scan_fold(rules0, roles0, paths0, devices@, d as int).1,
                events@ == scan_fold(rules0, roles0, paths0, devices@, d as int).2,
        {
            let ghost di = d as int;
            let ghost acc = scan_fold(rules0, roles0, paths0, devices@, di);
            let ev = self.handle_attach(&devices[d]);
            match ev {
                Some(e) => {
                    events.push(e);
                    proof {
                        let st = scan_step(rules0, acc.0, acc.1, devices@[di]);
                        match first_free_rule(rules0, acc.0, devices@[di], 0) {
                            Some(i) => {
                                assert(st.2 matches Some(se) && e == se);
                            },
                            None => {
                                assert(false);
                            },
                        }
                    }
                },
                None => {},
            }
        }
        self.phase = MonitorPhase::AttemptEventDriven;
        events
    }

    /// Record the outcome of the one-shot native subscription attempt: on
    /// success the worker consumes native notifications; a failure is not
    /// fatal and selects the polling fallback instead.
    pub fn subscription_result(&mut self, subscribed: bool) -> (r: ())
        requires
            old(self).phase == MonitorPhase::AttemptEventDriven,
        ensures
            final(self).phase == (if subscribed {
                MonitorPhase::EventLoop
            } else {
                MonitorPhase::PollingLoop
            }),
            final(self).rules == old(self).rules,
            final(self).registry == old(self).registry,
    {
        if subscribed {
            self.phase = MonitorPhase::EventLoop;
        } else {
            self.phase = MonitorPhase::PollingLoop;
        }
    }

    /// The native source stopped unexpectedly: switch, one-directionally, to
    /// the polling branch rather than exiting.
    pub fn source_terminated(&mut self) -> (r: ())
        requires
            old(self).phase == MonitorPhase::EventLoop,
        ensures
            final(self).phase == MonitorPhase::PollingLoop,
            final(self).rules == old(self).rules,
            final(self).registry == old(self).registry,
    {
        self.phase = MonitorPhase::PollingLoop;
    }

    /// One polling cycle over a fresh snapshot, through the diff engine; see
    /// `reconcile_cycle` for the exact event and registry guarantees.
    pub fn poll_cycle(&mut self, devices: &Vec<RawDeviceInfo>) -> (events: Vec<DeviceEvent>)
        requires
            old(self).wf(),
            old(self).phase == MonitorPhase::PollingLoop,
        ensures
            final(self).wf(),
            final(self).phase == MonitorPhase::PollingLoop,
            final(self).rules == old(self).rules,
            ({
                let ms = spec_cycle_matches(old(self).rules@, devices@);
                let prev = old(self).registry.roles();
                &&& events@ == attach_events(ms, prev) + detach_events(
                    old(self).registry.bindings(),
                    ms,
                )
                &&& forall|r: Seq<char>|
                    #[trigger] final(self).registry.roles().contains_key(r) <==> cycle_claims(
                        ms,
                        r,
                    )
                &&& forall|r: Seq<char>|
                    prev.contains_key(r) && cycle_claims(ms, r)
                        ==> final(self).registry.roles()[r] == prev[r]
                &&& forall|k: int|
                    0 <= k < ms.len() && !prev.contains_key((#[trigger] ms[k]).role@)
                        ==> final(self).registry.roles()[ms[k].role@]
                        == ms[k].device.system_path@
            }),
    {
        reconcile_cycle(&mut self.registry, &self.rules, devices)
    }
}

} // verus!
