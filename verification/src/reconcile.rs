//! The reconciliation diff engine, used in polling mode: from a fresh full
//! device snapshot it computes the per-cycle role assignment, then the minimal
//! set of attach and detach events against the role registry's current state.
//!
//! All events of one cycle are computed from one atomic before/after pair: a
//! role that both disappeared and reappeared within the same cycle is treated
//! as continuously present.

use vstd::prelude::*;

use crate::registry::{lemma_role_map_contains, role_map, roles_distinct, Binding, RoleRegistry};
use crate::text;
use crate::{spec_matches, DeviceEvent, DeviceRule, MatchMethod, RawDeviceInfo, ResolvedDevice, RoleId};

verus! {

/// One entry of the per-cycle role assignment: this device fills this role
/// for the current polling cycle.
#[derive(Debug)]
pub struct CycleMatch {
    pub role: RoleId,
    pub device: RawDeviceInfo,
    pub method: MatchMethod,
}

/// Does the per-cycle assignment already claim this role?
pub open spec fn cycle_claims(ms: Seq<CycleMatch>, role: Seq<char>) -> bool {
    exists|i: int| 0 <= i < ms.len() && ms[i].role@ == role
}

/// Index of the first rule at or after position `k` that matches the device
/// and whose role is not yet claimed in this cycle.
pub open spec fn first_rule_from(
    rules: Seq<DeviceRule>,
    ms: Seq<CycleMatch>,
    dev: RawDeviceInfo,
    k: int,
) -> Option<int>
    decreases rules.len() - k,
{
    if k < 0 || k >= rules.len() {
        None
    } else if spec_matches(rules[k], dev) is Some && !cycle_claims(ms, rules[k].role@) {
        Some(k)
    } else {
        first_rule_from(rules, ms, dev, k + 1)
    }
}

/// What a successful first-rule search means: the rule matches, its role is
/// unclaimed, and no earlier candidate rule qualified.
pub proof fn lemma_first_rule_some(
    rules: Seq<DeviceRule>,
    ms: Seq<CycleMatch>,
    dev: RawDeviceInfo,
    k: int,
    i: int,
)
    requires
        0 <= k,
        first_rule_from(rules, ms, dev, k) == Some(i),
    ensures
        k <= i < rules.len(),
        spec_matches(rules[i], dev) is Some,
        !cycle_claims(ms, rules[i].role@),
        forall|j: int|
            k <= j < i ==> !(spec_matches(rules[j], dev) is Some && !cycle_claims(
                ms,
                rules[j].role@,
            )),
    decreases rules.len() - k,
{
    if k < rules.len() {
        if spec_matches(rules[k], dev) is Some && !cycle_claims(ms, rules[k].role@) {
        } else {
            lemma_first_rule_some(rules, ms, dev, k + 1, i);
        }
    }
}

/// The per-cycle role assignment after the first `n` devices of the snapshot
/// have been processed: each device, in scan order, claims the first matching
/// rule whose role is still free in this cycle, so at most one device per
/// role and the first match in scan order wins.
pub open spec fn cycle_upto(
    rules: Seq<DeviceRule>,
    devs: Seq<RawDeviceInfo>,
    n: int,
) -> Seq<CycleMatch>
    decreases n,
{
    if n <= 0 {
        Seq::empty()
    } else {
        let prev = cycle_upto(rules, devs, n - 1);
        match first_rule_from(rules, prev, devs[n - 1], 0) {
            Some(i) => prev.push(
                CycleMatch {
                    role: rules[i].role,
                    device: devs[n - 1],
                    method: match spec_matches(rules[i], devs[n - 1]) {
                        Some(m) => m,
                        None => MatchMethod::VidPidOnly,
                    },
                },
            ),
            None => prev,
        }
    }
}

/// The complete per-cycle role assignment for one snapshot.
pub open spec fn spec_cycle_matches(
    rules: Seq<DeviceRule>,
    devs: Seq<RawDeviceInfo>,
) -> Seq<CycleMatch> {
    cycle_upto(rules, devs, devs.len() as int)
}

/// No two entries of a cycle assignment claim the same role.
pub proof fn lemma_cycle_roles_distinct(rules: Seq<DeviceRule>, devs: Seq<RawDeviceInfo>, n: int)
    ensures
        forall|a: int, b: int|
            0 <= a < b < cycle_upto(rules, devs, n).len() ==> cycle_upto(rules, devs, n)[a].role@
                != cycle_upto(rules, devs, n)[b].role@,
    decreases n,
{
    if n > 0 {
        lemma_cycle_roles_distinct(rules, devs, n - 1);
        let prev = cycle_upto(rules, devs, n - 1);
        let cur = cycle_upto(rules, devs, n);
        match first_rule_from(rules, prev, devs[n - 1], 0) {
            Some(i) => {
                lemma_first_rule_some(rules, prev, devs[n - 1], 0, i);
                assert forall|a: int, b: int| 0 <= a < b < cur.len() implies cur[a].role@
                    != cur[b].role@ by {
                    if b == cur.len() - 1 {
                        assert(cur[a] == prev[a]);
                        assert(!cycle_claims(prev, rules[i].role@));
                        assert(prev[a].role@ != rules[i].role@);
                    } else {
                        assert(cur[a] == prev[a]);
                        assert(cur[b] == prev[b]);
                    }
                }
            },
            None => {},
        }
    }
}

/// Is this role already claimed in the per-cycle assignment?
pub fn claimed_in_cycle(ms: &Vec<CycleMatch>, role: &String) -> (r: bool)
    ensures
        r == cycle_claims(ms@, role@),
{
    let n = ms.len();
    for j in 0..n
        invariant
            n == ms@.len(),
            forall|i: int| 0 <= i < j ==> ms@[i].role@ != role@,
    {
        if text::string_eq(&ms[j].role, role) {
            return true;
        }
    }
    false
}

/// The first rule matching this device whose role is still free in this
/// cycle, in configured rule order.
fn find_cycle_rule(rules: &Vec<DeviceRule>, ms: &Vec<CycleMatch>, dev: &RawDeviceInfo) -> (r:
    Option<usize>)
    ensures
        match r {
            Some(i) => first_rule_from(rules@, ms@, *dev, 0) == Some(i as int),
            None => first_rule_from(rules@, ms@, *dev, 0) is None,
        },
{
    let n = rules.len();
    for k in 0..n
        invariant
            n == rules@.len(),
            first_rule_from(rules@, ms@, *dev, 0) == first_rule_from(rules@, ms@, *dev, k as int),
    {
        if rules[k].matches(dev).is_some() && !claimed_in_cycle(ms, &rules[k].role) {
            return Some(k);
        }
    }
    None
}

/// Build the per-cycle role assignment for one fresh snapshot: for each
/// device in scan order, its first matching unclaimed rule, if any.
pub fn compute_cycle_matches(rules: &Vec<DeviceRule>, devices: &Vec<RawDeviceInfo>) -> (ms: Vec<
    CycleMatch>)
    ensures
        ms@ == spec_cycle_matches(rules@, devices@),
{
    let mut ms: Vec<CycleMatch> = Vec::new();
    let n = devices.len();
    for d in 0..n
        invariant
            n == devices@.len(),
            ms@ == cycle_upto(rules@, devices@, d as int),
    {
        match find_cycle_rule(rules, &ms, &devices[d]) {
            Some(i) => {
                proof {
                    lemma_first_rule_some(rules@, ms@, devices@[d as int], 0, i as int);
                }
                match rules[i].matches(&devices[d]) {
                    Some(method) => {
                        ms.push(
                            CycleMatch {
                                role: rules[i].role.clone(),
                                device: devices[d].clone(),
                                method,
                            },
                        );
                    },
                    None => {
                        proof {
                            assert(false);
                        }
                    },
                }
            },
            None => {},
        }
    }
    ms
}

/// The attach events one cycle emits: one for each newly active role --
/// claimed in the cycle but absent from the previous role map -- in cycle
/// order.
pub open spec fn attach_events(ms: Seq<CycleMatch>, prev: Map<Seq<char>, Seq<char>>) -> Seq<
    DeviceEvent,
>
    decreases ms.len(),
{
    if ms.len() == 0 {
        Seq::empty()
    } else {
        let init = attach_events(ms.drop_last(), prev);
        let m = ms.last();
        if prev.contains_key(m.role@) {
            init
        } else {
            init.push(
                DeviceEvent::Attached(
                    ResolvedDevice { role: m.role, device: m.device, match_method: m.method },
                ),
            )
        }
    }
}

/// The detach events one cycle emits: one for each newly inactive role --
/// previously bound but not claimed in the cycle -- in registry order.
pub open spec fn detach_events(bindings: Seq<Binding>, ms: Seq<CycleMatch>) -> Seq<DeviceEvent>
    decreases bindings.len(),
{
    if bindings.len() == 0 {
        Seq::empty()
    } else {
        let init = detach_events(bindings.drop_last(), ms);
        let b = bindings.last();
        if cycle_claims(ms, b.role@) {
            init
        } else {
            init.push(DeviceEvent::Detached(b.role))
        }
    }
}

/// The roles the detach events speak of, in the same order.
pub open spec fn stale_roles(bindings: Seq<Binding>, ms: Seq<CycleMatch>) -> Seq<String>
    decreases bindings.len(),
{
    if bindings.len() == 0 {
        Seq::empty()
    } else {
        let init = stale_roles(bindings.drop_last(), ms);
        let b = bindings.last();
        if cycle_claims(ms, b.role@) {
            init
        } else {
            init.push(b.role)
        }
    }
}

/// Does a role list contain this role, by contents?
pub open spec fn seq_has_role(ss: Seq<String>, role: Seq<char>) -> bool {
    exists|i: int| 0 <= i < ss.len() && ss[i]@ == role
}

/// Extending a cycle assignment by one entry claims exactly that entry's role
/// in addition.
proof fn lemma_claims_take_step(ms: Seq<CycleMatch>, k: int, r: Seq<char>)
    requires
        0 <= k < ms.len(),
    ensures
        cycle_claims(ms.take(k + 1), r) <==> (cycle_claims(ms.take(k), r) || ms[k].role@ == r),
{
    if cycle_claims(ms.take(k + 1), r) {
        let l = choose|l: int| 0 <= l < ms.take(k + 1).len() && (#[trigger] ms.take(k + 1)[l]).role@ == r;
        if l < k {
            assert(ms.take(k)[l].role@ == r);
        }
    }
    if cycle_claims(ms.take(k), r) {
        let l = choose|l: int| 0 <= l < ms.take(k).len() && (#[trigger] ms.take(k)[l]).role@ == r;
        assert(ms.take(k + 1)[l].role@ == r);
    }
    if ms[k].role@ == r {
        assert(ms.take(k + 1)[k].role@ == r);
    }
}

/// Extending a role list by one entry adds exactly that role.
proof fn lemma_has_role_take_step(ss: Seq<String>, j: int, r: Seq<char>)
    requires
        0 <= j < ss.len(),
    ensures
        seq_has_role(ss.take(j + 1), r) <==> (seq_has_role(ss.take(j), r) || ss[j]@ == r),
{
    if seq_has_role(ss.take(j + 1), r) {
        let l = choose|l: int| 0 <= l < ss.take(j + 1).len() && (#[trigger] ss.take(j + 1)[l])@ == r;
        if l < j {
            assert(ss.take(j)[l]@ == r);
        }
    }
    if seq_has_role(ss.take(j), r) {
        let l = choose|l: int| 0 <= l < ss.take(j).len() && (#[trigger] ss.take(j)[l])@ == r;
        assert(ss.take(j + 1)[l]@ == r);
    }
    if ss[j]@ == r {
        assert(ss.take(j + 1)[j]@ == r);
    }
}

/// A binding whose role the cycle claims contributes no detach event.
proof fn lemma_detach_events_push(bindings: Seq<Binding>, b: Binding, ms: Seq<CycleMatch>)
    requires
        cycle_claims(ms, b.role@),
    ensures
        detach_events(bindings.push(b), ms) == detach_events(bindings, ms),
{
    assert(bindings.push(b).drop_last() =~= bindings);
}

/// What the stale-role list holds: exactly the previously bound roles the
/// cycle does not claim, each once.
pub proof fn lemma_stale_roles(bindings: Seq<Binding>, ms: Seq<CycleMatch>)
    requires
        roles_distinct(bindings),
    ensures
        forall|r: Seq<char>|
            #[trigger] seq_has_role(stale_roles(bindings, ms), r) <==> ((exists|i: int|
                0 <= i < bindings.len() && #[trigger] bindings[i].role@ == r) && !cycle_claims(
                ms,
                r,
            )),
        forall|a: int, b: int|
            0 <= a < b < stale_roles(bindings, ms).len() ==> stale_roles(bindings, ms)[a]@
                != stale_roles(bindings, ms)[b]@,
    decreases bindings.len(),
{
    if bindings.len() > 0 {
        let dl = bindings.drop_last();
        let b = bindings.last();
        assert forall|i: int, j: int| 0 <= i < j < dl.len() implies dl[i].role@
            != dl[j].role@ by {
            assert(dl[i] == bindings[i]);
            assert(dl[j] == bindings[j]);
        }
        lemma_stale_roles(dl, ms);
        let st = stale_roles(bindings, ms);
        let st0 = stale_roles(dl, ms);
        assert forall|r: Seq<char>| #[trigger] seq_has_role(st, r) implies ((exists|i: int|
            0 <= i < bindings.len() && #[trigger] bindings[i].role@ == r) && !cycle_claims(
            ms,
            r,
        )) by {
            let l = choose|l: int| 0 <= l < st.len() && (#[trigger] st[l])@ == r;
            if cycle_claims(ms, b.role@) || l < st0.len() {
                assert(st[l] == st0[l]);
                assert(seq_has_role(st0, r));
                let i = choose|i: int| 0 <= i < dl.len() && (#[trigger] dl[i]).role@ == r;
                assert(bindings[i].role@ == r);
            } else {
                assert(st[l] == b.role);
                assert(bindings[bindings.len() - 1].role@ == r);
            }
        }
        assert forall|r: Seq<char>| ((exists|i: int|
            0 <= i < bindings.len() && #[trigger] bindings[i].role@ == r) && !cycle_claims(ms, r))
            implies #[trigger] seq_has_role(st, r) by {
            let i = choose|i: int| 0 <= i < bindings.len() && (#[trigger] bindings[i]).role@ == r;
            if i < bindings.len() - 1 {
                assert(dl[i].role@ == r);
                assert(seq_has_role(st0, r));
                let l = choose|l: int| 0 <= l < st0.len() && (#[trigger] st0[l])@ == r;
                assert(st[l] == st0[l]);
                assert(st[l]@ == r);
            } else {
                assert(b.role@ == r);
                assert(!cycle_claims(ms, b.role@));
                assert(st[st.len() - 1]@ == r);
            }
        }
        assert forall|x: int, y: int| 0 <= x < y < st.len() implies st[x]@ != st[y]@ by {
            if cycle_claims(ms, b.role@) {
                assert(st[x] == st0[x]);
                assert(st[y] == st0[y]);
            } else {
                if y == st.len() - 1 {
                    assert(st[x] == st0[x]);
                    assert(seq_has_role(st0, st0[x]@));
                    assert(st[y] == b.role);
                    let i = choose|i: int| 0 <= i < dl.len() && (#[trigger] dl[i]).role@ == st0[x]@;
                    assert(bindings[i].role@ == st0[x]@);
                    assert(bindings[i].role@ != b.role@);
                } else {
                    assert(st[x] == st0[x]);
                    assert(st[y] == st0[y]);
                }
            }
        }
    }
}

/// One polling cycle against the registry: compute the per-cycle role
/// assignment from a fresh snapshot, attach every newly active role, then
/// detach every previously active role the cycle does not claim.  Within the
/// cycle, attach events are emitted before detach events, and a role present
/// in both snapshots produces no event and keeps its previously bound path.
/// The emitted events are exactly the attach and detach lists of the
/// before/after pair: a newly active role's attach depends on the role
/// alone, so nothing in the snapshot can suppress it.
#[verifier::loop_isolation(false)]
#[verifier::rlimit(60)]
pub fn reconcile_cycle(
    registry: &mut RoleRegistry,
    rules: &Vec<DeviceRule>,
    devices: &Vec<RawDeviceInfo>,
) -> (events: Vec<DeviceEvent>)
    requires
        old(registry).wf(),
    ensures
        final(registry).wf(),
        ({
            let ms = spec_cycle_matches(rules@, devices@);
            let prev = old(registry).roles();
            &&& events@ == attach_events(ms, prev) + detach_events(old(registry).bindings(), ms)
            &&& forall|r: Seq<char>|
                #[trigger] final(registry).roles().contains_key(r) <==> cycle_claims(ms, r)
            &&& forall|r: Seq<char>|
                prev.contains_key(r) && cycle_claims(ms, r) ==> final(registry).roles()[r]
                    == prev[r]
            &&& forall|k: int|
                0 <= k < ms.len() && !prev.contains_key((#[trigger] ms[k]).role@)
                    ==> final(registry).roles()[ms[k].role@] == ms[k].device.system_path@
        }),
{
    let ghost prev = old(registry).roles();
    let ghost prev_b = old(registry).bindings();
    let ms = compute_cycle_matches(rules, devices);
    proof {
        lemma_cycle_roles_distinct(rules@, devices@, devices@.len() as int);
    }
    let ghost msq = ms@;
    let mut events: Vec<DeviceEvent> = Vec::new();

    // Attach phase: every cycle entry whose role is not yet active.
    let n = ms.len();
    for k in 0..n
        invariant
            registry.wf(),
            forall|r: Seq<char>|
                #[trigger] registry.roles().contains_key(r) <==> (prev.contains_key(r)
                    || cycle_claims(msq.take(k as int), r)),
            forall|r: Seq<char>|
                #[trigger] prev.contains_key(r) ==> registry.roles().contains_key(r)
                    && registry.roles()[r] == prev[r],
            forall|l: int|
                0 <= l < k && !prev.contains_key((#[trigger] msq[l]).role@)
                    ==> registry.roles().contains_key(msq[l].role@)
                    && registry.roles()[msq[l].role@] == msq[l].device.system_path@,
            events@ == attach_events(msq.take(k as int), prev),
            detach_events(registry.bindings(), msq) == detach_events(prev_b, msq),
    {
        let ghost ki = k as int;
        let ghost role = msq[ki].role@;
        let ghost pre_roles = registry.roles();
        let ghost pre_b = registry.bindings();
        proof {
            // This entry's role is not claimed earlier in the cycle.
            if cycle_claims(msq.take(ki), role) {
                let l = choose|l: int|
                    0 <= l < msq.take(ki).len() && (#[trigger] msq.take(ki)[l]).role@ == role;
                assert(msq[l].role@ == role);
                assert(false);
            }
            assert(pre_roles.contains_key(role) <==> prev.contains_key(role));
        }
        let ev = registry.attach_role(&ms[k].role, &ms[k].device, ms[k].method);
        proof {
            assert(msq.take(ki + 1).drop_last() =~= msq.take(ki));
            assert(msq.take(ki + 1).last() == msq[ki]);
            assert(cycle_claims(msq, role)) by {
                assert(0 <= ki < msq.len() && msq[ki].role@ == role);
            }
        }
        match ev {
            Some(e) => {
                events.push(e);
                proof {
                    assert(!prev.contains_key(role));
                    assert(e == DeviceEvent::Attached(
                        ResolvedDevice {
                            role: msq[ki].role,
                            device: msq[ki].device,
                            match_method: msq[ki].method,
                        },
                    ));
                    assert(events@ == attach_events(msq.take(ki + 1), prev));
                    lemma_detach_events_push(
                        pre_b,
                        Binding { role: msq[ki].role, path: msq[ki].device.system_path },
                        msq,
                    );
                    assert(detach_events(registry.bindings(), msq) == detach_events(prev_b, msq));
                }
            },
            None => {
                proof {
                    assert(prev.contains_key(role));
                    assert(attach_events(msq.take(ki + 1), prev) == attach_events(
                        msq.take(ki),
                        prev,
                    ));
                    assert(events@ == attach_events(msq.take(ki + 1), prev));
                    assert(registry.bindings() == pre_b);
                }
            },
        }
        proof {
            let ghost accepted = !prev.contains_key(role);
            assert forall|r: Seq<char>| #[trigger] registry.roles().contains_key(r) <==> (
            prev.contains_key(r) || cycle_claims(msq.take(ki + 1), r)) by {
                lemma_claims_take_step(msq, ki, r);
                assert(pre_roles.contains_key(r) <==> (prev.contains_key(r) || cycle_claims(
                    msq.take(ki),
                    r,
                )));
            }
            assert forall|r: Seq<char>| #[trigger] prev.contains_key(r) implies
                registry.roles().contains_key(r) && registry.roles()[r] == prev[r] by {
                assert(pre_roles.contains_key(r) && pre_roles[r] == prev[r]);
            }
            assert forall|l: int|
                0 <= l < ki + 1 && !prev.contains_key((#[trigger] msq[l]).role@) implies
                registry.roles().contains_key(msq[l].role@) && registry.roles()[msq[l].role@]
                == msq[l].device.system_path@ by {
                if l < ki {
                    assert(pre_roles.contains_key(msq[l].role@) && pre_roles[msq[l].role@]
                        == msq[l].device.system_path@);
                    if accepted {
                        assert(msq[l].role@ != role);
                    }
                }
            }
        }
    }
    proof {
        assert(msq.take(n as int) =~= msq);
    }

    // Between the phases: snapshot what the attach phase established.
    let ghost b1 = registry.bindings();
    proof {
        assert(role_map(b1) == registry.roles());
        assert forall|r: Seq<char>| #[trigger] role_map(b1).contains_key(r) <==> (
        prev.contains_key(r) || cycle_claims(msq, r)) by {
            assert(registry.roles().contains_key(r) <==> (prev.contains_key(r) || cycle_claims(
                msq.take(n as int),
                r,
            )));
        }
        assert forall|r: Seq<char>| #[trigger] prev.contains_key(r) implies role_map(b1)[r]
            == prev[r] by {
            assert(registry.roles().contains_key(r) && registry.roles()[r] == prev[r]);
        }
        assert forall|l: int|
            0 <= l < msq.len() && !prev.contains_key((#[trigger] msq[l]).role@) implies role_map(
            b1,
        )[msq[l].role@] == msq[l].device.system_path@ by {
            assert(registry.roles().contains_key(msq[l].role@) && registry.roles()[msq[l].role@]
                == msq[l].device.system_path@);
        }
        assert(detach_events(b1, msq) == detach_events(prev_b, msq));
        assert(roles_distinct(b1));
    }

    // Detach phase, first half: collect the stale roles and their events.
    let n1 = registry.len();
    let mut stale: Vec<String> = Vec::new();
    for i in 0..n1
        invariant
            registry.bindings() == b1,
            stale@ == stale_roles(b1.take(i as int), msq),
            events@ == attach_events(msq, prev) + detach_events(b1.take(i as int), msq),
    {
        let role_ref = registry.role_at(i);
        let claimed = claimed_in_cycle(&ms, role_ref);
        proof {
            assert(b1.take(i as int + 1).drop_last() =~= b1.take(i as int));
            assert(b1.take(i as int + 1).last() == b1[i as int]);
        }
        if !claimed {
            stale.push(role_ref.clone());
            events.push(DeviceEvent::Detached(role_ref.clone()));
            proof {
                assert(stale@ == stale_roles(b1.take(i as int + 1), msq));
                assert(events@ =~= attach_events(msq, prev) + detach_events(
                    b1.take(i as int + 1),
                    msq,
                ));
            }
        }
    }
    proof {
        assert(b1.take(n1 as int) =~= b1);
        lemma_stale_roles(b1, msq);
    }

    // Detach phase, second half: remove each stale role from the registry.
    let n2 = stale.len();
    for j in 0..n2
        invariant
            registry.wf(),
            forall|r: Seq<char>|
                #[trigger] registry.roles().contains_key(r) <==> (role_map(b1).contains_key(r)
                    && !seq_has_role(stale@.take(j as int), r)),
            forall|r: Seq<char>|
                #[trigger] registry.roles().contains_key(r) ==> registry.roles()[r] == role_map(
                    b1,
                )[r],
    {
        let ghost ji = j as int;
        let ghost rj = stale@[ji]@;
        let ghost pre_roles = registry.roles();
        proof {
            assert(seq_has_role(stale@, rj)) by {
                assert(0 <= ji < stale@.len() && stale@[ji]@ == rj);
            }
            assert(role_map(b1).contains_key(rj)) by {
                lemma_role_map_contains(b1, rj);
            }
            if seq_has_role(stale@.take(ji), rj) {
                let l = choose|l: int|
                    0 <= l < stale@.take(ji).len() && (#[trigger] stale@.take(ji)[l])@ == rj;
                assert(stale@[l]@ == rj);
                assert(false);
            }
            assert(pre_roles.contains_key(rj));
        }
        let _ = registry.detach_by_role(&stale[j]);
        proof {
            assert forall|r: Seq<char>| #[trigger] registry.roles().contains_key(r) <==> (
            role_map(b1).contains_key(r) && !seq_has_role(stale@.take(ji + 1), r)) by {
                lemma_has_role_take_step(stale@, ji, r);
                assert(pre_roles.contains_key(r) <==> (role_map(b1).contains_key(r)
                    && !seq_has_role(stale@.take(ji), r)));
            }
        }
    }
    proof {
        assert(stale@.take(n2 as int) =~= stale@);
        assert forall|r: Seq<char>| #[trigger] registry.roles().contains_key(r) <==> cycle_claims(
            msq,
            r,
        ) by {
            lemma_role_map_contains(b1, r);
            if cycle_claims(msq, r) {
                assert(role_map(b1).contains_key(r));
                if seq_has_role(stale@, r) {
                    assert(!cycle_claims(msq, r));
                }
            }
        }
        assert forall|r: Seq<char>|
            prev.contains_key(r) && cycle_claims(msq, r) implies registry.roles()[r] == prev[r] by {
            assert(registry.roles().contains_key(r));
            assert(role_map(b1)[r] == prev[r]);
        }
        assert forall|k2: int|
            0 <= k2 < msq.len() && !prev.contains_key((#[trigger] msq[k2]).role@) implies
            registry.roles()[msq[k2].role@] == msq[k2].device.system_path@ by {
            assert(cycle_claims(msq, msq[k2].role@)) by {
                assert(0 <= k2 < msq.len() && msq[k2].role@ == msq[k2].role@);
            }
            assert(registry.roles().contains_key(msq[k2].role@));
            assert(role_map(b1)[msq[k2].role@] == msq[k2].device.system_path@);
        }
        assert(events@ == attach_events(msq, prev) + detach_events(prev_b, msq));
    }
    events
}

/// Does the event list hold an attach event for this role?
pub open spec fn has_attach_for(events: Seq<DeviceEvent>, role: Seq<char>) -> bool {
    exists|i: int|
        {
            &&& 0 <= i < events.len()
            &&& (#[trigger] events[i]) matches DeviceEvent::Attached(rd)
            &&& rd.role@ == role
        }
}

/// Does the event list hold a detach event for this role?
pub open spec fn has_detach_for(events: Seq<DeviceEvent>, role: Seq<char>) -> bool {
    exists|i: int|
        {
            &&& 0 <= i < events.len()
            &&& (#[trigger] events[i]) matches DeviceEvent::Detached(r)
            &&& r@ == role
        }
}

/// The attach list holds an event for exactly the newly active roles, one
/// each.
proof fn lemma_attach_events_exact(ms: Seq<CycleMatch>, prev: Map<Seq<char>, Seq<char>>)
    requires
        forall|a: int, b: int| 0 <= a < b < ms.len() ==> ms[a].role@ != ms[b].role@,
    ensures
        forall|role: Seq<char>|
            #[trigger] has_attach_for(attach_events(ms, prev), role) <==> (cycle_claims(ms, role)
                && !prev.contains_key(role)),
        forall|i: int, j: int|
            0 <= i < j < attach_events(ms, prev).len()
                ==> !((#[trigger] attach_events(ms, prev)[i]) matches DeviceEvent::Attached(x)
                && (#[trigger] attach_events(ms, prev)[j]) matches DeviceEvent::Attached(y)
                && x.role@ == y.role@),
    decreases ms.len(),
{
    if ms.len() > 0 {
        let dl = ms.drop_last();
        let m = ms.last();
        assert forall|a: int, b: int| 0 <= a < b < dl.len() implies dl[a].role@ != dl[b].role@ by {
            assert(dl[a] == ms[a]);
            assert(dl[b] == ms[b]);
        }
        lemma_attach_events_exact(dl, prev);
        let av = attach_events(ms, prev);
        let a0 = attach_events(dl, prev);
        assert(!cycle_claims(dl, m.role@)) by {
            if cycle_claims(dl, m.role@) {
                let l = choose|l: int| 0 <= l < dl.len() && (#[trigger] dl[l]).role@ == m.role@;
                assert(ms[l].role@ == ms[ms.len() - 1].role@);
                assert(false);
            }
        }
        assert forall|role: Seq<char>| #[trigger] has_attach_for(av, role) implies (cycle_claims(
            ms,
            role,
        ) && !prev.contains_key(role)) by {
            let i = choose|i: int|
                {
                    &&& 0 <= i < av.len()
                    &&& (#[trigger] av[i]) matches DeviceEvent::Attached(rd)
                    &&& rd.role@ == role
                };
            if i < a0.len() {
                assert(av[i] == a0[i]);
                assert(has_attach_for(a0, role));
                let l = choose|l: int| 0 <= l < dl.len() && (#[trigger] dl[l]).role@ == role;
                assert(ms[l].role@ == role);
            } else {
                assert(!prev.contains_key(m.role@));
                assert(role == m.role@);
                assert(ms[ms.len() - 1].role@ == role);
            }
        }
        assert forall|role: Seq<char>| (cycle_claims(ms, role) && !prev.contains_key(role))
            implies #[trigger] has_attach_for(av, role) by {
            let l = choose|l: int| 0 <= l < ms.len() && (#[trigger] ms[l]).role@ == role;
            if l < ms.len() - 1 {
                assert(dl[l].role@ == role);
                assert(has_attach_for(a0, role));
                let i = choose|i: int|
                    {
                        &&& 0 <= i < a0.len()
                        &&& (#[trigger] a0[i]) matches DeviceEvent::Attached(rd)
                        &&& rd.role@ == role
                    };
                assert(av[i] == a0[i]);
                assert(av[i] matches DeviceEvent::Attached(rd) && rd.role@ == role);
            } else {
                assert(role == m.role@);
                assert(av[av.len() - 1] matches DeviceEvent::Attached(rd) && rd.role@ == role);
            }
        }
        assert forall|i: int, j: int| 0 <= i < j < av.len() implies !((
        #[trigger] av[i]) matches DeviceEvent::Attached(x)
            && (#[trigger] av[j]) matches DeviceEvent::Attached(y) && x.role@ == y.role@) by {
            if j < a0.len() {
                assert(av[i] == a0[i]);
                assert(av[j] == a0[j]);
            } else if av.len() == a0.len() + 1 && j == av.len() - 1 {
                assert(av[i] == a0[i]);
                match av[i] {
                    DeviceEvent::Attached(x) => {
                        assert(has_attach_for(a0, x.role@)) by {
                            assert(a0[i] matches DeviceEvent::Attached(rd) && rd.role@ == x.role@);
                        }
                        assert(cycle_claims(dl, x.role@));
                        assert(av[j] matches DeviceEvent::Attached(y) ==> y.role@ == m.role@);
                    },
                    _ => {},
                }
            }
        }
    }
}

/// The detach list holds an event for exactly the newly inactive roles, one
/// each.
proof fn lemma_detach_events_exact(bindings: Seq<Binding>, ms: Seq<CycleMatch>)
    requires
        roles_distinct(bindings),
    ensures
        forall|role: Seq<char>|
            #[trigger] has_detach_for(detach_events(bindings, ms), role) <==> ((exists|i: int|
                0 <= i < bindings.len() && (#[trigger] bindings[i]).role@ == role)
                && !cycle_claims(ms, role)),
        forall|i: int, j: int|
            0 <= i < j < detach_events(bindings, ms).len()
                ==> !((#[trigger] detach_events(bindings, ms)[i]) matches DeviceEvent::Detached(x)
                && (#[trigger] detach_events(bindings, ms)[j]) matches DeviceEvent::Detached(y)
                && x@ == y@),
    decreases bindings.len(),
{
    if bindings.len() > 0 {
        let dl = bindings.drop_last();
        let b = bindings.last();
        assert forall|i: int, j: int| 0 <= i < j < dl.len() implies dl[i].role@
            != dl[j].role@ by {
            assert(dl[i] == bindings[i]);
            assert(dl[j] == bindings[j]);
        }
        lemma_detach_events_exact(dl, ms);
        let dv = detach_events(bindings, ms);
        let d0 = detach_events(dl, ms);
        assert forall|role: Seq<char>| #[trigger] has_detach_for(dv, role) implies ((exists|i: int|
            0 <= i < bindings.len() && (#[trigger] bindings[i]).role@ == role) && !cycle_claims(
            ms,
            role,
        )) by {
            let i = choose|i: int|
                {
                    &&& 0 <= i < dv.len()
                    &&& (#[trigger] dv[i]) matches DeviceEvent::Detached(r)
                    &&& r@ == role
                };
            if i < d0.len() {
                assert(dv[i] == d0[i]);
                assert(has_detach_for(d0, role));
                let l = choose|l: int| 0 <= l < dl.len() && (#[trigger] dl[l]).role@ == role;
                assert(bindings[l].role@ == role);
            } else {
                assert(!cycle_claims(ms, b.role@));
                assert(role == b.role@);
                assert(bindings[bindings.len() - 1].role@ == role);
            }
        }
        assert forall|role: Seq<char>| ((exists|i: int|
            0 <= i < bindings.len() && (#[trigger] bindings[i]).role@ == role) && !cycle_claims(
            ms,
            role,
        )) implies #[trigger] has_detach_for(dv, role) by {
            let l = choose|l: int|
                0 <= l < bindings.len() && (#[trigger] bindings[l]).role@ == role;
            if l < bindings.len() - 1 {
                assert(dl[l].role@ == role);
                assert(has_detach_for(d0, role));
                let i = choose|i: int|
                    {
                        &&& 0 <= i < d0.len()
                        &&& (#[trigger] d0[i]) matches DeviceEvent::Detached(r)
                        &&& r@ == role
                    };
                assert(dv[i] == d0[i]);
                assert(dv[i] matches DeviceEvent::Detached(r) && r@ == role);
            } else {
                assert(role == b.role@);
                assert(dv[dv.len() - 1] matches DeviceEvent::Detached(r) && r@ == role);
            }
        }
        assert forall|i: int, j: int| 0 <= i < j < dv.len() implies !((
        #[trigger] dv[i]) matches DeviceEvent::Detached(x)
            && (#[trigger] dv[j]) matches DeviceEvent::Detached(y) && x@ == y@) by {
            if j < d0.len() {
                assert(dv[i] == d0[i]);
                assert(dv[j] == d0[j]);
            } else if dv.len() == d0.len() + 1 && j == dv.len() - 1 {
                assert(dv[i] == d0[i]);
                match dv[i] {
                    DeviceEvent::Detached(x) => {
                        assert(has_detach_for(d0, x@)) by {
                            assert(d0[i] matches DeviceEvent::Detached(r) && r@ == x@);
                        }
                        let l = choose|l: int| 0 <= l < dl.len() && (#[trigger] dl[l]).role@ == x@;
                        assert(bindings[l].role@ == x@);
                        assert(bindings[l].role@ != b.role@);
                    },
                    _ => {},
                }
            }
        }
    }
}

/// Diff completeness: against a previous role map and a per-cycle role
/// assignment, the cycle emits an attach event for exactly the roles the
/// assignment claims that were not previously active, and a detach event for
/// exactly the previously active roles the assignment does not claim; each
/// role appears in at most one event of either kind, and a role present in
/// both snapshots appears in none.
pub proof fn lemma_diff_complete(ms: Seq<CycleMatch>, prev_b: Seq<Binding>)
    requires
        roles_distinct(prev_b),
        forall|a: int, b: int| 0 <= a < b < ms.len() ==> ms[a].role@ != ms[b].role@,
    ensures
        forall|role: Seq<char>|
            #[trigger] has_attach_for(attach_events(ms, role_map(prev_b)), role) <==> (
            cycle_claims(ms, role) && !role_map(prev_b).contains_key(role)),
        forall|role: Seq<char>|
            #[trigger] has_detach_for(detach_events(prev_b, ms), role) <==> (role_map(
                prev_b,
            ).contains_key(role) && !cycle_claims(ms, role)),
        forall|i: int, j: int|
            0 <= i < j < attach_events(ms, role_map(prev_b)).len() ==> !((
            #[trigger] attach_events(ms, role_map(prev_b))[i]) matches DeviceEvent::Attached(x)
                && (#[trigger] attach_events(ms, role_map(prev_b))[j]) matches
                    DeviceEvent::Attached(y) && x.role@ == y.role@),
        forall|i: int, j: int|
            0 <= i < j < detach_events(prev_b, ms).len() ==> !((
            #[trigger] detach_events(prev_b, ms)[i]) matches DeviceEvent::Detached(x)
                && (#[trigger] detach_events(prev_b, ms)[j]) matches DeviceEvent::Detached(y)
                && x@ == y@),
        forall|role: Seq<char>|
            role_map(prev_b).contains_key(role) && cycle_claims(ms, role) ==> !has_attach_for(
                attach_events(ms, role_map(prev_b)),
                role,
            ) && !has_detach_for(detach_events(prev_b, ms), role),
{
    lemma_attach_events_exact(ms, role_map(prev_b));
    lemma_detach_events_exact(prev_b, ms);
    assert forall|role: Seq<char>| #[trigger] has_detach_for(detach_events(prev_b, ms), role)
        <==> (role_map(prev_b).contains_key(role) && !cycle_claims(ms, role)) by {
        lemma_role_map_contains(prev_b, role);
    }
}

} // verus!
