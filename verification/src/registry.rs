//! The role registry: which role is currently bound to which device path.
//!
//! The registry keeps two mappings, role -> system path and system path ->
//! role.  A role is bound to at most one device at any instant, and an
//! attach attempt is accepted exactly when its rule's role is not currently
//! active -- the role alone decides.  Internally the registry is a list of
//! bindings whose roles are pairwise distinct; the two maps are derived
//! views of that list, with the reverse index following the newest binding
//! for a path.  While every accepted attach carries a path no other binding
//! still holds -- the normal run of things, since a detached device's
//! binding is removed before its node is reused -- the paths are pairwise
//! distinct too and the two maps are inverse of one another; a stale binding
//! left behind by the detach-by-path blind spot can break that inverse
//! relation, a documented consistency gap, not repaired here.

use vstd::prelude::*;

use crate::text;
use crate::{DeviceEvent, DeviceRule, MatchMethod, RawDeviceInfo, ResolvedDevice, RoleId};

verus! {

/// One active binding: this role is filled by the device at this system path.
#[derive(Debug)]
pub struct Binding {
    pub role: RoleId,
    pub path: String,
}

/// The role -> path mapping described by a list of bindings.
pub open spec fn role_map(s: Seq<Binding>) -> Map<Seq<char>, Seq<char>>
    decreases s.len(),
{
    if s.len() == 0 {
        Map::empty()
    } else {
        role_map(s.drop_last()).insert(s.last().role@, s.last().path@)
    }
}

/// The path -> role mapping described by a list of bindings; when two
/// bindings carry the same path, the newer one wins, as an insert into the
/// reverse index would.
pub open spec fn path_map(s: Seq<Binding>) -> Map<Seq<char>, Seq<char>>
    decreases s.len(),
{
    if s.len() == 0 {
        Map::empty()
    } else {
        path_map(s.drop_last()).insert(s.last().path@, s.last().role@)
    }
}

/// Roles pairwise distinct: the invariant every registry operation keeps.
pub open spec fn roles_distinct(s: Seq<Binding>) -> bool {
    forall|i: int, j: int| 0 <= i < j < s.len() ==> s[i].role@ != s[j].role@
}

/// Paths pairwise distinct: holds as long as no accepted attach has re-used
/// a path some other binding still holds.
pub open spec fn paths_distinct(s: Seq<Binding>) -> bool {
    forall|i: int, j: int| 0 <= i < j < s.len() ==> s[i].path@ != s[j].path@
}

/// A key is in the role map exactly when some binding carries that role.
pub proof fn lemma_role_map_contains(s: Seq<Binding>, k: Seq<char>)
    ensures
        role_map(s).contains_key(k) <==> exists|i: int| 0 <= i < s.len() && s[i].role@ == k,
    decreases s.len(),
{
    if s.len() > 0 {
        lemma_role_map_contains(s.drop_last(), k);
        if s.last().role@ == k {
            assert(s[s.len() - 1].role@ == k);
        } else if exists|i: int| 0 <= i < s.len() && s[i].role@ == k {
            let i = choose|i: int| 0 <= i < s.len() && s[i].role@ == k;
            assert(s.drop_last()[i] == s[i]);
        }
    }
}

/// A key is in the path map exactly when some binding carries that path.
pub proof fn lemma_path_map_contains(s: Seq<Binding>, k: Seq<char>)
    ensures
        path_map(s).contains_key(k) <==> exists|i: int| 0 <= i < s.len() && s[i].path@ == k,
    decreases s.len(),
{
    if s.len() > 0 {
        lemma_path_map_contains(s.drop_last(), k);
        if s.last().path@ == k {
            assert(s[s.len() - 1].path@ == k);
        } else if exists|i: int| 0 <= i < s.len() && s[i].path@ == k {
            let i = choose|i: int| 0 <= i < s.len() && s[i].path@ == k;
            assert(s.drop_last()[i] == s[i]);
        }
    }
}

/// With distinct roles, each binding's role maps to its own path.
pub proof fn lemma_role_map_index(s: Seq<Binding>, i: int)
    requires
        roles_distinct(s),
        0 <= i < s.len(),
    ensures
        role_map(s).contains_key(s[i].role@),
        role_map(s)[s[i].role@] == s[i].path@,
    decreases s.len(),
{
    if i == s.len() - 1 {
    } else {
        assert(s.drop_last()[i] == s[i]);
        lemma_role_map_index(s.drop_last(), i);
    }
}

/// With distinct paths, each binding's path maps to its own role.
pub proof fn lemma_path_map_index(s: Seq<Binding>, i: int)
    requires
        paths_distinct(s),
        0 <= i < s.len(),
    ensures
        path_map(s).contains_key(s[i].path@),
        path_map(s)[s[i].path@] == s[i].role@,
    decreases s.len(),
{
    if i == s.len() - 1 {
    } else {
        assert(s.drop_last()[i] == s[i]);
        lemma_path_map_index(s.drop_last(), i);
    }
}

/// Removing a binding removes exactly its role from the role map.
pub proof fn lemma_role_map_remove(s: Seq<Binding>, i: int)
    requires
        roles_distinct(s),
        0 <= i < s.len(),
    ensures
        role_map(s.remove(i)) == role_map(s).remove(s[i].role@),
    decreases s.len(),
{
    lemma_role_map_contains(s.drop_last(), s.last().role@);
    if i == s.len() - 1 {
        assert(s.remove(i) =~= s.drop_last());
        assert(role_map(s.drop_last()) =~= role_map(s).remove(s[i].role@));
    } else {
        lemma_role_map_remove(s.drop_last(), i);
        assert(s.remove(i).drop_last() =~= s.drop_last().remove(i));
        assert(s.remove(i).last() == s.last());
        assert(role_map(s.remove(i)) == role_map(s.drop_last().remove(i)).insert(
            s.last().role@,
            s.last().path@,
        ));
        assert(s.drop_last()[i] == s[i]);
        assert(role_map(s.drop_last()).remove(s[i].role@).insert(s.last().role@, s.last().path@)
            =~= role_map(s.drop_last()).insert(s.last().role@, s.last().path@).remove(s[i].role@));
    }
}

/// With distinct paths, removing a binding removes exactly its path from the
/// path map.
pub proof fn lemma_path_map_remove(s: Seq<Binding>, i: int)
    requires
        paths_distinct(s),
        0 <= i < s.len(),
    ensures
        path_map(s.remove(i)) == path_map(s).remove(s[i].path@),
    decreases s.len(),
{
    lemma_path_map_contains(s.drop_last(), s.last().path@);
    if i == s.len() - 1 {
        assert(s.remove(i) =~= s.drop_last());
        assert(path_map(s.drop_last()) =~= path_map(s).remove(s[i].path@));
    } else {
        lemma_path_map_remove(s.drop_last(), i);
        assert(s.remove(i).drop_last() =~= s.drop_last().remove(i));
        assert(s.remove(i).last() == s.last());
        assert(path_map(s.remove(i)) == path_map(s.drop_last().remove(i)).insert(
            s.last().path@,
            s.last().role@,
        ));
        assert(s.drop_last()[i] == s[i]);
        assert(path_map(s.drop_last()).remove(s[i].path@).insert(s.last().path@, s.last().role@)
            =~= path_map(s.drop_last()).insert(s.last().path@, s.last().role@).remove(s[i].path@));
    }
}

/// The index of the unique binding carrying this role, when one does.
pub open spec fn role_index(s: Seq<Binding>, k: Seq<char>) -> int {
    choose|i: int| 0 <= i < s.len() && s[i].role@ == k
}

/// The index of the newest binding carrying this path: the one the reverse
/// index follows.
pub open spec fn last_path_index(s: Seq<Binding>, p: Seq<char>) -> Option<int>
    decreases s.len(),
{
    if s.len() == 0 {
        None
    } else if s.last().path@ == p {
        Some(s.len() - 1)
    } else {
        last_path_index(s.drop_last(), p)
    }
}

/// What the newest-binding search yields: that binding carries the path, no
/// later one does, and the path map points at its role; absence means the
/// path is untracked.
pub proof fn lemma_last_path_index(s: Seq<Binding>, p: Seq<char>)
    ensures
        match last_path_index(s, p) {
            Some(i) => {
                &&& 0 <= i < s.len()
                &&& s[i].path@ == p
                &&& forall|j: int| i < j < s.len() ==> s[j].path@ != p
                &&& path_map(s).contains_key(p)
                &&& path_map(s)[p] == s[i].role@
            },
            None => {
                &&& forall|j: int| 0 <= j < s.len() ==> s[j].path@ != p
                &&& !path_map(s).contains_key(p)
            },
        },
    decreases s.len(),
{
    if s.len() > 0 && s.last().path@ != p {
        lemma_last_path_index(s.drop_last(), p);
        match last_path_index(s.drop_last(), p) {
            Some(i) => {
                assert(s.drop_last()[i] == s[i]);
                assert forall|j: int| i < j < s.len() implies s[j].path@ != p by {
                    if j < s.len() - 1 {
                        assert(s.drop_last()[j] == s[j]);
                    }
                }
            },
            None => {
                assert forall|j: int| 0 <= j < s.len() implies s[j].path@ != p by {
                    if j < s.len() - 1 {
                        assert(s.drop_last()[j] == s[j]);
                    }
                }
            },
        }
    }
}

/// Distinct roles stay distinct when a binding is removed, and so do
/// distinct paths.
pub proof fn lemma_distinct_remove(s: Seq<Binding>, i: int)
    requires
        0 <= i < s.len(),
    ensures
        roles_distinct(s) ==> roles_distinct(s.remove(i)),
        paths_distinct(s) ==> paths_distinct(s.remove(i)),
{
    assert forall|a: int, b: int| 0 <= a < b < s.remove(i).len() implies {
        &&& (roles_distinct(s) ==> s.remove(i)[a].role@ != s.remove(i)[b].role@)
        &&& (paths_distinct(s) ==> s.remove(i)[a].path@ != s.remove(i)[b].path@)
    } by {
        let a0 = if a < i {
            a
        } else {
            a + 1
        };
        let b0 = if b < i {
            b
        } else {
            b + 1
        };
        assert(s.remove(i)[a] == s[a0]);
        assert(s.remove(i)[b] == s[b0]);
    }
}

/// Tracks which role is bound to which device path; a role holds at most one
/// device at any instant, and the first match in enumeration order keeps it
/// until it is detached.
#[derive(Debug)]
pub struct RoleRegistry {
    entries: Vec<Binding>,
}

impl RoleRegistry {
    /// The current bindings, oldest first.
    pub closed spec fn bindings(&self) -> Seq<Binding> {
        self.entries@
    }

    /// The active roles: role -> bound system path.
    pub open spec fn roles(&self) -> Map<Seq<char>, Seq<char>> {
        role_map(self.bindings())
    }

    /// The reverse index: bound system path -> role, newest binding winning.
    pub open spec fn paths(&self) -> Map<Seq<char>, Seq<char>> {
        path_map(self.bindings())
    }

    /// Internal invariant: roles are pairwise distinct.
    pub open spec fn wf(&self) -> bool {
        roles_distinct(self.bindings())
    }

    /// An empty registry, created at monitor start.
    pub fn new() -> (r: Self)
        ensures
            r.wf(),
            r.bindings() =~= Seq::<Binding>::empty(),
            r.roles() =~= Map::<Seq<char>, Seq<char>>::empty(),
            r.paths() =~= Map::<Seq<char>, Seq<char>>::empty(),
    {
        RoleRegistry { entries: Vec::new() }
    }

    /// Number of active bindings.
    pub fn len(&self) -> (n: usize)
        ensures
            n == self.bindings().len(),
    {
        self.entries.len()
    }

    /// Index of the binding holding this role, if any.
    fn find_role(&self, role: &String) -> (r: Option<usize>)
        ensures
            match r {
                Some(i) => i < self.bindings().len() && self.bindings()[i as int].role@ == role@,
                None => forall|i: int|
                    0 <= i < self.bindings().len() ==> self.bindings()[i].role@ != role@,
            },
    {
        let n = self.entries.len();
        for j in 0..n
            invariant
                n == self.entries@.len(),
                forall|i: int| 0 <= i < j ==> self.entries@[i].role@ != role@,
        {
            if text::string_eq(&self.entries[j].role, role) {
                return Some(j);
            }
        }
        None
    }

    /// Index of the newest binding holding this path, if any.
    fn find_path_last(&self, path: &String) -> (r: Option<usize>)
        ensures
            match r {
                Some(i) => last_path_index(self.bindings(), path@) == Some(i as int),
                None => last_path_index(self.bindings(), path@) is None,
            },
    {
        let n = self.entries.len();
        proof {
            assert(self.entries@.take(n as int) =~= self.entries@);
        }
        let mut k: usize = n;
        while k > 0
            invariant
                k <= n,
                n == self.entries@.len(),
                last_path_index(self.entries@, path@) == last_path_index(
                    self.entries@.take(k as int),
                    path@,
                ),
            decreases k,
        {
            proof {
                assert(self.entries@.take(k as int).last() == self.entries@[k - 1]);
                assert(self.entries@.take(k as int).drop_last() =~= self.entries@.take(k - 1));
            }
            if text::string_eq(&self.entries[k - 1].path, path) {
                return Some(k - 1);
            }
            k = k - 1;
        }
        None
    }

    /// Is this role currently bound to a device?
    pub fn is_active(&self, role: &String) -> (r: bool)
        ensures
            r == self.roles().contains_key(role@),
    {
        proof {
            lemma_role_map_contains(self.bindings(), role@);
        }
        self.find_role(role).is_some()
    }

    /// The system path the role is bound to, if it is active.
    pub fn path_of(&self, role: &String) -> (r: Option<String>)
        requires
            self.wf(),
        ensures
            match r {
                Some(p) => self.roles().contains_key(role@) && p@ == self.roles()[role@],
                None => !self.roles().contains_key(role@),
            },
    {
        proof {
            lemma_role_map_contains(self.bindings(), role@);
        }
        match self.find_role(role) {
            Some(i) => {
                proof {
                    lemma_role_map_index(self.bindings(), i as int);
                }
                Some(self.entries[i].path.clone())
            },
            None => None,
        }
    }

    /// The role a system path is bound to, if it is tracked; with the newest
    /// binding winning, as the reverse index does.
    pub fn role_of(&self, path: &String) -> (r: Option<String>)
        ensures
            match r {
                Some(role) => self.paths().contains_key(path@) && role@ == self.paths()[path@],
                None => !self.paths().contains_key(path@),
            },
    {
        proof {
            lemma_last_path_index(self.bindings(), path@);
        }
        match self.find_path_last(path) {
            Some(i) => Some(self.entries[i].role.clone()),
            None => None,
        }
    }

    /// Attempt to bind a matched device to its rule's role.  Accepted exactly
    /// when the role is not currently active -- the role alone decides; on
    /// acceptance both maps gain the pair and the attach event to emit is
    /// returned.  A rejected attempt is a silent no-op: another device
    /// already fills the role (first match in enumeration order wins, no
    /// replacement).  An accepted device whose path some other binding still
    /// holds -- possible when the detach-by-path blind spot left a stale
    /// binding behind -- makes the reverse index follow the new binding
    /// while the stale role stays listed; the last clause shows path
    /// distinctness is kept exactly when that does not happen.
    pub fn try_attach(&mut self, rule: &DeviceRule, device: &RawDeviceInfo, method: MatchMethod)
        -> (r: Option<DeviceEvent>)
        requires
            old(self).wf(),
        ensures
            final(self).wf(),
            ({
                let role = rule.role@;
                let path = device.system_path@;
                if !old(self).roles().contains_key(role) {
                    &&& final(self).bindings() == old(self).bindings().push(
                        Binding { role: rule.role, path: device.system_path },
                    )
                    &&& final(self).roles() == old(self).roles().insert(role, path)
                    &&& final(self).paths() == old(self).paths().insert(path, role)
                    &&& r matches Some(DeviceEvent::Attached(rd))
                    &&& rd.role == rule.role
                    &&& rd.device == *device
                    &&& rd.match_method == method
                    &&& (paths_distinct(old(self).bindings()) && !old(self).paths().contains_key(
                        path,
                    )) ==> paths_distinct(final(self).bindings())
                } else {
                    &&& r is None
                    &&& final(self).bindings() == old(self).bindings()
                }
            }),
    {
        self.attach_role(&rule.role, device, method)
    }

    /// The same attach decision, keyed by the role directly; the diff engine
    /// uses it with the per-cycle role assignment.
    pub fn attach_role(&mut self, role: &RoleId, device: &RawDeviceInfo, method: MatchMethod)
        -> (r: Option<DeviceEvent>)
        requires
            old(self).wf(),
        ensures
            final(self).wf(),
            ({
                let role_key = role@;
                let path = device.system_path@;
                if !old(self).roles().contains_key(role_key) {
                    &&& final(self).bindings() == old(self).bindings().push(
                        Binding { role: *role, path: device.system_path },
                    )
                    &&& final(self).roles() == old(self).roles().insert(role_key, path)
                    &&& final(self).paths() == old(self).paths().insert(path, role_key)
                    &&& r matches Some(DeviceEvent::Attached(rd))
                    &&& rd.role == *role
                    &&& rd.device == *device
                    &&& rd.match_method == method
                    &&& (paths_distinct(old(self).bindings()) && !old(self).paths().contains_key(
                        path,
                    )) ==> paths_distinct(final(self).bindings())
                } else {
                    &&& r is None
                    &&& final(self).bindings() == old(self).bindings()
                }
            }),
    {
        proof {
            lemma_role_map_contains(self.bindings(), role@);
            lemma_path_map_contains(self.bindings(), device.system_path@);
        }
        if self.find_role(role).is_some() {
            return None;
        }
        let binding = Binding { role: role.clone(), path: device.system_path.clone() };
        self.entries.push(binding);
        proof {
            let s = self.entries@;
            assert(s.drop_last() =~= old(self).bindings());
            assert(s.last() == (Binding { role: *role, path: device.system_path }));
            assert(s =~= old(self).bindings().push(
                Binding { role: *role, path: device.system_path },
            ));
            assert forall|i: int, j: int| 0 <= i < j < s.len() implies s[i].role@
                != s[j].role@ by {
                if j == s.len() - 1 {
                    assert(s[i] == old(self).bindings()[i]);
                }
            }
            if paths_distinct(old(self).bindings()) && !old(self).paths().contains_key(
                device.system_path@,
            ) {
                assert forall|i: int, j: int| 0 <= i < j < s.len() implies s[i].path@
                    != s[j].path@ by {
                    if j == s.len() - 1 {
                        assert(s[i] == old(self).bindings()[i]);
                    } else {
                        assert(s[i] == old(self).bindings()[i]);
                        assert(s[j] == old(self).bindings()[j]);
                    }
                }
            }
        }
        Some(
            DeviceEvent::Attached(
                ResolvedDevice { role: role.clone(), device: device.clone(), match_method: method },
            ),
        )
    }

    /// The role held by the binding at this position, oldest first.
    pub fn role_at(&self, i: usize) -> (r: &String)
        requires
            i < self.bindings().len(),
        ensures
            *r == self.bindings()[i as int].role,
    {
        &self.entries[i].role
    }

    /// Remove the binding the reverse index holds for this system path, if
    /// any, returning the detach event to emit.  An unknown or untracked
    /// path is a no-op: on some platforms the removal notification carries a
    /// different path representation than the one stored, a documented blind
    /// spot.
    pub fn detach_by_path(&mut self, system_path: &String) -> (r: Option<DeviceEvent>)
        requires
            old(self).wf(),
        ensures
            final(self).wf(),
            ({
                let path = system_path@;
                if old(self).paths().contains_key(path) {
                    &&& last_path_index(old(self).bindings(), path) matches Some(i)
                    &&& r matches Some(DeviceEvent::Detached(role))
                    &&& role == old(self).bindings()[i].role
                    &&& role@ == old(self).paths()[path]
                    &&& final(self).bindings() == old(self).bindings().remove(i)
                    &&& final(self).roles() == old(self).roles().remove(role@)
                    &&& paths_distinct(old(self).bindings()) ==> final(self).paths() == old(
                        self,
                    ).paths().remove(path)
                    &&& paths_distinct(old(self).bindings()) ==> paths_distinct(
                        final(self).bindings(),
                    )
                } else {
                    &&& r is None
                    &&& final(self).bindings() == old(self).bindings()
                }
            }),
    {
        proof {
            lemma_last_path_index(self.bindings(), system_path@);
        }
        match self.find_path_last(system_path) {
            Some(i) => {
                proof {
                    lemma_role_map_remove(self.bindings(), i as int);
                    lemma_distinct_remove(self.bindings(), i as int);
                    if paths_distinct(self.bindings()) {
                        lemma_path_map_remove(self.bindings(), i as int);
                    }
                }
                let binding = self.entries.remove(i);
                Some(DeviceEvent::Detached(binding.role))
            },
            None => None,
        }
    }

    /// Remove the binding that holds this role, if any; used by the diff
    /// engine when a role's current device is absent from a fresh scan.
    pub fn detach_by_role(&mut self, role: &String) -> (r: Option<DeviceEvent>)
        requires
            old(self).wf(),
        ensures
            final(self).wf(),
            ({
                let role_key = role@;
                if old(self).roles().contains_key(role_key) {
                    let i = role_index(old(self).bindings(), role_key);
                    &&& r matches Some(DeviceEvent::Detached(detached))
                    &&& detached@ == role_key
                    &&& final(self).roles() == old(self).roles().remove(role_key)
                    &&& 0 <= i < old(self).bindings().len()
                    &&& old(self).bindings()[i].role@ == role_key
                    &&& detached == old(self).bindings()[i].role
                    &&& final(self).bindings() == old(self).bindings().remove(i)
                    &&& paths_distinct(old(self).bindings()) ==> final(self).paths() == old(
                        self,
                    ).paths().remove(old(self).roles()[role_key])
                    &&& paths_distinct(old(self).bindings()) ==> paths_distinct(
                        final(self).bindings(),
                    )
                } else {
                    &&& r is None
                    &&& final(self).bindings() == old(self).bindings()
                }
            }),
    {
        proof {
            lemma_role_map_contains(self.bindings(), role@);
        }
        match self.find_role(role) {
            Some(i) => {
                proof {
                    lemma_role_map_index(self.bindings(), i as int);
                    lemma_role_map_remove(self.bindings(), i as int);
                    lemma_distinct_remove(self.bindings(), i as int);
                    if paths_distinct(self.bindings()) {
                        lemma_path_map_remove(self.bindings(), i as int);
                    }
                    let s = self.bindings();
                    let gi = role_index(s, role@);
                    assert(0 <= gi < s.len() && s[gi].role@ == role@);
                    assert(gi == i as int);
                }
                let binding = self.entries.remove(i);
                Some(DeviceEvent::Detached(binding.role))
            },
            None => None,
        }
    }
}

/// Registry exclusivity: while the bindings' paths are pairwise distinct --
/// which the operations' contracts show is kept exactly as long as no
/// accepted attach re-uses a path some other binding still holds -- the two
/// maps are inverse of one another: for every active role, the path it is
/// bound to maps back to that same role, and no two roles are bound to the
/// same path.  An attach that does re-use a still-bound path (the role free,
/// the path held by a stale binding) is the one kind of step that leaves
/// this hypothesis behind.
pub proof fn lemma_registry_exclusive(reg: RoleRegistry)
    requires
        reg.wf(),
        paths_distinct(reg.bindings()),
    ensures
        forall|role: Seq<char>| #[trigger] reg.roles().contains_key(role) ==> {
            &&& reg.paths().contains_key(reg.roles()[role])
            &&& reg.paths()[reg.roles()[role]] == role
        },
        forall|r1: Seq<char>, r2: Seq<char>|
            reg.roles().contains_key(r1) && reg.roles().contains_key(r2) && r1 != r2
                ==> reg.roles()[r1] != reg.roles()[r2],
{
    let s = reg.bindings();
    assert forall|role: Seq<char>| #[trigger] reg.roles().contains_key(role) implies {
        &&& reg.paths().contains_key(reg.roles()[role])
        &&& reg.paths()[reg.roles()[role]] == role
    } by {
        lemma_role_map_contains(s, role);
        let i = choose|i: int| 0 <= i < s.len() && s[i].role@ == role;
        lemma_role_map_index(s, i);
        lemma_path_map_index(s, i);
    }
    assert forall|r1: Seq<char>, r2: Seq<char>|
        reg.roles().contains_key(r1) && reg.roles().contains_key(r2) && r1 != r2
        implies reg.roles()[r1] != reg.roles()[r2] by {
        lemma_role_map_contains(s, r1);
        lemma_role_map_contains(s, r2);
        let i1 = choose|i: int| 0 <= i < s.len() && s[i].role@ == r1;
        let i2 = choose|i: int| 0 <= i < s.len() && s[i].role@ == r2;
        lemma_role_map_index(s, i1);
        lemma_role_map_index(s, i2);
    }
}

} // verus!
