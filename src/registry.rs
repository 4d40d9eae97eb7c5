use std::collections::HashMap;
use vstd::prelude::*;

verus! {

broadcast use vstd::std_specs::hash::group_hash_axioms;

/// The four joint variants that the simulator offers.
#[derive(Clone, Copy, Debug, PartialEq, Eq, Structural)]
pub enum JointKind {
    Distance,
    Mouse,
    Revolute,
    Prismatic,
}

/// A native joint handle, tagged with the variant it was created as.
#[derive(Clone, Copy, Debug, PartialEq, Eq, Structural)]
pub struct JointHandle {
    pub kind: JointKind,
    pub handle: u64,
}

/// What the registry keeps for a live joint: its handle and its two bodies.
#[derive(Clone, Copy, Debug, PartialEq, Eq, Structural)]
pub struct JointSlot {
    pub handle: JointHandle,
    pub body_a: u64,
    pub body_b: u64,
}

/// Why a registration was refused.
#[derive(Clone, Copy, Debug, PartialEq, Eq, Structural)]
pub enum RegistryError {
    /// A fixture or joint names a body entity that has no live native body.
    MissingBody(u64),
    /// A particle group names a particle-system entity that has no live native system.
    MissingParticleSystem(u64),
    /// A joint was looked up as one variant but was registered as another.
    WrongJointKind(u64),
    /// A joint entity has no live native joint.
    MissingJoint(u64),
}

/// The fixtures and joints that depend on one body.
struct Dependents {
    fixtures: Vec<u64>,
    joints: Vec<u64>,
}

/// The mathematical content of a registry: which entity owns which handle.
#[verifier::ext_equal]
pub struct RegistryModel {
    /// body entity -> native body handle
    pub bodies: Map<u64, u64>,
    /// fixture entity -> (native fixture handle, body entity)
    pub fixtures: Map<u64, (u64, u64)>,
    /// joint entity -> joint slot
    pub joints: Map<u64, JointSlot>,
    /// particle-system entity -> native particle-system handle
    pub systems: Map<u64, u64>,
    /// particle-group entity -> (native group handle, particle-system entity)
    pub groups: Map<u64, (u64, u64)>,
    /// the next handle value that will be given out
    pub next_handle: nat,
}

impl RegistryModel {
    /// The fixture entities attached to body `b`.
    pub open spec fn attached_fixtures(self, b: u64) -> Set<u64> {
        Set::new(|f: u64| self.fixtures.contains_key(f) && self.fixtures[f].1 == b)
    }

    /// The joint entities that have body `b` as one of their two ends.
    pub open spec fn attached_joints(self, b: u64) -> Set<u64> {
        Set::new(
            |j: u64|
                self.joints.contains_key(j) && (self.joints[j].body_a == b
                    || self.joints[j].body_b == b),
        )
    }

    /// Every stored handle is below `next_handle`, so a new one is fresh.
    pub open spec fn handles_below_next(self) -> bool {
        &&& forall|e: u64| #[trigger]
            self.bodies.contains_key(e) ==> self.bodies[e] < self.next_handle
        &&& forall|e: u64| #[trigger]
            self.fixtures.contains_key(e) ==> self.fixtures[e].0 < self.next_handle
        &&& forall|e: u64| #[trigger]
            self.joints.contains_key(e) ==> self.joints[e].handle.handle < self.next_handle
        &&& forall|e: u64| #[trigger]
            self.systems.contains_key(e) ==> self.systems[e] < self.next_handle
        &&& forall|e: u64| #[trigger]
            self.groups.contains_key(e) ==> self.groups[e].0 < self.next_handle
    }

    /// Dependents only point at live parents.
    pub open spec fn parents_live(self) -> bool {
        &&& forall|f: u64| #[trigger]
            self.fixtures.contains_key(f) ==> self.bodies.contains_key(self.fixtures[f].1)
        &&& forall|j: u64| #[trigger]
            self.joints.contains_key(j) ==> self.bodies.contains_key(self.joints[j].body_a)
                && self.bodies.contains_key(self.joints[j].body_b)
        &&& forall|g: u64| #[trigger]
            self.groups.contains_key(g) ==> self.systems.contains_key(self.groups[g].1)
    }

    pub open spec fn valid(self) -> bool {
        self.handles_below_next() && self.parents_live()
    }

    /// The model after creating body `e`, unless it already has a handle.
    pub open spec fn with_body(self, e: u64) -> RegistryModel {
        if self.bodies.contains_key(e) {
            self
        } else {
            RegistryModel {
                bodies: self.bodies.insert(e, self.next_handle as u64),
                next_handle: self.next_handle + 1,
                ..self
            }
        }
    }

    /// The model after creating fixture `f` on body `b`, unless `f` already has a handle.
    pub open spec fn with_fixture(self, f: u64, b: u64) -> RegistryModel {
        if self.fixtures.contains_key(f) {
            self
        } else {
            RegistryModel {
                fixtures: self.fixtures.insert(f, (self.next_handle as u64, b)),
                next_handle: self.next_handle + 1,
                ..self
            }
        }
    }

    /// The model after creating joint `j` of kind `k` between bodies `a` and `b`,
    /// unless `j` already has a handle.
    pub open spec fn with_joint(self, j: u64, k: JointKind, a: u64, b: u64) -> RegistryModel {
        if self.joints.contains_key(j) {
            self
        } else {
            RegistryModel {
                joints: self.joints.insert(
                    j,
                    JointSlot {
                        handle: JointHandle { kind: k, handle: self.next_handle as u64 },
                        body_a: a,
                        body_b: b,
                    },
                ),
                next_handle: self.next_handle + 1,
                ..self
            }
        }
    }

    /// The model after creating particle system `s`, unless it already has a handle.
    pub open spec fn with_system(self, s: u64) -> RegistryModel {
        if self.systems.contains_key(s) {
            self
        } else {
            RegistryModel {
                systems: self.systems.insert(s, self.next_handle as u64),
                next_handle: self.next_handle + 1,
                ..self
            }
        }
    }

    /// The model after creating particle group `g` in system `s`, unless `g`
    /// already has a handle.
    pub open spec fn with_group(self, g: u64, s: u64) -> RegistryModel {
        if self.groups.contains_key(g) {
            self
        } else {
            RegistryModel {
                groups: self.groups.insert(g, (self.next_handle as u64, s)),
                next_handle: self.next_handle + 1,
                ..self
            }
        }
    }

    /// The model after destroying fixture `f`.
    pub open spec fn without_fixture(self, f: u64) -> RegistryModel {
        RegistryModel { fixtures: self.fixtures.remove(f), ..self }
    }

    /// The model after destroying joint `j`.
    pub open spec fn without_joint(self, j: u64) -> RegistryModel {
        RegistryModel { joints: self.joints.remove(j), ..self }
    }

    /// The model after destroying body `e` together with every fixture and
    /// joint that depends on it.
    pub open spec fn without_body(self, e: u64) -> RegistryModel {
        RegistryModel {
            bodies: self.bodies.remove(e),
            fixtures: self.fixtures.remove_keys(self.attached_fixtures(e)),
            joints: self.joints.remove_keys(self.attached_joints(e)),
            ..self
        }
    }
}

/// The native objects to destroy when a body goes, in the order to destroy them.
pub struct BodyTeardown {
    /// (fixture entity, fixture handle) of each fixture on the body
    pub fixtures: Vec<(u64, u64)>,
    /// (joint entity, joint handle) of each joint with the body at one end
    pub joints: Vec<(u64, JointHandle)>,
    /// the body's own handle
    pub body: u64,
}

impl BodyTeardown {
    /// This teardown lists, for body `e` of model `m`, the body's handle and
    /// each attached fixture and joint exactly once, with its handle.
    pub open spec fn lists(self, m: RegistryModel, e: u64) -> bool {
        &&& m.bodies.contains_key(e)
        &&& self.body == m.bodies[e]
        &&& forall|i: int|
            0 <= i < self.fixtures@.len() ==> {
                let (f, h) = #[trigger] self.fixtures@[i];
                m.fixtures.contains_key(f) && m.fixtures[f] == (h, e)
            }
        &&& forall|f: u64|
            #[trigger] m.attached_fixtures(e).contains(f) ==> exists|i: int|
                0 <= i < self.fixtures@.len() && #[trigger] self.fixtures@[i].0 == f
        &&& forall|i: int, k: int|
            0 <= i < k < self.fixtures@.len() ==> #[trigger] self.fixtures@[i].0
                != #[trigger] self.fixtures@[k].0
        &&& forall|i: int|
            0 <= i < self.joints@.len() ==> {
                let (j, h) = #[trigger] self.joints@[i];
                m.attached_joints(e).contains(j) && m.joints[j].handle == h
            }
        &&& forall|j: u64|
            #[trigger] m.attached_joints(e).contains(j) ==> exists|i: int|
                0 <= i < self.joints@.len() && #[trigger] self.joints@[i].0 == j
        &&& forall|i: int, k: int|
            0 <= i < k < self.joints@.len() ==> #[trigger] self.joints@[i].0
                != #[trigger] self.joints@[k].0
    }
}

/// Removes `x` from a list without duplicates.
fn remove_entity(v: &mut Vec<u64>, x: u64)
    requires
        old(v)@.no_duplicates(),
    ensures
        final(v)@.no_duplicates(),
        final(v)@.to_set() == old(v)@.to_set().remove(x),
{
    let ghost s = v@;
    let mut i: usize = 0;
    while i < v.len()
        invariant
            v@ == s,
            s == old(v)@,
            s.no_duplicates(),
            0 <= i <= v.len(),
            forall|k: int| 0 <= k < i ==> s[k] != x,
        decreases v.len() - i,
    {
        if v[i] == x {
            v.remove(i);
            proof {
                let t = v@;
                assert(t =~= s.subrange(0, i as int) + s.subrange(i as int + 1, s.len() as int));
                assert forall|a: int, b: int| 0 <= a < b < t.len() implies t[a] != t[b] by {
                    let oa = if a < i { a } else { a + 1 };
                    let ob = if b < i { b } else { b + 1 };
                    assert(t[a] == s[oa] && t[b] == s[ob]);
                }
                assert forall|y: u64| t.to_set().contains(y) <==> s.to_set().remove(x).contains(y) by {
                    if t.contains(y) {
                        let k = choose|k: int| 0 <= k < t.len() && t[k] == y;
                        let ok = if k < i { k } else { k + 1 };
                        assert(s[ok] == y);
                        assert(ok != i);
                    }
                    if s.contains(y) && y != x {
                        let k = choose|k: int| 0 <= k < s.len() && s[k] == y;
                        assert(k != i);
                        let tk = if k < i { k } else { k - 1 };
                        assert(t[tk] == y);
                    }
                }
                assert(t.to_set() =~= s.to_set().remove(x));
            }
            return;
        }
        i += 1;
    }
    proof {
        assert(!s.contains(x));
        assert(s.to_set().remove(x) =~= s.to_set());
    }
}

/// Adds `x`, not yet present, to a list without duplicates.
fn add_entity(v: &mut Vec<u64>, x: u64)
    requires
        old(v)@.no_duplicates(),
        !old(v)@.contains(x),
    ensures
        final(v)@.no_duplicates(),
        final(v)@.to_set() == old(v)@.to_set().insert(x),
{
    v.push(x);
    proof {
        let s = old(v)@;
        assert(v@ =~= s.push(x));
        s.lemma_push_to_set_commute(x);
        assert forall|a: int, b: int| 0 <= a < b < v@.len() implies v@[a] != v@[b] by {
            if b == s.len() {
                assert(s.contains(v@[a]) ==> v@[a] != x);
                assert(s[a] == v@[a]);
            }
        }
    }
}

/// Maps entities to the native handles created for them.
pub struct HandleRegistry {
    bodies: HashMap<u64, u64>,
    dependents: HashMap<u64, Dependents>,
    fixtures: HashMap<u64, (u64, u64)>,
    joints: HashMap<u64, JointSlot>,
    systems: HashMap<u64, u64>,
    groups: HashMap<u64, (u64, u64)>,
    next_handle: u64,
}

impl View for HandleRegistry {
    type V = RegistryModel;

    closed spec fn view(&self) -> RegistryModel {
        RegistryModel {
            bodies: self.bodies@,
            fixtures: self.fixtures@,
            joints: self.joints@,
            systems: self.systems@,
            groups: self.groups@,
            next_handle: self.next_handle as nat,
        }
    }
}

impl HandleRegistry {
    /// The internal invariant: the per-body dependents lists agree with the
    /// fixture and joint maps, and the model is valid.
    pub closed spec fn wf(&self) -> bool {
        &&& self@.valid()
        &&& self.dependents@.dom() == self.bodies@.dom()
        &&& forall|b: u64| #[trigger]
            self.dependents@.contains_key(b) ==> {
                let d = self.dependents@[b];
                &&& d.fixtures@.no_duplicates()
                &&& d.joints@.no_duplicates()
                &&& d.fixtures@.to_set() == self@.attached_fixtures(b)
                &&& d.joints@.to_set() == self@.attached_joints(b)
            }
    }

    pub fn new() -> (r: HandleRegistry)
        ensures
            r.wf(),
            r@.bodies == Map::<u64, u64>::empty(),
            r@.fixtures == Map::<u64, (u64, u64)>::empty(),
            r@.joints == Map::<u64, JointSlot>::empty(),
            r@.systems == Map::<u64, u64>::empty(),
            r@.groups == Map::<u64, (u64, u64)>::empty(),
            r@.next_handle == 0,
    {
        HandleRegistry {
            bodies: HashMap::new(),
            dependents: HashMap::new(),
            fixtures: HashMap::new(),
            joints: HashMap::new(),
            systems: HashMap::new(),
            groups: HashMap::new(),
            next_handle: 0,
        }
    }

    /// How many more handles can be given out.
    pub fn handles_left(&self) -> (r: u64)
        ensures
            r == u64::MAX - self@.next_handle,
    {
        u64::MAX - self.next_handle
    }

    /// The native body handle of entity `e`, if it has one.
    pub fn lookup_body(&self, e: u64) -> (r: Option<u64>)
        ensures
            r == (if self@.bodies.contains_key(e) {
                Some(self@.bodies[e])
            } else {
                None::<u64>
            }),
    {
        match self.bodies.get(&e) {
            Some(h) => Some(*h),
            None => None,
        }
    }

    /// Creates the native body of `e` unless it already has one; returns the
    /// new handle, or `None` where nothing was created.
    pub fn create_body(&mut self, e: u64) -> (r: Option<u64>)
        requires
            old(self).wf(),
            old(self)@.next_handle < u64::MAX,
        ensures
            final(self).wf(),
            final(self)@ == old(self)@.with_body(e),
            r == (if old(self)@.bodies.contains_key(e) {
                None::<u64>
            } else {
                Some(old(self)@.next_handle as u64)
            }),
    {
        if self.bodies.contains_key(&e) {
            return None;
        }
        let h = self.next_handle;
        self.bodies.insert(e, h);
        self.dependents.insert(e, Dependents { fixtures: Vec::new(), joints: Vec::new() });
        self.next_handle = h + 1;
        proof {
            let m = self@;
            let o = old(self)@;
            assert(!o.bodies.contains_key(e));
            assert(m.fixtures == o.fixtures);
            assert forall|f: u64| o.fixtures.contains_key(f) implies #[trigger] o.fixtures[f].1 != e by {
                assert(o.bodies.contains_key(o.fixtures[f].1));
            }
            assert forall|j: u64| o.joints.contains_key(j) implies #[trigger] o.joints[j].body_a != e
                && o.joints[j].body_b != e by {
                assert(o.bodies.contains_key(o.joints[j].body_a));
            }
            assert(m.attached_fixtures(e) =~= Set::<u64>::empty());
            assert(m.attached_joints(e) =~= Set::<u64>::empty());
            assert forall|b: u64| #[trigger] self.dependents@.contains_key(b) implies {
                let d = self.dependents@[b];
                &&& d.fixtures@.to_set() == m.attached_fixtures(b)
                &&& d.joints@.to_set() == m.attached_joints(b)
            } by {
                if b != e {
                    assert(m.attached_fixtures(b) =~= old(self)@.attached_fixtures(b));
                    assert(m.attached_joints(b) =~= old(self)@.attached_joints(b));
                } else {
                    assert(self.dependents@[b].fixtures@.to_set() =~= Set::<u64>::empty());
                    assert(self.dependents@[b].joints@.to_set() =~= Set::<u64>::empty());
                }
            }
            assert(self.dependents@.dom() =~= self.bodies@.dom());
            assert(m =~= old(self)@.with_body(e));
        }
        Some(h)
    }

    /// The native fixture handle of entity `f`, if it has one.
    pub fn lookup_fixture(&self, f: u64) -> (r: Option<u64>)
        ensures
            r == (if self@.fixtures.contains_key(f) {
                Some(self@.fixtures[f].0)
            } else {
                None::<u64>
            }),
    {
        match self.fixtures.get(&f) {
            Some(slot) => Some(slot.0),
            None => None,
        }
    }

    /// The native handle of particle system `s`, if it has one.
    pub fn lookup_particle_system(&self, s: u64) -> (r: Option<u64>)
        ensures
            r == (if self@.systems.contains_key(s) {
                Some(self@.systems[s])
            } else {
                None::<u64>
            }),
    {
        match self.systems.get(&s) {
            Some(h) => Some(*h),
            None => None,
        }
    }

    /// The native handle of particle group `g`, if it has one.
    pub fn lookup_particle_group(&self, g: u64) -> (r: Option<u64>)
        ensures
            r == (if self@.groups.contains_key(g) {
                Some(self@.groups[g].0)
            } else {
                None::<u64>
            }),
    {
        match self.groups.get(&g) {
            Some(slot) => Some(slot.0),
            None => None,
        }
    }

    /// The tagged native handle of joint `j`, if it has one.
    pub fn lookup_joint(&self, j: u64) -> (r: Option<JointHandle>)
        ensures
            r == (if self@.joints.contains_key(j) {
                Some(self@.joints[j].handle)
            } else {
                None::<JointHandle>
            }),
    {
        match self.joints.get(&j) {
            Some(slot) => Some(slot.handle),
            None => None,
        }
    }

    /// The native handle of joint `j`, narrowed to variant `k`.
    pub fn lookup_joint_of_kind(&self, j: u64, k: JointKind) -> (r: Result<u64, RegistryError>)
        ensures
            !self@.joints.contains_key(j) ==> r == Err::<u64, RegistryError>(
                RegistryError::MissingJoint(j),
            ),
            self@.joints.contains_key(j) && self@.joints[j].handle.kind != k ==> r == Err::<
                u64,
                RegistryError,
            >(RegistryError::WrongJointKind(j)),
            self@.joints.contains_key(j) && self@.joints[j].handle.kind == k ==> r == Ok::<
                u64,
                RegistryError,
            >(self@.joints[j].handle.handle),
    {
        match self.joints.get(&j) {
            Some(slot) => {
                if slot.handle.kind == k {
                    Ok(slot.handle.handle)
                } else {
                    Err(RegistryError::WrongJointKind(j))
                }
            },
            None => Err(RegistryError::MissingJoint(j)),
        }
    }

    /// The fixture entities attached to body `b`.
    pub fn fixtures_attached_to(&self, b: u64) -> (r: Vec<u64>)
        requires
            self.wf(),
        ensures
            r@.no_duplicates(),
            r@.to_set() == self@.attached_fixtures(b),
    {
        let mut out: Vec<u64> = Vec::new();
        match self.dependents.get(&b) {
            Some(d) => {
                let mut i: usize = 0;
                while i < d.fixtures.len()
                    invariant
                        0 <= i <= d.fixtures.len(),
                        out@ == d.fixtures@.subrange(0, i as int),
                    decreases d.fixtures.len() - i,
                {
                    out.push(d.fixtures[i]);
                    proof {
                        assert(out@ =~= d.fixtures@.subrange(0, i + 1));
                    }
                    i += 1;
                }
                proof {
                    assert(out@ =~= d.fixtures@);
                }
            },
            None => {
                proof {
                    assert forall|f: u64| !#[trigger] self@.attached_fixtures(b).contains(f) by {
                        if self@.fixtures.contains_key(f) {
                            assert(self@.bodies.contains_key(self@.fixtures[f].1));
                        }
                    }
                    assert(self@.attached_fixtures(b) =~= Set::<u64>::empty());
                    assert(out@.to_set() =~= Set::<u64>::empty());
                }
            },
        }
        out
    }

    /// Creates the native fixture of `f` on body `b`. Fails where `b` has no
    /// native body; returns `None` where `f` already has a handle.
    pub fn create_fixture(&mut self, f: u64, b: u64) -> (r: Result<Option<(u64, u64)>, RegistryError>)
        requires
            old(self).wf(),
            old(self)@.next_handle < u64::MAX,
        ensures
            final(self).wf(),
            !old(self)@.bodies.contains_key(b) ==> r == Err::<Option<(u64, u64)>, RegistryError>(
                RegistryError::MissingBody(b),
            ) && final(self)@ == old(self)@,
            old(self)@.bodies.contains_key(b) ==> final(self)@ == old(self)@.with_fixture(f, b) && r
                == Ok::<Option<(u64, u64)>, RegistryError>(
                if old(self)@.fixtures.contains_key(f) {
                    None
                } else {
                    Some((old(self)@.next_handle as u64, old(self)@.bodies[b]))
                },
            ),
    {
        let bh = match self.bodies.get(&b) {
            Some(h) => *h,
            None => {
                return Err(RegistryError::MissingBody(b));
            },
        };
        if self.fixtures.contains_key(&f) {
            return Ok(None);
        }
        let ghost o = self@;
        let ghost od = self.dependents@;
        assert(od.contains_key(b));
        let mut d = match self.dependents.remove(&b) {
            Some(d) => d,
            None => {
                return Err(RegistryError::MissingBody(b));
            },
        };
        assert(!o.attached_fixtures(b).contains(f));
        add_entity(&mut d.fixtures, f);
        self.dependents.insert(b, d);
        let h = self.next_handle;
        self.fixtures.insert(f, (h, b));
        self.next_handle = h + 1;
        proof {
            let m = self@;
            assert(m =~= o.with_fixture(f, b));
            assert forall|x: u64| #[trigger] self.dependents@.contains_key(x) implies {
                let dx = self.dependents@[x];
                &&& dx.fixtures@.no_duplicates()
                &&& dx.joints@.no_duplicates()
                &&& dx.fixtures@.to_set() == m.attached_fixtures(x)
                &&& dx.joints@.to_set() == m.attached_joints(x)
            } by {
                assert(m.attached_joints(x) =~= o.attached_joints(x));
                if x == b {
                    assert(m.attached_fixtures(x) =~= o.attached_fixtures(x).insert(f));
                } else {
                    assert(m.attached_fixtures(x) =~= o.attached_fixtures(x));
                }
            }
            assert(self.dependents@.dom() =~= self.bodies@.dom());
        }
        Ok(Some((h, bh)))
    }

    /// Creates the native joint of `j`, of kind `k`, between bodies `a` and `b`.
    /// Fails where either body has no native body; returns `None` where `j`
    /// already has a handle.
    pub fn create_joint(&mut self, j: u64, k: JointKind, a: u64, b: u64) -> (r: Result<
        Option<(JointHandle, u64, u64)>,
        RegistryError,
    >)
        requires
            old(self).wf(),
            old(self)@.next_handle < u64::MAX,
        ensures
            final(self).wf(),
            !old(self)@.bodies.contains_key(a) ==> r == Err::<
                Option<(JointHandle, u64, u64)>,
                RegistryError,
            >(RegistryError::MissingBody(a)) && final(self)@ == old(self)@,
            old(self)@.bodies.contains_key(a) && !old(self)@.bodies.contains_key(b) ==> r == Err::<
                Option<(JointHandle, u64, u64)>,
                RegistryError,
            >(RegistryError::MissingBody(b)) && final(self)@ == old(self)@,
            old(self)@.bodies.contains_key(a) && old(self)@.bodies.contains_key(b) ==> final(self)@
                == old(self)@.with_joint(j, k, a, b) && r == Ok::<
                Option<(JointHandle, u64, u64)>,
                RegistryError,
            >(
                if old(self)@.joints.contains_key(j) {
                    None
                } else {
                    Some(
                        (
                            JointHandle { kind: k, handle: old(self)@.next_handle as u64 },
                            old(self)@.bodies[a],
                            old(self)@.bodies[b],
                        ),
                    )
                },
            ),
    {
        let ha = match self.bodies.get(&a) {
            Some(h) => *h,
            None => {
                return Err(RegistryError::MissingBody(a));
            },
        };
        let hb = match self.bodies.get(&b) {
            Some(h) => *h,
            None => {
                return Err(RegistryError::MissingBody(b));
            },
        };
        if self.joints.contains_key(&j) {
            return Ok(None);
        }
        let ghost o = self@;
        let ghost od = self.dependents@;
        assert(od.contains_key(a) && od.contains_key(b));
        let mut da = match self.dependents.remove(&a) {
            Some(d) => d,
            None => {
                return Err(RegistryError::MissingBody(a));
            },
        };
        assert(!o.attached_joints(a).contains(j));
        add_entity(&mut da.joints, j);
        self.dependents.insert(a, da);
        if a != b {
            let mut db = match self.dependents.remove(&b) {
                Some(d) => d,
                None => {
                    return Err(RegistryError::MissingBody(b));
                },
            };
            assert(!o.attached_joints(b).contains(j));
            add_entity(&mut db.joints, j);
            self.dependents.insert(b, db);
        }
        let h = self.next_handle;
        let jh = JointHandle { kind: k, handle: h };
        self.joints.insert(j, JointSlot { handle: jh, body_a: a, body_b: b });
        self.next_handle = h + 1;
        proof {
            let m = self@;
            assert(m =~= o.with_joint(j, k, a, b));
            assert forall|x: u64| #[trigger] self.dependents@.contains_key(x) implies {
                let dx = self.dependents@[x];
                &&& dx.fixtures@.no_duplicates()
                &&& dx.joints@.no_duplicates()
                &&& dx.fixtures@.to_set() == m.attached_fixtures(x)
                &&& dx.joints@.to_set() == m.attached_joints(x)
            } by {
                assert(m.attached_fixtures(x) =~= o.attached_fixtures(x));
                if x == a || x == b {
                    assert(m.attached_joints(x) =~= o.attached_joints(x).insert(j));
                } else {
                    assert(m.attached_joints(x) =~= o.attached_joints(x));
                }
            }
            assert(self.dependents@.dom() =~= self.bodies@.dom());
        }
        Ok(Some((jh, ha, hb)))
    }

    /// Creates the native particle system of `s` unless it already has one;
    /// returns the new handle, or `None` where nothing was created.
    pub fn create_particle_system(&mut self, s: u64) -> (r: Option<u64>)
        requires
            old(self).wf(),
            old(self)@.next_handle < u64::MAX,
        ensures
            final(self).wf(),
            final(self)@ == old(self)@.with_system(s),
            r == (if old(self)@.systems.contains_key(s) {
                None::<u64>
            } else {
                Some(old(self)@.next_handle as u64)
            }),
    {
        if self.systems.contains_key(&s) {
            return None;
        }
        let ghost o = self@;
        let h = self.next_handle;
        self.systems.insert(s, h);
        self.next_handle = h + 1;
        proof {
            let m = self@;
            assert(m =~= o.with_system(s));
            assert forall|x: u64| #[trigger] self.dependents@.contains_key(x) implies {
                let dx = self.dependents@[x];
                &&& dx.fixtures@.to_set() == m.attached_fixtures(x)
                &&& dx.joints@.to_set() == m.attached_joints(x)
            } by {
                assert(m.attached_fixtures(x) =~= o.attached_fixtures(x));
                assert(m.attached_joints(x) =~= o.attached_joints(x));
            }
        }
        Some(h)
    }

    /// Creates the native particle group of `g` in particle system `s`. Fails
    /// where `s` has no native system; returns `None` where `g` already has a
    /// handle.
    pub fn create_particle_group(&mut self, g: u64, s: u64) -> (r: Result<
        Option<(u64, u64)>,
        RegistryError,
    >)
        requires
            old(self).wf(),
            old(self)@.next_handle < u64::MAX,
        ensures
            final(self).wf(),
            !old(self)@.systems.contains_key(s) ==> r == Err::<Option<(u64, u64)>, RegistryError>(
                RegistryError::MissingParticleSystem(s),
            ) && final(self)@ == old(self)@,
            old(self)@.systems.contains_key(s) ==> final(self)@ == old(self)@.with_group(g, s) && r
                == Ok::<Option<(u64, u64)>, RegistryError>(
                if old(self)@.groups.contains_key(g) {
                    None
                } else {
                    Some((old(self)@.next_handle as u64, old(self)@.systems[s]))
                },
            ),
    {
        let sh = match self.systems.get(&s) {
            Some(h) => *h,
            None => {
                return Err(RegistryError::MissingParticleSystem(s));
            },
        };
        if self.groups.contains_key(&g) {
            return Ok(None);
        }
        let ghost o = self@;
        let h = self.next_handle;
        self.groups.insert(g, (h, s));
        self.next_handle = h + 1;
        proof {
            let m = self@;
            assert(m =~= o.with_group(g, s));
            assert forall|x: u64| #[trigger] self.dependents@.contains_key(x) implies {
                let dx = self.dependents@[x];
                &&& dx.fixtures@.to_set() == m.attached_fixtures(x)
                &&& dx.joints@.to_set() == m.attached_joints(x)
            } by {
                assert(m.attached_fixtures(x) =~= o.attached_fixtures(x));
                assert(m.attached_joints(x) =~= o.attached_joints(x));
            }
        }
        Ok(Some((h, sh)))
    }

    /// Destroys the native fixture of `f`; returns its handle, or `None` where
    /// it had none.
    pub fn destroy_fixture(&mut self, f: u64) -> (r: Option<u64>)
        requires
            old(self).wf(),
        ensures
            final(self).wf(),
            final(self)@ == old(self)@.without_fixture(f),
            r == (if old(self)@.fixtures.contains_key(f) {
                Some(old(self)@.fixtures[f].0)
            } else {
                None::<u64>
            }),
    {
        let ghost o = self@;
        let slot = match self.fixtures.get(&f) {
            Some(slot) => *slot,
            None => {
                proof {
                    assert(self@ =~= o.without_fixture(f));
                }
                return None;
            },
        };
        let b = slot.1;
        assert(o.fixtures.contains_key(f) && o.fixtures[f] == slot);
        assert(o.bodies.contains_key(b));
        let mut d = match self.dependents.remove(&b) {
            Some(d) => d,
            None => {
                return None;
            },
        };
        remove_entity(&mut d.fixtures, f);
        self.dependents.insert(b, d);
        self.fixtures.remove(&f);
        proof {
            let m = self@;
            assert(m =~= o.without_fixture(f));
            assert forall|x: u64| #[trigger] self.dependents@.contains_key(x) implies {
                let dx = self.dependents@[x];
                &&& dx.fixtures@.no_duplicates()
                &&& dx.joints@.no_duplicates()
                &&& dx.fixtures@.to_set() == m.attached_fixtures(x)
                &&& dx.joints@.to_set() == m.attached_joints(x)
            } by {
                assert(m.attached_joints(x) =~= o.attached_joints(x));
                if x == b {
                    assert(m.attached_fixtures(x) =~= o.attached_fixtures(x).remove(f));
                } else {
                    assert(m.attached_fixtures(x) =~= o.attached_fixtures(x));
                }
            }
            assert(self.dependents@.dom() =~= self.bodies@.dom());
        }
        Some(slot.0)
    }

    /// Destroys the native joint of `j`; returns its tagged handle, or `None`
    /// where it had none.
    pub fn destroy_joint(&mut self, j: u64) -> (r: Option<JointHandle>)
        requires
            old(self).wf(),
        ensures
            final(self).wf(),
            final(self)@ == old(self)@.without_joint(j),
            r == (if old(self)@.joints.contains_key(j) {
                Some(old(self)@.joints[j].handle)
            } else {
                None::<JointHandle>
            }),
    {
        let ghost o = self@;
        let slot = match self.joints.get(&j) {
            Some(slot) => *slot,
            None => {
                proof {
                    assert(self@ =~= o.without_joint(j));
                }
                return None;
            },
        };
        let a = slot.body_a;
        let b = slot.body_b;
        assert(o.joints.contains_key(j) && o.joints[j] == slot);
        assert(o.bodies.contains_key(a) && o.bodies.contains_key(b));
        let mut da = match self.dependents.remove(&a) {
            Some(d) => d,
            None => {
                return None;
            },
        };
        remove_entity(&mut da.joints, j);
        self.dependents.insert(a, da);
        if a != b {
            let mut db = match self.dependents.remove(&b) {
                Some(d) => d,
                None => {
                    return None;
                },
            };
            remove_entity(&mut db.joints, j);
            self.dependents.insert(b, db);
        }
        self.joints.remove(&j);
        proof {
            let m = self@;
            assert(m =~= o.without_joint(j));
            assert forall|x: u64| #[trigger] self.dependents@.contains_key(x) implies {
                let dx = self.dependents@[x];
                &&& dx.fixtures@.no_duplicates()
                &&& dx.joints@.no_duplicates()
                &&& dx.fixtures@.to_set() == m.attached_fixtures(x)
                &&& dx.joints@.to_set() == m.attached_joints(x)
            } by {
                assert(m.attached_fixtures(x) =~= o.attached_fixtures(x));
                if x == a || x == b {
                    assert(m.attached_joints(x) =~= o.attached_joints(x).remove(j));
                } else {
                    assert(m.attached_joints(x) =~= o.attached_joints(x));
                }
            }
            assert(self.dependents@.dom() =~= self.bodies@.dom());
        }
        Some(slot.handle)
    }

    fn dependent_count(&self, e: u64, joints: bool) -> (r: usize)
        requires
            self.wf(),
            self@.bodies.contains_key(e),
        ensures
            r == (if joints {
                self.dependents@[e].joints@.len()
            } else {
                self.dependents@[e].fixtures@.len()
            }),
    {
        match self.dependents.get(&e) {
            Some(d) => if joints {
                d.joints.len()
            } else {
                d.fixtures.len()
            },
            None => 0,
        }
    }

    fn last_dependent(&self, e: u64, joints: bool) -> (r: u64)
        requires
            self.wf(),
            self@.bodies.contains_key(e),
            joints ==> self.dependents@[e].joints@.len() > 0,
            !joints ==> self.dependents@[e].fixtures@.len() > 0,
        ensures
            joints ==> self@.attached_joints(e).contains(r),
            !joints ==> self@.attached_fixtures(e).contains(r),
    {
        match self.dependents.get(&e) {
            Some(d) => {
                if joints {
                    let r = d.joints[d.joints.len() - 1];
                    assert(d.joints@.to_set().contains(r));
                    r
                } else {
                    let r = d.fixtures[d.fixtures.len() - 1];
                    assert(d.fixtures@.to_set().contains(r));
                    r
                }
            },
            None => 0,
        }
    }

    /// Destroys the native body of `e`, first destroying every fixture on it
    /// and every joint with it at one end. Returns what was destroyed, or
    /// `None` where `e` had no native body.
    pub fn destroy_body(&mut self, e: u64) -> (r: Option<BodyTeardown>)
        requires
            old(self).wf(),
        ensures
            final(self).wf(),
            final(self)@ == old(self)@.without_body(e),
            !old(self)@.bodies.contains_key(e) ==> r.is_none(),
            old(self)@.bodies.contains_key(e) ==> r.is_some() && r.unwrap().lists(old(self)@, e),
    {
        let ghost o = self@;
        let body = match self.bodies.get(&e) {
            Some(h) => *h,
            None => {
                proof {
                    assert forall|f: u64| !#[trigger] o.attached_fixtures(e).contains(f) by {
                        if o.fixtures.contains_key(f) {
                            assert(o.bodies.contains_key(o.fixtures[f].1));
                        }
                    }
                    assert forall|j: u64| !#[trigger] o.attached_joints(e).contains(j) by {
                        if o.joints.contains_key(j) {
                            assert(o.bodies.contains_key(o.joints[j].body_a));
                        }
                    }
                    assert(self@ =~= o.without_body(e));
                }
                return None;
            },
        };
        let mut fixtures: Vec<(u64, u64)> = Vec::new();
        let ghost mut removed: Set<u64> = Set::empty();
        while self.dependent_count(e, false) > 0
            invariant
                self.wf(),
                self@.bodies == o.bodies,
                self@.joints == o.joints,
                self@.systems == o.systems,
                self@.groups == o.groups,
                self@.next_handle == o.next_handle,
                o.bodies.contains_key(e),
                self@.fixtures == o.fixtures.remove_keys(removed),
                removed.subset_of(o.attached_fixtures(e)),
                forall|i: int|
                    0 <= i < fixtures@.len() ==> {
                        let (f, h) = #[trigger] fixtures@[i];
                        o.fixtures.contains_key(f) && o.fixtures[f] == (h, e) && removed.contains(f)
                    },
                forall|f: u64|
                    #[trigger] removed.contains(f) ==> exists|i: int|
                        0 <= i < fixtures@.len() && #[trigger] fixtures@[i].0 == f,
                forall|i: int, k: int|
                    0 <= i < k < fixtures@.len() ==> #[trigger] fixtures@[i].0
                        != #[trigger] fixtures@[k].0,
            decreases self.dependents@[e].fixtures@.len(),
        {
            let f = self.last_dependent(e, false);
            assert(self.dependents@.contains_key(e));
            let ghost before = self.dependents@[e].fixtures@;
            let ghost pre = self@;
            let h = match self.destroy_fixture(f) {
                Some(h) => h,
                None => 0,
            };
            proof {
                assert(self.dependents@[e].fixtures@.to_set() == before.to_set().remove(f)) by {
                    assert(self@.attached_fixtures(e) =~= pre.attached_fixtures(e).remove(f));
                }
                assert(self.dependents@.contains_key(e));
                before.unique_seq_to_set();
                self.dependents@[e].fixtures@.unique_seq_to_set();
                assert(!removed.contains(f));
            }
            let ghost old_fixtures = fixtures@;
            fixtures.push((f, h));
            proof {
                removed = removed.insert(f);
                assert(self@.fixtures =~= o.fixtures.remove_keys(removed));
                assert forall|g: u64| #[trigger] removed.contains(g) implies exists|i: int|
                    0 <= i < fixtures@.len() && #[trigger] fixtures@[i].0 == g by {
                    if g == f {
                        assert(fixtures@[old_fixtures.len() as int].0 == g);
                    } else {
                        let i = choose|i: int|
                            0 <= i < old_fixtures.len() && #[trigger] old_fixtures[i].0 == g;
                        assert(fixtures@[i].0 == g);
                    }
                }
            }
        }
        proof {
            assert(self@.attached_fixtures(e) =~= Set::<u64>::empty()) by {
                assert(self.dependents@[e].fixtures@.len() == 0);
                assert(self.dependents@[e].fixtures@.to_set() =~= Set::<u64>::empty());
            }
            assert forall|f: u64| #[trigger] o.attached_fixtures(e).contains(f) implies removed.contains(f) by {
                if !removed.contains(f) {
                    assert(self@.attached_fixtures(e).contains(f));
                }
            }
            assert(removed =~= o.attached_fixtures(e));
        }
        let mut joints: Vec<(u64, JointHandle)> = Vec::new();
        let ghost mut removed_joints: Set<u64> = Set::empty();
        let ghost mid = self@;
        while self.dependent_count(e, true) > 0
            invariant
                self.wf(),
                self@.bodies == o.bodies,
                self@.fixtures == mid.fixtures,
                mid.fixtures == o.fixtures.remove_keys(o.attached_fixtures(e)),
                self@.systems == o.systems,
                self@.groups == o.groups,
                self@.next_handle == o.next_handle,
                o.bodies.contains_key(e),
                self@.joints == o.joints.remove_keys(removed_joints),
                removed_joints.subset_of(o.attached_joints(e)),
                forall|i: int|
                    0 <= i < joints@.len() ==> {
                        let (j, h) = #[trigger] joints@[i];
                        o.attached_joints(e).contains(j) && o.joints[j].handle == h
                            && removed_joints.contains(j)
                    },
                forall|j: u64|
                    #[trigger] removed_joints.contains(j) ==> exists|i: int|
                        0 <= i < joints@.len() && #[trigger] joints@[i].0 == j,
                forall|i: int, k: int|
                    0 <= i < k < joints@.len() ==> #[trigger] joints@[i].0
                        != #[trigger] joints@[k].0,
            decreases self.dependents@[e].joints@.len(),
        {
            let j = self.last_dependent(e, true);
            assert(self.dependents@.contains_key(e));
            let ghost before = self.dependents@[e].joints@;
            let ghost pre = self@;
            let h = match self.destroy_joint(j) {
                Some(h) => h,
                None => JointHandle { kind: JointKind::Distance, handle: 0 },
            };
            proof {
                assert(self.dependents@[e].joints@.to_set() == before.to_set().remove(j)) by {
                    assert(self@.attached_joints(e) =~= pre.attached_joints(e).remove(j));
                }
                assert(self.dependents@.contains_key(e));
                before.unique_seq_to_set();
                self.dependents@[e].joints@.unique_seq_to_set();
                assert(!removed_joints.contains(j));
            }
            let ghost old_joints = joints@;
            joints.push((j, h));
            proof {
                removed_joints = removed_joints.insert(j);
                assert(self@.joints =~= o.joints.remove_keys(removed_joints));
                assert forall|g: u64| #[trigger] removed_joints.contains(g) implies exists|i: int|
                    0 <= i < joints@.len() && #[trigger] joints@[i].0 == g by {
                    if g == j {
                        assert(joints@[old_joints.len() as int].0 == g);
                    } else {
                        let i = choose|i: int|
                            0 <= i < old_joints.len() && #[trigger] old_joints[i].0 == g;
                        assert(joints@[i].0 == g);
                    }
                }
            }
        }
        proof {
            assert(self@.attached_joints(e) =~= Set::<u64>::empty()) by {
                assert(self.dependents@[e].joints@.len() == 0);
                assert(self.dependents@[e].joints@.to_set() =~= Set::<u64>::empty());
            }
            assert forall|j: u64| #[trigger] o.attached_joints(e).contains(j) implies removed_joints.contains(j) by {
                if !removed_joints.contains(j) {
                    assert(self@.attached_joints(e).contains(j));
                }
            }
            assert(removed_joints =~= o.attached_joints(e));
        }
        let ghost pre = self@;
        self.bodies.remove(&e);
        self.dependents.remove(&e);
        proof {
            let m = self@;
            assert(m =~= o.without_body(e));
            assert forall|f: u64| #[trigger] pre.fixtures.contains_key(f) implies pre.fixtures[f].1 != e by {
                assert(!pre.attached_fixtures(e).contains(f));
            }
            assert forall|j: u64| #[trigger] pre.joints.contains_key(j) implies pre.joints[j].body_a != e
                && pre.joints[j].body_b != e by {
                assert(!pre.attached_joints(e).contains(j));
            }
            assert forall|x: u64| #[trigger] self.dependents@.contains_key(x) implies {
                let dx = self.dependents@[x];
                &&& dx.fixtures@.to_set() == m.attached_fixtures(x)
                &&& dx.joints@.to_set() == m.attached_joints(x)
            } by {
                assert(m.attached_fixtures(x) =~= pre.attached_fixtures(x));
                assert(m.attached_joints(x) =~= pre.attached_joints(x));
            }
            assert(self.dependents@.dom() =~= self.bodies@.dom());
        }
        Some(BodyTeardown { fixtures, joints, body })
    }
}

} // verus!
