use crate::registry::{
    BodyTeardown, HandleRegistry, JointHandle, JointKind, RegistryError, RegistryModel,
};
use vstd::prelude::*;

verus! {

/// A joint component that appeared since the last pass.
#[derive(Clone, Copy, Debug, PartialEq, Eq, Structural)]
pub struct JointRequest {
    pub entity: u64,
    pub kind: JointKind,
    pub body_a: u64,
    pub body_b: u64,
}

/// Applies `step` to `m` for each item in turn.
pub open spec fn run<T>(
    m: RegistryModel,
    items: Seq<T>,
    step: spec_fn(RegistryModel, T) -> RegistryModel,
) -> RegistryModel
    decreases items.len(),
{
    if items.len() == 0 {
        m
    } else {
        step(run(m, items.drop_last(), step), items.last())
    }
}

pub open spec fn body_step() -> spec_fn(RegistryModel, u64) -> RegistryModel {
    |m: RegistryModel, e: u64| m.with_body(e)
}

pub open spec fn fixture_step() -> spec_fn(RegistryModel, (u64, u64)) -> RegistryModel {
    |m: RegistryModel, p: (u64, u64)| m.with_fixture(p.0, p.1)
}

pub open spec fn joint_step() -> spec_fn(RegistryModel, JointRequest) -> RegistryModel {
    |m: RegistryModel, q: JointRequest| m.with_joint(q.entity, q.kind, q.body_a, q.body_b)
}

pub open spec fn system_step() -> spec_fn(RegistryModel, u64) -> RegistryModel {
    |m: RegistryModel, s: u64| m.with_system(s)
}

pub open spec fn group_step() -> spec_fn(RegistryModel, (u64, u64)) -> RegistryModel {
    |m: RegistryModel, p: (u64, u64)| m.with_group(p.0, p.1)
}

pub open spec fn fixture_removal_step() -> spec_fn(RegistryModel, u64) -> RegistryModel {
    |m: RegistryModel, f: u64| m.without_fixture(f)
}

pub open spec fn joint_removal_step() -> spec_fn(RegistryModel, u64) -> RegistryModel {
    |m: RegistryModel, j: u64| m.without_joint(j)
}

pub open spec fn body_removal_step() -> spec_fn(RegistryModel, u64) -> RegistryModel {
    |m: RegistryModel, e: u64| m.without_body(e)
}

/// The handle that creating body `e` in `m` gives out, if any.
pub open spec fn new_body_handle(m: RegistryModel, e: u64) -> Option<u64> {
    if m.bodies.contains_key(e) {
        None
    } else {
        Some(m.next_handle as u64)
    }
}

/// One step of a fold adds at most one handle.
pub proof fn lemma_run_next_handle<T>(
    m: RegistryModel,
    items: Seq<T>,
    step: spec_fn(RegistryModel, T) -> RegistryModel,
)
    requires
        forall|x: RegistryModel, t: T| #[trigger] step(x, t).next_handle <= x.next_handle + 1,
    ensures
        run(m, items, step).next_handle <= m.next_handle + items.len(),
    decreases items.len(),
{
    if items.len() > 0 {
        lemma_run_next_handle(m, items.drop_last(), step);
    }
}

/// Creates a native body for each newly added body entity, in order; an
/// entity that already has one is skipped. `r[i]` is the handle created for
/// `es[i]`, or `None`.
pub fn create_bodies(reg: &mut HandleRegistry, es: &Vec<u64>) -> (r: Vec<Option<u64>>)
    requires
        old(reg).wf(),
        old(reg)@.next_handle + es@.len() < u64::MAX,
    ensures
        final(reg).wf(),
        final(reg)@ == run(old(reg)@, es@, body_step()),
        r@.len() == es@.len(),
        forall|i: int|
            0 <= i < es@.len() ==> #[trigger] r@[i] == new_body_handle(
                run(old(reg)@, es@.take(i), body_step()),
                es@[i],
            ),
{
    let mut r: Vec<Option<u64>> = Vec::new();
    let mut i: usize = 0;
    while i < es.len()
        invariant
            reg.wf(),
            0 <= i <= es@.len(),
            r@.len() == i,
            reg@ == run(old(reg)@, es@.take(i as int), body_step()),
            reg@.next_handle <= old(reg)@.next_handle + i,
            old(reg)@.next_handle + es@.len() < u64::MAX,
            forall|k: int|
                0 <= k < i ==> #[trigger] r@[k] == new_body_handle(
                    run(old(reg)@, es@.take(k), body_step()),
                    es@[k],
                ),
        decreases es@.len() - i,
    {
        let e = es[i];
        let h = reg.create_body(e);
        r.push(h);
        proof {
            assert(es@.take(i + 1).drop_last() =~= es@.take(i as int));
        }
        i += 1;
    }
    proof {
        assert(es@.take(es@.len() as int) =~= es@);
    }
    r
}

/// The (fixture handle, body handle) that creating fixture `p.0` on body
/// `p.1` in `m` gives out, if any.
pub open spec fn new_fixture_handles(m: RegistryModel, p: (u64, u64)) -> Option<(u64, u64)> {
    if m.fixtures.contains_key(p.0) {
        None
    } else {
        Some((m.next_handle as u64, m.bodies[p.1]))
    }
}

/// The (joint handle, body-a handle, body-b handle) that creating joint `q`
/// in `m` gives out, if any.
pub open spec fn new_joint_handles(m: RegistryModel, q: JointRequest) -> Option<
    (JointHandle, u64, u64),
> {
    if m.joints.contains_key(q.entity) {
        None
    } else {
        Some(
            (
                JointHandle { kind: q.kind, handle: m.next_handle as u64 },
                m.bodies[q.body_a],
                m.bodies[q.body_b],
            ),
        )
    }
}

/// The handle that creating particle system `s` in `m` gives out, if any.
pub open spec fn new_system_handle(m: RegistryModel, s: u64) -> Option<u64> {
    if m.systems.contains_key(s) {
        None
    } else {
        Some(m.next_handle as u64)
    }
}

/// The (group handle, system handle) that creating group `p.0` in system
/// `p.1` in `m` gives out, if any.
pub open spec fn new_group_handles(m: RegistryModel, p: (u64, u64)) -> Option<(u64, u64)> {
    if m.groups.contains_key(p.0) {
        None
    } else {
        Some((m.next_handle as u64, m.systems[p.1]))
    }
}

/// Creates a native fixture for each newly added fixture entity, in order,
/// on the body it names; one that already has a handle is skipped. Every
/// named body must already have its native body.
pub fn create_fixtures(reg: &mut HandleRegistry, fs: &Vec<(u64, u64)>) -> (r: Vec<
    Option<(u64, u64)>,
>)
    requires
        old(reg).wf(),
        old(reg)@.next_handle + fs@.len() < u64::MAX,
        forall|i: int| 0 <= i < fs@.len() ==> old(reg)@.bodies.contains_key(#[trigger] fs@[i].1),
    ensures
        final(reg).wf(),
        final(reg)@ == run(old(reg)@, fs@, fixture_step()),
        r@.len() == fs@.len(),
        forall|i: int|
            0 <= i < fs@.len() ==> #[trigger] r@[i] == new_fixture_handles(
                run(old(reg)@, fs@.take(i), fixture_step()),
                fs@[i],
            ),
{
    let mut r: Vec<Option<(u64, u64)>> = Vec::new();
    let mut i: usize = 0;
    while i < fs.len()
        invariant
            reg.wf(),
            0 <= i <= fs@.len(),
            r@.len() == i,
            reg@ == run(old(reg)@, fs@.take(i as int), fixture_step()),
            reg@.bodies == old(reg)@.bodies,
            reg@.next_handle <= old(reg)@.next_handle + i,
            old(reg)@.next_handle + fs@.len() < u64::MAX,
            forall|k: int|
                0 <= k < fs@.len() ==> old(reg)@.bodies.contains_key(#[trigger] fs@[k].1),
            forall|k: int|
                0 <= k < i ==> #[trigger] r@[k] == new_fixture_handles(
                    run(old(reg)@, fs@.take(k), fixture_step()),
                    fs@[k],
                ),
        decreases fs@.len() - i,
    {
        let (f, b) = fs[i];
        assert(fs@[i as int].1 == b);
        let h = match reg.create_fixture(f, b) {
            Ok(h) => h,
            Err(_) => None,
        };
        r.push(h);
        proof {
            assert(fs@.take(i + 1).drop_last() =~= fs@.take(i as int));
        }
        i += 1;
    }
    proof {
        assert(fs@.take(fs@.len() as int) =~= fs@);
    }
    r
}

/// Both bodies of joint request `q` are live in `m`.
pub open spec fn ends_live(m: RegistryModel, q: JointRequest) -> bool {
    m.bodies.contains_key(q.body_a) && m.bodies.contains_key(q.body_b)
}

/// Creates a native joint for each newly added joint entity, in order; one
/// that already has a handle is skipped. Both bodies of every joint must
/// already have their native bodies.
pub fn create_joints(reg: &mut HandleRegistry, js: &Vec<JointRequest>) -> (r: Vec<
    Option<(JointHandle, u64, u64)>,
>)
    requires
        old(reg).wf(),
        old(reg)@.next_handle + js@.len() < u64::MAX,
        forall|i: int| 0 <= i < js@.len() ==> ends_live(old(reg)@, #[trigger] js@[i]),
    ensures
        final(reg).wf(),
        final(reg)@ == run(old(reg)@, js@, joint_step()),
        r@.len() == js@.len(),
        forall|i: int|
            0 <= i < js@.len() ==> #[trigger] r@[i] == new_joint_handles(
                run(old(reg)@, js@.take(i), joint_step()),
                js@[i],
            ),
{
    let mut r: Vec<Option<(JointHandle, u64, u64)>> = Vec::new();
    let mut i: usize = 0;
    while i < js.len()
        invariant
            reg.wf(),
            0 <= i <= js@.len(),
            r@.len() == i,
            reg@ == run(old(reg)@, js@.take(i as int), joint_step()),
            reg@.bodies == old(reg)@.bodies,
            reg@.next_handle <= old(reg)@.next_handle + i,
            old(reg)@.next_handle + js@.len() < u64::MAX,
            forall|k: int| 0 <= k < js@.len() ==> ends_live(old(reg)@, #[trigger] js@[k]),
            forall|k: int|
                0 <= k < i ==> #[trigger] r@[k] == new_joint_handles(
                    run(old(reg)@, js@.take(k), joint_step()),
                    js@[k],
                ),
        decreases js@.len() - i,
    {
        let q = js[i];
        assert(ends_live(old(reg)@, js@[i as int]));
        let h = match reg.create_joint(q.entity, q.kind, q.body_a, q.body_b) {
            Ok(h) => h,
            Err(_) => None,
        };
        r.push(h);
        proof {
            assert(js@.take(i + 1).drop_last() =~= js@.take(i as int));
        }
        i += 1;
    }
    proof {
        assert(js@.take(js@.len() as int) =~= js@);
    }
    r
}

/// Creates a native particle system for each newly added particle-system
/// entity, in order; one that already has a handle is skipped.
pub fn create_particle_systems(reg: &mut HandleRegistry, ss: &Vec<u64>) -> (r: Vec<Option<u64>>)
    requires
        old(reg).wf(),
        old(reg)@.next_handle + ss@.len() < u64::MAX,
    ensures
        final(reg).wf(),
        final(reg)@ == run(old(reg)@, ss@, system_step()),
        r@.len() == ss@.len(),
        forall|i: int|
            0 <= i < ss@.len() ==> #[trigger] r@[i] == new_system_handle(
                run(old(reg)@, ss@.take(i), system_step()),
                ss@[i],
            ),
{
    let mut r: Vec<Option<u64>> = Vec::new();
    let mut i: usize = 0;
    while i < ss.len()
        invariant
            reg.wf(),
            0 <= i <= ss@.len(),
            r@.len() == i,
            reg@ == run(old(reg)@, ss@.take(i as int), system_step()),
            reg@.next_handle <= old(reg)@.next_handle + i,
            old(reg)@.next_handle + ss@.len() < u64::MAX,
            forall|k: int|
                0 <= k < i ==> #[trigger] r@[k] == new_system_handle(
                    run(old(reg)@, ss@.take(k), system_step()),
                    ss@[k],
                ),
        decreases ss@.len() - i,
    {
        let s = ss[i];
        let h = reg.create_particle_system(s);
        r.push(h);
        proof {
            assert(ss@.take(i + 1).drop_last() =~= ss@.take(i as int));
        }
        i += 1;
    }
    proof {
        assert(ss@.take(ss@.len() as int) =~= ss@);
    }
    r
}

/// Creates a native particle group for each newly added group entity, in
/// order, inside the particle system it names; one that already has a handle
/// is skipped. Every named system must already have its native system.
pub fn create_particle_groups(reg: &mut HandleRegistry, gs: &Vec<(u64, u64)>) -> (r: Vec<
    Option<(u64, u64)>,
>)
    requires
        old(reg).wf(),
        old(reg)@.next_handle + gs@.len() < u64::MAX,
        forall|i: int| 0 <= i < gs@.len() ==> old(reg)@.systems.contains_key(#[trigger] gs@[i].1),
    ensures
        final(reg).wf(),
        final(reg)@ == run(old(reg)@, gs@, group_step()),
        r@.len() == gs@.len(),
        forall|i: int|
            0 <= i < gs@.len() ==> #[trigger] r@[i] == new_group_handles(
                run(old(reg)@, gs@.take(i), group_step()),
                gs@[i],
            ),
{
    let mut r: Vec<Option<(u64, u64)>> = Vec::new();
    let mut i: usize = 0;
    while i < gs.len()
        invariant
            reg.wf(),
            0 <= i <= gs@.len(),
            r@.len() == i,
            reg@ == run(old(reg)@, gs@.take(i as int), group_step()),
            reg@.systems == old(reg)@.systems,
            reg@.next_handle <= old(reg)@.next_handle + i,
            old(reg)@.next_handle + gs@.len() < u64::MAX,
            forall|k: int|
                0 <= k < gs@.len() ==> old(reg)@.systems.contains_key(#[trigger] gs@[k].1),
            forall|k: int|
                0 <= k < i ==> #[trigger] r@[k] == new_group_handles(
                    run(old(reg)@, gs@.take(k), group_step()),
                    gs@[k],
                ),
        decreases gs@.len() - i,
    {
        let (g, s) = gs[i];
        assert(gs@[i as int].1 == s);
        let h = match reg.create_particle_group(g, s) {
            Ok(h) => h,
            Err(_) => None,
        };
        r.push(h);
        proof {
            assert(gs@.take(i + 1).drop_last() =~= gs@.take(i as int));
        }
        i += 1;
    }
    proof {
        assert(gs@.take(gs@.len() as int) =~= gs@);
    }
    r
}

/// The handle that destroying fixture `f` in `m` releases, if any.
pub open spec fn released_fixture(m: RegistryModel, f: u64) -> Option<u64> {
    if m.fixtures.contains_key(f) {
        Some(m.fixtures[f].0)
    } else {
        None
    }
}

/// The joint handle that destroying joint `j` in `m` releases, if any.
pub open spec fn released_joint(m: RegistryModel, j: u64) -> Option<JointHandle> {
    if m.joints.contains_key(j) {
        Some(m.joints[j].handle)
    } else {
        None
    }
}

/// Destroys the native fixture of each removed fixture entity, in order;
/// one without a handle is skipped. `r[i]` is the handle released for `fs[i]`.
pub fn destroy_removed_fixtures(reg: &mut HandleRegistry, fs: &Vec<u64>) -> (r: Vec<Option<u64>>)
    requires
        old(reg).wf(),
    ensures
        final(reg).wf(),
        final(reg)@ == run(old(reg)@, fs@, fixture_removal_step()),
        r@.len() == fs@.len(),
        forall|i: int|
            0 <= i < fs@.len() ==> #[trigger] r@[i] == released_fixture(
                run(old(reg)@, fs@.take(i), fixture_removal_step()),
                fs@[i],
            ),
{
    let mut r: Vec<Option<u64>> = Vec::new();
    let mut i: usize = 0;
    while i < fs.len()
        invariant
            reg.wf(),
            0 <= i <= fs@.len(),
            r@.len() == i,
            reg@ == run(old(reg)@, fs@.take(i as int), fixture_removal_step()),
            forall|k: int|
                0 <= k < i ==> #[trigger] r@[k] == released_fixture(
                    run(old(reg)@, fs@.take(k), fixture_removal_step()),
                    fs@[k],
                ),
        decreases fs@.len() - i,
    {
        let h = reg.destroy_fixture(fs[i]);
        r.push(h);
        proof {
            assert(fs@.take(i + 1).drop_last() =~= fs@.take(i as int));
        }
        i += 1;
    }
    proof {
        assert(fs@.take(fs@.len() as int) =~= fs@);
    }
    r
}

/// Destroys the native joint of each removed joint entity, in order; one
/// without a handle is skipped. `r[i]` is the handle released for `js[i]`.
pub fn destroy_removed_joints(reg: &mut HandleRegistry, js: &Vec<u64>) -> (r: Vec<
    Option<JointHandle>,
>)
    requires
        old(reg).wf(),
    ensures
        final(reg).wf(),
        final(reg)@ == run(old(reg)@, js@, joint_removal_step()),
        r@.len() == js@.len(),
        forall|i: int|
            0 <= i < js@.len() ==> #[trigger] r@[i] == released_joint(
                run(old(reg)@, js@.take(i), joint_removal_step()),
                js@[i],
            ),
{
    let mut r: Vec<Option<JointHandle>> = Vec::new();
    let mut i: usize = 0;
    while i < js.len()
        invariant
            reg.wf(),
            0 <= i <= js@.len(),
            r@.len() == i,
            reg@ == run(old(reg)@, js@.take(i as int), joint_removal_step()),
            forall|k: int|
                0 <= k < i ==> #[trigger] r@[k] == released_joint(
                    run(old(reg)@, js@.take(k), joint_removal_step()),
                    js@[k],
                ),
        decreases js@.len() - i,
    {
        let h = reg.destroy_joint(js[i]);
        r.push(h);
        proof {
            assert(js@.take(i + 1).drop_last() =~= js@.take(i as int));
        }
        i += 1;
    }
    proof {
        assert(js@.take(js@.len() as int) =~= js@);
    }
    r
}

/// Destroys the native body of each removed body entity, in order, each
/// after the fixtures and joints that depend on it; one without a handle is
/// skipped. `r[i]` is what was destroyed for `es[i]`.
pub fn destroy_removed_bodies(reg: &mut HandleRegistry, es: &Vec<u64>) -> (r: Vec<
    Option<BodyTeardown>,
>)
    requires
        old(reg).wf(),
    ensures
        final(reg).wf(),
        final(reg)@ == run(old(reg)@, es@, body_removal_step()),
        r@.len() == es@.len(),
        forall|i: int|
            0 <= i < es@.len() ==> {
                let m = run(old(reg)@, es@.take(i), body_removal_step());
                &&& (#[trigger] r@[i]).is_some() == m.bodies.contains_key(es@[i])
                &&& r@[i].is_some() ==> r@[i].unwrap().lists(m, es@[i])
            },
{
    let mut r: Vec<Option<BodyTeardown>> = Vec::new();
    let mut i: usize = 0;
    while i < es.len()
        invariant
            reg.wf(),
            0 <= i <= es@.len(),
            r@.len() == i,
            reg@ == run(old(reg)@, es@.take(i as int), body_removal_step()),
            forall|k: int|
                0 <= k < i ==> {
                    let m = run(old(reg)@, es@.take(k), body_removal_step());
                    &&& (#[trigger] r@[k]).is_some() == m.bodies.contains_key(es@[k])
                    &&& r@[k].is_some() ==> r@[k].unwrap().lists(m, es@[k])
                },
        decreases es@.len() - i,
    {
        let t = reg.destroy_body(es[i]);
        r.push(t);
        proof {
            assert(es@.take(i + 1).drop_last() =~= es@.take(i as int));
        }
        i += 1;
    }
    proof {
        assert(es@.take(es@.len() as int) =~= es@);
    }
    r
}

/// The native body handle of each entity, or `None` where it has none: the
/// targets of body sync and of force, torque and gravity-scale application.
pub fn body_handles(reg: &HandleRegistry, es: &Vec<u64>) -> (r: Vec<Option<u64>>)
    ensures
        r@.len() == es@.len(),
        forall|i: int|
            0 <= i < es@.len() ==> #[trigger] r@[i] == (if reg@.bodies.contains_key(es@[i]) {
                Some(reg@.bodies[es@[i]])
            } else {
                None::<u64>
            }),
{
    let mut r: Vec<Option<u64>> = Vec::new();
    let mut i: usize = 0;
    while i < es.len()
        invariant
            0 <= i <= es@.len(),
            r@.len() == i,
            forall|k: int|
                0 <= k < i ==> #[trigger] r@[k] == (if reg@.bodies.contains_key(es@[k]) {
                    Some(reg@.bodies[es@[k]])
                } else {
                    None::<u64>
                }),
        decreases es@.len() - i,
    {
        r.push(reg.lookup_body(es[i]));
        i += 1;
    }
    r
}

/// The native particle-system handle of each live particle-system entity,
/// the targets of the queued particle creations and destructions. Every
/// entity must have its native system.
pub fn particle_system_handles(reg: &HandleRegistry, ss: &Vec<u64>) -> (r: Vec<u64>)
    requires
        forall|i: int| 0 <= i < ss@.len() ==> reg@.systems.contains_key(#[trigger] ss@[i]),
    ensures
        r@.len() == ss@.len(),
        forall|i: int| 0 <= i < ss@.len() ==> #[trigger] r@[i] == reg@.systems[ss@[i]],
{
    let mut r: Vec<u64> = Vec::new();
    let mut i: usize = 0;
    while i < ss.len()
        invariant
            0 <= i <= ss@.len(),
            r@.len() == i,
            forall|k: int| 0 <= k < ss@.len() ==> reg@.systems.contains_key(#[trigger] ss@[k]),
            forall|k: int| 0 <= k < i ==> #[trigger] r@[k] == reg@.systems[ss@[k]],
        decreases ss@.len() - i,
    {
        let h = match reg.lookup_particle_system(ss[i]) {
            Some(h) => h,
            None => 0,
        };
        r.push(h);
        i += 1;
    }
    r
}

/// Whether joint `j` is live in `m` as a joint of kind `k`.
pub open spec fn joint_is(m: RegistryModel, j: u64, k: JointKind) -> bool {
    m.joints.contains_key(j) && m.joints[j].handle.kind == k
}

/// The error that looking up joint `j` as kind `k` in `m` gives.
pub open spec fn joint_error(m: RegistryModel, j: u64) -> RegistryError {
    if m.joints.contains_key(j) {
        RegistryError::WrongJointKind(j)
    } else {
        RegistryError::MissingJoint(j)
    }
}

/// The native handles of the changed joints of kind `k`, to push their
/// parameters into. Fails on the first joint that has no native joint or was
/// created as another kind.
pub fn joint_sync_targets(reg: &HandleRegistry, k: JointKind, js: &Vec<u64>) -> (r: Result<
    Vec<u64>,
    RegistryError,
>)
    ensures
        (forall|i: int| 0 <= i < js@.len() ==> joint_is(reg@, #[trigger] js@[i], k)) ==> (
        match r {
            Ok(hs) => hs@.len() == js@.len() && forall|i: int|
                0 <= i < js@.len() ==> #[trigger] hs@[i] == reg@.joints[js@[i]].handle.handle,
            Err(_) => false,
        }),
        !(forall|i: int| 0 <= i < js@.len() ==> joint_is(reg@, #[trigger] js@[i], k)) ==> (
        exists|i: int|
            0 <= i < js@.len() && !joint_is(reg@, js@[i], k) && (forall|n: int|
                0 <= n < i ==> joint_is(reg@, #[trigger] js@[n], k)) && r == Err::<
                Vec<u64>,
                RegistryError,
            >(joint_error(reg@, #[trigger] js@[i]))),
{
    let mut r: Vec<u64> = Vec::new();
    let mut i: usize = 0;
    while i < js.len()
        invariant
            0 <= i <= js@.len(),
            r@.len() == i,
            forall|n: int| 0 <= n < i ==> joint_is(reg@, #[trigger] js@[n], k),
            forall|n: int| 0 <= n < i ==> #[trigger] r@[n] == reg@.joints[js@[n]].handle.handle,
        decreases js@.len() - i,
    {
        match reg.lookup_joint_of_kind(js[i], k) {
            Ok(h) => {
                r.push(h);
            },
            Err(e) => {
                assert(!joint_is(reg@, js@[i as int], k));
                return Err(e);
            },
        }
        i += 1;
    }
    Ok(r)
}

/// What changed in the entity store since the last pass.
pub struct PassInput {
    /// body entities added
    pub added_bodies: Vec<u64>,
    /// (fixture entity, body entity) of each fixture added
    pub added_fixtures: Vec<(u64, u64)>,
    /// joints added, of every kind
    pub added_joints: Vec<JointRequest>,
    /// particle-system entities added
    pub added_systems: Vec<u64>,
    /// (group entity, particle-system entity) of each particle group added
    pub added_groups: Vec<(u64, u64)>,
    /// every particle-system entity present, whose queued particles are flushed
    pub live_systems: Vec<u64>,
    /// fixture entities whose fixture was removed
    pub removed_fixtures: Vec<u64>,
    /// joint entities whose joint was removed
    pub removed_joints: Vec<u64>,
    /// body entities whose body was removed
    pub removed_bodies: Vec<u64>,
}

/// What one pass created and destroyed, item by item, aligned with the input.
pub struct PassOutput {
    pub bodies: Vec<Option<u64>>,
    pub fixtures: Vec<Option<(u64, u64)>>,
    pub joints: Vec<Option<(JointHandle, u64, u64)>>,
    pub systems: Vec<Option<u64>>,
    pub groups: Vec<Option<(u64, u64)>>,
    /// the native handle of each entry of `live_systems`
    pub live_systems: Vec<u64>,
    pub removed_fixtures: Vec<Option<u64>>,
    pub removed_joints: Vec<Option<JointHandle>>,
    pub removed_bodies: Vec<Option<BodyTeardown>>,
}

impl PassInput {
    /// How many handles the pass may give out at most.
    pub open spec fn additions(self) -> nat {
        self.added_bodies@.len() + self.added_fixtures@.len() + self.added_joints@.len()
            + self.added_systems@.len() + self.added_groups@.len()
    }

    /// Every fixture and joint names bodies, and every group and live system
    /// names particle systems, that are live in `m` or added by this pass.
    pub open spec fn refs_resolve(self, m: RegistryModel) -> bool {
        &&& forall|i: int|
            0 <= i < self.added_fixtures@.len() ==> body_available(
                m,
                self,
                #[trigger] self.added_fixtures@[i].1,
            )
        &&& forall|i: int|
            0 <= i < self.added_joints@.len() ==> body_available(
                m,
                self,
                #[trigger] self.added_joints@[i].body_a,
            ) && body_available(m, self, self.added_joints@[i].body_b)
        &&& forall|i: int|
            0 <= i < self.added_groups@.len() ==> system_available(
                m,
                self,
                #[trigger] self.added_groups@[i].1,
            )
        &&& forall|i: int|
            0 <= i < self.live_systems@.len() ==> system_available(
                m,
                self,
                #[trigger] self.live_systems@[i],
            )
    }

    /// The model after the creations of the pass.
    pub open spec fn created(self, m: RegistryModel) -> RegistryModel {
        let m1 = run(m, self.added_bodies@, body_step());
        let m2 = run(m1, self.added_fixtures@, fixture_step());
        let m3 = run(m2, self.added_joints@, joint_step());
        let m4 = run(m3, self.added_systems@, system_step());
        run(m4, self.added_groups@, group_step())
    }

    /// The model after the whole pass: creations, then destructions.
    pub open spec fn applied(self, m: RegistryModel) -> RegistryModel {
        let c = self.created(m);
        let d1 = run(c, self.removed_fixtures@, fixture_removal_step());
        let d2 = run(d1, self.removed_joints@, joint_removal_step());
        run(d2, self.removed_bodies@, body_removal_step())
    }
}

pub open spec fn body_available(m: RegistryModel, p: PassInput, b: u64) -> bool {
    m.bodies.contains_key(b) || p.added_bodies@.contains(b)
}

pub open spec fn joint_ends_available(m: RegistryModel, p: PassInput, q: JointRequest) -> bool {
    body_available(m, p, q.body_a) && body_available(m, p, q.body_b)
}

pub open spec fn system_available(m: RegistryModel, p: PassInput, s: u64) -> bool {
    m.systems.contains_key(s) || p.added_systems@.contains(s)
}

/// Creating bodies makes each listed entity a live body and keeps every
/// existing body with its handle.
pub proof fn lemma_create_bodies(m: RegistryModel, es: Seq<u64>, x: u64)
    ensures
        run(m, es, body_step()).bodies.contains_key(x) <==> (m.bodies.contains_key(x)
            || es.contains(x)),
        m.bodies.contains_key(x) ==> run(m, es, body_step()).bodies[x] == m.bodies[x],
    decreases es.len(),
{
    if es.len() > 0 {
        lemma_create_bodies(m, es.drop_last(), x);
        if es.drop_last().contains(x) {
            let k = choose|k: int| 0 <= k < es.drop_last().len() && es.drop_last()[k] == x;
            assert(es[k] == x);
        }
        if es.contains(x) && es.last() != x {
            let k = choose|k: int| 0 <= k < es.len() && es[k] == x;
            assert(es.drop_last()[k] == x);
        }
    }
}

/// Creating particle systems makes each listed entity a live system and
/// keeps every other entity's status.
pub proof fn lemma_run_systems_contains(m: RegistryModel, ss: Seq<u64>, x: u64)
    ensures
        run(m, ss, system_step()).systems.contains_key(x) <==> (m.systems.contains_key(x)
            || ss.contains(x)),
    decreases ss.len(),
{
    if ss.len() > 0 {
        lemma_run_systems_contains(m, ss.drop_last(), x);
        if ss.drop_last().contains(x) {
            let k = choose|k: int| 0 <= k < ss.drop_last().len() && ss.drop_last()[k] == x;
            assert(ss[k] == x);
        }
        if ss.contains(x) && ss.last() != x {
            let k = choose|k: int| 0 <= k < ss.len() && ss[k] == x;
            assert(ss.drop_last()[k] == x);
        }
    }
}

/// A fold whose steps keep the bodies keeps the bodies.
pub proof fn lemma_run_keeps_bodies<T>(
    m: RegistryModel,
    items: Seq<T>,
    step: spec_fn(RegistryModel, T) -> RegistryModel,
)
    requires
        forall|x: RegistryModel, t: T| #[trigger] step(x, t).bodies == x.bodies,
    ensures
        run(m, items, step).bodies == m.bodies,
    decreases items.len(),
{
    if items.len() > 0 {
        lemma_run_keeps_bodies(m, items.drop_last(), step);
    }
}

/// A fold whose steps keep the particle systems keeps them.
pub proof fn lemma_run_keeps_systems<T>(
    m: RegistryModel,
    items: Seq<T>,
    step: spec_fn(RegistryModel, T) -> RegistryModel,
)
    requires
        forall|x: RegistryModel, t: T| #[trigger] step(x, t).systems == x.systems,
    ensures
        run(m, items, step).systems == m.systems,
    decreases items.len(),
{
    if items.len() > 0 {
        lemma_run_keeps_systems(m, items.drop_last(), step);
    }
}

/// Checks that every reference of the pass resolves.
fn check_refs(reg: &HandleRegistry, input: &PassInput) -> (r: bool)
    ensures
        r == input.refs_resolve(reg@),
{
    let mut i: usize = 0;
    while i < input.added_fixtures.len()
        invariant
            0 <= i <= input.added_fixtures@.len(),
            forall|k: int|
                0 <= k < i ==> body_available(reg@, *input, #[trigger] input.added_fixtures@[k].1),
        decreases input.added_fixtures@.len() - i,
    {
        if !body_known(reg, input, input.added_fixtures[i].1) {
            return false;
        }
        i += 1;
    }
    let mut i: usize = 0;
    while i < input.added_joints.len()
        invariant
            0 <= i <= input.added_joints@.len(),
            forall|k: int|
                0 <= k < input.added_fixtures@.len() ==> body_available(
                    reg@,
                    *input,
                    #[trigger] input.added_fixtures@[k].1,
                ),
            forall|k: int|
                0 <= k < i ==> joint_ends_available(reg@, *input, #[trigger] input.added_joints@[k]),
        decreases input.added_joints@.len() - i,
    {
        let q = input.added_joints[i];
        assert(input.added_joints@[i as int] == q);
        let a_ok = body_known(reg, input, q.body_a);
        let b_ok = body_known(reg, input, q.body_b);
        if !a_ok || !b_ok {
            return false;
        }
        assert(body_available(reg@, *input, input.added_joints@[i as int].body_a));
        assert(body_available(reg@, *input, input.added_joints@[i as int].body_b));
        i += 1;
    }
    let mut i: usize = 0;
    while i < input.added_groups.len()
        invariant
            0 <= i <= input.added_groups@.len(),
            forall|k: int|
                0 <= k < input.added_fixtures@.len() ==> body_available(
                    reg@,
                    *input,
                    #[trigger] input.added_fixtures@[k].1,
                ),
            forall|k: int|
                0 <= k < input.added_joints@.len() ==> body_available(
                    reg@,
                    *input,
                    #[trigger] input.added_joints@[k].body_a,
                ) && body_available(reg@, *input, input.added_joints@[k].body_b),
            forall|k: int|
                0 <= k < i ==> system_available(reg@, *input, #[trigger] input.added_groups@[k].1),
        decreases input.added_groups@.len() - i,
    {
        if !system_known(reg, input, input.added_groups[i].1) {
            return false;
        }
        i += 1;
    }
    let mut i: usize = 0;
    while i < input.live_systems.len()
        invariant
            0 <= i <= input.live_systems@.len(),
            forall|k: int|
                0 <= k < input.added_fixtures@.len() ==> body_available(
                    reg@,
                    *input,
                    #[trigger] input.added_fixtures@[k].1,
                ),
            forall|k: int|
                0 <= k < input.added_joints@.len() ==> body_available(
                    reg@,
                    *input,
                    #[trigger] input.added_joints@[k].body_a,
                ) && body_available(reg@, *input, input.added_joints@[k].body_b),
            forall|k: int|
                0 <= k < input.added_groups@.len() ==> system_available(
                    reg@,
                    *input,
                    #[trigger] input.added_groups@[k].1,
                ),
            forall|k: int|
                0 <= k < i ==> system_available(reg@, *input, #[trigger] input.live_systems@[k]),
        decreases input.live_systems@.len() - i,
    {
        if !system_known(reg, input, input.live_systems[i]) {
            return false;
        }
        i += 1;
    }
    true
}

fn contains_entity(v: &Vec<u64>, x: u64) -> (r: bool)
    ensures
        r == v@.contains(x),
{
    let mut i: usize = 0;
    while i < v.len()
        invariant
            0 <= i <= v@.len(),
            forall|k: int| 0 <= k < i ==> v@[k] != x,
        decreases v@.len() - i,
    {
        if v[i] == x {
            assert(v@[i as int] == x);
            return true;
        }
        i += 1;
    }
    false
}

fn body_known(reg: &HandleRegistry, input: &PassInput, b: u64) -> (r: bool)
    ensures
        r == body_available(reg@, *input, b),
{
    reg.lookup_body(b).is_some() || contains_entity(&input.added_bodies, b)
}

fn system_known(reg: &HandleRegistry, input: &PassInput, s: u64) -> (r: bool)
    ensures
        r == system_available(reg@, *input, s),
{
    reg.lookup_particle_system(s).is_some() || contains_entity(&input.added_systems, s)
}

impl PassOutput {
    /// Each entry of this output is what its stage gave out for the matching
    /// input item, in the model that the stage had reached at that item.
    pub open spec fn reports(self, input: PassInput, m: RegistryModel) -> bool {
        let m1 = run(m, input.added_bodies@, body_step());
        let m2 = run(m1, input.added_fixtures@, fixture_step());
        let m3 = run(m2, input.added_joints@, joint_step());
        let m4 = run(m3, input.added_systems@, system_step());
        let c = input.created(m);
        let d1 = run(c, input.removed_fixtures@, fixture_removal_step());
        let d2 = run(d1, input.removed_joints@, joint_removal_step());
        &&& self.bodies@.len() == input.added_bodies@.len()
        &&& forall|i: int|
            0 <= i < input.added_bodies@.len() ==> #[trigger] self.bodies@[i] == new_body_handle(
                run(m, input.added_bodies@.take(i), body_step()),
                input.added_bodies@[i],
            )
        &&& self.fixtures@.len() == input.added_fixtures@.len()
        &&& forall|i: int|
            0 <= i < input.added_fixtures@.len() ==> #[trigger] self.fixtures@[i]
                == new_fixture_handles(
                run(m1, input.added_fixtures@.take(i), fixture_step()),
                input.added_fixtures@[i],
            )
        &&& self.joints@.len() == input.added_joints@.len()
        &&& forall|i: int|
            0 <= i < input.added_joints@.len() ==> #[trigger] self.joints@[i] == new_joint_handles(
                run(m2, input.added_joints@.take(i), joint_step()),
                input.added_joints@[i],
            )
        &&& self.systems@.len() == input.added_systems@.len()
        &&& forall|i: int|
            0 <= i < input.added_systems@.len() ==> #[trigger] self.systems@[i]
                == new_system_handle(
                run(m3, input.added_systems@.take(i), system_step()),
                input.added_systems@[i],
            )
        &&& self.groups@.len() == input.added_groups@.len()
        &&& forall|i: int|
            0 <= i < input.added_groups@.len() ==> #[trigger] self.groups@[i] == new_group_handles(
                run(m4, input.added_groups@.take(i), group_step()),
                input.added_groups@[i],
            )
        &&& self.live_systems@.len() == input.live_systems@.len()
        &&& forall|i: int|
            0 <= i < input.live_systems@.len() ==> #[trigger] self.live_systems@[i]
                == c.systems[input.live_systems@[i]]
        &&& self.removed_fixtures@.len() == input.removed_fixtures@.len()
        &&& forall|i: int|
            0 <= i < input.removed_fixtures@.len() ==> #[trigger] self.removed_fixtures@[i]
                == released_fixture(
                run(c, input.removed_fixtures@.take(i), fixture_removal_step()),
                input.removed_fixtures@[i],
            )
        &&& self.removed_joints@.len() == input.removed_joints@.len()
        &&& forall|i: int|
            0 <= i < input.removed_joints@.len() ==> #[trigger] self.removed_joints@[i]
                == released_joint(
                run(d1, input.removed_joints@.take(i), joint_removal_step()),
                input.removed_joints@[i],
            )
        &&& self.removed_bodies@.len() == input.removed_bodies@.len()
        &&& forall|i: int|
            0 <= i < input.removed_bodies@.len() ==> {
                let mb = run(d2, input.removed_bodies@.take(i), body_removal_step());
                &&& (#[trigger] self.removed_bodies@[i]).is_some() == mb.bodies.contains_key(
                    input.removed_bodies@[i],
                )
                &&& self.removed_bodies@[i].is_some() ==> self.removed_bodies@[i].unwrap().lists(
                    mb,
                    input.removed_bodies@[i],
                )
            }
    }
}

/// One lifecycle pass: creates bodies, fixtures, joints, particle systems and
/// particle groups, in that order, then destroys removed fixtures, joints and
/// bodies (each body after its dependents). Returns `None`, changing nothing,
/// where a fixture, joint or group names a parent that neither is live nor is
/// added by this pass, or a live particle system has no native system.
pub fn lifecycle_pass(reg: &mut HandleRegistry, input: &PassInput) -> (r: Option<PassOutput>)
    requires
        old(reg).wf(),
        old(reg)@.next_handle + input.additions() < u64::MAX,
    ensures
        final(reg).wf(),
        r.is_some() == input.refs_resolve(old(reg)@),
        r.is_none() ==> final(reg)@ == old(reg)@,
        r.is_some() ==> final(reg)@ == input.applied(old(reg)@) && r.unwrap().reports(
            *input,
            old(reg)@,
        ),
{
    if !check_refs(reg, input) {
        return None;
    }
    let ghost m = reg@;
    let ghost m1 = run(m, input.added_bodies@, body_step());
    let ghost m2 = run(m1, input.added_fixtures@, fixture_step());
    let ghost m3 = run(m2, input.added_joints@, joint_step());
    let ghost m4 = run(m3, input.added_systems@, system_step());
    proof {
        lemma_run_next_handle(m, input.added_bodies@, body_step());
        lemma_run_next_handle(m1, input.added_fixtures@, fixture_step());
        lemma_run_next_handle(m2, input.added_joints@, joint_step());
        lemma_run_next_handle(m3, input.added_systems@, system_step());
        lemma_run_keeps_bodies(m1, input.added_fixtures@, fixture_step());
        lemma_run_keeps_systems(m, input.added_bodies@, body_step());
        lemma_run_keeps_systems(m1, input.added_fixtures@, fixture_step());
        lemma_run_keeps_systems(m2, input.added_joints@, joint_step());
        lemma_run_keeps_systems(m4, input.added_groups@, group_step());
        assert forall|i: int| 0 <= i < input.added_fixtures@.len() implies m1.bodies.contains_key(
            #[trigger] input.added_fixtures@[i].1,
        ) by {
            lemma_create_bodies(m, input.added_bodies@, input.added_fixtures@[i].1);
        }
        assert forall|i: int| 0 <= i < input.added_joints@.len() implies ends_live(
            m2,
            #[trigger] input.added_joints@[i],
        ) by {
            assert(joint_ends_available(m, *input, input.added_joints@[i]));
            lemma_create_bodies(m, input.added_bodies@, input.added_joints@[i].body_a);
            lemma_create_bodies(m, input.added_bodies@, input.added_joints@[i].body_b);
        }
        assert forall|i: int| 0 <= i < input.added_groups@.len() implies m4.systems.contains_key(
            #[trigger] input.added_groups@[i].1,
        ) by {
            lemma_run_systems_contains(m3, input.added_systems@, input.added_groups@[i].1);
        }
        assert forall|i: int|
            0 <= i < input.live_systems@.len() implies input.created(m).systems.contains_key(
            #[trigger] input.live_systems@[i],
        ) by {
            lemma_run_systems_contains(m3, input.added_systems@, input.live_systems@[i]);
        }
    }
    let bodies = create_bodies(reg, &input.added_bodies);
    let fixtures = create_fixtures(reg, &input.added_fixtures);
    let joints = create_joints(reg, &input.added_joints);
    let systems = create_particle_systems(reg, &input.added_systems);
    let groups = create_particle_groups(reg, &input.added_groups);
    let live_systems = particle_system_handles(reg, &input.live_systems);
    let removed_fixtures = destroy_removed_fixtures(reg, &input.removed_fixtures);
    let removed_joints = destroy_removed_joints(reg, &input.removed_joints);
    let removed_bodies = destroy_removed_bodies(reg, &input.removed_bodies);
    Some(
        PassOutput {
            bodies,
            fixtures,
            joints,
            systems,
            groups,
            live_systems,
            removed_fixtures,
            removed_joints,
            removed_bodies,
        },
    )
}

} // verus!
