use crate::lifecycle::{
    body_removal_step, body_step, fixture_removal_step, fixture_step, group_step,
    joint_removal_step, joint_step, lemma_create_bodies, lemma_run_keeps_bodies, new_body_handle, run, system_step,
    PassInput,
};
use crate::registry::RegistryModel;
use vstd::prelude::*;

verus! {

/// `y` keeps every fixture of `x`, with the same handle and body.
pub open spec fn fixtures_grow(x: RegistryModel, y: RegistryModel) -> bool {
    forall|f: u64| #[trigger]
        x.fixtures.contains_key(f) ==> y.fixtures.contains_key(f) && y.fixtures[f]
            == x.fixtures[f]
}

/// Every fixture of `y` was in `x`, with the same handle and body.
pub open spec fn fixtures_shrink(x: RegistryModel, y: RegistryModel) -> bool {
    forall|f: u64| #[trigger]
        y.fixtures.contains_key(f) ==> x.fixtures.contains_key(f) && y.fixtures[f]
            == x.fixtures[f]
}

proof fn lemma_run_fixtures_grow<T>(
    m: RegistryModel,
    items: Seq<T>,
    step: spec_fn(RegistryModel, T) -> RegistryModel,
)
    requires
        forall|x: RegistryModel, t: T| fixtures_grow(x, #[trigger] step(x, t)),
    ensures
        fixtures_grow(m, run(m, items, step)),
    decreases items.len(),
{
    if items.len() > 0 {
        lemma_run_fixtures_grow(m, items.drop_last(), step);
        let x = run(m, items.drop_last(), step);
        assert(fixtures_grow(x, step(x, items.last())));
    }
}

proof fn lemma_run_fixtures_shrink<T>(
    m: RegistryModel,
    items: Seq<T>,
    step: spec_fn(RegistryModel, T) -> RegistryModel,
)
    requires
        forall|x: RegistryModel, t: T| fixtures_shrink(x, #[trigger] step(x, t)),
    ensures
        fixtures_shrink(m, run(m, items, step)),
    decreases items.len(),
{
    if items.len() > 0 {
        lemma_run_fixtures_shrink(m, items.drop_last(), step);
        let x = run(m, items.drop_last(), step);
        assert(fixtures_shrink(x, step(x, items.last())));
    }
}

/// Removing bodies removes each listed entity, keeps every other body with
/// its handle, and leaves no fixture on a listed entity.
proof fn lemma_remove_bodies(m: RegistryModel, es: Seq<u64>, x: u64)
    ensures
        run(m, es, body_removal_step()).bodies.contains_key(x) <==> (m.bodies.contains_key(x)
            && !es.contains(x)),
        m.bodies.contains_key(x) && !es.contains(x) ==> run(m, es, body_removal_step()).bodies[x]
            == m.bodies[x],
        es.contains(x) ==> forall|f: u64| #[trigger]
            run(m, es, body_removal_step()).fixtures.contains_key(f) ==> run(
                m,
                es,
                body_removal_step(),
            ).fixtures[f].1 != x,
    decreases es.len(),
{
    if es.len() > 0 {
        let p = es.drop_last();
        lemma_remove_bodies(m, p, x);
        let y = run(m, p, body_removal_step());
        let z = y.without_body(es.last());
        assert(run(m, es, body_removal_step()) == z);
        if p.contains(x) {
            let k = choose|k: int| 0 <= k < p.len() && p[k] == x;
            assert(es[k] == x);
        }
        if es.contains(x) && es.last() != x {
            let k = choose|k: int| 0 <= k < es.len() && es[k] == x;
            assert(p[k] == x);
        }
        if es.contains(x) {
            assert forall|f: u64| #[trigger] z.fixtures.contains_key(f) implies z.fixtures[f].1
                != x by {
                assert(y.fixtures.contains_key(f));
                if es.last() == x {
                    assert(!y.attached_fixtures(x).contains(f));
                }
            }
        }
    }
}

/// The bodies after the creations of a pass.
proof fn lemma_created_bodies(m: RegistryModel, p: PassInput, x: u64)
    ensures
        p.created(m).bodies.contains_key(x) <==> (m.bodies.contains_key(x)
            || p.added_bodies@.contains(x)),
        m.bodies.contains_key(x) ==> p.created(m).bodies[x] == m.bodies[x],
{
    let m1 = run(m, p.added_bodies@, body_step());
    let m2 = run(m1, p.added_fixtures@, fixture_step());
    let m3 = run(m2, p.added_joints@, joint_step());
    let m4 = run(m3, p.added_systems@, system_step());
    lemma_create_bodies(m, p.added_bodies@, x);
    lemma_run_keeps_bodies(m1, p.added_fixtures@, fixture_step());
    lemma_run_keeps_bodies(m2, p.added_joints@, joint_step());
    lemma_run_keeps_bodies(m3, p.added_systems@, system_step());
    lemma_run_keeps_bodies(m4, p.added_groups@, group_step());
}

/// The bodies after a whole pass.
proof fn lemma_applied_bodies(m: RegistryModel, p: PassInput, x: u64)
    ensures
        p.applied(m).bodies.contains_key(x) <==> (m.bodies.contains_key(x)
            || p.added_bodies@.contains(x)) && !p.removed_bodies@.contains(x),
        m.bodies.contains_key(x) && !p.removed_bodies@.contains(x) ==> p.applied(m).bodies[x]
            == m.bodies[x],
{
    let c = p.created(m);
    let d1 = run(c, p.removed_fixtures@, fixture_removal_step());
    let d2 = run(d1, p.removed_joints@, joint_removal_step());
    lemma_created_bodies(m, p, x);
    lemma_run_keeps_bodies(c, p.removed_fixtures@, fixture_removal_step());
    lemma_run_keeps_bodies(d1, p.removed_joints@, joint_removal_step());
    lemma_remove_bodies(d2, p.removed_bodies@, x);
}

/// A body added by a pass and not removed by it has a native body afterwards;
/// a later pass that does not remove it keeps that same handle, and creates
/// nothing for it even where its input lists the entity as added again.
pub proof fn lemma_added_body_is_created_once(
    m: RegistryModel,
    first: PassInput,
    second: PassInput,
    e: u64,
)
    requires
        first.added_bodies@.contains(e),
        !first.removed_bodies@.contains(e),
        !second.removed_bodies@.contains(e),
    ensures
        first.applied(m).bodies.contains_key(e),
        second.applied(first.applied(m)).bodies.contains_key(e),
        second.applied(first.applied(m)).bodies[e] == first.applied(m).bodies[e],
        forall|i: int|
            0 <= i < second.added_bodies@.len() && second.added_bodies@[i] == e
                ==> #[trigger] new_body_handle(
                run(first.applied(m), second.added_bodies@.take(i), body_step()),
                second.added_bodies@[i],
            ) is None,
{
    let a = first.applied(m);
    lemma_applied_bodies(m, first, e);
    lemma_applied_bodies(a, second, e);
    assert forall|i: int|
        0 <= i < second.added_bodies@.len() && second.added_bodies@[i] == e
            implies #[trigger] new_body_handle(
        run(a, second.added_bodies@.take(i), body_step()),
        second.added_bodies@[i],
    ) is None by {
        lemma_create_bodies(a, second.added_bodies@.take(i), e);
    }
}

/// A body removed by a pass has no native body afterwards, and neither has
/// any fixture that was attached to it, nor any fixture at all on it.
pub proof fn lemma_removed_body_takes_its_fixtures(m: RegistryModel, p: PassInput, e: u64)
    requires
        p.removed_bodies@.contains(e),
    ensures
        !p.applied(m).bodies.contains_key(e),
        forall|f: u64| #[trigger]
            p.applied(m).fixtures.contains_key(f) ==> p.applied(m).fixtures[f].1 != e,
        forall|f: u64|
            #[trigger] m.fixtures.contains_key(f) && m.fixtures[f].1 == e
                ==> !p.applied(m).fixtures.contains_key(f),
{
    let m1 = run(m, p.added_bodies@, body_step());
    let m2 = run(m1, p.added_fixtures@, fixture_step());
    let m3 = run(m2, p.added_joints@, joint_step());
    let m4 = run(m3, p.added_systems@, system_step());
    let c = p.created(m);
    let d1 = run(c, p.removed_fixtures@, fixture_removal_step());
    let d2 = run(d1, p.removed_joints@, joint_removal_step());
    let a = p.applied(m);
    lemma_applied_bodies(m, p, e);
    lemma_remove_bodies(d2, p.removed_bodies@, e);
    lemma_run_fixtures_grow(m, p.added_bodies@, body_step());
    lemma_run_fixtures_grow(m1, p.added_fixtures@, fixture_step());
    lemma_run_fixtures_grow(m2, p.added_joints@, joint_step());
    lemma_run_fixtures_grow(m3, p.added_systems@, system_step());
    lemma_run_fixtures_grow(m4, p.added_groups@, group_step());
    lemma_run_fixtures_shrink(c, p.removed_fixtures@, fixture_removal_step());
    lemma_run_fixtures_shrink(d1, p.removed_joints@, joint_removal_step());
    lemma_run_fixtures_shrink(d2, p.removed_bodies@, body_removal_step());
    assert forall|f: u64|
        #[trigger] m.fixtures.contains_key(f) && m.fixtures[f].1 == e
            implies !a.fixtures.contains_key(f) by {
        if a.fixtures.contains_key(f) {
            assert(d2.fixtures.contains_key(f));
            assert(d1.fixtures.contains_key(f));
            assert(c.fixtures.contains_key(f));
            assert(m1.fixtures.contains_key(f));
            assert(m2.fixtures.contains_key(f));
            assert(m3.fixtures.contains_key(f));
            assert(m4.fixtures.contains_key(f));
        }
    }
}

} // verus!
