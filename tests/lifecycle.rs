use liquidfun_sync::lifecycle::{
    body_handles, joint_sync_targets, lifecycle_pass, JointRequest, PassInput,
};
use liquidfun_sync::registry::{HandleRegistry, JointHandle, JointKind, RegistryError};

fn empty_input() -> PassInput {
    PassInput {
        added_bodies: vec![],
        added_fixtures: vec![],
        added_joints: vec![],
        added_systems: vec![],
        added_groups: vec![],
        live_systems: vec![],
        removed_fixtures: vec![],
        removed_joints: vec![],
        removed_bodies: vec![],
    }
}

#[test]
fn added_body_is_created_once_over_two_passes() {
    let mut reg = HandleRegistry::new();
    let mut input = empty_input();
    input.added_bodies = vec![1];
    let out = lifecycle_pass(&mut reg, &input).unwrap();
    assert_eq!(out.bodies, vec![Some(0)]);
    assert_eq!(reg.lookup_body(1), Some(0));
    let out = lifecycle_pass(&mut reg, &input).unwrap();
    assert_eq!(out.bodies, vec![None]);
    assert_eq!(reg.lookup_body(1), Some(0));
    let out = lifecycle_pass(&mut reg, &empty_input()).unwrap();
    assert!(out.bodies.is_empty());
    assert_eq!(reg.lookup_body(1), Some(0));
}

#[test]
fn removed_body_takes_its_fixtures() {
    let mut reg = HandleRegistry::new();
    let mut input = empty_input();
    input.added_bodies = vec![1, 2];
    input.added_fixtures = vec![(10, 1), (11, 1), (12, 2)];
    let out = lifecycle_pass(&mut reg, &input).unwrap();
    assert_eq!(out.fixtures, vec![Some((2, 0)), Some((3, 0)), Some((4, 1))]);
    let mut input = empty_input();
    input.removed_bodies = vec![1];
    let out = lifecycle_pass(&mut reg, &input).unwrap();
    let teardown = out.removed_bodies[0].as_ref().unwrap();
    assert_eq!(teardown.body, 0);
    assert_eq!(teardown.fixtures.len(), 2);
    assert_eq!(reg.lookup_body(1), None);
    assert_eq!(reg.lookup_fixture(10), None);
    assert_eq!(reg.lookup_fixture(11), None);
    assert_eq!(reg.lookup_fixture(12), Some(4));
    // removing it again is a no-op
    let out = lifecycle_pass(&mut reg, &input).unwrap();
    assert!(out.removed_bodies[0].is_none());
}

#[test]
fn pass_creates_in_dependency_order() {
    let mut reg = HandleRegistry::new();
    let mut input = empty_input();
    input.added_bodies = vec![1, 2];
    input.added_fixtures = vec![(3, 2)];
    input.added_joints = vec![JointRequest {
        entity: 4,
        kind: JointKind::Prismatic,
        body_a: 1,
        body_b: 2,
    }];
    input.added_systems = vec![5];
    input.added_groups = vec![(6, 5)];
    input.live_systems = vec![5];
    let out = lifecycle_pass(&mut reg, &input).unwrap();
    assert_eq!(out.bodies, vec![Some(0), Some(1)]);
    assert_eq!(out.fixtures, vec![Some((2, 1))]);
    assert_eq!(
        out.joints,
        vec![Some((JointHandle { kind: JointKind::Prismatic, handle: 3 }, 0, 1))]
    );
    assert_eq!(out.systems, vec![Some(4)]);
    assert_eq!(out.groups, vec![Some((5, 4))]);
    assert_eq!(out.live_systems, vec![4]);
}

#[test]
fn pass_refuses_unresolved_parents() {
    let mut reg = HandleRegistry::new();
    let mut input = empty_input();
    input.added_fixtures = vec![(3, 9)];
    assert!(lifecycle_pass(&mut reg, &input).is_none());
    assert_eq!(reg.lookup_fixture(3), None);
    let mut input = empty_input();
    input.added_groups = vec![(3, 9)];
    assert!(lifecycle_pass(&mut reg, &input).is_none());
    let mut input = empty_input();
    input.live_systems = vec![9];
    assert!(lifecycle_pass(&mut reg, &input).is_none());
    let mut input = empty_input();
    input.added_bodies = vec![1];
    input.added_joints = vec![JointRequest {
        entity: 4,
        kind: JointKind::Distance,
        body_a: 1,
        body_b: 2,
    }];
    assert!(lifecycle_pass(&mut reg, &input).is_none());
    assert_eq!(reg.lookup_body(1), None);
}

#[test]
fn create_then_remove_in_one_window() {
    let mut reg = HandleRegistry::new();
    let mut input = empty_input();
    input.added_bodies = vec![1];
    input.removed_bodies = vec![1];
    let out = lifecycle_pass(&mut reg, &input).unwrap();
    assert_eq!(out.bodies, vec![Some(0)]);
    assert_eq!(out.removed_bodies[0].as_ref().unwrap().body, 0);
    assert_eq!(reg.lookup_body(1), None);
}

#[test]
fn removed_joint_and_fixture_are_released() {
    let mut reg = HandleRegistry::new();
    let mut input = empty_input();
    input.added_bodies = vec![1, 2];
    input.added_fixtures = vec![(3, 1)];
    input.added_joints = vec![JointRequest {
        entity: 4,
        kind: JointKind::Mouse,
        body_a: 1,
        body_b: 2,
    }];
    lifecycle_pass(&mut reg, &input).unwrap();
    let mut input = empty_input();
    input.removed_fixtures = vec![3, 3];
    input.removed_joints = vec![4];
    let out = lifecycle_pass(&mut reg, &input).unwrap();
    assert_eq!(out.removed_fixtures, vec![Some(2), None]);
    assert_eq!(
        out.removed_joints,
        vec![Some(JointHandle { kind: JointKind::Mouse, handle: 3 })]
    );
    assert_eq!(reg.lookup_joint(4), None);
}

#[test]
fn force_targets_skip_entities_without_body() {
    let mut reg = HandleRegistry::new();
    reg.create_body(1);
    assert_eq!(body_handles(&reg, &vec![1, 2]), vec![Some(0), None]);
}

#[test]
fn joint_sync_targets_narrow_by_kind() {
    let mut reg = HandleRegistry::new();
    reg.create_body(1);
    reg.create_body(2);
    reg.create_joint(3, JointKind::Distance, 1, 2).unwrap();
    reg.create_joint(4, JointKind::Mouse, 1, 2).unwrap();
    assert_eq!(
        joint_sync_targets(&reg, JointKind::Distance, &vec![3]),
        Ok(vec![2])
    );
    assert_eq!(
        joint_sync_targets(&reg, JointKind::Distance, &vec![3, 4]),
        Err(RegistryError::WrongJointKind(4))
    );
    assert_eq!(
        joint_sync_targets(&reg, JointKind::Mouse, &vec![9, 4]),
        Err(RegistryError::MissingJoint(9))
    );
}
