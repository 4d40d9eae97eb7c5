use liquidfun_sync::registry::{HandleRegistry, JointHandle, JointKind, RegistryError};

#[test]
fn body_is_registered_once() {
    let mut reg = HandleRegistry::new();
    assert_eq!(reg.create_body(7), Some(0));
    assert_eq!(reg.create_body(7), None);
    assert_eq!(reg.lookup_body(7), Some(0));
    assert_eq!(reg.lookup_body(8), None);
    assert_eq!(reg.create_body(8), Some(1));
    assert_eq!(reg.lookup_body(8), Some(1));
}

#[test]
fn fixture_needs_its_body() {
    let mut reg = HandleRegistry::new();
    assert_eq!(reg.create_fixture(10, 1), Err(RegistryError::MissingBody(1)));
    assert_eq!(reg.lookup_fixture(10), None);
    reg.create_body(1);
    assert_eq!(reg.create_fixture(10, 1), Ok(Some((1, 0))));
    assert_eq!(reg.create_fixture(10, 1), Ok(None));
    assert_eq!(reg.lookup_fixture(10), Some(1));
}

#[test]
fn joint_needs_both_bodies() {
    let mut reg = HandleRegistry::new();
    reg.create_body(1);
    assert_eq!(
        reg.create_joint(20, JointKind::Distance, 1, 2),
        Err(RegistryError::MissingBody(2))
    );
    assert_eq!(
        reg.create_joint(20, JointKind::Distance, 3, 1),
        Err(RegistryError::MissingBody(3))
    );
    reg.create_body(2);
    let created = reg.create_joint(20, JointKind::Distance, 1, 2);
    assert_eq!(
        created,
        Ok(Some((JointHandle { kind: JointKind::Distance, handle: 2 }, 0, 1)))
    );
    assert_eq!(reg.create_joint(20, JointKind::Distance, 1, 2), Ok(None));
}

#[test]
fn joint_lookup_checks_the_variant() {
    let mut reg = HandleRegistry::new();
    reg.create_body(1);
    reg.create_body(2);
    reg.create_joint(5, JointKind::Mouse, 1, 2).unwrap();
    assert_eq!(reg.lookup_joint_of_kind(5, JointKind::Mouse), Ok(2));
    assert_eq!(
        reg.lookup_joint_of_kind(5, JointKind::Revolute),
        Err(RegistryError::WrongJointKind(5))
    );
    assert_eq!(
        reg.lookup_joint_of_kind(6, JointKind::Mouse),
        Err(RegistryError::MissingJoint(6))
    );
    assert_eq!(
        reg.lookup_joint(5),
        Some(JointHandle { kind: JointKind::Mouse, handle: 2 })
    );
}

#[test]
fn group_needs_its_particle_system() {
    let mut reg = HandleRegistry::new();
    assert_eq!(
        reg.create_particle_group(30, 3),
        Err(RegistryError::MissingParticleSystem(3))
    );
    assert_eq!(reg.create_particle_system(3), Some(0));
    assert_eq!(reg.create_particle_system(3), None);
    assert_eq!(reg.create_particle_group(30, 3), Ok(Some((1, 0))));
    assert_eq!(reg.lookup_particle_group(30), Some(1));
    assert_eq!(reg.lookup_particle_system(3), Some(0));
}

#[test]
fn destroy_is_idempotent() {
    let mut reg = HandleRegistry::new();
    reg.create_body(1);
    reg.create_fixture(2, 1).unwrap();
    assert_eq!(reg.destroy_fixture(2), Some(1));
    assert_eq!(reg.destroy_fixture(2), None);
    assert!(reg.destroy_body(1).is_some());
    assert!(reg.destroy_body(1).is_none());
    assert_eq!(reg.destroy_joint(9), None);
}

#[test]
fn destroying_a_body_takes_fixtures_and_joints() {
    let mut reg = HandleRegistry::new();
    reg.create_body(1);
    reg.create_body(2);
    reg.create_fixture(10, 1).unwrap();
    reg.create_fixture(11, 1).unwrap();
    reg.create_fixture(12, 2).unwrap();
    reg.create_joint(20, JointKind::Revolute, 1, 2).unwrap();
    let teardown = reg.destroy_body(1).unwrap();
    assert_eq!(teardown.body, 0);
    let mut fixtures = teardown.fixtures.clone();
    fixtures.sort();
    assert_eq!(fixtures, vec![(10, 2), (11, 3)]);
    assert_eq!(
        teardown.joints,
        vec![(20, JointHandle { kind: JointKind::Revolute, handle: 5 })]
    );
    assert_eq!(reg.lookup_body(1), None);
    assert_eq!(reg.lookup_fixture(10), None);
    assert_eq!(reg.lookup_fixture(11), None);
    assert_eq!(reg.lookup_fixture(12), Some(4));
    assert_eq!(reg.lookup_joint(20), None);
    assert_eq!(reg.fixtures_attached_to(2), vec![12]);
    assert!(reg.fixtures_attached_to(1).is_empty());
    // the other body no longer lists the joint: destroying it gives none back
    let other = reg.destroy_body(2).unwrap();
    assert!(other.joints.is_empty());
    assert_eq!(other.fixtures, vec![(12, 4)]);
}

#[test]
fn handles_left_counts_down() {
    let mut reg = HandleRegistry::new();
    assert_eq!(reg.handles_left(), u64::MAX);
    reg.create_body(1);
    assert_eq!(reg.handles_left(), u64::MAX - 1);
}
