use liquidfun_sync::particles::{project_particle_contacts, ParticleBodyContact};

#[test]
fn contacts_go_to_their_bodies() {
    let a = 100;
    let b = 200;
    let c = 300;
    let systems = vec![vec![
        ParticleBodyContact { particle_index: 0, body: a },
        ParticleBodyContact { particle_index: 1, body: b },
    ]];
    let r = project_particle_contacts(&vec![a, b, c], &systems);
    assert_eq!(r.len(), 3);
    assert_eq!(r[0].len(), 1);
    assert!(r[0].contains(&0));
    assert_eq!(r[1].len(), 1);
    assert!(r[1].contains(&1));
    assert!(r[2].is_empty());
}

#[test]
fn contacts_merge_across_systems() {
    let systems = vec![
        vec![ParticleBodyContact { particle_index: 3, body: 1 }],
        vec![],
        vec![
            ParticleBodyContact { particle_index: 3, body: 1 },
            ParticleBodyContact { particle_index: 7, body: 1 },
        ],
    ];
    let r = project_particle_contacts(&vec![1], &systems);
    assert_eq!(r[0].len(), 2);
    assert!(r[0].contains(&3) && r[0].contains(&7));
}

#[test]
fn no_systems_no_contacts() {
    let r = project_particle_contacts(&vec![1, 2], &vec![]);
    assert!(r.iter().all(|s| s.is_empty()));
    assert!(project_particle_contacts(&vec![], &vec![]).is_empty());
}
