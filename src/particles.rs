use std::collections::HashSet;
use vstd::prelude::*;

verus! {

broadcast use vstd::std_specs::hash::group_hash_axioms;

/// One entry of a particle system's body-contact list: particle
/// `particle_index` of the system touches the body of entity `body`.
#[derive(Clone, Copy, Debug, PartialEq, Eq, Structural)]
pub struct ParticleBodyContact {
    pub particle_index: i32,
    pub body: u64,
}

/// Some particle system lists particle `p` as touching body `b`.
pub open spec fn touches(systems: Seq<Vec<ParticleBodyContact>>, b: u64, p: i32) -> bool {
    exists|s: int, c: int|
        0 <= s < systems.len() && 0 <= c < systems[s]@.len() && #[trigger] systems[s]@[c]
            == ParticleBodyContact { particle_index: p, body: b }
}

/// Some entry before entry `c` of system `s`, in system order, lists
/// particle `p` as touching body `b`.
pub open spec fn touches_before(
    systems: Seq<Vec<ParticleBodyContact>>,
    b: u64,
    s: int,
    c: int,
    p: i32,
) -> bool {
    exists|s2: int, c2: int|
        0 <= s2 < systems.len() && 0 <= c2 < systems[s2]@.len() && (s2 < s || (s2 == s && c2
            < c)) && #[trigger] systems[s2]@[c2] == ParticleBodyContact {
            particle_index: p,
            body: b,
        }
}

/// The particles in contact with body `b`, by the lists of all systems.
pub open spec fn particles_touching(systems: Seq<Vec<ParticleBodyContact>>, b: u64) -> Set<i32> {
    Set::new(|p: i32| touches(systems, b, p))
}

fn particles_touching_body(systems: &Vec<Vec<ParticleBodyContact>>, b: u64) -> (r: HashSet<i32>)
    ensures
        r@ == particles_touching(systems@, b),
{
    let mut set: HashSet<i32> = HashSet::new();
    let mut s: usize = 0;
    while s < systems.len()
        invariant
            0 <= s <= systems@.len(),
            forall|p: i32| set@.contains(p) <==> touches_before(systems@, b, s as int, 0, p),
        decreases systems@.len() - s,
    {
        let list = &systems[s];
        let mut c: usize = 0;
        while c < list.len()
            invariant
                0 <= s < systems@.len(),
                list@ == systems@[s as int]@,
                0 <= c <= list@.len(),
                forall|p: i32|
                    set@.contains(p) <==> touches_before(systems@, b, s as int, c as int, p),
            decreases list@.len() - c,
        {
            let contact = list[c];
            if contact.body == b {
                set.insert(contact.particle_index);
            }
            proof {
                assert forall|p: i32|
                    set@.contains(p) <==> touches_before(
                        systems@,
                        b,
                        s as int,
                        c + 1,
                        p,
                    ) by {
                    if touches_before(systems@, b, s as int, c + 1, p) {
                        let (s2, c2) = choose|s2: int, c2: int|
                            0 <= s2 < systems@.len() && 0 <= c2 < systems@[s2]@.len() && (s2
                                < s || (s2 == s && c2 < c + 1)) && #[trigger] systems@[s2]@[c2]
                                == ParticleBodyContact { particle_index: p, body: b };
                        if !(s2 == s && c2 == c) {
                            assert(touches_before(systems@, b, s as int, c as int, p));
                        }
                    }
                    if touches_before(systems@, b, s as int, c as int, p) {
                        let (s2, c2) = choose|s2: int, c2: int|
                            0 <= s2 < systems@.len() && 0 <= c2 < systems@[s2]@.len() && (s2
                                < s || (s2 == s && c2 < c)) && #[trigger] systems@[s2]@[c2]
                                == ParticleBodyContact { particle_index: p, body: b };
                        assert(systems@[s2]@[c2] == ParticleBodyContact {
                            particle_index: p,
                            body: b,
                        });
                    }
                    if contact.body == b && p == contact.particle_index {
                        assert(systems@[s as int]@[c as int] == ParticleBodyContact {
                            particle_index: p,
                            body: b,
                        });
                    }
                }
            }
            c += 1;
        }
        proof {
            assert forall|p: i32|
                touches_before(systems@, b, s as int, list@.len() as int, p) <==> touches_before(
                    systems@,
                    b,
                    s + 1,
                    0,
                    p,
                ) by {
                if touches_before(systems@, b, s + 1, 0, p) {
                    let (s2, c2) = choose|s2: int, c2: int|
                        0 <= s2 < systems@.len() && 0 <= c2 < systems@[s2]@.len() && (s2 < s + 1
                            || (s2 == s + 1 && c2 < 0)) && #[trigger] systems@[s2]@[c2]
                            == ParticleBodyContact { particle_index: p, body: b };
                    assert(systems@[s2]@[c2] == ParticleBodyContact { particle_index: p, body: b });
                }
                if touches_before(systems@, b, s as int, list@.len() as int, p) {
                    let (s2, c2) = choose|s2: int, c2: int|
                        0 <= s2 < systems@.len() && 0 <= c2 < systems@[s2]@.len() && (s2 < s || (
                        s2 == s && c2 < list@.len())) && #[trigger] systems@[s2]@[c2]
                            == ParticleBodyContact { particle_index: p, body: b };
                    assert(systems@[s2]@[c2] == ParticleBodyContact { particle_index: p, body: b });
                }
            }
        }
        s += 1;
    }
    proof {
        assert forall|p: i32|
            touches_before(systems@, b, systems@.len() as int, 0, p) <==> touches(
                systems@,
                b,
                p,
            ) by {
            if touches(systems@, b, p) {
                let (s2, c2) = choose|s2: int, c2: int|
                    0 <= s2 < systems@.len() && 0 <= c2 < systems@[s2]@.len() && #[trigger] systems@[s2]@[c2]
                        == ParticleBodyContact { particle_index: p, body: b };
                assert(systems@[s2]@[c2] == ParticleBodyContact { particle_index: p, body: b });
            }
        }
        assert(set@ =~= particles_touching(systems@, b));
    }
    set
}

/// Rebuilds, for each body entity, the set of particles in contact with it,
/// from the body-contact lists of all particle systems. A body that no list
/// names gets an empty set.
pub fn project_particle_contacts(
    bodies: &Vec<u64>,
    systems: &Vec<Vec<ParticleBodyContact>>,
) -> (r: Vec<HashSet<i32>>)
    ensures
        r@.len() == bodies@.len(),
        forall|i: int|
            0 <= i < bodies@.len() ==> (#[trigger] r@[i])@ == particles_touching(
                systems@,
                bodies@[i],
            ),
{
    let mut r: Vec<HashSet<i32>> = Vec::new();
    let mut i: usize = 0;
    while i < bodies.len()
        invariant
            0 <= i <= bodies@.len(),
            r@.len() == i,
            forall|k: int|
                0 <= k < i ==> (#[trigger] r@[k])@ == particles_touching(systems@, bodies@[k]),
        decreases bodies@.len() - i,
    {
        r.push(particles_touching_body(systems, bodies[i]));
        i += 1;
    }
    r
}

} // verus!
