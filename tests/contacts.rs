use liquidfun_sync::contacts::{ContactKey, ContactTracker};

#[test]
fn key_is_unordered() {
    assert_eq!(ContactKey::new(3, 9), ContactKey::new(9, 3));
    let k = ContactKey::new(9, 3);
    assert_eq!(k.fixture_a(), 3);
    assert_eq!(k.fixture_b(), 9);
}

#[test]
fn contact_over_three_frames() {
    let k = ContactKey::new(1, 2);
    let mut t: ContactTracker<u32> = ContactTracker::new();
    // frame 1: the contact appears
    t.begin_contact(k, 10);
    let (begins, ends) = t.take_events();
    assert_eq!(begins, vec![(k, 10)]);
    assert!(ends.is_empty());
    assert_eq!(t.touching(&k), Some(10));
    // frame 2: it persists
    let (begins, ends) = t.take_events();
    assert!(begins.is_empty());
    assert!(ends.is_empty());
    assert_eq!(t.touching_count(), 1);
    // frame 3: it is gone
    t.end_contact(ContactKey::new(2, 1), 11);
    let (begins, ends) = t.take_events();
    assert!(begins.is_empty());
    assert_eq!(ends, vec![(k, 11)]);
    assert_eq!(t.touching(&k), None);
}

#[test]
fn contact_within_one_step() {
    let k = ContactKey::new(4, 5);
    let mut t: ContactTracker<u32> = ContactTracker::new();
    t.begin_contact(k, 1);
    t.end_contact(k, 2);
    let (begins, ends) = t.take_events();
    assert_eq!(begins, vec![(k, 2)]);
    assert_eq!(ends, vec![(k, 2)]);
    assert_eq!(t.touching_count(), 0);
}

#[test]
fn reported_twice_begins_once() {
    let k = ContactKey::new(4, 5);
    let mut t: ContactTracker<u32> = ContactTracker::new();
    t.begin_contact(k, 1);
    t.begin_contact(ContactKey::new(5, 4), 3);
    let (begins, _) = t.take_events();
    assert_eq!(begins, vec![(k, 3)]);
}
