use liquidfun_sync::stepper::FixedStepper;

#[test]
fn whole_steps_leave_nothing() {
    let dt: u64 = 16_666_667;
    let mut stepper = FixedStepper::new(dt);
    for k in 0..5u64 {
        for _ in 0..3 {
            assert_eq!(stepper.advance(k * dt), k);
            assert_eq!(stepper.leftover(), 0);
        }
    }
}

#[test]
fn step_and_a_half_alternates() {
    let dt: u64 = 20_000_000;
    let mut stepper = FixedStepper::new(dt);
    assert_eq!(stepper.advance(dt + dt / 2), 1);
    assert_eq!(stepper.leftover(), dt / 2);
    assert_eq!(stepper.advance(dt + dt / 2), 2);
    assert_eq!(stepper.leftover(), 0);
    assert_eq!(stepper.advance(dt + dt / 2), 1);
    assert_eq!(stepper.leftover(), dt / 2);
}

#[test]
fn short_frames_accumulate() {
    let mut stepper = FixedStepper::new(100);
    assert_eq!(stepper.advance(40), 0);
    assert_eq!(stepper.advance(40), 0);
    assert_eq!(stepper.leftover(), 80);
    assert_eq!(stepper.advance(40), 1);
    assert_eq!(stepper.leftover(), 20);
    assert_eq!(stepper.step_length(), 100);
}

#[test]
fn largest_frame_does_not_overflow() {
    let mut stepper = FixedStepper::new(1);
    assert_eq!(stepper.advance(u64::MAX), u64::MAX);
    let mut stepper = FixedStepper::new(u64::MAX);
    assert_eq!(stepper.advance(u64::MAX - 1), 0);
    assert_eq!(stepper.advance(u64::MAX), 1);
    assert_eq!(stepper.leftover(), u64::MAX - 1);
}
