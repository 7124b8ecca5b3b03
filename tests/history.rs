use gpu_monitor::history::TempState;

#[test]
fn new_history_is_empty() {
    let h = TempState::new(500);
    assert!(h.samples().is_empty());
    assert_eq!(h.peak(), 0);
}

#[test]
fn peak_is_running_maximum() {
    let mut h = TempState::new(0);
    let temps: [u64; 6] = [40, 55, 50, 70, 20, 70];
    let mut max: u64 = 0;
    for (k, t) in temps.iter().enumerate() {
        h.update(*t, 80, (k as u64) * 100);
        if *t > max {
            max = *t;
        }
        assert_eq!(h.peak(), max);
    }
    assert_eq!(h.peak(), 70);
}

#[test]
fn samples_recorded_at_interval() {
    let mut h = TempState::new(0);
    h.update(50, 10, 1000);
    assert!(h.samples().is_empty());
    h.update(60, 10, 1500);
    assert_eq!(h.samples(), &vec![60]);
    h.update(70, 10, 2999);
    assert_eq!(h.samples(), &vec![60]);
    h.update(40, 10, 3000);
    assert_eq!(h.samples(), &vec![60, 40]);
    assert_eq!(h.peak(), 70);
}

#[test]
fn close_updates_add_no_sample() {
    let mut h = TempState::new(0);
    h.update(30, 10, 2000);
    assert_eq!(h.samples().len(), 1);
    h.update(31, 10, 2001);
    h.update(32, 10, 3499);
    assert_eq!(h.samples(), &vec![30]);
}

#[test]
fn samples_bounded_by_width() {
    let mut h = TempState::new(0);
    for k in 1..=8u64 {
        h.update(k, 3, k * 1500);
        assert!(h.samples().len() <= 3);
    }
    assert_eq!(h.samples(), &vec![6, 7, 8]);
}

#[test]
fn shrinking_width_trims_without_sampling() {
    let mut h = TempState::new(0);
    h.update(1, 10, 1500);
    h.update(2, 10, 3000);
    h.update(3, 10, 4500);
    h.update(9, 1, 4600);
    assert_eq!(h.samples(), &vec![3]);
    assert_eq!(h.peak(), 9);
    h.update(9, 0, 9000);
    assert!(h.samples().is_empty());
}

#[test]
fn clock_going_back_adds_no_sample() {
    let mut h = TempState::new(10_000);
    h.update(5, 10, 2000);
    assert!(h.samples().is_empty());
}
