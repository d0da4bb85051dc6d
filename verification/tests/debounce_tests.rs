use coo::debounce::Debouncer;

#[test]
fn burst_of_edits_yields_exactly_one_write() {
    let mut deb = Debouncer::new(1000);
    // three edits in quick succession, each scheduling its own timer
    let fire_times = [
        deb.record_edit(0),
        deb.record_edit(200),
        deb.record_edit(400),
    ];
    assert_eq!(fire_times, [1000, 1200, 1400]);
    // every timer fires after the burst and checks the last change time
    let saves: Vec<bool> = fire_times.iter().map(|t| deb.should_save(*t)).collect();
    assert_eq!(saves, vec![false, false, true]);
    assert_eq!(saves.iter().filter(|s| **s).count(), 1);
}

#[test]
fn a_timer_beaten_by_a_later_edit_skips_the_save() {
    let mut deb = Debouncer::new(1000);
    let first = deb.record_edit(0);
    assert_eq!(first, 1000);
    // a further edit arrives before the first timer fires
    let second = deb.record_edit(999);
    assert!(!deb.should_save(first));
    assert!(deb.should_save(second));
}

#[test]
fn a_lone_edit_saves_once_the_interval_passes() {
    let mut deb = Debouncer::new(1000);
    let fire = deb.record_edit(5000);
    assert!(!deb.should_save(5999));
    assert!(deb.should_save(fire));
    assert!(deb.should_save(fire + 1));
}
