use fadewire_core::filter::{next_mute_zone, MUTE_EXIT_BAND, SNAP_BAND};

#[test]
fn mute_detent_latches_below_the_threshold() {
    assert!(next_mute_zone(false, 5, 10));
    assert!(next_mute_zone(true, 9, 10));
}

#[test]
fn mute_detent_needs_the_exit_band() {
    // Inside the band the previous state holds.
    assert!(next_mute_zone(true, 20, 10));
    assert!(next_mute_zone(true, 25, 10));
    assert!(!next_mute_zone(false, 20, 10));
    // Clearly above threshold + band: released.
    assert!(!next_mute_zone(true, 26, 10));
}

#[test]
fn mute_detent_off_never_latches() {
    assert!(!next_mute_zone(true, -50, 0));
    assert!(!next_mute_zone(true, 5, -3));
}

#[test]
fn signal_path_constants() {
    assert_eq!(SNAP_BAND, 60);
    assert_eq!(MUTE_EXIT_BAND, 15);
}
