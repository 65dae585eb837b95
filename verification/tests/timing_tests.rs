use joyride::{
    profile_for_bundle_id, schedule, ButtonMap, ClickCounter, MouseButtonKind, OutputEvent,
    OutputEventKind, PollState,
};

#[test]
fn click_count_within_interval_increments() {
    let mut c = ClickCounter::new();
    assert_eq!(c.press(MouseButtonKind::Left, 1000), 1);
    assert_eq!(c.release_count(MouseButtonKind::Left), 1);
    assert_eq!(c.press(MouseButtonKind::Left, 1100), 2);
    assert_eq!(c.press(MouseButtonKind::Left, 1599), 3);
    assert_eq!(c.release_count(MouseButtonKind::Left), 3);
    // 500 ms or more later starts again
    assert_eq!(c.press(MouseButtonKind::Left, 2099), 1);
    // buttons count separately
    assert_eq!(c.press(MouseButtonKind::Right, 2100), 1);
    assert_eq!(c.release_count(MouseButtonKind::Middle), 1);
    assert_eq!(c.last_count(MouseButtonKind::Middle), None);
}

#[test]
fn schedule_accumulates_delays() {
    let k = || OutputEventKind::MouseDown(MouseButtonKind::Left);
    let events = vec![
        OutputEvent::immediate(k()),
        OutputEvent::immediate(k()),
        OutputEvent::delayed(50, k()),
        OutputEvent::immediate(k()),
        OutputEvent::delayed(u32::MAX, k()),
    ];
    assert_eq!(schedule(&events), vec![0, 0, 50, 50, 50 + u32::MAX as u64]);
    assert!(schedule(&Vec::new()).is_empty());
}

#[test]
fn lock_combo_toggles_once_per_hold() {
    let mut s = PollState::new();
    s.active_profile = 2;
    let o = s.step(true, true, true, false, Some(2));
    assert!(o.lock_toggled && o.proceed);
    assert!(s.profile_locked);
    assert_eq!(s.active_profile, 0);
    let o = s.step(true, true, true, false, Some(3));
    assert!(!o.lock_toggled);
    assert!(s.profile_locked);
    assert_eq!(s.active_profile, 0);
    // release, then press again: unlocks and follows the frontmost app
    s.step(true, false, true, false, Some(3));
    let o = s.step(true, true, true, false, Some(3));
    assert!(o.lock_toggled && o.switched);
    assert!(!s.profile_locked);
    assert_eq!(s.active_profile, 3);
}

#[test]
fn excluded_app_stops_frame() {
    let mut s = PollState::new();
    let o = s.step(true, false, false, true, Some(1));
    assert!(!o.proceed);
    assert_eq!(s.active_profile, 0);
    let o = s.step(true, false, false, false, None);
    assert!(o.proceed && !o.switched);
    let o = s.step(true, false, false, false, Some(1));
    assert!(o.switched);
    assert_eq!(s.active_profile, 1);
}

#[test]
fn profile_lookup_takes_first_match() {
    let profiles = vec![
        vec!["com.a".to_string()],
        vec!["com.b".to_string(), "com.c".to_string()],
        vec!["com.c".to_string()],
    ];
    assert_eq!(profile_for_bundle_id(&profiles, "com.c"), Some(1));
    assert_eq!(profile_for_bundle_id(&profiles, "com.a"), Some(0));
    assert_eq!(profile_for_bundle_id(&profiles, "com.z"), None);
    let _ = ButtonMap::new();
}

#[test]
fn switched_off_frame_does_nothing() {
    let mut s = PollState::new();
    s.active_profile = 2;
    let o = s.step(false, true, true, false, Some(1));
    assert!(!o.proceed && !o.lock_toggled && !o.switched);
    assert!(!s.profile_locked && !s.lock_combo_was_held);
    assert_eq!(s.active_profile, 2);
}
