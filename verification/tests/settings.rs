use toroidal_life::settings::Settings;

#[test]
fn settings_default_clock_off() {
    let s = Settings::default();
    assert!(!s.auto_run());
}

#[test]
fn settings_toggle_auto_run_flips() {
    let mut s = Settings::default();
    s.toggle_auto_run();
    assert!(s.auto_run());
    s.toggle_auto_run();
    assert!(!s.auto_run());
}

#[test]
fn settings_menu_toggle_keeps_auto_run() {
    let mut s = Settings::default();
    s.toggle();
    assert!(!s.auto_run());
    s.toggle_auto_run();
    s.toggle();
    assert!(s.auto_run());
}
