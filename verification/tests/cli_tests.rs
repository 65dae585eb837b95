use joyride::{default_button_map, usage, Action, CliArgs, NumericOption, ParseOutcome};

fn args(strs: &[&str]) -> Vec<String> {
    strs.iter().map(|s| s.to_string()).collect()
}

/// The text given to a numeric option, read as a number the way the
/// program reads it: a text that is no number leaves the default.
fn numeric_value(config: &CliArgs, opt: NumericOption, default: f64) -> f64 {
    let mut value = default;
    for (o, text) in &config.numeric {
        if *o == opt {
            value = text.parse().unwrap_or(value);
        }
    }
    value
}

#[test]
fn default_values() {
    let config = CliArgs::parse(&[]).unwrap();
    assert_eq!(numeric_value(&config, NumericOption::CursorSpeed, 1500.0), 1500.0);
    assert_eq!(numeric_value(&config, NumericOption::DpadSpeed, 150.0), 150.0);
    assert_eq!(numeric_value(&config, NumericOption::ScrollSpeed, 8.0), 8.0);
    assert_eq!(numeric_value(&config, NumericOption::PollHz, 120.0), 120.0);
    assert_eq!(numeric_value(&config, NumericOption::Deadzone, 0.15), 0.15);
    assert!(config.numeric.is_empty());
    assert_eq!(config.left_click, "buttonA");
    assert_eq!(config.right_click, "buttonB");
    assert_eq!(config.middle_click, "buttonX");
    assert!(!config.natural_scroll);
    assert!(!config.debug);
    assert!(config.excluded_bundle_ids.is_empty());
}

#[test]
fn cursor_speed_flag() {
    let config = CliArgs::parse(&args(&["--cursor-speed", "2000"])).unwrap();
    assert_eq!(config.numeric, vec![(NumericOption::CursorSpeed, "2000".to_string())]);
    assert_eq!(numeric_value(&config, NumericOption::CursorSpeed, 1500.0), 2000.0);
}

#[test]
fn dpad_speed_flag() {
    let config = CliArgs::parse(&args(&["--dpad-speed", "300"])).unwrap();
    assert_eq!(numeric_value(&config, NumericOption::DpadSpeed, 150.0), 300.0);
}

#[test]
fn scroll_speed_flag() {
    let config = CliArgs::parse(&args(&["--scroll-speed", "15"])).unwrap();
    assert_eq!(numeric_value(&config, NumericOption::ScrollSpeed, 8.0), 15.0);
}

#[test]
fn poll_hz_flag() {
    let config = CliArgs::parse(&args(&["--poll-hz", "60"])).unwrap();
    assert_eq!(numeric_value(&config, NumericOption::PollHz, 120.0), 60.0);
}

#[test]
fn deadzone_flag() {
    let config = CliArgs::parse(&args(&["--deadzone", "0.25"])).unwrap();
    assert_eq!(config.numeric, vec![(NumericOption::Deadzone, "0.25".to_string())]);
    let dz: f32 = config.numeric[0].1.parse().unwrap();
    assert_eq!(dz, 0.25);
}

#[test]
fn button_assignment_flags() {
    let config = CliArgs::parse(&args(&[
        "--left-click", "buttonY",
        "--right-click", "leftShoulder",
        "--middle-click", "rightShoulder",
    ])).unwrap();
    assert_eq!(config.left_click, "buttonY");
    assert_eq!(config.right_click, "leftShoulder");
    assert_eq!(config.middle_click, "rightShoulder");
}

#[test]
fn boolean_flags() {
    let config = CliArgs::parse(&args(&["--natural-scroll", "--debug"])).unwrap();
    assert!(config.natural_scroll);
    assert!(config.debug);
}

#[test]
fn exclude_multiple() {
    let config = CliArgs::parse(&args(&["--exclude", "com.foo,com.bar"])).unwrap();
    assert_eq!(config.excluded_bundle_ids, vec!["com.foo", "com.bar"]);
}

#[test]
fn exclude_single() {
    let config = CliArgs::parse(&args(&["--exclude", "com.example"])).unwrap();
    assert_eq!(config.excluded_bundle_ids, vec!["com.example"]);
}

#[test]
fn invalid_numeric_falls_back() {
    let config = CliArgs::parse(&args(&["--cursor-speed", "notanumber"])).unwrap();
    assert_eq!(numeric_value(&config, NumericOption::CursorSpeed, 1500.0), 1500.0);
}

#[test]
fn multiple_flags_combined() {
    let config = CliArgs::parse(&args(&[
        "--cursor-speed", "3000",
        "--poll-hz", "60",
        "--debug",
    ])).unwrap();
    assert_eq!(numeric_value(&config, NumericOption::CursorSpeed, 1500.0), 3000.0);
    assert_eq!(numeric_value(&config, NumericOption::PollHz, 120.0), 60.0);
    assert!(config.debug);
}

#[test]
fn help_flag() {
    let result = CliArgs::parse(&args(&["--help"]));
    assert!(matches!(result, Err(ParseOutcome::Help)));
}

#[test]
fn unknown_flag() {
    let result = CliArgs::parse(&args(&["--bogus"]));
    assert!(matches!(result, Err(ParseOutcome::Error(_))));
}

#[test]
fn cli_button_map_defaults() {
    let config = CliArgs::parse(&[]).unwrap();
    let map = config.cli_button_map();
    assert_eq!(*map.get("buttonA").unwrap(), Action::LeftClick);
    assert_eq!(*map.get("buttonB").unwrap(), Action::RightClick);
    assert_eq!(*map.get("buttonX").unwrap(), Action::MiddleClick);
}

#[test]
fn cli_button_map_overridden() {
    let config = CliArgs::parse(&args(&["--left-click", "buttonY"])).unwrap();
    let map = config.cli_button_map();
    assert_eq!(*map.get("buttonY").unwrap(), Action::LeftClick);
    assert!(!map.contains_key("buttonA"));
}

// Further cases.

#[test]
fn unknown_option_message() {
    match CliArgs::parse(&args(&["--debug", "--bogus", "--help"])) {
        Err(e) => assert_eq!(e.to_string(), "Unknown option: --bogus"),
        Ok(_) => panic!("expected an error"),
    }
    let help = CliArgs::parse(&args(&["-h"])).err().unwrap();
    assert_eq!(help.to_string(), "help requested");
}

#[test]
fn flag_without_value_is_ignored() {
    let config = CliArgs::parse(&args(&["--debug", "--left-click"])).unwrap();
    assert!(config.debug);
    assert_eq!(config.left_click, "buttonA");
    let config = CliArgs::parse(&args(&["--exclude"])).unwrap();
    assert!(config.excluded_bundle_ids.is_empty());
}

#[test]
fn later_numeric_value_wins_unless_invalid() {
    let config = CliArgs::parse(&args(&["--cursor-speed", "2000", "--cursor-speed", "bad"])).unwrap();
    assert_eq!(numeric_value(&config, NumericOption::CursorSpeed, 1500.0), 2000.0);
    let config = CliArgs::parse(&args(&["--cursor-speed", "2000", "--cursor-speed", "10"])).unwrap();
    assert_eq!(numeric_value(&config, NumericOption::CursorSpeed, 1500.0), 10.0);
}

#[test]
fn exclude_replaces_and_keeps_empty_parts() {
    let config = CliArgs::parse(&args(&["--exclude", "a,b", "--exclude", "c,,d"])).unwrap();
    assert_eq!(config.excluded_bundle_ids, vec!["c", "", "d"]);
}

#[test]
fn same_button_for_two_clicks_keeps_later() {
    let config = CliArgs::parse(&args(&["--left-click", "buttonB"])).unwrap();
    let map = config.cli_button_map();
    assert_eq!(map.len(), 2);
    assert_eq!(*map.get("buttonB").unwrap(), Action::RightClick);
}

#[test]
fn profile_button_map_has_all_inputs() {
    let config = CliArgs::parse(&[]).unwrap();
    let map = default_button_map(&config);
    assert_eq!(map.len(), 14);
    assert_eq!(*map.get("buttonA").unwrap(), Action::LeftClick);
    assert_eq!(*map.get("buttonB").unwrap(), Action::RightClick);
    assert_eq!(*map.get("buttonX").unwrap(), Action::MiddleClick);
    assert_eq!(*map.get("buttonY").unwrap(), Action::NoAction);
    assert_eq!(*map.get("dpadRight").unwrap(), Action::NoAction);
    assert!(!map.is_mapped("dpadRight"));
    assert!(map.is_mapped("buttonA"));
}

#[test]
fn profile_button_map_ignores_unknown_inputs() {
    let config = CliArgs::parse(&args(&["--left-click", "nosuch"])).unwrap();
    let map = default_button_map(&config);
    assert_eq!(map.len(), 14);
    assert!(!map.contains_key("nosuch"));
    assert_eq!(*map.get("buttonA").unwrap(), Action::NoAction);
}

#[test]
fn usage_lists_every_option() {
    let text = usage();
    assert!(text.starts_with("joyride [OPTIONS]\n"));
    for opt in [
        "--cursor-speed", "--dpad-speed", "--scroll-speed", "--poll-hz", "--deadzone",
        "--left-click", "--right-click", "--middle-click", "--natural-scroll", "--exclude",
        "--debug", "-h, --help",
    ] {
        assert!(text.contains(opt), "missing {opt}");
    }
}
