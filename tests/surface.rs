use papdieo::surface::{output_matches_monitor, AppState, OutputBinding, SelectError};

fn binding(global: u32, name: Option<&str>, desc: Option<&str>) -> OutputBinding {
    OutputBinding {
        global_name: global,
        name: name.map(str::to_string),
        description: desc.map(str::to_string),
    }
}

#[test]
fn new_state_trims_request() {
    let s = AppState::new("/w/a.png".to_string(), Some("  DP-1 ".to_string()));
    assert_eq!(s.requested_monitor.as_deref(), Some("DP-1"));
    assert_eq!((s.width, s.height), (1920, 1080));
    assert!(!s.configured && !s.exit);
    let blank = AppState::new("/w/a.png".to_string(), Some("   ".to_string()));
    assert_eq!(blank.requested_monitor, None);
}

#[test]
fn matching_rules() {
    let o = binding(1, Some("DP-1"), Some("Dell Inc. U2720Q ABC123"));
    assert!(output_matches_monitor(&o, "DP-1"));
    assert!(output_matches_monitor(&o, " dp-1 "));
    assert!(output_matches_monitor(&o, "u2720q"));
    assert!(output_matches_monitor(&o, "dell inc. u2720q abc123"));
    assert!(!output_matches_monitor(&o, "HDMI-A-1"));
    let bare = binding(2, None, None);
    assert!(!output_matches_monitor(&bare, "DP-1"));
}

#[test]
fn selects_first_match_or_first_output() {
    let mut s = AppState::new("/w".to_string(), Some("hdmi-a-1".to_string()));
    s.add_output(10);
    s.add_output(11);
    s.add_output(10);
    assert_eq!(s.outputs.len(), 2);
    assert!(!s.has_resolved_requested_output());
    assert!(!s.all_outputs_have_metadata());
    assert!(!s.metadata_settled(0));
    assert!(s.metadata_settled(6));
    s.set_output_name(10, "DP-1".to_string());
    s.set_output_description(11, "Some Monitor".to_string());
    s.set_output_name(11, "HDMI-A-1".to_string());
    assert!(s.has_resolved_requested_output());
    assert!(s.all_outputs_have_metadata());
    assert_eq!(s.outputs[1].description.as_deref(), Some("Some Monitor"));
    assert_eq!(s.select_output().unwrap(), 1);

    let mut any = AppState::new("/w".to_string(), None);
    assert!(matches!(any.select_output(), Err(SelectError::NoOutputs)));
    any.add_output(3);
    assert_eq!(any.select_output().unwrap(), 0);
}

#[test]
fn missing_monitor_lists_outputs() {
    let mut s = AppState::new("/w".to_string(), Some("eDP-9".to_string()));
    s.add_output(1);
    s.add_output(2);
    s.add_output(3);
    s.set_output_name(1, "DP-1".to_string());
    s.set_output_description(2, "Panel".to_string());
    match s.select_output() {
        Err(SelectError::MonitorNotFound { requested, available }) => {
            assert_eq!(requested, "eDP-9");
            assert_eq!(available, vec!["DP-1".to_string(), "Panel (description)".to_string()]);
        }
        other => panic!("unexpected {:?}", other),
    }
}

#[test]
fn configure_fixes_geometry_once() {
    let mut s = AppState::new("/w".to_string(), None);
    s.configure(2560, 0);
    assert_eq!((s.width, s.height), (2560, 1080));
    assert!(s.configured);
    s.configure(800, 600);
    assert_eq!((s.width, s.height), (2560, 1080));
    s.close();
    assert!(s.exit);
}

#[test]
fn exact_name_beats_earlier_folded_match() {
    let mut s = AppState::new("/w".to_string(), Some("DP-1".to_string()));
    s.add_output(1);
    s.add_output(2);
    s.add_output(3);
    s.set_output_description(1, "dp-1 panel".to_string());
    s.set_output_name(2, "dp-1".to_string());
    s.set_output_name(3, "DP-1".to_string());
    assert_eq!(s.select_output().unwrap(), 2);
    let mut t = AppState::new("/w".to_string(), Some("DP-1".to_string()));
    t.add_output(1);
    t.add_output(2);
    t.set_output_description(1, "dp-1 panel".to_string());
    t.set_output_name(2, "dp-1".to_string());
    assert_eq!(t.select_output().unwrap(), 1);
}
