use papdieo::visibility::{
    active_workspace_id, has_window_on_workspace, query_should_render, resolve_monitor_id,
    ClientInfo, MonitorInfo, VisibilityState,
};

fn monitor(id: i64, name: &str, focused: bool, ws: i64) -> MonitorInfo {
    MonitorInfo {
        id: Some(id),
        name: Some(name.to_string()),
        focused: Some(focused),
        active_workspace_id: Some(ws),
    }
}

fn client(mapped: bool, hidden: bool, ws: i64) -> ClientInfo {
    ClientInfo { mapped: Some(mapped), hidden: Some(hidden), workspace_id: Some(ws) }
}

#[test]
fn monitor_ids_by_name() {
    let ms = vec![monitor(0, "DP-1", false, 1), monitor(1, "HDMI-A-1", true, 2)];
    assert_eq!(resolve_monitor_id(Some("HDMI-A-1"), Some(&ms)), Some(1));
    assert_eq!(resolve_monitor_id(Some("eDP-1"), Some(&ms)), None);
    assert_eq!(resolve_monitor_id(None, Some(&ms)), None);
    assert_eq!(resolve_monitor_id(Some("DP-1"), None), None);
}

#[test]
fn workspace_of_target_focused_or_first() {
    let ms = vec![monitor(0, "DP-1", false, 1), monitor(1, "HDMI-A-1", true, 2)];
    assert_eq!(active_workspace_id(&ms, Some(0)), Some(1));
    assert_eq!(active_workspace_id(&ms, None), Some(2));
    assert_eq!(active_workspace_id(&ms, Some(9)), None);
    let unfocused = vec![monitor(0, "DP-1", false, 5), monitor(1, "DP-2", false, 6)];
    assert_eq!(active_workspace_id(&unfocused, None), Some(5));
    assert_eq!(active_workspace_id(&Vec::new(), None), None);
}

#[test]
fn windows_hide_the_background() {
    let ms = vec![monitor(0, "DP-1", true, 3)];
    let covered = vec![client(true, false, 3)];
    let elsewhere = vec![client(true, false, 4), client(true, true, 3), client(false, false, 3)];
    assert!(has_window_on_workspace(&covered, 3));
    assert!(!has_window_on_workspace(&elsewhere, 3));
    assert_eq!(query_should_render(Some(&ms), Some(&covered), None), Some(false));
    assert_eq!(query_should_render(Some(&ms), Some(&elsewhere), None), Some(true));
    assert_eq!(query_should_render(None, Some(&covered), None), None);
    assert_eq!(query_should_render(Some(&ms), None, None), None);
}

#[test]
fn failed_readings_keep_last_value() {
    let mut v = VisibilityState::new(Some(1), None);
    assert!(v.should_render());
    v.refresh(Some(false));
    assert!(!v.should_render());
    v.refresh(None);
    assert!(!v.should_render());
    v.refresh(Some(true));
    assert!(v.should_render());
    assert!(!VisibilityState::new(None, Some(false)).should_render());
}
