use papdieo::cli::{plan, Command, Invocation, MediaSource, PapdieoArgs};
use papdieo::config::{Config, FitMode};

fn cfg() -> Config {
    let mut c = Config::with_wallpaper_dir("/walls".to_string());
    c.monitor = Some("DP-1".to_string());
    c.video_fps = Some(24);
    c.fit_mode = Some(FitMode::Contain);
    c.rotation_seconds = Some(90);
    c
}

fn args(command: Option<Command>) -> PapdieoArgs {
    PapdieoArgs { config: None, command }
}

#[test]
fn no_command_starts_daemon() {
    assert!(matches!(plan(args(None), &cfg()), Invocation::StartDaemon));
    assert!(matches!(
        plan(args(Some(Command::Daemon { foreground: true })), &cfg()),
        Invocation::RunDaemon
    ));
    assert!(matches!(
        plan(args(Some(Command::Daemon { foreground: false })), &cfg()),
        Invocation::StartDaemon
    ));
    assert!(matches!(plan(args(Some(Command::DaemonInternal)), &cfg()), Invocation::RunDaemon));
}

#[test]
fn set_fills_defaults_from_config() {
    let cmd = Command::SetFile {
        path: "/walls/a.png".to_string(),
        monitor: None,
        fps: None,
        fit: None,
        detach: true,
    };
    match plan(args(Some(cmd)), &cfg()) {
        Invocation::Render { source: MediaSource::File(p), monitor, fps, fit, detach } => {
            assert_eq!(p, "/walls/a.png");
            assert_eq!(monitor.as_deref(), Some("DP-1"));
            assert_eq!(fps, 24);
            assert_eq!(fit, FitMode::Contain);
            assert!(detach);
        }
        other => panic!("unexpected {:?}", other),
    }
}

#[test]
fn explicit_flags_win() {
    let cmd = Command::Random {
        dir: Some("/other".to_string()),
        monitor: Some("HDMI-A-1".to_string()),
        fps: Some(30),
        fit: Some(FitMode::Stretch),
        detach: false,
    };
    match plan(args(Some(cmd)), &cfg()) {
        Invocation::Render { source: MediaSource::Random(d), monitor, fps, fit, detach } => {
            assert_eq!(d, "/other");
            assert_eq!(monitor.as_deref(), Some("HDMI-A-1"));
            assert_eq!(fps, 30);
            assert_eq!(fit, FitMode::Stretch);
            assert!(!detach);
        }
        other => panic!("unexpected {:?}", other),
    }
}

#[test]
fn next_rotate_list_and_internal() {
    let next = Command::Next { dir: None, monitor: None, fps: None, fit: None, detach: false };
    match plan(args(Some(next)), &cfg()) {
        Invocation::Render { source: MediaSource::Next(d), .. } => assert_eq!(d, "/walls"),
        other => panic!("unexpected {:?}", other),
    }
    let rotate = Command::Rotate { dir: None, monitor: None, interval: None, fps: None, fit: None };
    match plan(args(Some(rotate)), &cfg()) {
        Invocation::Rotate { dir, interval, fps, .. } => {
            assert_eq!(dir, "/walls");
            assert_eq!(interval, 90);
            assert_eq!(fps, 24);
        }
        other => panic!("unexpected {:?}", other),
    }
    match plan(args(Some(Command::List)), &cfg()) {
        Invocation::List { dir } => assert_eq!(dir, "/walls"),
        other => panic!("unexpected {:?}", other),
    }
    let internal =
        Command::RunInternal { path: "/v.mp4".to_string(), monitor: None, fps: None, fit: None };
    match plan(args(Some(internal)), &cfg()) {
        Invocation::RunInternal { path, monitor, fps, fit } => {
            assert_eq!(path, "/v.mp4");
            assert_eq!(monitor, None);
            assert_eq!(fps, 24);
            assert_eq!(fit, FitMode::Contain);
        }
        other => panic!("unexpected {:?}", other),
    }
}
