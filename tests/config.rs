use papdieo::config::{
    default_config_path, default_wallpaper_dir, fit_mode_for_monitor, join_path,
    media_dir_for_monitor, resolve_config_watch_path, Config, FitMode,
};

#[test]
fn defaults() {
    let cfg = Config::with_wallpaper_dir("/home/u/Pictures/Wallpapers".to_string());
    assert_eq!(cfg.fps(), 60);
    assert_eq!(cfg.rotation_interval(), 300);
    assert_eq!(cfg.daemon_interval(), 300);
    assert_eq!(cfg.default_fit(), FitMode::Cover);
}

#[test]
fn daemon_interval_falls_back_and_is_at_least_one() {
    let mut cfg = Config::with_wallpaper_dir(".".to_string());
    cfg.daemon_interval_seconds = None;
    cfg.rotation_seconds = Some(42);
    assert_eq!(cfg.daemon_interval(), 42);
    cfg.daemon_interval_seconds = Some(0);
    assert_eq!(cfg.daemon_interval(), 1);
    cfg.daemon_interval_seconds = None;
    cfg.rotation_seconds = None;
    assert_eq!(cfg.daemon_interval(), 300);
}

#[test]
fn per_monitor_overrides() {
    let mut cfg = Config::with_wallpaper_dir("/walls".to_string());
    cfg.monitor_wallpaper_dirs = Some(vec![("DP-1".to_string(), "/walls/dp1".to_string())]);
    cfg.monitor_fit_modes = Some(vec![("HDMI-A-1".to_string(), FitMode::Contain)]);
    cfg.fit_mode = Some(FitMode::Stretch);
    assert_eq!(media_dir_for_monitor(&cfg, "DP-1"), "/walls/dp1");
    assert_eq!(media_dir_for_monitor(&cfg, "HDMI-A-1"), "/walls");
    assert_eq!(fit_mode_for_monitor(&cfg, "HDMI-A-1"), FitMode::Contain);
    assert_eq!(fit_mode_for_monitor(&cfg, "DP-1"), FitMode::Stretch);
    cfg.fit_mode = None;
    assert_eq!(fit_mode_for_monitor(&cfg, "DP-1"), FitMode::Cover);
}

#[test]
fn fit_mode_names() {
    assert_eq!(FitMode::Stretch.name(), "stretch");
    assert_eq!(FitMode::Fill.name(), "fill");
    assert_eq!(FitMode::Cover.name(), "cover");
    assert_eq!(FitMode::Fit.name(), "fit");
    assert_eq!(FitMode::Contain.name(), "contain");
    assert!(FitMode::Fit.letterboxes());
    assert!(!FitMode::Fill.letterboxes());
}

#[test]
fn path_joining() {
    assert_eq!(join_path("/home/u", "x"), "/home/u/x");
    assert_eq!(join_path("/home/u/", "x"), "/home/u/x");
    assert_eq!(join_path("", "x"), "x");
    assert_eq!(default_wallpaper_dir(Some("/home/u")), "/home/u/Pictures/Wallpapers");
    assert_eq!(default_wallpaper_dir(None), "./Pictures/Wallpapers");
}

#[test]
fn config_locations() {
    assert_eq!(
        default_config_path(Some("/xdg"), Some("/home/u")).as_deref(),
        Some("/xdg/papdieo/config.toml")
    );
    assert_eq!(
        default_config_path(None, Some("/home/u")).as_deref(),
        Some("/home/u/.config/papdieo/config.toml")
    );
    assert_eq!(default_config_path(None, None), None);
    assert_eq!(
        resolve_config_watch_path(Some("/etc/p.toml"), Some("/xdg"), None).as_deref(),
        Some("/etc/p.toml")
    );
    assert_eq!(
        resolve_config_watch_path(None, Some("/xdg"), None).as_deref(),
        Some("/xdg/papdieo/config.toml")
    );
}
