use papdieo::config::{Config, FitMode};
use papdieo::media::pick_random_wallpaper;
use papdieo::text::contains_name;
use papdieo::supervisor::{
    configured_monitors, configured_or_detected_monitors, plan_round,
    renderer_args, sorted_unique_names, state_file_for, wait_chunk, ChildTable,
};

fn strings(items: &[&str]) -> Vec<String> {
    items.iter().map(|s| s.to_string()).collect()
}

#[test]
fn explicit_list_wins() {
    let mut c = Config::with_wallpaper_dir("/w".to_string());
    c.monitors = Some(strings(&[" DP-1 ", "", "HDMI-A-1"]));
    c.monitor_wallpaper_dirs = Some(vec![("X".to_string(), "/x".to_string())]);
    assert_eq!(configured_monitors(&c), Some(strings(&["DP-1", "HDMI-A-1"])));
}

#[test]
fn directory_keys_sorted_then_single() {
    let mut c = Config::with_wallpaper_dir("/w".to_string());
    c.monitors = Some(strings(&["  "]));
    c.monitor_wallpaper_dirs = Some(vec![
        ("HDMI-A-1".to_string(), "/h".to_string()),
        (" DP-1".to_string(), "/d".to_string()),
        ("DP-1".to_string(), "/d2".to_string()),
    ]);
    assert_eq!(configured_monitors(&c), Some(strings(&["DP-1", "HDMI-A-1"])));
    c.monitor_wallpaper_dirs = None;
    c.monitor = Some(" eDP-1 ".to_string());
    assert_eq!(configured_monitors(&c), Some(strings(&["eDP-1"])));
    c.monitor = Some("   ".to_string());
    assert_eq!(configured_monitors(&c), None);
}

#[test]
fn detected_monitors_when_unconfigured() {
    let c = Config::with_wallpaper_dir("/w".to_string());
    let detected = strings(&["DP-2", "DP-1", "DP-2"]);
    assert_eq!(configured_or_detected_monitors(&c, &detected), strings(&["DP-1", "DP-2"]));
    assert_eq!(sorted_unique_names(&detected), strings(&["DP-1", "DP-2"]));
}

#[test]
fn round_plan_uses_overrides() {
    let mut c = Config::with_wallpaper_dir("/w".to_string());
    c.monitor_wallpaper_dirs = Some(vec![("B".to_string(), "/b".to_string())]);
    c.monitor_fit_modes = Some(vec![("A".to_string(), FitMode::Stretch)]);
    let plan = plan_round(&c, &strings(&["A", "B"]));
    assert_eq!(plan.len(), 2);
    assert_eq!((plan[0].monitor.as_str(), plan[0].media_dir.as_str()), ("A", "/w"));
    assert_eq!(plan[0].fit, FitMode::Stretch);
    assert_eq!((plan[1].monitor.as_str(), plan[1].media_dir.as_str()), ("B", "/b"));
    assert_eq!(plan[1].fit, FitMode::Cover);
}

#[test]
fn renderer_arguments() {
    assert_eq!(
        renderer_args("/w/a.mp4", Some("DP-1"), 60, FitMode::Contain),
        strings(&["run-internal", "/w/a.mp4", "--monitor", "DP-1", "--fps", "60", "--fit", "contain"])
    );
    assert_eq!(
        renderer_args("/w/a.png", None, 5, FitMode::Fill),
        strings(&["run-internal", "/w/a.png", "--fps", "5", "--fit", "fill"])
    );
}

#[test]
fn wait_chunks() {
    assert_eq!(wait_chunk(300, 0), 1);
    assert_eq!(wait_chunk(300, 299), 1);
    assert_eq!(wait_chunk(300, 300), 0);
    assert_eq!(wait_chunk(1, 5), 0);
}

#[test]
fn child_table_keeps_one_per_name() {
    let mut t: ChildTable<u32> = ChildTable::new();
    assert_eq!(t.insert("A".to_string(), 1), None);
    assert_eq!(t.insert("B".to_string(), 2), None);
    assert_eq!(t.insert("A".to_string(), 3), Some(1));
    assert_eq!(t.len(), 2);
    assert_eq!(t.take("A"), Some(3));
    assert_eq!(t.take("A"), None);
    t.insert("C".to_string(), 4);
    let mut gone = t.prune(&strings(&["C"]));
    gone.sort();
    assert_eq!(gone, vec![2]);
    assert_eq!(t.len(), 1);
    assert!(contains_name(&strings(&["C", "D"]), "D"));
    assert!(!contains_name(&strings(&["C", "D"]), "E"));
}

#[test]
fn rotation_over_five_ticks() {
    let c = Config::with_wallpaper_dir("/w".to_string());
    let monitors = strings(&["A", "B"]);
    let files = strings(&["/w/1.png", "/w/2.png", "/w/3.mp4"]);
    let mut table: ChildTable<(String, u32)> = ChildTable::new();
    let mut last: Option<String> = None;
    let mut history: Vec<Vec<String>> = vec![Vec::new(), Vec::new()];
    let mut next_pid = 0u32;
    for _tick in 0..5 {
        for (i, launch) in plan_round(&c, &monitors).into_iter().enumerate() {
            let _old = table.take(&launch.monitor);
            let media = pick_random_wallpaper(&files, last.as_deref()).unwrap();
            last = Some(media.clone());
            history[i].push(media.clone());
            next_pid += 1;
            assert_eq!(table.insert(launch.monitor.clone(), (media, next_pid)), None);
        }
        let stale = table.prune(&monitors);
        assert!(stale.is_empty());
        assert_eq!(table.len(), 2);
    }
    for seq in &history {
        assert_eq!(seq.len(), 5);
    }
    // every pick differs from the one just before it, across monitors
    let mut all = Vec::new();
    for t in 0..5 {
        all.push(history[0][t].clone());
        all.push(history[1][t].clone());
    }
    for w in all.windows(2) {
        assert_ne!(w[0], w[1]);
    }
}

#[test]
fn state_files_per_monitor() {
    assert_eq!(state_file_for("/tmp/s", Some("DP-1")), "/tmp/s-DP-1");
    assert_eq!(state_file_for("/tmp/s", None), "/tmp/s");
}

#[test]
fn rotation_per_monitor_never_repeats() {
    let c = Config::with_wallpaper_dir("/w".to_string());
    let monitors = strings(&["A", "B"]);
    let files = strings(&["/w/1.png", "/w/2.png", "/w/3.mp4"]);
    let mut last: Vec<Option<String>> = vec![None, None];
    let mut table: ChildTable<u32> = ChildTable::new();
    for tick in 0..5u32 {
        for (i, launch) in plan_round(&c, &monitors).into_iter().enumerate() {
            let old = table.take(&launch.monitor);
            assert_eq!(old.is_some(), tick > 0);
            let media = pick_random_wallpaper(&files, last[i].as_deref()).unwrap();
            if let Some(prev) = &last[i] {
                assert_ne!(&media, prev);
            }
            last[i] = Some(media);
            assert_eq!(table.insert(launch.monitor, tick), None);
        }
        assert!(table.prune(&monitors).is_empty());
        assert_eq!(table.len(), 2);
    }
}
