//! Configuration values and the per-monitor choices drawn from them.
use vstd::prelude::*;

verus! {

/// Frames per second when nothing else is configured.
pub const DEFAULT_FPS: u32 = 60;

/// Seconds between rotations when nothing else is configured.
pub const DEFAULT_ROTATION_SECONDS: u64 = 300;

/// How an image is reconciled with the output's aspect ratio.
#[derive(Clone, Copy, Debug, PartialEq, Eq, Structural)]
pub enum FitMode {
    /// Resize to the output exactly, ignoring the aspect ratio.
    Stretch,
    /// Same as `Cover`.
    Fill,
    /// Keep the aspect ratio and cover the whole output, cropping the overflow.
    Cover,
    /// Same as `Contain`.
    Fit,
    /// Keep the aspect ratio and fit inside the output, with black borders.
    Contain,
}

/// The name of a fit mode on the command line.
pub open spec fn fit_mode_name(m: FitMode) -> Seq<char> {
    match m {
        FitMode::Stretch => seq!['s', 't', 'r', 'e', 't', 'c', 'h'],
        FitMode::Fill => seq!['f', 'i', 'l', 'l'],
        FitMode::Cover => seq!['c', 'o', 'v', 'e', 'r'],
        FitMode::Fit => seq!['f', 'i', 't'],
        FitMode::Contain => seq!['c', 'o', 'n', 't', 'a', 'i', 'n'],
    }
}

pub open spec fn is_contain(m: FitMode) -> bool {
    m == FitMode::Fit || m == FitMode::Contain
}

pub open spec fn is_cover(m: FitMode) -> bool {
    m == FitMode::Fill || m == FitMode::Cover
}

impl FitMode {
    /// The command-line name of this mode.
    pub fn name(self) -> (r: &'static str)
        ensures
            r@ == fit_mode_name(self),
    {
        match self {
            FitMode::Stretch => {
                proof {
                    reveal_strlit("stretch");
                }
                "stretch"
            },
            FitMode::Fill => {
                proof {
                    reveal_strlit("fill");
                }
                "fill"
            },
            FitMode::Cover => {
                proof {
                    reveal_strlit("cover");
                }
                "cover"
            },
            FitMode::Fit => {
                proof {
                    reveal_strlit("fit");
                }
                "fit"
            },
            FitMode::Contain => {
                proof {
                    reveal_strlit("contain");
                }
                "contain"
            },
        }
    }

    /// Whether this mode letterboxes inside the output.
    pub fn letterboxes(self) -> (r: bool)
        ensures
            r == is_contain(self),
    {
        match self {
            FitMode::Fit | FitMode::Contain => true,
            _ => false,
        }
    }
}

/// Settings read from the configuration file.
#[derive(Clone, Debug)]
pub struct Config {
    pub wallpaper_dir: String,
    /// Media directory per monitor name; for a name listed twice the first entry counts.
    pub monitor_wallpaper_dirs: Option<Vec<(String, String)>>,
    /// Fit mode per monitor name; for a name listed twice the first entry counts.
    pub monitor_fit_modes: Option<Vec<(String, FitMode)>>,
    pub monitor: Option<String>,
    pub monitors: Option<Vec<String>>,
    pub video_fps: Option<u32>,
    pub rotation_seconds: Option<u64>,
    pub daemon_interval_seconds: Option<u64>,
    pub fit_mode: Option<FitMode>,
}

/// The value of the first entry whose key is `key`.
pub open spec fn lookup<V>(entries: Seq<(String, V)>, key: Seq<char>) -> Option<V>
    decreases entries.len(),
{
    if entries.len() == 0 {
        None
    } else if entries[0].0@ == key {
        Some(entries[0].1)
    } else {
        lookup(entries.drop_first(), key)
    }
}

/// Finds the index of the first entry whose key is `key`.
fn find_key<V>(entries: &Vec<(String, V)>, key: &str) -> (r: Option<usize>)
    ensures
        match r {
            Some(i) => i < entries@.len() && lookup(entries@, key@) == Some(entries@[i as int].1),
            None => lookup(entries@, key@) is None,
        },
{
    let mut i: usize = 0;
    proof {
        assert(entries@.subrange(0, entries@.len() as int) == entries@);
    }
    while i < entries.len()
        invariant
            0 <= i <= entries.len(),
            lookup(entries@, key@) == lookup(entries@.subrange(i as int, entries@.len() as int), key@),
        decreases entries.len() - i,
    {
        let ghost rest = entries@.subrange(i as int, entries@.len() as int);
        proof {
            assert(rest.drop_first() == entries@.subrange(i + 1, entries@.len() as int));
            assert(rest[0] == entries@[i as int]);
        }
        if crate::text::compare_text(entries[i].0.as_str(), key) == 0 {
            return Some(i);
        }
        i = i + 1;
    }
    proof {
        assert(entries@.subrange(i as int, entries@.len() as int).len() == 0);
    }
    None
}

/// The media directory configured for `monitor`.
pub open spec fn media_dir_spec(cfg: Config, monitor: Seq<char>) -> Seq<char> {
    match cfg.monitor_wallpaper_dirs {
        Some(m) => match lookup(m@, monitor) {
            Some(d) => d@,
            None => cfg.wallpaper_dir@,
        },
        None => cfg.wallpaper_dir@,
    }
}

/// The fit mode configured for `monitor`.
pub open spec fn fit_mode_spec(cfg: Config, monitor: Seq<char>) -> FitMode {
    let per_monitor = match cfg.monitor_fit_modes {
        Some(m) => lookup(m@, monitor),
        None => None,
    };
    match per_monitor {
        Some(f) => f,
        None => match cfg.fit_mode {
            Some(f) => f,
            None => FitMode::Cover,
        },
    }
}

/// The media directory for `monitor`: its own entry, else the default directory.
pub fn media_dir_for_monitor<'a>(cfg: &'a Config, monitor: &str) -> (r: &'a String)
    ensures
        r@ == media_dir_spec(*cfg, monitor@),
{
    if let Some(map) = &cfg.monitor_wallpaper_dirs {
        if let Some(i) = find_key(map, monitor) {
            return &map[i].1;
        }
    }
    &cfg.wallpaper_dir
}

/// The fit mode for `monitor`: its own entry, else the configured default, else cover.
pub fn fit_mode_for_monitor(cfg: &Config, monitor: &str) -> (r: FitMode)
    ensures
        r == fit_mode_spec(*cfg, monitor@),
{
    if let Some(map) = &cfg.monitor_fit_modes {
        if let Some(i) = find_key(map, monitor) {
            return map[i].1;
        }
    }
    match cfg.fit_mode {
        Some(f) => f,
        None => FitMode::Cover,
    }
}

impl Config {
    /// The configuration used when no file exists, with `wallpaper_dir` as media directory.
    pub fn with_wallpaper_dir(wallpaper_dir: String) -> (r: Config)
        ensures
            r.wallpaper_dir == wallpaper_dir,
            r.monitor_wallpaper_dirs is None,
            r.monitor_fit_modes is None,
            r.monitor is None,
            r.monitors is None,
            r.video_fps == Some(DEFAULT_FPS),
            r.rotation_seconds == Some(DEFAULT_ROTATION_SECONDS),
            r.daemon_interval_seconds == Some(DEFAULT_ROTATION_SECONDS),
            r.fit_mode == Some(FitMode::Cover),
    {
        Config {
            wallpaper_dir,
            monitor_wallpaper_dirs: None,
            monitor_fit_modes: None,
            monitor: None,
            monitors: None,
            video_fps: Some(DEFAULT_FPS),
            rotation_seconds: Some(DEFAULT_ROTATION_SECONDS),
            daemon_interval_seconds: Some(DEFAULT_ROTATION_SECONDS),
            fit_mode: Some(FitMode::Cover),
        }
    }

    /// Target frames per second.
    pub fn fps(&self) -> (r: u32)
        ensures
            r == match self.video_fps {
                Some(f) => f,
                None => DEFAULT_FPS,
            },
    {
        match self.video_fps {
            Some(f) => f,
            None => DEFAULT_FPS,
        }
    }

    /// The default fit mode.
    pub fn default_fit(&self) -> (r: FitMode)
        ensures
            r == match self.fit_mode {
                Some(f) => f,
                None => FitMode::Cover,
            },
    {
        match self.fit_mode {
            Some(f) => f,
            None => FitMode::Cover,
        }
    }

    /// Seconds between rotations of the `rotate` command.
    pub fn rotation_interval(&self) -> (r: u64)
        ensures
            r == match self.rotation_seconds {
                Some(s) => s,
                None => DEFAULT_ROTATION_SECONDS,
            },
    {
        match self.rotation_seconds {
            Some(s) => s,
            None => DEFAULT_ROTATION_SECONDS,
        }
    }

    /// Seconds between supervisor rounds: its own setting, else the rotation period, at least one.
    pub fn daemon_interval(&self) -> (r: u64)
        ensures
            r == max_u64(
                match self.daemon_interval_seconds {
                    Some(s) => s,
                    None => match self.rotation_seconds {
                        Some(s) => s,
                        None => DEFAULT_ROTATION_SECONDS,
                    },
                },
                1,
            ),
    {
        let s = match self.daemon_interval_seconds {
            Some(s) => s,
            None => match self.rotation_seconds {
                Some(s) => s,
                None => DEFAULT_ROTATION_SECONDS,
            },
        };
        if s < 1 {
            1
        } else {
            s
        }
    }
}

pub open spec fn max_u64(a: u64, b: u64) -> u64 {
    if a >= b {
        a
    } else {
        b
    }
}

/// `base` joined with the relative segment `name`, with one separator between them.
pub open spec fn joined(base: Seq<char>, name: Seq<char>) -> Seq<char> {
    if base.len() == 0 || base.last() == '/' {
        base + name
    } else {
        base + seq!['/'] + name
    }
}

/// Appends the relative segment `name` to the path `base`.
pub fn join_path(base: &str, name: &str) -> (r: String)
    ensures
        r@ == joined(base@, name@),
{
    let mut r = base.to_owned();
    let n = base.unicode_len();
    if n > 0 && base.get_char(n - 1) != '/' {
        proof {
            reveal_strlit("/");
        }
        r.append("/");
    }
    r.append(name);
    r
}

/// `$HOME/Pictures/Wallpapers`, with `.` for an unknown home.
pub open spec fn default_wallpaper_dir_spec(home: Option<Seq<char>>) -> Seq<char> {
    let base = match home {
        Some(h) => h,
        None => seq!['.'],
    };
    joined(
        joined(base, seq!['P', 'i', 'c', 't', 'u', 'r', 'e', 's']),
        seq!['W', 'a', 'l', 'l', 'p', 'a', 'p', 'e', 'r', 's'],
    )
}

pub open spec fn opt_view(s: Option<&str>) -> Option<Seq<char>> {
    match s {
        Some(t) => Some(t@),
        None => None,
    }
}

/// The default media directory under the home directory `home`.
pub fn default_wallpaper_dir(home: Option<&str>) -> (r: String)
    ensures
        r@ == default_wallpaper_dir_spec(opt_view(home)),
{
    proof {
        reveal_strlit(".");
        reveal_strlit("Pictures");
        reveal_strlit("Wallpapers");
    }
    let base = match home {
        Some(h) => h,
        None => ".",
    };
    let pictures = join_path(base, "Pictures");
    join_path(pictures.as_str(), "Wallpapers")
}

/// `papdieo/config.toml` under the configuration base: `$XDG_CONFIG_HOME`, else `$HOME/.config`.
pub open spec fn config_path_spec(xdg: Option<Seq<char>>, home: Option<Seq<char>>) -> Option<
    Seq<char>,
> {
    let base = match xdg {
        Some(x) => Some(x),
        None => match home {
            Some(h) => Some(joined(h, seq!['.', 'c', 'o', 'n', 'f', 'i', 'g'])),
            None => None,
        },
    };
    match base {
        Some(b) => Some(
            joined(
                joined(b, seq!['p', 'a', 'p', 'd', 'i', 'e', 'o']),
                seq!['c', 'o', 'n', 'f', 'i', 'g', '.', 't', 'o', 'm', 'l'],
            ),
        ),
        None => None,
    }
}

/// The default location of the configuration file, given `$XDG_CONFIG_HOME` and `$HOME`.
pub fn default_config_path(xdg: Option<&str>, home: Option<&str>) -> (r: Option<String>)
    ensures
        opt_string_view(r) == config_path_spec(opt_view(xdg), opt_view(home)),
{
    proof {
        reveal_strlit(".config");
        reveal_strlit("papdieo");
        reveal_strlit("config.toml");
    }
    let base = match xdg {
        Some(x) => x.to_owned(),
        None => match home {
            Some(h) => join_path(h, ".config"),
            None => {
                return None;
            },
        },
    };
    let dir = join_path(base.as_str(), "papdieo");
    Some(join_path(dir.as_str(), "config.toml"))
}

pub open spec fn opt_string_view(s: Option<String>) -> Option<Seq<char>> {
    match s {
        Some(t) => Some(t@),
        None => None,
    }
}

/// The configuration file to watch for changes: the explicit one, else the default location.
pub fn resolve_config_watch_path(explicit: Option<&str>, xdg: Option<&str>, home: Option<&str>) -> (r:
    Option<String>)
    ensures
        opt_string_view(r) == match explicit {
            Some(p) => Some(p@),
            None => config_path_spec(opt_view(xdg), opt_view(home)),
        },
{
    match explicit {
        Some(p) => Some(p.to_owned()),
        None => default_config_path(xdg, home),
    }
}

} // verus!
