//! Command-line requests and the work each one resolves to.
use vstd::prelude::*;
use crate::config::{Config, FitMode};

verus! {

/// The parsed command line.
#[derive(Debug)]
pub struct PapdieoArgs {
    /// Configuration file to read instead of the default one.
    pub config: Option<String>,
    /// The subcommand; none starts the supervisor in the background.
    pub command: Option<Command>,
}

/// The subcommands.
#[derive(Debug)]
pub enum Command {
    /// Show one given file.
    SetFile { path: String, monitor: Option<String>, fps: Option<u32>, fit: Option<FitMode>, detach: bool },
    /// Show a random file of a directory.
    Random {
        dir: Option<String>,
        monitor: Option<String>,
        fps: Option<u32>,
        fit: Option<FitMode>,
        detach: bool,
    },
    /// Show the file after the last one shown, in sorted order.
    Next {
        dir: Option<String>,
        monitor: Option<String>,
        fps: Option<u32>,
        fit: Option<FitMode>,
        detach: bool,
    },
    /// Keep showing random files, one per interval.
    Rotate {
        dir: Option<String>,
        monitor: Option<String>,
        interval: Option<u64>,
        fps: Option<u32>,
        fit: Option<FitMode>,
    },
    /// List the files of the configured directory.
    List,
    /// Run the supervisor, in the foreground or as a background service.
    Daemon { foreground: bool },
    /// Render one file on one output: the entry point of renderer children.
    RunInternal { path: String, monitor: Option<String>, fps: Option<u32>, fit: Option<FitMode> },
    /// The supervisor loop of a background service.
    DaemonInternal,
}

/// Where the file to show comes from.
#[derive(Debug)]
pub enum MediaSource {
    /// A given path.
    File(String),
    /// A random pick from a directory.
    Random(String),
    /// The next pick from a directory.
    Next(String),
}

/// The work a command line resolves to, with every default filled in.
#[derive(Debug)]
pub enum Invocation {
    StartDaemon,
    RunDaemon,
    Render { source: MediaSource, monitor: Option<String>, fps: u32, fit: FitMode, detach: bool },
    Rotate { dir: String, monitor: Option<String>, interval: u64, fps: u32, fit: FitMode },
    List { dir: String },
    RunInternal { path: String, monitor: Option<String>, fps: u32, fit: FitMode },
}

pub open spec fn or_else<T>(a: Option<T>, b: Option<T>) -> Option<T> {
    match a {
        Some(x) => Some(x),
        None => b,
    }
}

pub open spec fn unwrap_or<T>(a: Option<T>, d: T) -> T {
    match a {
        Some(x) => x,
        None => d,
    }
}

pub open spec fn cfg_fps(cfg: Config) -> u32 {
    unwrap_or(cfg.video_fps, crate::config::DEFAULT_FPS)
}

pub open spec fn cfg_fit(cfg: Config) -> FitMode {
    unwrap_or(cfg.fit_mode, FitMode::Cover)
}

/// What `command` asks for under `cfg`.
pub open spec fn planned(command: Option<Command>, cfg: Config) -> Invocation {
    match command {
        None => Invocation::StartDaemon,
        Some(Command::Daemon { foreground }) => if foreground {
            Invocation::RunDaemon
        } else {
            Invocation::StartDaemon
        },
        Some(Command::DaemonInternal) => Invocation::RunDaemon,
        Some(Command::SetFile { path, monitor, fps, fit, detach }) => Invocation::Render {
            source: MediaSource::File(path),
            monitor: or_else(monitor, cfg.monitor),
            fps: unwrap_or(fps, cfg_fps(cfg)),
            fit: unwrap_or(fit, cfg_fit(cfg)),
            detach,
        },
        Some(Command::Random { dir, monitor, fps, fit, detach }) => Invocation::Render {
            source: MediaSource::Random(unwrap_or(dir, cfg.wallpaper_dir)),
            monitor: or_else(monitor, cfg.monitor),
            fps: unwrap_or(fps, cfg_fps(cfg)),
            fit: unwrap_or(fit, cfg_fit(cfg)),
            detach,
        },
        Some(Command::Next { dir, monitor, fps, fit, detach }) => Invocation::Render {
            source: MediaSource::Next(unwrap_or(dir, cfg.wallpaper_dir)),
            monitor: or_else(monitor, cfg.monitor),
            fps: unwrap_or(fps, cfg_fps(cfg)),
            fit: unwrap_or(fit, cfg_fit(cfg)),
            detach,
        },
        Some(Command::Rotate { dir, monitor, interval, fps, fit }) => Invocation::Rotate {
            dir: unwrap_or(dir, cfg.wallpaper_dir),
            monitor: or_else(monitor, cfg.monitor),
            interval: unwrap_or(
                interval,
                unwrap_or(cfg.rotation_seconds, crate::config::DEFAULT_ROTATION_SECONDS),
            ),
            fps: unwrap_or(fps, cfg_fps(cfg)),
            fit: unwrap_or(fit, cfg_fit(cfg)),
        },
        Some(Command::List) => Invocation::List { dir: cfg.wallpaper_dir },
        Some(Command::RunInternal { path, monitor, fps, fit }) => Invocation::RunInternal {
            path,
            monitor,
            fps: unwrap_or(fps, cfg_fps(cfg)),
            fit: unwrap_or(fit, cfg_fit(cfg)),
        },
    }
}

fn copy_text(s: &String) -> (r: String)
    ensures
        r == *s,
{
    s.clone()
}

fn monitor_or_configured(monitor: Option<String>, cfg: &Config) -> (r: Option<String>)
    ensures
        r == or_else(monitor, cfg.monitor),
{
    match monitor {
        Some(m) => Some(m),
        None => match &cfg.monitor {
            Some(m) => Some(copy_text(m)),
            None => None,
        },
    }
}

fn dir_or_configured(dir: Option<String>, cfg: &Config) -> (r: String)
    ensures
        r == unwrap_or(dir, cfg.wallpaper_dir),
{
    match dir {
        Some(d) => d,
        None => copy_text(&cfg.wallpaper_dir),
    }
}

fn fps_or_configured(fps: Option<u32>, cfg: &Config) -> (r: u32)
    ensures
        r == unwrap_or(fps, cfg_fps(*cfg)),
{
    match fps {
        Some(f) => f,
        None => cfg.fps(),
    }
}

fn fit_or_configured(fit: Option<FitMode>, cfg: &Config) -> (r: FitMode)
    ensures
        r == unwrap_or(fit, cfg_fit(*cfg)),
{
    match fit {
        Some(f) => f,
        None => cfg.default_fit(),
    }
}

/// Resolves the command line against the configuration: what to run, with which settings.
pub fn plan(args: PapdieoArgs, cfg: &Config) -> (r: Invocation)
    ensures
        r == planned(args.command, *cfg),
{
    match args.command {
        None => Invocation::StartDaemon,
        Some(Command::Daemon { foreground }) => if foreground {
            Invocation::RunDaemon
        } else {
            Invocation::StartDaemon
        },
        Some(Command::DaemonInternal) => Invocation::RunDaemon,
        Some(Command::SetFile { path, monitor, fps, fit, detach }) => Invocation::Render {
            source: MediaSource::File(path),
            monitor: monitor_or_configured(monitor, cfg),
            fps: fps_or_configured(fps, cfg),
            fit: fit_or_configured(fit, cfg),
            detach,
        },
        Some(Command::Random { dir, monitor, fps, fit, detach }) => Invocation::Render {
            source: MediaSource::Random(dir_or_configured(dir, cfg)),
            monitor: monitor_or_configured(monitor, cfg),
            fps: fps_or_configured(fps, cfg),
            fit: fit_or_configured(fit, cfg),
            detach,
        },
        Some(Command::Next { dir, monitor, fps, fit, detach }) => Invocation::Render {
            source: MediaSource::Next(dir_or_configured(dir, cfg)),
            monitor: monitor_or_configured(monitor, cfg),
            fps: fps_or_configured(fps, cfg),
            fit: fit_or_configured(fit, cfg),
            detach,
        },
        Some(Command::Rotate { dir, monitor, interval, fps, fit }) => Invocation::Rotate {
            dir: dir_or_configured(dir, cfg),
            monitor: monitor_or_configured(monitor, cfg),
            interval: match interval {
                Some(i) => i,
                None => cfg.rotation_interval(),
            },
            fps: fps_or_configured(fps, cfg),
            fit: fit_or_configured(fit, cfg),
        },
        Some(Command::List) => Invocation::List { dir: copy_text(&cfg.wallpaper_dir) },
        Some(Command::RunInternal { path, monitor, fps, fit }) => Invocation::RunInternal {
            path,
            monitor,
            fps: fps_or_configured(fps, cfg),
            fit: fit_or_configured(fit, cfg),
        },
    }
}

} // verus!
