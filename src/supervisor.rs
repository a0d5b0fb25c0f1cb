//! The supervisor's decisions: which monitors to serve, what each renderer is told, and the
//! table of live renderer children.
use vstd::prelude::*;
use crate::config::{fit_mode_name, fit_mode_spec, media_dir_spec, Config, FitMode};
use crate::text::{
    compare_text, contains_name, insert_sorted_unique, strictly_ascending, trim_text, trimmed_of, views,
};
use crate::video::{decimal, decimal_string};

verus! {

broadcast use vstd::seq_lib::group_filter_ensures;

/// Seconds to wait before looking again when there is no monitor to serve.
pub const IDLE_SECONDS: u64 = 5;

/// The non-blank names of a list, trimmed, in order.
pub open spec fn cleaned(names: Seq<String>) -> Seq<Seq<char>> {
    names.map_values(|n: String| trimmed_of(n@)).filter(|t: Seq<char>| t.len() > 0)
}

/// The explicit monitor list of the configuration, cleaned.
pub open spec fn explicit_monitors(cfg: Config) -> Seq<Seq<char>> {
    match cfg.monitors {
        Some(m) => cleaned(m@),
        None => Seq::empty(),
    }
}

/// `t` is a non-blank, trimmed monitor name among the keys of the per-monitor directories.
pub open spec fn is_dir_key(cfg: Config, t: Seq<char>) -> bool {
    t.len() > 0 && match cfg.monitor_wallpaper_dirs {
        Some(m) => exists|i: int| 0 <= i < m@.len() && trimmed_of(#[trigger] m@[i].0@) == t,
        None => false,
    }
}

/// The single configured monitor, trimmed.
pub open spec fn single_monitor(cfg: Config) -> Seq<char> {
    match cfg.monitor {
        Some(m) => trimmed_of(m@),
        None => Seq::empty(),
    }
}

/// `v` is the monitor set that the configuration names, in priority order: the explicit list,
/// then the sorted keys of the per-monitor directories, then the single monitor.
pub open spec fn is_configured_set(cfg: Config, v: Seq<Seq<char>>) -> bool {
    if explicit_monitors(cfg).len() > 0 {
        v == explicit_monitors(cfg)
    } else if exists|t: Seq<char>| is_dir_key(cfg, t) {
        strictly_ascending(v) && forall|t: Seq<char>| v.contains(t) <==> is_dir_key(cfg, t)
    } else {
        v == seq![single_monitor(cfg)]
    }
}

/// The configuration names no monitor at all.
pub open spec fn names_no_monitor(cfg: Config) -> bool {
    explicit_monitors(cfg).len() == 0 && !(exists|t: Seq<char>| is_dir_key(cfg, t))
        && single_monitor(cfg).len() == 0
}

fn clean_names(names: &Vec<String>) -> (r: Vec<String>)
    ensures
        views(r@) == cleaned(names@),
{
    let ghost trimmed = names@.map_values(|n: String| trimmed_of(n@));
    let ghost pred = |t: Seq<char>| t.len() > 0;
    let mut r: Vec<String> = Vec::new();
    let mut i: usize = 0;
    while i < names.len()
        invariant
            trimmed == names@.map_values(|n: String| trimmed_of(n@)),
            pred == (|t: Seq<char>| t.len() > 0),
            0 <= i <= names@.len(),
            views(r@) == trimmed.subrange(0, i as int).filter(pred),
        decreases names@.len() - i,
    {
        proof {
            reveal(Seq::filter);
            assert(trimmed.subrange(0, i + 1).drop_last() == trimmed.subrange(0, i as int));
            assert(trimmed.subrange(0, i + 1).last() == trimmed_of(names@[i as int]@));
        }
        let t = trim_text(names[i].as_str());
        if t.unicode_len() > 0 {
            let ghost before = views(r@);
            r.push(t.to_owned());
            proof {
                assert(views(r@) =~= before.push(t@));
            }
        }
        i = i + 1;
    }
    proof {
        assert(trimmed.subrange(0, names@.len() as int) == trimmed);
    }
    r
}

fn sorted_dir_keys(entries: &Vec<(String, String)>) -> (r: Vec<String>)
    ensures
        strictly_ascending(views(r@)),
        forall|t: Seq<char>|
            views(r@).contains(t) <==> (t.len() > 0 && exists|i: int|
                0 <= i < entries@.len() && trimmed_of(#[trigger] entries@[i].0@) == t),
{
    let mut r: Vec<String> = Vec::new();
    let mut i: usize = 0;
    while i < entries.len()
        invariant
            0 <= i <= entries@.len(),
            strictly_ascending(views(r@)),
            forall|t: Seq<char>|
                views(r@).contains(t) <==> (t.len() > 0 && exists|j: int|
                    0 <= j < i && trimmed_of(#[trigger] entries@[j].0@) == t),
        decreases entries@.len() - i,
    {
        let t = trim_text(entries[i].0.as_str());
        if t.unicode_len() > 0 {
            insert_sorted_unique(&mut r, t.to_owned());
        }
        proof {
            assert forall|u: Seq<char>|
                views(r@).contains(u) <==> (u.len() > 0 && exists|j: int|
                    0 <= j < i + 1 && trimmed_of(#[trigger] entries@[j].0@) == u) by {
                if u.len() > 0 && u == t@ {
                    assert(trimmed_of(entries@[i as int].0@) == u);
                }
                if u.len() > 0 && (exists|j: int|
                    0 <= j < i + 1 && trimmed_of(#[trigger] entries@[j].0@) == u) {
                    let j = choose|j: int| 0 <= j < i + 1 && trimmed_of(#[trigger] entries@[j].0@) == u;
                    if j < i {
                        assert(exists|k: int| 0 <= k < i && trimmed_of(#[trigger] entries@[k].0@) == u);
                    }
                }
            }
        }
        i = i + 1;
    }
    r
}

/// The monitor set that the configuration names, or `None` when it names none and the
/// compositor has to be asked.
pub fn configured_monitors(cfg: &Config) -> (r: Option<Vec<String>>)
    ensures
        match r {
            Some(v) => !names_no_monitor(*cfg) && is_configured_set(*cfg, views(v@)),
            None => names_no_monitor(*cfg),
        },
{
    if let Some(list) = &cfg.monitors {
        let cleaned_list = clean_names(list);
        if cleaned_list.len() > 0 {
            return Some(cleaned_list);
        }
    }
    if let Some(map) = &cfg.monitor_wallpaper_dirs {
        let keys = sorted_dir_keys(map);
        if keys.len() > 0 {
            proof {
                assert(views(keys@).contains(views(keys@)[0]));
                assert(is_dir_key(*cfg, views(keys@)[0]));
            }
            return Some(keys);
        }
        proof {
            assert forall|t: Seq<char>| !is_dir_key(*cfg, t) by {
                if is_dir_key(*cfg, t) {
                    assert(views(keys@).contains(t));
                }
            }
        }
    }
    if let Some(m) = &cfg.monitor {
        let t = trim_text(m.as_str());
        if t.unicode_len() > 0 {
            let v = vec![t.to_owned()];
            proof {
                assert(views(v@) =~= seq![single_monitor(*cfg)]);
            }
            return Some(v);
        }
    }
    None
}

/// Sorts names and drops repeats, as the compositor's monitor list is taken.
pub fn sorted_unique_names(names: &Vec<String>) -> (r: Vec<String>)
    ensures
        strictly_ascending(views(r@)),
        forall|t: Seq<char>| views(r@).contains(t) <==> views(names@).contains(t),
{
    let mut r: Vec<String> = Vec::new();
    let mut i: usize = 0;
    while i < names.len()
        invariant
            0 <= i <= names@.len(),
            strictly_ascending(views(r@)),
            forall|t: Seq<char>|
                views(r@).contains(t) <==> views(names@.subrange(0, i as int)).contains(t),
        decreases names@.len() - i,
    {
        let ghost prefix = views(names@.subrange(0, i as int));
        let ghost next = views(names@.subrange(0, i + 1));
        proof {
            assert(next == prefix.push(names@[i as int]@));
        }
        insert_sorted_unique(&mut r, names[i].clone());
        proof {
            assert forall|t: Seq<char>| views(r@).contains(t) <==> next.contains(t) by {
                if next.contains(t) && t != names@[i as int]@ {
                    let j = choose|j: int| 0 <= j < next.len() && next[j] == t;
                    assert(prefix[j] == t);
                }
                if prefix.contains(t) {
                    let j = choose|j: int| 0 <= j < prefix.len() && prefix[j] == t;
                    assert(next[j] == t);
                }
                assert(next[i as int] == names@[i as int]@);
            }
        }
        i = i + 1;
    }
    proof {
        assert(names@.subrange(0, names@.len() as int) == names@);
    }
    r
}

/// The monitors to serve: those that the configuration names, else those that the compositor
/// reported in `detected`, sorted and without repeats.
pub fn configured_or_detected_monitors(cfg: &Config, detected: &Vec<String>) -> (r: Vec<String>)
    ensures
        if names_no_monitor(*cfg) {
            strictly_ascending(views(r@)) && forall|t: Seq<char>|
                views(r@).contains(t) <==> views(detected@).contains(t)
        } else {
            is_configured_set(*cfg, views(r@))
        },
{
    match configured_monitors(cfg) {
        Some(v) => v,
        None => sorted_unique_names(detected),
    }
}

/// One renderer to start in a supervisor round.
#[derive(Debug)]
pub struct Launch {
    pub monitor: String,
    pub media_dir: String,
    pub fit: FitMode,
}

/// The renderers to start in one round: one per monitor, with its directory and fit mode.
pub fn plan_round(cfg: &Config, monitors: &Vec<String>) -> (r: Vec<Launch>)
    ensures
        r@.len() == monitors@.len(),
        forall|i: int|
            0 <= i < monitors@.len() ==> {
                let l = #[trigger] r@[i];
                &&& l.monitor@ == monitors@[i]@
                &&& l.media_dir@ == media_dir_spec(*cfg, monitors@[i]@)
                &&& l.fit == fit_mode_spec(*cfg, monitors@[i]@)
            },
{
    let mut r: Vec<Launch> = Vec::new();
    let mut i: usize = 0;
    while i < monitors.len()
        invariant
            0 <= i <= monitors@.len(),
            r@.len() == i,
            forall|k: int|
                0 <= k < i ==> {
                    let l = #[trigger] r@[k];
                    &&& l.monitor@ == monitors@[k]@
                    &&& l.media_dir@ == media_dir_spec(*cfg, monitors@[k]@)
                    &&& l.fit == fit_mode_spec(*cfg, monitors@[k]@)
                },
        decreases monitors@.len() - i,
    {
        let name = monitors[i].as_str();
        let dir = crate::config::media_dir_for_monitor(cfg, name);
        let fit = crate::config::fit_mode_for_monitor(cfg, name);
        r.push(Launch { monitor: monitors[i].clone(), media_dir: dir.clone(), fit });
        i = i + 1;
    }
    r
}

/// The arguments of a renderer child: the internal command, the file, the monitor if any, the
/// frame rate and the fit mode.
pub open spec fn renderer_argv(path: Seq<char>, monitor: Option<Seq<char>>, fps: u32, fit: FitMode) -> Seq<
    Seq<char>,
> {
    let head = seq!["run-internal"@, path];
    let mon = match monitor {
        Some(m) => seq!["--monitor"@, m],
        None => Seq::empty(),
    };
    head + mon + seq!["--fps"@, decimal(fps as nat), "--fit"@, fit_mode_name(fit)]
}

/// Builds the arguments of a renderer child.
pub fn renderer_args(path: &str, monitor: Option<&str>, fps: u32, fit: FitMode) -> (r: Vec<String>)
    ensures
        views(r@) == renderer_argv(path@, crate::config::opt_view(monitor), fps, fit),
{
    let mut r: Vec<String> = Vec::new();
    r.push("run-internal".to_owned());
    r.push(path.to_owned());
    if let Some(m) = monitor {
        r.push("--monitor".to_owned());
        r.push(m.to_owned());
    }
    r.push("--fps".to_owned());
    r.push(decimal_string(fps as u64));
    r.push("--fit".to_owned());
    r.push(fit.name().to_owned());
    proof {
        assert(views(r@) =~= renderer_argv(path@, crate::config::opt_view(monitor), fps, fit));
    }
    r
}

/// How long to sleep before looking at the configuration file again, in seconds: what is left
/// of the interval, at most one second.
pub fn wait_chunk(interval: u64, elapsed: u64) -> (r: u64)
    ensures
        r == if elapsed >= interval {
            0
        } else if interval - elapsed >= 1 {
            1
        } else {
            (interval - elapsed) as u64
        },
{
    if elapsed >= interval {
        0
    } else if interval - elapsed >= 1 {
        1
    } else {
        interval - elapsed
    }
}

/// The live renderer children, by monitor name: at most one per name.
pub struct ChildTable<T> {
    pub entries: Vec<(String, T)>,
}

impl<T> ChildTable<T> {
    /// The monitor names, in order.
    pub open spec fn names(&self) -> Seq<Seq<char>> {
        self.entries@.map_values(|e: (String, T)| e.0@)
    }

    /// No name occurs twice.
    pub open spec fn wf(&self) -> bool {
        forall|i: int, j: int|
            0 <= i < j < self.entries@.len() ==> #[trigger] self.entries@[i].0@
                != #[trigger] self.entries@[j].0@
    }

    /// `name` has a child.
    pub open spec fn holds(&self, name: Seq<char>) -> bool {
        exists|i: int| 0 <= i < self.entries@.len() && #[trigger] self.entries@[i].0@ == name
    }

    pub fn new() -> (r: ChildTable<T>)
        ensures
            r.wf(),
            r.entries@.len() == 0,
    {
        ChildTable { entries: Vec::new() }
    }

    /// The number of children.
    pub fn len(&self) -> (r: usize)
        ensures
            r == self.entries@.len(),
    {
        self.entries.len()
    }

    fn position(&self, name: &str) -> (r: Option<usize>)
        ensures
            match r {
                Some(i) => i < self.entries@.len() && self.entries@[i as int].0@ == name@,
                None => !self.holds(name@),
            },
    {
        let mut i: usize = 0;
        while i < self.entries.len()
            invariant
                0 <= i <= self.entries@.len(),
                forall|j: int| 0 <= j < i ==> #[trigger] self.entries@[j].0@ != name@,
            decreases self.entries@.len() - i,
        {
            if compare_text(self.entries[i].0.as_str(), name) == 0 {
                return Some(i);
            }
            i = i + 1;
        }
        None
    }

    /// Removes and returns the child of `name`, if there is one.
    pub fn take(&mut self, name: &str) -> (r: Option<T>)
        requires
            old(self).wf(),
        ensures
            final(self).wf(),
            r.is_some() == old(self).holds(name@),
            !final(self).holds(name@),
            forall|n: Seq<char>| n != name@ ==> (final(self).holds(n) == old(self).holds(n)),
            final(self).entries@.len() == old(self).entries@.len() - (if r.is_some() {
                1int
            } else {
                0int
            }),
    {
        match self.position(name) {
            Some(i) => {
                let ghost before = self.entries@;
                let (_, child) = self.entries.remove(i);
                proof {
                    let after = self.entries@;
                    assert(after == before.remove(i as int));
                    assert forall|n: Seq<char>| n != name@ implies (self.holds(n) == old(self).holds(n)) by {
                        if old(self).holds(n) {
                            let j = choose|j: int| 0 <= j < before.len() && #[trigger] before[j].0@ == n;
                            if j < i {
                                assert(after[j].0@ == n);
                            } else {
                                assert(j != i);
                                assert(after[j - 1].0@ == n);
                            }
                        }
                        if self.holds(n) {
                            let j = choose|j: int| 0 <= j < after.len() && #[trigger] after[j].0@ == n;
                            if j < i {
                                assert(before[j].0@ == n);
                            } else {
                                assert(before[j + 1].0@ == n);
                            }
                        }
                    }
                    if self.holds(name@) {
                        let j = choose|j: int| 0 <= j < after.len() && #[trigger] after[j].0@ == name@;
                        if j < i {
                            assert(before[j].0@ == name@);
                        } else {
                            assert(before[j + 1].0@ == name@);
                        }
                    }
                }
                Some(child)
            },
            None => None,
        }
    }

    /// Records `child` for `name`, handing back the child it replaces, if any.
    pub fn insert(&mut self, name: String, child: T) -> (r: Option<T>)
        requires
            old(self).wf(),
        ensures
            final(self).wf(),
            r.is_some() == old(self).holds(name@),
            exists|k: int|
                0 <= k < final(self).entries@.len() && #[trigger] final(self).entries@[k].0@ == name@
                    && final(self).entries@[k].1 == child,
            forall|n: Seq<char>| n != name@ ==> (final(self).holds(n) == old(self).holds(n)),
            final(self).holds(name@),
            final(self).entries@.len() == old(self).entries@.len() + (if r.is_some() {
                0int
            } else {
                1int
            }),
    {
        let previous = self.take(name.as_str());
        let ghost before = self.entries@;
        self.entries.push((name, child));
        proof {
            let after = self.entries@;
            assert(after[before.len() as int].0@ == name@);
            assert forall|n: Seq<char>| n != name@ implies (self.holds(n) == old(self).holds(n)) by {
                if self.holds(n) {
                    let j = choose|j: int| 0 <= j < after.len() && #[trigger] after[j].0@ == n;
                    assert(before[j].0@ == n);
                }
                if old(self).holds(n) {
                    let j = choose|j: int| 0 <= j < before.len() && #[trigger] before[j].0@ == n;
                    assert(after[j].0@ == n);
                }
            }
        }
        previous
    }

    /// Removes the children of every name outside `keep` and hands them back.
    pub fn prune(&mut self, keep: &Vec<String>) -> (r: Vec<T>)
        requires
            old(self).wf(),
        ensures
            final(self).wf(),
            forall|n: Seq<char>|
                final(self).holds(n) <==> (old(self).holds(n) && views(keep@).contains(n)),
            r@.len() + final(self).entries@.len() == old(self).entries@.len(),
    {
        let mut kept: Vec<(String, T)> = Vec::new();
        let mut dropped: Vec<T> = Vec::new();
        let ghost all = self.entries@;
        let mut rest: Vec<(String, T)> = Vec::new();
        std::mem::swap(&mut rest, &mut self.entries);
        let ghost mut done: int = 0;
        while rest.len() > 0
            invariant
                old(self).wf(),
                all == old(self).entries@,
                0 <= done <= all.len(),
                rest@ == all.subrange(done, all.len() as int),
                dropped@.len() + kept@.len() == done,
                forall|k: int|
                    0 <= k < kept@.len() ==> exists|j: int|
                        0 <= j < done && #[trigger] all[j].0@ == (#[trigger] kept@[k]).0@,
                forall|a: int, b: int|
                    0 <= a < b < kept@.len() ==> #[trigger] kept@[a].0@ != #[trigger] kept@[b].0@,
                forall|n: Seq<char>|
                    (exists|k: int| 0 <= k < kept@.len() && #[trigger] kept@[k].0@ == n) <==> (
                    exists|j: int| 0 <= j < done && #[trigger] all[j].0@ == n) && views(
                        keep@,
                    ).contains(n),
            decreases rest@.len(),
        {
            let entry = rest.remove(0);
            proof {
                assert(entry == all[done]);
                assert(rest@ == all.subrange(done + 1, all.len() as int));
            }
            if contains_name(keep, entry.0.as_str()) {
                let ghost before = kept@;
                kept.push(entry);
                proof {
                    assert forall|a: int, b: int|
                        0 <= a < b < kept@.len() implies #[trigger] kept@[a].0@
                        != #[trigger] kept@[b].0@ by {
                        if b == before.len() {
                            let j = choose|j: int| 0 <= j < done && #[trigger] all[j].0@ == (#[trigger] before[a]).0@;
                            assert(all[j].0@ != all[done].0@);
                        }
                    }
                    assert forall|k: int| 0 <= k < kept@.len() implies exists|j: int|
                        0 <= j < done + 1 && #[trigger] all[j].0@ == (#[trigger] kept@[k]).0@ by {
                        if k < before.len() {
                            assert(kept@[k] == before[k]);
                            let j = choose|j: int| 0 <= j < done && #[trigger] all[j].0@ == (#[trigger] before[k]).0@;
                            assert(all[j].0@ == kept@[k].0@);
                        } else {
                            assert(all[done].0@ == kept@[k].0@);
                        }
                    }
                    assert forall|n: Seq<char>|
                        (exists|k: int| 0 <= k < kept@.len() && #[trigger] kept@[k].0@ == n) <==> (
                        exists|j: int| 0 <= j < done + 1 && #[trigger] all[j].0@ == n) && views(
                            keep@,
                        ).contains(n) by {
                        if exists|k: int| 0 <= k < kept@.len() && #[trigger] kept@[k].0@ == n {
                            let k = choose|k: int| 0 <= k < kept@.len() && #[trigger] kept@[k].0@ == n;
                            if k < before.len() {
                                assert(before[k].0@ == n);
                            } else {
                                assert(all[done].0@ == n);
                            }
                        }
                        if (exists|j: int| 0 <= j < done + 1 && #[trigger] all[j].0@ == n) && views(
                            keep@,
                        ).contains(n) {
                            let j = choose|j: int| 0 <= j < done + 1 && #[trigger] all[j].0@ == n;
                            if j < done {
                                let k = choose|k: int| 0 <= k < before.len() && #[trigger] before[k].0@ == n;
                                assert(kept@[k].0@ == n);
                            } else {
                                assert(kept@[before.len() as int].0@ == n);
                            }
                        }
                    }
                }
            } else {
                dropped.push(entry.1);
                proof {
                    assert forall|n: Seq<char>|
                        (exists|k: int| 0 <= k < kept@.len() && #[trigger] kept@[k].0@ == n) <==> (
                        exists|j: int| 0 <= j < done + 1 && #[trigger] all[j].0@ == n) && views(
                            keep@,
                        ).contains(n) by {
                        if (exists|j: int| 0 <= j < done + 1 && #[trigger] all[j].0@ == n) && views(
                            keep@,
                        ).contains(n) {
                            let j = choose|j: int| 0 <= j < done + 1 && #[trigger] all[j].0@ == n;
                            if j == done {
                                assert(!views(keep@).contains(all[done].0@));
                            }
                            assert(exists|j: int| 0 <= j < done && #[trigger] all[j].0@ == n);
                        }
                    }
                    assert forall|k: int| 0 <= k < kept@.len() implies exists|j: int|
                        0 <= j < done + 1 && #[trigger] all[j].0@ == (#[trigger] kept@[k]).0@ by {
                        let j = choose|j: int| 0 <= j < done && #[trigger] all[j].0@ == (#[trigger] kept@[k]).0@;
                        assert(all[j].0@ == kept@[k].0@);
                    }
                }
            }
            proof {
                done = done + 1;
            }
        }
        self.entries = kept;
        proof {
            assert forall|n: Seq<char>|
                self.holds(n) <==> (old(self).holds(n) && views(keep@).contains(n)) by {
                assert(done == all.len());
                if self.holds(n) {
                    let k = choose|k: int| 0 <= k < self.entries@.len() && #[trigger] self.entries@[k].0@ == n;
                    assert(kept@[k].0@ == n);
                }
                if old(self).holds(n) && views(keep@).contains(n) {
                    let j = choose|j: int| 0 <= j < all.len() && #[trigger] all[j].0@ == n;
                    assert(exists|j: int| 0 <= j < done && #[trigger] all[j].0@ == n);
                    let k = choose|k: int| 0 <= k < kept@.len() && #[trigger] kept@[k].0@ == n;
                    assert(self.entries@[k].0@ == n);
                }
            }
        }
        dropped
    }
}

/// A supervisor round restarts a child for every monitor (each `insert` after a `take`, so at
/// most one per name) and then prunes every other name: afterwards exactly the monitors have a
/// child, one each.
pub proof fn round_serves_each_monitor<T>(
    launched: ChildTable<T>,
    pruned: ChildTable<T>,
    monitors: Seq<String>,
)
    requires
        launched.wf(),
        forall|i: int| 0 <= i < monitors.len() ==> launched.holds(#[trigger] monitors[i]@),
        pruned.wf(),
        forall|n: Seq<char>| pruned.holds(n) <==> (launched.holds(n) && views(monitors).contains(n)),
    ensures
        forall|n: Seq<char>| pruned.holds(n) <==> views(monitors).contains(n),
        forall|i: int, j: int|
            0 <= i < j < pruned.entries@.len() ==> #[trigger] pruned.entries@[i].0@
                != #[trigger] pruned.entries@[j].0@,
{
    assert forall|n: Seq<char>| pruned.holds(n) <==> views(monitors).contains(n) by {
        if views(monitors).contains(n) {
            let i = choose|i: int| 0 <= i < views(monitors).len() && views(monitors)[i] == n;
            assert(launched.holds(monitors[i]@));
        }
    }
}

/// Where the last pick is remembered: one file per monitor beside `base`, or `base` itself.
pub open spec fn state_file_spec(base: Seq<char>, monitor: Option<Seq<char>>) -> Seq<char> {
    match monitor {
        Some(m) => base + seq!['-'] + m,
        None => base,
    }
}

/// The file that remembers the last pick for `monitor`.
pub fn state_file_for(base: &str, monitor: Option<&str>) -> (r: String)
    ensures
        r@ == state_file_spec(base@, crate::config::opt_view(monitor)),
{
    let mut r = base.to_owned();
    if let Some(m) = monitor {
        proof {
            reveal_strlit("-");
        }
        r.append("-");
        r.append(m);
    }
    r
}

} // verus!
