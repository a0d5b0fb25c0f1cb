//! Whether the background is visible: decided from the compositor's monitor and client lists.
use vstd::prelude::*;

verus! {

/// What the compositor reports of one monitor.
#[derive(Clone, Debug)]
pub struct MonitorInfo {
    pub id: Option<i64>,
    pub name: Option<String>,
    pub focused: Option<bool>,
    pub active_workspace_id: Option<i64>,
}

/// What the compositor reports of one client window.
#[derive(Clone, Copy, Debug)]
pub struct ClientInfo {
    pub mapped: Option<bool>,
    pub hidden: Option<bool>,
    pub workspace_id: Option<i64>,
}

/// The id of the first monitor called `name`.
pub open spec fn id_by_name(monitors: Seq<MonitorInfo>, name: Seq<char>) -> Option<i64>
    decreases monitors.len(),
{
    if monitors.len() == 0 {
        None
    } else if monitors[0].name matches Some(n) && n@ == name {
        monitors[0].id
    } else {
        id_by_name(monitors.drop_first(), name)
    }
}

/// The index of the first monitor with id `id`.
pub open spec fn index_by_id(monitors: Seq<MonitorInfo>, id: i64) -> Option<int>
    decreases monitors.len(),
{
    if monitors.len() == 0 {
        None
    } else if monitors[0].id == Some(id) {
        Some(0)
    } else {
        match index_by_id(monitors.drop_first(), id) {
            Some(i) => Some(i + 1),
            None => None,
        }
    }
}

/// The index of the first focused monitor.
pub open spec fn index_focused(monitors: Seq<MonitorInfo>) -> Option<int>
    decreases monitors.len(),
{
    if monitors.len() == 0 {
        None
    } else if monitors[0].focused == Some(true) {
        Some(0)
    } else {
        match index_focused(monitors.drop_first()) {
            Some(i) => Some(i + 1),
            None => None,
        }
    }
}

/// The monitor whose workspace decides: the target one, else the focused one, else the first.
pub open spec fn deciding_monitor(monitors: Seq<MonitorInfo>, target: Option<i64>) -> Option<int> {
    match target {
        Some(id) => index_by_id(monitors, id),
        None => match index_focused(monitors) {
            Some(i) => Some(i),
            None => if monitors.len() > 0 {
                Some(0)
            } else {
                None
            },
        },
    }
}

/// The active workspace of the deciding monitor.
pub open spec fn active_workspace(monitors: Seq<MonitorInfo>, target: Option<i64>) -> Option<i64> {
    match deciding_monitor(monitors, target) {
        Some(i) => monitors[i].active_workspace_id,
        None => None,
    }
}

/// A client that is mapped, not hidden, and on workspace `ws`.
pub open spec fn covers(c: ClientInfo, ws: i64) -> bool {
    c.mapped == Some(true) && c.hidden != Some(true) && c.workspace_id == Some(ws)
}

/// The id of the monitor called `target_monitor_name`, among those that the compositor listed.
pub fn resolve_monitor_id(target_monitor_name: Option<&str>, monitors: Option<&Vec<MonitorInfo>>) -> (r:
    Option<i64>)
    ensures
        r == match (target_monitor_name, monitors) {
            (Some(n), Some(m)) => id_by_name(m@, n@),
            _ => None,
        },
{
    let wanted = match target_monitor_name {
        Some(n) => n,
        None => {
            return None;
        },
    };
    let list = match monitors {
        Some(m) => m,
        None => {
            return None;
        },
    };
    let mut i: usize = 0;
    proof {
        assert(list@.subrange(0, list@.len() as int) == list@);
    }
    while i < list.len()
        invariant
            monitors == Some(list),
            target_monitor_name == Some(wanted),
            0 <= i <= list@.len(),
            id_by_name(list@, wanted@) == id_by_name(
                list@.subrange(i as int, list@.len() as int),
                wanted@,
            ),
        decreases list@.len() - i,
    {
        let ghost rest = list@.subrange(i as int, list@.len() as int);
        proof {
            assert(rest.drop_first() == list@.subrange(i + 1, list@.len() as int));
            assert(rest[0] == list@[i as int]);
        }
        if let Some(n) = &list[i].name {
            if crate::text::compare_text(n.as_str(), wanted) == 0 {
                proof {
                    assert(rest[0].name == Some(*n));
                    assert(id_by_name(rest, wanted@) == rest[0].id);
                    assert(id_by_name(list@, wanted@) == list@[i as int].id);
                }
                return list[i].id;
            }
        }
        i = i + 1;
    }
    None
}

fn find_by_id(monitors: &Vec<MonitorInfo>, id: i64) -> (r: Option<usize>)
    ensures
        match r {
            Some(i) => index_by_id(monitors@, id) == Some(i as int) && i < monitors@.len(),
            None => index_by_id(monitors@, id) is None,
        },
{
    let mut i: usize = 0;
    proof {
        assert(monitors@.subrange(0, monitors@.len() as int) == monitors@);
    }
    while i < monitors.len()
        invariant
            0 <= i <= monitors@.len(),
            index_by_id(monitors@, id) == match index_by_id(
                monitors@.subrange(i as int, monitors@.len() as int),
                id,
            ) {
                Some(k) => Some(k + i),
                None => None,
            },
        decreases monitors@.len() - i,
    {
        let ghost rest = monitors@.subrange(i as int, monitors@.len() as int);
        proof {
            assert(rest.drop_first() == monitors@.subrange(i + 1, monitors@.len() as int));
            assert(rest[0] == monitors@[i as int]);
        }
        if monitors[i].id == Some(id) {
            return Some(i);
        }
        i = i + 1;
    }
    None
}

fn find_focused(monitors: &Vec<MonitorInfo>) -> (r: Option<usize>)
    ensures
        match r {
            Some(i) => index_focused(monitors@) == Some(i as int) && i < monitors@.len(),
            None => index_focused(monitors@) is None,
        },
{
    let mut i: usize = 0;
    proof {
        assert(monitors@.subrange(0, monitors@.len() as int) == monitors@);
    }
    while i < monitors.len()
        invariant
            0 <= i <= monitors@.len(),
            index_focused(monitors@) == match index_focused(
                monitors@.subrange(i as int, monitors@.len() as int),
            ) {
                Some(k) => Some(k + i),
                None => None,
            },
        decreases monitors@.len() - i,
    {
        let ghost rest = monitors@.subrange(i as int, monitors@.len() as int);
        proof {
            assert(rest.drop_first() == monitors@.subrange(i + 1, monitors@.len() as int));
            assert(rest[0] == monitors@[i as int]);
        }
        if monitors[i].focused == Some(true) {
            return Some(i);
        }
        i = i + 1;
    }
    None
}

/// The active workspace of the target monitor, or of the focused one when there is no target.
pub fn active_workspace_id(monitors: &Vec<MonitorInfo>, target_monitor_id: Option<i64>) -> (r:
    Option<i64>)
    ensures
        r == active_workspace(monitors@, target_monitor_id),
{
    let index = match target_monitor_id {
        Some(id) => find_by_id(monitors, id),
        None => match find_focused(monitors) {
            Some(i) => Some(i),
            None => if monitors.len() > 0 {
                Some(0)
            } else {
                None
            },
        },
    };
    match index {
        Some(i) => monitors[i].active_workspace_id,
        None => None,
    }
}

/// Whether some client covers workspace `ws`.
pub fn has_window_on_workspace(clients: &Vec<ClientInfo>, ws: i64) -> (r: bool)
    ensures
        r == exists|i: int| 0 <= i < clients@.len() && covers(#[trigger] clients@[i], ws),
{
    let mut i: usize = 0;
    while i < clients.len()
        invariant
            0 <= i <= clients@.len(),
            forall|j: int| 0 <= j < i ==> !covers(#[trigger] clients@[j], ws),
        decreases clients@.len() - i,
    {
        let c = clients[i];
        if c.mapped == Some(true) && c.hidden != Some(true) && c.workspace_id == Some(ws) {
            return true;
        }
        i = i + 1;
    }
    false
}

/// Whether frames are worth producing: `None` when a listing is missing or no workspace is
/// known; otherwise true exactly when no client covers the active workspace.
pub fn query_should_render(
    monitors: Option<&Vec<MonitorInfo>>,
    clients: Option<&Vec<ClientInfo>>,
    target_monitor_id: Option<i64>,
) -> (r: Option<bool>)
    ensures
        r == match monitors {
            Some(m) => match active_workspace(m@, target_monitor_id) {
                Some(ws) => match clients {
                    Some(c) => Some(
                        !exists|i: int| 0 <= i < c@.len() && covers(#[trigger] c@[i], ws),
                    ),
                    None => None,
                },
                None => None,
            },
            None => None,
        },
{
    let monitors = match monitors {
        Some(m) => m,
        None => {
            return None;
        },
    };
    let ws = match active_workspace_id(monitors, target_monitor_id) {
        Some(ws) => ws,
        None => {
            return None;
        },
    };
    match clients {
        Some(c) => Some(!has_window_on_workspace(c, ws)),
        None => None,
    }
}

/// The renderer's view of visibility: the last reading, kept while readings fail.
#[derive(Clone, Copy, Debug)]
pub struct VisibilityState {
    pub should_render: bool,
    pub target_monitor_id: Option<i64>,
}

impl VisibilityState {
    /// Starts from the first reading, or visible when there is none.
    pub fn new(target_monitor_id: Option<i64>, reading: Option<bool>) -> (r: VisibilityState)
        ensures
            r.target_monitor_id == target_monitor_id,
            r.should_render == match reading {
                Some(v) => v,
                None => true,
            },
    {
        VisibilityState {
            should_render: match reading {
                Some(v) => v,
                None => true,
            },
            target_monitor_id,
        }
    }

    /// Whether frames should be produced now.
    pub fn should_render(&self) -> (r: bool)
        ensures
            r == self.should_render,
    {
        self.should_render
    }

    /// Takes a new reading; a failed one keeps the previous value.
    pub fn refresh(&mut self, reading: Option<bool>)
        ensures
            final(self).target_monitor_id == old(self).target_monitor_id,
            final(self).should_render == match reading {
                Some(v) => v,
                None => old(self).should_render,
            },
    {
        if let Some(v) = reading {
            self.should_render = v;
        }
    }
}

} // verus!
