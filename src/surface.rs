//! Renderer state around the compositor: outputs, their selection, and the surface geometry.
use vstd::prelude::*;
use crate::text::{
    contains_ignore_ascii_case, eq_ignore_ascii_case, folded, occurs_in, trim_text, trimmed_of,
};

verus! {

/// Width assumed before the compositor configures the surface.
pub const DEFAULT_WIDTH: u32 = 1920;

/// Height assumed before the compositor configures the surface.
pub const DEFAULT_HEIGHT: u32 = 1080;

/// Extra round trips allowed while output names and descriptions arrive.
pub const METADATA_ROUNDS: u32 = 6;

/// An output advertised by the compositor, with what it has told about itself so far.
#[derive(Debug)]
pub struct OutputBinding {
    pub global_name: u32,
    pub name: Option<String>,
    pub description: Option<String>,
}

/// Whether `o` is the output that `requested` names: by name, exactly or ignoring ASCII case,
/// or by description, ignoring ASCII case, in whole or in part.
pub open spec fn output_matches(o: OutputBinding, requested: Seq<char>) -> bool {
    let r = trimmed_of(requested);
    ||| (o.name matches Some(n) && (n@ == r || folded(n@) == folded(r)))
    ||| (o.description matches Some(d) && (folded(d@) == folded(r) || occurs_in(
        folded(r),
        folded(d@),
    )))
}

/// The three ways a requested monitor can name an output, in order of preference.
#[derive(Clone, Copy, Debug, PartialEq, Eq, Structural)]
pub enum MatchRule {
    /// The output's name equals the request.
    ExactName,
    /// The output's name equals the request when ASCII case is ignored.
    FoldedName,
    /// The output's description equals or contains the request when ASCII case is ignored.
    Description,
}

/// Whether `o` matches `requested` under `rule`.
pub open spec fn matches_by(o: OutputBinding, requested: Seq<char>, rule: MatchRule) -> bool {
    let r = trimmed_of(requested);
    match rule {
        MatchRule::ExactName => o.name matches Some(n) && n@ == r,
        MatchRule::FoldedName => o.name matches Some(n) && folded(n@) == folded(r),
        MatchRule::Description => o.description matches Some(d) && (folded(d@) == folded(r)
            || occurs_in(folded(r), folded(d@))),
    }
}

/// Some output matches `requested` under `rule`.
pub open spec fn any_by(outputs: Seq<OutputBinding>, requested: Seq<char>, rule: MatchRule) -> bool {
    exists|i: int| 0 <= i < outputs.len() && matches_by(#[trigger] outputs[i], requested, rule)
}

/// `i` is the first output that matches `requested` under `rule`.
pub open spec fn first_by(outputs: Seq<OutputBinding>, requested: Seq<char>, i: int, rule: MatchRule) -> bool {
    &&& 0 <= i < outputs.len()
    &&& matches_by(outputs[i], requested, rule)
    &&& forall|j: int| 0 <= j < i ==> !matches_by(#[trigger] outputs[j], requested, rule)
}

/// `i` is the output that `requested` selects: the first exact name match if there is one,
/// else the first name match ignoring ASCII case, else the first description match.
pub open spec fn preferred_output(outputs: Seq<OutputBinding>, requested: Seq<char>, i: int) -> bool {
    if any_by(outputs, requested, MatchRule::ExactName) {
        first_by(outputs, requested, i, MatchRule::ExactName)
    } else if any_by(outputs, requested, MatchRule::FoldedName) {
        first_by(outputs, requested, i, MatchRule::FoldedName)
    } else {
        first_by(outputs, requested, i, MatchRule::Description)
    }
}

/// Whether `output` matches `requested` under `rule`.
pub fn output_matches_by(output: &OutputBinding, requested: &str, rule: MatchRule) -> (r: bool)
    ensures
        r == matches_by(*output, requested@, rule),
{
    let requested = trim_text(requested);
    match rule {
        MatchRule::ExactName => match &output.name {
            Some(name) => crate::text::compare_text(name.as_str(), requested) == 0,
            None => false,
        },
        MatchRule::FoldedName => match &output.name {
            Some(name) => eq_ignore_ascii_case(name.as_str(), requested),
            None => false,
        },
        MatchRule::Description => match &output.description {
            Some(d) => eq_ignore_ascii_case(d.as_str(), requested) || contains_ignore_ascii_case(
                d.as_str(),
                requested,
            ),
            None => false,
        },
    }
}

/// Whether `output` is the one that `requested` names.
pub fn output_matches_monitor(output: &OutputBinding, requested: &str) -> (r: bool)
    ensures
        r == output_matches(*output, requested@),
{
    let requested = trim_text(requested);
    if let Some(name) = &output.name {
        if crate::text::compare_text(name.as_str(), requested) == 0 || eq_ignore_ascii_case(
            name.as_str(),
            requested,
        ) {
            return true;
        }
    }
    if let Some(description) = &output.description {
        if eq_ignore_ascii_case(description.as_str(), requested) || contains_ignore_ascii_case(
            description.as_str(),
            requested,
        ) {
            return true;
        }
    }
    false
}

/// How an output is listed when the requested one is missing.
pub open spec fn label(o: OutputBinding) -> Option<Seq<char>> {
    match o.name {
        Some(n) => Some(n@),
        None => match o.description {
            Some(d) => Some(
                d@ + seq![' ', '(', 'd', 'e', 's', 'c', 'r', 'i', 'p', 't', 'i', 'o', 'n', ')'],
            ),
            None => None,
        },
    }
}

/// The labels of the outputs that have one, in order.
pub open spec fn labels(outputs: Seq<OutputBinding>) -> Seq<Seq<char>>
    decreases outputs.len(),
{
    if outputs.len() == 0 {
        Seq::empty()
    } else {
        let rest = labels(outputs.drop_last());
        match label(outputs.last()) {
            Some(l) => rest.push(l),
            None => rest,
        }
    }
}

/// Why no output could be selected.
#[derive(Debug)]
pub enum SelectError {
    /// No output matches the requested monitor; the labels of the outputs that exist.
    MonitorNotFound { requested: String, available: Vec<String> },
    /// The compositor advertised no output.
    NoOutputs,
}

/// `i` is the first output that `requested` names.
pub open spec fn first_match(outputs: Seq<OutputBinding>, requested: Seq<char>, i: int) -> bool {
    &&& 0 <= i < outputs.len()
    &&& output_matches(outputs[i], requested)
    &&& forall|j: int| 0 <= j < i ==> !output_matches(#[trigger] outputs[j], requested)
}

/// Renderer state that the compositor's events update.
#[derive(Debug)]
pub struct AppState {
    pub path: String,
    pub requested_monitor: Option<String>,
    pub outputs: Vec<OutputBinding>,
    pub width: u32,
    pub height: u32,
    pub configured: bool,
    pub exit: bool,
}

impl AppState {
    /// At most one binding per global name, and a geometry of at least one pixel each way.
    pub open spec fn wf(&self) -> bool {
        &&& self.width >= 1
        &&& self.height >= 1
        &&& forall|i: int, j: int|
            0 <= i < j < self.outputs@.len() ==> #[trigger] self.outputs@[i].global_name
                != #[trigger] self.outputs@[j].global_name
    }

    /// Fresh state for rendering `path`; a blank requested monitor counts as none.
    pub fn new(path: String, requested_monitor: Option<String>) -> (r: AppState)
        ensures
            r.wf(),
            r.path == path,
            r.outputs@.len() == 0,
            r.width == DEFAULT_WIDTH,
            r.height == DEFAULT_HEIGHT,
            !r.configured,
            !r.exit,
            match requested_monitor {
                Some(m) => if trimmed_of(m@).len() > 0 {
                    r.requested_monitor matches Some(t) && t@ == trimmed_of(m@)
                } else {
                    r.requested_monitor is None
                },
                None => r.requested_monitor is None,
            },
    {
        let requested = match &requested_monitor {
            Some(m) => {
                let t = trim_text(m.as_str());
                if t.unicode_len() > 0 {
                    Some(t.to_owned())
                } else {
                    None
                }
            },
            None => None,
        };
        AppState {
            path,
            requested_monitor: requested,
            outputs: Vec::new(),
            width: DEFAULT_WIDTH,
            height: DEFAULT_HEIGHT,
            configured: false,
            exit: false,
        }
    }

    /// Whether the requested monitor, if any, has a matching output yet.
    pub fn has_resolved_requested_output(&self) -> (r: bool)
        ensures
            r == match self.requested_monitor {
                Some(m) => exists|i: int|
                    0 <= i < self.outputs@.len() && output_matches(
                        #[trigger] self.outputs@[i],
                        m@,
                    ),
                None => true,
            },
    {
        match &self.requested_monitor {
            None => true,
            Some(m) => match self.find_match(m.as_str()) {
                Some(_) => true,
                None => false,
            },
        }
    }

    fn find_match(&self, requested: &str) -> (r: Option<usize>)
        ensures
            match r {
                Some(i) => first_match(self.outputs@, requested@, i as int),
                None => forall|i: int|
                    0 <= i < self.outputs@.len() ==> !output_matches(
                        #[trigger] self.outputs@[i],
                        requested@,
                    ),
            },
    {
        let mut i: usize = 0;
        while i < self.outputs.len()
            invariant
                0 <= i <= self.outputs@.len(),
                forall|j: int|
                    0 <= j < i ==> !output_matches(#[trigger] self.outputs@[j], requested@),
            decreases self.outputs@.len() - i,
        {
            if output_matches_monitor(&self.outputs[i], requested) {
                return Some(i);
            }
            i = i + 1;
        }
        None
    }

    fn find_by(&self, requested: &str, rule: MatchRule) -> (r: Option<usize>)
        ensures
            match r {
                Some(i) => first_by(self.outputs@, requested@, i as int, rule),
                None => !any_by(self.outputs@, requested@, rule),
            },
    {
        let mut i: usize = 0;
        while i < self.outputs.len()
            invariant
                0 <= i <= self.outputs@.len(),
                forall|j: int|
                    0 <= j < i ==> !matches_by(#[trigger] self.outputs@[j], requested@, rule),
            decreases self.outputs@.len() - i,
        {
            if output_matches_by(&self.outputs[i], requested, rule) {
                return Some(i);
            }
            i = i + 1;
        }
        None
    }

    /// Whether every output has told its name or its description.
    pub fn all_outputs_have_metadata(&self) -> (r: bool)
        ensures
            r == forall|i: int|
                0 <= i < self.outputs@.len() ==> (#[trigger] self.outputs@[i]).name is Some
                    || self.outputs@[i].description is Some,
    {
        let mut i: usize = 0;
        while i < self.outputs.len()
            invariant
                0 <= i <= self.outputs@.len(),
                forall|j: int|
                    0 <= j < i ==> (#[trigger] self.outputs@[j]).name is Some
                        || self.outputs@[j].description is Some,
            decreases self.outputs@.len() - i,
        {
            if self.outputs[i].name.is_none() && self.outputs[i].description.is_none() {
                return false;
            }
            i = i + 1;
        }
        true
    }

    /// Whether to stop waiting for output metadata after `rounds` extra round trips.
    pub fn metadata_settled(&self, rounds: u32) -> (r: bool)
        ensures
            r == (rounds >= METADATA_ROUNDS || (match self.requested_monitor {
                Some(m) => exists|i: int|
                    0 <= i < self.outputs@.len() && output_matches(
                        #[trigger] self.outputs@[i],
                        m@,
                    ),
                None => true,
            }) || forall|i: int|
                0 <= i < self.outputs@.len() ==> (#[trigger] self.outputs@[i]).name is Some
                    || self.outputs@[i].description is Some),
    {
        rounds >= METADATA_ROUNDS || self.has_resolved_requested_output()
            || self.all_outputs_have_metadata()
    }

    /// The labels of the known outputs, for reporting a missing monitor.
    pub fn available_outputs(&self) -> (r: Vec<String>)
        ensures
            crate::text::views(r@) == labels(self.outputs@),
    {
        let mut r: Vec<String> = Vec::new();
        let mut i: usize = 0;
        while i < self.outputs.len()
            invariant
                0 <= i <= self.outputs@.len(),
                crate::text::views(r@) == labels(self.outputs@.subrange(0, i as int)),
            decreases self.outputs@.len() - i,
        {
            let ghost prefix = self.outputs@.subrange(0, i + 1);
            proof {
                assert(prefix.drop_last() == self.outputs@.subrange(0, i as int));
                assert(prefix.last() == self.outputs@[i as int]);
                reveal_strlit(" (description)");
            }
            let ghost before = crate::text::views(r@);
            let out = &self.outputs[i];
            match &out.name {
                Some(n) => {
                    r.push(n.clone());
                    proof {
                        assert(crate::text::views(r@) =~= before.push(n@));
                        assert(label(prefix.last()) == Some(n@));
                        assert(labels(prefix) == labels(prefix.drop_last()).push(n@));
                    }
                },
                None => match &out.description {
                    Some(d) => {
                        let mut s = d.clone();
                        s.append(" (description)");
                        r.push(s);
                        proof {
                            assert(crate::text::views(r@) =~= before.push(s@));
                            assert(" (description)"@ == seq![' ', '(', 'd', 'e', 's', 'c', 'r', 'i', 'p', 't', 'i', 'o', 'n', ')']);
                            assert(label(prefix.last()) == Some(s@));
                        }
                    },
                    None => {},
                },
            }
            proof {
                assert(crate::text::views(r@) == labels(prefix));
            }
            i = i + 1;
        }
        proof {
            assert(self.outputs@.subrange(0, self.outputs@.len() as int) == self.outputs@);
        }
        r
    }

    /// The output to draw on: for a requested monitor, the first exact name match, else the
    /// first name match ignoring ASCII case, else the first description match; with no request,
    /// the first output.
    pub fn select_output(&self) -> (r: Result<usize, SelectError>)
        ensures
            match self.requested_monitor {
                Some(m) => match r {
                    Ok(i) => preferred_output(self.outputs@, m@, i as int),
                    Err(SelectError::MonitorNotFound { requested, available }) => requested@
                        == m@ && crate::text::views(available@) == labels(self.outputs@)
                        && forall|i: int|
                        0 <= i < self.outputs@.len() ==> !output_matches(
                            #[trigger] self.outputs@[i],
                            m@,
                        ),
                    Err(SelectError::NoOutputs) => false,
                },
                None => match r {
                    Ok(i) => i == 0 && self.outputs@.len() > 0,
                    Err(e) => e is NoOutputs && self.outputs@.len() == 0,
                },
            },
    {
        match &self.requested_monitor {
            Some(m) => {
                if let Some(i) = self.find_by(m.as_str(), MatchRule::ExactName) {
                    return Ok(i);
                }
                if let Some(i) = self.find_by(m.as_str(), MatchRule::FoldedName) {
                    return Ok(i);
                }
                if let Some(i) = self.find_by(m.as_str(), MatchRule::Description) {
                    return Ok(i);
                }
                proof {
                    assert forall|i: int| 0 <= i < self.outputs@.len() implies !output_matches(
                        #[trigger] self.outputs@[i],
                        m@,
                    ) by {
                        assert(!matches_by(self.outputs@[i], m@, MatchRule::ExactName));
                        assert(!matches_by(self.outputs@[i], m@, MatchRule::FoldedName));
                        assert(!matches_by(self.outputs@[i], m@, MatchRule::Description));
                    }
                }
                Err(
                    SelectError::MonitorNotFound {
                        requested: m.clone(),
                        available: self.available_outputs(),
                    },
                )
            },
            None => if self.outputs.len() > 0 {
                Ok(0)
            } else {
                Err(SelectError::NoOutputs)
            },
        }
    }

    fn find_global(&self, global_name: u32) -> (r: Option<usize>)
        ensures
            match r {
                Some(i) => i < self.outputs@.len() && self.outputs@[i as int].global_name
                    == global_name,
                None => forall|i: int|
                    0 <= i < self.outputs@.len() ==> (#[trigger] self.outputs@[i]).global_name
                        != global_name,
            },
    {
        let mut i: usize = 0;
        while i < self.outputs.len()
            invariant
                0 <= i <= self.outputs@.len(),
                forall|j: int|
                    0 <= j < i ==> (#[trigger] self.outputs@[j]).global_name != global_name,
            decreases self.outputs@.len() - i,
        {
            if self.outputs[i].global_name == global_name {
                return Some(i);
            }
            i = i + 1;
        }
        None
    }

    /// Records an output that the compositor advertised, unless it is known already.
    pub fn add_output(&mut self, global_name: u32)
        requires
            old(self).wf(),
        ensures
            final(self).wf(),
            final(self).width == old(self).width,
            final(self).height == old(self).height,
            final(self).requested_monitor == old(self).requested_monitor,
            if exists|i: int|
                0 <= i < old(self).outputs@.len() && (#[trigger] old(self).outputs@[i]).global_name
                    == global_name {
                final(self).outputs@ == old(self).outputs@
            } else {
                final(self).outputs@ == old(self).outputs@.push(
                    OutputBinding { global_name, name: None, description: None },
                )
            },
    {
        if self.find_global(global_name).is_none() {
            self.outputs.push(OutputBinding { global_name, name: None, description: None });
        }
    }

    /// Records the name that the output with `global_name` announced.
    pub fn set_output_name(&mut self, global_name: u32, name: String)
        requires
            old(self).wf(),
        ensures
            final(self).wf(),
            final(self).width == old(self).width,
            final(self).height == old(self).height,
            final(self).requested_monitor == old(self).requested_monitor,
            final(self).outputs@.len() == old(self).outputs@.len(),
            forall|i: int|
                0 <= i < old(self).outputs@.len() ==> if (#[trigger] old(
                    self,
                ).outputs@[i]).global_name == global_name {
                    final(self).outputs@[i] == OutputBinding {
                        name: Some(name),
                        ..old(self).outputs@[i]
                    }
                } else {
                    final(self).outputs@[i] == old(self).outputs@[i]
                },
    {
        if let Some(i) = self.find_global(global_name) {
            let description = self.outputs[i].description.take();
            self.outputs.set(i, OutputBinding { global_name, name: Some(name), description });
        }
    }

    /// Records the description that the output with `global_name` announced.
    pub fn set_output_description(&mut self, global_name: u32, description: String)
        requires
            old(self).wf(),
        ensures
            final(self).wf(),
            final(self).width == old(self).width,
            final(self).height == old(self).height,
            final(self).requested_monitor == old(self).requested_monitor,
            final(self).outputs@.len() == old(self).outputs@.len(),
            forall|i: int|
                0 <= i < old(self).outputs@.len() ==> if (#[trigger] old(
                    self,
                ).outputs@[i]).global_name == global_name {
                    final(self).outputs@[i] == OutputBinding {
                        description: Some(description),
                        ..old(self).outputs@[i]
                    }
                } else {
                    final(self).outputs@[i] == old(self).outputs@[i]
                },
    {
        if let Some(i) = self.find_global(global_name) {
            let name = self.outputs[i].name.take();
            self.outputs.set(i, OutputBinding { global_name, name, description: Some(description) });
        }
    }

    /// Handles the compositor's configure event: the first one fixes the geometry, taking each
    /// dimension that is not zero.
    pub fn configure(&mut self, width: u32, height: u32)
        requires
            old(self).wf(),
        ensures
            final(self).wf(),
            final(self).configured,
            final(self).exit == old(self).exit,
            final(self).outputs == old(self).outputs,
            final(self).requested_monitor == old(self).requested_monitor,
            final(self).width == if !old(self).configured && width > 0 {
                width
            } else {
                old(self).width
            },
            final(self).height == if !old(self).configured && height > 0 {
                height
            } else {
                old(self).height
            },
    {
        if !self.configured {
            if width > 0 {
                self.width = width;
            }
            if height > 0 {
                self.height = height;
            }
        }
        self.configured = true;
    }

    /// Handles the compositor's closed event: every loop unwinds.
    pub fn close(&mut self)
        requires
            old(self).wf(),
        ensures
            final(self).wf(),
            final(self).exit,
            final(self).configured == old(self).configured,
            final(self).width == old(self).width,
            final(self).height == old(self).height,
            final(self).outputs == old(self).outputs,
    {
        self.exit = true;
    }
}

} // verus!
