//! Video playback decisions: the decoder ladder, its descriptions, and the per-frame loop.
use vstd::prelude::*;
use crate::config::{is_contain, FitMode};

verus! {

/// How long the first frame of an attempt may take, in milliseconds.
pub const INITIAL_SAMPLE_MS: u64 = 2000;

/// How often the visibility probe is refreshed, in milliseconds.
pub const REFRESH_MS: u64 = 500;

/// How long to sleep instead of pulling while paused, in milliseconds.
pub const PAUSED_SLEEP_MS: u64 = 120;

/// Shortest wait for a frame, in milliseconds.
pub const MIN_FRAME_TIMEOUT_MS: u64 = 4;

/// The characters of a path as a quoted pipeline property: `\` and `"` get a backslash.
pub open spec fn escaped(s: Seq<char>) -> Seq<char>
    decreases s.len(),
{
    if s.len() == 0 {
        Seq::empty()
    } else {
        let c = s.last();
        escaped(s.drop_last()) + if c == '\\' {
            seq!['\\', '\\']
        } else if c == '"' {
            seq!['\\', '"']
        } else {
            seq![c]
        }
    }
}

/// Escapes a path for a quoted pipeline property.
pub fn escape_location(path: &str) -> (r: String)
    ensures
        r@ == escaped(path@),
{
    let n = path.unicode_len();
    let mut r = String::new();
    let mut i: usize = 0;
    while i < n
        invariant
            n == path@.len(),
            0 <= i <= n,
            r@ == escaped(path@.subrange(0, i as int)),
        decreases n - i,
    {
        let c = path.get_char(i);
        let ghost prefix = path@.subrange(0, i + 1);
        proof {
            assert(prefix.drop_last() == path@.subrange(0, i as int));
            assert(prefix.last() == c);
            assert(path@.subrange(i as int, i + 1) == seq![c]);
            reveal_strlit("\\\\");
            reveal_strlit("\\\"");
        }
        if c == '\\' {
            r.append("\\\\");
        } else if c == '"' {
            r.append("\\\"");
        } else {
            r.append(path.substring_char(i, i + 1));
        }
        i = i + 1;
    }
    proof {
        assert(path@.subrange(0, n as int) == path@);
    }
    r
}

/// The decimal digits of `n`.
pub open spec fn decimal(n: nat) -> Seq<char>
    decreases n,
{
    if n < 10 {
        seq![digit_char(n)]
    } else {
        decimal(n / 10) + seq![digit_char(n % 10)]
    }
}

pub open spec fn digit_char(d: nat) -> char {
    if d == 0 {
        '0'
    } else if d == 1 {
        '1'
    } else if d == 2 {
        '2'
    } else if d == 3 {
        '3'
    } else if d == 4 {
        '4'
    } else if d == 5 {
        '5'
    } else if d == 6 {
        '6'
    } else if d == 7 {
        '7'
    } else if d == 8 {
        '8'
    } else {
        '9'
    }
}

fn digit(d: u64) -> (r: &'static str)
    requires
        d < 10,
    ensures
        r@ == seq![digit_char(d as nat)],
{
    proof {
        reveal_strlit("0");
        reveal_strlit("1");
        reveal_strlit("2");
        reveal_strlit("3");
        reveal_strlit("4");
        reveal_strlit("5");
        reveal_strlit("6");
        reveal_strlit("7");
        reveal_strlit("8");
        reveal_strlit("9");
    }
    if d == 0 {
        "0"
    } else if d == 1 {
        "1"
    } else if d == 2 {
        "2"
    } else if d == 3 {
        "3"
    } else if d == 4 {
        "4"
    } else if d == 5 {
        "5"
    } else if d == 6 {
        "6"
    } else if d == 7 {
        "7"
    } else if d == 8 {
        "8"
    } else {
        "9"
    }
}

/// Writes `n` in decimal.
pub fn decimal_string(n: u64) -> (r: String)
    ensures
        r@ == decimal(n as nat),
    decreases n,
{
    if n < 10 {
        digit(n).to_owned()
    } else {
        let mut s = decimal_string(n / 10);
        s.append(digit(n % 10));
        s
    }
}

/// The scaler option for a fit mode: contain modes letterbox inside the scaler.
pub open spec fn scale_options(fit: FitMode) -> Seq<char> {
    if is_contain(fit) {
        " add-borders=true"@
    } else {
        ""@
    }
}

/// The scaler option for a fit mode.
pub fn videoscale_options(fit: FitMode) -> (r: &'static str)
    ensures
        r@ == scale_options(fit),
{
    if fit.letterboxes() {
        " add-borders=true"
    } else {
        ""
    }
}

/// The caps every description ends in, then the sink: BGRx at the output size and frame rate.
pub open spec fn caps_and_sink(w: u32, h: u32, fps: u32) -> Seq<char> {
    "video/x-raw,format=BGRx,width="@ + decimal(w as nat) + ",height="@ + decimal(h as nat)
        + ",framerate="@ + decimal(fps as nat)
        + "/1 ! appsink name=sink sync=true max-buffers=1 drop=true"@
}

/// The ladder of pipeline descriptions, fastest decoder first, software decoding last.
pub open spec fn descriptions(loc: Seq<char>, fit: FitMode, w: u32, h: u32, fps: u32) -> Seq<
    Seq<char>,
> {
    let src = "filesrc location=\""@ + loc;
    let scale = scale_options(fit) + " ! videorate ! "@;
    seq![
        src + "\" ! qtdemux ! h264parse ! nvh264dec ! videoconvert ! videoscale"@ + scale
            + caps_and_sink(w, h, fps),
        src + "\" ! qtdemux ! h264parse ! vaapih264dec ! vaapipostproc ! "@ + caps_and_sink(
            w,
            h,
            fps,
        ),
        src + "\" ! qtdemux ! h264parse ! vulkanh264dec ! videoconvert ! videoscale"@ + scale
            + caps_and_sink(w, h, fps),
        src + "\" ! decodebin ! videoconvert ! videoscale"@ + scale + caps_and_sink(w, h, fps),
    ]
}

fn caps_text(w: u32, h: u32, fps: u32) -> (r: String)
    ensures
        r@ == caps_and_sink(w, h, fps),
{
    let mut s = "video/x-raw,format=BGRx,width=".to_owned();
    s.append(decimal_string(w as u64).as_str());
    s.append(",height=");
    s.append(decimal_string(h as u64).as_str());
    s.append(",framerate=");
    s.append(decimal_string(fps as u64).as_str());
    s.append("/1 ! appsink name=sink sync=true max-buffers=1 drop=true");
    s
}

/// The pipeline descriptions to try for the video at `path`, in order.
pub fn pipeline_descriptions(path: &str, fit: FitMode, w: u32, h: u32, fps: u32) -> (r: Vec<String>)
    ensures
        crate::text::views(r@) == descriptions(escaped(path@), fit, w, h, fps),
{
    let loc = escape_location(path);
    let caps = caps_text(w, h, fps);
    let opts = videoscale_options(fit);
    let mut src = "filesrc location=\"".to_owned();
    src.append(loc.as_str());
    let mut scale = opts.to_owned();
    scale.append(" ! videorate ! ");

    let mut nv = src.clone();
    nv.append("\" ! qtdemux ! h264parse ! nvh264dec ! videoconvert ! videoscale");
    nv.append(scale.as_str());
    nv.append(caps.as_str());

    let mut va = src.clone();
    va.append("\" ! qtdemux ! h264parse ! vaapih264dec ! vaapipostproc ! ");
    va.append(caps.as_str());

    let mut vk = src.clone();
    vk.append("\" ! qtdemux ! h264parse ! vulkanh264dec ! videoconvert ! videoscale");
    vk.append(scale.as_str());
    vk.append(caps.as_str());

    let mut sw = src;
    sw.append("\" ! decodebin ! videoconvert ! videoscale");
    sw.append(scale.as_str());
    sw.append(caps.as_str());

    let r = vec![nv, va, vk, sw];
    proof {
        assert(crate::text::views(r@) =~= descriptions(escaped(path@), fit, w, h, fps));
    }
    r
}

/// What the fallback driver does next.
#[derive(Clone, Copy, Debug, PartialEq, Eq, Structural)]
pub enum LadderStep {
    /// Try the description at this index.
    Try(usize),
    /// Stop: playback ended cleanly.
    Succeed,
    /// Stop: every description failed; report the last error.
    Fail,
}

/// Where the ladder starts.
pub open spec fn ladder_start(len: int) -> LadderStep {
    if len > 0 {
        LadderStep::Try(0)
    } else {
        LadderStep::Fail
    }
}

/// Where the ladder goes after the attempt at `index` ends, cleanly (`ok`) or not, with `exit`
/// telling whether the surface was closed.
pub open spec fn ladder_after(len: int, index: int, ok: bool, exit: bool) -> LadderStep {
    if ok || exit {
        LadderStep::Succeed
    } else if index + 1 < len {
        LadderStep::Try((index + 1) as usize)
    } else {
        LadderStep::Fail
    }
}

/// The first step of a ladder of `len` descriptions.
pub fn first_attempt(len: usize) -> (r: LadderStep)
    ensures
        r == ladder_start(len as int),
{
    if len > 0 {
        LadderStep::Try(0)
    } else {
        LadderStep::Fail
    }
}

/// The step after the attempt at `index` of a ladder of `len` descriptions.
pub fn after_attempt(len: usize, index: usize, ok: bool, exit: bool) -> (r: LadderStep)
    requires
        index < len,
    ensures
        r == ladder_after(len as int, index as int, ok, exit),
{
    if ok || exit {
        LadderStep::Succeed
    } else if index + 1 < len {
        LadderStep::Try(index + 1)
    } else {
        LadderStep::Fail
    }
}

/// When every description before the `k`-th fails and the `k`-th plays, the ladder tries
/// descriptions `0, 1, ..., k` in order and then stops: none after the `k`-th is ever tried.
pub proof fn ladder_stops_at_first_working(len: int, k: int, exits: Seq<bool>)
    requires
        0 <= k < len <= usize::MAX,
        exits.len() == k,
        forall|i: int| 0 <= i < k ==> !#[trigger] exits[i],
    ensures
        ladder_start(len) == LadderStep::Try(0),
        forall|i: int|
            0 <= i < k ==> ladder_after(len, i, false, #[trigger] exits[i]) == LadderStep::Try(
                (i + 1) as usize,
            ),
        forall|exit: bool| ladder_after(len, k, true, exit) == LadderStep::Succeed,
{
}

/// What the pipeline is told to become.
#[derive(Clone, Copy, Debug, PartialEq, Eq, Structural)]
pub enum PipelineState {
    Playing,
    Paused,
}

/// What one turn of the playback loop does before looking at the bus.
#[derive(Clone, Copy, Debug, PartialEq, Eq, Structural)]
pub struct Tick {
    /// A state change to request from the pipeline, if any.
    pub set_state: Option<PipelineState>,
    /// Pull a frame with this deadline in milliseconds; when `None`, sleep instead.
    pub pull_timeout_ms: Option<u64>,
}

/// A message read from the pipeline's bus.
#[derive(Clone, Copy, Debug, PartialEq, Eq, Structural)]
pub enum BusEvent {
    Nothing,
    Error,
    EndOfStream,
}

/// What to do about a bus message.
#[derive(Clone, Copy, Debug, PartialEq, Eq, Structural)]
pub enum BusAction {
    Continue,
    /// Stop the pipeline and fail this attempt.
    Abort,
    /// Seek back to the start: the video loops.
    Rewind,
}

/// The deadline for one frame: one frame period, at least four milliseconds.
pub open spec fn frame_timeout(fps: u32) -> u64 {
    let period = 1000int / (if fps == 0 {
        1
    } else {
        fps as int
    });
    if period >= MIN_FRAME_TIMEOUT_MS {
        period as u64
    } else {
        MIN_FRAME_TIMEOUT_MS
    }
}

/// Computes the deadline for one frame at `fps`.
pub fn frame_timeout_ms(fps: u32) -> (r: u64)
    ensures
        r == frame_timeout(fps),
{
    let f: u64 = if fps == 0 {
        1
    } else {
        fps as u64
    };
    let period = 1000 / f;
    if period >= MIN_FRAME_TIMEOUT_MS {
        period
    } else {
        MIN_FRAME_TIMEOUT_MS
    }
}

/// Whether the visibility probe is due for a refresh.
pub fn refresh_due(elapsed_ms: u64) -> (r: bool)
    ensures
        r == (elapsed_ms >= REFRESH_MS),
{
    elapsed_ms >= REFRESH_MS
}

/// What to do about a bus message.
pub fn on_bus(event: BusEvent) -> (r: BusAction)
    ensures
        r == match event {
            BusEvent::Nothing => BusAction::Continue,
            BusEvent::Error => BusAction::Abort,
            BusEvent::EndOfStream => BusAction::Rewind,
        },
{
    match event {
        BusEvent::Nothing => BusAction::Continue,
        BusEvent::Error => BusAction::Abort,
        BusEvent::EndOfStream => BusAction::Rewind,
    }
}

/// The steady-state playback loop's memory: whether the pipeline is paused.
#[derive(Clone, Copy, Debug)]
pub struct Playback {
    pub paused: bool,
    pub frame_timeout_ms: u64,
}

impl Playback {
    /// A loop that starts playing at `fps`.
    pub fn new(fps: u32) -> (r: Playback)
        ensures
            !r.paused,
            r.frame_timeout_ms == frame_timeout(fps),
    {
        Playback { paused: false, frame_timeout_ms: frame_timeout_ms(fps) }
    }

    /// One turn of the loop: follow visibility with the pipeline state, and pull a frame only
    /// while rendering.
    pub fn tick(&mut self, should_render: bool) -> (r: Tick)
        ensures
            tick_step(*old(self), should_render, *final(self), r),
    {
        let set_state = if should_render && self.paused {
            Some(PipelineState::Playing)
        } else if !should_render && !self.paused {
            Some(PipelineState::Paused)
        } else {
            None
        };
        self.paused = !should_render;
        Tick {
            set_state,
            pull_timeout_ms: if should_render {
                Some(self.frame_timeout_ms)
            } else {
                None
            },
        }
    }
}

/// The state change requested when visibility reads `should_render` and the pipeline is
/// `paused` or not.
pub open spec fn transition(paused: bool, should_render: bool) -> Option<PipelineState> {
    if should_render && paused {
        Some(PipelineState::Playing)
    } else if !should_render && !paused {
        Some(PipelineState::Paused)
    } else {
        None
    }
}

/// One turn of the playback loop, from `before` to `after`, with visibility `should_render`:
/// the pipeline follows visibility, and a frame is pulled only while rendering.
pub open spec fn tick_step(before: Playback, should_render: bool, after: Playback, t: Tick) -> bool {
    &&& after.paused == !should_render
    &&& after.frame_timeout_ms == before.frame_timeout_ms
    &&& t.set_state == transition(before.paused, should_render)
    &&& t.pull_timeout_ms == if should_render {
        Some(before.frame_timeout_ms)
    } else {
        None
    }
}

/// A run of turns that starts playing, with visibility off for the first `n` turns and on
/// afterwards: no frame is pulled while it is off, a frame is pulled on every turn once it is on,
/// the pipeline pauses once at the first turn and resumes exactly once, at turn `n`.
pub proof fn visibility_gate(states: Seq<Playback>, ticks: Seq<Tick>, readings: Seq<bool>, n: int)
    requires
        readings.len() == ticks.len(),
        states.len() == ticks.len() + 1,
        !states[0].paused,
        0 < n <= readings.len(),
        forall|i: int| 0 <= i < n ==> !#[trigger] readings[i],
        forall|i: int| n <= i < readings.len() ==> #[trigger] readings[i],
        forall|i: int|
            0 <= i < ticks.len() ==> tick_step(states[i], readings[i], states[i + 1], #[trigger] ticks[i]),
    ensures
        forall|i: int| 0 <= i < ticks.len() ==> ((#[trigger] ticks[i]).pull_timeout_ms is Some <==> i >= n),
        forall|i: int|
            0 <= i < ticks.len() ==> ((#[trigger] ticks[i]).set_state == Some(PipelineState::Playing)
                <==> i == n),
        forall|i: int|
            0 <= i < ticks.len() ==> ((#[trigger] ticks[i]).set_state == Some(PipelineState::Paused)
                <==> i == 0),
{
    assert forall|i: int| 0 <= i < ticks.len() implies {
        &&& ((#[trigger] ticks[i]).pull_timeout_ms is Some <==> i >= n)
        &&& (ticks[i].set_state == Some(PipelineState::Playing) <==> i == n)
        &&& (ticks[i].set_state == Some(PipelineState::Paused) <==> i == 0)
    } by {
        assert(tick_step(states[i], readings[i], states[i + 1], ticks[i]));
        if i > 0 {
            assert(tick_step(states[i - 1], readings[i - 1], states[i], ticks[i - 1]));
            assert(states[i].paused == !readings[i - 1]);
        }
    }
}

} // verus!
