use papdieo::config::FitMode;
use papdieo::video::{
    after_attempt, decimal_string, escape_location, first_attempt, frame_timeout_ms, on_bus,
    pipeline_descriptions, refresh_due, videoscale_options, BusAction, BusEvent, LadderStep,
    PipelineState, Playback,
};

#[test]
fn locations_are_escaped() {
    assert_eq!(escape_location(r#"/v/a"b\c.mp4"#), r#"/v/a\"b\\c.mp4"#);
    assert_eq!(escape_location("/v/plain.mp4"), "/v/plain.mp4");
}

#[test]
fn decimals() {
    assert_eq!(decimal_string(0), "0");
    assert_eq!(decimal_string(7), "7");
    assert_eq!(decimal_string(1920), "1920");
    assert_eq!(decimal_string(4294967295), "4294967295");
}

#[test]
fn ladder_descriptions() {
    let d = pipeline_descriptions("/v/x.mp4", FitMode::Contain, 1920, 1080, 30);
    assert_eq!(d.len(), 4);
    assert_eq!(
        d[3],
        "filesrc location=\"/v/x.mp4\" ! decodebin ! videoconvert ! videoscale add-borders=true ! videorate ! video/x-raw,format=BGRx,width=1920,height=1080,framerate=30/1 ! appsink name=sink sync=true max-buffers=1 drop=true"
    );
    assert_eq!(
        d[1],
        "filesrc location=\"/v/x.mp4\" ! qtdemux ! h264parse ! vaapih264dec ! vaapipostproc ! video/x-raw,format=BGRx,width=1920,height=1080,framerate=30/1 ! appsink name=sink sync=true max-buffers=1 drop=true"
    );
    assert!(d[0].contains("nvh264dec"));
    assert!(d[2].contains("vulkanh264dec"));
    let c = pipeline_descriptions("/v/x.mp4", FitMode::Cover, 8, 6, 60);
    assert!(c[3].contains("videoscale ! videorate"));
    assert_eq!(videoscale_options(FitMode::Fit), " add-borders=true");
    assert_eq!(videoscale_options(FitMode::Stretch), "");
}

#[test]
fn fallback_to_second_description() {
    let len = 2;
    assert_eq!(first_attempt(len), LadderStep::Try(0));
    assert_eq!(after_attempt(len, 0, false, false), LadderStep::Try(1));
    assert_eq!(after_attempt(len, 1, true, false), LadderStep::Succeed);
}

#[test]
fn ladder_exhaustion_and_exit() {
    assert_eq!(first_attempt(0), LadderStep::Fail);
    assert_eq!(after_attempt(4, 3, false, false), LadderStep::Fail);
    assert_eq!(after_attempt(4, 1, false, true), LadderStep::Succeed);
}

#[test]
fn frame_timeouts() {
    assert_eq!(frame_timeout_ms(30), 33);
    assert_eq!(frame_timeout_ms(60), 16);
    assert_eq!(frame_timeout_ms(500), 4);
    assert_eq!(frame_timeout_ms(0), 1000);
    assert!(refresh_due(500));
    assert!(!refresh_due(499));
}

#[test]
fn bus_messages() {
    assert_eq!(on_bus(BusEvent::Nothing), BusAction::Continue);
    assert_eq!(on_bus(BusEvent::Error), BusAction::Abort);
    assert_eq!(on_bus(BusEvent::EndOfStream), BusAction::Rewind);
}

#[test]
fn visibility_gate_pauses_then_resumes_once() {
    let mut p = Playback::new(30);
    let mut pulls = 0;
    let mut resumes = 0;
    let mut pauses = 0;
    // 2 s of hidden turns at the paused cadence, then visible
    for turn in 0..30 {
        let visible = turn >= 17;
        let t = p.tick(visible);
        match t.set_state {
            Some(PipelineState::Playing) => {
                resumes += 1;
                assert_eq!(turn, 17);
                assert_eq!(t.pull_timeout_ms, Some(33));
            }
            Some(PipelineState::Paused) => pauses += 1,
            None => {}
        }
        if t.pull_timeout_ms.is_some() {
            assert!(visible);
            pulls += 1;
        }
    }
    assert_eq!(resumes, 1);
    assert_eq!(pauses, 1);
    assert_eq!(pulls, 13);
}
