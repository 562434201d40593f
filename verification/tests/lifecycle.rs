use kite::feed::{Broadcast, EndStep};
use kite::gst_pipeline::Program;
use kite::mjpeg_streams::{
    start_rtsp, stream_reply, video_gstreamer_mjpeg_start, video_native_mjpeg_start,
    video_native_mjpeg_stop, video_rtsp_mjpeg_start, RtspStep, MJPEG_ENDED_EVENT,
};
use kite::server::{
    wait_for_first_frame, BindOutcome, FrameEvent, LaunchOutcome, MjpegServer, SourceErrors, Start,
    StartStep, StopStep, FIRST_FRAME_TIMEOUT,
};
use kite::source::{CaptureSpec, DeviceInput, MjpegSource, RtspTranscode};

fn no_device() -> DeviceInput {
    DeviceInput { args: Vec::new(), needs_transcode: false }
}

fn rtsp() -> MjpegSource<'static> {
    MjpegSource::Rtsp { url: "rtsp://cam", transcode: RtspTranscode::Software }
}

fn take_down() -> Vec<StopStep> {
    vec![
        StopStep::SignalShutdown,
        StopStep::Kill,
        StopStep::Reap,
        StopStep::JoinReader,
        StopStep::JoinAccept,
        StopStep::JoinStderr,
    ]
}

/// A start that waits for the first bytes.
fn awaiting(server: &mut MjpegServer) -> Start {
    let (stop, mut start) = server.start(&rtsp(), &no_device(), true);
    assert!(stop.is_empty());
    match start.bound(BindOutcome::Bound(4711)) {
        StartStep::Launch(launch) => assert_eq!(launch.program, Program::Ffmpeg),
        other => panic!("{other:?}"),
    }
    assert!(matches!(start.launched(LaunchOutcome::Started), StartStep::Await));
    start
}

fn error_of(step: StartStep) -> String {
    match step {
        StartStep::Finished(Err(message)) => message,
        other => panic!("{other:?}"),
    }
}

#[test]
fn a_start_succeeds_with_the_first_bytes() {
    let mut server = MjpegServer::new();
    let mut start = awaiting(&mut server);
    let quiet = FrameEvent::Quiet { exited: false, waited: FIRST_FRAME_TIMEOUT - 1 };
    assert!(matches!(start.waited(quiet), StartStep::Await));
    assert!(matches!(start.waited(FrameEvent::Delivered), StartStep::Finished(Ok(4711))));
    assert_eq!(server.started(start), 4711);
    assert_eq!(server.stop(), take_down());
    assert!(server.stop().is_empty());
}

#[test]
fn a_new_start_stops_what_runs() {
    let mut server = MjpegServer::new();
    let mut start = awaiting(&mut server);
    start.waited(FrameEvent::Delivered);
    server.started(start);
    let (stop, _) = server.start(&rtsp(), &no_device(), true);
    assert_eq!(stop, take_down());
    assert!(server.stop().is_empty());
}

#[test]
fn a_failed_start_is_taken_down_and_says_why() {
    for (event, reason) in [
        (FrameEvent::Ended, "the capture ended immediately"),
        (
            FrameEvent::Quiet { exited: true, waited: 0 },
            "ffmpeg exited without delivering a frame",
        ),
        (
            FrameEvent::Quiet { exited: false, waited: FIRST_FRAME_TIMEOUT },
            "no video from the source within 6 s",
        ),
    ] {
        for line in [None, Some("device busy".to_string())] {
            let mut start = awaiting(&mut MjpegServer::new());
            match start.waited(event) {
                StartStep::TakeDown(steps) => assert_eq!(steps, take_down()),
                other => panic!("{other:?}"),
            }
            let expected = match &line {
                None => reason.to_string(),
                Some(line) => format!("{reason}: {line}"),
            };
            assert_eq!(error_of(start.taken_down(line)), expected);
        }
    }
}

#[test]
fn a_start_that_cannot_begin_says_why() {
    let begin = || MjpegServer::new().start(&rtsp(), &no_device(), true).1;
    let e = || "no".to_string();
    assert_eq!(error_of(begin().bound(BindOutcome::NotBound(e()))), "bind: no");
    assert_eq!(error_of(begin().bound(BindOutcome::NotUnblocked(e()))), "set_nonblocking: no");
    assert_eq!(error_of(begin().bound(BindOutcome::NoAddress(e()))), "addr: no");
    let mut start = begin();
    start.bound(BindOutcome::Bound(1));
    assert_eq!(
        error_of(start.launched(LaunchOutcome::NotStarted(e()))),
        "ffmpeg spawn failed: no"
    );
    let mut start = begin();
    start.bound(BindOutcome::Bound(1));
    // The program runs, so it is taken down before the start is over.
    match start.launched(LaunchOutcome::NoOutput) {
        StartStep::TakeDown(steps) => assert_eq!(steps, vec![StopStep::Kill, StopStep::Reap]),
        other => panic!("{other:?}"),
    }
    assert!(!start.succeeded());
    assert_eq!(error_of(start.taken_down(None)), "no stdout");
    assert!(!start.succeeded());
}

#[test]
fn a_failed_start_is_not_announced() {
    let mut feed = Broadcast::new(0);
    assert!(feed.received(b"x").first);
    let mut start = awaiting(&mut MjpegServer::new());
    start.waited(FrameEvent::Quiet { exited: true, waited: 0 });
    start.taken_down(None);
    assert!(!feed.ended(false, start.succeeded()).contains(&EndStep::Announce));
    let mut start = awaiting(&mut MjpegServer::new());
    start.waited(FrameEvent::Delivered);
    assert!(start.succeeded());
    assert!(feed.ended(false, start.succeeded()).contains(&EndStep::Announce));
}

#[test]
fn a_source_that_cannot_be_started_is_refused_after_the_port() {
    let source = MjpegSource::Gstreamer { pipeline: "'x" };
    let (_, mut start) = MjpegServer::new().start(&source, &no_device(), true);
    assert_eq!(
        error_of(start.bound(BindOutcome::Bound(1))),
        "custom GStreamer pipeline has an unterminated quote"
    );
    let (_, mut start) = MjpegServer::new().start(&source, &no_device(), true);
    assert_eq!(error_of(start.bound(BindOutcome::NotBound("no".to_string()))), "bind: no");
}

#[test]
fn waiting_is_decided_event_by_event() {
    assert_eq!(wait_for_first_frame(FrameEvent::Delivered, Program::Ffmpeg), Some(Ok(())));
    assert_eq!(
        wait_for_first_frame(FrameEvent::Quiet { exited: true, waited: 0 }, Program::GstLaunch),
        Some(Err("gstreamer exited without delivering a frame".to_string()))
    );
    assert_eq!(
        wait_for_first_frame(FrameEvent::Quiet { exited: false, waited: 0 }, Program::Ffmpeg),
        None
    );
    assert_eq!(FIRST_FRAME_TIMEOUT, 6_000_000_000);
}

#[test]
fn the_first_error_line_is_kept() {
    let mut errors = SourceErrors::new();
    assert_eq!(errors.log_source_stderr(" \t"), None);
    assert_eq!(errors.log_source_stderr("  device busy "), Some("device busy".to_string()));
    assert_eq!(errors.log_source_stderr("bye"), Some("bye".to_string()));
    assert_eq!(errors.first(), Some("device busy".to_string()));
    assert_eq!(SourceErrors::new().first(), None);
}

#[test]
fn a_reply_names_the_address_and_the_pipeline() {
    let reply = stream_reply(65535, "copy");
    assert_eq!(reply.url, "http://127.0.0.1:65535/");
    assert_eq!(reply.transcode, "copy");
    assert_eq!(MJPEG_ENDED_EVENT, "video-mjpeg-ended");
}

#[test]
fn a_device_stream_names_its_pipeline() {
    let spec = CaptureSpec {
        id: "0".to_string(),
        codec: "h264".to_string(),
        width: 640,
        height: 480,
        fps: 30,
    };
    let device = DeviceInput { args: Vec::new(), needs_transcode: true };
    let begun = video_native_mjpeg_start(&mut MjpegServer::new(), &spec, &device, false);
    assert_eq!(begun.transcode, "software");
    assert_eq!(begun.what, "native capture");
    assert!(begun.stop.is_empty());
    let begun = video_native_mjpeg_start(&mut MjpegServer::new(), &spec, &no_device(), false);
    assert_eq!(begun.transcode, "copy");
}

#[test]
fn an_empty_pipeline_is_refused_and_nothing_stops() {
    let mut server = MjpegServer::new();
    let mut start = awaiting(&mut server);
    start.waited(FrameEvent::Delivered);
    server.started(start);
    assert_eq!(
        video_gstreamer_mjpeg_start(&mut server, " \n", true).unwrap_err(),
        "custom GStreamer pipeline is empty"
    );
    let mut begun = video_gstreamer_mjpeg_start(&mut server, " videotestsrc ", true).unwrap();
    assert_eq!(begun.stop, take_down());
    assert_eq!(begun.transcode, "gstreamer");
    assert_eq!(begun.what, "the custom GStreamer pipeline");
    match begun.start.bound(BindOutcome::Bound(1)) {
        StartStep::Launch(launch) => assert_eq!(launch.args[..3], ["-q", "videotestsrc", "!"]),
        other => panic!("{other:?}"),
    }
}

#[test]
fn network_streams_are_transcoded() {
    assert_eq!(
        video_rtsp_mjpeg_start(true, None).unwrap_err(),
        "reliable MJPEG stream-copy detection is unavailable"
    );
    let software = RtspStep::Known(RtspTranscode::Software);
    assert_eq!(video_rtsp_mjpeg_start(false, Some(false)), Ok(software));
    assert_eq!(video_rtsp_mjpeg_start(false, Some(true)), Ok(RtspStep::ProbeV4l2));
    assert_eq!(video_rtsp_mjpeg_start(false, None), Ok(RtspStep::ProbeV4l2));
    assert_eq!(RtspStep::after_v4l2(true), RtspStep::Known(RtspTranscode::V4l2m2m));
    assert_eq!(RtspStep::after_v4l2(false), RtspStep::ProbeVaapi);
    assert_eq!(RtspStep::after_vaapi(Some("n")), RtspStep::Known(RtspTranscode::Vaapi("n")));
    assert_eq!(RtspStep::after_vaapi(None), software);
    let transcode = RtspTranscode::Vaapi("n");
    let mut begun = start_rtsp(&mut MjpegServer::new(), "rtsp://cam", transcode, true);
    assert_eq!(begun.transcode, "vaapi");
    assert_eq!(begun.what, "the RTSP MJPEG reader");
    match begun.start.bound(BindOutcome::Bound(1)) {
        StartStep::Launch(launch) => assert_eq!(launch.args[5], "n"),
        other => panic!("{other:?}"),
    }
    assert!(video_native_mjpeg_stop(&mut MjpegServer::new()).is_empty());
}
