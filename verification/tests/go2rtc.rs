use kite::go2rtc::{
    client_error, mjpeg_endpoint_delivers, offer_answer, read_answer, register_source,
    video_webrtc_offer, video_webrtc_start, EndpointEvent, OfferReply, Reply, StreamEvent,
    StreamStart, StreamStep,
};
use kite::http::{local_url, status_is_success};

#[test]
fn a_registration_needs_a_success() {
    assert_eq!(register_source(Reply::Status(200)), Ok(()));
    assert_eq!(register_source(Reply::Status(299)), Ok(()));
    assert_eq!(
        register_source(Reply::Status(400)),
        Err("go2rtc add-stream HTTP 400 Bad Request".to_string())
    );
    assert_eq!(
        register_source(Reply::Status(799)),
        Err("go2rtc add-stream HTTP 799 <unknown status code>".to_string())
    );
    assert_eq!(
        register_source(Reply::Failed("refused".to_string())),
        Err("go2rtc add-stream failed: refused".to_string())
    );
}

#[test]
fn every_status_starts_with_its_code() {
    for code in 100..1000 {
        let success = status_is_success(code);
        assert_eq!(success, reqwest::StatusCode::from_u16(code).unwrap().is_success());
        match register_source(Reply::Status(code)) {
            Ok(()) => assert!(success),
            Err(message) => {
                assert!(message.starts_with(&format!("go2rtc add-stream HTTP {code} ")));
            }
        }
    }
}

#[test]
fn a_status_is_no_delivery() {
    assert_eq!(mjpeg_endpoint_delivers(&EndpointEvent::Status(200)), None);
    assert_eq!(mjpeg_endpoint_delivers(&EndpointEvent::Status(404)), Some(false));
    assert_eq!(mjpeg_endpoint_delivers(&EndpointEvent::Failed), Some(false));
    assert_eq!(mjpeg_endpoint_delivers(&EndpointEvent::Silent), Some(false));
    assert_eq!(mjpeg_endpoint_delivers(&EndpointEvent::Chunk(Vec::new())), Some(false));
    assert_eq!(mjpeg_endpoint_delivers(&EndpointEvent::Chunk(vec![0])), Some(true));
}

#[test]
fn local_addresses_are_spelled_out() {
    assert_eq!(local_url(0, ""), "http://127.0.0.1:0");
    assert_eq!(local_url(1984, "/api"), "http://127.0.0.1:1984/api");
}

/// A start whose engine runs on port 1984, and its next step.
fn engine_runs(
    use_ffmpeg: bool,
    mjpeg: bool,
    allow_hw: Option<bool>,
    v4l2: bool,
    vaapi: bool,
) -> (StreamStart, StreamStep) {
    let (step, mut start) =
        video_webrtc_start("rtsp://cam".to_string(), use_ffmpeg, mjpeg, allow_hw);
    assert!(matches!(step, StreamStep::ProbeV4l2));
    let mut step = start.next(StreamEvent::V4l2(v4l2));
    if !v4l2 {
        assert!(matches!(step, StreamStep::ProbeVaapi));
        step = start.next(StreamEvent::Vaapi(vaapi));
    }
    assert!(matches!(step, StreamStep::EnsureRunning));
    assert!(matches!(start.next(StreamEvent::Engine(Ok(1984))), StreamStep::MakeClient));
    let step = start.next(StreamEvent::Client(Ok(())));
    (start, step)
}

fn registered(step: StreamStep) -> String {
    match step {
        StreamStep::Register(request) => {
            assert_eq!(request.url, "http://127.0.0.1:1984/api/streams");
            assert_eq!(request.name, "kite");
            request.src
        }
        other => panic!("{other:?}"),
    }
}

fn result(step: StreamStep) -> Result<&'static str, String> {
    match step {
        StreamStep::Finished(result) => result,
        other => panic!("{other:?}"),
    }
}

fn accepted() -> StreamEvent {
    StreamEvent::Registered(Reply::Status(200))
}

#[test]
fn a_webrtc_stream_is_never_transcoded() {
    let (mut start, step) = engine_runs(false, false, None, true, false);
    assert_eq!(registered(step), "rtsp://cam");
    assert_eq!(result(start.next(accepted())), Ok("none"));
    let (mut start, step) = engine_runs(true, false, None, false, true);
    assert_eq!(registered(step), "ffmpeg:rtsp://cam#input=rtsp/udp#video=copy");
    assert_eq!(result(start.next(accepted())), Ok("none"));
}

#[test]
fn an_mjpeg_stream_is_copied_where_that_delivers() {
    let (mut start, step) = engine_runs(false, true, None, false, true);
    assert_eq!(registered(step), "ffmpeg:rtsp://cam#input=rtsp/udp#video=copy");
    match start.next(accepted()) {
        StreamStep::AskEndpoint(url) => {
            assert_eq!(url, "http://127.0.0.1:1984/api/stream.mjpeg?src=kite");
        }
        other => panic!("{other:?}"),
    }
    assert_eq!(result(start.next(StreamEvent::Endpoint(true))), Ok("copy"));
}

#[test]
fn an_mjpeg_stream_is_transcoded_otherwise() {
    for (allow_hw, v4l2, vaapi, options, label) in [
        (None, false, true, "kite_hw_input#video=kite_hw_mjpeg", "vaapi"),
        (Some(true), true, false, "kite_hw_input#video=mjpeg", "v4l2m2m"),
        (None, false, false, "rtsp/udp#video=mjpeg", "software"),
        (Some(false), true, false, "rtsp/udp#video=mjpeg", "software"),
        (Some(false), false, true, "rtsp/udp#video=mjpeg", "software"),
    ] {
        let (mut start, _) = engine_runs(false, true, allow_hw, v4l2, vaapi);
        start.next(accepted());
        let step = start.next(StreamEvent::Endpoint(false));
        assert_eq!(registered(step), format!("ffmpeg:rtsp://cam#input={options}"));
        assert_eq!(result(start.next(accepted())), Ok(label));
    }
}

#[test]
fn no_space_comes_into_a_source() {
    for (mjpeg, v4l2, vaapi) in
        [(false, true, false), (true, true, false), (true, false, true), (true, false, false)]
    {
        let (mut start, step) = engine_runs(true, mjpeg, None, v4l2, vaapi);
        assert!(!registered(step).contains(' '));
        if mjpeg {
            start.next(accepted());
            let src = registered(start.next(StreamEvent::Endpoint(false)));
            assert!(src.starts_with("ffmpeg:"));
            assert!(!src.contains(' '));
        }
    }
}

#[test]
fn lost_probes_mean_no_hardware() {
    let (_, mut start) = video_webrtc_start("u".to_string(), false, true, None);
    assert!(matches!(start.next(StreamEvent::ProbesLost), StreamStep::EnsureRunning));
    start.next(StreamEvent::Engine(Ok(1984)));
    start.next(StreamEvent::Client(Ok(())));
    start.next(accepted());
    let step = start.next(StreamEvent::Endpoint(false));
    assert_eq!(registered(step), "ffmpeg:u#input=rtsp/udp#video=mjpeg");
}

#[test]
fn a_stream_that_cannot_start_says_why() {
    let (_, mut start) = video_webrtc_start("u".to_string(), false, true, None);
    start.next(StreamEvent::V4l2(true));
    let step = start.next(StreamEvent::Engine(Err("no go2rtc".to_string())));
    assert_eq!(result(step), Err("no go2rtc".to_string()));

    let (_, mut start) = video_webrtc_start("u".to_string(), false, true, None);
    start.next(StreamEvent::V4l2(true));
    start.next(StreamEvent::Engine(Ok(1)));
    let step = start.next(StreamEvent::Client(Err("no TLS".to_string())));
    assert_eq!(result(step), Err("HTTP client error: no TLS".to_string()));
    assert_eq!(client_error("no TLS"), "HTTP client error: no TLS");

    let refused = || StreamEvent::Registered(Reply::Status(500));
    let message = "go2rtc add-stream HTTP 500 Internal Server Error".to_string();
    let (mut start, _) = engine_runs(false, true, None, true, false);
    assert_eq!(result(start.next(refused())), Err(message.clone()));
    let (mut start, _) = engine_runs(false, false, None, true, false);
    assert_eq!(result(start.next(refused())), Err(message));
}

#[test]
fn an_offer_needs_a_running_engine() {
    assert_eq!(
        video_webrtc_offer("v=0", None).unwrap_err(),
        "go2rtc is not running — start the stream first"
    );
}

#[test]
fn an_offer_is_json_that_reads_back() {
    let sdp = "v=0\r\no=- \"q\" \\ \u{1} ü 🪁\r\n";
    let offer = video_webrtc_offer(sdp, Some(1984)).unwrap();
    assert_eq!(offer.url, "http://127.0.0.1:1984/api/webrtc");
    assert_eq!(offer.src, "kite");
    let body: serde_json::Value = serde_json::from_str(&offer.body).unwrap();
    assert_eq!(body.as_object().unwrap().len(), 2);
    assert_eq!(body["type"], "offer");
    assert_eq!(body["sdp"], sdp);
    // An engine that sends the offer back answers with it.
    assert_eq!(offer_answer(OfferReply::Answered(200, offer.body)), Ok(sdp.to_string()));
}

#[test]
fn an_answer_is_read() {
    let answered = |status: u16, body: &str| offer_answer(OfferReply::Answered(status, body.to_string()));
    assert_eq!(answered(201, r#"{"type":"answer","sdp":"a\nb"}"#), Ok("a\nb".to_string()));
    let no_sdp = Err("go2rtc answer has no SDP".to_string());
    assert_eq!(answered(200, r#"{"type":"answer"}"#), no_sdp);
    assert_eq!(answered(200, r#"{"sdp":1}"#), no_sdp);
    assert_eq!(answered(200, r#"["sdp"]"#), no_sdp);
    let e = serde_json::from_str::<serde_json::Value>("{x").unwrap_err();
    assert_eq!(
        answered(200, "{x"),
        Err(format!("go2rtc answer parse failed: {e} (body: {{x)"))
    );
    assert_eq!(
        answered(404, " stream not found\n"),
        Err("go2rtc WebRTC offer HTTP 404 Not Found: stream not found".to_string())
    );
    assert_eq!(
        offer_answer(OfferReply::Failed("timed out".to_string())),
        Err("go2rtc WebRTC offer failed: timed out".to_string())
    );
}

#[test]
fn an_answer_comes_to_what_is_under_its_key() {
    assert_eq!(read_answer(Ok(Some("x".to_string())), "b"), Ok("x".to_string()));
    assert_eq!(read_answer(Ok(None), "b"), Err("go2rtc answer has no SDP".to_string()));
    assert_eq!(
        read_answer(Err("bad".to_string()), "b"),
        Err("go2rtc answer parse failed: bad (body: b)".to_string())
    );
}
