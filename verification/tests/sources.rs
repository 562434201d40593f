use kite::gst_pipeline::{build_gstreamer_command, split_gstreamer_pipeline, Launch, Program};
use kite::source::{
    build_ffmpeg_command, source_command, CaptureSpec, DeviceInput, MjpegSource, RtspTranscode,
};

fn split(pipeline: &str) -> Vec<String> {
    split_gstreamer_pipeline(pipeline).expect("the pipeline can be split")
}

#[test]
fn a_plain_pipeline_is_its_words() {
    assert_eq!(
        split("v4l2src  device=/dev/video0 !\tjpegenc\n! queue"),
        vec!["v4l2src", "device=/dev/video0", "!", "jpegenc", "!", "queue"]
    );
    assert!(split("").is_empty());
    assert!(split("  \u{2003} ").is_empty());
}

#[test]
fn quotes_and_backslashes_are_read() {
    assert_eq!(split("a 'b c' \"d e\""), vec!["a", "b c", "d e"]);
    assert_eq!(split("a'b 'c\" d\"e"), vec!["ab c de"]);
    assert_eq!(split(r"a\ b \! c\\d"), vec!["a b", "!", r"c\d"]);
    assert_eq!(split(r#""a\"b""#), vec!["a\"b"]);
}

#[test]
fn escaped_arguments_are_read_back() {
    let args = ["a b", "'", "\\", "\"x\" ", "ü\n"];
    let line: String = args
        .iter()
        .map(|arg| arg.chars().map(|c| format!("\\{c}")).collect::<String>() + " ")
        .collect();
    assert_eq!(split(&line), args);
}

#[test]
fn an_unfinished_pipeline_is_refused() {
    let unterminated = "custom GStreamer pipeline has an unterminated quote";
    let incomplete = "custom GStreamer pipeline ends with an incomplete escape";
    assert_eq!(split_gstreamer_pipeline("a 'b").unwrap_err(), unterminated);
    assert_eq!(split_gstreamer_pipeline("a \"b").unwrap_err(), unterminated);
    assert_eq!(split_gstreamer_pipeline(r"a b\").unwrap_err(), incomplete);
    // The escape is reported where both are unfinished.
    assert_eq!(split_gstreamer_pipeline("a \"b\\").unwrap_err(), incomplete);
}

#[test]
fn a_pipeline_is_started_with_a_multipart_sink() {
    let launch = build_gstreamer_command("  videotestsrc ! jpegenc ", true).unwrap();
    assert_eq!(launch.program, Program::GstLaunch);
    assert_eq!(launch.program.name(), "gstreamer");
    assert_eq!(launch.program.executable(), "gst-launch-1.0");
    assert_eq!(
        launch.args,
        vec![
            "-q", "videotestsrc", "!", "jpegenc", "!", "multipartmux", "boundary=ffmpeg", "!",
            "fdsink", "fd=1", "sync=false"
        ]
    );
}

#[test]
fn a_pipeline_that_cannot_be_started_is_refused() {
    assert_eq!(
        build_gstreamer_command("videotestsrc", false).unwrap_err(),
        "custom GStreamer pipelines are currently available on Linux only"
    );
    assert_eq!(
        build_gstreamer_command("  ", true).unwrap_err(),
        "custom GStreamer pipeline is empty"
    );
}

fn no_device() -> DeviceInput {
    DeviceInput { args: Vec::new(), needs_transcode: false }
}

fn rtsp(transcode: RtspTranscode) -> Launch {
    build_ffmpeg_command(&MjpegSource::Rtsp { url: "rtsp://cam/1", transcode }, &no_device())
}

#[test]
fn a_network_stream_is_copied() {
    assert_eq!(
        rtsp(RtspTranscode::Copy).args,
        vec![
            "-loglevel", "error", "-fflags", "nobuffer", "-flags", "low_delay", "-timeout",
            "10000000", "-i", "rtsp://cam/1", "-an", "-c", "copy", "-flush_packets", "1", "-f",
            "mpjpeg", "-"
        ]
    );
}

#[test]
fn a_network_stream_is_transcoded() {
    let head = vec!["-loglevel", "error"];
    let input = vec![
        "-fflags", "nobuffer", "-flags", "low_delay", "-timeout", "10000000", "-i",
        "rtsp://cam/1", "-an",
    ];
    let software = vec!["-c:v", "mjpeg", "-q:v", "5"];
    let output = vec!["-flush_packets", "1", "-f", "mpjpeg", "-"];
    let v4l2 = vec!["-c:v", "h264_v4l2m2m"];
    let vaapi = vec![
        "-hwaccel", "vaapi", "-hwaccel_device", "/dev/dri/renderD128", "-hwaccel_output_format",
        "vaapi",
    ];
    let vaapi_encoder = vec!["-c:v", "mjpeg_vaapi", "-async_depth", "1"];
    assert_eq!(
        rtsp(RtspTranscode::Software).args,
        vec![head.clone(), input.clone(), software.clone(), output.clone()].concat()
    );
    assert_eq!(
        rtsp(RtspTranscode::V4l2m2m).args,
        vec![head.clone(), v4l2, input.clone(), software, output.clone()].concat()
    );
    assert_eq!(
        rtsp(RtspTranscode::Vaapi("/dev/dri/renderD128")).args,
        vec![head, vaapi, input, vaapi_encoder, output].concat()
    );
}

#[test]
fn no_transport_is_forced() {
    for transcode in [
        RtspTranscode::Copy,
        RtspTranscode::V4l2m2m,
        RtspTranscode::Vaapi("node"),
        RtspTranscode::Software,
    ] {
        assert!(!rtsp(transcode).args.contains(&"-rtsp_transport".to_string()));
    }
}

#[test]
fn labels_name_the_pipeline() {
    assert_eq!(RtspTranscode::Copy.label(), "copy");
    assert_eq!(RtspTranscode::V4l2m2m.label(), "v4l2m2m");
    assert_eq!(RtspTranscode::Vaapi("node").label(), "vaapi");
    assert_eq!(RtspTranscode::Software.label(), "software");
}

#[test]
fn a_device_is_copied_or_transcoded() {
    let spec = CaptureSpec {
        id: "/dev/video0".to_string(),
        codec: "mjpeg".to_string(),
        width: 1280,
        height: 720,
        fps: 60,
    };
    let input = || vec!["-f".to_string(), "v4l2".to_string(), "-i".to_string(), spec.id.clone()];
    let copied = source_command(
        &MjpegSource::Device(&spec),
        &DeviceInput { args: input(), needs_transcode: false },
        true,
    )
    .unwrap();
    assert_eq!(copied.program.name(), "ffmpeg");
    assert_eq!(copied.program.executable(), "ffmpeg");
    assert_eq!(
        copied.args,
        vec![
            "-loglevel", "error", "-fflags", "nobuffer", "-f", "v4l2", "-i", "/dev/video0", "-c",
            "copy", "-flush_packets", "1", "-f", "mpjpeg", "-"
        ]
    );
    let transcoded = source_command(
        &MjpegSource::Device(&spec),
        &DeviceInput { args: input(), needs_transcode: true },
        false,
    )
    .unwrap();
    assert_eq!(transcoded.args[8..12], ["-c:v", "mjpeg", "-q:v", "5"]);
}

#[test]
fn a_pipeline_is_a_source() {
    let launch =
        source_command(&MjpegSource::Gstreamer { pipeline: "x" }, &no_device(), true).unwrap();
    assert_eq!(launch.program, Program::GstLaunch);
    assert!(
        source_command(&MjpegSource::Gstreamer { pipeline: "x" }, &no_device(), false).is_err()
    );
}
