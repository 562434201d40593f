//! The streams that the embedded MJPEG server is started on, and what the user interface is told of them.

use crate::gst_pipeline;
use crate::gst_pipeline::Program;
use crate::http;
use crate::http::local_url;
use crate::server;
use crate::server::{MjpegServer, Progress, Start, StopStep};
use crate::source;
use crate::source::{CaptureSpec, DeviceInput, MjpegSource, RtspTranscode};
use crate::text;
use crate::text::{chars_of, string_of, trim};
use vstd::prelude::*;

verus! {

/// The event that says that the source of a running stream has died. It is never sent for a stop that was
/// asked for.
pub const MJPEG_ENDED_EVENT: &'static str = "video-mjpeg-ended";

/// What the user interface is told of a stream that runs.
#[derive(Debug)]
pub struct StreamReply {
    /// Where the stream is served.
    pub url: String,
    /// The pipeline that is running, not what the machine could do.
    pub transcode: &'static str,
}

/// A start of the server that has begun.
#[derive(Debug)]
pub struct MjpegStart {
    /// What stops the stream that ran before, to be done first.
    pub stop: Vec<StopStep>,
    /// The start itself.
    pub start: Start,
    /// The label of the pipeline that the start leads to.
    pub transcode: &'static str,
    /// What messages call the source.
    pub what: &'static str,
}

/// The start begins where a stream did or did not run, with what is to be started, under a label, and with
/// what messages call the source.
pub open spec fn begins(
    begun: MjpegStart,
    live: bool,
    launch: Result<(Program, Seq<Seq<char>>), Seq<char>>,
    label: Seq<char>,
    what: Seq<char>,
) -> bool {
    &&& begun.stop@ == server::stop_steps(live)
    &&& begun.start@ == Progress::Binding(launch)
    &&& begun.transcode@ == label
    &&& begun.what@ == what
}

/// What the user interface is told of a stream that runs on a port.
pub fn stream_reply(port: u16, transcode: &'static str) -> (r: StreamReply)
    ensures
        r.url@ == http::local_address(port, "/"@),
        r.transcode@ == transcode@,
{
    StreamReply { url: local_url(port, "/"), transcode }
}

/// The label of a device's pipeline. There is no hardware path: MJPEG is passed through, and anything else
/// is transcoded in software.
pub open spec fn device_label(device: DeviceInput) -> Seq<char> {
    if device.needs_transcode {
        "software"@
    } else {
        "copy"@
    }
}

/// Begins to start the server on a capture device.
pub fn video_native_mjpeg_start(
    server: &mut MjpegServer,
    spec: &CaptureSpec,
    device: &DeviceInput,
    on_linux: bool,
) -> (r: MjpegStart)
    ensures
        final(server)@ == false,
        begins(
            r,
            old(server)@,
            source::source_arguments(MjpegSource::Device(spec), *device, on_linux),
            device_label(*device),
            "native capture"@,
        ),
{
    let transcode: &'static str = if device.needs_transcode {
        "software"
    } else {
        "copy"
    };
    let source: MjpegSource = MjpegSource::Device(spec);
    let (stop, start) = server.start(&source, device, on_linux);
    MjpegStart { stop, start, transcode, what: source.name() }
}

/// What a user's pipeline is started with, or why it cannot be.
pub open spec fn pipeline_launch(pipeline: Seq<char>, on_linux: bool) -> Result<
    (Program, Seq<Seq<char>>),
    Seq<char>,
> {
    match gst_pipeline::gstreamer_arguments(pipeline, on_linux) {
        Ok(args) => Ok((Program::GstLaunch, args)),
        Err(message) => Err(message),
    }
}

/// Begins to start the server on a user's pipeline. An empty one is refused, and what ran before goes on.
pub fn video_gstreamer_mjpeg_start(
    server: &mut MjpegServer,
    pipeline: &str,
    on_linux: bool,
) -> (r: Result<MjpegStart, String>)
    ensures
        r is Err <==> text::trimmed(pipeline@).len() == 0,
        r is Err ==> r->Err_0@ == "custom GStreamer pipeline is empty"@,
        r is Err ==> final(server)@ == old(server)@,
        r is Ok ==> final(server)@ == false,
        r is Ok ==> begins(
            r->Ok_0,
            old(server)@,
            pipeline_launch(text::trimmed(pipeline@), on_linux),
            "gstreamer"@,
            "the custom GStreamer pipeline"@,
        ),
{
    let chars: Vec<char> = chars_of(pipeline);
    let trimmed: &[char] = trim(chars.as_slice());
    if trimmed.len() == 0 {
        return Err("custom GStreamer pipeline is empty".to_string());
    }
    let pipeline: String = string_of(trimmed);
    let none: DeviceInput = DeviceInput { args: Vec::new(), needs_transcode: false };
    let source: MjpegSource = MjpegSource::Gstreamer { pipeline: pipeline.as_str() };
    let (stop, start) = server.start(&source, &none, on_linux);
    Ok(MjpegStart { stop, start, transcode: "gstreamer", what: source.name() })
}

/// What to do next to find out how a network stream becomes MJPEG.
#[derive(Clone, Copy, PartialEq, Eq, Debug)]
pub enum RtspStep {
    /// Look for a V4L2 decoder.
    ProbeV4l2,
    /// Look for a VAAPI render node.
    ProbeVaapi,
    /// It is known.
    Known(RtspTranscode),
}

/// How a network stream becomes MJPEG: never by passing it through, since that a stream is MJPEG cannot be
/// told from bytes that come out. V4L2 goes before VAAPI.
pub open spec fn rtsp_transcode(
    allow_hw_decode: Option<bool>,
    v4l2: bool,
    node: Option<&'static str>,
) -> RtspTranscode {
    if allow_hw_decode == Some(false) {
        RtspTranscode::Software
    } else if v4l2 {
        RtspTranscode::V4l2m2m
    } else {
        match node {
            Some(node) => RtspTranscode::Vaapi(node),
            None => RtspTranscode::Software,
        }
    }
}

/// Begins to find out how a network stream becomes MJPEG. A caller that requires the stream to be passed
/// through is refused.
pub fn video_rtsp_mjpeg_start(require_copy: bool, allow_hw_decode: Option<bool>) -> (r: Result<
    RtspStep,
    String,
>)
    ensures
        r is Err <==> require_copy,
        r is Err ==> r->Err_0@ == "reliable MJPEG stream-copy detection is unavailable"@,
        r is Ok ==> r->Ok_0 == (if allow_hw_decode == Some(false) {
            RtspStep::Known(RtspTranscode::Software)
        } else {
            RtspStep::ProbeV4l2
        }),
{
    if require_copy {
        return Err("reliable MJPEG stream-copy detection is unavailable".to_string());
    }
    match allow_hw_decode {
        Some(false) => Ok(RtspStep::Known(RtspTranscode::Software)),
        _ => Ok(RtspStep::ProbeV4l2),
    }
}

/// What follows once it is known whether there is a V4L2 decoder.
pub open spec fn v4l2_answered(found: bool) -> RtspStep {
    if found {
        RtspStep::Known(RtspTranscode::V4l2m2m)
    } else {
        RtspStep::ProbeVaapi
    }
}

/// What follows once it is known which VAAPI render node there is.
pub open spec fn vaapi_answered(node: Option<&'static str>) -> RtspStep {
    RtspStep::Known(
        match node {
            Some(node) => RtspTranscode::Vaapi(node),
            None => RtspTranscode::Software,
        },
    )
}

impl RtspStep {
    /// Takes in whether there is a V4L2 decoder.
    pub fn after_v4l2(found: bool) -> (r: RtspStep)
        ensures
            r == v4l2_answered(found),
    {
        if found {
            RtspStep::Known(RtspTranscode::V4l2m2m)
        } else {
            RtspStep::ProbeVaapi
        }
    }

    /// Takes in which VAAPI render node there is.
    pub fn after_vaapi(node: Option<&'static str>) -> (r: RtspStep)
        ensures
            r == vaapi_answered(node),
    {
        match node {
            Some(node) => RtspStep::Known(RtspTranscode::Vaapi(node)),
            None => RtspStep::Known(RtspTranscode::Software),
        }
    }
}

/// Begins to start the server on a network stream.
pub fn start_rtsp(
    server: &mut MjpegServer,
    url: &str,
    transcode: RtspTranscode,
    on_linux: bool,
) -> (r: MjpegStart)
    ensures
        final(server)@ == false,
        begins(
            r,
            old(server)@,
            Ok((Program::Ffmpeg, rtsp_arguments(url@, transcode))),
            source::transcode_label(transcode),
            "the RTSP MJPEG reader"@,
        ),
{
    let none: DeviceInput = DeviceInput { args: Vec::new(), needs_transcode: false };
    let source: MjpegSource = MjpegSource::Rtsp { url, transcode };
    let (stop, start) = server.start(&source, &none, on_linux);
    MjpegStart { stop, start, transcode: transcode.label(), what: source.name() }
}

/// The arguments that ffmpeg reads a network stream with.
pub open spec fn rtsp_arguments(url: Seq<char>, transcode: RtspTranscode) -> Seq<Seq<char>> {
    seq!["-loglevel"@, "error"@] + (source::decoder_arguments(transcode) + source::network_arguments(
        url,
    ) + source::encoder_arguments(transcode)) + source::output_arguments()
}

/// Stops the server. Returns what has to be done for it, in this order.
pub fn video_native_mjpeg_stop(server: &mut MjpegServer) -> (r: Vec<StopStep>)
    ensures
        final(server)@ == false,
        r@ == server::stop_steps(old(server)@),
{
    server.stop()
}

/// The steps of finding out how a network stream becomes MJPEG come to what the machine has: V4L2 before
/// VAAPI, software where the caller rules out hardware or there is none.
pub proof fn law_steps_find_the_transcode(
    allow_hw_decode: Option<bool>,
    v4l2: bool,
    node: Option<&'static str>,
)
    ensures
        allow_hw_decode != Some(false) && v4l2 ==> v4l2_answered(v4l2) == RtspStep::Known(
            rtsp_transcode(allow_hw_decode, v4l2, node),
        ),
        allow_hw_decode != Some(false) && !v4l2 ==> v4l2_answered(v4l2) == RtspStep::ProbeVaapi
            && vaapi_answered(node) == RtspStep::Known(
            rtsp_transcode(allow_hw_decode, v4l2, node),
        ),
        allow_hw_decode == Some(false) ==> rtsp_transcode(allow_hw_decode, v4l2, node)
            == RtspTranscode::Software,
{
}

/// A network stream is always transcoded, and its label never says that it is passed through.
pub proof fn law_network_streams_are_transcoded(
    allow_hw_decode: Option<bool>,
    v4l2: bool,
    node: Option<&'static str>,
)
    ensures
        rtsp_transcode(allow_hw_decode, v4l2, node) != RtspTranscode::Copy,
        source::transcode_label(rtsp_transcode(allow_hw_decode, v4l2, node)) != "copy"@,
{
    reveal_strlit("copy");
    reveal_strlit("v4l2m2m");
    reveal_strlit("vaapi");
    reveal_strlit("software");
    assert("copy"@.len() == 4);
    assert("v4l2m2m"@.len() == 7);
    assert("vaapi"@.len() == 5);
    assert("software"@.len() == 8);
}

/// A device that delivers MJPEG is passed through, and any other is transcoded: the label says which of the
/// two the command line does.
pub proof fn law_device_label_is_true(spec: CaptureSpec, device: DeviceInput)
    ensures
        source::input_arguments(MjpegSource::Device(&spec), device) == seq!["-fflags"@, "nobuffer"@]
            + text::strings(device.args@) + (if device_label(device) == "copy"@ {
            source::copy_arguments()
        } else {
            source::software_encoder_arguments()
        }),
{
    reveal_strlit("copy");
    reveal_strlit("software");
    assert("copy"@.len() != "software"@.len());
}

/// What a start that has begun holds: what stops the stream that ran before, what is to be started, the label
/// and the name of the source, all of them as they were given.
pub proof fn law_begun_start_holds_what_was_given(
    begun: MjpegStart,
    live: bool,
    launch: Result<(Program, Seq<Seq<char>>), Seq<char>>,
    label: Seq<char>,
    what: Seq<char>,
)
    requires
        begins(begun, live, launch, label, what),
    ensures
        begun.stop@ == server::stop_steps(live),
        begun.start@ == Progress::Binding(launch),
        begun.transcode@ == label,
        begun.what@ == what,
{
}

/// What a device start launches is what its label says, on every system: the device's own arguments, then the
/// software encoder exactly where the label is `software`, and the copy exactly where it is `copy`.
pub proof fn law_device_start_does_what_its_label_says(
    spec: CaptureSpec,
    device: DeviceInput,
    on_linux: bool,
)
    ensures
        device.needs_transcode ==> device_label(device) == "software"@,
        !device.needs_transcode ==> device_label(device) == "copy"@,
        ({
            let front = seq!["-loglevel"@, "error"@, "-fflags"@, "nobuffer"@] + text::strings(
                device.args@,
            );
            let end = seq!["-flush_packets"@, "1"@, "-f"@, "mpjpeg"@, "-"@];
            let launched = source::source_arguments(MjpegSource::Device(&spec), device, on_linux);
            &&& device_label(device) == "software"@ ==> launched == Ok::<
                (Program, Seq<Seq<char>>),
                Seq<char>,
            >((Program::Ffmpeg, front + seq!["-c:v"@, "mjpeg"@, "-q:v"@, "5"@] + end))
            &&& device_label(device) == "copy"@ ==> launched == Ok::<
                (Program, Seq<Seq<char>>),
                Seq<char>,
            >((Program::Ffmpeg, front + seq!["-c"@, "copy"@] + end))
        }),
{
    reveal_strlit("copy");
    reveal_strlit("software");
    assert("copy"@.len() != "software"@.len());
    source::law_device_is_captured_as_it_delivers(spec, device, on_linux);
}

/// What a network start launches is what reads its address in the way that its label names, on every system.
pub proof fn law_network_start_reads_its_address(
    url: &str,
    transcode: RtspTranscode,
    device: DeviceInput,
    on_linux: bool,
)
    ensures
        source::source_arguments(MjpegSource::Rtsp { url, transcode }, device, on_linux) == Ok::<
            (Program, Seq<Seq<char>>),
            Seq<char>,
        >((Program::Ffmpeg, rtsp_arguments(url@, transcode))),
{
    assert(rtsp_arguments(url@, transcode) =~= source::ffmpeg_arguments(
        MjpegSource::Rtsp { url, transcode },
        device,
    ));
}

/// What a pipeline start launches is the pipeline as a source.
pub proof fn law_pipeline_start_launches_the_pipeline(
    pipeline: &str,
    device: DeviceInput,
    on_linux: bool,
)
    ensures
        pipeline_launch(pipeline@, on_linux) == source::source_arguments(
            MjpegSource::Gstreamer { pipeline },
            device,
            on_linux,
        ),
{
}

/// A V4L2 decoder settles the way, and without one the render node does: every node is used under its own
/// name, and software where there is none.
pub proof fn law_every_answer_settles_the_way(node: &'static str)
    ensures
        v4l2_answered(true) == RtspStep::Known(RtspTranscode::V4l2m2m),
        v4l2_answered(false) == RtspStep::ProbeVaapi,
        vaapi_answered(Some(node)) == RtspStep::Known(RtspTranscode::Vaapi(node)),
        vaapi_answered(None) == RtspStep::Known(RtspTranscode::Software),
{
}

/// Hardware is used for a network stream unless the caller rules it out, V4L2 before any render node, and
/// software where there is neither.
pub proof fn law_hardware_is_used_unless_ruled_out(
    allow_hw_decode: Option<bool>,
    v4l2: bool,
    node: &'static str,
)
    ensures
        rtsp_transcode(Some(false), v4l2, Some(node)) == RtspTranscode::Software,
        rtsp_transcode(Some(false), v4l2, None) == RtspTranscode::Software,
        allow_hw_decode != Some(false) ==> {
            &&& rtsp_transcode(allow_hw_decode, true, Some(node)) == RtspTranscode::V4l2m2m
            &&& rtsp_transcode(allow_hw_decode, true, None) == RtspTranscode::V4l2m2m
            &&& rtsp_transcode(allow_hw_decode, false, Some(node)) == RtspTranscode::Vaapi(node)
            &&& rtsp_transcode(allow_hw_decode, false, None) == RtspTranscode::Software
        },
{
}

} // verus!
