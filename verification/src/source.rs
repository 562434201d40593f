//! What the MJPEG server captures from, and the command line that captures it.

use crate::gst_pipeline;
use crate::gst_pipeline::{build_gstreamer_command, Launch, Program};
use crate::text;
use crate::text::{push_text, push_texts};
use vstd::prelude::*;

verus! {

/// How an RTSP source's video becomes the MJPEG that the multipart sink needs.
#[derive(Clone, Copy, PartialEq, Eq, Debug)]
pub enum RtspTranscode {
    /// The source already sends MJPEG: its packets pass through untouched. No decode, no encode.
    Copy,
    /// Pi-class SoC: hardware H.264 decode, software MJPEG encode.
    V4l2m2m,
    /// Desktop GPU: both halves on the GPU, the frames never leaving it. Carries the render node.
    Vaapi(&'static str),
    /// Decode and encode in software.
    Software,
}

/// The label of a pipeline.
pub open spec fn transcode_label(transcode: RtspTranscode) -> Seq<char> {
    match transcode {
        RtspTranscode::Copy => "copy"@,
        RtspTranscode::V4l2m2m => "v4l2m2m"@,
        RtspTranscode::Vaapi(_) => "vaapi"@,
        RtspTranscode::Software => "software"@,
    }
}

impl RtspTranscode {
    /// The label that the UI shows for the running pipeline: the pipeline that is running, not what
    /// the host could do.
    pub fn label(self) -> (r: &'static str)
        ensures
            r@ == transcode_label(self),
    {
        match self {
            RtspTranscode::Copy => "copy",
            RtspTranscode::V4l2m2m => "v4l2m2m",
            RtspTranscode::Vaapi(_) => "vaapi",
            RtspTranscode::Software => "software",
        }
    }
}

/// The mode of a local capture device that the user picked.
#[derive(Debug)]
pub struct CaptureSpec {
    /// The device.
    pub id: String,
    /// The codec that the device is asked for.
    pub codec: String,
    /// The width of the picture.
    pub width: u32,
    /// The height of the picture.
    pub height: u32,
    /// The pictures per second.
    pub fps: u32,
}

/// What the capture layer of the operating system says of a device in the mode that was picked.
#[derive(Debug)]
pub struct DeviceInput {
    /// The arguments that make ffmpeg read the device.
    pub args: Vec<String>,
    /// Whether the device delivers something other than MJPEG.
    pub needs_transcode: bool,
}

/// What the server captures from.
pub enum MjpegSource<'a> {
    /// A local capture device.
    Device(&'a CaptureSpec),
    /// A network stream, read directly.
    Rtsp {
        /// The address of the stream.
        url: &'a str,
        /// How it becomes MJPEG.
        transcode: RtspTranscode,
    },
    /// A pipeline that produces `image/jpeg`.
    Gstreamer {
        /// The pipeline as the user wrote it.
        pipeline: &'a str,
    },
}

/// What messages call a source.
pub open spec fn source_name(source: MjpegSource) -> Seq<char> {
    match source {
        MjpegSource::Device(_) => "native capture"@,
        MjpegSource::Rtsp { .. } => "the RTSP MJPEG reader"@,
        MjpegSource::Gstreamer { .. } => "the custom GStreamer pipeline"@,
    }
}

impl<'a> MjpegSource<'a> {
    /// What messages call the source.
    pub fn name(&self) -> (r: &'static str)
        ensures
            r@ == source_name(*self),
    {
        match self {
            MjpegSource::Device(_) => "native capture",
            MjpegSource::Rtsp { .. } => "the RTSP MJPEG reader",
            MjpegSource::Gstreamer { .. } => "the custom GStreamer pipeline",
        }
    }
}

/// The arguments that select a hardware decoder. They are input options, so they come before `-i`.
pub open spec fn decoder_arguments(transcode: RtspTranscode) -> Seq<Seq<char>> {
    match transcode {
        RtspTranscode::V4l2m2m => seq!["-c:v"@, "h264_v4l2m2m"@],
        RtspTranscode::Vaapi(node) => seq![
            "-hwaccel"@,
            "vaapi"@,
            "-hwaccel_device"@,
            node@,
            "-hwaccel_output_format"@,
            "vaapi"@,
        ],
        _ => Seq::empty(),
    }
}

/// The arguments that read a network stream without delay, whatever transport its server speaks, and
/// that end the reader when ten seconds pass without data.
pub open spec fn network_arguments(url: Seq<char>) -> Seq<Seq<char>> {
    seq![
        "-fflags"@,
        "nobuffer"@,
        "-flags"@,
        "low_delay"@,
        "-timeout"@,
        "10000000"@,
        "-i"@,
        url,
        "-an"@,
    ]
}

/// The arguments that pass MJPEG packets through untouched.
pub open spec fn copy_arguments() -> Seq<Seq<char>> {
    seq!["-c"@, "copy"@]
}

/// The arguments that encode MJPEG in software.
pub open spec fn software_encoder_arguments() -> Seq<Seq<char>> {
    seq!["-c:v"@, "mjpeg"@, "-q:v"@, "5"@]
}

/// The arguments that make MJPEG of what was decoded.
pub open spec fn encoder_arguments(transcode: RtspTranscode) -> Seq<Seq<char>> {
    match transcode {
        RtspTranscode::Copy => copy_arguments(),
        RtspTranscode::Vaapi(_) => seq!["-c:v"@, "mjpeg_vaapi"@, "-async_depth"@, "1"@],
        _ => software_encoder_arguments(),
    }
}

/// The arguments that write each packet at once as a multipart stream on standard output.
pub open spec fn output_arguments() -> Seq<Seq<char>> {
    seq!["-flush_packets"@, "1"@, "-f"@, "mpjpeg"@, "-"@]
}

/// The arguments that select what is read and how it becomes MJPEG.
pub open spec fn input_arguments(source: MjpegSource, device: DeviceInput) -> Seq<Seq<char>> {
    match source {
        MjpegSource::Device(_) => seq!["-fflags"@, "nobuffer"@] + text::strings(device.args@) + (
        if device.needs_transcode {
            software_encoder_arguments()
        } else {
            copy_arguments()
        }),
        MjpegSource::Rtsp { url, transcode } => decoder_arguments(transcode) + network_arguments(
            url@,
        ) + encoder_arguments(transcode),
        MjpegSource::Gstreamer { .. } => Seq::empty(),
    }
}

/// The arguments that ffmpeg is started with.
pub open spec fn ffmpeg_arguments(source: MjpegSource, device: DeviceInput) -> Seq<Seq<char>> {
    seq!["-loglevel"@, "error"@] + input_arguments(source, device) + output_arguments()
}

fn push_decoder(args: &mut Vec<String>, transcode: RtspTranscode)
    ensures
        text::strings(final(args)@) == text::strings(old(args)@) + decoder_arguments(transcode),
{
    match transcode {
        RtspTranscode::V4l2m2m => {
            push_text(args, "-c:v");
            push_text(args, "h264_v4l2m2m");
        },
        RtspTranscode::Vaapi(node) => {
            push_text(args, "-hwaccel");
            push_text(args, "vaapi");
            push_text(args, "-hwaccel_device");
            push_text(args, node);
            // Keeps decoded frames in GPU memory for the encoder. Without it every frame is copied
            // back to system memory, and the chain ends up slower than software.
            push_text(args, "-hwaccel_output_format");
            push_text(args, "vaapi");
        },
        RtspTranscode::Copy | RtspTranscode::Software => {},
    }
    proof {
        assert(text::strings(args@) =~= text::strings(old(args)@) + decoder_arguments(transcode));
    }
}

fn push_network(args: &mut Vec<String>, url: &str)
    ensures
        text::strings(final(args)@) == text::strings(old(args)@) + network_arguments(url@),
{
    push_text(args, "-fflags");
    push_text(args, "nobuffer");
    push_text(args, "-flags");
    push_text(args, "low_delay");
    push_text(args, "-timeout");
    push_text(args, "10000000");
    push_text(args, "-i");
    push_text(args, url);
    push_text(args, "-an");
    proof {
        assert(text::strings(args@) =~= text::strings(old(args)@) + network_arguments(url@));
    }
}

fn push_copy(args: &mut Vec<String>)
    ensures
        text::strings(final(args)@) == text::strings(old(args)@) + copy_arguments(),
{
    push_text(args, "-c");
    push_text(args, "copy");
    proof {
        assert(text::strings(args@) =~= text::strings(old(args)@) + copy_arguments());
    }
}

fn push_software_encoder(args: &mut Vec<String>)
    ensures
        text::strings(final(args)@) == text::strings(old(args)@) + software_encoder_arguments(),
{
    push_text(args, "-c:v");
    push_text(args, "mjpeg");
    push_text(args, "-q:v");
    push_text(args, "5");
    proof {
        assert(text::strings(args@) =~= text::strings(old(args)@) + software_encoder_arguments());
    }
}

fn push_encoder(args: &mut Vec<String>, transcode: RtspTranscode)
    ensures
        text::strings(final(args)@) == text::strings(old(args)@) + encoder_arguments(transcode),
{
    match transcode {
        RtspTranscode::Copy => push_copy(args),
        RtspTranscode::Vaapi(_) => {
            push_text(args, "-c:v");
            push_text(args, "mjpeg_vaapi");
            // The encoder holds two frames back by default, which on a live feed is only latency.
            push_text(args, "-async_depth");
            push_text(args, "1");
        },
        RtspTranscode::V4l2m2m | RtspTranscode::Software => push_software_encoder(args),
    }
    proof {
        assert(text::strings(args@) =~= text::strings(old(args)@) + encoder_arguments(transcode));
    }
}

/// The command line that captures a device or a network stream with ffmpeg.
pub fn build_ffmpeg_command(source: &MjpegSource, device: &DeviceInput) -> (r: Launch)
    requires
        !(*source is Gstreamer),
    ensures
        r.program == Program::Ffmpeg,
        text::strings(r.args@) == ffmpeg_arguments(*source, *device),
{
    let mut args: Vec<String> = Vec::new();
    push_text(&mut args, "-loglevel");
    push_text(&mut args, "error");
    let ghost start = text::strings(args@);
    match source {
        MjpegSource::Device(_) => {
            push_text(&mut args, "-fflags");
            push_text(&mut args, "nobuffer");
            push_texts(&mut args, &device.args);
            if device.needs_transcode {
                push_software_encoder(&mut args);
            } else {
                push_copy(&mut args);
            }
        },
        MjpegSource::Rtsp { url, transcode } => {
            push_decoder(&mut args, *transcode);
            push_network(&mut args, url);
            push_encoder(&mut args, *transcode);
        },
        MjpegSource::Gstreamer { .. } => {},
    }
    proof {
        assert(text::strings(args@) =~= start + input_arguments(*source, *device));
        assert(start =~= seq!["-loglevel"@, "error"@]);
    }
    push_text(&mut args, "-flush_packets");
    push_text(&mut args, "1");
    push_text(&mut args, "-f");
    push_text(&mut args, "mpjpeg");
    push_text(&mut args, "-");
    proof {
        assert(text::strings(args@) =~= ffmpeg_arguments(*source, *device));
    }
    Launch { program: Program::Ffmpeg, args }
}

/// The program and the arguments that a source is captured with, or why it cannot be.
pub open spec fn source_arguments(
    source: MjpegSource,
    device: DeviceInput,
    on_linux: bool,
) -> Result<(Program, Seq<Seq<char>>), Seq<char>> {
    match source {
        MjpegSource::Gstreamer { pipeline } => match gst_pipeline::gstreamer_arguments(
            pipeline@,
            on_linux,
        ) {
            Ok(args) => Ok((Program::GstLaunch, args)),
            Err(message) => Err(message),
        },
        _ => Ok((Program::Ffmpeg, ffmpeg_arguments(source, device))),
    }
}

/// What a command line is made of.
pub open spec fn launch_view(launch: Launch) -> (Program, Seq<Seq<char>>) {
    (launch.program, text::strings(launch.args@))
}

/// The command line that captures a source.
pub fn source_command(source: &MjpegSource, device: &DeviceInput, on_linux: bool) -> (r: Result<
    Launch,
    String,
>)
    ensures
        match r {
            Ok(launch) => source_arguments(*source, *device, on_linux) == Ok::<
                (Program, Seq<Seq<char>>),
                Seq<char>,
            >(launch_view(launch)),
            Err(message) => source_arguments(*source, *device, on_linux) == Err::<
                (Program, Seq<Seq<char>>),
                Seq<char>,
            >(message@),
        },
{
    match source {
        MjpegSource::Gstreamer { pipeline } => build_gstreamer_command(pipeline, on_linux),
        _ => Ok(build_ffmpeg_command(source, device)),
    }
}

/// Whatever the source, the command line ends in what makes the multipart stream that the server
/// cuts into parts.
pub proof fn law_output_is_multipart(source: MjpegSource, device: DeviceInput, on_linux: bool)
    ensures
        match source_arguments(source, device, on_linux) {
            Ok((Program::Ffmpeg, args)) => output_arguments().is_suffix_of(args),
            Ok((Program::GstLaunch, args)) => gst_pipeline::sink_arguments().is_suffix_of(args),
            Err(_) => source is Gstreamer,
        },
{
    match source_arguments(source, device, on_linux) {
        Ok((program, args)) => {
            let end = if program == Program::Ffmpeg {
                output_arguments()
            } else {
                gst_pipeline::sink_arguments()
            };
            assert(args.subrange(args.len() - end.len(), args.len() as int) =~= end);
        },
        Err(_) => {},
    }
}

/// No transport is forced on a network stream: forcing one is what stops a server that speaks only
/// the other from opening at all.
pub proof fn law_no_transport_is_forced(
    url: &str,
    transcode: RtspTranscode,
    device: DeviceInput,
)
    requires
        url@ != "-rtsp_transport"@,
        transcode matches RtspTranscode::Vaapi(node) ==> node@ != "-rtsp_transport"@,
    ensures
        !ffmpeg_arguments(MjpegSource::Rtsp { url, transcode }, device).contains(
            "-rtsp_transport"@,
        ),
{
    reveal_strlit("-rtsp_transport");
    reveal_strlit("-loglevel");
    reveal_strlit("error");
    reveal_strlit("-c:v");
    reveal_strlit("h264_v4l2m2m");
    reveal_strlit("-hwaccel");
    reveal_strlit("vaapi");
    reveal_strlit("-hwaccel_device");
    reveal_strlit("-hwaccel_output_format");
    reveal_strlit("-fflags");
    reveal_strlit("nobuffer");
    reveal_strlit("-flags");
    reveal_strlit("low_delay");
    reveal_strlit("-timeout");
    reveal_strlit("10000000");
    reveal_strlit("-i");
    reveal_strlit("-an");
    reveal_strlit("-c");
    reveal_strlit("copy");
    reveal_strlit("mjpeg");
    reveal_strlit("-q:v");
    reveal_strlit("5");
    reveal_strlit("mjpeg_vaapi");
    reveal_strlit("-async_depth");
    reveal_strlit("1");
    reveal_strlit("-flush_packets");
    reveal_strlit("-f");
    reveal_strlit("mpjpeg");
    reveal_strlit("-");
    let forced = "-rtsp_transport"@;
    assert(forced[1] == 'r');
    assert("-hwaccel_device"@[1] == 'h');
    let source = MjpegSource::Rtsp { url, transcode };
    assert(!decoder_arguments(transcode).contains(forced));
    assert(!network_arguments(url@).contains(forced));
    let encoder = encoder_arguments(transcode);
    assert forall|k: int| 0 <= k < encoder.len() implies encoder[k] != forced by {
        assert(k == 0 || k == 1 || k == 2 || k == 3);
        assert(encoder[k].len() < 15);
    }
    let output = output_arguments();
    assert forall|k: int| 0 <= k < output.len() implies output[k] != forced by {
        assert(k == 0 || k == 1 || k == 2 || k == 3 || k == 4);
        assert(output[k].len() < 15);
    }
    let all = ffmpeg_arguments(source, device);
    if all.contains(forced) {
        let k = all.index_of(forced);
        let a = 2int;
        let b = a + decoder_arguments(transcode).len();
        let c = b + network_arguments(url@).len();
        let d = c + encoder_arguments(transcode).len();
        assert(all[0] == "-loglevel"@ && all[1] == "error"@);
        if k < a {
            assert(all[k].len() < 15);
            assert(false);
        } else if k < b {
            assert(decoder_arguments(transcode)[k - a] == forced);
            assert(false);
        } else if k < c {
            assert(network_arguments(url@)[k - b] == forced);
            assert(false);
        } else if k < d {
            assert(encoder[k - c] == forced);
            assert(false);
        } else {
            assert(output[k - d] == forced);
            assert(false);
        }
    }
}

/// What a device is captured with is what it delivers, on every system: MJPEG is passed through, anything else
/// is encoded as MJPEG in software, and the device's own arguments stand before that.
pub proof fn law_device_is_captured_as_it_delivers(
    spec: CaptureSpec,
    device: DeviceInput,
    on_linux: bool,
)
    ensures
        source_arguments(MjpegSource::Device(&spec), device, on_linux) == Ok::<
            (Program, Seq<Seq<char>>),
            Seq<char>,
        >(
            (
                Program::Ffmpeg,
                seq!["-loglevel"@, "error"@, "-fflags"@, "nobuffer"@] + text::strings(device.args@) + (
                if device.needs_transcode {
                    seq!["-c:v"@, "mjpeg"@, "-q:v"@, "5"@]
                } else {
                    seq!["-c"@, "copy"@]
                }) + seq!["-flush_packets"@, "1"@, "-f"@, "mpjpeg"@, "-"@],
            ),
        ),
{
    let source = MjpegSource::Device(&spec);
    let own = text::strings(device.args@);
    let middle = if device.needs_transcode {
        software_encoder_arguments()
    } else {
        copy_arguments()
    };
    assert(ffmpeg_arguments(source, device) =~= seq!["-loglevel"@, "error"@, "-fflags"@, "nobuffer"@]
        + own + middle + output_arguments());
}

/// What a network stream is read with depends on its address and on how it becomes MJPEG alone: the decoder
/// comes before the address, the encoder behind it, and neither where it is passed through. The system does
/// not matter, nor does any device.
pub proof fn law_network_stream_is_read_as_chosen(
    url: &str,
    node: &'static str,
    device: DeviceInput,
    on_linux: bool,
)
    ensures
        ({
            let front = seq!["-loglevel"@, "error"@];
            let read = seq![
                "-fflags"@,
                "nobuffer"@,
                "-flags"@,
                "low_delay"@,
                "-timeout"@,
                "10000000"@,
                "-i"@,
                url@,
                "-an"@,
            ];
            let end = seq!["-flush_packets"@, "1"@, "-f"@, "mpjpeg"@, "-"@];
            let software = seq!["-c:v"@, "mjpeg"@, "-q:v"@, "5"@];
            let launched = |transcode: RtspTranscode|
                source_arguments(MjpegSource::Rtsp { url, transcode }, device, on_linux);
            &&& launched(RtspTranscode::Copy) == Ok::<(Program, Seq<Seq<char>>), Seq<char>>(
                (Program::Ffmpeg, front + read + seq!["-c"@, "copy"@] + end),
            )
            &&& launched(RtspTranscode::Software) == Ok::<(Program, Seq<Seq<char>>), Seq<char>>(
                (Program::Ffmpeg, front + read + software + end),
            )
            &&& launched(RtspTranscode::V4l2m2m) == Ok::<(Program, Seq<Seq<char>>), Seq<char>>(
                (
                    Program::Ffmpeg,
                    front + seq!["-c:v"@, "h264_v4l2m2m"@] + read + software + end,
                ),
            )
            &&& launched(RtspTranscode::Vaapi(node)) == Ok::<(Program, Seq<Seq<char>>), Seq<char>>(
                (
                    Program::Ffmpeg,
                    front + seq![
                        "-hwaccel"@,
                        "vaapi"@,
                        "-hwaccel_device"@,
                        node@,
                        "-hwaccel_output_format"@,
                        "vaapi"@,
                    ] + read + seq!["-c:v"@, "mjpeg_vaapi"@, "-async_depth"@, "1"@] + end,
                ),
            )
        }),
{
    let front = seq!["-loglevel"@, "error"@];
    let read = network_arguments(url@);
    let end = output_arguments();
    let software = software_encoder_arguments();
    let arguments = |transcode: RtspTranscode|
        ffmpeg_arguments(MjpegSource::Rtsp { url, transcode }, device);
    assert(arguments(RtspTranscode::Copy) =~= front + read + copy_arguments() + end);
    assert(arguments(RtspTranscode::Software) =~= front + read + software + end);
    let v4l2 = decoder_arguments(RtspTranscode::V4l2m2m);
    assert(arguments(RtspTranscode::V4l2m2m) =~= front + v4l2 + read + software + end);
    let vaapi = RtspTranscode::Vaapi(node);
    assert(arguments(vaapi) =~= front + decoder_arguments(vaapi) + read + encoder_arguments(vaapi)
        + end);
}

/// A user's pipeline is started by `gst-launch-1.0` with the arguments that it is split into, or refused with
/// the reason why it cannot be; no device matters.
pub proof fn law_pipeline_is_started_as_split(pipeline: &str, device: DeviceInput, on_linux: bool)
    ensures
        match gst_pipeline::gstreamer_arguments(pipeline@, on_linux) {
            Ok(args) => source_arguments(MjpegSource::Gstreamer { pipeline }, device, on_linux)
                == Ok::<(Program, Seq<Seq<char>>), Seq<char>>((Program::GstLaunch, args)),
            Err(message) => source_arguments(MjpegSource::Gstreamer { pipeline }, device, on_linux)
                == Err::<(Program, Seq<Seq<char>>), Seq<char>>(message),
        },
{
}

/// A label names the way and not the node, and messages name the kind of source and not the source.
pub proof fn law_labels_do_not_depend_on_names(
    node: &'static str,
    spec: CaptureSpec,
    url: &str,
    transcode: RtspTranscode,
    pipeline: &str,
    launch: Launch,
)
    ensures
        transcode_label(RtspTranscode::Vaapi(node)) == "vaapi"@,
        transcode_label(RtspTranscode::V4l2m2m) == "v4l2m2m"@,
        transcode_label(RtspTranscode::Software) == "software"@,
        transcode_label(RtspTranscode::Copy) == "copy"@,
        source_name(MjpegSource::Device(&spec)) == "native capture"@,
        source_name(MjpegSource::Rtsp { url, transcode }) == "the RTSP MJPEG reader"@,
        source_name(MjpegSource::Gstreamer { pipeline }) == "the custom GStreamer pipeline"@,
        launch_view(launch) == (launch.program, text::strings(launch.args@)),
{
}

} // verus!
