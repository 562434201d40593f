//! The stream engine go2rtc: how a source is registered with it, which pipeline a source gets, and how a
//! WebRTC offer is exchanged with it.
//!
//! The caller sends the requests and hands over what came back.

use crate::http;
use crate::http::{local_url, status_is_success, write_status};
use crate::json;
use crate::json::{object_text, text_member};
use crate::text;
use crate::text::{chars_of, string_of, trim};
use vstd::prelude::*;

verus! {

/// The name of the single live stream.
pub const STREAM_NAME: &'static str = "kite";

/// How long a request of a stream's start may take, in seconds.
pub const START_TIMEOUT_SECS: u64 = 10;

/// How long the exchange of an offer may take, in seconds. The engine answers only once it has looked at the
/// source, which on a dead server is never.
pub const OFFER_TIMEOUT_SECS: u64 = 15;

/// How long the MJPEG endpoint gets to deliver its first bytes, in seconds. It covers the start of the
/// reader and its handshake with the source.
pub const COPY_PROBE_BUDGET_SECS: u64 = 4;

/// A request that registers a source. It replaces the one that was registered before.
#[derive(Debug)]
pub struct Registration {
    /// The address to put to.
    pub url: String,
    /// The `name` in the query.
    pub name: &'static str,
    /// The `src` in the query.
    pub src: String,
}

/// What came of a request.
#[derive(Debug)]
pub enum Reply {
    /// It could not be sent, or nothing came back.
    Failed(String),
    /// The engine answered with this status.
    Status(u16),
}

/// The engine answered with a status, if it answered.
pub open spec fn is_reply(reply: Reply) -> bool {
    match reply {
        Reply::Failed(_) => true,
        Reply::Status(code) => 100 <= code < 1000,
    }
}

/// What a registration came to.
pub open spec fn registration_result(reply: Reply) -> Result<(), Seq<char>> {
    match reply {
        Reply::Failed(e) => Err("go2rtc add-stream failed: "@ + e@),
        Reply::Status(code) => if http::is_success(code) {
            Ok(())
        } else {
            Err("go2rtc add-stream HTTP "@ + http::status_text(code))
        },
    }
}

/// The request that registers a source.
pub fn registration(port: u16, src: &str) -> (r: Registration)
    ensures
        r.url@ == http::local_address(port, "/api/streams"@),
        r.name@ == "kite"@,
        r.src@ == src@,
{
    Registration {
        url: local_url(port, "/api/streams"),
        name: STREAM_NAME,
        src: src.to_string(),
    }
}

/// Decides what a registration came to.
pub fn register_source(reply: Reply) -> (r: Result<(), String>)
    requires
        is_reply(reply),
    ensures
        match r {
            Ok(_) => registration_result(reply) == Ok::<(), Seq<char>>(()),
            Err(message) => registration_result(reply) == Err::<(), Seq<char>>(message@),
        },
        reply is Status && r is Err ==> ("go2rtc add-stream HTTP "@ + text::decimal(
            reply->Status_0 as nat,
        )).is_prefix_of(r->Err_0@),
{
    match reply {
        Reply::Failed(e) => {
            let mut message: String = "go2rtc add-stream failed: ".to_string();
            message.append(e.as_str());
            Err(message)
        },
        Reply::Status(code) => {
            if status_is_success(code) {
                Ok(())
            } else {
                let status: String = write_status(code);
                let mut message: String = "go2rtc add-stream HTTP ".to_string();
                message.append(status.as_str());
                proof {
                    let shown = text::decimal(code as nat);
                    assert(shown.is_prefix_of(shown + " "@));
                    assert(shown.is_prefix_of(status@));
                    assert(("go2rtc add-stream HTTP "@ + shown).is_prefix_of(message@));
                }
                Err(message)
            }
        },
    }
}

/// What has come of asking the MJPEG endpoint for pictures.
#[derive(Debug)]
pub enum EndpointEvent {
    /// The request could not be sent, or nothing came back.
    Failed,
    /// The engine answered with this status.
    Status(u16),
    /// The engine has sent these bytes.
    Chunk(Vec<u8>),
    /// No bytes came in time, the response ended, or reading it failed.
    Silent,
}

/// The address of the MJPEG endpoint.
pub fn mjpeg_endpoint(port: u16) -> (r: String)
    ensures
        r@ == http::local_address(port, "/api/stream.mjpeg?src=kite"@),
{
    local_url(port, "/api/stream.mjpeg?src=kite")
}

/// Whether the MJPEG endpoint delivers pictures, as far as it is known: a status alone does not say so, since
/// the engine answers a stream without MJPEG with a success and then with nothing.
pub open spec fn endpoint_delivers(event: EndpointEvent) -> Option<bool> {
    match event {
        EndpointEvent::Failed => Some(false),
        EndpointEvent::Status(code) => if http::is_success(code) {
            None
        } else {
            Some(false)
        },
        EndpointEvent::Chunk(bytes) => Some(bytes@.len() > 0),
        EndpointEvent::Silent => Some(false),
    }
}

/// Decides whether the MJPEG endpoint delivers pictures. Nothing is decided as long as its first bytes are
/// to be waited for.
pub fn mjpeg_endpoint_delivers(event: &EndpointEvent) -> (r: Option<bool>)
    ensures
        r == endpoint_delivers(*event),
{
    match event {
        EndpointEvent::Failed => Some(false),
        EndpointEvent::Status(code) => {
            if status_is_success(*code) {
                None
            } else {
                Some(false)
            }
        },
        EndpointEvent::Chunk(bytes) => Some(bytes.len() > 0),
        EndpointEvent::Silent => Some(false),
    }
}

/// The source that passes the video of an address through untouched.
pub open spec fn copy_source(url: Seq<char>) -> Seq<char> {
    "ffmpeg:"@ + url + "#input=rtsp/udp#video=copy"@
}

/// How far the start of a stream has come.
pub enum Stage {
    /// The V4L2 decoder is being looked for.
    V4l2,
    /// A VAAPI render node is being looked for.
    Vaapi,
    /// The engine is being started.
    Engine,
    /// The HTTP client is being made.
    Client,
    /// The source is being registered to be passed through.
    RegisterCopy,
    /// The MJPEG endpoint is being asked for pictures.
    Endpoint,
    /// The source is being registered.
    Register,
    /// The start is over: with the label of the pipeline that runs, or with the error.
    Finished(Result<Seq<char>, Seq<char>>),
}

/// The start of a stream.
#[verifier::ext_equal]
pub struct Plan {
    /// The address of the source.
    pub url: Seq<char>,
    /// Whether the source is to be read by ffmpeg.
    pub use_ffmpeg: bool,
    /// Whether the stream is consumed as MJPEG.
    pub mjpeg: bool,
    /// Whether a hardware decoder may be used.
    pub allow_hw: bool,
    /// Whether there is a V4L2 decoder.
    pub v4l2: bool,
    /// Whether there is a VAAPI render node.
    pub vaapi: bool,
    /// The port of the engine, once it runs.
    pub port: u16,
    /// How far the start has come.
    pub stage: Stage,
}

impl Plan {
    /// The stream is transcoded in hardware.
    pub open spec fn hardware(self) -> bool {
        self.mjpeg && self.allow_hw && (self.v4l2 || self.vaapi)
    }

    /// The source that is registered where it is not passed through.
    pub open spec fn source(self) -> Seq<char> {
        if self.hardware() {
            if self.vaapi {
                "ffmpeg:"@ + self.url + "#input=kite_hw_input#video=kite_hw_mjpeg"@
            } else {
                "ffmpeg:"@ + self.url + "#input=kite_hw_input#video=mjpeg"@
            }
        } else if self.mjpeg {
            "ffmpeg:"@ + self.url + "#input=rtsp/udp#video=mjpeg"@
        } else if self.use_ffmpeg {
            copy_source(self.url)
        } else {
            self.url
        }
    }

    /// The label of the pipeline that runs for that source.
    pub open spec fn label(self) -> Seq<char> {
        if !self.mjpeg {
            "none"@
        } else if !self.hardware() {
            "software"@
        } else if self.vaapi {
            "vaapi"@
        } else {
            "v4l2m2m"@
        }
    }

    /// The start goes on at a stage.
    pub open spec fn at(self, stage: Stage) -> Plan {
        Plan { stage, ..self }
    }

    /// The start is over, with an error.
    pub open spec fn failed(self, message: Seq<char>) -> Plan {
        self.at(Stage::Finished(Err(message)))
    }

    /// The start is over, with a label.
    pub open spec fn running(self, label: Seq<char>) -> Plan {
        self.at(Stage::Finished(Ok(label)))
    }

    /// Something has happened. What cannot happen at this stage changes nothing.
    pub open spec fn after(self, event: StreamEvent) -> Plan {
        match (self.stage, event) {
            (Stage::V4l2, StreamEvent::V4l2(found)) => if found {
                Plan { v4l2: true, ..self }.at(Stage::Engine)
            } else {
                self.at(Stage::Vaapi)
            },
            (Stage::Vaapi, StreamEvent::Vaapi(found)) => Plan { vaapi: found, ..self }.at(
                Stage::Engine,
            ),
            (Stage::V4l2, StreamEvent::ProbesLost) => self.at(Stage::Engine),
            (Stage::Vaapi, StreamEvent::ProbesLost) => self.at(Stage::Engine),
            (Stage::Engine, StreamEvent::Engine(Ok(port))) => Plan { port, ..self }.at(
                Stage::Client,
            ),
            (Stage::Engine, StreamEvent::Engine(Err(e))) => self.failed(e@),
            (Stage::Client, StreamEvent::Client(Ok(_))) => if self.mjpeg {
                self.at(Stage::RegisterCopy)
            } else {
                self.at(Stage::Register)
            },
            (Stage::Client, StreamEvent::Client(Err(e))) => self.failed(
                "HTTP client error: "@ + e@,
            ),
            (Stage::RegisterCopy, StreamEvent::Registered(reply)) => match registration_result(
                reply,
            ) {
                Ok(_) => self.at(Stage::Endpoint),
                Err(message) => self.failed(message),
            },
            (Stage::Endpoint, StreamEvent::Endpoint(delivers)) => if delivers {
                self.running("copy"@)
            } else {
                self.at(Stage::Register)
            },
            (Stage::Register, StreamEvent::Registered(reply)) => match registration_result(reply) {
                Ok(_) => self.running(self.label()),
                Err(message) => self.failed(message),
            },
            _ => self,
        }
    }

    /// All of this has happened.
    pub open spec fn after_all(self, events: Seq<StreamEvent>) -> Plan
        decreases events.len(),
    {
        if events.len() == 0 {
            self
        } else {
            self.after_all(events.drop_last()).after(events.last())
        }
    }

    /// What happened is what was asked for at this stage.
    pub open spec fn expects(self, event: StreamEvent) -> bool {
        match (self.stage, event) {
            (Stage::V4l2, StreamEvent::V4l2(_)) => true,
            (Stage::V4l2, StreamEvent::ProbesLost) => true,
            (Stage::Vaapi, StreamEvent::Vaapi(_)) => true,
            (Stage::Vaapi, StreamEvent::ProbesLost) => true,
            (Stage::Engine, StreamEvent::Engine(_)) => true,
            (Stage::Client, StreamEvent::Client(_)) => true,
            (Stage::RegisterCopy, StreamEvent::Registered(reply)) => is_reply(reply),
            (Stage::Endpoint, StreamEvent::Endpoint(_)) => true,
            (Stage::Register, StreamEvent::Registered(reply)) => is_reply(reply),
            _ => false,
        }
    }

    /// The step asks for what this stage needs.
    pub open spec fn asks(self, step: StreamStep) -> bool {
        match self.stage {
            Stage::V4l2 => step is ProbeV4l2,
            Stage::Vaapi => step is ProbeVaapi,
            Stage::Engine => step is EnsureRunning,
            Stage::Client => step is MakeClient,
            Stage::RegisterCopy => step is Register && registers(
                step->Register_0,
                self.port,
                copy_source(self.url),
            ),
            Stage::Endpoint => step is AskEndpoint && step->AskEndpoint_0@ == http::local_address(
                self.port,
                "/api/stream.mjpeg?src=kite"@,
            ),
            Stage::Register => step is Register && registers(
                step->Register_0,
                self.port,
                self.source(),
            ),
            Stage::Finished(result) => step is Finished && label_view(step->Finished_0) == result,
        }
    }
}

/// The request registers this source with the engine on this port.
pub open spec fn registers(request: Registration, port: u16, src: Seq<char>) -> bool {
    &&& request.url@ == http::local_address(port, "/api/streams"@)
    &&& request.name@ == "kite"@
    &&& request.src@ == src
}

/// The texts in a result.
pub open spec fn label_view(result: Result<&'static str, String>) -> Result<Seq<char>, Seq<char>> {
    match result {
        Ok(label) => Ok(label@),
        Err(message) => Err(message@),
    }
}

/// What has happened to the start of a stream.
#[derive(Debug)]
pub enum StreamEvent {
    /// Whether there is a V4L2 decoder.
    V4l2(bool),
    /// Whether there is a VAAPI render node.
    Vaapi(bool),
    /// Looking for hardware came to nothing.
    ProbesLost,
    /// The engine runs on a port, or does not run.
    Engine(Result<u16, String>),
    /// The HTTP client was made, or not.
    Client(Result<(), String>),
    /// The engine was asked to register the source.
    Registered(Reply),
    /// Whether the MJPEG endpoint delivers pictures.
    Endpoint(bool),
}

/// What to do next for the start of a stream.
#[derive(Debug)]
pub enum StreamStep {
    /// Look for a V4L2 decoder.
    ProbeV4l2,
    /// Look for a VAAPI render node.
    ProbeVaapi,
    /// Make sure that the engine runs.
    EnsureRunning,
    /// Make an HTTP client.
    MakeClient,
    /// Register a source.
    Register(Registration),
    /// Ask the MJPEG endpoint at this address for pictures.
    AskEndpoint(String),
    /// The start is over: with the label of the pipeline that runs, or with the error.
    Finished(Result<&'static str, String>),
}

#[derive(Clone, Copy, PartialEq, Eq, Debug, Structural)]
enum Phase {
    V4l2,
    Vaapi,
    Engine,
    Client,
    RegisterCopy,
    Endpoint,
    Register,
    Finished,
}

/// A start of a stream that is under way.
#[derive(Debug)]
pub struct StreamStart {
    url: String,
    use_ffmpeg: bool,
    mjpeg: bool,
    allow_hw: bool,
    v4l2: bool,
    vaapi: bool,
    port: u16,
    phase: Phase,
    result: Result<&'static str, String>,
}

impl View for StreamStart {
    type V = Plan;

    closed spec fn view(&self) -> Plan {
        Plan {
            url: self.url@,
            use_ffmpeg: self.use_ffmpeg,
            mjpeg: self.mjpeg,
            allow_hw: self.allow_hw,
            v4l2: self.v4l2,
            vaapi: self.vaapi,
            port: self.port,
            stage: match self.phase {
                Phase::V4l2 => Stage::V4l2,
                Phase::Vaapi => Stage::Vaapi,
                Phase::Engine => Stage::Engine,
                Phase::Client => Stage::Client,
                Phase::RegisterCopy => Stage::RegisterCopy,
                Phase::Endpoint => Stage::Endpoint,
                Phase::Register => Stage::Register,
                Phase::Finished => Stage::Finished(label_view(self.result)),
            },
        }
    }
}

/// The start of a stream, before anything has been done for it.
pub open spec fn fresh_plan(
    url: Seq<char>,
    use_ffmpeg: bool,
    mjpeg: bool,
    allow_hw_decode: Option<bool>,
) -> Plan {
    Plan {
        url,
        use_ffmpeg,
        mjpeg,
        allow_hw: allow_hw_decode != Some(false),
        v4l2: false,
        vaapi: false,
        port: 0,
        stage: Stage::V4l2,
    }
}

/// Begins to start the stream of an address. The hardware is looked for first. A hardware decoder is used
/// only for a stream that is consumed as MJPEG, and only where the caller does not rule it out.
pub fn video_webrtc_start(
    url: String,
    use_ffmpeg: bool,
    mjpeg: bool,
    allow_hw_decode: Option<bool>,
) -> (r: (StreamStep, StreamStart))
    ensures
        r.1@ == fresh_plan(url@, use_ffmpeg, mjpeg, allow_hw_decode),
        r.1@.asks(r.0),
{
    let allow_hw: bool = match allow_hw_decode {
        Some(allow) => allow,
        None => true,
    };
    let start: StreamStart = StreamStart {
        url,
        use_ffmpeg,
        mjpeg,
        allow_hw,
        v4l2: false,
        vaapi: false,
        port: 0,
        phase: Phase::V4l2,
        result: Ok("none"),
    };
    (StreamStep::ProbeV4l2, start)
}

/// A source for the engine's ffmpeg reader.
fn ffmpeg_source(url: &str, options: &str) -> (r: String)
    ensures
        r@ == "ffmpeg:"@ + url@ + options@,
{
    let mut src: String = "ffmpeg:".to_string();
    src.append(url);
    src.append(options);
    src
}

impl StreamStart {
    fn hardware(&self) -> (r: bool)
        ensures
            r == self@.hardware(),
    {
        self.mjpeg && self.allow_hw && (self.v4l2 || self.vaapi)
    }

    fn source(&self) -> (r: String)
        ensures
            r@ == self@.source(),
    {
        if self.hardware() {
            if self.vaapi {
                ffmpeg_source(self.url.as_str(), "#input=kite_hw_input#video=kite_hw_mjpeg")
            } else {
                ffmpeg_source(self.url.as_str(), "#input=kite_hw_input#video=mjpeg")
            }
        } else if self.mjpeg {
            ffmpeg_source(self.url.as_str(), "#input=rtsp/udp#video=mjpeg")
        } else if self.use_ffmpeg {
            ffmpeg_source(self.url.as_str(), "#input=rtsp/udp#video=copy")
        } else {
            self.url.clone()
        }
    }

    fn label(&self) -> (r: &'static str)
        ensures
            r@ == self@.label(),
    {
        if !self.mjpeg {
            "none"
        } else if !self.hardware() {
            "software"
        } else if self.vaapi {
            "vaapi"
        } else {
            "v4l2m2m"
        }
    }

    fn fail(&mut self, message: String) -> (r: StreamStep)
        ensures
            final(self)@ == old(self)@.failed(message@),
            final(self)@.asks(r),
    {
        self.phase = Phase::Finished;
        self.result = Err(message.clone());
        StreamStep::Finished(Err(message))
    }

    fn succeed(&mut self, label: &'static str) -> (r: StreamStep)
        ensures
            final(self)@ == old(self)@.running(label@),
            final(self)@.asks(r),
    {
        self.phase = Phase::Finished;
        self.result = Ok(label);
        StreamStep::Finished(Ok(label))
    }

    fn ask(&mut self, phase: Phase) -> (r: StreamStep)
        requires
            phase != Phase::Finished,
        ensures
            final(self)@ == old(self)@.at(final(self)@.stage),
            final(self)@.asks(r),
            phase == Phase::Vaapi ==> final(self)@.stage is Vaapi,
            phase == Phase::Engine ==> final(self)@.stage is Engine,
            phase == Phase::Client ==> final(self)@.stage is Client,
            phase == Phase::RegisterCopy ==> final(self)@.stage is RegisterCopy,
            phase == Phase::Endpoint ==> final(self)@.stage is Endpoint,
            phase == Phase::Register ==> final(self)@.stage is Register,
    {
        self.phase = phase;
        match phase {
            Phase::V4l2 => StreamStep::ProbeV4l2,
            Phase::Vaapi => StreamStep::ProbeVaapi,
            Phase::Engine => StreamStep::EnsureRunning,
            Phase::Client => StreamStep::MakeClient,
            Phase::RegisterCopy => {
                let src: String = ffmpeg_source(self.url.as_str(), "#input=rtsp/udp#video=copy");
                StreamStep::Register(registration(self.port, src.as_str()))
            },
            Phase::Endpoint => StreamStep::AskEndpoint(mjpeg_endpoint(self.port)),
            _ => {
                let src: String = self.source();
                StreamStep::Register(registration(self.port, src.as_str()))
            },
        }
    }

    /// Takes in what has happened. Returns what to do next.
    pub fn next(&mut self, event: StreamEvent) -> (r: StreamStep)
        requires
            old(self)@.expects(event),
        ensures
            final(self)@ == old(self)@.after(event),
            final(self)@.asks(r),
    {
        match event {
            StreamEvent::V4l2(found) => {
                if found {
                    self.v4l2 = true;
                    self.ask(Phase::Engine)
                } else {
                    self.ask(Phase::Vaapi)
                }
            },
            StreamEvent::Vaapi(found) => {
                self.vaapi = found;
                self.ask(Phase::Engine)
            },
            StreamEvent::ProbesLost => self.ask(Phase::Engine),
            StreamEvent::Engine(Ok(port)) => {
                self.port = port;
                self.ask(Phase::Client)
            },
            StreamEvent::Engine(Err(e)) => self.fail(e),
            StreamEvent::Client(Ok(_)) => {
                if self.mjpeg {
                    self.ask(Phase::RegisterCopy)
                } else {
                    self.ask(Phase::Register)
                }
            },
            StreamEvent::Client(Err(e)) => {
                let message: String = client_error(e.as_str());
                self.fail(message)
            },
            StreamEvent::Registered(reply) => {
                match register_source(reply) {
                    Err(message) => self.fail(message),
                    Ok(_) => {
                        if self.phase == Phase::RegisterCopy {
                            self.ask(Phase::Endpoint)
                        } else {
                            let label: &'static str = self.label();
                            self.succeed(label)
                        }
                    },
                }
            },
            StreamEvent::Endpoint(delivers) => {
                if delivers {
                    self.succeed("copy")
                } else {
                    self.ask(Phase::Register)
                }
            },
        }
    }
}

/// What is reported where no HTTP client could be made.
pub fn client_error(e: &str) -> (r: String)
    ensures
        r@ == "HTTP client error: "@ + e@,
{
    let mut message: String = "HTTP client error: ".to_string();
    message.append(e);
    message
}

/// A request that exchanges an offer.
#[derive(Debug)]
pub struct Offer {
    /// The address to post to.
    pub url: String,
    /// The `src` in the query.
    pub src: &'static str,
    /// The JSON to post.
    pub body: String,
}

/// What came of exchanging an offer.
#[derive(Debug)]
pub enum OfferReply {
    /// It could not be sent, or nothing came back.
    Failed(String),
    /// The engine answered with this status and this body.
    Answered(u16, String),
}

/// The request that exchanges a browser's offer with the engine on this port, if it runs.
pub fn video_webrtc_offer(sdp: &str, port: Option<u16>) -> (r: Result<Offer, String>)
    ensures
        port is None <==> r is Err,
        r is Err ==> r->Err_0@ == "go2rtc is not running — start the stream first"@,
        r is Ok ==> r->Ok_0.url@ == http::local_address(port->0, "/api/webrtc"@),
        r is Ok ==> r->Ok_0.src@ == "kite"@,
        r is Ok ==> r->Ok_0.body@ == json::json_object_text("type"@, "offer"@, "sdp"@, sdp@),
        r is Ok ==> json::holds_text(r->Ok_0.body@, "type"@, "offer"@),
        r is Ok ==> json::holds_text(r->Ok_0.body@, "sdp"@, sdp@),
{
    match port {
        None => Err("go2rtc is not running — start the stream first".to_string()),
        Some(port) => {
            proof {
                reveal_strlit("type");
                reveal_strlit("sdp");
                assert("type"@.len() != "sdp"@.len());
            }
            Ok(
                Offer {
                    url: local_url(port, "/api/webrtc"),
                    src: STREAM_NAME,
                    body: object_text("type", "offer", "sdp", sdp),
                },
            )
        },
    }
}

/// What the body of a successful answer comes to, by what is under `sdp` in it.
pub open spec fn answer_result(
    member: Result<Option<Seq<char>>, Seq<char>>,
    body: Seq<char>,
) -> Result<Seq<char>, Seq<char>> {
    match member {
        Ok(Some(sdp)) => Ok(sdp),
        Ok(None) => Err("go2rtc answer has no SDP"@),
        Err(e) => Err("go2rtc answer parse failed: "@ + e + " (body: "@ + body + ")"@),
    }
}

/// What an exchange of an offer comes to.
pub open spec fn offer_result(reply: OfferReply) -> Result<Seq<char>, Seq<char>> {
    match reply {
        OfferReply::Failed(e) => Err("go2rtc WebRTC offer failed: "@ + e@),
        OfferReply::Answered(code, body) => if http::is_success(code) {
            answer_result(json::json_text_member(body@, "sdp"@), body@)
        } else {
            Err(
                "go2rtc WebRTC offer HTTP "@ + http::status_text(code) + ": "@ + text::trimmed(
                    body@,
                ),
            )
        },
    }
}

/// The texts in a result.
pub open spec fn sdp_view(result: Result<String, String>) -> Result<Seq<char>, Seq<char>> {
    match result {
        Ok(sdp) => Ok(sdp@),
        Err(message) => Err(message@),
    }
}

/// Decides what the body of a successful answer comes to, by what is under `sdp` in it.
pub fn read_answer(member: Result<Option<String>, String>, body: &str) -> (r: Result<
    String,
    String,
>)
    ensures
        sdp_view(r) == answer_result(json::member_view(member), body@),
{
    match member {
        Ok(Some(sdp)) => Ok(sdp),
        Ok(None) => Err("go2rtc answer has no SDP".to_string()),
        Err(e) => {
            let mut message: String = "go2rtc answer parse failed: ".to_string();
            message.append(e.as_str());
            message.append(" (body: ");
            message.append(body);
            message.append(")");
            Err(message)
        },
    }
}

/// Decides what an exchange of an offer comes to: the engine's answer, or the error.
pub fn offer_answer(reply: OfferReply) -> (r: Result<String, String>)
    requires
        reply is Answered ==> 100 <= reply->Answered_0 < 1000,
    ensures
        sdp_view(r) == offer_result(reply),
{
    match reply {
        OfferReply::Failed(e) => {
            let mut message: String = "go2rtc WebRTC offer failed: ".to_string();
            message.append(e.as_str());
            Err(message)
        },
        OfferReply::Answered(code, body) => {
            if status_is_success(code) {
                read_answer(text_member(body.as_str(), "sdp"), body.as_str())
            } else {
                let chars: Vec<char> = chars_of(body.as_str());
                let mut message: String = "go2rtc WebRTC offer HTTP ".to_string();
                message.append(write_status(code).as_str());
                message.append(": ");
                message.append(string_of(trim(chars.as_slice())).as_str());
                Err(message)
            }
        },
    }
}

/// An answer that holds a session description is handed back as it is.
pub proof fn law_answer_is_handed_back(code: u16, body: String, sdp: Seq<char>)
    requires
        http::is_success(code),
        json::holds_text(body@, "sdp"@, sdp),
    ensures
        offer_result(OfferReply::Answered(code, body)) == Ok::<Seq<char>, Seq<char>>(sdp),
{
}

/// The V4L2 decoder is looked for first, and a VAAPI render node only where there is none: the two never
/// come together.
pub proof fn law_one_hardware_path_at_most(
    url: Seq<char>,
    use_ffmpeg: bool,
    mjpeg: bool,
    allow_hw_decode: Option<bool>,
    events: Seq<StreamEvent>,
)
    ensures
        ({
            let plan = fresh_plan(url, use_ffmpeg, mjpeg, allow_hw_decode).after_all(events);
            &&& !(plan.v4l2 && plan.vaapi)
            &&& plan.stage is V4l2 || plan.stage is Vaapi ==> !plan.v4l2 && !plan.vaapi
        }),
    decreases events.len(),
{
    if events.len() > 0 {
        law_one_hardware_path_at_most(url, use_ffmpeg, mjpeg, allow_hw_decode, events.drop_last());
    }
}

/// What was asked for does not change while a stream is started.
pub proof fn law_request_stays(plan: Plan, events: Seq<StreamEvent>)
    ensures
        plan.after_all(events).url == plan.url,
        plan.after_all(events).use_ffmpeg == plan.use_ffmpeg,
        plan.after_all(events).mjpeg == plan.mjpeg,
        plan.after_all(events).allow_hw == plan.allow_hw,
    decreases events.len(),
{
    if events.len() > 0 {
        law_request_stays(plan, events.drop_last());
    }
}

/// The engine accepted a source.
pub open spec fn accepts(event: StreamEvent) -> bool {
    event is Registered && registration_result(event->Registered_0) is Ok
}

/// The label names the pipeline that runs, not what the machine could do: it is `copy` only where the
/// endpoint delivered what was registered to be passed through, and otherwise the label of the source that
/// the engine accepted last.
pub proof fn law_label_names_the_running_pipeline(
    url: Seq<char>,
    use_ffmpeg: bool,
    mjpeg: bool,
    allow_hw_decode: Option<bool>,
    events: Seq<StreamEvent>,
    label: Seq<char>,
)
    requires
        ({
            let plan = fresh_plan(url, use_ffmpeg, mjpeg, allow_hw_decode).after_all(events);
            plan.stage == Stage::Finished(Ok::<Seq<char>, Seq<char>>(label))
        }),
    ensures
        exists|n: int|
            0 <= n < events.len() && ({
                let before = #[trigger] fresh_plan(
                    url,
                    use_ffmpeg,
                    mjpeg,
                    allow_hw_decode,
                ).after_all(events.take(n));
                ||| before.stage is Endpoint && events[n] == StreamEvent::Endpoint(true) && mjpeg
                    && label == "copy"@
                ||| before.stage is Register && accepts(events[n]) && label == before.label()
            }),
    decreases events.len(),
{
    let fresh = fresh_plan(url, use_ffmpeg, mjpeg, allow_hw_decode);
    assert(events.len() > 0);
    let n = events.len() - 1;
    assert(events.take(n) =~= events.drop_last());
    let before = fresh.after_all(events.take(n));
    if before.stage is Finished {
        law_label_names_the_running_pipeline(
            url,
            use_ffmpeg,
            mjpeg,
            allow_hw_decode,
            events.drop_last(),
            label,
        );
        let earlier = events.drop_last();
        let m = choose|m: int|
            0 <= m < earlier.len() && ({
                let before = #[trigger] fresh.after_all(earlier.take(m));
                ||| before.stage is Endpoint && earlier[m] == StreamEvent::Endpoint(true) && mjpeg
                    && label == "copy"@
                ||| before.stage is Register && accepts(earlier[m]) && label == before.label()
            });
        assert(earlier.take(m) =~= events.take(m));
        assert(earlier[m] == events[m]);
    } else {
        lemma_endpoint_is_asked_for_mjpeg(fresh, events.take(n));
        assert(events[n] == events.last());
    }
}

/// The endpoint is asked, and a source is registered to be passed through, only for MJPEG.
proof fn lemma_endpoint_is_asked_for_mjpeg(fresh: Plan, events: Seq<StreamEvent>)
    requires
        fresh.stage is V4l2,
    ensures
        ({
            let plan = fresh.after_all(events);
            plan.stage is Endpoint || plan.stage is RegisterCopy ==> fresh.mjpeg
        }),
    decreases events.len(),
{
    if events.len() > 0 {
        lemma_endpoint_is_asked_for_mjpeg(fresh, events.drop_last());
        law_request_stays(fresh, events.drop_last());
    }
}

/// A stream that is consumed as MJPEG is tried without a transcode first: the source is registered with one
/// only after the endpoint did not deliver.
pub proof fn law_copy_is_tried_first(
    url: Seq<char>,
    use_ffmpeg: bool,
    allow_hw_decode: Option<bool>,
    events: Seq<StreamEvent>,
)
    requires
        fresh_plan(url, use_ffmpeg, true, allow_hw_decode).after_all(events).stage is Register,
    ensures
        exists|n: int|
            0 <= n < events.len() && #[trigger] events[n] == StreamEvent::Endpoint(false),
    decreases events.len(),
{
    let fresh = fresh_plan(url, use_ffmpeg, true, allow_hw_decode);
    assert(events.len() > 0);
    let earlier = events.drop_last();
    law_request_stays(fresh, earlier);
    if fresh.after_all(earlier).stage is Register {
        law_copy_is_tried_first(url, use_ffmpeg, allow_hw_decode, earlier);
        let n = choose|n: int|
            0 <= n < earlier.len() && #[trigger] earlier[n] == StreamEvent::Endpoint(false);
        assert(events[n] == StreamEvent::Endpoint(false));
    } else {
        assert(events[events.len() - 1] == StreamEvent::Endpoint(false));
    }
}

/// A caller that rules out the hardware decoder gets none, whatever the machine has.
pub proof fn law_veto_holds(
    url: Seq<char>,
    use_ffmpeg: bool,
    events: Seq<StreamEvent>,
)
    ensures
        ({
            let plan = fresh_plan(url, use_ffmpeg, true, Some(false)).after_all(events);
            &&& plan.source() == "ffmpeg:"@ + url + "#input=rtsp/udp#video=mjpeg"@
            &&& plan.label() == "software"@
        }),
{
    law_request_stays(fresh_plan(url, use_ffmpeg, true, Some(false)), events);
}

/// No space comes into a source that is registered: the engine refuses sources with spaces in them.
pub proof fn law_sources_get_no_spaces(plan: Plan)
    requires
        !plan.url.contains(' '),
    ensures
        !plan.source().contains(' '),
        !copy_source(plan.url).contains(' '),
{
    reveal_strlit("ffmpeg:");
    reveal_strlit("#input=kite_hw_input#video=kite_hw_mjpeg");
    reveal_strlit("#input=kite_hw_input#video=mjpeg");
    reveal_strlit("#input=rtsp/udp#video=mjpeg");
    reveal_strlit("#input=rtsp/udp#video=copy");
    lemma_no_space(plan.url, "#input=kite_hw_input#video=kite_hw_mjpeg"@);
    lemma_no_space(plan.url, "#input=kite_hw_input#video=mjpeg"@);
    lemma_no_space(plan.url, "#input=rtsp/udp#video=mjpeg"@);
    lemma_no_space(plan.url, "#input=rtsp/udp#video=copy"@);
}

proof fn lemma_no_space(url: Seq<char>, options: Seq<char>)
    requires
        !url.contains(' '),
        !options.contains(' '),
    ensures
        !("ffmpeg:"@ + url + options).contains(' '),
{
    reveal_strlit("ffmpeg:");
    let head = "ffmpeg:"@;
    let all = head + url + options;
    if all.contains(' ') {
        let i = choose|i: int| 0 <= i < all.len() && all[i] == ' ';
        if i < head.len() {
            assert(all[i] == head[i]);
        } else if i < head.len() + url.len() {
            assert(all[i] == url[i - head.len()]);
        } else {
            assert(all[i] == options[i - head.len() - url.len()]);
        }
    }
}

/// A stream that is not consumed as MJPEG is not transcoded: its source is the address itself, or the
/// address read by ffmpeg and passed through.
pub proof fn law_webrtc_is_never_transcoded(plan: Plan)
    requires
        !plan.mjpeg,
    ensures
        plan.source() == if plan.use_ffmpeg {
            copy_source(plan.url)
        } else {
            plan.url
        },
        plan.label() == "none"@,
{
}

/// A stream that is consumed as MJPEG is read by ffmpeg, whether it is passed through or transcoded: the
/// engine's own reader fails on servers that speak only one transport.
pub proof fn law_mjpeg_is_read_by_ffmpeg(plan: Plan)
    requires
        plan.mjpeg,
    ensures
        "ffmpeg:"@.is_prefix_of(plan.source()),
        "ffmpeg:"@.is_prefix_of(copy_source(plan.url)),
{
    let head = "ffmpeg:"@;
    assert(plan.source().take(head.len() as int) =~= head);
    assert(copy_source(plan.url).take(head.len() as int) =~= head);
}

/// A success without bytes is no delivery.
pub proof fn law_status_is_no_delivery(code: u16)
    ensures
        endpoint_delivers(EndpointEvent::Status(code)) != Some(true),
        endpoint_delivers(EndpointEvent::Silent) == Some(false),
{
}

/// A registration has come to something exactly where the engine answered with a success, whatever it says
/// besides; any other status, and any failure, is handed on.
pub proof fn law_registered_where_the_engine_says_so(code: u16, e: String)
    ensures
        200 <= code <= 299 ==> registration_result(Reply::Status(code)) == Ok::<(), Seq<char>>(()),
        code < 200 || code > 299 ==> registration_result(Reply::Status(code)) == Err::<(), Seq<char>>(
            "go2rtc add-stream HTTP "@ + http::status_text(code),
        ),
        registration_result(Reply::Failed(e)) == Err::<(), Seq<char>>(
            "go2rtc add-stream failed: "@ + e@,
        ),
{
}

/// The endpoint delivers exactly where bytes come, however few; where the status is a success they are waited
/// for, and in every other case it does not deliver.
pub proof fn law_bytes_are_the_delivery(code: u16, bytes: Vec<u8>)
    ensures
        bytes@.len() >= 1 ==> endpoint_delivers(EndpointEvent::Chunk(bytes)) == Some(true),
        bytes@.len() == 0 ==> endpoint_delivers(EndpointEvent::Chunk(bytes)) == Some(false),
        200 <= code <= 299 ==> endpoint_delivers(EndpointEvent::Status(code)) is None,
        code < 200 || code > 299 ==> endpoint_delivers(EndpointEvent::Status(code)) == Some(false),
        endpoint_delivers(EndpointEvent::Failed) == Some(false),
        endpoint_delivers(EndpointEvent::Silent) == Some(false),
{
}

/// Every pipeline is named after what it does, and its source says the same: for MJPEG, VAAPI where there is
/// a render node, the V4L2 decoder where there is that alone, and software where there is neither or the
/// caller rules hardware out. The address stands in the source as it is.
pub proof fn law_source_says_what_the_label_says(plan: Plan)
    ensures
        plan.mjpeg && plan.allow_hw && plan.vaapi ==> plan.label() == "vaapi"@ && plan.source()
            == "ffmpeg:"@ + plan.url + "#input=kite_hw_input#video=kite_hw_mjpeg"@,
        plan.mjpeg && plan.allow_hw && plan.v4l2 && !plan.vaapi ==> plan.label() == "v4l2m2m"@
            && plan.source() == "ffmpeg:"@ + plan.url + "#input=kite_hw_input#video=mjpeg"@,
        plan.mjpeg && !(plan.allow_hw && (plan.v4l2 || plan.vaapi)) ==> plan.label() == "software"@
            && plan.source() == "ffmpeg:"@ + plan.url + "#input=rtsp/udp#video=mjpeg"@,
        !plan.mjpeg && plan.use_ffmpeg ==> plan.label() == "none"@ && plan.source() == "ffmpeg:"@
            + plan.url + "#input=rtsp/udp#video=copy"@,
        !plan.mjpeg && !plan.use_ffmpeg ==> plan.label() == "none"@ && plan.source() == plan.url,
        copy_source(plan.url) == "ffmpeg:"@ + plan.url + "#input=rtsp/udp#video=copy"@,
{
}

/// A start begins with what was asked for and nothing found; hardware is ruled out exactly where the caller
/// says so.
pub proof fn law_start_begins_as_asked(
    url: Seq<char>,
    use_ffmpeg: bool,
    mjpeg: bool,
    allow_hw_decode: Option<bool>,
)
    ensures
        ({
            let plan = fresh_plan(url, use_ffmpeg, mjpeg, allow_hw_decode);
            &&& plan.url == url
            &&& plan.use_ffmpeg == use_ffmpeg
            &&& plan.mjpeg == mjpeg
            &&& plan.allow_hw == !(allow_hw_decode is Some && !allow_hw_decode->0)
            &&& !plan.v4l2
            &&& !plan.vaapi
            &&& plan.stage == Stage::V4l2
        }),
{
}

/// The hardware that is found is what the start goes on with, and looking for it never ends the start: a
/// V4L2 decoder settles it, otherwise a render node does, and where looking came to nothing none is used.
pub proof fn law_start_goes_on_with_what_was_found(
    url: Seq<char>,
    use_ffmpeg: bool,
    mjpeg: bool,
    allow_hw_decode: Option<bool>,
    found: bool,
)
    ensures
        ({
            let fresh = fresh_plan(url, use_ffmpeg, mjpeg, allow_hw_decode);
            let engine = Plan { stage: Stage::Engine, ..fresh };
            &&& fresh.after(StreamEvent::V4l2(true)) == Plan { v4l2: true, ..engine }
            &&& fresh.after(StreamEvent::V4l2(false)) == Plan { stage: Stage::Vaapi, ..fresh }
            &&& fresh.after(StreamEvent::V4l2(false)).after(StreamEvent::Vaapi(found)) == Plan {
                vaapi: found,
                ..engine
            }
            &&& fresh.after(StreamEvent::ProbesLost) == engine
            &&& fresh.after(StreamEvent::V4l2(false)).after(StreamEvent::ProbesLost) == engine
        }),
{
}

/// Once the hardware is known, the start asks for the engine, then for a client, and keeps the engine's port;
/// a stream that is consumed as MJPEG is then passed through first, and any other is registered at once.
pub proof fn law_start_gets_its_engine(plan: Plan, port: u16, e: String)
    requires
        plan.stage == Stage::Engine,
    ensures
        plan.after(StreamEvent::Engine(Ok(port))) == (Plan { port, stage: Stage::Client, ..plan }),
        plan.after(StreamEvent::Engine(Ok(port))).after(StreamEvent::Client(Ok(()))) == (Plan {
            port,
            stage: if plan.mjpeg {
                Stage::RegisterCopy
            } else {
                Stage::Register
            },
            ..plan
        }),
        plan.after(StreamEvent::Engine(Err(e))).stage == Stage::Finished(
            Err::<Seq<char>, Seq<char>>(e@),
        ),
        plan.after(StreamEvent::Engine(Ok(port))).after(StreamEvent::Client(Err(e))).stage
            == Stage::Finished(Err::<Seq<char>, Seq<char>>("HTTP client error: "@ + e@)),
{
}

/// A stream that is passed through runs as `copy` where the endpoint delivers it; where it does not, the
/// source is registered again with its transcode and runs under that label. Any status that is no success,
/// and any failure, ends the start with its message.
pub proof fn law_start_ends_with_what_runs(plan: Plan, ok: u16, other: u16, e: String)
    requires
        200 <= ok <= 299,
        other < 200 || other > 299,
    ensures
        ({
            let copying = Plan { stage: Stage::RegisterCopy, ..plan };
            let asking = Plan { stage: Stage::Endpoint, ..plan };
            let registering = Plan { stage: Stage::Register, ..plan };
            &&& copying.after(StreamEvent::Registered(Reply::Status(ok))) == asking
            &&& asking.after(StreamEvent::Endpoint(true)).stage == Stage::Finished(
                Ok::<Seq<char>, Seq<char>>("copy"@),
            )
            &&& asking.after(StreamEvent::Endpoint(false)) == registering
            &&& registering.after(StreamEvent::Registered(Reply::Status(ok))).stage == Stage::Finished(
                Ok::<Seq<char>, Seq<char>>(plan.label()),
            )
            &&& copying.after(StreamEvent::Registered(Reply::Status(other))).stage == Stage::Finished(
                Err::<Seq<char>, Seq<char>>("go2rtc add-stream HTTP "@ + http::status_text(other)),
            )
            &&& registering.after(StreamEvent::Registered(Reply::Status(other))).stage
                == Stage::Finished(
                Err::<Seq<char>, Seq<char>>("go2rtc add-stream HTTP "@ + http::status_text(other)),
            )
            &&& copying.after(StreamEvent::Registered(Reply::Failed(e))).stage == Stage::Finished(
                Err::<Seq<char>, Seq<char>>("go2rtc add-stream failed: "@ + e@),
            )
            &&& registering.after(StreamEvent::Registered(Reply::Failed(e))).stage == Stage::Finished(
                Err::<Seq<char>, Seq<char>>("go2rtc add-stream failed: "@ + e@),
            )
        }),
{
}

/// What a start asks for is what its stage needs: the source is registered under `kite` with the engine on
/// its port, first as the copy and then as what is to run, and the pictures are asked for under that name.
pub proof fn law_start_asks_for_what_it_needs(plan: Plan, step: StreamStep)
    requires
        plan.asks(step),
    ensures
        plan.stage is V4l2 ==> step is ProbeV4l2,
        plan.stage is Vaapi ==> step is ProbeVaapi,
        plan.stage is Engine ==> step is EnsureRunning,
        plan.stage is Client ==> step is MakeClient,
        plan.stage is RegisterCopy || plan.stage is Register ==> step is Register
            && step->Register_0.url@ == "http://127.0.0.1:"@ + text::decimal(plan.port as nat)
            + "/api/streams"@ && step->Register_0.name@ == "kite"@,
        plan.stage is RegisterCopy ==> step->Register_0.src@ == "ffmpeg:"@ + plan.url
            + "#input=rtsp/udp#video=copy"@,
        plan.stage is Register ==> step->Register_0.src@ == plan.source(),
        plan.stage is Endpoint ==> step is AskEndpoint && step->AskEndpoint_0@ == "http://127.0.0.1:"@
            + text::decimal(plan.port as nat) + "/api/stream.mjpeg?src=kite"@,
        plan.stage is Finished ==> step is Finished,
        plan.stage is Finished && plan.stage->Finished_0 is Ok ==> step->Finished_0 is Ok
            && step->Finished_0->Ok_0@ == plan.stage->Finished_0->Ok_0,
        plan.stage is Finished && plan.stage->Finished_0 is Err ==> step->Finished_0 is Err
            && step->Finished_0->Err_0@ == plan.stage->Finished_0->Err_0,
{
}

/// Only what a stage waits for moves a start on, and a start that is over stays over.
pub proof fn law_start_waits_for_its_turn(plan: Plan, event: StreamEvent)
    ensures
        plan.stage is Finished ==> plan.after(event) == plan,
        !plan.expects(event) && !(event is Registered) ==> plan.after(event) == plan,
        event is Registered && !(plan.stage is RegisterCopy) && !(plan.stage is Register)
            ==> plan.after(event) == plan,
{
}

/// What an exchange of an offer comes to: the session description of a successful answer as it is, and
/// otherwise the engine's own words, without the white space around them.
pub proof fn law_offers_come_to_what_was_answered(code: u16, body: String, e: String)
    ensures
        offer_result(OfferReply::Failed(e)) == Err::<Seq<char>, Seq<char>>(
            "go2rtc WebRTC offer failed: "@ + e@,
        ),
        code < 200 || code > 299 ==> offer_result(OfferReply::Answered(code, body)) == Err::<
            Seq<char>,
            Seq<char>,
        >("go2rtc WebRTC offer HTTP "@ + http::status_text(code) + ": "@ + text::trimmed(body@)),
        200 <= code <= 299 ==> match json::json_text_member(body@, "sdp"@) {
            Ok(Some(sdp)) => offer_result(OfferReply::Answered(code, body)) == Ok::<
                Seq<char>,
                Seq<char>,
            >(sdp),
            Ok(None) => offer_result(OfferReply::Answered(code, body)) == Err::<
                Seq<char>,
                Seq<char>,
            >("go2rtc answer has no SDP"@),
            Err(message) => offer_result(OfferReply::Answered(code, body)) == Err::<
                Seq<char>,
                Seq<char>,
            >(
                "go2rtc answer parse failed: "@ + message + " (body: "@ + body@ + ")"@,
            ),
        },
{
}

/// What is under `sdp` in an answer is handed on as it is, whatever text it is.
pub proof fn law_answers_are_read_as_they_are(sdp: Seq<char>, message: Seq<char>, body: Seq<char>)
    ensures
        answer_result(Ok(Some(sdp)), body) == Ok::<Seq<char>, Seq<char>>(sdp),
        answer_result(Ok(None), body) == Err::<Seq<char>, Seq<char>>("go2rtc answer has no SDP"@),
        answer_result(Err(message), body) == Err::<Seq<char>, Seq<char>>(
            "go2rtc answer parse failed: "@ + message + " (body: "@ + body + ")"@,
        ),
{
}

/// Results are shown as they are.
pub proof fn law_texts_of_results(label: &'static str, sdp: String, message: String)
    ensures
        label_view(Ok(label)) == Ok::<Seq<char>, Seq<char>>(label@),
        label_view(Err(message)) == Err::<Seq<char>, Seq<char>>(message@),
        sdp_view(Ok(sdp)) == Ok::<Seq<char>, Seq<char>>(sdp@),
        sdp_view(Err(message)) == Err::<Seq<char>, Seq<char>>(message@),
{
}

} // verus!
