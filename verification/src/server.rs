//! The life of the embedded MJPEG server: how it starts, how a start fails, and how it stops.
//!
//! A start returns a port only once the source has delivered its first bytes. Otherwise everything is torn
//! down again, and the error carries the first line that the source's program wrote to its standard error.
//!
//! The caller binds sockets, starts programs and waits, and hands over what came of it.

use crate::gst_pipeline;
use crate::gst_pipeline::{Launch, Program};
use crate::source;
use crate::source::{source_command, DeviceInput, MjpegSource};
use crate::text;
use crate::text::{chars_of, string_of, trim};
use vstd::prelude::*;

verus! {

/// How long a start waits for the first bytes of the source: six seconds, in nanoseconds. Generous enough
/// for a capture device that negotiates a mode, short enough that a rejected mode is reported while the user
/// is still looking.
pub const FIRST_FRAME_TIMEOUT: u64 = 6_000_000_000;

/// How long to wait for the first bytes before looking at the program again, in milliseconds.
pub const FIRST_FRAME_POLL_MS: u64 = 100;

/// A step of taking down a source and its threads.
#[derive(Clone, Copy, PartialEq, Eq, Debug, Structural)]
pub enum StopStep {
    /// Tell the threads to stop.
    SignalShutdown,
    /// Kill the source's program, which closes its output and unblocks the reader.
    Kill,
    /// Wait for the program to be gone.
    Reap,
    /// Wait for the thread that reads the source.
    JoinReader,
    /// Wait for the thread that accepts clients.
    JoinAccept,
    /// Wait for the thread that reads the program's standard error.
    JoinStderr,
}

/// How a source and its threads are taken down.
pub open spec fn take_down() -> Seq<StopStep> {
    seq![
        StopStep::SignalShutdown,
        StopStep::Kill,
        StopStep::Reap,
        StopStep::JoinReader,
        StopStep::JoinAccept,
        StopStep::JoinStderr,
    ]
}

/// How a program is taken down that no thread reads.
pub open spec fn end_program() -> Seq<StopStep> {
    seq![StopStep::Kill, StopStep::Reap]
}

fn take_down_steps() -> (r: Vec<StopStep>)
    ensures
        r@ == take_down(),
{
    let mut steps: Vec<StopStep> = Vec::new();
    steps.push(StopStep::SignalShutdown);
    steps.push(StopStep::Kill);
    steps.push(StopStep::Reap);
    steps.push(StopStep::JoinReader);
    steps.push(StopStep::JoinAccept);
    steps.push(StopStep::JoinStderr);
    steps
}

/// What has come of waiting for the first bytes.
#[derive(Clone, Copy, PartialEq, Eq, Debug, Structural)]
pub enum FrameEvent {
    /// The first bytes are there.
    Delivered,
    /// The source ended before it delivered anything.
    Ended,
    /// Nothing has happened yet.
    Quiet {
        /// Whether the program has exited.
        exited: bool,
        /// How long the start has been waiting, in nanoseconds.
        waited: u64,
    },
}

/// What waiting for the first bytes has come to: success, a reason to give up, or nothing yet.
pub open spec fn first_frame(event: FrameEvent, program: Program) -> Option<Result<(), Seq<char>>> {
    match event {
        FrameEvent::Delivered => Some(Ok(())),
        FrameEvent::Ended => Some(Err("the capture ended immediately"@)),
        FrameEvent::Quiet { exited, waited } => if exited {
            Some(
                Err(
                    gst_pipeline::program_name(program)
                        + " exited without delivering a frame"@,
                ),
            )
        } else if waited >= FIRST_FRAME_TIMEOUT {
            Some(Err("no video from the source within 6 s"@))
        } else {
            None
        },
    }
}

/// Decides whether to go on waiting for the first bytes.
pub fn wait_for_first_frame(event: FrameEvent, program: Program) -> (r: Option<Result<(), String>>)
    ensures
        match r {
            None => first_frame(event, program) is None,
            Some(Ok(_)) => first_frame(event, program) == Some(Ok::<(), Seq<char>>(())),
            Some(Err(reason)) => first_frame(event, program) == Some(
                Err::<(), Seq<char>>(reason@),
            ),
        },
{
    match event {
        FrameEvent::Delivered => Some(Ok(())),
        FrameEvent::Ended => Some(Err("the capture ended immediately".to_string())),
        FrameEvent::Quiet { exited, waited } => {
            if exited {
                let mut reason: String = program.name().to_string();
                reason.append(" exited without delivering a frame");
                Some(Err(reason))
            } else if waited >= FIRST_FRAME_TIMEOUT {
                Some(Err("no video from the source within 6 s".to_string()))
            } else {
                None
            }
        },
    }
}

/// What came of opening the server's port.
#[derive(Debug)]
pub enum BindOutcome {
    /// The port is open.
    Bound(u16),
    /// The port could not be opened.
    NotBound(String),
    /// The port could not be made non-blocking.
    NotUnblocked(String),
    /// The number of the port could not be found out.
    NoAddress(String),
}

/// What came of starting the source's program.
#[derive(Debug)]
pub enum LaunchOutcome {
    /// The program runs.
    Started,
    /// The program could not be started.
    NotStarted(String),
    /// The program runs, but its output cannot be read.
    NoOutput,
}

/// How far a start has come.
#[derive(Debug)]
enum Phase {
    Binding(Result<Launch, String>),
    Launching(u16, Program),
    Awaiting(u16, Program),
    Failing(String),
    Finished,
}

/// How far a start has come.
pub enum Progress {
    /// The port is being opened for what is to be started, or for nothing where that cannot be started.
    Binding(Result<(Program, Seq<Seq<char>>), Seq<char>>),
    /// The program is being started.
    Launching(u16, Program),
    /// The first bytes are being waited for.
    Awaiting(u16, Program),
    /// What was started is being taken down, for this reason.
    Failing(Seq<char>),
    /// The start is over.
    Finished(Result<u16, Seq<char>>),
}

/// What to do next for a start.
#[derive(Debug)]
pub enum StartStep {
    /// Start the program.
    Launch(Launch),
    /// Wait for the first bytes.
    Await,
    /// Take down what was started, in this order.
    TakeDown(Vec<StopStep>),
    /// The start is over: with the port, or with the error.
    Finished(Result<u16, String>),
}

/// A start that is under way.
#[derive(Debug)]
pub struct Start {
    phase: Phase,
    result: Result<u16, String>,
}

/// The texts in a result.
pub open spec fn outcome_view(result: Result<u16, String>) -> Result<u16, Seq<char>> {
    match result {
        Ok(port) => Ok(port),
        Err(message) => Err(message@),
    }
}

impl View for Start {
    type V = Progress;

    closed spec fn view(&self) -> Progress {
        match self.phase {
            Phase::Binding(Ok(launch)) => Progress::Binding(Ok(source::launch_view(launch))),
            Phase::Binding(Err(message)) => Progress::Binding(Err(message@)),
            Phase::Launching(port, program) => Progress::Launching(port, program),
            Phase::Awaiting(port, program) => Progress::Awaiting(port, program),
            Phase::Failing(reason) => Progress::Failing(reason@),
            Phase::Finished => Progress::Finished(outcome_view(self.result)),
        }
    }
}

/// What has happened to a start.
pub enum StartEvent {
    /// The port was opened, or not.
    Bound(BindOutcome),
    /// The program was started, or not.
    Launched(LaunchOutcome),
    /// Something came of waiting for the first bytes.
    Waited(FrameEvent),
    /// What was started has been taken down; this is the first line that the program wrote to its standard
    /// error.
    TakenDown(Option<String>),
}

/// The start is over, with a port.
pub open spec fn has_started(progress: Progress) -> bool {
    progress is Finished && progress->Finished_0 is Ok
}

impl Progress {
    /// The port was opened, or not.
    pub open spec fn bound(self, outcome: BindOutcome) -> Progress {
        match self {
            Progress::Binding(what) => match outcome {
                BindOutcome::Bound(port) => match what {
                    Ok((program, _)) => Progress::Launching(port, program),
                    Err(message) => Progress::Finished(Err(message)),
                },
                BindOutcome::NotBound(e) => Progress::Finished(Err("bind: "@ + e@)),
                BindOutcome::NotUnblocked(e) => Progress::Finished(
                    Err("set_nonblocking: "@ + e@),
                ),
                BindOutcome::NoAddress(e) => Progress::Finished(Err("addr: "@ + e@)),
            },
            _ => self,
        }
    }

    /// The program was started, or not.
    pub open spec fn launched(self, outcome: LaunchOutcome) -> Progress {
        match self {
            Progress::Launching(port, program) => match outcome {
                LaunchOutcome::Started => Progress::Awaiting(port, program),
                LaunchOutcome::NotStarted(e) => Progress::Finished(
                    Err(gst_pipeline::program_name(program) + " spawn failed: "@ + e@),
                ),
                LaunchOutcome::NoOutput => Progress::Failing("no stdout"@),
            },
            _ => self,
        }
    }

    /// Something came of waiting for the first bytes.
    pub open spec fn waited(self, event: FrameEvent) -> Progress {
        match self {
            Progress::Awaiting(port, program) => match first_frame(event, program) {
                None => self,
                Some(Ok(_)) => Progress::Finished(Ok(port)),
                Some(Err(reason)) => Progress::Failing(reason),
            },
            _ => self,
        }
    }

    /// What was started has been taken down.
    pub open spec fn taken_down(self, line: Option<String>) -> Progress {
        match self {
            Progress::Failing(reason) => match line {
                Some(line) => Progress::Finished(Err(reason + ": "@ + line@)),
                None => Progress::Finished(Err(reason)),
            },
            _ => self,
        }
    }

    /// An event has happened. One that cannot happen now changes nothing.
    pub open spec fn next(self, event: StartEvent) -> Progress {
        match event {
            StartEvent::Bound(outcome) => self.bound(outcome),
            StartEvent::Launched(outcome) => self.launched(outcome),
            StartEvent::Waited(event) => self.waited(event),
            StartEvent::TakenDown(line) => self.taken_down(line),
        }
    }

    /// All the events have happened.
    pub open spec fn after(self, events: Seq<StartEvent>) -> Progress
        decreases events.len(),
    {
        if events.len() == 0 {
            self
        } else {
            self.after(events.drop_last()).next(events.last())
        }
    }
}

impl Start {
    /// Takes in what came of opening the port.
    pub fn bound(&mut self, outcome: BindOutcome) -> (r: StartStep)
        requires
            old(self)@ is Binding,
        ensures
            final(self)@ == old(self)@.bound(outcome),
            match final(self)@ {
                Progress::Launching(_, _) => r is Launch && old(self)@->Binding_0 == Ok::<
                    (Program, Seq<Seq<char>>),
                    Seq<char>,
                >(source::launch_view(r->Launch_0)),
                Progress::Finished(result) => r is Finished && outcome_view(r->Finished_0)
                    == result,
                _ => false,
            },
    {
        let mut phase: Phase = Phase::Finished;
        std::mem::swap(&mut phase, &mut self.phase);
        let message: String = match outcome {
            BindOutcome::Bound(port) => match phase {
                Phase::Binding(Ok(launch)) => {
                    self.phase = Phase::Launching(port, launch.program);
                    return StartStep::Launch(launch);
                },
                Phase::Binding(Err(message)) => message,
                _ => String::new(),
            },
            BindOutcome::NotBound(e) => {
                let mut message: String = "bind: ".to_string();
                message.append(e.as_str());
                message
            },
            BindOutcome::NotUnblocked(e) => {
                let mut message: String = "set_nonblocking: ".to_string();
                message.append(e.as_str());
                message
            },
            BindOutcome::NoAddress(e) => {
                let mut message: String = "addr: ".to_string();
                message.append(e.as_str());
                message
            },
        };
        self.fail(message)
    }

    fn fail(&mut self, message: String) -> (r: StartStep)
        ensures
            final(self)@ == Progress::Finished(Err::<u16, Seq<char>>(message@)),
            r is Finished,
            outcome_view(r->Finished_0) == Err::<u16, Seq<char>>(message@),
    {
        self.result = Err(message.clone());
        self.phase = Phase::Finished;
        StartStep::Finished(Err(message))
    }

    /// Takes in what came of starting the program.
    pub fn launched(&mut self, outcome: LaunchOutcome) -> (r: StartStep)
        requires
            old(self)@ is Launching,
        ensures
            final(self)@ == old(self)@.launched(outcome),
            match final(self)@ {
                Progress::Awaiting(_, _) => r is Await,
                Progress::Failing(_) => r is TakeDown && r->TakeDown_0@ == end_program(),
                Progress::Finished(result) => r is Finished && outcome_view(r->Finished_0)
                    == result,
                _ => false,
            },
    {
        let mut phase: Phase = Phase::Finished;
        std::mem::swap(&mut phase, &mut self.phase);
        let message: String = match phase {
            Phase::Launching(port, program) => match outcome {
                LaunchOutcome::Started => {
                    self.phase = Phase::Awaiting(port, program);
                    return StartStep::Await;
                },
                LaunchOutcome::NotStarted(e) => {
                    let mut message: String = program.name().to_string();
                    message.append(" spawn failed: ");
                    message.append(e.as_str());
                    message
                },
                LaunchOutcome::NoOutput => {
                    self.phase = Phase::Failing("no stdout".to_string());
                    let mut steps: Vec<StopStep> = Vec::new();
                    steps.push(StopStep::Kill);
                    steps.push(StopStep::Reap);
                    return StartStep::TakeDown(steps);
                },
            },
            _ => String::new(),
        };
        self.fail(message)
    }

    /// Takes in what came of waiting for the first bytes.
    pub fn waited(&mut self, event: FrameEvent) -> (r: StartStep)
        requires
            old(self)@ is Awaiting,
        ensures
            final(self)@ == old(self)@.waited(event),
            match final(self)@ {
                Progress::Awaiting(_, _) => r is Await,
                Progress::Failing(_) => r is TakeDown && r->TakeDown_0@ == take_down(),
                Progress::Finished(result) => r is Finished && outcome_view(r->Finished_0)
                    == result,
                _ => false,
            },
    {
        let mut phase: Phase = Phase::Finished;
        std::mem::swap(&mut phase, &mut self.phase);
        match phase {
            Phase::Awaiting(port, program) => match wait_for_first_frame(event, program) {
                None => {
                    self.phase = Phase::Awaiting(port, program);
                    StartStep::Await
                },
                Some(Ok(_)) => {
                    self.result = Ok(port);
                    StartStep::Finished(Ok(port))
                },
                Some(Err(reason)) => {
                    self.phase = Phase::Failing(reason);
                    StartStep::TakeDown(take_down_steps())
                },
            },
            _ => self.fail(String::new()),
        }
    }

    /// Whether the start has succeeded, which is when the end of its feed is announced.
    pub fn succeeded(&self) -> (r: bool)
        ensures
            r == has_started(self@),
    {
        match self.phase {
            Phase::Finished => self.result.is_ok(),
            _ => false,
        }
    }

    /// Takes in that what was started has been taken down, and the first line that the program wrote to its
    /// standard error. Returns the error that the start ends with.
    pub fn taken_down(&mut self, line: Option<String>) -> (r: StartStep)
        requires
            old(self)@ is Failing,
        ensures
            final(self)@ == old(self)@.taken_down(line),
            r is Finished,
            Progress::Finished(outcome_view(r->Finished_0)) == final(self)@,
    {
        let mut phase: Phase = Phase::Finished;
        std::mem::swap(&mut phase, &mut self.phase);
        let message: String = match phase {
            Phase::Failing(reason) => match line {
                Some(line) => {
                    let mut message: String = reason;
                    message.append(": ");
                    message.append(line.as_str());
                    message
                },
                None => reason,
            },
            _ => String::new(),
        };
        self.fail(message)
    }
}

/// The embedded MJPEG server: whether a source is being broadcast.
#[derive(Debug)]
pub struct MjpegServer {
    live: bool,
}

impl View for MjpegServer {
    type V = bool;

    closed spec fn view(&self) -> bool {
        self.live
    }
}

/// How the server is stopped: not at all if nothing is being broadcast.
pub open spec fn stop_steps(live: bool) -> Seq<StopStep> {
    if live {
        take_down()
    } else {
        Seq::empty()
    }
}

impl MjpegServer {
    /// A server that broadcasts nothing.
    pub fn new() -> (r: MjpegServer)
        ensures
            r@ == false,
    {
        MjpegServer { live: false }
    }

    /// Begins to start the server on a source. What was broadcast before is to be stopped first; the port is
    /// to be opened then.
    pub fn start(&mut self, source: &MjpegSource, device: &DeviceInput, on_linux: bool) -> (r: (
        Vec<StopStep>,
        Start,
    ))
        ensures
            final(self)@ == false,
            r.0@ == stop_steps(old(self)@),
            r.1@ == Progress::Binding(source::source_arguments(*source, *device, on_linux)),
    {
        let steps: Vec<StopStep> = self.stop();
        let launch: Result<Launch, String> = source_command(source, device, on_linux);
        let start: Start = Start { phase: Phase::Binding(launch), result: Ok(0) };
        (steps, start)
    }

    /// Takes in that a start has succeeded. Returns the port.
    pub fn started(&mut self, start: Start) -> (r: u16)
        requires
            start@ is Finished,
            start@->Finished_0 is Ok,
        ensures
            final(self)@ == true,
            start@ == Progress::Finished(Ok::<u16, Seq<char>>(r)),
    {
        self.live = true;
        match start.result {
            Ok(port) => port,
            Err(_) => 0,
        }
    }

    /// Stops the server. Returns what has to be done for it, in this order.
    pub fn stop(&mut self) -> (r: Vec<StopStep>)
        ensures
            final(self)@ == false,
            r@ == stop_steps(old(self)@),
    {
        if self.live {
            self.live = false;
            take_down_steps()
        } else {
            Vec::new()
        }
    }
}

/// The lines with something in them, without the white space around them.
pub open spec fn reported(lines: Seq<Seq<char>>) -> Seq<Seq<char>>
    decreases lines.len(),
{
    if lines.len() == 0 {
        Seq::empty()
    } else {
        let before = reported(lines.drop_last());
        let line = text::trimmed(lines.last());
        if line.len() == 0 {
            before
        } else {
            before.push(line)
        }
    }
}

/// The first of the texts.
pub open spec fn first_of(list: Seq<Seq<char>>) -> Option<Seq<char>> {
    if list.len() == 0 {
        None
    } else {
        Some(list[0])
    }
}

/// What a source's program has written to its standard error. Only the first line is kept, for the error of
/// a start that fails.
#[derive(Debug)]
pub struct SourceErrors {
    first: Option<String>,
}

impl View for SourceErrors {
    type V = Option<Seq<char>>;

    closed spec fn view(&self) -> Option<Seq<char>> {
        match self.first {
            Some(line) => Some(line@),
            None => None,
        }
    }
}

/// The first line, after one more line that was written.
pub open spec fn noted(first: Option<Seq<char>>, line: Seq<char>) -> Option<Seq<char>> {
    if first is None && text::trimmed(line).len() > 0 {
        Some(text::trimmed(line))
    } else {
        first
    }
}

/// The first line, after these lines were written.
pub open spec fn noted_all(first: Option<Seq<char>>, lines: Seq<Seq<char>>) -> Option<Seq<char>>
    decreases lines.len(),
{
    if lines.len() == 0 {
        first
    } else {
        noted(noted_all(first, lines.drop_last()), lines.last())
    }
}

impl SourceErrors {
    /// Nothing has been written yet.
    pub fn new() -> (r: SourceErrors)
        ensures
            r@ is None,
    {
        SourceErrors { first: None }
    }

    /// Takes in a line. Returns what the log is told of it: the line without the white space around it, or
    /// nothing where there is nothing else in it.
    pub fn log_source_stderr(&mut self, line: &str) -> (r: Option<String>)
        ensures
            final(self)@ == noted(old(self)@, line@),
            r is None <==> text::trimmed(line@).len() == 0,
            r is Some ==> r->0@ == text::trimmed(line@),
    {
        let chars: Vec<char> = chars_of(line);
        let shown: &[char] = trim(chars.as_slice());
        if shown.len() == 0 {
            return None;
        }
        let shown: String = string_of(shown);
        if self.first.is_none() {
            self.first = Some(shown.clone());
        }
        Some(shown)
    }

    /// The first line.
    pub fn first(self) -> (r: Option<String>)
        ensures
            match r {
                Some(line) => self@ == Some(line@),
                None => self@ is None,
            },
    {
        self.first
    }
}

/// The event is the opening of the port.
pub open spec fn opens(event: StartEvent, port: u16) -> bool {
    event == StartEvent::Bound(BindOutcome::Bound(port))
}

/// The event is the start of the program.
pub open spec fn starts(event: StartEvent) -> bool {
    event == StartEvent::Launched(LaunchOutcome::Started)
}

/// The event is the arrival of the first bytes.
pub open spec fn delivers(event: StartEvent) -> bool {
    event == StartEvent::Waited(FrameEvent::Delivered)
}

/// The port was opened, and then the program was started.
pub open spec fn started_on(events: Seq<StartEvent>, port: u16) -> bool {
    exists|i: int, j: int|
        0 <= i < j < events.len() && #[trigger] opens(events[i], port) && #[trigger] starts(
            events[j],
        )
}

/// The port was opened, then the program was started, and then it delivered its first bytes.
pub open spec fn delivered_on(events: Seq<StartEvent>, port: u16) -> bool {
    exists|i: int, j: int, k: int|
        0 <= i < j < k < events.len() && #[trigger] opens(events[i], port) && #[trigger] starts(
            events[j],
        ) && #[trigger] delivers(events[k])
}

/// What has happened to a start, by how far it has come.
pub open spec fn history(progress: Progress, events: Seq<StartEvent>) -> bool {
    match progress {
        Progress::Binding(_) => true,
        Progress::Launching(port, _) => exists|i: int|
            0 <= i < events.len() && #[trigger] opens(events[i], port),
        Progress::Awaiting(port, _) => started_on(events, port),
        Progress::Failing(_) => true,
        Progress::Finished(Ok(port)) => delivered_on(events, port),
        Progress::Finished(Err(_)) => true,
    }
}

proof fn lemma_history(
    what: Result<(Program, Seq<Seq<char>>), Seq<char>>,
    events: Seq<StartEvent>,
)
    ensures
        history(Progress::Binding(what).after(events), events),
    decreases events.len(),
{
    if events.len() > 0 {
        let before = events.drop_last();
        let event = events.last();
        let n = events.len() - 1;
        lemma_history(what, before);
        let earlier = Progress::Binding(what).after(before);
        assert(forall|i: int| 0 <= i < n ==> before[i] == events[i]);
        assert(events[n] == event);
        match earlier {
            Progress::Binding(_) => {
                match earlier.next(event) {
                    Progress::Launching(port, _) => {
                        assert(opens(events[n], port));
                    },
                    _ => {},
                }
            },
            Progress::Launching(port, _) => {
                let i = choose|i: int| 0 <= i < before.len() && #[trigger] opens(before[i], port);
                assert(opens(events[i], port));
                if starts(event) {
                    assert(starts(events[n]));
                    assert(started_on(events, port));
                }
            },
            Progress::Awaiting(port, _) => {
                let (i, j) = choose|i: int, j: int|
                    0 <= i < j < before.len() && #[trigger] opens(before[i], port)
                        && #[trigger] starts(before[j]);
                assert(opens(events[i], port) && starts(events[j]));
                assert(started_on(events, port));
                if delivers(event) {
                    assert(delivers(events[n]));
                    assert(delivered_on(events, port));
                }
            },
            Progress::Failing(_) => {},
            Progress::Finished(Ok(port)) => {
                let (i, j, k) = choose|i: int, j: int, k: int|
                    0 <= i < j < k < before.len() && #[trigger] opens(before[i], port)
                        && #[trigger] starts(before[j]) && #[trigger] delivers(before[k]);
                assert(opens(events[i], port) && starts(events[j]) && delivers(events[k]));
            },
            Progress::Finished(Err(_)) => {},
        }
    }
}

/// A start returns a port only once that port is open, the program has been started after that, and the
/// program has delivered its first bytes after that.
pub proof fn law_port_comes_after_the_first_bytes(
    what: Result<(Program, Seq<Seq<char>>), Seq<char>>,
    events: Seq<StartEvent>,
    port: u16,
)
    requires
        Progress::Binding(what).after(events) == Progress::Finished(Ok::<u16, Seq<char>>(port)),
    ensures
        delivered_on(events, port),
{
    lemma_history(what, events);
}

/// The program of the start may be running.
pub open spec fn may_run(progress: Progress) -> bool {
    progress is Awaiting || progress is Failing
}

/// A start whose program was started, whether its output can be read or not, reports a failure only after
/// everything that it started has been taken down.
pub proof fn law_failed_start_is_taken_down_first(
    port: u16,
    program: Program,
    outcome: LaunchOutcome,
    events: Seq<StartEvent>,
    message: Seq<char>,
)
    requires
        !(outcome is NotStarted),
        Progress::Launching(port, program).launched(outcome).after(events) == Progress::Finished(
            Err::<u16, Seq<char>>(message),
        ),
    ensures
        exists|i: int| 0 <= i < events.len() && #[trigger] events[i] is TakenDown,
{
    lemma_failure_is_taken_down(
        Progress::Launching(port, program).launched(outcome),
        events,
        message,
    );
}

proof fn lemma_failure_is_taken_down(
    progress: Progress,
    events: Seq<StartEvent>,
    message: Seq<char>,
)
    requires
        may_run(progress),
        progress.after(events) == Progress::Finished(Err::<u16, Seq<char>>(message)),
    ensures
        exists|i: int| 0 <= i < events.len() && #[trigger] events[i] is TakenDown,
    decreases events.len(),
{
    assert(events.len() > 0);
    let before = events.drop_last();
    let n = events.len() - 1;
    assert(events[n] == events.last());
    if progress.after(before) is Finished {
        lemma_failure_is_taken_down(progress, before, message);
        let i = choose|i: int| 0 <= i < before.len() && #[trigger] before[i] is TakenDown;
        assert(events[i] is TakenDown);
    } else {
        lemma_runs_until_finished(progress, before);
        assert(events[n] is TakenDown);
    }
}

/// A start whose program may be running goes on so until it is over.
proof fn lemma_runs_until_finished(progress: Progress, events: Seq<StartEvent>)
    requires
        may_run(progress),
    ensures
        may_run(progress.after(events)) || progress.after(events) is Finished,
    decreases events.len(),
{
    if events.len() > 0 {
        lemma_runs_until_finished(progress, events.drop_last());
    }
}

/// A program whose output cannot be read is taken down too, and the start says so.
pub proof fn law_program_without_output_is_taken_down(port: u16, program: Program)
    ensures
        Progress::Launching(port, program).after(
            seq![StartEvent::Launched(LaunchOutcome::NoOutput), StartEvent::TakenDown(None)],
        ) == Progress::Finished(Err::<u16, Seq<char>>("no stdout"@)),
{
    let events = seq![StartEvent::Launched(LaunchOutcome::NoOutput), StartEvent::TakenDown(None)];
    let first = seq![StartEvent::Launched(LaunchOutcome::NoOutput)];
    assert(events.drop_last() == first);
    assert(first.drop_last() == Seq::<StartEvent>::empty());
    reveal_with_fuel(Progress::after, 3);
}

/// A start that fails while it waits for the first bytes says why, and says the first line that the program
/// wrote to its standard error, where it wrote one.
pub proof fn law_failed_start_says_why(
    port: u16,
    program: Program,
    event: FrameEvent,
    reason: Seq<char>,
    line: Option<String>,
)
    requires
        first_frame(event, program) == Some(Err::<(), Seq<char>>(reason)),
    ensures
        Progress::Awaiting(port, program).after(
            seq![StartEvent::Waited(event), StartEvent::TakenDown(line)],
        ) == Progress::Finished(
            Err::<u16, Seq<char>>(
                match line {
                    Some(line) => reason + ": "@ + line@,
                    None => reason,
                },
            ),
        ),
{
    let events = seq![StartEvent::Waited(event), StartEvent::TakenDown(line)];
    assert(events.drop_last() == seq![StartEvent::Waited(event)]);
    assert(seq![StartEvent::Waited(event)].drop_last() == Seq::<StartEvent>::empty());
    reveal_with_fuel(Progress::after, 3);
}

/// A start does not wait forever: one that has waited for six seconds, or whose program has exited, does not
/// go on waiting. One that has waited for less, and whose program runs, does.
pub proof fn law_waiting_is_bounded(port: u16, program: Program, exited: bool, waited: u64)
    ensures
        (Progress::Awaiting(port, program).waited(FrameEvent::Quiet { exited, waited })
            == Progress::Awaiting(port, program)) <==> (!exited && waited < FIRST_FRAME_TIMEOUT),
{
}

/// A start that is over stays over, with the same result.
pub proof fn law_result_is_final(result: Result<u16, Seq<char>>, events: Seq<StartEvent>)
    ensures
        Progress::Finished(result).after(events) == Progress::Finished(result),
    decreases events.len(),
{
    if events.len() > 0 {
        law_result_is_final(result, events.drop_last());
    }
}

/// Stopping a server that has been stopped does nothing more.
pub proof fn law_stop_is_idempotent(live: bool)
    ensures
        stop_steps(live) + stop_steps(false) == stop_steps(live),
{
    assert(stop_steps(live) + stop_steps(false) =~= stop_steps(live));
}

/// The line that is kept is the first that has something in it, however many follow.
pub proof fn law_first_error_is_kept(lines: Seq<Seq<char>>)
    ensures
        noted_all(None, lines) == first_of(reported(lines)),
    decreases lines.len(),
{
    if lines.len() > 0 {
        law_first_error_is_kept(lines.drop_last());
    }
}

/// The first bytes bring the port, whatever the program: a start that awaits them and sees them delivered is
/// over with that port, however often it has waited before.
pub proof fn law_first_bytes_bring_the_port(port: u16, program: Program, waits: Seq<u64>)
    requires
        forall|i: int| 0 <= i < waits.len() ==> #[trigger] waits[i] < 6_000_000_000,
    ensures
        first_frame(FrameEvent::Delivered, program) == Some(Ok::<(), Seq<char>>(())),
        Progress::Awaiting(port, program).waited(FrameEvent::Delivered) == Progress::Finished(
            Ok::<u16, Seq<char>>(port),
        ),
        Progress::Awaiting(port, program).after(
            quiet_waits(waits).push(StartEvent::Waited(FrameEvent::Delivered)),
        ) == Progress::Finished(Ok::<u16, Seq<char>>(port)),
{
    let quiet = quiet_waits(waits);
    let all = quiet.push(StartEvent::Waited(FrameEvent::Delivered));
    assert(all.drop_last() =~= quiet);
    lemma_quiet_waits(port, program, waits);
}

/// Waits in which nothing happened, each with how long the start had been waiting.
pub open spec fn quiet_waits(waits: Seq<u64>) -> Seq<StartEvent> {
    waits.map_values(
        |waited: u64| StartEvent::Waited(FrameEvent::Quiet { exited: false, waited }),
    )
}

proof fn lemma_quiet_waits(port: u16, program: Program, waits: Seq<u64>)
    requires
        forall|i: int| 0 <= i < waits.len() ==> #[trigger] waits[i] < 6_000_000_000,
    ensures
        Progress::Awaiting(port, program).after(quiet_waits(waits)) == Progress::Awaiting(
            port,
            program,
        ),
    decreases waits.len(),
{
    if waits.len() > 0 {
        let before = waits.drop_last();
        assert(quiet_waits(waits).drop_last() =~= quiet_waits(before));
        assert(waits[waits.len() - 1] < 6_000_000_000);
        lemma_quiet_waits(port, program, before);
    }
}

/// A start runs through, whatever the program and its arguments: the port is opened, the program is started,
/// the first bytes come, and the start is over with that port.
pub proof fn law_start_runs_through(
    program: Program,
    args: Seq<Seq<char>>,
    port: u16,
    waits: Seq<u64>,
)
    requires
        forall|i: int| 0 <= i < waits.len() ==> #[trigger] waits[i] < 6_000_000_000,
    ensures
        Progress::Binding(Ok((program, args))).bound(BindOutcome::Bound(port)).launched(
            LaunchOutcome::Started,
        ).after(quiet_waits(waits).push(StartEvent::Waited(FrameEvent::Delivered)))
            == Progress::Finished(Ok::<u16, Seq<char>>(port)),
        Progress::Binding(Ok((program, args))).bound(BindOutcome::Bound(port)) == Progress::Launching(
            port,
            program,
        ),
        Progress::Launching(port, program).launched(LaunchOutcome::Started) == Progress::Awaiting(
            port,
            program,
        ),
        has_started(Progress::Finished(Ok(port))),
{
    law_first_bytes_bring_the_port(port, program, waits);
}

/// Whatever is to be started, a port that cannot be opened is what the start ends with, in the words of the
/// system; a source that cannot be started is refused once the port is open, in its own words; and so is a
/// program that cannot be started, under its name.
pub proof fn law_starts_fail_in_their_own_words(
    what: Result<(Program, Seq<Seq<char>>), Seq<char>>,
    message: Seq<char>,
    e: String,
    port: u16,
    program: Program,
)
    ensures
        Progress::Binding(what).bound(BindOutcome::NotBound(e)) == Progress::Finished(
            Err::<u16, Seq<char>>("bind: "@ + e@),
        ),
        Progress::Binding(what).bound(BindOutcome::NotUnblocked(e)) == Progress::Finished(
            Err::<u16, Seq<char>>("set_nonblocking: "@ + e@),
        ),
        Progress::Binding(what).bound(BindOutcome::NoAddress(e)) == Progress::Finished(
            Err::<u16, Seq<char>>("addr: "@ + e@),
        ),
        Progress::Binding(Err(message)).bound(BindOutcome::Bound(port)) == Progress::Finished(
            Err::<u16, Seq<char>>(message),
        ),
        Progress::Launching(port, Program::Ffmpeg).launched(LaunchOutcome::NotStarted(e))
            == Progress::Finished(Err::<u16, Seq<char>>("ffmpeg"@ + " spawn failed: "@ + e@)),
        Progress::Launching(port, Program::GstLaunch).launched(LaunchOutcome::NotStarted(e))
            == Progress::Finished(Err::<u16, Seq<char>>("gstreamer"@ + " spawn failed: "@ + e@)),
        Progress::Launching(port, program).launched(LaunchOutcome::NoOutput) == Progress::Failing(
            "no stdout"@,
        ),
        Progress::Failing(message).taken_down(None) == Progress::Finished(
            Err::<u16, Seq<char>>(message),
        ),
        Progress::Failing(message).taken_down(Some(e)) == Progress::Finished(
            Err::<u16, Seq<char>>(message + ": "@ + e@),
        ),
{
}

/// A start that waits for the first bytes fails for three reasons only, whatever the port and however long it
/// has waited: the source ended, its program exited, or six seconds have passed.
pub proof fn law_waiting_fails_for_three_reasons(port: u16, waited: u64, program: Program)
    ensures
        Progress::Awaiting(port, program).waited(FrameEvent::Ended) == Progress::Failing(
            "the capture ended immediately"@,
        ),
        Progress::Awaiting(port, Program::Ffmpeg).waited(FrameEvent::Quiet { exited: true, waited })
            == Progress::Failing("ffmpeg"@ + " exited without delivering a frame"@),
        Progress::Awaiting(port, Program::GstLaunch).waited(
            FrameEvent::Quiet { exited: true, waited },
        ) == Progress::Failing("gstreamer"@ + " exited without delivering a frame"@),
        waited >= 6_000_000_000 ==> Progress::Awaiting(port, program).waited(
            FrameEvent::Quiet { exited: false, waited },
        ) == Progress::Failing("no video from the source within 6 s"@),
        waited < 6_000_000_000 ==> Progress::Awaiting(port, program).waited(
            FrameEvent::Quiet { exited: false, waited },
        ) == Progress::Awaiting(port, program),
        Progress::Awaiting(port, program).waited(FrameEvent::Delivered) == Progress::Finished(
            Ok::<u16, Seq<char>>(port),
        ),
{
}

/// Waiting is decided by what happened: it is over where the source ended, where its program exited, and where
/// six seconds have passed, each for its own reason, and goes on in every other case.
pub proof fn law_waiting_is_decided_by_what_happened(waited: u64, program: Program)
    ensures
        first_frame(FrameEvent::Ended, program) == Some(
            Err::<(), Seq<char>>("the capture ended immediately"@),
        ),
        first_frame(FrameEvent::Quiet { exited: true, waited }, Program::Ffmpeg) == Some(
            Err::<(), Seq<char>>("ffmpeg"@ + " exited without delivering a frame"@),
        ),
        first_frame(FrameEvent::Quiet { exited: true, waited }, Program::GstLaunch) == Some(
            Err::<(), Seq<char>>("gstreamer"@ + " exited without delivering a frame"@),
        ),
        waited >= 6_000_000_000 ==> first_frame(FrameEvent::Quiet { exited: false, waited }, program)
            == Some(Err::<(), Seq<char>>("no video from the source within 6 s"@)),
        waited < 6_000_000_000 ==> first_frame(
            FrameEvent::Quiet { exited: false, waited },
            program,
        ) is None,
{
}

/// Each event moves a start on in its own turn, and an event out of turn changes nothing.
pub proof fn law_events_come_in_turn(
    progress: Progress,
    bind: BindOutcome,
    launch: LaunchOutcome,
    frame: FrameEvent,
    line: Option<String>,
)
    ensures
        progress is Binding ==> progress.next(StartEvent::Bound(bind)) == progress.bound(bind),
        progress is Launching ==> progress.next(StartEvent::Launched(launch)) == progress.launched(
            launch,
        ),
        progress is Awaiting ==> progress.next(StartEvent::Waited(frame)) == progress.waited(frame),
        progress is Failing ==> progress.next(StartEvent::TakenDown(line)) == progress.taken_down(line),
        !(progress is Binding) ==> progress.next(StartEvent::Bound(bind)) == progress,
        !(progress is Launching) ==> progress.next(StartEvent::Launched(launch)) == progress,
        !(progress is Awaiting) ==> progress.next(StartEvent::Waited(frame)) == progress,
        !(progress is Failing) ==> progress.next(StartEvent::TakenDown(line)) == progress,
        has_started(progress) <==> progress is Finished && progress->Finished_0 is Ok,
{
}

/// A server that broadcasts is taken down whole, its threads being asked before its program is ended and
/// waited for after that; one that broadcasts nothing is left alone.
pub proof fn law_a_stop_takes_everything_down()
    ensures
        stop_steps(true) == seq![
            StopStep::SignalShutdown,
            StopStep::Kill,
            StopStep::Reap,
            StopStep::JoinReader,
            StopStep::JoinAccept,
            StopStep::JoinStderr,
        ],
        stop_steps(false).len() == 0,
        end_program() == seq![StopStep::Kill, StopStep::Reap],
{
}

/// The result of a start is the port or the message, as it is.
pub proof fn law_results_are_shown_as_they_are(port: u16, message: String)
    ensures
        outcome_view(Ok(port)) == Ok::<u16, Seq<char>>(port),
        outcome_view(Err(message)) == Err::<u16, Seq<char>>(message@),
{
}

/// Blank lines are passed over, the first other line is kept without the white space around it, and what
/// follows changes nothing.
pub proof fn law_first_line_with_something_in_it_is_kept(
    blank: Seq<char>,
    before: Seq<char>,
    line: Seq<char>,
    after: Seq<char>,
    later: Seq<char>,
)
    requires
        forall|i: int| 0 <= i < blank.len() ==> text::is_white_space(#[trigger] blank[i]),
        forall|i: int| 0 <= i < before.len() ==> text::is_white_space(#[trigger] before[i]),
        forall|i: int| 0 <= i < after.len() ==> text::is_white_space(#[trigger] after[i]),
        line.len() > 0,
        !text::is_white_space(line[0]),
        !text::is_white_space(line.last()),
    ensures
        noted(None, blank) is None,
        noted(None, before + line + after) == Some(line),
        noted(Some(line), later) == Some(line),
{
    let none = Seq::<char>::empty();
    text::law_trimming_takes_the_white_space_around(blank, none, none);
    assert(blank + none + none =~= blank);
    text::law_trimming_takes_the_white_space_around(before, line, after);
}

} // verus!
