//! The session: the decisions of the capture-recognize-emit loop, as a state
//! machine from events to commands. The caller performs each command (opens
//! and starts the stream, reads and decodes a frame, stops the stream) and
//! hands back what happened.
use crate::recognizer::FinalResult;
use crate::sink::{score_of, FinalReport, TranscriptSink, WordScore};
use crate::text::contains_seq;
use vstd::prelude::*;

verus! {

/// An error that ends the session.
#[derive(Debug, Clone, Copy, PartialEq, Eq, Structural)]
pub enum FatalError {
    /// The requested capture device does not exist.
    DeviceUnavailable,
    /// A frame must hold at least one sample.
    InvalidFrameLength,
    /// The capture device could not be opened.
    DeviceOpen,
    /// The recognition model could not be loaded.
    ModelLoad,
    /// The capture stream could not be started.
    StreamStart,
}

/// Which capture device to open.
#[derive(Debug, Clone, Copy, PartialEq, Eq, Structural)]
pub enum DeviceChoice {
    /// The system's default input device.
    Default,
    /// The device at this index of the device list.
    Index(u32),
}

/// What the audio source is opened with.
#[derive(Debug, Clone, Copy, PartialEq, Eq, Structural)]
pub struct SourceConfig {
    pub device: DeviceChoice,
    pub frame_length: u32,
}

/// The device index that asks for the default device.
pub const DEFAULT_DEVICE: i32 = -1;

/// Checks a request to open the capture device `requested` (`-1` for the
/// default one) among `device_count` devices, with frames of `frame_length`
/// samples.
pub fn source_config(requested: i32, device_count: usize, frame_length: u32) -> (r: Result<
    SourceConfig,
    FatalError,
>)
    ensures
        frame_length == 0 ==> r == Err::<SourceConfig, FatalError>(FatalError::InvalidFrameLength),
        frame_length > 0 && (device_count == 0 || requested < -1 || requested >= device_count)
            ==> r == Err::<SourceConfig, FatalError>(FatalError::DeviceUnavailable),
        frame_length > 0 && device_count > 0 && requested == -1 ==> r == Ok::<
            SourceConfig,
            FatalError,
        >(SourceConfig { device: DeviceChoice::Default, frame_length }),
        frame_length > 0 && 0 <= requested < device_count ==> r == Ok::<SourceConfig, FatalError>(
            SourceConfig { device: DeviceChoice::Index(requested as u32), frame_length },
        ),
{
    if frame_length == 0 {
        return Err(FatalError::InvalidFrameLength);
    }
    if device_count == 0 || requested < DEFAULT_DEVICE {
        return Err(FatalError::DeviceUnavailable);
    }
    if requested == DEFAULT_DEVICE {
        return Ok(SourceConfig { device: DeviceChoice::Default, frame_length });
    }
    if requested as usize >= device_count {
        return Err(FatalError::DeviceUnavailable);
    }
    Ok(SourceConfig { device: DeviceChoice::Index(requested as u32), frame_length })
}

/// Where the session stands.
#[derive(Debug, Clone, Copy, PartialEq, Eq, Structural)]
pub enum Phase {
    /// Device and recognizer are being set up.
    Idle,
    /// Set up; the stream is not started yet.
    Ready,
    /// Frames are being read and recognized.
    Recording,
    /// Ended on a stop phrase or an interruption.
    Stopped,
    /// Ended on a fatal error.
    Failed(FatalError),
}

/// What the decoder made of one frame.
#[derive(Debug)]
pub enum Decoded {
    /// Still inside an utterance, with this partial hypothesis.
    Running(String),
    /// An utterance ended, with these hypotheses, best first.
    Finalized(Vec<String>),
    /// The frame could not be decoded.
    Failed,
}

/// What happened since the last command.
#[derive(Debug)]
pub enum Event {
    /// Device and recognizer are set up.
    SetUp,
    /// Something the session needs failed.
    Fatal(FatalError),
    /// The stream started.
    StreamStarted,
    /// One frame was read and decoded.
    Frame(Decoded),
    /// Reading one frame failed.
    ReadFailed,
    /// Someone asked the session to end.
    Interrupted,
}

/// What the caller does next.
#[derive(Debug, Clone, Copy, PartialEq, Eq, Structural)]
pub enum Command {
    /// Set up device and recognizer.
    SetUp,
    /// Start the stream.
    StartStream,
    /// Read and decode one frame.
    ReadFrame,
    /// Stop the stream and release the device.
    StopStream,
    /// End; nothing more is to be read.
    Exit,
}

/// What the caller shows.
#[derive(Debug)]
pub enum Report {
    Partial(String),
    Final(FinalReport),
    DecodeFailed,
    ReadFailed,
    Fatal(FatalError),
}

/// The result of one step: what to show, and what to do next.
#[derive(Debug)]
pub struct Step {
    pub reports: Vec<Report>,
    pub command: Command,
}

/// Whether the best hypothesis of a finished utterance holds `stop_phrase`.
pub open spec fn finalized_stops(ranked: Seq<String>, stop_phrase: Seq<char>) -> bool {
    ranked.len() > 0 && contains_seq(ranked[0]@, stop_phrase)
}

/// The phase after `event` in `phase`.
pub open spec fn next_phase(phase: Phase, event: Event, stop_phrase: Seq<char>) -> Phase {
    match phase {
        Phase::Idle => match event {
            Event::SetUp => Phase::Ready,
            Event::Fatal(e) => Phase::Failed(e),
            Event::Interrupted => Phase::Stopped,
            _ => Phase::Idle,
        },
        Phase::Ready => match event {
            Event::StreamStarted => Phase::Recording,
            Event::Fatal(e) => Phase::Failed(e),
            Event::Interrupted => Phase::Stopped,
            _ => Phase::Ready,
        },
        Phase::Recording => match event {
            Event::Frame(Decoded::Finalized(ranked)) => if finalized_stops(ranked@, stop_phrase) {
                Phase::Stopped
            } else {
                Phase::Recording
            },
            Event::Fatal(e) => Phase::Failed(e),
            Event::Interrupted => Phase::Stopped,
            _ => Phase::Recording,
        },
        Phase::Stopped => Phase::Stopped,
        Phase::Failed(e) => Phase::Failed(e),
    }
}

/// The command that goes with moving from `before` to `after`: a stream that
/// was recording is stopped before anything else; otherwise each phase has
/// its own.
pub open spec fn command_for(before: Phase, after: Phase) -> Command {
    if before == Phase::Recording && after != Phase::Recording {
        Command::StopStream
    } else {
        match after {
            Phase::Idle => Command::SetUp,
            Phase::Ready => Command::StartStream,
            Phase::Recording => Command::ReadFrame,
            Phase::Stopped => Command::Exit,
            Phase::Failed(_) => Command::Exit,
        }
    }
}

/// The commands a session in `phase` gives for the events `events`, in order.
pub open spec fn commands(phase: Phase, events: Seq<Event>, stop_phrase: Seq<char>) -> Seq<Command>
    decreases events.len(),
{
    if events.len() == 0 {
        seq![]
    } else {
        let after = next_phase(phase, events[0], stop_phrase);
        seq![command_for(phase, after)] + commands(after, events.drop_first(), stop_phrase)
    }
}

/// A session that has ended, on a stop or on a fatal error, stays where it is
/// and answers every later event with `Exit`: it never reads another frame.
pub proof fn lemma_ended_session_stays_ended(phase: Phase, events: Seq<Event>, stop_phrase: Seq<char>)
    requires
        phase == Phase::Stopped || phase is Failed,
    ensures
        commands(phase, events, stop_phrase).len() == events.len(),
        forall|k: int|
            0 <= k < events.len() ==> #[trigger] commands(phase, events, stop_phrase)[k]
                == Command::Exit,
    decreases events.len(),
{
    if events.len() > 0 {
        lemma_ended_session_stays_ended(phase, events.drop_first(), stop_phrase);
        let cs = commands(phase, events, stop_phrase);
        assert forall|k: int| 0 <= k < events.len() implies #[trigger] cs[k] == Command::Exit by {
            if k > 0 {
                assert(cs[k] == commands(phase, events.drop_first(), stop_phrase)[k - 1]);
            }
        }
    }
}

/// A final result whose best hypothesis holds the stop phrase ends a
/// recording session: the stream is stopped, and no frame is read after,
/// whatever happens next.
pub proof fn lemma_stop_phrase_ends_session(event: Event, later: Seq<Event>, stop_phrase: Seq<char>)
    requires
        event matches Event::Frame(Decoded::Finalized(ranked)) && finalized_stops(ranked@, stop_phrase),
    ensures
        next_phase(Phase::Recording, event, stop_phrase) == Phase::Stopped,
        commands(Phase::Recording, seq![event] + later, stop_phrase)[0] == Command::StopStream,
        forall|k: int|
            1 <= k <= later.len() ==> #[trigger] commands(Phase::Recording, seq![event] + later, stop_phrase)[k]
                == Command::Exit,
{
    let events = seq![event] + later;
    assert(events[0] == event);
    assert(events.drop_first() =~= later);
    lemma_ended_session_stays_ended(Phase::Stopped, later, stop_phrase);
    let cs = commands(Phase::Recording, events, stop_phrase);
    assert forall|k: int| 1 <= k <= later.len() implies #[trigger] cs[k] == Command::Exit by {
        assert(cs[k] == commands(Phase::Stopped, later, stop_phrase)[k - 1]);
    }
}

/// A session whose set-up fails ends at once and never starts a stream or
/// reads a frame, whatever happens next.
pub proof fn lemma_setup_failure_never_records(e: FatalError, later: Seq<Event>, stop_phrase: Seq<char>)
    ensures
        next_phase(Phase::Idle, Event::Fatal(e), stop_phrase) == Phase::Failed(e),
        forall|k: int|
            0 <= k <= later.len() ==> #[trigger] commands(
                Phase::Idle,
                seq![Event::Fatal(e)] + later,
                stop_phrase,
            )[k] == Command::Exit,
{
    let events = seq![Event::Fatal(e)] + later;
    assert(events[0] == Event::Fatal(e));
    assert(events.drop_first() =~= later);
    lemma_ended_session_stays_ended(Phase::Failed(e), later, stop_phrase);
    let cs = commands(Phase::Idle, events, stop_phrase);
    assert forall|k: int| 0 <= k <= later.len() implies #[trigger] cs[k] == Command::Exit by {
        if k > 0 {
            assert(cs[k] == commands(Phase::Failed(e), later, stop_phrase)[k - 1]);
        }
    }
}

/// What a recording session shows for `event`, given the sink's last partial
/// hypothesis before and after, its stop phrase and its vocabulary.
pub open spec fn recording_reports(
    event: Event,
    reports: Seq<Report>,
    last_before: Seq<char>,
    last_after: Seq<char>,
    stop_phrase: Seq<char>,
    vocabulary: Option<Set<Seq<char>>>,
) -> bool {
    match event {
        Event::Frame(Decoded::Running(t)) => {
            &&& last_after == t@
            &&& t@ == last_before ==> reports.len() == 0
            &&& t@ != last_before ==> reports.len() == 1 && (reports[0] matches Report::Partial(p)
                && p@ == t@)
        },
        Event::Frame(Decoded::Finalized(ranked)) => {
            &&& last_after == last_before
            &&& reports.len() == 1
            &&& ranked@.len() == 0 ==> reports[0] is DecodeFailed
            &&& ranked@.len() > 0 ==> (reports[0] matches Report::Final(f) && f.text@ == ranked@[0]@
                && f.stop == contains_seq(ranked@[0]@, stop_phrase) && f.score == match vocabulary {
                Some(v) => Some(score_of(ranked@[0]@, v)),
                None => None::<WordScore>,
            })
        },
        Event::Frame(Decoded::Failed) => last_after == last_before && reports.len() == 1
            && reports[0] is DecodeFailed,
        Event::ReadFailed => last_after == last_before && reports.len() == 1
            && reports[0] is ReadFailed,
        Event::Fatal(e) => last_after == last_before && reports.len() == 1 && (reports[0] matches Report::Fatal(g)
            && g == e),
        _ => last_after == last_before && reports.len() == 0,
    }
}

/// Drives one transcription session.
pub struct Session {
    phase: Phase,
    sink: TranscriptSink,
}

impl Session {
    pub closed spec fn phase_spec(&self) -> Phase {
        self.phase
    }

    pub closed spec fn sink_spec(&self) -> TranscriptSink {
        self.sink
    }

    /// A session that has not set anything up yet, reporting to `sink`.
    pub fn new(sink: TranscriptSink) -> (r: Session)
        ensures
            r.phase_spec() == Phase::Idle,
            r.sink_spec() == sink,
    {
        Session { phase: Phase::Idle, sink }
    }

    /// Where the session stands.
    pub fn phase(&self) -> (r: Phase)
        ensures
            r == self.phase_spec(),
    {
        self.phase
    }

    /// Whether frames are still to be read.
    pub fn should_continue(&self) -> (r: bool)
        ensures
            r == (self.phase_spec() == Phase::Recording),
    {
        self.phase == Phase::Recording
    }

    /// Takes in what happened and decides what to show and what to do next.
    pub fn step(&mut self, event: Event) -> (r: Step)
        ensures
            final(self).phase_spec() == next_phase(
                old(self).phase_spec(),
                event,
                old(self).sink_spec().stop_phrase(),
            ),
            r.command == command_for(old(self).phase_spec(), final(self).phase_spec()),
            final(self).sink_spec().stop_phrase() == old(self).sink_spec().stop_phrase(),
            final(self).sink_spec().vocabulary() == old(self).sink_spec().vocabulary(),
            old(self).phase_spec() != Phase::Recording ==> r.reports@.len() == 0
                && final(self).sink_spec().last_partial() == old(self).sink_spec().last_partial(),
            old(self).phase_spec() == Phase::Recording ==> recording_reports(
                event,
                r.reports@,
                old(self).sink_spec().last_partial(),
                final(self).sink_spec().last_partial(),
                old(self).sink_spec().stop_phrase(),
                old(self).sink_spec().vocabulary(),
            ),
    {
        let before = self.phase;
        let mut reports: Vec<Report> = Vec::new();
        match before {
            Phase::Idle => match event {
                Event::SetUp => {
                    self.phase = Phase::Ready;
                },
                Event::Fatal(e) => {
                    self.phase = Phase::Failed(e);
                },
                Event::Interrupted => {
                    self.phase = Phase::Stopped;
                },
                _ => {},
            },
            Phase::Ready => match event {
                Event::StreamStarted => {
                    self.phase = Phase::Recording;
                },
                Event::Fatal(e) => {
                    self.phase = Phase::Failed(e);
                },
                Event::Interrupted => {
                    self.phase = Phase::Stopped;
                },
                _ => {},
            },
            Phase::Recording => {
                match event {
                    Event::Frame(Decoded::Running(text)) => {
                        match self.sink.on_partial(text) {
                            Some(t) => reports.push(Report::Partial(t)),
                            None => {},
                        }
                    },
                    Event::Frame(Decoded::Finalized(ranked)) => {
                        match FinalResult::from_ranked(ranked) {
                            Some(result) => {
                                let report = self.sink.on_final(&result);
                                if report.stop {
                                    self.phase = Phase::Stopped;
                                }
                                reports.push(Report::Final(report));
                            },
                            None => reports.push(Report::DecodeFailed),
                        }
                    },
                    Event::Frame(Decoded::Failed) => reports.push(Report::DecodeFailed),
                    Event::ReadFailed => reports.push(Report::ReadFailed),
                    Event::Fatal(e) => {
                        self.phase = Phase::Failed(e);
                        reports.push(Report::Fatal(e));
                    },
                    Event::Interrupted => {
                        self.phase = Phase::Stopped;
                    },
                    _ => {},
                }
            },
            Phase::Stopped => {},
            Phase::Failed(_) => {},
        }
        let command = match self.phase {
            Phase::Idle => Command::SetUp,
            Phase::Ready => Command::StartStream,
            Phase::Recording => Command::ReadFrame,
            _ => if before == Phase::Recording {
                Command::StopStream
            } else {
                Command::Exit
            },
        };
        Step { reports, command }
    }
}

} // verus!
