//! The client's side: its part of the protocol, and the loop that takes a
//! frame from the camera, sends it, waits for the answer and shows it.

use crate::result::{
    lemma_record_length,
    lemma_record_round_trip,
    parse_keypoints,
    record_of,
    spec_parse_keypoints,
    InferenceResult,
    KEYPOINT_VALUES,
};
use crate::wire::{
    encode_frame,
    frame_of,
    lemma_accept_in_portions,
    lemma_frame_round_trip,
    spec_accept,
    spec_decode_frame,
    spec_missing,
    be32,
    lemma_prefix_round_trip,
    FrameReader,
    ProtocolError,
};
use vstd::prelude::*;

verus! {

/// Mathematical model of the client's end of a connection: the bytes of
/// the message that is being read, and the keypoints of the answer whose
/// image is still to come.
pub struct ServerFacingModel {
    pub pending: Seq<u8>,
    pub keypoints: Option<Seq<u32>>,
}

/// What a step of reading gives: the next state and the answer, if it is
/// complete.
pub type ReceiveStep = Result<(ServerFacingModel, Option<(Seq<u32>, Seq<u8>)>), ProtocolError>;

impl ServerFacingModel {
    /// The end of a connection on which nothing was read.
    pub open spec fn fresh() -> ServerFacingModel {
        ServerFacingModel { pending: Seq::empty(), keypoints: None }
    }

    /// The invariant: no whole message is held back, and keypoints that
    /// wait for their image are those of one result.
    pub open spec fn wf(self) -> bool {
        &&& spec_decode_frame(self.pending) is None
        &&& self.keypoints matches Some(words) ==> words.len() == KEYPOINT_VALUES
    }

    /// The end with `chunk` added to the message that is being read.
    pub open spec fn holding(self, chunk: Seq<u8>) -> ServerFacingModel {
        ServerFacingModel { pending: self.pending + chunk, keypoints: self.keypoints }
    }

    /// What reading `chunk` does. An answer is two messages in a fixed
    /// order: the first has to hold the keypoints, the second is the
    /// image, whatever it holds.
    pub open spec fn receive(self, chunk: Seq<u8>) -> ReceiveStep {
        match spec_accept(self.pending, chunk) {
            Err(e) => Err(e),
            Ok((rest, None)) => Ok(
                (ServerFacingModel { pending: rest, keypoints: self.keypoints }, None),
            ),
            Ok((rest, Some(payload))) => match self.keypoints {
                None => match spec_parse_keypoints(payload) {
                    Some(words) => Ok(
                        (ServerFacingModel { pending: rest, keypoints: Some(words) }, None),
                    ),
                    None => Err(ProtocolError::Malformed),
                },
                Some(words) => Ok(
                    (ServerFacingModel { pending: rest, keypoints: None }, Some((words, payload))),
                ),
            },
        }
    }
}

/// The client's end of a connection.
pub struct ServerFacing {
    reader: FrameReader,
    keypoints: Option<InferenceResult>,
}

impl View for ServerFacing {
    type V = ServerFacingModel;

    closed spec fn view(&self) -> ServerFacingModel {
        ServerFacingModel {
            pending: self.reader@,
            keypoints: match self.keypoints {
                Some(result) => Some(result.keypoints@),
                None => None,
            },
        }
    }
}

impl ServerFacing {
    /// The invariant of the client's end.
    pub closed spec fn wf(&self) -> bool {
        &&& self.reader.wf()
        &&& self@.wf()
    }

    /// The model of a well-formed end is well formed.
    pub proof fn lemma_model_wf(&self)
        requires
            self.wf(),
        ensures
            self@.wf(),
    {
    }

    /// The client's end of a new connection.
    pub fn new() -> (server: ServerFacing)
        ensures
            server.wf(),
            server@ == ServerFacingModel::fresh(),
    {
        let server = ServerFacing { reader: FrameReader::new(), keypoints: None };
        proof {
            server.reader.lemma_holds_no_whole_frame();
        }
        server
    }

    /// The message that carries a frame to the server: its length, then
    /// its bytes, to be written whole.
    pub fn send_image(&self, image_bytes: &[u8]) -> (message: Result<Vec<u8>, ProtocolError>)
        ensures
            match message {
                Ok(bytes) => image_bytes@.len() <= u32::MAX && bytes@ == frame_of(image_bytes@),
                Err(e) => image_bytes@.len() > u32::MAX && e == ProtocolError::Oversized,
            },
    {
        encode_frame(image_bytes)
    }

    /// Number of bytes to read next, at most.
    pub fn read_size(&self) -> (n: usize)
        requires
            self.wf(),
        ensures
            n == spec_missing(self@.pending),
            n > 0,
    {
        self.reader.wanted()
    }

    /// Takes the bytes that were read and gives the answer once its two
    /// messages are complete. More bytes than `read_size` are refused and
    /// change nothing. A first message that holds no keypoints is
    /// refused, and the end stands at the start of the next message.
    pub fn receive_result(&mut self, chunk: &[u8]) -> (answer: Result<
        Option<(InferenceResult, Vec<u8>)>,
        ProtocolError,
    >)
        requires
            old(self).wf(),
        ensures
            final(self).wf(),
            match answer {
                Ok(Some((result, image))) => {
                    &&& result.wf()
                    &&& old(self)@.receive(chunk@) == Ok::<
                        (ServerFacingModel, Option<(Seq<u32>, Seq<u8>)>),
                        ProtocolError,
                    >((final(self)@, Some((result.keypoints@, image@))))
                },
                Ok(None) => old(self)@.receive(chunk@) == Ok::<
                    (ServerFacingModel, Option<(Seq<u32>, Seq<u8>)>),
                    ProtocolError,
                >((final(self)@, None)),
                Err(e) => {
                    &&& old(self)@.receive(chunk@) == Err::<
                        (ServerFacingModel, Option<(Seq<u32>, Seq<u8>)>),
                        ProtocolError,
                    >(e)
                    &&& final(self)@ == if e == ProtocolError::Excess {
                        old(self)@
                    } else {
                        ServerFacingModel::fresh()
                    }
                },
            },
    {
        proof {
            self.reader.lemma_holds_no_whole_frame();
        }
        let payload: Vec<u8> = match self.reader.accept(chunk) {
            Err(e) => {
                return Err(e);
            },
            Ok(None) => {
                proof {
                    self.reader.lemma_holds_no_whole_frame();
                }
                return Ok(None);
            },
            Ok(Some(payload)) => payload,
        };
        proof {
            self.reader.lemma_holds_no_whole_frame();
        }
        let mut held: Option<InferenceResult> = None;
        core::mem::swap(&mut held, &mut self.keypoints);
        match held {
            None => match parse_keypoints(payload.as_slice()) {
                Ok(result) => {
                    self.keypoints = Some(result);
                    Ok(None)
                },
                Err(e) => Err(e),
            },
            Some(result) => Ok(Some((result, payload))),
        }
    }
}

/// An answer read as it was written, in four reads: the prefix and the
/// payload of the keypoints, then the prefix and the payload of the
/// image. The fourth read gives the keypoints and the image back, and
/// the end stands ready for the next answer.
pub proof fn lemma_answer_in_four_reads(words: Seq<u32>, image: Seq<u8>)
    requires
        words.len() == KEYPOINT_VALUES,
        0 < image.len() <= u32::MAX,
    ensures
        ({
            let record = record_of(words);
            let start = ServerFacingModel::fresh();
            let first = start.receive(be32(record.len() as u32));
            &&& first is Ok
            &&& first->Ok_0.1 is None
            &&& first->Ok_0.0.receive(record) is Ok
            &&& first->Ok_0.0.receive(record)->Ok_0.1 is None
            &&& first->Ok_0.0.receive(record)->Ok_0.0.receive(be32(image.len() as u32)) is Ok
            &&& first->Ok_0.0.receive(record)->Ok_0.0.receive(
                be32(image.len() as u32),
            )->Ok_0.0.receive(image) == Ok::<
                (ServerFacingModel, Option<(Seq<u32>, Seq<u8>)>),
                ProtocolError,
            >((ServerFacingModel::fresh(), Some((words, image))))
        }),
{
    let record = record_of(words);
    lemma_record_length(words);
    lemma_record_round_trip(words, Seq::empty());
    assert(record + Seq::<u8>::empty() =~= record);
    let empty = Seq::<u8>::empty();
    let h1 = be32(record.len() as u32);
    let h2 = be32(image.len() as u32);
    lemma_prefix_round_trip(record.len() as u32);
    lemma_prefix_round_trip(image.len() as u32);
    lemma_frame_round_trip(record, empty);
    lemma_frame_round_trip(image, empty);
    assert(frame_of(record) + empty =~= frame_of(record));
    assert(frame_of(image) + empty =~= frame_of(image));

    assert(empty + h1 =~= h1);
    let s1 = ServerFacingModel { pending: h1, keypoints: None };
    assert(ServerFacingModel::fresh().receive(h1) == Ok::<
        (ServerFacingModel, Option<(Seq<u32>, Seq<u8>)>),
        ProtocolError,
    >((s1, None)));
    assert(h1 + record =~= frame_of(record));
    let s2 = ServerFacingModel { pending: empty, keypoints: Some(words) };
    assert(s1.receive(record) == Ok::<
        (ServerFacingModel, Option<(Seq<u32>, Seq<u8>)>),
        ProtocolError,
    >((s2, None)));
    assert(empty + h2 =~= h2);
    let s3 = ServerFacingModel { pending: h2, keypoints: Some(words) };
    assert(s2.receive(h2) == Ok::<
        (ServerFacingModel, Option<(Seq<u32>, Seq<u8>)>),
        ProtocolError,
    >((s3, None)));
    assert(h2 + image =~= frame_of(image));
}

/// The portions in which an answer arrives do not matter: reading `a`
/// and then `b` gives what reading both at once gives.
pub proof fn lemma_portions_do_not_matter(m: ServerFacingModel, a: Seq<u8>, b: Seq<u8>)
    requires
        m.wf(),
        a.len() + b.len() <= spec_missing(m.pending),
        b.len() > 0,
    ensures
        m.receive(a) == Ok::<(ServerFacingModel, Option<(Seq<u32>, Seq<u8>)>), ProtocolError>(
            (m.holding(a), None),
        ),
        m.holding(a).wf(),
        m.holding(a).receive(b) == m.receive(a + b),
{
    lemma_accept_in_portions(m.pending, a, b);
}

/// Number of frames after which the loop reports its rate.
pub const REPORT_INTERVAL: u64 = 30;

/// Why the loop stopped.
#[derive(Clone, Copy, Debug, PartialEq, Eq, Structural)]
pub enum StopReason {
    /// A key was pressed.
    KeyPressed,
    /// The camera, the connection or the display failed.
    Failed,
}

/// What the loop does next.
#[derive(Clone, Copy, Debug, PartialEq, Eq, Structural)]
pub enum LoopPhase {
    /// Take a frame from the camera.
    Capture,
    /// Send the frame.
    Send,
    /// Wait for the answer.
    Receive,
    /// Show the image of the answer.
    Render,
    /// Look for a key.
    Poll,
    /// Nothing: the loop is over, and the camera is to be stopped.
    Stopped(StopReason),
}

/// What the last action of the loop gave.
#[derive(Clone, Copy, Debug, PartialEq, Eq, Structural)]
pub enum LoopEvent {
    /// The action succeeded.
    Done,
    /// The action failed.
    Failed,
    /// The image of the answer could not be decoded and was not shown.
    Undecodable,
    /// The key that was found; none, if it is not positive.
    Key(i32),
}

/// The phase that follows `phase` on `event`. One iteration goes from
/// capture to poll; a failure stops the loop, and so does a key. An image
/// that cannot be decoded is skipped.
pub open spec fn spec_next_phase(phase: LoopPhase, event: LoopEvent) -> LoopPhase {
    match phase {
        LoopPhase::Capture => match event {
            LoopEvent::Done => LoopPhase::Send,
            _ => LoopPhase::Stopped(StopReason::Failed),
        },
        LoopPhase::Send => match event {
            LoopEvent::Done => LoopPhase::Receive,
            _ => LoopPhase::Stopped(StopReason::Failed),
        },
        LoopPhase::Receive => match event {
            LoopEvent::Done => LoopPhase::Render,
            _ => LoopPhase::Stopped(StopReason::Failed),
        },
        LoopPhase::Render => match event {
            LoopEvent::Done => LoopPhase::Poll,
            LoopEvent::Undecodable => LoopPhase::Poll,
            _ => LoopPhase::Stopped(StopReason::Failed),
        },
        LoopPhase::Poll => match event {
            LoopEvent::Key(key) => if key > 0 {
                LoopPhase::Stopped(StopReason::KeyPressed)
            } else {
                LoopPhase::Capture
            },
            _ => LoopPhase::Stopped(StopReason::Failed),
        },
        LoopPhase::Stopped(reason) => LoopPhase::Stopped(reason),
    }
}

/// The count of frames after `event` in `phase`: a frame counts once it
/// was rendered or skipped. The count stops at the largest number.
pub open spec fn spec_next_frames(phase: LoopPhase, frames: u64, event: LoopEvent) -> u64 {
    if phase == LoopPhase::Render && (event == LoopEvent::Done || event == LoopEvent::Undecodable)
        && frames < u64::MAX {
        (frames + 1) as u64
    } else {
        frames
    }
}

/// The client's loop: its phase and the number of frames it has gone
/// through.
pub struct App {
    phase: LoopPhase,
    frames: u64,
}

impl App {
    /// The phase of the loop.
    pub closed spec fn spec_phase(&self) -> LoopPhase {
        self.phase
    }

    /// The number of frames rendered or skipped.
    pub closed spec fn spec_frames(&self) -> u64 {
        self.frames
    }

    /// A loop before its first frame.
    pub fn new() -> (app: App)
        ensures
            app.spec_phase() == LoopPhase::Capture,
            app.spec_frames() == 0,
    {
        App { phase: LoopPhase::Capture, frames: 0 }
    }

    /// The phase of the loop.
    pub fn phase(&self) -> (phase: LoopPhase)
        ensures
            phase == self.spec_phase(),
    {
        self.phase
    }

    /// The number of frames rendered or skipped.
    pub fn frames(&self) -> (frames: u64)
        ensures
            frames == self.spec_frames(),
    {
        self.frames
    }

    /// True if the rate is to be reported now: after every
    /// `REPORT_INTERVAL`-th frame, before the key is looked for.
    pub fn report_due(&self) -> (due: bool)
        ensures
            due == (self.spec_phase() == LoopPhase::Poll && self.spec_frames() % REPORT_INTERVAL
                == 0),
    {
        match self.phase {
            LoopPhase::Poll => self.frames % REPORT_INTERVAL == 0,
            _ => false,
        }
    }

    /// Takes what the last action gave and tells what to do next.
    pub fn run(&mut self, event: LoopEvent) -> (next: LoopPhase)
        ensures
            next == spec_next_phase(old(self).spec_phase(), event),
            final(self).spec_phase() == next,
            final(self).spec_frames() == spec_next_frames(
                old(self).spec_phase(),
                old(self).spec_frames(),
                event,
            ),
    {
        let next: LoopPhase = match self.phase {
            LoopPhase::Capture => match event {
                LoopEvent::Done => LoopPhase::Send,
                _ => LoopPhase::Stopped(StopReason::Failed),
            },
            LoopPhase::Send => match event {
                LoopEvent::Done => LoopPhase::Receive,
                _ => LoopPhase::Stopped(StopReason::Failed),
            },
            LoopPhase::Receive => match event {
                LoopEvent::Done => LoopPhase::Render,
                _ => LoopPhase::Stopped(StopReason::Failed),
            },
            LoopPhase::Render => match event {
                LoopEvent::Done | LoopEvent::Undecodable => {
                    if self.frames < u64::MAX {
                        self.frames = self.frames + 1;
                    }
                    LoopPhase::Poll
                },
                _ => LoopPhase::Stopped(StopReason::Failed),
            },
            LoopPhase::Poll => match event {
                LoopEvent::Key(key) => if key > 0 {
                    LoopPhase::Stopped(StopReason::KeyPressed)
                } else {
                    LoopPhase::Capture
                },
                _ => LoopPhase::Stopped(StopReason::Failed),
            },
            LoopPhase::Stopped(reason) => LoopPhase::Stopped(reason),
        };
        self.phase = next;
        next
    }
}

/// A loop that has stopped stays stopped, for the reason for which it
/// stopped, and counts no more frames.
pub proof fn lemma_stopped_is_final(reason: StopReason, frames: u64, event: LoopEvent)
    ensures
        spec_next_phase(LoopPhase::Stopped(reason), event) == LoopPhase::Stopped(reason),
        spec_next_frames(LoopPhase::Stopped(reason), frames, event) == frames,
{
}

/// One iteration without failure and without a key goes through the five
/// phases in order, comes back to capture, and counts one frame.
pub proof fn lemma_iteration_counts_one_frame(frames: u64, key: i32)
    requires
        frames < u64::MAX,
        key <= 0,
    ensures
        spec_next_phase(LoopPhase::Capture, LoopEvent::Done) == LoopPhase::Send,
        spec_next_phase(LoopPhase::Send, LoopEvent::Done) == LoopPhase::Receive,
        spec_next_phase(LoopPhase::Receive, LoopEvent::Done) == LoopPhase::Render,
        spec_next_phase(LoopPhase::Render, LoopEvent::Done) == LoopPhase::Poll,
        spec_next_phase(LoopPhase::Poll, LoopEvent::Key(key)) == LoopPhase::Capture,
        spec_next_frames(LoopPhase::Render, frames, LoopEvent::Done) == frames + 1,
{
}

} // verus!
