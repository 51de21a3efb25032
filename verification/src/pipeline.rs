//! The three stages that serve one connection: receive, infer, send. Two
//! channels link them. A stage that ends closes its ends of the channels,
//! which stops its neighbours in turn. What the stages hand on keeps its
//! order from the socket to the socket.
//!
//! The pipeline decides; its caller reads, infers and writes, each on a
//! task of its own, and reports what happened.

use crate::channel::{
    lemma_channel_keeps_order,
    lemma_map_channel,
    lemma_receive_takes_oldest,
    lemma_send_queues_last,
    ChannelModel,
    PipelineChannel,
    Received,
};
use crate::result::{encode_result, spec_encode_result, InferenceResult, KEYPOINT_VALUES};
use crate::wire::{
    frames_of,
    lemma_accept_completes_exactly,
    lemma_accept_in_portions,
    lemma_frames_keep_order,
    lemma_frames_of_push,
    spec_accept,
    spec_decode_frame,
    spec_decode_frames,
    spec_missing,
    FrameReader,
    ProtocolError,
};
use vstd::prelude::*;

verus! {

/// A failure of the connection itself.
#[derive(Clone, Copy, Debug, PartialEq, Eq, Structural)]
pub enum ConnectionError {
    /// The peer closed the stream.
    Closed,
    /// Reading or writing failed.
    Failed,
}

/// A failure to infer the pose of one frame.
#[derive(Clone, Copy, Debug, PartialEq, Eq, Structural)]
pub enum InferenceError {
    /// The frame has not the size of the expected picture.
    BadFrame,
    /// The inference engine or the renderer failed.
    EngineFailed,
    /// The engine gave another number of values than a result has.
    BadOutput,
}

/// Why a stage failed.
#[derive(Clone, Copy, Debug, PartialEq, Eq, Structural)]
pub enum StageFault {
    Protocol(ProtocolError),
    Connection(ConnectionError),
    Inference(InferenceError),
    /// The stage's task died of something unforeseen.
    Panic,
}

/// Why a stage ended.
#[derive(Clone, Copy, Debug, PartialEq, Eq, Structural)]
pub enum StageEnd {
    /// The stage itself failed.
    Fault(StageFault),
    /// The stage before it has ended and nothing is left to do.
    UpstreamDone,
    /// The stage behind it has ended and takes nothing more.
    DownstreamGone,
}

/// Whether a stage runs.
#[derive(Clone, Copy, Debug, PartialEq, Eq, Structural)]
pub enum StageState {
    Running,
    Ended(StageEnd),
}

/// One of the three stages.
#[derive(Clone, Copy, Debug, PartialEq, Eq, Structural)]
pub enum Stage {
    Receive,
    Infer,
    Send,
}

/// What a read on the socket gave.
#[derive(Clone, Debug, PartialEq, Eq)]
pub enum ReadEvent {
    /// These bytes arrived.
    Data(Vec<u8>),
    /// Nothing arrived in time.
    TimedOut,
    /// The peer closed the stream.
    Closed,
    /// The read failed.
    Failed,
}

/// The answer to one frame: the keypoints and the rendered image.
#[derive(Clone, Debug, PartialEq, Eq)]
pub struct Annotated {
    pub result: InferenceResult,
    pub image: Vec<u8>,
}

/// An answer as plain values.
pub struct AnnotatedView {
    pub keypoints: Seq<u32>,
    pub image: Seq<u8>,
}

impl View for Annotated {
    type V = AnnotatedView;

    open spec fn view(&self) -> AnnotatedView {
        AnnotatedView { keypoints: self.result.keypoints@, image: self.image@ }
    }
}

/// The bytes of a frame.
pub open spec fn bytes_of() -> spec_fn(Vec<u8>) -> Seq<u8> {
    |v: Vec<u8>| v@
}

/// The plain values of an answer.
pub open spec fn answer_of() -> spec_fn(Annotated) -> AnnotatedView {
    |a: Annotated| a@
}

/// What the infer stage reports, as plain values.
pub open spec fn outcome_view(outcome: Result<Annotated, InferenceError>) -> Result<
    AnnotatedView,
    InferenceError,
> {
    match outcome {
        Ok(answer) => Ok(answer@),
        Err(e) => Err(e),
    }
}

/// The message that carries an answer.
pub open spec fn message_of(answer: AnnotatedView) -> Seq<u8> {
    spec_encode_result(answer.keypoints, answer.image)
}

/// True if an answer can be written: it has the values of a result and
/// an image whose length a prefix can say.
pub open spec fn writable(answer: AnnotatedView) -> bool {
    answer.keypoints.len() == KEYPOINT_VALUES && answer.image.len() <= u32::MAX
}

/// Mathematical model of a pipeline.
pub struct PipelineModel {
    /// Bytes read since the last whole frame.
    pub pending: Seq<u8>,
    /// Every byte taken from the socket, in order.
    pub consumed: Seq<u8>,
    /// The channel from the receive stage to the infer stage.
    pub frames: ChannelModel<Seq<u8>>,
    /// The channel from the infer stage to the send stage.
    pub results: ChannelModel<AnnotatedView>,
    pub receive: StageState,
    pub infer: StageState,
    pub send: StageState,
    /// The frame that the infer stage works on.
    pub in_flight: Option<Seq<u8>>,
    /// Every frame that was answered, with its answer, in order.
    pub answered: Seq<(Seq<u8>, AnnotatedView)>,
    /// Every message handed out for writing, in order.
    pub written: Seq<Seq<u8>>,
}

impl PipelineModel {
    /// A pipeline in which nothing has happened.
    pub open spec fn fresh() -> PipelineModel {
        PipelineModel {
            pending: Seq::empty(),
            consumed: Seq::empty(),
            frames: ChannelModel::fresh(),
            results: ChannelModel::fresh(),
            receive: StageState::Running,
            infer: StageState::Running,
            send: StageState::Running,
            in_flight: None,
            answered: Seq::empty(),
            written: Seq::empty(),
        }
    }

    /// Number of frames that the infer stage holds: one or none.
    pub open spec fn held(self) -> nat {
        if self.in_flight is Some {
            1
        } else {
            0
        }
    }

    /// The invariant of a pipeline.
    pub open spec fn wf(self) -> bool {
        &&& self.stages_wf()
        &&& self.stream_wf()
        &&& self.writing_wf()
    }

    /// While the receive stage runs, the bytes taken from the socket are
    /// the frames handed on, in order, and the beginning of the next.
    pub open spec fn stream_wf(self) -> bool {
        self.receive == StageState::Running ==> self.consumed == frames_of(self.frames.sent)
            + self.pending
    }

    /// While the send stage runs, every answer that it took was handed
    /// out as a message.
    pub open spec fn writing_wf(self) -> bool {
        self.send == StageState::Running ==> self.written.len() == self.results.delivered.len()
    }

    /// The part of the invariant that speaks of the stages and of what
    /// they have handed on.
    pub open spec fn stages_wf(self) -> bool {
        &&& spec_decode_frame(self.pending) is None
        &&& self.frames.wf()
        &&& self.results.wf()
        &&& (self.receive == StageState::Running) == self.frames.sender_open
        &&& (self.infer == StageState::Running) == self.frames.receiver_open
        &&& (self.infer == StageState::Running) == self.results.sender_open
        &&& (self.send == StageState::Running) == self.results.receiver_open
        &&& forall|k: int|
            0 <= k < self.frames.sent.len() ==> (#[trigger] self.frames.sent[k]).len() <= u32::MAX
        &&& self.in_flight is Some ==> self.infer == StageState::Running
        &&& self.answered.len() + self.held() <= self.frames.delivered.len()
        &&& forall|k: int|
            0 <= k < self.answered.len() ==> (#[trigger] self.answered[k]).0
                == self.frames.delivered[k]
        &&& self.in_flight matches Some(frame) ==> self.frames.delivered[self.answered.len() as int]
            == frame
        &&& self.infer == StageState::Running ==> self.frames.delivered.len()
            == self.answered.len() + self.held()
        &&& self.results.sent.len() == self.answered.len()
        &&& forall|k: int|
            0 <= k < self.answered.len() ==> (#[trigger] self.answered[k]).1
                == self.results.sent[k]
        &&& self.written.len() <= self.results.delivered.len()
        &&& forall|k: int|
            0 <= k < self.written.len() ==> #[trigger] self.written[k] == message_of(
                self.results.delivered[k],
            )
    }

    /// The pipeline after the receive stage ended.
    pub open spec fn end_receive(self, why: StageEnd) -> PipelineModel {
        PipelineModel {
            frames: self.frames.sender_closed(),
            receive: StageState::Ended(why),
            ..self
        }
    }

    /// The pipeline after the infer stage ended: it gives up the frame
    /// that it held and leaves both channels.
    pub open spec fn end_infer(self, why: StageEnd) -> PipelineModel {
        PipelineModel {
            frames: self.frames.receiver_closed(),
            results: self.results.sender_closed(),
            infer: StageState::Ended(why),
            in_flight: None,
            ..self
        }
    }

    /// The pipeline after the send stage ended.
    pub open spec fn end_send(self, why: StageEnd) -> PipelineModel {
        PipelineModel {
            results: self.results.receiver_closed(),
            send: StageState::Ended(why),
            ..self
        }
    }

    /// The pipeline after a read on the socket. A timeout changes nothing.
    /// Bytes are taken into the frame that is being assembled; a whole
    /// frame goes to the infer stage, and if that stage is gone the
    /// receive stage ends. A closed stream, a failed read or more bytes
    /// than were asked for end the receive stage.
    pub open spec fn after_read(self, event: ReadEvent) -> PipelineModel {
        if self.receive != StageState::Running {
            self
        } else {
            match event {
                ReadEvent::Data(bytes) => match spec_accept(self.pending, bytes@) {
                    Err(e) => self.end_receive(StageEnd::Fault(StageFault::Protocol(e))),
                    Ok((rest, None)) => PipelineModel {
                        pending: rest,
                        consumed: self.consumed + bytes@,
                        ..self
                    },
                    Ok((rest, Some(frame))) => if self.frames.accepts() {
                        PipelineModel {
                            pending: rest,
                            consumed: self.consumed + bytes@,
                            frames: self.frames.after_send(frame),
                            ..self
                        }
                    } else {
                        PipelineModel {
                            pending: rest,
                            consumed: self.consumed + bytes@,
                            ..self
                        }.end_receive(StageEnd::DownstreamGone)
                    },
                },
                ReadEvent::TimedOut => self,
                ReadEvent::Closed => self.end_receive(
                    StageEnd::Fault(StageFault::Connection(ConnectionError::Closed)),
                ),
                ReadEvent::Failed => self.end_receive(
                    StageEnd::Fault(StageFault::Connection(ConnectionError::Failed)),
                ),
            }
        }
    }

    /// The pipeline after the infer stage asked for a frame. It gets the
    /// oldest queued frame, unless it holds one already. If none is queued
    /// and none will come, the stage ends.
    pub open spec fn after_next_frame(self) -> PipelineModel {
        if self.infer != StageState::Running || self.in_flight is Some {
            self
        } else if self.frames.has_item() {
            PipelineModel {
                frames: self.frames.after_receive(),
                in_flight: Some(self.frames.queue[0]),
                ..self
            }
        } else if self.frames.sender_open {
            self
        } else {
            self.end_infer(StageEnd::UpstreamDone)
        }
    }

    /// The pipeline after the infer stage reported on the frame that it
    /// holds. An answer goes to the send stage, and if that stage is gone
    /// the infer stage ends. A failure ends the infer stage.
    pub open spec fn after_frame_done(
        self,
        outcome: Result<AnnotatedView, InferenceError>,
    ) -> PipelineModel {
        if self.infer != StageState::Running || self.in_flight is None {
            self
        } else {
            match outcome {
                Ok(answer) => if self.results.accepts() {
                    PipelineModel {
                        results: self.results.after_send(answer),
                        in_flight: None,
                        answered: self.answered.push((self.in_flight->Some_0, answer)),
                        ..self
                    }
                } else {
                    self.end_infer(StageEnd::DownstreamGone)
                },
                Err(e) => self.end_infer(StageEnd::Fault(StageFault::Inference(e))),
            }
        }
    }

    /// The pipeline after the send stage asked for a message. It gets the
    /// message of the oldest queued answer. An answer that cannot be
    /// written ends the stage; so does an empty queue that stays empty.
    pub open spec fn after_next_message(self) -> PipelineModel {
        if self.send != StageState::Running {
            self
        } else if self.results.has_item() {
            let answer = self.results.queue[0];
            let taken = PipelineModel { results: self.results.after_receive(), ..self };
            if writable(answer) {
                PipelineModel { written: self.written.push(message_of(answer)), ..taken }
            } else if answer.keypoints.len() != KEYPOINT_VALUES {
                taken.end_send(StageEnd::Fault(StageFault::Protocol(ProtocolError::Malformed)))
            } else {
                taken.end_send(StageEnd::Fault(StageFault::Protocol(ProtocolError::Oversized)))
            }
        } else if self.results.sender_open {
            self
        } else {
            self.end_send(StageEnd::UpstreamDone)
        }
    }

    /// The pipeline after `stage` ended for `why`, if it was running.
    pub open spec fn after_stage_ended(self, stage: Stage, why: StageEnd) -> PipelineModel {
        match stage {
            Stage::Receive => if self.receive == StageState::Running {
                self.end_receive(why)
            } else {
                self
            },
            Stage::Infer => if self.infer == StageState::Running {
                self.end_infer(why)
            } else {
                self
            },
            Stage::Send => if self.send == StageState::Running {
                self.end_send(why)
            } else {
                self
            },
        }
    }

    /// True if no stage runs any more.
    pub open spec fn finished(self) -> bool {
        &&& self.receive != StageState::Running
        &&& self.infer != StageState::Running
        &&& self.send != StageState::Running
    }
}

/// The pipeline of one connection.
pub struct Pipeline {
    reader: FrameReader,
    frames: PipelineChannel<Vec<u8>>,
    results: PipelineChannel<Annotated>,
    receive: StageState,
    infer: StageState,
    send: StageState,
    busy: bool,
    consumed: Ghost<Seq<u8>>,
    in_flight: Ghost<Option<Seq<u8>>>,
    answered: Ghost<Seq<(Seq<u8>, AnnotatedView)>>,
    written: Ghost<Seq<Seq<u8>>>,
}

impl View for Pipeline {
    type V = PipelineModel;

    closed spec fn view(&self) -> PipelineModel {
        PipelineModel {
            pending: self.reader@,
            consumed: self.consumed@,
            frames: self.frames@.map(bytes_of()),
            results: self.results@.map(answer_of()),
            receive: self.receive,
            infer: self.infer,
            send: self.send,
            in_flight: self.in_flight@,
            answered: self.answered@,
            written: self.written@,
        }
    }
}

impl Pipeline {
    /// The invariant of a pipeline. `new` establishes it and every method
    /// keeps it.
    pub closed spec fn wf(&self) -> bool {
        &&& self.stages_wf()
        &&& self@.wf()
    }

    spec fn stages_wf(&self) -> bool {
        &&& self.reader.wf()
        &&& self.frames.wf()
        &&& self.results.wf()
        &&& self.busy == (self.in_flight@ is Some)
        &&& self@.stages_wf()
    }

    /// The model of a well-formed pipeline is well formed.
    pub proof fn lemma_model_wf(&self)
        requires
            self.wf(),
        ensures
            self@.wf(),
    {
    }

    /// A pipeline in which nothing has happened: the three stages run and
    /// the channels are empty.
    pub fn new() -> (pipeline: Pipeline)
        ensures
            pipeline.wf(),
            pipeline@ == PipelineModel::fresh(),
    {
        let pipeline = Pipeline {
            reader: FrameReader::new(),
            frames: PipelineChannel::new(),
            results: PipelineChannel::new(),
            receive: StageState::Running,
            infer: StageState::Running,
            send: StageState::Running,
            busy: false,
            consumed: Ghost(Seq::empty()),
            in_flight: Ghost(None),
            answered: Ghost(Seq::empty()),
            written: Ghost(Seq::empty()),
        };
        proof {
            lemma_map_channel(pipeline.frames@, bytes_of());
            lemma_map_channel(pipeline.results@, answer_of());
            assert(pipeline@.frames.sent =~= Seq::<Seq<u8>>::empty());
            assert(pipeline@.frames.queue =~= Seq::<Seq<u8>>::empty());
            assert(pipeline@.frames.delivered =~= Seq::<Seq<u8>>::empty());
            assert(pipeline@.results.sent =~= Seq::<AnnotatedView>::empty());
            assert(pipeline@.results.queue =~= Seq::<AnnotatedView>::empty());
            assert(pipeline@.results.delivered =~= Seq::<AnnotatedView>::empty());
            assert(frames_of(pipeline@.frames.sent) + pipeline@.pending =~= Seq::<u8>::empty());
        }
        pipeline
    }

    /// State of a stage.
    pub fn stage_state(&self, stage: Stage) -> (state: StageState)
        ensures
            state == match stage {
                Stage::Receive => self@.receive,
                Stage::Infer => self@.infer,
                Stage::Send => self@.send,
            },
    {
        match stage {
            Stage::Receive => self.receive,
            Stage::Infer => self.infer,
            Stage::Send => self.send,
        }
    }

    /// True if no stage runs any more.
    pub fn is_finished(&self) -> (done: bool)
        ensures
            done == self@.finished(),
    {
        !matches!(self.receive, StageState::Running) && !matches!(self.infer, StageState::Running)
            && !matches!(self.send, StageState::Running)
    }

    fn end_receive(&mut self, why: StageEnd)
        requires
            old(self).stages_wf(),
            old(self)@.writing_wf(),
            old(self)@.receive == StageState::Running,
        ensures
            final(self).wf(),
            final(self)@ == old(self)@.end_receive(why),
    {
        proof {
            lemma_map_channel(self.frames@, bytes_of());
        }
        self.receive = StageState::Ended(why);
        self.frames.close_sender();
        proof {
            lemma_map_channel(self.frames@, bytes_of());
        }
    }

    fn end_infer(&mut self, why: StageEnd)
        requires
            old(self).wf(),
            old(self)@.infer == StageState::Running,
        ensures
            final(self).wf(),
            final(self)@ == old(self)@.end_infer(why),
    {
        proof {
            lemma_map_channel(self.frames@, bytes_of());
            lemma_map_channel(self.results@, answer_of());
        }
        self.infer = StageState::Ended(why);
        self.busy = false;
        self.in_flight = Ghost(None);
        self.frames.close_receiver();
        self.results.close_sender();
        proof {
            lemma_map_channel(self.frames@, bytes_of());
            lemma_map_channel(self.results@, answer_of());
        }
    }

    fn end_send(&mut self, why: StageEnd)
        requires
            old(self).stages_wf(),
            old(self)@.stream_wf(),
            old(self)@.send == StageState::Running,
        ensures
            final(self).wf(),
            final(self)@ == old(self)@.end_send(why),
    {
        proof {
            lemma_map_channel(self.results@, answer_of());
        }
        self.send = StageState::Ended(why);
        self.results.close_receiver();
        proof {
            lemma_map_channel(self.results@, answer_of());
        }
    }

    /// Reports what a read on the socket gave, and tells whether the
    /// receive stage goes on. A timeout is no error: nothing changes and
    /// the stage goes on.
    pub fn on_read(&mut self, event: ReadEvent) -> (state: StageState)
        requires
            old(self).wf(),
        ensures
            final(self).wf(),
            final(self)@ == old(self)@.after_read(event),
            state == final(self)@.receive,
    {
        match self.receive {
            StageState::Running => {},
            StageState::Ended(_) => {
                return self.receive;
            },
        }
        match event {
            ReadEvent::Data(bytes) => {
                proof {
                    self.reader.lemma_holds_no_whole_frame();
                    lemma_map_channel(self.frames@, bytes_of());
                }
                match self.reader.accept(bytes.as_slice()) {
                    Err(e) => {
                        self.end_receive(StageEnd::Fault(StageFault::Protocol(e)));
                    },
                    Ok(None) => {
                        proof {
                            lemma_accept_completes_exactly(old(self)@.pending, bytes@);
                        }
                        self.consumed = Ghost(self.consumed@ + bytes@);
                        proof {
                            self.reader.lemma_holds_no_whole_frame();
                            assert(self@.consumed =~= frames_of(self@.frames.sent)
                                + self@.pending);
                        }
                    },
                    Ok(Some(frame)) => {
                        proof {
                            lemma_accept_completes_exactly(old(self)@.pending, bytes@);
                            lemma_frames_of_push(old(self)@.frames.sent, frame@);
                        }
                        self.consumed = Ghost(self.consumed@ + bytes@);
                        proof {
                            self.reader.lemma_holds_no_whole_frame();
                        }
                        match self.frames.send(frame) {
                            Ok(_) => {
                                proof {
                                    lemma_map_channel(self.frames@, bytes_of());
                                    assert(self@.frames == old(self)@.frames.after_send(frame@));
                                    assert(self@.consumed =~= frames_of(self@.frames.sent)
                                        + self@.pending);
                                }
                            },
                            Err(_) => {
                                self.end_receive(StageEnd::DownstreamGone);
                            },
                        }
                    },
                }
            },
            ReadEvent::TimedOut => {},
            ReadEvent::Closed => {
                self.end_receive(StageEnd::Fault(StageFault::Connection(ConnectionError::Closed)));
            },
            ReadEvent::Failed => {
                self.end_receive(StageEnd::Fault(StageFault::Connection(ConnectionError::Failed)));
            },
        }
        self.receive
    }

    /// Hands the oldest queued frame to the infer stage. `Empty` tells
    /// the stage to wait: nothing is queued yet, or it has not reported on
    /// the frame that it holds. `Closed` tells it to stop: it has ended,
    /// or it ends now because no frame is queued and none will come.
    pub fn next_frame(&mut self) -> (next: Received<Vec<u8>>)
        requires
            old(self).wf(),
        ensures
            final(self).wf(),
            final(self)@ == old(self)@.after_next_frame(),
            match next {
                Received::Item(frame) => {
                    &&& old(self)@.in_flight is None
                    &&& final(self)@.in_flight == Some(frame@)
                    &&& final(self)@.infer == StageState::Running
                },
                Received::Empty => final(self)@ == old(self)@ && final(self)@.infer
                    == StageState::Running,
                Received::Closed => final(self)@.infer != StageState::Running,
            },
    {
        match self.infer {
            StageState::Running => {},
            StageState::Ended(_) => {
                return Received::Closed;
            },
        }
        if self.busy {
            return Received::Empty;
        }
        proof {
            lemma_map_channel(self.frames@, bytes_of());
        }
        match self.frames.receive() {
            Received::Item(frame) => {
                self.busy = true;
                self.in_flight = Ghost(Some(frame@));
                proof {
                    lemma_map_channel(self.frames@, bytes_of());
                    assert(self@.frames == old(self)@.frames.after_receive());
                    assert forall|k: int| 0 <= k < self@.answered.len() implies (
                    #[trigger] self@.answered[k]).0 == self@.frames.delivered[k] by {
                        assert(self@.frames.delivered[k] == old(self)@.frames.delivered[k]);
                    }
                }
                Received::Item(frame)
            },
            Received::Empty => Received::Empty,
            Received::Closed => {
                self.end_infer(StageEnd::UpstreamDone);
                Received::Closed
            },
        }
    }

    /// Reports on the frame that the infer stage holds, and tells whether
    /// the stage goes on. An answer is queued for the send stage behind
    /// every earlier answer. A report without a frame changes nothing.
    pub fn frame_done(&mut self, outcome: Result<Annotated, InferenceError>) -> (state: StageState)
        requires
            old(self).wf(),
        ensures
            final(self).wf(),
            final(self)@ == old(self)@.after_frame_done(outcome_view(outcome)),
            state == final(self)@.infer,
    {
        match self.infer {
            StageState::Running => {},
            StageState::Ended(_) => {
                return self.infer;
            },
        }
        if !self.busy {
            return self.infer;
        }
        match outcome {
            Ok(answer) => {
                proof {
                    lemma_map_channel(self.results@, answer_of());
                }
                let ghost frame = self.in_flight@->Some_0;
                let ghost plain = answer@;
                match self.results.send(answer) {
                    Ok(_) => {
                        self.busy = false;
                        self.in_flight = Ghost(None);
                        self.answered = Ghost(self.answered@.push((frame, plain)));
                        proof {
                            lemma_map_channel(self.results@, answer_of());
                            assert(self@.results == old(self)@.results.after_send(plain));
                        }
                    },
                    Err(_) => {
                        self.end_infer(StageEnd::DownstreamGone);
                    },
                }
            },
            Err(e) => {
                self.end_infer(StageEnd::Fault(StageFault::Inference(e)));
            },
        }
        self.infer
    }

    /// Hands the message of the oldest queued answer to the send stage,
    /// to be written whole. `Empty` tells the stage to wait. `Closed`
    /// tells it to stop: it has ended, or it ends now because the answer
    /// cannot be written or because no answer is queued and none will
    /// come.
    pub fn next_message(&mut self) -> (next: Received<Vec<u8>>)
        requires
            old(self).wf(),
        ensures
            final(self).wf(),
            final(self)@ == old(self)@.after_next_message(),
            match next {
                Received::Item(message) => {
                    &&& old(self)@.results.has_item()
                    &&& message@ == message_of(old(self)@.results.queue[0])
                    &&& final(self)@.written == old(self)@.written.push(message@)
                    &&& final(self)@.send == StageState::Running
                },
                Received::Empty => final(self)@ == old(self)@ && final(self)@.send
                    == StageState::Running,
                Received::Closed => final(self)@.send != StageState::Running,
            },
    {
        match self.send {
            StageState::Running => {},
            StageState::Ended(_) => {
                return Received::Closed;
            },
        }
        proof {
            lemma_map_channel(self.results@, answer_of());
        }
        match self.results.receive() {
            Received::Item(answer) => {
                proof {
                    lemma_map_channel(self.results@, answer_of());
                    assert(self@.results == old(self)@.results.after_receive());
                    assert forall|k: int| 0 <= k < self@.written.len() implies #[trigger]
                        self@.written[k] == message_of(self@.results.delivered[k]) by {
                        assert(self@.results.delivered[k] == old(self)@.results.delivered[k]);
                    }
                }
                match encode_result(&answer.result, answer.image.as_slice()) {
                    Ok(message) => {
                        self.written = Ghost(self.written@.push(message@));
                        Received::Item(message)
                    },
                    Err(e) => {
                        self.end_send(StageEnd::Fault(StageFault::Protocol(e)));
                        Received::Closed
                    },
                }
            },
            Received::Empty => Received::Empty,
            Received::Closed => {
                self.end_send(StageEnd::UpstreamDone);
                Received::Closed
            },
        }
    }

    /// Records that a stage has ended for a reason that the pipeline could
    /// not see: a write that failed, or a task that died. The stage
    /// leaves its channels. A stage that has ended before keeps its first
    /// reason.
    pub fn stage_ended(&mut self, stage: Stage, why: StageEnd) -> (state: StageState)
        requires
            old(self).wf(),
        ensures
            final(self).wf(),
            final(self)@ == old(self)@.after_stage_ended(stage, why),
            state == match stage {
                Stage::Receive => final(self)@.receive,
                Stage::Infer => final(self)@.infer,
                Stage::Send => final(self)@.send,
            },
            state != StageState::Running,
    {
        match stage {
            Stage::Receive => {
                match self.receive {
                    StageState::Running => {
                        self.end_receive(why);
                    },
                    StageState::Ended(_) => {},
                }
                self.receive
            },
            Stage::Infer => {
                match self.infer {
                    StageState::Running => {
                        self.end_infer(why);
                    },
                    StageState::Ended(_) => {},
                }
                self.infer
            },
            Stage::Send => {
                match self.send {
                    StageState::Running => {
                        self.end_send(why);
                    },
                    StageState::Ended(_) => {},
                }
                self.send
            },
        }
    }

    /// Number of bytes that the receive stage reads next, at most; `None`
    /// once it has ended.
    pub fn read_size(&self) -> (n: Option<usize>)
        requires
            self.wf(),
        ensures
            n == if self@.receive == StageState::Running {
                Some(spec_missing(self@.pending) as usize)
            } else {
                None
            },
            n matches Some(k) ==> k > 0 && k == spec_missing(self@.pending),
    {
        match self.receive {
            StageState::Running => Some(self.reader.wanted()),
            StageState::Ended(_) => None,
        }
    }
}

/// One step of one stage, as the pipeline sees it.
pub enum Step {
    /// The receive stage reports a read.
    Read(ReadEvent),
    /// The infer stage asks for a frame.
    NextFrame,
    /// The infer stage reports on its frame.
    FrameDone(Result<AnnotatedView, InferenceError>),
    /// The send stage asks for a message.
    NextMessage,
    /// A stage has ended for a reason of its own.
    StageEnded(Stage, StageEnd),
}

impl PipelineModel {
    /// The pipeline after one step.
    pub open spec fn after(self, step: Step) -> PipelineModel {
        match step {
            Step::Read(event) => self.after_read(event),
            Step::NextFrame => self.after_next_frame(),
            Step::FrameDone(outcome) => self.after_frame_done(outcome),
            Step::NextMessage => self.after_next_message(),
            Step::StageEnded(stage, why) => self.after_stage_ended(stage, why),
        }
    }

    /// The pipeline after the steps of a schedule, taken in turn.
    pub open spec fn after_all(self, schedule: Seq<Step>) -> PipelineModel
        decreases schedule.len(),
    {
        if schedule.len() == 0 {
            self
        } else {
            self.after_all(schedule.drop_last()).after(schedule.last())
        }
    }
}

proof fn lemma_end_receive_keeps_invariant(m: PipelineModel, why: StageEnd)
    requires
        m.stages_wf(),
        m.writing_wf(),
        m.receive == StageState::Running,
    ensures
        m.end_receive(why).wf(),
{
}

proof fn lemma_end_infer_keeps_invariant(m: PipelineModel, why: StageEnd)
    requires
        m.wf(),
        m.infer == StageState::Running,
    ensures
        m.end_infer(why).wf(),
{
    let e = m.end_infer(why);
    let n = m.frames.delivered.len() + m.frames.queue.len();
    assert(e.frames.delivered + e.frames.queue =~= m.frames.delivered);
    assert(m.frames.delivered =~= (m.frames.delivered + m.frames.queue).subrange(
        0,
        m.frames.delivered.len() as int,
    ));
    assert(m.frames.sent.subrange(0, n as int).subrange(0, m.frames.delivered.len() as int)
        =~= m.frames.sent.subrange(0, m.frames.delivered.len() as int));
}

proof fn lemma_end_send_keeps_invariant(m: PipelineModel, why: StageEnd)
    requires
        m.stages_wf(),
        m.stream_wf(),
        m.send == StageState::Running,
    ensures
        m.end_send(why).wf(),
{
    let e = m.end_send(why);
    let n = m.results.delivered.len() + m.results.queue.len();
    assert(e.results.delivered + e.results.queue =~= m.results.delivered);
    assert(m.results.delivered =~= (m.results.delivered + m.results.queue).subrange(
        0,
        m.results.delivered.len() as int,
    ));
    assert(m.results.sent.subrange(0, n as int).subrange(0, m.results.delivered.len() as int)
        =~= m.results.sent.subrange(0, m.results.delivered.len() as int));
}

proof fn lemma_read_keeps_invariant(m: PipelineModel, event: ReadEvent)
    requires
        m.wf(),
    ensures
        m.after_read(event).wf(),
{
    if m.receive == StageState::Running {
        match event {
            ReadEvent::Data(bytes) => {
                match spec_accept(m.pending, bytes@) {
                    Err(e) => {
                        lemma_end_receive_keeps_invariant(
                            m,
                            StageEnd::Fault(StageFault::Protocol(e)),
                        );
                    },
                    Ok((rest, None)) => {
                        lemma_accept_completes_exactly(m.pending, bytes@);
                        assert(m.consumed + bytes@ =~= frames_of(m.frames.sent) + rest);
                    },
                    Ok((rest, Some(frame))) => {
                        lemma_accept_completes_exactly(m.pending, bytes@);
                        lemma_frames_of_push(m.frames.sent, frame);
                        let taken = PipelineModel {
                            pending: rest,
                            consumed: m.consumed + bytes@,
                            ..m
                        };
                        if m.frames.accepts() {
                            lemma_send_queues_last(m.frames, frame);
                            let a = m.after_read(event);
                            assert(a.consumed =~= frames_of(a.frames.sent) + a.pending);
                        } else {
                            lemma_end_receive_keeps_invariant(taken, StageEnd::DownstreamGone);
                        }
                    },
                }
            },
            ReadEvent::TimedOut => {},
            ReadEvent::Closed => {
                lemma_end_receive_keeps_invariant(
                    m,
                    StageEnd::Fault(StageFault::Connection(ConnectionError::Closed)),
                );
            },
            ReadEvent::Failed => {
                lemma_end_receive_keeps_invariant(
                    m,
                    StageEnd::Fault(StageFault::Connection(ConnectionError::Failed)),
                );
            },
        }
    }
}

proof fn lemma_next_frame_keeps_invariant(m: PipelineModel)
    requires
        m.wf(),
    ensures
        m.after_next_frame().wf(),
{
    if m.infer == StageState::Running && m.in_flight is None {
        if m.frames.has_item() {
            lemma_receive_takes_oldest(m.frames);
            let a = m.after_next_frame();
            assert forall|k: int| 0 <= k < a.answered.len() implies (#[trigger] a.answered[k]).0
                == a.frames.delivered[k] by {
                assert(a.frames.delivered[k] == m.frames.delivered[k]);
            }
        } else if !m.frames.sender_open {
            lemma_end_infer_keeps_invariant(m, StageEnd::UpstreamDone);
        }
    }
}

proof fn lemma_frame_done_keeps_invariant(
    m: PipelineModel,
    outcome: Result<AnnotatedView, InferenceError>,
)
    requires
        m.wf(),
    ensures
        m.after_frame_done(outcome).wf(),
{
    if m.infer == StageState::Running && m.in_flight is Some {
        match outcome {
            Ok(answer) => {
                if m.results.accepts() {
                    lemma_send_queues_last(m.results, answer);
                } else {
                    lemma_end_infer_keeps_invariant(m, StageEnd::DownstreamGone);
                }
            },
            Err(e) => {
                lemma_end_infer_keeps_invariant(m, StageEnd::Fault(StageFault::Inference(e)));
            },
        }
    }
}

proof fn lemma_next_message_keeps_invariant(m: PipelineModel)
    requires
        m.wf(),
    ensures
        m.after_next_message().wf(),
{
    if m.send == StageState::Running {
        if m.results.has_item() {
            lemma_receive_takes_oldest(m.results);
            let answer = m.results.queue[0];
            let taken = PipelineModel { results: m.results.after_receive(), ..m };
            assert forall|k: int| 0 <= k < taken.written.len() implies #[trigger] taken.written[k]
                == message_of(taken.results.delivered[k]) by {
                assert(taken.results.delivered[k] == m.results.delivered[k]);
            }
            if writable(answer) {
            } else if answer.keypoints.len() != KEYPOINT_VALUES {
                lemma_end_send_keeps_invariant(
                    taken,
                    StageEnd::Fault(StageFault::Protocol(ProtocolError::Malformed)),
                );
            } else {
                lemma_end_send_keeps_invariant(
                    taken,
                    StageEnd::Fault(StageFault::Protocol(ProtocolError::Oversized)),
                );
            }
        } else if !m.results.sender_open {
            lemma_end_send_keeps_invariant(m, StageEnd::UpstreamDone);
        }
    }
}

proof fn lemma_stage_ended_keeps_invariant(m: PipelineModel, stage: Stage, why: StageEnd)
    requires
        m.wf(),
    ensures
        m.after_stage_ended(stage, why).wf(),
{
    match stage {
        Stage::Receive => {
            if m.receive == StageState::Running {
                lemma_end_receive_keeps_invariant(m, why);
            }
        },
        Stage::Infer => {
            if m.infer == StageState::Running {
                lemma_end_infer_keeps_invariant(m, why);
            }
        },
        Stage::Send => {
            if m.send == StageState::Running {
                lemma_end_send_keeps_invariant(m, why);
            }
        },
    }
}

/// Every step keeps the invariant of the pipeline.
pub proof fn lemma_step_keeps_invariant(m: PipelineModel, step: Step)
    requires
        m.wf(),
    ensures
        m.after(step).wf(),
{
    match step {
        Step::Read(event) => lemma_read_keeps_invariant(m, event),
        Step::NextFrame => lemma_next_frame_keeps_invariant(m),
        Step::FrameDone(outcome) => lemma_frame_done_keeps_invariant(m, outcome),
        Step::NextMessage => lemma_next_message_keeps_invariant(m),
        Step::StageEnded(stage, why) => lemma_stage_ended_keeps_invariant(m, stage, why),
    }
}

/// Whatever the stages do and in whatever order their steps fall, the
/// invariant holds of a pipeline that started fresh.
pub proof fn lemma_schedule_keeps_invariant(schedule: Seq<Step>)
    ensures
        PipelineModel::fresh().after_all(schedule).wf(),
    decreases schedule.len(),
{
    if schedule.len() == 0 {
        let m = PipelineModel::fresh();
        assert(m.frames.delivered + m.frames.queue =~= m.frames.sent.subrange(0, 0));
        assert(m.results.delivered + m.results.queue =~= m.results.sent.subrange(0, 0));
        assert(frames_of(m.frames.sent) + m.pending =~= m.consumed);
    } else {
        lemma_schedule_keeps_invariant(schedule.drop_last());
        lemma_step_keeps_invariant(
            PipelineModel::fresh().after_all(schedule.drop_last()),
            schedule.last(),
        );
    }
}

/// First in, first out, from end to end: the `k`-th message handed out
/// for writing carries the answer to the `k`-th frame that the receive
/// stage handed on. No answer overtakes another, none is dropped in
/// between and none is written twice.
pub proof fn lemma_answers_follow_frames(m: PipelineModel, k: int)
    requires
        m.wf(),
        0 <= k < m.written.len(),
    ensures
        k < m.answered.len(),
        k < m.frames.sent.len(),
        m.answered[k].0 == m.frames.sent[k],
        m.written[k] == message_of(m.answered[k].1),
{
    lemma_channel_keeps_order(m.results, k);
    assert(m.written[k] == message_of(m.results.delivered[k]));
    assert(m.answered[k].1 == m.results.sent[k]);
    assert(m.answered[k].0 == m.frames.delivered[k]);
    lemma_channel_keeps_order(m.frames, k);
}

/// The same for every schedule: however the steps of the three stages
/// interleave, the messages come out in the order of the frames.
pub proof fn lemma_any_schedule_keeps_order(schedule: Seq<Step>, k: int)
    requires
        0 <= k < PipelineModel::fresh().after_all(schedule).written.len(),
    ensures
        ({
            let m = PipelineModel::fresh().after_all(schedule);
            &&& k < m.answered.len()
            &&& k < m.frames.sent.len()
            &&& m.answered[k].0 == m.frames.sent[k]
            &&& m.written[k] == message_of(m.answered[k].1)
        }),
{
    lemma_schedule_keeps_invariant(schedule);
    lemma_answers_follow_frames(PipelineModel::fresh().after_all(schedule), k);
}

/// While the receive stage runs, the frames that it has handed on are
/// the frames of the stream, in the order of the stream, in whatever
/// portions the stream was read; what the stage holds is the beginning of
/// the next frame.
pub proof fn lemma_frames_follow_stream(m: PipelineModel)
    requires
        m.wf(),
        m.receive == StageState::Running,
    ensures
        m.consumed == frames_of(m.frames.sent) + m.pending,
        spec_decode_frames(m.consumed, m.frames.sent.len()) == Some((m.frames.sent, m.pending)),
        spec_decode_frame(m.pending) is None,
{
    lemma_frames_keep_order(m.frames.sent, m.pending);
}

/// The portions in which the stream is read do not matter to the receive
/// stage: bytes of one frame taken in two reads leave the pipeline as
/// the same bytes taken in one read do.
pub proof fn lemma_reads_in_portions(m: PipelineModel, a: Vec<u8>, b: Vec<u8>, both: Vec<u8>)
    requires
        m.wf(),
        m.receive == StageState::Running,
        both@ == a@ + b@,
        both@.len() <= spec_missing(m.pending),
        b@.len() > 0,
    ensures
        m.after_read(ReadEvent::Data(a)).after_read(ReadEvent::Data(b)) == m.after_read(
            ReadEvent::Data(both),
        ),
{
    lemma_accept_in_portions(m.pending, a@, b@);
    let mid = m.after_read(ReadEvent::Data(a));
    assert(mid.pending == m.pending + a@);
    assert(mid.consumed + b@ =~= m.consumed + both@);
}

/// Shutdown spreads from stage to stage. A stage that has ended takes
/// nothing from the stage before it and leaves nothing to come for the
/// stage behind it; that stage ends with its next step once its queue is
/// empty.
pub proof fn lemma_shutdown_cascades(m: PipelineModel)
    requires
        m.wf(),
    ensures
        m.infer != StageState::Running ==> !m.frames.accepts() && !m.frames.has_item(),
        m.send != StageState::Running ==> !m.results.accepts() && !m.results.has_item(),
        m.receive != StageState::Running && m.in_flight is None && !m.frames.has_item()
            ==> m.after_next_frame().infer != StageState::Running,
        m.infer != StageState::Running && !m.results.has_item() ==> m.after_next_message().send
            != StageState::Running,
        m.send != StageState::Running && m.in_flight is Some ==> forall|answer: AnnotatedView|
            (#[trigger] m.after_frame_done(Ok(answer))).infer != StageState::Running,
{
}

/// A stage that fails has ended; the invariant holds on, and nothing that
/// was answered or handed out for writing is taken back.
pub proof fn lemma_fault_ends_stage(m: PipelineModel, stage: Stage, fault: StageFault)
    requires
        m.wf(),
    ensures
        m.after_stage_ended(stage, StageEnd::Fault(fault)).wf(),
        match stage {
            Stage::Receive => m.after_stage_ended(stage, StageEnd::Fault(fault)).receive
                != StageState::Running,
            Stage::Infer => m.after_stage_ended(stage, StageEnd::Fault(fault)).infer
                != StageState::Running,
            Stage::Send => m.after_stage_ended(stage, StageEnd::Fault(fault)).send
                != StageState::Running,
        },
        m.after_stage_ended(stage, StageEnd::Fault(fault)).written == m.written,
        m.after_stage_ended(stage, StageEnd::Fault(fault)).answered == m.answered,
{
    lemma_step_keeps_invariant(m, Step::StageEnded(stage, StageEnd::Fault(fault)));
}

/// The pipelines of all connections after a step of connection `which`.
/// A step is taken on one pipeline and on no other.
pub open spec fn after_step_of(pipelines: Seq<PipelineModel>, which: int, step: Step) -> Seq<
    PipelineModel,
> {
    pipelines.update(which, pipelines[which].after(step))
}

/// Fault isolation: whatever happens in one connection, a failure in any
/// of its stages included, the pipeline of every other connection is what
/// it was, and its messages keep the order of its frames.
pub proof fn lemma_connections_are_isolated(
    pipelines: Seq<PipelineModel>,
    which: int,
    step: Step,
    other: int,
    k: int,
)
    requires
        0 <= which < pipelines.len(),
        0 <= other < pipelines.len(),
        other != which,
        forall|i: int| 0 <= i < pipelines.len() ==> (#[trigger] pipelines[i]).wf(),
        0 <= k < pipelines[other].written.len(),
    ensures
        after_step_of(pipelines, which, step).len() == pipelines.len(),
        after_step_of(pipelines, which, step)[other] == pipelines[other],
        forall|i: int|
            0 <= i < pipelines.len() ==> (#[trigger] after_step_of(pipelines, which, step)[i]).wf(),
        ({
            let p = after_step_of(pipelines, which, step)[other];
            &&& k < p.answered.len()
            &&& k < p.frames.sent.len()
            &&& p.answered[k].0 == p.frames.sent[k]
            &&& p.written[k] == message_of(p.answered[k].1)
        }),
{
    lemma_step_keeps_invariant(pipelines[which], step);
    lemma_answers_follow_frames(pipelines[other], k);
}

} // verus!
