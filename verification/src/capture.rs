//! Lifecycle of the memory-mapped capture buffers of a video device.
//!
//! The session records what the driver has granted, which regions are
//! mapped and who owns each of them. The caller performs the device-control
//! calls and the mappings, and reports every outcome here; the session
//! decides whether the outcome is acceptable and which regions have to be
//! unmapped.

use vstd::prelude::*;

verus! {

/// Number of buffers asked of the driver. The driver may grant another count.
pub const REQUESTED_BUFFERS: u32 = 20;

/// Capability bit of a device that can capture video.
pub const CAP_VIDEO_CAPTURE: u32 = 1;

/// Who owns a mapped buffer.
#[derive(Clone, Copy, Debug, PartialEq, Eq, Structural)]
pub enum BufferState {
    /// Mapped and owned by the application, holding no frame.
    Free,
    /// Handed to the driver, which may write to it at any time.
    Queued,
    /// Returned by the driver with a frame in it.
    Filled,
}

/// One mapped region of device memory.
#[derive(Clone, Copy, Debug, PartialEq, Eq, Structural)]
pub struct Buffer {
    /// Position of the buffer in the driver's numbering.
    pub index: u32,
    /// Address at which the region is mapped.
    pub start: usize,
    /// Length of the mapping in bytes.
    pub length: usize,
    /// Current owner.
    pub state: BufferState,
}

/// A view of the frame that the driver left in one buffer. It is valid
/// until that buffer is queued again.
#[derive(Clone, Copy, Debug, PartialEq, Eq, Structural)]
pub struct Frame {
    /// Buffer that holds the frame.
    pub index: u32,
    /// Address of the first byte.
    pub start: usize,
    /// Number of bytes that the driver has written.
    pub length: usize,
}

/// Where a session stands.
#[derive(Clone, Copy, Debug, PartialEq, Eq, Structural)]
pub enum SessionState {
    /// Buffers are granted and not all of them are mapped yet.
    Mapping,
    /// Every granted buffer is mapped; the device does not stream.
    Stopped,
    /// The device fills queued buffers.
    Streaming,
    /// Stream-on failed with buffers queued; only teardown is possible.
    Faulted,
    /// Every mapping has been given back.
    Closed,
}

/// A failure of the device or a misuse of the session.
#[derive(Clone, Copy, Debug, PartialEq, Eq, Structural)]
pub enum DeviceError {
    /// The device cannot capture video.
    NoCapture,
    /// The device refused to start streaming.
    StreamOnFailed,
    /// The operation is not possible in the session's state.
    OutOfSequence,
    /// No granted buffer has this index.
    UnknownBuffer,
    /// The buffer is not owned by whom the operation expects.
    WrongOwner,
    /// The driver reports more bytes than the buffer is long.
    Overrun,
}

/// A failure to map one region.
#[derive(Clone, Copy, Debug, PartialEq, Eq, Structural)]
pub enum MappingError {
    /// The driver reports a region of length zero.
    EmptyRegion,
    /// The session is not mapping buffers.
    OutOfSequence,
}

/// Mathematical model of a session.
pub struct CameraModel {
    pub granted: nat,
    pub buffers: Seq<Buffer>,
    pub state: SessionState,
}

/// True if the device with these capability bits can capture video.
pub open spec fn spec_supports_capture(capabilities: u32) -> bool {
    capabilities % 2 == 1
}

/// `buffers` with the owner of buffer `index` replaced.
pub open spec fn with_owner(buffers: Seq<Buffer>, index: int, state: BufferState) -> Seq<Buffer> {
    buffers.update(
        index,
        Buffer {
            index: buffers[index].index,
            start: buffers[index].start,
            length: buffers[index].length,
            state,
        },
    )
}

/// True if every buffer of `buffers` is owned as `state` says.
pub open spec fn all_owned(buffers: Seq<Buffer>, state: BufferState) -> bool {
    forall|i: int| 0 <= i < buffers.len() ==> (#[trigger] buffers[i]).state == state
}

impl CameraModel {
    /// The invariant of a session.
    pub open spec fn wf(self) -> bool {
        &&& self.granted <= u32::MAX
        &&& self.buffers.len() <= self.granted
        &&& forall|i: int|
            0 <= i < self.buffers.len() ==> {
                &&& (#[trigger] self.buffers[i]).index == i
                &&& self.buffers[i].length > 0
            }
        &&& match self.state {
            SessionState::Mapping => {
                &&& self.buffers.len() < self.granted
                &&& all_owned(self.buffers, BufferState::Free)
            },
            SessionState::Stopped => {
                &&& self.buffers.len() == self.granted
                &&& forall|i: int|
                    0 <= i < self.buffers.len() ==> (#[trigger] self.buffers[i]).state
                        != BufferState::Filled
            },
            SessionState::Streaming => {
                &&& self.buffers.len() == self.granted
                &&& forall|i: int|
                    0 <= i < self.buffers.len() ==> (#[trigger] self.buffers[i]).state
                        != BufferState::Free
            },
            SessionState::Faulted => self.buffers.len() == self.granted,
            SessionState::Closed => self.buffers.len() == 0,
        }
    }

    /// The session right after the driver granted `granted` buffers.
    pub open spec fn fresh(granted: nat) -> CameraModel {
        CameraModel {
            granted,
            buffers: Seq::empty(),
            state: if granted == 0 {
                SessionState::Stopped
            } else {
                SessionState::Mapping
            },
        }
    }

    /// Why a region of `length` bytes cannot be mapped now, if it cannot.
    pub open spec fn region_refusal(self, length: int) -> Option<MappingError> {
        if self.state != SessionState::Mapping {
            Some(MappingError::OutOfSequence)
        } else if length == 0 {
            Some(MappingError::EmptyRegion)
        } else {
            None
        }
    }

    /// The session after the next region was mapped at `start`.
    pub open spec fn mapped(self, start: usize, length: usize) -> CameraModel {
        let buffers = self.buffers.push(
            Buffer { index: self.buffers.len() as u32, start, length, state: BufferState::Free },
        );
        CameraModel {
            granted: self.granted,
            buffers,
            state: if buffers.len() == self.granted {
                SessionState::Stopped
            } else {
                SessionState::Mapping
            },
        }
    }

    /// The session after every mapping was given back.
    pub open spec fn released(self) -> CameraModel {
        CameraModel { granted: self.granted, buffers: Seq::empty(), state: SessionState::Closed }
    }

    /// Why buffer `index` cannot be handed to the driver before streaming
    /// starts, if it cannot.
    pub open spec fn enqueue_refusal(self, index: u32) -> Option<DeviceError> {
        if self.state != SessionState::Stopped {
            Some(DeviceError::OutOfSequence)
        } else if index >= self.buffers.len() {
            Some(DeviceError::UnknownBuffer)
        } else if self.buffers[index as int].state != BufferState::Free {
            Some(DeviceError::WrongOwner)
        } else {
            None
        }
    }

    /// Why streaming cannot start, whatever the device answers, if it cannot.
    pub open spec fn start_refusal(self) -> Option<DeviceError> {
        if self.state != SessionState::Stopped || !all_owned(self.buffers, BufferState::Queued) {
            Some(DeviceError::OutOfSequence)
        } else {
            None
        }
    }

    /// Why the driver's report of a frame of `bytesused` bytes in buffer
    /// `index` cannot be accepted, if it cannot.
    pub open spec fn frame_refusal(self, index: u32, bytesused: u32) -> Option<DeviceError> {
        if self.state != SessionState::Streaming {
            Some(DeviceError::OutOfSequence)
        } else if index >= self.buffers.len() {
            Some(DeviceError::UnknownBuffer)
        } else if self.buffers[index as int].state != BufferState::Queued {
            Some(DeviceError::WrongOwner)
        } else if bytesused > self.buffers[index as int].length {
            Some(DeviceError::Overrun)
        } else {
            None
        }
    }

    /// Why buffer `index` cannot be handed back to the driver while
    /// streaming, if it cannot.
    pub open spec fn requeue_refusal(self, index: u32) -> Option<DeviceError> {
        if self.state != SessionState::Streaming {
            Some(DeviceError::OutOfSequence)
        } else if index >= self.buffers.len() {
            Some(DeviceError::UnknownBuffer)
        } else if self.buffers[index as int].state != BufferState::Filled {
            Some(DeviceError::WrongOwner)
        } else {
            None
        }
    }

    /// True if the bytes of `frame` may be read now: the device streams,
    /// the frame lies in its buffer, and the buffer is filled.
    pub open spec fn readable(self, frame: Frame) -> bool {
        &&& self.state == SessionState::Streaming
        &&& frame.index < self.buffers.len()
        &&& self.buffers[frame.index as int].state == BufferState::Filled
        &&& self.buffers[frame.index as int].start == frame.start
        &&& frame.length <= self.buffers[frame.index as int].length
    }

    /// The session with buffer `index` owned as `state` says.
    pub open spec fn owned(self, index: u32, state: BufferState) -> CameraModel {
        CameraModel {
            granted: self.granted,
            buffers: with_owner(self.buffers, index as int, state),
            state: self.state,
        }
    }

    /// The session in another state, with the same buffers.
    pub open spec fn moved_to(self, state: SessionState) -> CameraModel {
        CameraModel { granted: self.granted, buffers: self.buffers, state }
    }
}

/// A capture session: the granted buffer count, the mapped regions and the
/// streaming state.
pub struct Camera {
    granted: u32,
    buffers: Vec<Buffer>,
    state: SessionState,
}

impl View for Camera {
    type V = CameraModel;

    closed spec fn view(&self) -> CameraModel {
        CameraModel { granted: self.granted as nat, buffers: self.buffers@, state: self.state }
    }
}

/// Tells whether a device with these capability bits can capture video.
pub fn supports_capture(capabilities: u32) -> (capable: bool)
    ensures
        capable == spec_supports_capture(capabilities),
{
    assert(capabilities & 1 == capabilities % 2) by (bit_vector);
    capabilities & CAP_VIDEO_CAPTURE != 0
}

impl Camera {
    /// The invariant of a session. Every constructor establishes it and
    /// every method keeps it.
    pub open spec fn wf(&self) -> bool {
        self@.wf()
    }

    /// Opens a session on a device that reports `capabilities` and has
    /// granted `granted` buffers. Fails if the device cannot capture.
    pub fn new(capabilities: u32, granted: u32) -> (opened: Result<Camera, DeviceError>)
        ensures
            opened is Ok <==> spec_supports_capture(capabilities),
            opened matches Ok(camera) ==> camera.wf() && camera@ == CameraModel::fresh(
                granted as nat,
            ),
            opened matches Err(e) ==> e == DeviceError::NoCapture,
    {
        if !supports_capture(capabilities) {
            return Err(DeviceError::NoCapture);
        }
        let state = if granted == 0 {
            SessionState::Stopped
        } else {
            SessionState::Mapping
        };
        Ok(Camera { granted, buffers: Vec::new(), state })
    }

    /// Number of buffers that the driver has granted.
    pub fn granted(&self) -> (n: u32)
        ensures
            n == self@.granted,
    {
        self.granted
    }

    /// State of the session.
    pub fn state(&self) -> (state: SessionState)
        ensures
            state == self@.state,
    {
        self.state
    }

    /// Number of regions that are mapped now.
    pub fn mapped_count(&self) -> (n: usize)
        ensures
            n == self@.buffers.len(),
    {
        self.buffers.len()
    }

    /// The buffer with this index, if it is mapped.
    pub fn buffer(&self, index: u32) -> (found: Option<Buffer>)
        ensures
            found == if index < self@.buffers.len() {
                Some(self@.buffers[index as int])
            } else {
                None
            },
    {
        if (index as usize) < self.buffers.len() {
            Some(self.buffers[index as usize])
        } else {
            None
        }
    }

    /// Index of the region to query and map next, while there is one.
    pub fn next_region(&self) -> (next: Option<u32>)
        requires
            self.wf(),
        ensures
            next == if self@.state == SessionState::Mapping {
                Some(self@.buffers.len() as u32)
            } else {
                None
            },
    {
        match self.state {
            SessionState::Mapping => Some(self.buffers.len() as u32),
            _ => None,
        }
    }

    /// Decides whether the region that the driver describes can be mapped:
    /// the session must be mapping and the region must not be empty. Gives
    /// the length to map.
    pub fn check_region(&self, length: u32) -> (checked: Result<usize, MappingError>)
        ensures
            match checked {
                Ok(n) => self@.region_refusal(length as int) is None && n == length,
                Err(e) => self@.region_refusal(length as int) == Some(e),
            },
    {
        match self.state {
            SessionState::Mapping => {
                if length == 0 {
                    Err(MappingError::EmptyRegion)
                } else {
                    Ok(length as usize)
                }
            },
            _ => Err(MappingError::OutOfSequence),
        }
    }

    /// Records that the next region is mapped at `start`. The buffer is
    /// free. With the last granted region the session becomes stopped.
    /// A region that is refused is not recorded: it is left to the caller.
    pub fn map_region(&mut self, start: usize, length: usize) -> (recorded: Result<
        u32,
        MappingError,
    >)
        requires
            old(self).wf(),
        ensures
            final(self).wf(),
            match recorded {
                Ok(index) => {
                    &&& old(self)@.region_refusal(length as int) is None
                    &&& index == old(self)@.buffers.len()
                    &&& final(self)@ == old(self)@.mapped(start, length)
                },
                Err(e) => {
                    &&& old(self)@.region_refusal(length as int) == Some(e)
                    &&& final(self)@ == old(self)@
                },
            },
    {
        match self.state {
            SessionState::Mapping => {},
            _ => {
                return Err(MappingError::OutOfSequence);
            },
        }
        if length == 0 {
            return Err(MappingError::EmptyRegion);
        }
        let index: u32 = self.buffers.len() as u32;
        self.buffers.push(Buffer { index, start, length, state: BufferState::Free });
        if self.buffers.len() == self.granted as usize {
            self.state = SessionState::Stopped;
        }
        Ok(index)
    }

    fn release_all(&mut self) -> (regions: Vec<Buffer>)
        ensures
            regions@ == old(self)@.buffers,
            final(self)@ == old(self)@.released(),
    {
        let mut regions: Vec<Buffer> = Vec::new();
        regions.append(&mut self.buffers);
        self.state = SessionState::Closed;
        assert(regions@ =~= old(self)@.buffers);
        regions
    }

    /// Gives up a setup in which a region could not be queried or mapped.
    /// Returns every region mapped so far, each to be unmapped by the
    /// caller; the session holds none afterwards.
    pub fn abort_mapping(&mut self) -> (regions: Vec<Buffer>)
        requires
            old(self).wf(),
        ensures
            final(self).wf(),
            regions@ == old(self)@.buffers,
            final(self)@ == old(self)@.released(),
    {
        self.release_all()
    }

    /// Records that buffer `index` was handed to the driver before
    /// streaming starts.
    pub fn enqueue(&mut self, index: u32) -> (done: Result<(), DeviceError>)
        requires
            old(self).wf(),
        ensures
            final(self).wf(),
            match done {
                Ok(_) => {
                    &&& old(self)@.enqueue_refusal(index) is None
                    &&& final(self)@ == old(self)@.owned(index, BufferState::Queued)
                },
                Err(e) => {
                    &&& old(self)@.enqueue_refusal(index) == Some(e)
                    &&& final(self)@ == old(self)@
                },
            },
    {
        match self.state {
            SessionState::Stopped => {},
            _ => {
                return Err(DeviceError::OutOfSequence);
            },
        }
        if index as usize >= self.buffers.len() {
            return Err(DeviceError::UnknownBuffer);
        }
        let b: Buffer = self.buffers[index as usize];
        match b.state {
            BufferState::Free => {},
            _ => {
                return Err(DeviceError::WrongOwner);
            },
        }
        self.buffers[index as usize] = Buffer {
            index: b.index,
            start: b.start,
            length: b.length,
            state: BufferState::Queued,
        };
        Ok(())
    }

    fn all_queued(&self) -> (yes: bool)
        ensures
            yes == all_owned(self@.buffers, BufferState::Queued),
    {
        let mut i: usize = 0;
        while i < self.buffers.len()
            invariant
                i <= self.buffers.len(),
                forall|k: int|
                    0 <= k < i ==> (#[trigger] self.buffers@[k]).state == BufferState::Queued,
            decreases self.buffers.len() - i,
        {
            match self.buffers[i].state {
                BufferState::Queued => {},
                _ => {
                    return false;
                },
            }
            i = i + 1;
        }
        true
    }

    /// Records the device's answer to stream-on. Streaming starts only if
    /// every buffer is queued. If the device refused, the session is
    /// faulted: its buffers stay mapped until `stop_streaming`.
    pub fn start_streaming(&mut self, stream_on_ok: bool) -> (done: Result<(), DeviceError>)
        requires
            old(self).wf(),
        ensures
            final(self).wf(),
            match done {
                Ok(_) => {
                    &&& old(self)@.start_refusal() is None
                    &&& stream_on_ok
                    &&& final(self)@ == old(self)@.moved_to(SessionState::Streaming)
                },
                Err(e) => if old(self)@.start_refusal() is Some {
                    &&& old(self)@.start_refusal() == Some(e)
                    &&& final(self)@ == old(self)@
                } else {
                    &&& !stream_on_ok
                    &&& e == DeviceError::StreamOnFailed
                    &&& final(self)@ == old(self)@.moved_to(SessionState::Faulted)
                },
            },
    {
        match self.state {
            SessionState::Stopped => {},
            _ => {
                return Err(DeviceError::OutOfSequence);
            },
        }
        if !self.all_queued() {
            return Err(DeviceError::OutOfSequence);
        }
        if stream_on_ok {
            self.state = SessionState::Streaming;
            Ok(())
        } else {
            self.state = SessionState::Faulted;
            Err(DeviceError::StreamOnFailed)
        }
    }

    /// Accepts the driver's report that buffer `index` holds a frame of
    /// `bytesused` bytes, and gives the view of that frame. The buffer is
    /// filled until it is queued again. A report that names no granted
    /// buffer, a buffer that was not queued, or more bytes than the buffer
    /// is long is refused, and the session is unchanged.
    pub fn get_frame(&mut self, index: u32, bytesused: u32) -> (frame: Result<Frame, DeviceError>)
        requires
            old(self).wf(),
        ensures
            final(self).wf(),
            match frame {
                Ok(f) => {
                    &&& old(self)@.frame_refusal(index, bytesused) is None
                    &&& final(self)@.readable(f)
                    &&& f.index < old(self)@.granted
                    &&& f.length <= old(self)@.buffers[f.index as int].length
                    &&& f.index == index
                    &&& f.start == old(self)@.buffers[index as int].start
                    &&& f.length == bytesused
                    &&& final(self)@ == old(self)@.owned(index, BufferState::Filled)
                },
                Err(e) => {
                    &&& old(self)@.frame_refusal(index, bytesused) == Some(e)
                    &&& final(self)@ == old(self)@
                },
            },
    {
        match self.state {
            SessionState::Streaming => {},
            _ => {
                return Err(DeviceError::OutOfSequence);
            },
        }
        if index as usize >= self.buffers.len() {
            return Err(DeviceError::UnknownBuffer);
        }
        let b: Buffer = self.buffers[index as usize];
        match b.state {
            BufferState::Queued => {},
            _ => {
                return Err(DeviceError::WrongOwner);
            },
        }
        if bytesused as usize > b.length {
            return Err(DeviceError::Overrun);
        }
        self.buffers[index as usize] = Buffer {
            index: b.index,
            start: b.start,
            length: b.length,
            state: BufferState::Filled,
        };
        Ok(Frame { index, start: b.start, length: bytesused as usize })
    }

    /// Tells whether the bytes of `frame` may be read now. They may from
    /// `get_frame` until the buffer is queued again, and at no other time.
    pub fn may_read(&self, frame: &Frame) -> (yes: bool)
        requires
            self.wf(),
        ensures
            yes == self@.readable(*frame),
    {
        match self.state {
            SessionState::Streaming => {},
            _ => {
                return false;
            },
        }
        if frame.index as usize >= self.buffers.len() {
            return false;
        }
        let b: Buffer = self.buffers[frame.index as usize];
        match b.state {
            BufferState::Filled => b.start == frame.start && frame.length <= b.length,
            _ => false,
        }
    }

    /// Records that the filled buffer `index` was handed back to the
    /// driver. Every view of its frame is invalid from now on.
    pub fn requeue(&mut self, index: u32) -> (done: Result<(), DeviceError>)
        requires
            old(self).wf(),
        ensures
            final(self).wf(),
            match done {
                Ok(_) => {
                    &&& old(self)@.requeue_refusal(index) is None
                    &&& final(self)@ == old(self)@.owned(index, BufferState::Queued)
                },
                Err(e) => {
                    &&& old(self)@.requeue_refusal(index) == Some(e)
                    &&& final(self)@ == old(self)@
                },
            },
    {
        match self.state {
            SessionState::Streaming => {},
            _ => {
                return Err(DeviceError::OutOfSequence);
            },
        }
        if index as usize >= self.buffers.len() {
            return Err(DeviceError::UnknownBuffer);
        }
        let b: Buffer = self.buffers[index as usize];
        match b.state {
            BufferState::Filled => {},
            _ => {
                return Err(DeviceError::WrongOwner);
            },
        }
        self.buffers[index as usize] = Buffer {
            index: b.index,
            start: b.start,
            length: b.length,
            state: BufferState::Queued,
        };
        Ok(())
    }

    /// Ends the session, whatever its state and whatever stream-off
    /// answered. Returns every mapped region, each exactly once and
    /// whoever owns it, to be unmapped by the caller; the session holds
    /// none afterwards, so a second call returns nothing.
    pub fn stop_streaming(&mut self) -> (regions: Vec<Buffer>)
        requires
            old(self).wf(),
        ensures
            final(self).wf(),
            regions@ == old(self)@.buffers,
            final(self)@ == old(self)@.released(),
    {
        self.release_all()
    }
}

/// A region as the caller maps it: its address and its length.
pub type Region = (usize, usize);

/// The session after the caller tried to record each of `regions` in turn,
/// as `Camera::map_region` does: a refused region changes nothing.
pub open spec fn map_all(m: CameraModel, regions: Seq<Region>) -> CameraModel
    decreases regions.len(),
{
    if regions.len() == 0 {
        m
    } else {
        let before = map_all(m, regions.drop_last());
        let (start, length) = regions.last();
        if before.region_refusal(length as int) is None {
            before.mapped(start, length)
        } else {
            before
        }
    }
}

/// True if no two buffers of `buffers` have the same index.
pub open spec fn distinct_indices(buffers: Seq<Buffer>) -> bool {
    forall|i: int, j: int|
        0 <= i < j < buffers.len() ==> (#[trigger] buffers[i]).index != (
        #[trigger] buffers[j]).index
}

/// While fewer regions are recorded than the driver has granted, each
/// nonempty region adds one buffer, in order, and the session keeps
/// mapping until the granted count is reached.
pub proof fn lemma_map_all_prefix(granted: nat, regions: Seq<Region>)
    requires
        granted <= u32::MAX,
        regions.len() <= granted,
        forall|i: int| 0 <= i < regions.len() ==> (#[trigger] regions[i]).1 > 0,
    ensures
        map_all(CameraModel::fresh(granted), regions).wf(),
        map_all(CameraModel::fresh(granted), regions).granted == granted,
        map_all(CameraModel::fresh(granted), regions).buffers.len() == regions.len(),
        map_all(CameraModel::fresh(granted), regions).state == if regions.len() == granted {
            SessionState::Stopped
        } else {
            SessionState::Mapping
        },
        all_owned(map_all(CameraModel::fresh(granted), regions).buffers, BufferState::Free),
        forall|i: int|
            0 <= i < regions.len() ==> {
                &&& (#[trigger] map_all(CameraModel::fresh(granted), regions).buffers[i]).start
                    == regions[i].0
                &&& map_all(CameraModel::fresh(granted), regions).buffers[i].length == regions[i].1
            },
    decreases regions.len(),
{
    if regions.len() > 0 {
        let head = regions.drop_last();
        assert forall|i: int| 0 <= i < head.len() implies (#[trigger] head[i]).1 > 0 by {
            assert(head[i] == regions[i]);
        }
        lemma_map_all_prefix(granted, head);
        let before = map_all(CameraModel::fresh(granted), head);
        let (start, length) = regions.last();
        assert(regions[regions.len() - 1].1 > 0);
        assert(before.region_refusal(length as int) is None);
        let after = before.mapped(start, length);
        assert(after == map_all(CameraModel::fresh(granted), regions));
        assert forall|i: int| 0 <= i < regions.len() implies {
            &&& (#[trigger] after.buffers[i]).start == regions[i].0
            &&& after.buffers[i].length == regions[i].1
        } by {
            if i < head.len() {
                assert(after.buffers[i] == before.buffers[i]);
                assert(head[i] == regions[i]);
            }
        }
    }
}

/// For every granted count, a setup in which every region maps ends with
/// exactly that many mapped regions, and teardown gives back exactly those,
/// each once: the session holds none afterwards, and a second teardown
/// gives back nothing.
pub proof fn lemma_mapped_and_unmapped_counts_agree(granted: nat, regions: Seq<Region>)
    requires
        granted <= u32::MAX,
        regions.len() == granted,
        forall|i: int| 0 <= i < regions.len() ==> (#[trigger] regions[i]).1 > 0,
    ensures
        ({
            let ready = map_all(CameraModel::fresh(granted), regions);
            &&& ready.wf()
            &&& ready.state == SessionState::Stopped
            &&& ready.buffers.len() == granted
            &&& distinct_indices(ready.buffers)
            &&& ready.released().wf()
            &&& ready.released().buffers.len() == 0
            &&& ready.released().released() == ready.released()
        }),
{
    lemma_map_all_prefix(granted, regions);
    lemma_teardown_is_complete(map_all(CameraModel::fresh(granted), regions));
}

/// Teardown from any state: what is handed back for unmapping is every
/// mapped region with no index twice, and nothing stays mapped. This covers
/// a setup given up after some regions were mapped.
pub proof fn lemma_teardown_is_complete(m: CameraModel)
    requires
        m.wf(),
    ensures
        distinct_indices(m.buffers),
        m.buffers.len() <= m.granted,
        m.released().wf(),
        m.released().state == SessionState::Closed,
        m.released().buffers.len() == 0,
        m.released().released() == m.released(),
{
}

/// An accepted frame lies in a granted buffer that the driver had owned,
/// and is no longer than that buffer's mapping.
pub proof fn lemma_frame_within_buffer(m: CameraModel, index: u32, bytesused: u32)
    requires
        m.wf(),
        m.frame_refusal(index, bytesused) is None,
    ensures
        0 <= index < m.granted,
        bytesused <= m.buffers[index as int].length,
        m.buffers[index as int].state == BufferState::Queued,
        m.owned(index, BufferState::Filled).wf(),
        m.owned(index, BufferState::Filled).owned(index, BufferState::Queued) == m,
{
    let filled = m.owned(index, BufferState::Filled);
    assert(filled.owned(index, BufferState::Queued).buffers =~= m.buffers);
}

/// One thing that is reported to a session.
pub enum SessionStep {
    /// A region was mapped at this address with this length.
    Mapped(usize, usize),
    /// This buffer was handed to the driver before streaming.
    Enqueued(u32),
    /// The device answered stream-on; `true` if it agreed.
    StreamOn(bool),
    /// The driver reported a frame of so many bytes in this buffer.
    Dequeued(u32, u32),
    /// This buffer was handed back to the driver.
    Requeued(u32),
    /// The session was torn down, after a failed setup or at the end.
    Released,
}

/// A session together with the count of all regions that it was told
/// were mapped and of all regions that it gave back for unmapping.
pub struct Ledger {
    pub session: CameraModel,
    pub mapped: nat,
    pub unmapped: nat,
}

impl Ledger {
    /// The ledger of a new session.
    pub open spec fn fresh(granted: nat) -> Ledger {
        Ledger { session: CameraModel::fresh(granted), mapped: 0, unmapped: 0 }
    }

    /// The ledger after one step, as the methods of `Camera` take it: a
    /// step that is refused changes nothing.
    pub open spec fn after(self, step: SessionStep) -> Ledger {
        let m = self.session;
        match step {
            SessionStep::Mapped(start, length) => if m.region_refusal(length as int) is None {
                Ledger { session: m.mapped(start, length), mapped: self.mapped + 1, ..self }
            } else {
                self
            },
            SessionStep::Enqueued(index) => if m.enqueue_refusal(index) is None {
                Ledger { session: m.owned(index, BufferState::Queued), ..self }
            } else {
                self
            },
            SessionStep::StreamOn(agreed) => if m.start_refusal() is None {
                Ledger {
                    session: m.moved_to(
                        if agreed {
                            SessionState::Streaming
                        } else {
                            SessionState::Faulted
                        },
                    ),
                    ..self
                }
            } else {
                self
            },
            SessionStep::Dequeued(index, bytesused) => if m.frame_refusal(index, bytesused) is None {
                Ledger { session: m.owned(index, BufferState::Filled), ..self }
            } else {
                self
            },
            SessionStep::Requeued(index) => if m.requeue_refusal(index) is None {
                Ledger { session: m.owned(index, BufferState::Queued), ..self }
            } else {
                self
            },
            SessionStep::Released => Ledger {
                session: m.released(),
                unmapped: self.unmapped + m.buffers.len(),
                ..self
            },
        }
    }

    /// The ledger after the steps of a history, taken in turn.
    pub open spec fn after_all(self, history: Seq<SessionStep>) -> Ledger
        decreases history.len(),
    {
        if history.len() == 0 {
            self
        } else {
            self.after_all(history.drop_last()).after(history.last())
        }
    }

    /// True if the books balance: every region that was mapped and not
    /// given back is held by the session, and no more regions were mapped
    /// than the driver granted.
    pub open spec fn balanced(self) -> bool {
        &&& self.session.wf()
        &&& self.mapped == self.unmapped + self.session.buffers.len()
        &&& self.mapped <= self.session.granted
        &&& self.session.state != SessionState::Closed ==> self.unmapped == 0
    }
}

/// Whatever is reported to a session and in whatever order, its books
/// balance: no region is lost and none is given back twice. While the
/// session is stopped, streaming or faulted, exactly as many regions are
/// mapped as the driver granted; once it is closed, exactly as many were
/// given back as had been mapped.
pub proof fn lemma_no_leak_no_double_unmap(granted: nat, history: Seq<SessionStep>)
    requires
        granted <= u32::MAX,
    ensures
        ({
            let l = Ledger::fresh(granted).after_all(history);
            &&& l.balanced()
            &&& l.session.granted == granted
            &&& l.session.state == SessionState::Stopped || l.session.state
                == SessionState::Streaming || l.session.state == SessionState::Faulted ==> l.mapped
                == granted && l.unmapped == 0
            &&& l.session.state == SessionState::Closed ==> l.unmapped == l.mapped
        }),
    decreases history.len(),
{
    if history.len() > 0 {
        lemma_no_leak_no_double_unmap(granted, history.drop_last());
        let before = Ledger::fresh(granted).after_all(history.drop_last());
        lemma_session_steps_keep_invariant(before.session, 0, 0, 0, 0);
        match history.last() {
            SessionStep::Mapped(start, length) => {
                lemma_session_steps_keep_invariant(before.session, start, length, 0, 0);
            },
            SessionStep::Enqueued(index) => {
                lemma_session_steps_keep_invariant(before.session, 0, 0, index, 0);
            },
            SessionStep::StreamOn(_) => {},
            SessionStep::Dequeued(index, bytesused) => {
                lemma_session_steps_keep_invariant(before.session, 0, 0, index, bytesused);
            },
            SessionStep::Requeued(index) => {
                lemma_session_steps_keep_invariant(before.session, 0, 0, index, 0);
            },
            SessionStep::Released => {},
        }
    }
}

/// Only a filled buffer is read: a frame is readable from the moment the
/// driver's report is accepted until its buffer is queued again, and a
/// frame in a buffer that the driver owns is never readable.
pub proof fn lemma_only_filled_is_readable(m: CameraModel, frame: Frame)
    requires
        m.wf(),
    ensures
        m.readable(frame) ==> m.buffers[frame.index as int].state == BufferState::Filled,
        m.readable(frame) ==> m.requeue_refusal(frame.index) is None && !m.owned(
            frame.index,
            BufferState::Queued,
        ).readable(frame),
        m.state != SessionState::Streaming ==> !m.readable(frame),
        !m.released().readable(frame),
{
}

/// Every step that the session accepts keeps its invariant.
pub proof fn lemma_session_steps_keep_invariant(
    m: CameraModel,
    start: usize,
    length: usize,
    index: u32,
    bytesused: u32,
)
    requires
        m.wf(),
    ensures
        m.region_refusal(length as int) is None ==> m.mapped(start, length).wf(),
        m.enqueue_refusal(index) is None ==> m.owned(index, BufferState::Queued).wf(),
        m.start_refusal() is None ==> m.moved_to(SessionState::Streaming).wf() && m.moved_to(
            SessionState::Faulted,
        ).wf(),
        m.frame_refusal(index, bytesused) is None ==> m.owned(index, BufferState::Filled).wf(),
        m.requeue_refusal(index) is None ==> m.owned(index, BufferState::Queued).wf(),
        m.released().wf(),
{
}

} // verus!
