use movenet_stream::capture::{
    supports_capture, Buffer, BufferState, Camera, DeviceError, Frame, MappingError,
    SessionState, CAP_VIDEO_CAPTURE, REQUESTED_BUFFERS,
};

fn mapped_camera(granted: u32) -> Camera {
    let mut camera: Camera = Camera::new(CAP_VIDEO_CAPTURE, granted).unwrap();
    let mut i: u32 = 0;
    while i < granted {
        assert_eq!(camera.next_region(), Some(i));
        assert_eq!(camera.check_region(4096), Ok(4096));
        assert_eq!(camera.map_region(0x10000 + 0x1000 * i as usize, 4096), Ok(i));
        i += 1;
    }
    camera
}

fn streaming_camera(granted: u32) -> Camera {
    let mut camera: Camera = mapped_camera(granted);
    let mut i: u32 = 0;
    while i < granted {
        assert_eq!(camera.enqueue(i), Ok(()));
        i += 1;
    }
    assert_eq!(camera.start_streaming(true), Ok(()));
    camera
}

fn exactly_n_mapped_and_unmapped(granted: u32) {
    let mut camera: Camera = mapped_camera(granted);
    assert_eq!(camera.granted(), granted);
    assert_eq!(camera.mapped_count(), granted as usize);
    assert_eq!(camera.state(), SessionState::Stopped);
    assert_eq!(camera.next_region(), None);
    let regions: Vec<Buffer> = camera.stop_streaming();
    assert_eq!(regions.len(), granted as usize);
    let mut i: u32 = 0;
    while i < granted {
        assert_eq!(
            regions[i as usize],
            Buffer {
                index: i,
                start: 0x10000 + 0x1000 * i as usize,
                length: 4096,
                state: BufferState::Free
            }
        );
        i += 1;
    }
    assert_eq!(camera.mapped_count(), 0);
    assert_eq!(camera.state(), SessionState::Closed);
    assert_eq!(camera.stop_streaming(), Vec::new());
    assert_eq!(camera.state(), SessionState::Closed);
}

#[test]
fn one_buffer_is_mapped_and_unmapped_once() {
    exactly_n_mapped_and_unmapped(1);
}

#[test]
fn four_buffers_are_mapped_and_unmapped_once() {
    exactly_n_mapped_and_unmapped(4);
}

#[test]
fn twenty_buffers_are_mapped_and_unmapped_once() {
    assert_eq!(REQUESTED_BUFFERS, 20);
    exactly_n_mapped_and_unmapped(REQUESTED_BUFFERS);
}

#[test]
fn capability_bit_decides() {
    assert_eq!(CAP_VIDEO_CAPTURE, 1);
    assert!(supports_capture(1));
    assert!(supports_capture(0x0520_0001));
    assert!(supports_capture(u32::MAX));
    assert!(!supports_capture(0));
    assert!(!supports_capture(2));
    assert!(!supports_capture(0x0520_0000));
    assert!(Camera::new(0x8520_0001, 4).is_ok());
    assert_eq!(Camera::new(0x8520_0000, 4).err(), Some(DeviceError::NoCapture));
    assert_eq!(Camera::new(0, 0).err(), Some(DeviceError::NoCapture));
}

#[test]
fn the_granted_count_rules_not_the_requested_one() {
    let mut camera: Camera = Camera::new(1, 3).unwrap();
    assert_eq!(camera.granted(), 3);
    assert_eq!(camera.state(), SessionState::Mapping);
    assert_eq!(camera.map_region(100, 10), Ok(0));
    assert_eq!(camera.map_region(200, 10), Ok(1));
    assert_eq!(camera.state(), SessionState::Mapping);
    assert_eq!(camera.map_region(300, 10), Ok(2));
    assert_eq!(camera.state(), SessionState::Stopped);
    assert_eq!(camera.map_region(400, 10), Err(MappingError::OutOfSequence));
    assert_eq!(camera.check_region(10), Err(MappingError::OutOfSequence));
    assert_eq!(camera.mapped_count(), 3);
}

#[test]
fn no_granted_buffer_means_nothing_to_map() {
    let mut camera: Camera = Camera::new(1, 0).unwrap();
    assert_eq!(camera.state(), SessionState::Stopped);
    assert_eq!(camera.next_region(), None);
    assert_eq!(camera.mapped_count(), 0);
    assert_eq!(camera.stop_streaming(), Vec::new());
}

#[test]
fn an_empty_region_is_refused_before_it_is_mapped() {
    let mut camera: Camera = Camera::new(1, 2).unwrap();
    assert_eq!(camera.check_region(0), Err(MappingError::EmptyRegion));
    assert_eq!(camera.map_region(100, 0), Err(MappingError::EmptyRegion));
    assert_eq!(camera.mapped_count(), 0);
    assert_eq!(camera.check_region(1), Ok(1));
    assert_eq!(camera.check_region(u32::MAX), Ok(u32::MAX as usize));
}

#[test]
fn a_failed_setup_gives_back_what_was_mapped() {
    let mut camera: Camera = Camera::new(1, 5).unwrap();
    assert_eq!(camera.map_region(100, 10), Ok(0));
    assert_eq!(camera.map_region(200, 20), Ok(1));
    assert_eq!(camera.map_region(300, 30), Ok(2));
    let regions: Vec<Buffer> = camera.abort_mapping();
    assert_eq!(
        regions,
        vec![
            Buffer { index: 0, start: 100, length: 10, state: BufferState::Free },
            Buffer { index: 1, start: 200, length: 20, state: BufferState::Free },
            Buffer { index: 2, start: 300, length: 30, state: BufferState::Free },
        ]
    );
    assert_eq!(camera.mapped_count(), 0);
    assert_eq!(camera.state(), SessionState::Closed);
    assert_eq!(camera.abort_mapping(), Vec::new());
    assert_eq!(camera.map_region(400, 10), Err(MappingError::OutOfSequence));
    assert_eq!(camera.buffer(0), None);
}

#[test]
fn a_setup_that_fails_at_once_gives_back_nothing() {
    let mut camera: Camera = Camera::new(1, 5).unwrap();
    assert_eq!(camera.abort_mapping(), Vec::new());
    assert_eq!(camera.state(), SessionState::Closed);
}

#[test]
fn streaming_starts_when_every_buffer_is_queued() {
    let mut camera: Camera = mapped_camera(3);
    assert_eq!(camera.start_streaming(true), Err(DeviceError::OutOfSequence));
    assert_eq!(camera.enqueue(0), Ok(()));
    assert_eq!(camera.enqueue(1), Ok(()));
    assert_eq!(camera.start_streaming(true), Err(DeviceError::OutOfSequence));
    assert_eq!(camera.state(), SessionState::Stopped);
    assert_eq!(camera.enqueue(2), Ok(()));
    assert_eq!(camera.buffer(2).unwrap().state, BufferState::Queued);
    assert_eq!(camera.start_streaming(true), Ok(()));
    assert_eq!(camera.state(), SessionState::Streaming);
    assert_eq!(camera.start_streaming(true), Err(DeviceError::OutOfSequence));
}

#[test]
fn enqueue_tells_what_is_wrong() {
    let mut mapping: Camera = Camera::new(1, 2).unwrap();
    assert_eq!(mapping.enqueue(0), Err(DeviceError::OutOfSequence));
    let mut camera: Camera = mapped_camera(2);
    assert_eq!(camera.enqueue(2), Err(DeviceError::UnknownBuffer));
    assert_eq!(camera.enqueue(u32::MAX), Err(DeviceError::UnknownBuffer));
    assert_eq!(camera.enqueue(1), Ok(()));
    assert_eq!(camera.enqueue(1), Err(DeviceError::WrongOwner));
    assert_eq!(camera.buffer(0).unwrap().state, BufferState::Free);
    assert_eq!(camera.buffer(1).unwrap().state, BufferState::Queued);
}

#[test]
fn a_refused_stream_on_leaves_the_buffers_to_teardown() {
    let mut camera: Camera = mapped_camera(4);
    let mut i: u32 = 0;
    while i < 4 {
        assert_eq!(camera.enqueue(i), Ok(()));
        i += 1;
    }
    assert_eq!(camera.start_streaming(false), Err(DeviceError::StreamOnFailed));
    assert_eq!(camera.state(), SessionState::Faulted);
    assert_eq!(camera.mapped_count(), 4);
    assert_eq!(camera.get_frame(0, 1), Err(DeviceError::OutOfSequence));
    assert_eq!(camera.enqueue(0), Err(DeviceError::OutOfSequence));
    assert_eq!(camera.start_streaming(true), Err(DeviceError::OutOfSequence));
    let regions: Vec<Buffer> = camera.stop_streaming();
    assert_eq!(regions.len(), 4);
    assert_eq!(regions[3].state, BufferState::Queued);
    assert_eq!(camera.mapped_count(), 0);
}

#[test]
fn a_frame_is_a_view_into_its_buffer() {
    let mut camera: Camera = streaming_camera(4);
    assert_eq!(
        camera.get_frame(2, 1000),
        Ok(Frame { index: 2, start: 0x10000 + 0x2000, length: 1000 })
    );
    assert_eq!(camera.buffer(2).unwrap().state, BufferState::Filled);
    assert_eq!(camera.buffer(1).unwrap().state, BufferState::Queued);
    assert_eq!(camera.requeue(2), Ok(()));
    assert_eq!(camera.buffer(2).unwrap().state, BufferState::Queued);
    assert_eq!(camera.get_frame(2, 4096), Ok(Frame { index: 2, start: 0x12000, length: 4096 }));
    assert_eq!(camera.requeue(2), Ok(()));
    assert_eq!(camera.get_frame(0, 0), Ok(Frame { index: 0, start: 0x10000, length: 0 }));
}

#[test]
fn a_frame_outside_the_buffers_is_refused() {
    let mut camera: Camera = streaming_camera(4);
    assert_eq!(camera.get_frame(4, 10), Err(DeviceError::UnknownBuffer));
    assert_eq!(camera.get_frame(u32::MAX, 10), Err(DeviceError::UnknownBuffer));
    assert_eq!(camera.get_frame(1, 4097), Err(DeviceError::Overrun));
    assert_eq!(camera.get_frame(1, u32::MAX), Err(DeviceError::Overrun));
    assert_eq!(camera.buffer(1).unwrap().state, BufferState::Queued);
    assert_eq!(camera.get_frame(1, 10).map(|f| f.index), Ok(1));
    assert_eq!(camera.get_frame(1, 10), Err(DeviceError::WrongOwner));
    let mut stopped: Camera = mapped_camera(4);
    assert_eq!(stopped.get_frame(0, 10), Err(DeviceError::OutOfSequence));
}

#[test]
fn requeue_tells_what_is_wrong() {
    let mut stopped: Camera = mapped_camera(2);
    assert_eq!(stopped.requeue(0), Err(DeviceError::OutOfSequence));
    let mut camera: Camera = streaming_camera(2);
    assert_eq!(camera.requeue(2), Err(DeviceError::UnknownBuffer));
    assert_eq!(camera.requeue(0), Err(DeviceError::WrongOwner));
    assert!(camera.get_frame(0, 1).is_ok());
    assert_eq!(camera.requeue(1), Err(DeviceError::WrongOwner));
    assert_eq!(camera.requeue(0), Ok(()));
}

#[test]
fn teardown_takes_every_buffer_whoever_owns_it() {
    let mut camera: Camera = streaming_camera(3);
    assert!(camera.get_frame(1, 5).is_ok());
    let regions: Vec<Buffer> = camera.stop_streaming();
    assert_eq!(regions.len(), 3);
    assert_eq!(regions[0].state, BufferState::Queued);
    assert_eq!(regions[1].state, BufferState::Filled);
    assert_eq!(regions[2].state, BufferState::Queued);
    let indices: Vec<u32> = regions.iter().map(|b| b.index).collect();
    assert_eq!(indices, vec![0, 1, 2]);
    assert_eq!(camera.state(), SessionState::Closed);
    assert_eq!(camera.get_frame(0, 1), Err(DeviceError::OutOfSequence));
    assert_eq!(camera.requeue(1), Err(DeviceError::OutOfSequence));
}

#[test]
fn many_frames_never_leave_the_buffers() {
    let mut camera: Camera = streaming_camera(20);
    let mut turn: u32 = 0;
    while turn < 500 {
        let index: u32 = (turn * 7) % 20;
        let used: u32 = (turn * 37) % 4097;
        let frame: Frame = camera.get_frame(index, used).unwrap();
        let buffer: Buffer = camera.buffer(index).unwrap();
        assert!(frame.index < camera.granted());
        assert!(frame.length <= buffer.length);
        assert_eq!(frame.start, buffer.start);
        assert_eq!(camera.requeue(index), Ok(()));
        turn += 1;
    }
    assert_eq!(camera.stop_streaming().len(), 20);
}

#[test]
fn only_a_filled_buffer_may_be_read() {
    let mut camera: Camera = streaming_camera(3);
    let view: Frame = Frame { index: 1, start: 0x11000, length: 100 };
    assert!(!camera.may_read(&view));
    let frame: Frame = camera.get_frame(1, 100).unwrap();
    assert_eq!(frame, view);
    assert!(camera.may_read(&frame));
    assert!(camera.may_read(&Frame { index: 1, start: 0x11000, length: 4096 }));
    assert!(!camera.may_read(&Frame { index: 1, start: 0x11000, length: 4097 }));
    assert!(!camera.may_read(&Frame { index: 1, start: 0x11001, length: 100 }));
    assert!(!camera.may_read(&Frame { index: 0, start: 0x10000, length: 100 }));
    assert!(!camera.may_read(&Frame { index: 3, start: 0x13000, length: 100 }));
    assert_eq!(camera.requeue(1), Ok(()));
    assert!(!camera.may_read(&frame));
    assert!(camera.get_frame(1, 100).is_ok());
    assert!(camera.may_read(&frame));
    camera.stop_streaming();
    assert!(!camera.may_read(&frame));
    let stopped: Camera = mapped_camera(3);
    assert!(!stopped.may_read(&frame));
}
