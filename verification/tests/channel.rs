use movenet_stream::channel::{PipelineChannel, Received};

#[test]
fn a_new_channel_is_open_and_empty() {
    let mut channel: PipelineChannel<u32> = PipelineChannel::new();
    assert_eq!(channel.len(), 0);
    assert!(channel.sender_is_open());
    assert!(channel.receiver_is_open());
    assert_eq!(channel.receive(), Received::Empty);
}

#[test]
fn items_come_out_in_the_order_they_went_in() {
    let mut channel: PipelineChannel<u32> = PipelineChannel::new();
    let mut i: u32 = 0;
    while i < 100 {
        assert_eq!(channel.send(i * 3), Ok(()));
        i += 1;
    }
    assert_eq!(channel.len(), 100);
    let mut i: u32 = 0;
    while i < 100 {
        assert_eq!(channel.receive(), Received::Item(i * 3));
        i += 1;
    }
    assert_eq!(channel.receive(), Received::Empty);
}

#[test]
fn order_is_kept_when_sends_and_receives_interleave() {
    let mut channel: PipelineChannel<u32> = PipelineChannel::new();
    let mut sent: u32 = 0;
    let mut received: u32 = 0;
    let mut turn: u32 = 0;
    while received < 100 {
        if sent < 100 && (turn % 3 != 2 || channel.len() == 0) {
            assert_eq!(channel.send(sent), Ok(()));
            sent += 1;
        } else {
            assert_eq!(channel.receive(), Received::Item(received));
            received += 1;
        }
        turn += 1;
    }
    assert_eq!(channel.len(), 0);
}

#[test]
fn what_is_queued_survives_the_producer() {
    let mut channel: PipelineChannel<u32> = PipelineChannel::new();
    assert_eq!(channel.send(1), Ok(()));
    assert_eq!(channel.send(2), Ok(()));
    channel.close_sender();
    assert!(!channel.sender_is_open());
    assert_eq!(channel.send(3), Err(3));
    assert_eq!(channel.receive(), Received::Item(1));
    assert_eq!(channel.receive(), Received::Item(2));
    assert_eq!(channel.receive(), Received::Closed);
    assert_eq!(channel.receive(), Received::Closed);
}

#[test]
fn nothing_is_taken_once_the_consumer_left() {
    let mut channel: PipelineChannel<u32> = PipelineChannel::new();
    assert_eq!(channel.send(1), Ok(()));
    channel.close_receiver();
    assert!(!channel.receiver_is_open());
    assert!(channel.sender_is_open());
    assert_eq!(channel.len(), 0);
    assert_eq!(channel.send(2), Err(2));
    assert_eq!(channel.receive(), Received::Closed);
}

#[test]
fn a_channel_carries_owned_buffers() {
    let mut channel: PipelineChannel<Vec<u8>> = PipelineChannel::new();
    assert_eq!(channel.send(vec![1, 2, 3]), Ok(()));
    assert_eq!(channel.send(Vec::new()), Ok(()));
    assert_eq!(channel.receive(), Received::Item(vec![1, 2, 3]));
    assert_eq!(channel.receive(), Received::Item(Vec::new()));
}
