use gated_recorder::channel::SampleChannel;
use gated_recorder::event::RecordingEvent;
use gated_recorder::sample::Sample;

fn data(tag: u32) -> RecordingEvent {
    RecordingEvent::Data(vec![Sample::from_bits(tag)])
}

#[test]
fn new_channel_is_empty() {
    let c = SampleChannel::new(4);
    assert_eq!(c.len(), 0);
    assert!(c.is_empty());
    assert!(!c.is_full());
    assert_eq!(c.capacity(), 4);
    assert_eq!(c.dropped(), 0);
}

#[test]
fn receive_on_empty_channel_is_none() {
    let mut c = SampleChannel::new(2);
    assert_eq!(c.receive(), None);
    assert_eq!(c.len(), 0);
    assert_eq!(c.dropped(), 0);
}

#[test]
fn events_leave_in_the_order_sent() {
    let mut c = SampleChannel::new(8);
    let sent = vec![
        RecordingEvent::Start(String::from("s/000000")),
        data(1),
        data(2),
        RecordingEvent::Stop,
        RecordingEvent::Start(String::from("s/000001")),
        data(3),
    ];
    for event in sent.iter() {
        assert_eq!(c.try_send(event.clone()), Ok(()));
    }
    assert_eq!(c.len(), 6);
    let mut received = Vec::new();
    while let Some(event) = c.receive() {
        received.push(event);
    }
    assert_eq!(received, sent);
    assert_eq!(c.dropped(), 0);
}

#[test]
fn full_channel_hands_the_event_back_and_counts() {
    let mut c = SampleChannel::new(2);
    assert_eq!(c.try_send(data(1)), Ok(()));
    assert_eq!(c.try_send(data(2)), Ok(()));
    assert!(c.is_full());
    assert_eq!(c.try_send(data(3)), Err(data(3)));
    assert_eq!(c.try_send(RecordingEvent::Stop), Err(RecordingEvent::Stop));
    assert_eq!(c.dropped(), 2);
    assert_eq!(c.len(), 2);
    assert_eq!(c.receive(), Some(data(1)));
    assert!(!c.is_full());
    assert_eq!(c.try_send(data(4)), Ok(()));
    assert_eq!(c.receive(), Some(data(2)));
    assert_eq!(c.receive(), Some(data(4)));
    assert_eq!(c.receive(), None);
    assert_eq!(c.dropped(), 2);
}

#[test]
fn channel_without_capacity_refuses_everything() {
    let mut c = SampleChannel::new(0);
    assert!(c.is_full());
    assert_eq!(c.try_send(data(7)), Err(data(7)));
    assert_eq!(c.dropped(), 1);
    assert_eq!(c.receive(), None);
}

#[test]
fn fast_producer_loses_only_counted_events() {
    // Three offers for every take: the channel saturates.
    let mut c = SampleChannel::new(5);
    let mut accepted = Vec::new();
    let mut refused: u64 = 0;
    let mut delivered = Vec::new();
    for tag in 0u32..300 {
        match c.try_send(data(tag)) {
            Ok(()) => accepted.push(data(tag)),
            Err(event) => {
                assert_eq!(event, data(tag));
                refused += 1;
            }
        }
        assert!(c.len() <= c.capacity());
        if tag % 3 == 2 {
            delivered.extend(c.receive());
        }
    }
    while let Some(event) = c.receive() {
        delivered.push(event);
    }
    assert_eq!(delivered, accepted);
    assert_eq!(c.dropped(), refused);
    assert_eq!(accepted.len() as u64 + refused, 300);
    assert!(refused > 0);
}
