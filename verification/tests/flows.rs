//! Streams, sinks and channels over a buffer.

use elasticq::streams::{
    stream_sink_pair, BufferChannel, BufferSink, BufferStream, RecvStep, StreamStep,
};
use elasticq::{BufferError, BufferResult, Config, DynamicCircularBuffer};
use std::time::Duration;

fn buffer() -> DynamicCircularBuffer<i32> {
    DynamicCircularBuffer::new(Config::default()).unwrap()
}

#[test]
fn test_stream_basic() {
    let mut buffer = buffer();
    buffer.push(1).unwrap();
    buffer.push(2).unwrap();
    buffer.push(3).unwrap();

    let stream = BufferStream::new().with_poll_interval(Duration::from_millis(1));
    let mut items = Vec::new();
    while let StreamStep::Yield(item) = stream.poll_next(&mut buffer) {
        items.push(item);
        if items.len() >= 3 {
            break;
        }
    }
    assert_eq!(items, vec![1, 2, 3]);
    assert!(matches!(
        stream.poll_next(&mut buffer),
        StreamStep::Wait(Some(d)) if d == Duration::from_millis(1)
    ));
}

#[test]
fn test_sink_basic() {
    let mut buffer = buffer();
    let sink = BufferSink::new();

    assert_eq!(sink.send(&mut buffer, 1), (Ok(()), false));
    assert_eq!(sink.send(&mut buffer, 2), (Ok(()), false));
    assert_eq!(sink.send(&mut buffer, 3), (Ok(()), false));

    assert_eq!(buffer.len(), 3);
    assert_eq!(buffer.pop().unwrap(), 1);
    assert_eq!(buffer.pop().unwrap(), 2);
    assert_eq!(buffer.pop().unwrap(), 3);
}

#[test]
fn test_stream_sink_pair() {
    let mut buffer = buffer();
    let (stream, sink) = stream_sink_pair();
    let mut items = Vec::new();
    for i in 0..5 {
        assert!(matches!(stream.poll_next(&mut buffer), StreamStep::Wait(None)));
        let (sent, wake) = sink.send(&mut buffer, i);
        sent.unwrap();
        assert!(wake);
        if let StreamStep::Yield(item) = stream.poll_next(&mut buffer) {
            items.push(item);
        }
    }
    assert_eq!(items.len(), 5);
    assert_eq!(items, vec![0, 1, 2, 3, 4]);
}

#[test]
fn test_channel_basic() {
    let mut buffer = buffer();
    let channel = BufferChannel::new();

    assert_eq!(channel.send(&mut buffer, 1), (Ok(()), true));
    assert_eq!(channel.send(&mut buffer, 2), (Ok(()), true));

    assert!(matches!(channel.recv(&mut buffer), RecvStep::Done(Ok(1))));
    assert!(matches!(channel.recv(&mut buffer), RecvStep::Done(Ok(2))));
    assert!(matches!(channel.recv(&mut buffer), RecvStep::Wait));
}

#[test]
fn test_channel_try_recv() {
    let mut buffer = buffer();
    let channel = BufferChannel::new();

    assert!(matches!(channel.try_recv(&mut buffer), Err(BufferError::Empty)));

    channel.send(&mut buffer, 42).0.unwrap();
    assert_eq!(channel.try_recv(&mut buffer).unwrap(), 42);
}

#[test]
fn test_channel_timeout() {
    let mut buffer = buffer();
    let channel = BufferChannel::new();
    assert!(matches!(channel.recv(&mut buffer), RecvStep::Wait));

    let nothing: Option<BufferResult<i32>> = None;
    let result = channel.recv_timeout(nothing, Duration::from_millis(10));
    assert!(matches!(result, Err(BufferError::Timeout(_))));
    assert_eq!(channel.recv_timeout(Some(Ok(5)), Duration::from_millis(10)), Ok(5));
}

#[test]
fn test_extension_trait() {
    let mut buffer = buffer();
    let channel = BufferChannel::new();
    assert!(channel.is_empty(&buffer));

    let sink = BufferSink::new();
    sink.send(&mut buffer, 42).0.unwrap();
    assert_eq!(buffer.len(), 1);
    assert_eq!(channel.len(&buffer), 1);
}

#[test]
fn a_closed_stream_ends_and_takes_nothing() {
    let mut buffer = buffer();
    buffer.push(1).unwrap();
    let mut stream = BufferStream::new();
    stream.close();
    assert!(matches!(stream.poll_next(&mut buffer), StreamStep::End));
    assert_eq!(buffer.len(), 1);
}

#[test]
fn a_stream_looks_every_ten_milliseconds() {
    let mut buffer = buffer();
    assert!(matches!(
        BufferStream::new().poll_next(&mut buffer),
        StreamStep::Wait(Some(d)) if d == Duration::from_millis(10)
    ));
    assert!(matches!(
        BufferStream::with_notify().poll_next(&mut buffer),
        StreamStep::Wait(None)
    ));
    assert!(matches!(
        BufferChannel::new().stream().poll_next(&mut buffer),
        StreamStep::Wait(None)
    ));
}

#[test]
fn a_refused_item_wakes_nobody() {
    let config = Config::default()
        .with_initial_capacity(1)
        .with_min_capacity(1)
        .with_max_capacity(2);
    let mut buffer = DynamicCircularBuffer::new(config).unwrap();
    let sink = BufferSink::with_notify();
    assert_eq!(sink.send_batch(&mut buffer, vec![1, 2]), (Ok(()), true));
    assert_eq!(
        sink.send(&mut buffer, 3),
        (Err(BufferError::MaxCapacityReached(2)), false)
    );
    assert_eq!(
        sink.send_batch(&mut buffer, vec![3]),
        (Err(BufferError::MaxCapacityReached(2)), false)
    );
    assert_eq!(
        BufferChannel::new().send(&mut buffer, 3),
        (Err(BufferError::MaxCapacityReached(2)), false)
    );
    assert_eq!(
        BufferChannel::new().sink().send_batch(&mut buffer, Vec::new()),
        (Ok(()), true)
    );
    assert_eq!(
        BufferSink::new().send_batch(&mut buffer, Vec::new()),
        (Ok(()), false)
    );
}
