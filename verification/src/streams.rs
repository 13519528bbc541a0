//! The decisions behind streams, sinks and channels over a buffer.
//!
//! A step is taken on the buffer, which the caller lends, and says what the
//! caller has to do: hand an item on, wait, wake a waiting consumer, or end.

use crate::buffer::{within, BufferState, DynamicCircularBuffer};
use crate::error::{BufferError, BufferResult};
use crate::time;
use std::time::Duration;
use vstd::prelude::*;

verus! {

/// What a stream does next.
pub enum StreamStep<T> {
    /// It yields an item.
    Yield(T),
    /// It waits until it is woken, or until the given time has passed.
    Wait(Option<Duration>),
    /// It ends.
    End,
}

/// What a receiver does next.
pub enum RecvStep<T> {
    /// It is done.
    Done(BufferResult<T>),
    /// It waits until it is woken.
    Wait,
}

/// A stream of the items of a buffer.
pub struct BufferStream {
    poll_interval: Option<Duration>,
    closed: bool,
}

impl BufferStream {
    /// How long the stream waits without being woken.
    pub closed spec fn interval(&self) -> Option<Duration> {
        self.poll_interval
    }

    /// Whether the stream was closed.
    pub closed spec fn is_closed(&self) -> bool {
        self.closed
    }

    /// A stream that looks at the buffer every ten milliseconds.
    pub fn new() -> (r: Self)
        ensures
            r.interval() matches Some(d) && time::duration_nanos(d) == 10_000_000,
            !r.is_closed(),
    {
        BufferStream { poll_interval: Some(Duration::from_millis(10)), closed: false }
    }

    /// A stream that looks at the buffer when it is woken.
    pub fn with_notify() -> (r: Self)
        ensures
            r.interval() is None,
            !r.is_closed(),
    {
        BufferStream { poll_interval: None, closed: false }
    }

    /// The same stream, looking at the buffer at other intervals.
    pub fn with_poll_interval(self, interval: Duration) -> (r: Self)
        ensures
            r.interval() == Some(interval),
            r.is_closed() == self.is_closed(),
    {
        BufferStream { poll_interval: Some(interval), closed: self.closed }
    }

    /// Closes the stream: it yields nothing more.
    pub fn close(&mut self)
        ensures
            final(self).is_closed(),
            final(self).interval() == old(self).interval(),
    {
        self.closed = true;
    }

    /// The next step of the stream.
    pub fn poll_next<T>(&self, buffer: &mut DynamicCircularBuffer<T>) -> (r: StreamStep<T>)
        requires
            old(buffer).wf(),
        ensures
            final(buffer).wf(),
            match r {
                StreamStep::Yield(item) => {
                    &&& !self.is_closed()
                    &&& old(buffer)@.items.len() > 0
                    &&& item == old(buffer)@.items[0]
                    &&& final(buffer)@ == old(buffer)@.without_oldest(1)
                },
                StreamStep::Wait(interval) => {
                    &&& !self.is_closed()
                    &&& old(buffer)@.items.len() == 0
                    &&& interval == self.interval()
                    &&& final(buffer)@ == old(buffer)@
                },
                StreamStep::End => self.is_closed() && final(buffer)@ == old(buffer)@,
            },
    {
        if self.closed {
            return StreamStep::End;
        }
        match buffer.pop() {
            Ok(item) => StreamStep::Yield(item),
            Err(BufferError::Empty) => StreamStep::Wait(self.poll_interval),
            Err(_) => StreamStep::End,
        }
    }
}

/// A sink for items of a buffer.
pub struct BufferSink {
    notifies: bool,
}

impl BufferSink {
    /// Whether a consumer is woken after items were taken in.
    pub closed spec fn wakes(&self) -> bool {
        self.notifies
    }

    /// A sink that wakes nobody.
    pub fn new() -> (r: Self)
        ensures
            !r.wakes(),
    {
        BufferSink { notifies: false }
    }

    /// A sink that wakes a consumer.
    pub fn with_notify() -> (r: Self)
        ensures
            r.wakes(),
    {
        BufferSink { notifies: true }
    }

    /// Sends an item; also tells whether a consumer has to be woken.
    pub fn send<T>(&self, buffer: &mut DynamicCircularBuffer<T>, item: T) -> (r: (
        BufferResult<()>,
        bool,
    ))
        requires
            old(buffer).wf(),
        ensures
            final(buffer).wf(),
            match r.0 {
                Ok(()) => old(buffer)@.accepts(1) && final(buffer)@ == old(buffer)@.extended(
                    seq![item],
                ),
                Err(e) => !old(buffer)@.accepts(1) && final(buffer)@ == old(buffer)@ && e
                    == BufferError::MaxCapacityReached(old(buffer)@.config.max_capacity),
            },
            r.1 == (r.0 is Ok && self.wakes()),
    {
        match buffer.push(item) {
            Ok(()) => (Ok(()), self.notifies),
            Err(e) => (Err(e), false),
        }
    }

    /// Sends several items, all of them or none; also tells whether a consumer
    /// has to be woken.
    pub fn send_batch<T>(&self, buffer: &mut DynamicCircularBuffer<T>, items: Vec<T>) -> (r: (
        BufferResult<()>,
        bool,
    ))
        requires
            old(buffer).wf(),
        ensures
            final(buffer).wf(),
            match r.0 {
                Ok(()) => old(buffer)@.accepts(items@.len()) && final(buffer)@ == old(
                    buffer,
                )@.extended(items@),
                Err(e) => !old(buffer)@.accepts(items@.len()) && final(buffer)@ == old(buffer)@ && e
                    == BufferError::MaxCapacityReached(old(buffer)@.config.max_capacity),
            },
            r.1 == (r.0 is Ok && self.wakes()),
    {
        match buffer.push_batch(items) {
            Ok(()) => (Ok(()), self.notifies),
            Err(e) => (Err(e), false),
        }
    }
}

/// A stream and a sink over the same buffer, the one waiting for the other.
pub fn stream_sink_pair() -> (r: (BufferStream, BufferSink))
    ensures
        r.0.interval() is None,
        !r.0.is_closed(),
        r.1.wakes(),
{
    (BufferStream::with_notify(), BufferSink::with_notify())
}

/// Both ends of a channel over a buffer.
pub struct BufferChannel {}

impl BufferChannel {
    /// A channel.
    pub fn new() -> (r: Self)
        ensures
            r == (BufferChannel {  }),
    {
        BufferChannel {  }
    }

    /// Sends an item; also tells whether a receiver has to be woken.
    pub fn send<T>(&self, buffer: &mut DynamicCircularBuffer<T>, item: T) -> (r: (
        BufferResult<()>,
        bool,
    ))
        requires
            old(buffer).wf(),
        ensures
            final(buffer).wf(),
            match r.0 {
                Ok(()) => old(buffer)@.accepts(1) && final(buffer)@ == old(buffer)@.extended(
                    seq![item],
                ),
                Err(e) => !old(buffer)@.accepts(1) && final(buffer)@ == old(buffer)@ && e
                    == BufferError::MaxCapacityReached(old(buffer)@.config.max_capacity),
            },
            r.1 == (r.0 is Ok),
    {
        self.sink().send(buffer, item)
    }

    /// The next step of a receiver.
    pub fn recv<T>(&self, buffer: &mut DynamicCircularBuffer<T>) -> (r: RecvStep<T>)
        requires
            old(buffer).wf(),
        ensures
            final(buffer).wf(),
            match r {
                RecvStep::Done(result) => {
                    &&& old(buffer)@.items.len() > 0
                    &&& result matches Ok(item) && item == old(buffer)@.items[0]
                    &&& final(buffer)@ == old(buffer)@.without_oldest(1)
                },
                RecvStep::Wait => old(buffer)@.items.len() == 0 && final(buffer)@ == old(
                    buffer,
                )@,
            },
    {
        match buffer.pop() {
            Ok(item) => RecvStep::Done(Ok(item)),
            Err(BufferError::Empty) => RecvStep::Wait,
            Err(e) => RecvStep::Done(Err(e)),
        }
    }

    /// Receives an item without waiting.
    pub fn try_recv<T>(&self, buffer: &mut DynamicCircularBuffer<T>) -> (r: BufferResult<T>)
        requires
            old(buffer).wf(),
        ensures
            final(buffer).wf(),
            match r {
                Ok(item) => old(buffer)@.items.len() > 0 && item == old(buffer)@.items[0]
                    && final(buffer)@ == old(buffer)@.without_oldest(1),
                Err(e) => old(buffer)@.items.len() == 0 && final(buffer)@ == old(buffer)@ && e
                    == BufferError::Empty,
            },
    {
        buffer.pop()
    }

    /// What a receiver with a time limit returns, given what it received in
    /// time, if anything.
    pub fn recv_timeout<T>(&self, received: Option<BufferResult<T>>, timeout: Duration) -> (r:
        BufferResult<T>)
        ensures
            r == match received {
                Some(result) => result,
                None => Err(BufferError::Timeout(timeout)),
            },
    {
        within(received, timeout)
    }

    /// The number of items in the channel.
    pub fn len<T>(&self, buffer: &DynamicCircularBuffer<T>) -> (r: usize)
        ensures
            r == buffer@.items.len(),
    {
        buffer.len()
    }

    /// Whether the channel holds no item.
    pub fn is_empty<T>(&self, buffer: &DynamicCircularBuffer<T>) -> (r: bool)
        ensures
            r == (buffer@.items.len() == 0),
    {
        buffer.is_empty()
    }

    /// The receiving end as a stream.
    pub fn stream(&self) -> (r: BufferStream)
        ensures
            r.interval() is None,
            !r.is_closed(),
    {
        BufferStream::with_notify()
    }

    /// The sending end as a sink.
    pub fn sink(&self) -> (r: BufferSink)
        ensures
            r.wakes(),
    {
        BufferSink::with_notify()
    }
}

/// No consumer waits in vain: if one waits, the buffer is empty, the next item
/// that is sent is taken in, and it is what the consumer finds when it is woken.
pub proof fn law_waiting_consumer_finds_next_item<T>(s: BufferState<T>, item: T)
    requires
        s.wf(),
        s.items.len() == 0,
    ensures
        s.accepts(1),
        s.extended(seq![item]).wf(),
        s.extended(seq![item]).items.len() == 1,
        s.extended(seq![item]).items[0] == item,
        s.extended(seq![item]).without_oldest(1).items == s.items,
{
    assert(s.extended(seq![item]).without_oldest(1).items =~= s.items);
}

} // verus!
