//! The errors of all buffers and queues.

use crate::text;
use crate::text::{decimal_text, format_duration, join};
use std::time::Duration;
use vstd::prelude::*;
use vstd::string::*;

verus! {

/// Why an operation on a buffer failed.
#[derive(Debug, PartialEq)]
pub enum BufferError {
    /// The buffer holds as many items as it can, and cannot grow.
    Full,
    /// There was no item to take.
    Empty,
    /// The operation did not finish in time.
    Timeout(Duration),
    /// The buffer holds as many items as its configuration allows.
    MaxCapacityReached(usize),
    /// The storage of the buffer could not be replaced by a larger one.
    ResizeError(String),
    /// The operation does not make sense on this buffer.
    InvalidOperation(String),
    /// The configuration is not usable.
    InvalidConfiguration(String),
    /// Anything else.
    Other(String),
}

/// The result of an operation on a buffer.
pub type BufferResult<T> = Result<T, BufferError>;

impl BufferError {
    /// The message of the error.
    pub open spec fn message(self) -> Seq<char> {
        match self {
            BufferError::Full => "Buffer is full"@,
            BufferError::Empty => "Buffer is empty"@,
            BufferError::Timeout(d) => "Operation timed out after "@ + text::duration_text(d),
            BufferError::MaxCapacityReached(n) => "Maximum capacity of "@ + text::decimal(n as nat)
                + " reached"@,
            BufferError::ResizeError(s) => "Failed to resize buffer: "@ + s@,
            BufferError::InvalidOperation(s) => "Invalid operation: "@ + s@,
            BufferError::InvalidConfiguration(s) => "Invalid configuration: "@ + s@,
            BufferError::Other(s) => "Other error: "@ + s@,
        }
    }

    /// Whether the same operation may succeed when it is tried again.
    pub open spec fn retriable(self) -> bool {
        !(self is Empty || self is InvalidOperation || self is InvalidConfiguration)
    }

    /// Whether the buffer had no room.
    pub open spec fn capacity_error(self) -> bool {
        self is Full || self is MaxCapacityReached
    }

    /// Whether the same operation may succeed when it is tried again.
    pub fn is_retriable(&self) -> (r: bool)
        ensures
            r == self.retriable(),
    {
        match self {
            BufferError::Full
            | BufferError::Timeout(_)
            | BufferError::MaxCapacityReached(_)
            | BufferError::ResizeError(_)
            | BufferError::Other(_) => true,
            BufferError::Empty
            | BufferError::InvalidOperation(_)
            | BufferError::InvalidConfiguration(_) => false,
        }
    }

    /// Whether the buffer had no room.
    pub fn is_capacity_error(&self) -> (r: bool)
        ensures
            r == self.capacity_error(),
    {
        match self {
            BufferError::Full | BufferError::MaxCapacityReached(_) => true,
            _ => false,
        }
    }

    /// The message of the error.
    pub fn to_string(&self) -> (r: String)
        ensures
            r@ == self.message(),
    {
        match self {
            BufferError::Full => "Buffer is full".to_owned(),
            BufferError::Empty => "Buffer is empty".to_owned(),
            BufferError::Timeout(d) => join(
                "Operation timed out after ",
                format_duration(d).as_str(),
            ),
            BufferError::MaxCapacityReached(n) => {
                let mut r = join("Maximum capacity of ", decimal_text(*n).as_str());
                r.append(" reached");
                r
            },
            BufferError::ResizeError(s) => join("Failed to resize buffer: ", s.as_str()),
            BufferError::InvalidOperation(s) => join("Invalid operation: ", s.as_str()),
            BufferError::InvalidConfiguration(s) => join("Invalid configuration: ", s.as_str()),
            BufferError::Other(s) => join("Other error: ", s.as_str()),
        }
    }
}

impl Clone for BufferError {
    fn clone(&self) -> (r: Self)
        ensures
            r == *self,
    {
        match self {
            BufferError::Full => BufferError::Full,
            BufferError::Empty => BufferError::Empty,
            BufferError::Timeout(d) => BufferError::Timeout(*d),
            BufferError::MaxCapacityReached(n) => BufferError::MaxCapacityReached(*n),
            BufferError::ResizeError(s) => BufferError::ResizeError(s.clone()),
            BufferError::InvalidOperation(s) => BufferError::InvalidOperation(s.clone()),
            BufferError::InvalidConfiguration(s) => BufferError::InvalidConfiguration(s.clone()),
            BufferError::Other(s) => BufferError::Other(s.clone()),
        }
    }
}

/// Every error about missing room may go away by itself.
pub proof fn law_capacity_errors_are_retriable(e: BufferError)
    ensures
        e.capacity_error() ==> e.retriable(),
{
}

/// An error may go away by itself unless there was nothing to take, or the
/// operation or the configuration made no sense; want of room is what the two
/// errors about a full buffer report, and nothing else.
pub proof fn law_classes_of_errors(e: BufferError)
    ensures
        match e {
            BufferError::Full => e.retriable() && e.capacity_error(),
            BufferError::MaxCapacityReached(_) => e.retriable() && e.capacity_error(),
            BufferError::Timeout(_) => e.retriable() && !e.capacity_error(),
            BufferError::ResizeError(_) => e.retriable() && !e.capacity_error(),
            BufferError::Other(_) => e.retriable() && !e.capacity_error(),
            BufferError::Empty => !e.retriable() && !e.capacity_error(),
            BufferError::InvalidOperation(_) => !e.retriable() && !e.capacity_error(),
            BufferError::InvalidConfiguration(_) => !e.retriable() && !e.capacity_error(),
        },
{
}

/// The text of an error ends its message whole, behind what kind of error it is.
pub proof fn law_message_keeps_the_text(e: BufferError, text: String)
    requires
        e == BufferError::ResizeError(text) || e == BufferError::InvalidOperation(text) || e
            == BufferError::InvalidConfiguration(text) || e == BufferError::Other(text),
    ensures
        ({
            let kind = match e {
                BufferError::ResizeError(_) => "Failed to resize buffer: "@,
                BufferError::InvalidOperation(_) => "Invalid operation: "@,
                BufferError::InvalidConfiguration(_) => "Invalid configuration: "@,
                _ => "Other error: "@,
            };
            &&& e.message().take(kind.len() as int) == kind
            &&& e.message().skip(kind.len() as int) == text@
        }),
{
    let kind = match e {
        BufferError::ResizeError(_) => "Failed to resize buffer: "@,
        BufferError::InvalidOperation(_) => "Invalid operation: "@,
        BufferError::InvalidConfiguration(_) => "Invalid configuration: "@,
        _ => "Other error: "@,
    };
    assert(e.message().take(kind.len() as int) =~= kind);
    assert(e.message().skip(kind.len() as int) =~= text@);
}

/// The message about a timeout ends with the time that was allowed.
pub proof fn law_message_tells_the_time(limit: Duration)
    ensures
        ({
            let message = BufferError::Timeout(limit).message();
            let before = "Operation timed out after "@;
            &&& message.take(before.len() as int) == before
            &&& message.skip(before.len() as int) == text::duration_text(limit)
        }),
{
    let message = BufferError::Timeout(limit).message();
    let before = "Operation timed out after "@;
    assert(message.take(before.len() as int) =~= before);
    assert(message.skip(before.len() as int) =~= text::duration_text(limit));
}

/// The message about the maximum capacity holds the capacity in decimal.
pub proof fn law_message_tells_the_capacity(n: usize)
    ensures
        ({
            let message = BufferError::MaxCapacityReached(n).message();
            let before = "Maximum capacity of "@;
            let after = " reached"@;
            let digits = message.subrange(before.len() as int, message.len() - after.len());
            &&& message == before + digits + after
            &&& text::number(digits) == n
        }),
{
    let message = BufferError::MaxCapacityReached(n).message();
    let before = "Maximum capacity of "@;
    let after = " reached"@;
    let digits = message.subrange(before.len() as int, message.len() - after.len());
    text::law_decimal_reads_back(n as nat);
    assert(digits =~= text::decimal(n as nat));
}

} // verus!
