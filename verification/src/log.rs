//! Types for logging messages during compilation.

use vstd::prelude::*;

verus! {

/// Log priority level.
#[derive(Debug, Clone, Copy, PartialEq, Eq, Structural)]
pub enum LogPriority {
    /// Non-error log output.
    Message,
    /// Warning-level log output.
    Warn,
    /// Error-level log output.
    Error,
}

/// The stream that a message is written to.
#[derive(Debug, Clone, Copy, PartialEq, Eq, Structural)]
pub enum LogStream {
    /// The output stream.
    Output,
    /// The error stream.
    Error,
}

impl LogPriority {
    /// Where a message of this priority is written: plain messages to the output stream,
    /// warnings and errors to the error stream.
    pub open spec fn stream_of(self) -> LogStream {
        match self {
            LogPriority::Message => LogStream::Output,
            LogPriority::Warn => LogStream::Error,
            LogPriority::Error => LogStream::Error,
        }
    }

    /// Where a message of this priority is written.
    pub fn stream(&self) -> (stream: LogStream)
        ensures
            stream == self.stream_of(),
    {
        match self {
            LogPriority::Message => LogStream::Output,
            LogPriority::Warn => LogStream::Error,
            LogPriority::Error => LogStream::Error,
        }
    }
}

/// What a flush hands over for writing.
#[derive(Debug, Clone, PartialEq)]
pub struct Flushed<T> {
    /// The messages in the order in which they were logged, each with its stream.
    pub lines: Vec<(T, LogStream)>,
    /// The priority of the last message, `None` if there was no message.
    pub last: Option<LogPriority>,
}

/// Log listener object for accepting log messages of type `T` and buffering them until they
/// are flushed.
pub struct LogListener<T> {
    messages: Vec<(T, LogPriority)>,
}

impl<T> View for LogListener<T> {
    type V = Seq<(T, LogPriority)>;

    closed spec fn view(&self) -> Seq<(T, LogPriority)> {
        self.messages@
    }
}

/// The lines that a flush of `messages` hands over.
pub open spec fn routed<T>(messages: Seq<(T, LogPriority)>) -> Seq<(T, LogStream)> {
    messages.map_values(|m: (T, LogPriority)| (m.0, m.1.stream_of()))
}

/// The priority of the last of `messages`.
pub open spec fn last_priority<T>(messages: Seq<(T, LogPriority)>) -> Option<LogPriority> {
    if messages.len() == 0 {
        None
    } else {
        Some(messages.last().1)
    }
}

impl<T> LogListener<T> {
    /// Create a new log listener with empty buffer.
    pub fn new() -> (listener: LogListener<T>)
        ensures
            listener@ == Seq::<(T, LogPriority)>::empty(),
    {
        LogListener { messages: Vec::new() }
    }

    /// Adds a log message with `LogPriority::Message` to the message buffer.
    pub fn log(&mut self, msg: T)
        ensures
            final(self)@ == old(self)@.push((msg, LogPriority::Message)),
    {
        self.messages.push((msg, LogPriority::Message));
    }

    /// Adds a log message with `LogPriority::Warn` to the message buffer.
    pub fn warn(&mut self, msg: T)
        ensures
            final(self)@ == old(self)@.push((msg, LogPriority::Warn)),
    {
        self.messages.push((msg, LogPriority::Warn));
    }

    /// Adds a log message with `LogPriority::Error` to the message buffer.
    pub fn error(&mut self, msg: T)
        ensures
            final(self)@ == old(self)@.push((msg, LogPriority::Error)),
    {
        self.messages.push((msg, LogPriority::Error));
    }

    /// Flushes the current message buffer: empties it and hands over its messages for
    /// writing, in order and each with the stream it goes to, together with the priority of
    /// the last one.
    pub fn flush(&mut self) -> (flushed: Flushed<T>)
        ensures
            final(self)@ == Seq::<(T, LogPriority)>::empty(),
            flushed.lines@ == routed(old(self)@),
            flushed.last == last_priority(old(self)@),
    {
        let mut drained: Vec<(T, LogPriority)> = Vec::new();
        core::mem::swap(&mut self.messages, &mut drained);
        let mut lines: Vec<(T, LogStream)> = Vec::new();
        let mut last: Option<LogPriority> = None;
        for message in it: drained
            invariant
                it.seq() == old(self)@,
                lines@ == routed(old(self)@.take(it.index() as int)),
                last == last_priority(old(self)@.take(it.index() as int)),
        {
            let (msg, prio) = message;
            lines.push((msg, prio.stream()));
            last = Some(prio);
            assert(lines@ =~= routed(old(self)@.take(it.index() + 1)));
        }
        assert(old(self)@.take(old(self)@.len() as int) == old(self)@);
        Flushed { lines, last }
    }
}

} // verus!
