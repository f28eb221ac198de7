use sindra::log::{Flushed, LogListener, LogPriority, LogStream};

#[test]
fn flush_hands_over_messages_in_order() {
    let mut listener: LogListener<&'static str> = LogListener::new();
    listener.log("one");
    listener.warn("two");
    listener.error("three");
    listener.log("four");
    let Flushed { lines, last } = listener.flush();
    assert_eq!(
        lines,
        vec![
            ("one", LogStream::Output),
            ("two", LogStream::Error),
            ("three", LogStream::Error),
            ("four", LogStream::Output),
        ]
    );
    assert_eq!(last, Some(LogPriority::Message));
}

#[test]
fn flush_gives_priority_of_last_message() {
    let mut listener: LogListener<String> = LogListener::new();
    listener.error("bad".to_string());
    listener.warn("careful".to_string());
    let flushed = listener.flush();
    assert_eq!(flushed.last, Some(LogPriority::Warn));
    assert_eq!(flushed.lines.len(), 2);
}

#[test]
fn flush_empties_the_buffer() {
    let mut listener: LogListener<u32> = LogListener::new();
    let flushed = listener.flush();
    assert_eq!(flushed.lines, vec![]);
    assert_eq!(flushed.last, None);
    listener.error(7);
    let flushed = listener.flush();
    assert_eq!(flushed.lines, vec![(7, LogStream::Error)]);
    assert_eq!(flushed.last, Some(LogPriority::Error));
    let flushed = listener.flush();
    assert_eq!(flushed.lines, vec![]);
    assert_eq!(flushed.last, None);
}

#[test]
fn priorities_choose_their_stream() {
    assert_eq!(LogPriority::Message.stream(), LogStream::Output);
    assert_eq!(LogPriority::Warn.stream(), LogStream::Error);
    assert_eq!(LogPriority::Error.stream(), LogStream::Error);
}
