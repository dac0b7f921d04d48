use mii_text::sink::{ErrSink, Sink};

#[test]
fn channel_sink_writes_each_chunk_and_finish_is_a_noop() {
    let mut sink = Sink::channel();

    sink.write_str("hello");
    sink.write_str(" world");
    sink.finish();

    let mut chunks = sink.take_chunks().into_iter();
    assert_eq!(chunks.next().unwrap(), "hello");
    assert_eq!(chunks.next().unwrap(), " world");
    assert_eq!(chunks.next(), None);
    assert!(sink.take_chunks().is_empty());
    assert_eq!(sink.into_memory(), None);
}

#[test]
fn memory_sink_buffers_written_text() {
    let mut sink = Sink::memory();

    sink.write_str("hello");
    sink.write_str(" world");
    sink.finish();

    assert!(sink.take_chunks().is_empty());
    assert_eq!(sink.into_memory().as_deref(), Some("hello world"));
}

#[test]
fn error_sink_channel_emits_diagnostic_text() {
    let emission = ErrSink::Channel.emit("stats\n");

    assert_eq!(emission.forwarded.as_deref(), Some("stats\n"));
    assert_eq!(emission.shown, "");
}

#[test]
fn server_error_sink_respects_forwarding_flag() {
    let sink = ErrSink::Server {
        forward_to_client: false,
        quiet: true,
        conn_id: 7,
    };

    let emission = sink.emit("hidden from client\n");

    assert_eq!(emission.forwarded, None);
    assert_eq!(emission.shown, "");
}

#[test]
fn server_error_sink_numbers_lines() {
    let sink = ErrSink::Server {
        forward_to_client: true,
        quiet: false,
        conn_id: 12,
    };
    let emission = sink.emit("\n--- stats ---\r\na\rb\n\nlast\r");
    assert_eq!(
        emission.shown,
        "#12 \n#12 --- stats ---\n#12 a\rb\n#12 \n#12 last\r\n"
    );
    assert_eq!(
        emission.forwarded.as_deref(),
        Some("\n--- stats ---\r\na\rb\n\nlast\r")
    );
    assert_eq!(ErrSink::Local.emit("x").shown, "x");
    assert_eq!(ErrSink::Local.emit("x").forwarded, None);
}

#[test]
fn every_sink_holds_the_same_text() {
    let mut channel = Sink::channel();
    let mut memory = Sink::memory();
    for chunk in ["a", "", "bc"] {
        channel.write_str(chunk);
        memory.write_str(chunk);
    }
    assert_eq!(channel.take_chunks(), vec!["a", "", "bc"]);
    assert_eq!(memory.into_memory().as_deref(), Some("abc"));
}
