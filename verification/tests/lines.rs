use rpc_bridge::lines::{lines, LineSource, Next};
use rpc_bridge::stdin::{stdin, StdinMessage};

fn line(text: &str) -> Next {
    Next::Line(text.to_string())
}

fn strings(texts: &[&str]) -> Vec<String> {
    texts.iter().map(|text| text.to_string()).collect()
}

#[test]
fn line_source_yields_each_line_then_ends() {
    let mut source = LineSource::new();
    source.feed(b"a\nb\nc");
    source.close();
    assert_eq!(source.next_line(), line("a"));
    assert_eq!(source.next_line(), line("b"));
    assert_eq!(source.next_line(), line("c"));
    assert_eq!(source.next_line(), Next::End);
    assert_eq!(source.next_line(), Next::End);
}

#[test]
fn line_source_trailing_newline_gives_no_empty_last_line() {
    let mut source = LineSource::new();
    source.feed(b"a\nb\n");
    source.close();
    assert_eq!(source.next_line(), line("a"));
    assert_eq!(source.next_line(), line("b"));
    assert_eq!(source.next_line(), Next::End);
}

#[test]
fn lines_of_whole_inputs() {
    assert_eq!(lines(b"a\nb\nc"), strings(&["a", "b", "c"]));
    assert_eq!(lines(b"a\nb\n"), strings(&["a", "b"]));
    assert_eq!(lines(b""), strings(&[]));
    assert_eq!(lines(b"\n"), strings(&[""]));
    assert_eq!(lines(b"a\n\nb"), strings(&["a", "", "b"]));
    assert_eq!(lines(b"one line"), strings(&["one line"]));
}

#[test]
fn lines_drop_a_carriage_return_before_the_newline_only() {
    assert_eq!(lines(b"a\r\nb\r\n"), strings(&["a", "b"]));
    assert_eq!(lines(b"a\r\r\nb"), strings(&["a\r", "b"]));
    assert_eq!(lines(b"a\rb\nc\r"), strings(&["a\rb", "c\r"]));
    assert_eq!(lines(b"\r\n"), strings(&[""]));
}

#[test]
fn lines_are_utf8_text() {
    assert_eq!(lines("gr\u{fc}\u{df}e\n\u{4e16}\u{754c}".as_bytes()), strings(&["gr\u{fc}\u{df}e", "\u{4e16}\u{754c}"]));
}

#[test]
fn a_line_that_is_not_utf8_ends_the_sequence() {
    assert_eq!(lines(b"a\n\xff\xfe\nb\n"), strings(&["a"]));
    assert_eq!(lines(b"a\nb\xc3"), strings(&["a"]));
    let mut source = LineSource::new();
    source.feed(b"\xff\nb\n");
    assert_eq!(source.next_line(), Next::End);
    assert!(source.closed());
    source.feed(b"c\n");
    assert_eq!(source.next_line(), Next::End);
}

#[test]
fn an_open_source_waits_for_the_newline() {
    let mut source = LineSource::new();
    assert!(!source.closed());
    assert_eq!(source.next_line(), Next::Pending);
    source.feed(b"par");
    assert_eq!(source.next_line(), Next::Pending);
    source.feed(b"tial\nnext");
    assert_eq!(source.next_line(), line("partial"));
    assert_eq!(source.next_line(), Next::Pending);
    source.close();
    assert!(source.closed());
    assert_eq!(source.next_line(), line("next"));
    assert_eq!(source.next_line(), Next::End);
}

#[test]
fn chunks_may_split_a_character() {
    let bytes = "\u{e9}t\u{e9}\n".as_bytes();
    let mut source = LineSource::new();
    source.feed(&bytes[..1]);
    assert_eq!(source.next_line(), Next::Pending);
    source.feed(&bytes[1..]);
    assert_eq!(source.next_line(), line("\u{e9}t\u{e9}"));
}

#[test]
fn a_closed_source_takes_no_more_bytes() {
    let mut source = LineSource::new();
    source.feed(b"a\n");
    source.close();
    source.feed(b"b\n");
    assert_eq!(source.next_line(), line("a"));
    assert_eq!(source.next_line(), Next::End);
}

#[test]
fn stdin_wraps_each_line() {
    assert_eq!(
        stdin(b"a\nb\n"),
        vec![StdinMessage::Line("a".to_string()), StdinMessage::Line("b".to_string())]
    );
    assert!(stdin(b"").is_empty());
}

#[test]
fn feed_read_takes_the_bytes_that_a_read_brought() {
    let mut source = LineSource::new();
    let buffer = *b"a\nbcd";
    source.feed_read(&buffer, Some(3));
    assert!(!source.closed());
    assert_eq!(source.next_line(), line("a"));
    assert_eq!(source.next_line(), Next::Pending);
    source.feed_read(&buffer, Some(5));
    assert_eq!(source.next_line(), line("ba"));
    source.close();
    assert_eq!(source.next_line(), line("bcd"));
    assert_eq!(source.next_line(), Next::End);
}

#[test]
fn feed_read_ends_the_sequence_on_an_empty_or_failed_read() {
    for read in [Some(0), None, Some(7)] {
        let mut source = LineSource::new();
        let buffer = *b"a\nbcd";
        source.feed_read(&buffer, Some(3));
        source.feed_read(&buffer, read);
        assert!(source.closed());
        assert_eq!(source.next_line(), line("a"));
        assert_eq!(source.next_line(), line("b"));
        assert_eq!(source.next_line(), Next::End);
    }
}
