use goophy::framer::{is_terminator_line, strip_carriage_return};
use goophy::{
    directory_entries, response_lines, text_response_lines, unescape_line, DirectoryReader,
    FetchError, LineFramer, ParseError, ReadEvent, TextReader,
};

fn line(s: &str) -> ReadEvent {
    ReadEvent::Line(s.to_string())
}

#[test]
fn framer_stops_at_terminator() {
    assert_eq!(response_lines("line1\nline2\n.\nline3\n"), vec!["line1", "line2"]);
}

#[test]
fn framer_strips_crlf() {
    assert_eq!(response_lines("a\r\nb\r\n.\r\nc\r\n"), vec!["a", "b"]);
}

#[test]
fn framer_ends_at_end_of_stream() {
    assert_eq!(response_lines("a\nb\n"), vec!["a", "b"]);
    assert_eq!(response_lines("a\nb"), vec!["a", "b"]);
    assert_eq!(response_lines(""), Vec::<String>::new());
    assert_eq!(response_lines("\n"), vec![""]);
}

#[test]
fn framer_keeps_dot_lines_that_are_not_terminators() {
    assert_eq!(response_lines("..\n.x\n .\n"), vec!["..", ".x", " ."]);
}

#[test]
fn terminator_is_exactly_one_dot() {
    assert!(is_terminator_line("."));
    assert!(!is_terminator_line(".."));
    assert!(!is_terminator_line(""));
    assert!(!is_terminator_line(". "));
}

#[test]
fn carriage_return_stripped_once() {
    assert_eq!(strip_carriage_return("ab\r\r"), "ab\r");
    assert_eq!(strip_carriage_return("ab"), "ab");
}

#[test]
fn text_strips_one_leading_dot() {
    assert_eq!(text_response_lines("..stats\n.\n"), vec![".stats"]);
    assert_eq!(unescape_line("..stats"), ".stats");
    assert_eq!(unescape_line(".x"), "x");
    assert_eq!(unescape_line("plain"), "plain");
    assert_eq!(unescape_line(""), "");
}

#[test]
fn directory_without_terminator_ends_cleanly() {
    let r = directory_entries("1A\t/a\th\t70\n0B\t/b\th\t71\n");
    assert_eq!(r.len(), 2);
    assert_eq!(r[1].as_ref().unwrap().label, "B");
}

#[test]
fn directory_stops_after_first_bad_line() {
    let r = directory_entries("1A\t/a\th\t70\n1B\t/b\th\t71\n1C\t/c\th\tNaN\n1D\t/d\th\t72\n.\n");
    assert_eq!(r.len(), 3);
    assert_eq!(r[0].as_ref().unwrap().label, "A");
    assert_eq!(r[1].as_ref().unwrap().port, 71);
    assert_eq!(r[2].as_ref().unwrap_err(), &ParseError::InvalidPort);
}

#[test]
fn line_framer_events() {
    let mut f = LineFramer::new();
    assert!(matches!(f.next(line("line1")), Some(Ok(ref s)) if s == "line1"));
    assert!(matches!(f.next(line("line2")), Some(Ok(ref s)) if s == "line2"));
    assert!(f.next(line(".")).is_none());
    assert!(f.is_finished());
    assert!(f.next(line("line3")).is_none());
}

#[test]
fn line_framer_closed_and_failed() {
    let mut f = LineFramer::new();
    assert!(f.next(ReadEvent::Closed).is_none());
    assert!(f.is_finished());

    let mut g = LineFramer::new();
    let r = g.next(ReadEvent::Failed(FetchError::Io("reset".to_string())));
    assert!(matches!(r, Some(Err(FetchError::Io(ref m))) if m == "reset"));
    assert!(g.is_finished());
    assert!(g.next(line("more")).is_none());
}

#[test]
fn directory_reader_yields_error_then_ends() {
    let mut d = DirectoryReader::new();
    assert_eq!(d.next(line("1A\t/a\th\t70")).unwrap().unwrap().label, "A");
    assert_eq!(d.next(line("1B\t/b\th\t70")).unwrap().unwrap().label, "B");
    assert!(matches!(
        d.next(line("1C\t/c\th")),
        Some(Err(FetchError::Parse(ParseError::TruncatedEntry)))
    ));
    assert!(d.is_finished());
    assert!(d.next(line("1D\t/d\th\t70")).is_none());
}

#[test]
fn directory_reader_connection_failure() {
    let mut d = DirectoryReader::new();
    let r = d.next(ReadEvent::Failed(FetchError::Connection("refused".to_string())));
    assert!(matches!(r, Some(Err(FetchError::Connection(_)))));
    assert!(d.next(ReadEvent::Closed).is_none());
}

#[test]
fn text_reader_collects_unescaped_lines() {
    let mut t = TextReader::new();
    assert!(!t.feed(line("..stats")));
    assert!(!t.feed(line("plain")));
    assert!(t.feed(line(".")));
    assert!(t.feed(line("after")));
    assert_eq!(t.finish().unwrap(), vec![".stats", "plain"]);
}

#[test]
fn text_reader_ends_at_close() {
    let mut t = TextReader::new();
    t.feed(line("a"));
    assert!(t.feed(ReadEvent::Closed));
    assert_eq!(t.finish().unwrap(), vec!["a"]);
}

#[test]
fn text_reader_fails_whole() {
    let mut t = TextReader::new();
    t.feed(line("a"));
    assert!(t.feed(ReadEvent::Failed(FetchError::Io("broken pipe".to_string()))));
    assert!(matches!(t.finish(), Err(FetchError::Io(_))));
}
