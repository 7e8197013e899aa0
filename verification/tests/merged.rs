use linestream::merge::Merged;
use linestream::merge::StreamSource;

#[test]
fn lines_from_both_pipes_are_each_delivered_once() {
    let mut merged = Merged::new();
    let mut seen: Vec<String> = Vec::new();
    seen.push(merged.poll_source(StreamSource::Stdout, &b"out one\n".to_vec()).unwrap());
    seen.push(merged.poll_source(StreamSource::Stderr, &b"err one\n".to_vec()).unwrap());
    seen.push(merged.poll_source(StreamSource::Stdout, &b"out two\n".to_vec()).unwrap());
    assert_eq!(seen, vec!["out one", "err one", "out two"]);
}

#[test]
fn order_within_each_pipe_is_preserved() {
    let mut merged = Merged::new();
    let mut out_lines: Vec<String> = Vec::new();
    let mut err_lines: Vec<String> = Vec::new();
    // An arbitrary interleave of the two pipes.
    out_lines.push(merged.poll_source(StreamSource::Stdout, &b"o1\n".to_vec()).unwrap());
    err_lines.push(merged.poll_source(StreamSource::Stderr, &b"e1\n".to_vec()).unwrap());
    err_lines.push(merged.poll_source(StreamSource::Stderr, &b"e2\n".to_vec()).unwrap());
    out_lines.push(merged.poll_source(StreamSource::Stdout, &b"o2\n".to_vec()).unwrap());
    out_lines.push(merged.poll_source(StreamSource::Stdout, &b"o3\n".to_vec()).unwrap());
    assert_eq!(out_lines, vec!["o1", "o2", "o3"]);
    assert_eq!(err_lines, vec!["e1", "e2"]);
}

#[test]
fn merged_stream_is_exhausted_only_when_both_pipes_close() {
    let mut merged = Merged::new();
    let eof: Vec<u8> = vec![];
    assert_eq!(merged.poll_source(StreamSource::Stdout, &b"last\n".to_vec()), Some("last".to_string()));
    assert_eq!(merged.poll_source(StreamSource::Stdout, &eof), None);
    assert!(!merged.exhausted());
    assert_eq!(merged.poll_source(StreamSource::Stderr, &eof), None);
    assert!(merged.exhausted());
}

#[test]
fn each_pipe_keeps_its_own_unterminated_tail() {
    let mut merged = Merged::new();
    // Both pipes close mid-line; each tail comes out as its own final line.
    assert_eq!(
        merged.poll_source(StreamSource::Stdout, &b"out tail".to_vec()),
        Some("out tail".to_string())
    );
    assert_eq!(
        merged.poll_source(StreamSource::Stderr, &b"err tail".to_vec()),
        Some("err tail".to_string())
    );
}

#[test]
fn invalid_bytes_on_a_pipe_do_not_disturb_the_merge() {
    let mut merged = Merged::new();
    let noisy = vec![b'n', 0xff, b'o', b'i', b's', b'e', b'\n'];
    assert_eq!(
        merged.poll_source(StreamSource::Stderr, &noisy),
        Some("n\u{fffd}oise".to_string())
    );
    assert_eq!(
        merged.poll_source(StreamSource::Stdout, &b"clean\n".to_vec()),
        Some("clean".to_string())
    );
}
