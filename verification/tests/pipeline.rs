use linestream::merge::Merged;
use linestream::merge::StreamSource;
use linestream::runner::PollStep;
use linestream::runner::RunPhase;
use linestream::runner::Runner;
use linestream::runner::StreamEvent;

// Drive the full stack by hand: bytes read from two pipes go through the
// merged decoders, and every merged outcome becomes a supervisor event.

#[test]
fn one_shot_command_printing_two_lines_ends_cleanly() {
    let mut runner = Runner::new("printer".to_string(), false, None);
    let mut merged = Merged::new();
    let mut delivered: Vec<String> = Vec::new();
    let eof: Vec<u8> = vec![];

    for chunk in [b"x\n".to_vec(), b"y\n".to_vec()] {
        let line = merged.poll_source(StreamSource::Stdout, &chunk).unwrap();
        match runner.poll(StreamEvent::Line(line)) {
            PollStep::Deliver(rec) => delivered.push(rec.raw),
            _ => panic!("expected a delivery"),
        }
    }
    assert_eq!(merged.poll_source(StreamSource::Stdout, &eof), None);
    assert_eq!(merged.poll_source(StreamSource::Stderr, &eof), None);
    assert!(merged.exhausted());
    assert!(matches!(runner.poll(StreamEvent::Exhausted), PollStep::Marker));
    assert!(matches!(runner.poll(StreamEvent::NotReady), PollStep::End));
    assert_eq!(delivered, vec!["x", "y"]);
}

#[test]
fn head_cap_holds_across_real_restarts() {
    // The command prints one line and exits; restart mode relaunches it, but
    // a head budget of three stops the flow for good on the fourth cycle.
    let mut runner = Runner::new("oneshot".to_string(), true, Some(3));
    let mut delivered: Vec<String> = Vec::new();
    let eof: Vec<u8> = vec![];

    for cycle in 0..3 {
        let mut merged = Merged::new();
        let line = merged
            .poll_source(StreamSource::Stdout, &b"beep\n".to_vec())
            .unwrap();
        match runner.poll(StreamEvent::Line(line)) {
            PollStep::Deliver(rec) => delivered.push(rec.raw),
            _ => panic!("expected a delivery"),
        }
        assert_eq!(merged.poll_source(StreamSource::Stdout, &eof), None);
        assert_eq!(merged.poll_source(StreamSource::Stderr, &eof), None);
        assert!(merged.exhausted());
        match runner.poll(StreamEvent::Exhausted) {
            PollStep::Respawn => {
                assert!(cycle < 2);
                runner.restarted();
            }
            PollStep::End => {
                // The budget ran out exactly when the third line went through.
                assert_eq!(cycle, 2);
            }
            _ => panic!("expected a relaunch or the end"),
        }
    }
    assert_eq!(delivered, vec!["beep", "beep", "beep"]);
    assert_eq!(runner.current_phase(), RunPhase::Done);
}

#[test]
fn stderr_noise_reaches_the_consumer_alongside_stdout() {
    let mut runner = Runner::new("noisy".to_string(), false, None);
    let mut merged = Merged::new();
    let mut delivered: Vec<String> = Vec::new();

    let out_line = merged.poll_source(StreamSource::Stdout, &b"data\n".to_vec()).unwrap();
    if let PollStep::Deliver(rec) = runner.poll(StreamEvent::Line(out_line)) {
        delivered.push(rec.raw);
    }
    let err_line = merged.poll_source(StreamSource::Stderr, &b"warning\n".to_vec()).unwrap();
    if let PollStep::Deliver(rec) = runner.poll(StreamEvent::Line(err_line)) {
        delivered.push(rec.raw);
    }
    assert_eq!(delivered, vec!["data", "warning"]);
}
