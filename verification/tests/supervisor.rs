use linestream::runner::PollStep;
use linestream::runner::RunPhase;
use linestream::runner::Runner;
use linestream::runner::StreamEvent;

#[test]
fn zero_head_budget_delivers_nothing_and_ends_at_once() {
    let mut runner = Runner::new("cat file".to_string(), true, Some(0));
    let step = runner.poll(StreamEvent::Line("ignored".to_string()));
    assert!(matches!(step, PollStep::End));
    assert_eq!(runner.current_phase(), RunPhase::Done);
    // Done absorbs everything, whatever the command would have printed.
    assert!(matches!(runner.poll(StreamEvent::Exhausted), PollStep::End));
    assert!(matches!(runner.poll(StreamEvent::Line("more".to_string())), PollStep::End));
}

#[test]
fn head_budget_of_three_caps_delivery_across_restarts() {
    let mut runner = Runner::new("short".to_string(), true, Some(3));
    let mut delivered = 0;
    // First pass: one line, then the command exits and is relaunched.
    if let PollStep::Deliver(rec) = runner.poll(StreamEvent::Line("one".to_string())) {
        assert_eq!(rec.raw, "one");
        delivered += 1;
    } else {
        panic!("expected a delivery");
    }
    assert!(matches!(runner.poll(StreamEvent::Exhausted), PollStep::Respawn));
    runner.restarted();
    // Second pass delivers two more lines; the budget is then spent.
    if let PollStep::Deliver(_) = runner.poll(StreamEvent::Line("two".to_string())) {
        delivered += 1;
    }
    if let PollStep::Deliver(_) = runner.poll(StreamEvent::Line("three".to_string())) {
        delivered += 1;
    }
    assert_eq!(delivered, 3);
    assert_eq!(runner.budget_left(), Some(0));
    assert!(matches!(runner.poll(StreamEvent::Line("four".to_string())), PollStep::End));
    assert_eq!(runner.current_phase(), RunPhase::Done);
}

#[test]
fn single_pass_yields_lines_then_marker_then_end() {
    let mut runner = Runner::new("printer".to_string(), false, None);
    match runner.poll(StreamEvent::Line("x".to_string())) {
        PollStep::Deliver(rec) => assert_eq!(rec.raw, "x"),
        _ => panic!("expected a delivery"),
    }
    match runner.poll(StreamEvent::Line("y".to_string())) {
        PollStep::Deliver(rec) => assert_eq!(rec.raw, "y"),
        _ => panic!("expected a delivery"),
    }
    assert!(matches!(runner.poll(StreamEvent::Exhausted), PollStep::Marker));
    assert_eq!(runner.current_phase(), RunPhase::Done);
    assert!(matches!(runner.poll(StreamEvent::NotReady), PollStep::End));
}

#[test]
fn restart_mode_relaunches_on_every_exit_and_never_ends() {
    let mut runner = Runner::new("oneshot".to_string(), true, None);
    for _ in 0..5 {
        match runner.poll(StreamEvent::Line("ping".to_string())) {
            PollStep::Deliver(rec) => assert_eq!(rec.raw, "ping"),
            _ => panic!("expected a delivery"),
        }
        assert!(matches!(runner.poll(StreamEvent::Exhausted), PollStep::Respawn));
        assert_eq!(runner.current_phase(), RunPhase::Respawning);
        runner.restarted();
        assert_eq!(runner.current_phase(), RunPhase::Running);
    }
    assert_ne!(runner.current_phase(), RunPhase::Done);
}

#[test]
fn respawning_repeats_the_request_until_relaunched() {
    let mut runner = Runner::new("oneshot".to_string(), true, None);
    assert!(matches!(runner.poll(StreamEvent::Exhausted), PollStep::Respawn));
    // Still owed a relaunch: polling again keeps asking.
    assert!(matches!(runner.poll(StreamEvent::NotReady), PollStep::Respawn));
    runner.restarted();
    assert!(matches!(runner.poll(StreamEvent::NotReady), PollStep::Pending));
}

#[test]
fn pending_stream_stays_pending_and_spends_no_budget() {
    let mut runner = Runner::new("slow".to_string(), false, Some(2));
    assert!(matches!(runner.poll(StreamEvent::NotReady), PollStep::Pending));
    assert_eq!(runner.budget_left(), Some(2));
    assert_eq!(runner.current_phase(), RunPhase::Running);
}

#[test]
fn read_error_fails_the_whole_sequence() {
    let mut runner = Runner::new("flaky".to_string(), true, None);
    assert!(matches!(runner.poll(StreamEvent::Failed), PollStep::Fail));
    assert_eq!(runner.current_phase(), RunPhase::Failed);
    // Failed absorbs everything; no recovery even with restart set.
    assert!(matches!(runner.poll(StreamEvent::Line("late".to_string())), PollStep::Fail));
    assert!(matches!(runner.poll(StreamEvent::Exhausted), PollStep::Fail));
}

#[test]
fn delivery_decrements_the_budget_by_one() {
    let mut runner = Runner::new("counter".to_string(), false, Some(2));
    assert!(matches!(runner.poll(StreamEvent::Line("a".to_string())), PollStep::Deliver(_)));
    assert_eq!(runner.budget_left(), Some(1));
    assert!(matches!(runner.poll(StreamEvent::Line("b".to_string())), PollStep::Deliver(_)));
    assert_eq!(runner.budget_left(), Some(0));
    assert!(matches!(runner.poll(StreamEvent::Line("c".to_string())), PollStep::End));
}

#[test]
fn command_line_is_kept_verbatim() {
    let runner = Runner::new("adb logcat -b all".to_string(), true, None);
    assert_eq!(runner.command_line(), "adb logcat -b all");
}
