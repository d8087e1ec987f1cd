use upstream_seed::scheduler::{HandleError, RunReport, Scheduler, TrackOutcome, TrackReply, Verdict};
use upstream_seed::{PeerId, Urn};

fn urn(s: &str) -> Urn {
    Urn::new(String::from(s))
}

fn queue_contents(s: &Scheduler) -> Vec<Urn> {
    s.work.iter().cloned().collect()
}

#[test]
fn new_scheduler_holds_seed_in_order() {
    let s = Scheduler::new(vec![urn("a"), urn("b"), urn("c")]);
    assert_eq!(queue_contents(&s), vec![urn("a"), urn("b"), urn("c")]);
    assert_eq!(s.len(), 3);
}

#[test]
fn drain_appends_batch_behind_queue_in_fifo_order() {
    // Three queued, two announced: after the drain all five stand in FIFO
    // order, the queued ones first, before anything is dispatched.
    let mut s = Scheduler::new(vec![urn("n1"), urn("n2"), urn("n3")]);
    s.drain(vec![urn("m1"), urn("m2")]);
    assert_eq!(
        queue_contents(&s),
        vec![urn("n1"), urn("n2"), urn("n3"), urn("m1"), urn("m2")]
    );
}

#[test]
fn drain_of_empty_batch_changes_nothing() {
    let mut s = Scheduler::new(vec![urn("a")]);
    s.drain(vec![]);
    assert_eq!(queue_contents(&s), vec![urn("a")]);
}

#[test]
fn enqueue_appends_single_announcements_in_arrival_order() {
    let mut s = Scheduler::new(vec![urn("a")]);
    s.enqueue(urn("b"));
    s.enqueue(urn("c"));
    assert_eq!(queue_contents(&s), vec![urn("a"), urn("b"), urn("c")]);
}

#[test]
fn next_work_pops_front() {
    let mut s = Scheduler::new(vec![urn("a"), urn("b")]);
    assert_eq!(s.next_work(), Some(urn("a")));
    assert_eq!(s.next_work(), Some(urn("b")));
    assert_eq!(s.next_work(), None);
}

#[test]
fn not_found_requeues_at_back() {
    let mut s = Scheduler::new(vec![urn("a"), urn("b"), urn("c")]);
    let front = s.next_work().unwrap();
    let v = s.record_outcome(front, &TrackOutcome::Reply(TrackReply::NotFound));
    assert_eq!(v, Verdict::Continue);
    assert_eq!(queue_contents(&s), vec![urn("b"), urn("c"), urn("a")]);
}

#[test]
fn timeout_requeues_at_back() {
    let mut s = Scheduler::new(vec![urn("a"), urn("b")]);
    let front = s.next_work().unwrap();
    let v = s.record_outcome(front, &TrackOutcome::Failed(HandleError::Timeout));
    assert_eq!(v, Verdict::Continue);
    assert_eq!(queue_contents(&s), vec![urn("b"), urn("a")]);
}

#[test]
fn fetched_and_noop_do_not_requeue() {
    let mut s = Scheduler::new(vec![urn("a"), urn("b")]);
    let first = s.next_work().unwrap();
    let v = s.record_outcome(
        first,
        &TrackOutcome::Reply(TrackReply::Fetched(PeerId::new(String::from("peer1")))),
    );
    assert_eq!(v, Verdict::Continue);
    let second = s.next_work().unwrap();
    let v = s.record_outcome(second, &TrackOutcome::Reply(TrackReply::NoOp));
    assert_eq!(v, Verdict::Continue);
    assert_eq!(queue_contents(&s), Vec::<Urn>::new());
}

#[test]
fn channel_closed_is_fatal_and_drops_in_flight_item() {
    // Once the handle reports closure the verdict is fatal and the
    // in-flight identifier is not re-queued.
    let mut s = Scheduler::new(vec![urn("a"), urn("b")]);
    let front = s.next_work().unwrap();
    let v = s.record_outcome(front, &TrackOutcome::Failed(HandleError::ChannelClosed));
    assert_eq!(v, Verdict::Fatal);
    assert_eq!(queue_contents(&s), vec![urn("b")]);
}

#[test]
fn retried_item_comes_up_again_only_after_a_full_pass() {
    // a fails retryably; b and c must both be dispatched before a is.
    let s = Scheduler::new(vec![urn("a"), urn("b"), urn("c")]);
    let outcomes = vec![
        TrackOutcome::Reply(TrackReply::NotFound),
        TrackOutcome::Reply(TrackReply::NoOp),
        TrackOutcome::Reply(TrackReply::NoOp),
        TrackOutcome::Reply(TrackReply::NoOp),
    ];
    let RunReport { dispatched, scheduler, fatal } = s.process(&outcomes);
    assert_eq!(dispatched, vec![urn("a"), urn("b"), urn("c"), urn("a")]);
    assert_eq!(queue_contents(&scheduler), Vec::<Urn>::new());
    assert!(!fatal);
}

#[test]
fn seeded_queue_retries_not_found_on_next_pass() {
    // Queue seeded with [a, b]; a returns NotFound, b returns Fetched.
    // b is never requeued; a is consumed on the next pass.
    let s = Scheduler::new(vec![urn("a"), urn("b")]);
    let outcomes = vec![
        TrackOutcome::Reply(TrackReply::NotFound),
        TrackOutcome::Reply(TrackReply::Fetched(PeerId::new(String::from("origin")))),
    ];
    let RunReport { dispatched, scheduler, fatal } = s.process(&outcomes);
    assert_eq!(dispatched, vec![urn("a"), urn("b")]);
    assert_eq!(queue_contents(&scheduler), vec![urn("a")]);
    assert!(!fatal);

    let outcomes = vec![TrackOutcome::Reply(TrackReply::Fetched(PeerId::new(
        String::from("origin"),
    )))];
    let RunReport { dispatched, scheduler, fatal } = scheduler.process(&outcomes);
    assert_eq!(dispatched, vec![urn("a")]);
    assert_eq!(queue_contents(&scheduler), Vec::<Urn>::new());
    assert!(!fatal);
}

#[test]
fn fatal_outcome_stops_the_run_at_once() {
    // The second dispatch fails fatally: the third queued identifier is
    // never dispatched and nothing is re-queued.
    let s = Scheduler::new(vec![urn("a"), urn("b"), urn("c")]);
    let outcomes = vec![
        TrackOutcome::Reply(TrackReply::NoOp),
        TrackOutcome::Failed(HandleError::ChannelClosed),
        TrackOutcome::Reply(TrackReply::NoOp),
    ];
    let RunReport { dispatched, scheduler, fatal } = s.process(&outcomes);
    assert_eq!(dispatched, vec![urn("a"), urn("b")]);
    assert_eq!(queue_contents(&scheduler), vec![urn("c")]);
    assert!(fatal);
}

#[test]
fn run_without_outcomes_dispatches_nothing() {
    let s = Scheduler::new(vec![urn("a")]);
    let RunReport { dispatched, scheduler, fatal } = s.process(&vec![]);
    assert_eq!(dispatched, Vec::<Urn>::new());
    assert_eq!(queue_contents(&scheduler), vec![urn("a")]);
    assert!(!fatal);
}
