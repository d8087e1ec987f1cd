//! The tracking scheduler: a FIFO work queue of project identifiers with
//! retry-to-back reinsertion.
//!
//! The scheduler owns one logical queue with two input sources: an inbound
//! channel of newly announced identifiers and its own retry reinsertions.
//! The channel itself is outside plumbing; it hands the functions here the
//! received identifiers and the outcome of each dispatched request, and the
//! functions decide what the queue does next.

use vstd::prelude::*;

use crate::PeerId;
use crate::Urn;

verus! {

/// Reply of the background peer to one tracking request.
pub enum TrackReply {
    /// The project was fetched from the given origin peer.
    Fetched(PeerId),
    /// The local store was already up to date; nothing was done.
    NoOp,
    /// No peer offering the project was found; worth retrying later.
    NotFound,
}

/// Failure of the request handle itself, as opposed to a reply.
pub enum HandleError {
    /// The peer did not reply within the configured deadline; recoverable.
    Timeout,
    /// The peer runtime has exited; fatal to all pending and future requests.
    ChannelClosed,
}

/// Everything one dispatch can come back with: a reply or a handle failure.
pub enum TrackOutcome {
    /// The peer replied.
    Reply(TrackReply),
    /// The handle failed before a reply arrived.
    Failed(HandleError),
}

/// An outcome after which the identifier is re-queued at the back:
/// the project was not found, or the request timed out.
pub open spec fn is_retryable(o: TrackOutcome) -> bool {
    match o {
        TrackOutcome::Reply(TrackReply::NotFound) => true,
        TrackOutcome::Failed(HandleError::Timeout) => true,
        _ => false,
    }
}

/// An outcome that ends the scheduler: the peer runtime is gone, so no
/// further request can succeed.
pub open spec fn is_fatal(o: TrackOutcome) -> bool {
    match o {
        TrackOutcome::Failed(HandleError::ChannelClosed) => true,
        _ => false,
    }
}

/// What the scheduler does after recording an outcome.
#[derive(Debug, PartialEq, Eq, Structural)]
pub enum Verdict {
    /// Keep draining and dispatching.
    Continue,
    /// Terminate at once; the in-flight identifier is not re-queued.
    Fatal,
}

/// The scheduler's work queue: identifiers are taken from the front and
/// appended at the back, both for new announcements and for retries.
pub struct Scheduler {
    /// Front of the deque is the front of the queue.
    pub work: std::collections::VecDeque<Urn>,
}

impl Scheduler {
    /// The queue as a sequence, front first.
    pub open spec fn queue(&self) -> Seq<Urn> {
        self.work@
    }

    /// A scheduler whose queue holds exactly the seed identifiers, in order.
    pub fn new(seed: Vec<Urn>) -> (s: Scheduler)
        ensures
            s.queue() == seed@,
    {
        let mut work: std::collections::VecDeque<Urn> = std::collections::VecDeque::new();
        let mut seed = seed;
        let ghost all = seed@;
        while seed.len() > 0
            invariant
                work@ + seed@ == all,
            decreases seed@.len(),
        {
            let ghost q0 = work@;
            let ghost s0 = seed@;
            let u = seed.remove(0);
            work.push_back(u);
            proof {
                assert(q0.push(s0[0]) + s0.remove(0) =~= q0 + s0);
            }
        }
        proof {
            assert(work@ + seed@ =~= work@);
        }
        Scheduler { work }
    }

    /// Number of identifiers waiting in the queue.
    pub fn len(&self) -> (n: usize)
        ensures
            n == self.queue().len(),
    {
        self.work.len()
    }

    /// Append one newly announced identifier at the back of the queue.
    pub fn enqueue(&mut self, urn: Urn)
        ensures
            final(self).queue() == old(self).queue().push(urn),
    {
        self.work.push_back(urn);
    }

    /// Drain one batch of announcements into the queue.
    ///
    /// All previously queued identifiers stay in front of all announced
    /// ones, and both keep their order: the queue afterwards is the old
    /// queue followed by the batch.  Nothing is dispatched here.
    pub fn drain(&mut self, announced: Vec<Urn>)
        ensures
            final(self).queue() == old(self).queue() + announced@,
    {
        let ghost orig = self.queue();
        let ghost batch = announced@;
        let mut announced = announced;
        while announced.len() > 0
            invariant
                self.queue() + announced@ == orig + batch,
            decreases announced@.len(),
        {
            let ghost q0 = self.queue();
            let ghost a0 = announced@;
            let u = announced.remove(0);
            self.work.push_back(u);
            proof {
                assert(q0.push(a0[0]) + a0.remove(0) =~= q0 + a0);
            }
        }
        proof {
            assert(self.queue() + announced@ =~= self.queue());
        }
    }

    /// Take the front identifier as the unit of work, if any.
    pub fn next_work(&mut self) -> (r: Option<Urn>)
        ensures
            old(self).queue().len() == 0 ==> r is None && final(self).queue() == old(self).queue(),
            old(self).queue().len() > 0 ==> r == Some(old(self).queue()[0]) && final(self).queue()
                == old(self).queue().drop_first(),
    {
        let r = self.work.pop_front();
        proof {
            if old(self).queue().len() > 0 {
                assert(self.queue() =~= old(self).queue().drop_first());
            }
        }
        r
    }

    /// Record the outcome of dispatching `urn` and decide how to go on.
    ///
    /// A retryable outcome re-appends the identifier at the back, exactly
    /// once, leaving every other queued identifier in place and in front of
    /// it.  A successful reply leaves the queue untouched.  A fatal handle
    /// failure leaves the queue untouched and ends the scheduler: the
    /// in-flight identifier is not re-queued.
    pub fn record_outcome(&mut self, urn: Urn, outcome: &TrackOutcome) -> (v: Verdict)
        ensures
            is_retryable(*outcome) ==> final(self).queue() == old(self).queue().push(urn),
            !is_retryable(*outcome) ==> final(self).queue() == old(self).queue(),
            v == (if is_fatal(*outcome) {
                Verdict::Fatal
            } else {
                Verdict::Continue
            }),
    {
        match outcome {
            TrackOutcome::Reply(TrackReply::Fetched(_)) => Verdict::Continue,
            TrackOutcome::Reply(TrackReply::NoOp) => Verdict::Continue,
            TrackOutcome::Reply(TrackReply::NotFound) => {
                self.work.push_back(urn);
                Verdict::Continue
            },
            TrackOutcome::Failed(HandleError::Timeout) => {
                self.work.push_back(urn);
                Verdict::Continue
            },
            TrackOutcome::Failed(HandleError::ChannelClosed) => Verdict::Fatal,
        }
    }
}

/// What a run of the dispatch loop amounts to, with the inbound channel
/// quiet: the identifiers dispatched in order, the queue left behind, and
/// whether a fatal handle failure ended the run.
///
/// Each step takes the front of the queue, dispatches it against the next
/// outcome, and either re-queues it at the back (retryable outcome), drops
/// it (success), or stops at once (fatal).  The run ends when the queue or
/// the outcomes are exhausted.
pub open spec fn run_spec(w: Seq<Urn>, o: Seq<TrackOutcome>) -> (Seq<Urn>, Seq<Urn>, bool)
    decreases o.len(),
{
    if w.len() == 0 || o.len() == 0 {
        (Seq::<Urn>::empty(), w, false)
    } else if is_fatal(o[0]) {
        (seq![w[0]], w.drop_first(), true)
    } else {
        let w2 = if is_retryable(o[0]) {
            w.drop_first().push(w[0])
        } else {
            w.drop_first()
        };
        let r = run_spec(w2, o.drop_first());
        (seq![w[0]] + r.0, r.1, r.2)
    }
}

/// Outcome of [`Scheduler::process`]: the dispatch order, the scheduler as
/// it stands afterwards, and whether the run ended fatally.
pub struct RunReport {
    /// The identifiers dispatched, in dispatch order.
    pub dispatched: Vec<Urn>,
    /// The scheduler after the run, retries still queued.
    pub scheduler: Scheduler,
    /// True when a fatal handle failure ended the run.
    pub fatal: bool,
}

impl Scheduler {
    /// Dispatch queued identifiers against a script of outcomes, with the
    /// inbound channel quiet: exactly the scheduler loop between two drains.
    ///
    /// The run follows [`run_spec`] of the starting queue and the script:
    /// fronts are dispatched in order, retryable outcomes re-queue at the
    /// back, and a fatal outcome stops everything at once.
    pub fn process(self, outcomes: &Vec<TrackOutcome>) -> (r: RunReport)
        ensures
            r.dispatched@ == run_spec(self.queue(), outcomes@).0,
            r.scheduler.queue() == run_spec(self.queue(), outcomes@).1,
            r.fatal == run_spec(self.queue(), outcomes@).2,
    {
        let ghost w0 = self.queue();
        let ghost os = outcomes@;
        let mut sched = self;
        let mut dispatched: Vec<Urn> = Vec::new();
        let mut i: usize = 0;
        let mut fatal: bool = false;
        proof {
            assert(os.skip(0) =~= os);
            assert(dispatched@ + run_spec(w0, os).0 =~= run_spec(w0, os).0);
        }
        loop
            invariant_except_break
                i <= os.len(),
                os == outcomes@,
                !fatal,
                run_spec(w0, os).0 == dispatched@ + run_spec(sched.queue(), os.skip(i as int)).0,
                run_spec(w0, os).1 == run_spec(sched.queue(), os.skip(i as int)).1,
                run_spec(w0, os).2 == run_spec(sched.queue(), os.skip(i as int)).2,
            ensures
                dispatched@ == run_spec(w0, os).0,
                sched.queue() == run_spec(w0, os).1,
                fatal == run_spec(w0, os).2,
            decreases os.len() - i,
        {
            if i >= outcomes.len() {
                proof {
                    assert(os.skip(i as int) =~= Seq::<TrackOutcome>::empty());
                    assert(dispatched@ + Seq::<Urn>::empty() =~= dispatched@);
                }
                break;
            }
            let ghost q = sched.queue();
            let front = sched.next_work();
            match front {
                None => {
                    proof {
                        assert(dispatched@ + Seq::<Urn>::empty() =~= dispatched@);
                    }
                    break;
                },
                Some(u) => {
                    let ghost d0 = dispatched@;
                    dispatched.push(u.clone());
                    let v = sched.record_outcome(u, &outcomes[i]);
                    i = i + 1;
                    proof {
                        assert(os.skip(i - 1).drop_first() =~= os.skip(i as int));
                        assert(os.skip(i - 1)[0] == os[i - 1]);
                        assert(d0 + (seq![u] + run_spec(sched.queue(), os.skip(i as int)).0)
                            =~= dispatched@ + run_spec(sched.queue(), os.skip(i as int)).0);
                    }
                    if v == Verdict::Fatal {
                        fatal = true;
                        proof {
                            assert(run_spec(q, os.skip(i - 1)).0 == seq![u]);
                            assert(d0 + seq![u] =~= dispatched@);
                            assert(dispatched@ + Seq::<Urn>::empty() =~= dispatched@);
                        }
                        break;
                    }
                },
            }
        }
        RunReport { dispatched, scheduler: sched, fatal }
    }
}

/// Dispatch follows queue order: however the outcomes fall, the first
/// dispatches of a run are the queued identifiers themselves, front to
/// back.  A re-queued identifier can only come up again behind them.
pub proof fn lemma_fifo_dispatch_order(w: Seq<Urn>, o: Seq<TrackOutcome>)
    ensures
        forall|i: int|
            0 <= i < run_spec(w, o).0.len() && i < w.len() ==> run_spec(w, o).0[i] == w[i],
    decreases o.len(),
{
    if w.len() == 0 || o.len() == 0 {
    } else if is_fatal(o[0]) {
    } else {
        let w2 = if is_retryable(o[0]) {
            w.drop_first().push(w[0])
        } else {
            w.drop_first()
        };
        lemma_fifo_dispatch_order(w2, o.drop_first());
        let t = run_spec(w, o).0;
        let t2 = run_spec(w2, o.drop_first()).0;
        assert forall|i: int| 0 <= i < t.len() && i < w.len() implies t[i] == w[i] by {
            if i > 0 {
                assert(t[i] == t2[i - 1]);
                assert(w2[i - 1] == w[i]);
            }
        }
    }
}

/// The identifiers that a run re-queues while it works off a given prefix
/// of the queue: those whose outcome is retryable, in dispatch order.
pub open spec fn retries(w: Seq<Urn>, o: Seq<TrackOutcome>) -> Seq<Urn>
    decreases w.len(),
{
    if w.len() == 0 || o.len() == 0 {
        Seq::<Urn>::empty()
    } else if is_retryable(o[0]) {
        seq![w[0]] + retries(w.drop_first(), o.drop_first())
    } else {
        retries(w.drop_first(), o.drop_first())
    }
}

/// One full pass over the queue, without a fatal outcome, dispatches the
/// whole queue in order and leaves exactly the retried identifiers behind
/// it: the run on `w1 + w2` continues as the run on `w2` followed by the
/// retries of `w1`, with the first `w1.len()` outcomes used up.
pub proof fn lemma_full_pass(w1: Seq<Urn>, w2: Seq<Urn>, o: Seq<TrackOutcome>)
    requires
        o.len() >= w1.len(),
        forall|i: int| 0 <= i < w1.len() ==> !is_fatal(o[i]),
    ensures
        run_spec(w1 + w2, o).0 == w1 + run_spec(w2 + retries(w1, o), o.skip(w1.len() as int)).0,
        run_spec(w1 + w2, o).1 == run_spec(w2 + retries(w1, o), o.skip(w1.len() as int)).1,
        run_spec(w1 + w2, o).2 == run_spec(w2 + retries(w1, o), o.skip(w1.len() as int)).2,
    decreases w1.len(),
{
    if w1.len() == 0 {
        assert(w1 + w2 =~= w2 + retries(w1, o));
        assert(o.skip(0) =~= o);
        assert(w1 + run_spec(w2 + retries(w1, o), o.skip(0)).0 =~= run_spec(
            w2 + retries(w1, o),
            o.skip(0),
        ).0);
    } else {
        let h = w1[0];
        let w1r = w1.drop_first();
        let w = w1 + w2;
        assert(w.len() > 0 && o.len() > 0 && !is_fatal(o[0]));
        assert(w[0] == h);
        if is_retryable(o[0]) {
            let w2x = w2.push(h);
            assert(w.drop_first().push(h) =~= w1r + w2x);
            lemma_full_pass(w1r, w2x, o.drop_first());
            assert(o.drop_first().skip(w1r.len() as int) =~= o.skip(w1.len() as int));
            assert(retries(w1, o) == seq![h] + retries(w1r, o.drop_first()));
            assert(w2x + retries(w1r, o.drop_first()) =~= w2 + retries(w1, o));
            let tail = run_spec(w2 + retries(w1, o), o.skip(w1.len() as int)).0;
            assert(seq![h] + (w1r + tail) =~= w1 + tail);
        } else {
            assert(w.drop_first() =~= w1r + w2);
            lemma_full_pass(w1r, w2, o.drop_first());
            assert(o.drop_first().skip(w1r.len() as int) =~= o.skip(w1.len() as int));
            assert(retries(w1, o) == retries(w1r, o.drop_first()));
            let tail = run_spec(w2 + retries(w1, o), o.skip(w1.len() as int)).0;
            assert(seq![h] + (w1r + tail) =~= w1 + tail);
        }
    }
}

/// Retry goes to the back of the line: when the front identifier's first
/// dispatch fails retryably and no fatal failure interrupts the pass, every
/// other queued identifier is dispatched exactly once before that
/// identifier comes up again.
pub proof fn lemma_retry_to_back(w: Seq<Urn>, o: Seq<TrackOutcome>)
    requires
        w.len() >= 1,
        o.len() > w.len(),
        is_retryable(o[0]),
        forall|i: int| 0 <= i < w.len() ==> !is_fatal(o[i]),
    ensures
        run_spec(w, o).0.len() > w.len(),
        forall|i: int| 0 <= i < w.len() ==> run_spec(w, o).0[i] == w[i],
        run_spec(w, o).0[w.len() as int] == w[0],
{
    assert(w + Seq::<Urn>::empty() =~= w);
    lemma_full_pass(w, Seq::<Urn>::empty(), o);
    let r = retries(w, o);
    assert(r[0] == w[0]);
    assert(Seq::<Urn>::empty() + r =~= r);
    let rest = o.skip(w.len() as int);
    assert(rest.len() > 0);
    let t2 = run_spec(r, rest).0;
    assert(t2.len() >= 1 && t2[0] == r[0]);
    let t = run_spec(w, o).0;
    assert(t == w + t2);
    assert(t[w.len() as int] == t2[0]);
}

/// Fatal short-circuit: once a dispatch comes back with a fatal handle
/// failure, the run dispatches nothing further, whatever is still queued.
pub proof fn lemma_fatal_short_circuit(w: Seq<Urn>, o: Seq<TrackOutcome>, j: int)
    requires
        0 <= j < o.len(),
        is_fatal(o[j]),
        forall|i: int| 0 <= i < j ==> !is_fatal(o[i]),
    ensures
        run_spec(w, o).0.len() <= j + 1,
    decreases j,
{
    if w.len() == 0 || o.len() == 0 {
    } else if j == 0 {
    } else {
        let w2 = if is_retryable(o[0]) {
            w.drop_first().push(w[0])
        } else {
            w.drop_first()
        };
        assert(o.drop_first()[j - 1] == o[j]);
        lemma_fatal_short_circuit(w2, o.drop_first(), j - 1);
    }
}

} // verus!
