//! Verdicts: how a request leaves, what travels home, and why a stack refuses.

use vstd::prelude::*;

verus! {

/// How a request left the system.
#[derive(Clone, Copy, PartialEq, Eq, Structural, Debug)]
pub enum Outcome {
    Success,
    QueueTimeout,
    Rejected,
    /// Refused to hold its tenant inside its share of the fleet's budget: the server had
    /// something, but not for this tenant.
    RateLimited,
    ResponseTimeout,
    ProcessingTimeout,
}

/// The three pipes a reply can leave by.
#[derive(Clone, Copy, PartialEq, Eq, Structural, Debug)]
pub enum Exit {
    Timeout,
    Success,
    Processing,
}

/// A verdict that travels home: what was decided, and the exit it leaves by. Only
/// [`Outcome::reply`] builds one, so a verdict nobody is waiting for cannot be put on a leg
/// home.
#[derive(Clone, Copy, PartialEq, Eq, Structural, Debug)]
pub struct Reply {
    outcome: Outcome,
    exit: Exit,
}

/// The pipe a verdict leaves by, if it travels at all.
pub open spec fn exit_of(outcome: Outcome) -> Option<Exit> {
    match outcome {
        Outcome::Success => Some(Exit::Success),
        Outcome::QueueTimeout | Outcome::Rejected | Outcome::RateLimited => Some(Exit::Timeout),
        Outcome::ProcessingTimeout => Some(Exit::Processing),
        Outcome::ResponseTimeout => None,
    }
}

impl Reply {
    /// What was decided.
    pub closed spec fn spec_outcome(self) -> Outcome {
        self.outcome
    }

    /// The pipe it leaves by.
    pub closed spec fn spec_exit(self) -> Exit {
        self.exit
    }

    /// The exit is the one its outcome leaves by.
    #[verifier::type_invariant]
    spec fn leaves_by_its_exit(self) -> bool {
        exit_of(self.outcome) == Some(self.exit)
    }

    /// What was decided.
    pub fn outcome(self) -> (o: Outcome)
        ensures
            o == self.spec_outcome(),
            exit_of(o) == Some(self.spec_exit()),
            o.spec_reply() == Some(self),
    {
        proof {
            use_type_invariant(&self);
        }
        self.outcome
    }

    /// The pipe it leaves by.
    pub fn exit(self) -> (e: Exit)
        ensures
            e == self.spec_exit(),
            exit_of(self.spec_outcome()) == Some(e),
            self.spec_outcome().spec_reply() == Some(self),
    {
        proof {
            use_type_invariant(&self);
        }
        self.exit
    }
}

impl Outcome {
    /// Whether the request reached the handler.
    pub open spec fn spec_served(self) -> bool {
        self is Success || self is ResponseTimeout || self is ProcessingTimeout
    }

    /// Whether the fleet said "not me, not now".
    pub open spec fn spec_refused(self) -> bool {
        self is QueueTimeout || self is Rejected
    }

    /// Did this request reach the handler? A verdict reached at the door never ran any of the
    /// work, so it has no processing time to report.
    pub fn served(self) -> (b: bool)
        ensures
            b == self.spec_served(),
    {
        match self {
            Outcome::Success | Outcome::ResponseTimeout | Outcome::ProcessingTimeout => true,
            Outcome::QueueTimeout | Outcome::Rejected | Outcome::RateLimited => false,
        }
    }

    /// Was this the fleet saying "not me, not now"? A client that owns its retry policy asks
    /// again. A rate limit is not one: asking another machine gets the same answer.
    pub fn refused(self) -> (b: bool)
        ensures
            b == self.spec_refused(),
    {
        match self {
            Outcome::QueueTimeout | Outcome::Rejected => true,
            Outcome::Success
            | Outcome::ResponseTimeout
            | Outcome::ProcessingTimeout
            | Outcome::RateLimited => false,
        }
    }

    /// The reply this verdict sends home, if it sends one.
    pub closed spec fn spec_reply(self) -> Option<Reply> {
        match exit_of(self) {
            Some(exit) => Some(Reply { outcome: self, exit }),
            None => None,
        }
    }

    /// The reply this verdict sends home, if it sends one. `None` is the client that stopped
    /// waiting: the verdict is received where it was given.
    pub fn reply(self) -> (r: Option<Reply>)
        ensures
            r == self.spec_reply(),
            r is Some <==> self != Outcome::ResponseTimeout,
            r is Some <==> exit_of(self) is Some,
            r matches Some(reply) ==> reply.spec_outcome() == self
                && exit_of(self) == Some(reply.spec_exit()),
    {
        let exit = match self {
            Outcome::Success => Exit::Success,
            Outcome::QueueTimeout | Outcome::Rejected | Outcome::RateLimited => Exit::Timeout,
            Outcome::ProcessingTimeout => Exit::Processing,
            Outcome::ResponseTimeout => return None,
        };
        Some(Reply { outcome: self, exit })
    }
}

/// Every verdict but the client's own give-up sends one reply, and the reply says which verdict
/// it is and leaves by that verdict's exit.
pub proof fn a_verdict_sends_its_own_reply(outcome: Outcome)
    ensures
        outcome.spec_reply() is Some <==> outcome != Outcome::ResponseTimeout,
        outcome.spec_reply() matches Some(reply) ==> reply.spec_outcome() == outcome && exit_of(
            outcome,
        ) == Some(reply.spec_exit()),
{
}

/// A reply leaves by its own outcome's exit, which every reply there is does.
pub open spec fn leaves_its_own_way(r: Reply) -> bool {
    exit_of(r.spec_outcome()) == Some(r.spec_exit())
}

/// A reply is its outcome's own: the outcome it carries sends that reply and no other, so two
/// replies of one outcome are one reply, and leave by one exit.
pub proof fn a_reply_is_its_outcomes_own(r: Reply, other: Reply)
    requires
        leaves_its_own_way(r),
        leaves_its_own_way(other),
    ensures
        r.spec_outcome().spec_reply() == Some(r),
        r.spec_outcome() == other.spec_outcome() ==> r == other && r.spec_exit()
            == other.spec_exit(),
{
}

/// The reply lanes a wire home carries, one per outcome.
pub const HOMEWARD: [Outcome; 5] = [
    Outcome::Success,
    Outcome::QueueTimeout,
    Outcome::Rejected,
    Outcome::RateLimited,
    Outcome::ProcessingTimeout,
];

/// The lane an outcome rides, or `None` where it rides none.
pub open spec fn spec_lane_of(outcome: Outcome) -> Option<nat> {
    match outcome {
        Outcome::Success => Some(0),
        Outcome::QueueTimeout => Some(1),
        Outcome::Rejected => Some(2),
        Outcome::RateLimited => Some(3),
        Outcome::ProcessingTimeout => Some(4),
        Outcome::ResponseTimeout => None,
    }
}

/// The lane of [`HOMEWARD`] an outcome rides, if it rides one.
pub fn lane_of(outcome: Outcome) -> (lane: Option<usize>)
    ensures
        lane is Some <==> spec_lane_of(outcome) is Some,
        lane matches Some(k) ==> k as nat == spec_lane_of(outcome)->0 && k < HOMEWARD@.len()
            && HOMEWARD@[k as int] == outcome,
{
    let mut k: usize = 0;
    while k < HOMEWARD.len()
        invariant
            k <= HOMEWARD@.len(),
            forall|j: int| 0 <= j < k ==> HOMEWARD@[j] != outcome,
        decreases HOMEWARD@.len() - k,
    {
        if HOMEWARD[k] == outcome {
            return Some(k);
        }
        k += 1;
    }
    None
}

/// The lanes home are exactly the verdicts that send a reply, each once.
pub proof fn homeward_is_every_verdict_that_travels(outcome: Outcome)
    ensures
        HOMEWARD@.contains(outcome) <==> exit_of(outcome) is Some,
        HOMEWARD@.no_duplicates(),
{
    if let Some(k) = spec_lane_of(outcome) {
        assert(HOMEWARD@[k as int] == outcome);
    }
}

/// A refusal never reached the handler, and nothing else that did not reach it is asked again
/// but a rate limit.
pub proof fn refused_or_rate_limited_is_not_served(outcome: Outcome)
    ensures
        !outcome.spec_served() <==> outcome.spec_refused() || outcome == Outcome::RateLimited,
{
}

/// What a machine is carrying, as what is waiting and what is being worked on. Compared in
/// that order: a queue is what hurts, and work in progress is only what a machine is for.
#[derive(Clone, Copy, PartialEq, Eq, Structural, Debug)]
pub struct Load {
    pub queued: usize,
    pub processed: usize,
}

impl Load {
    /// Whether this load is the lighter of the two: fewer waiting, or as many waiting and
    /// less in progress.
    pub open spec fn spec_lighter(self, other: Load) -> bool {
        self.queued < other.queued || (self.queued == other.queued && self.processed
            < other.processed)
    }

    /// Whether this load is the lighter of the two.
    pub fn lighter(&self, other: &Load) -> (b: bool)
        ensures
            b == self.spec_lighter(*other),
    {
        self.queued < other.queued || (self.queued == other.queued && self.processed
            < other.processed)
    }
}

/// Lighter is a strict total order on loads.
pub proof fn loads_are_ordered(a: Load, b: Load, c: Load)
    ensures
        !a.spec_lighter(a),
        a.spec_lighter(b) && b.spec_lighter(c) ==> a.spec_lighter(c),
        a == b || a.spec_lighter(b) || b.spec_lighter(a),
{
}

/// Why a stack answered without serving: the verdicts a client can receive, and the drop it
/// cannot.
#[derive(Clone, Copy, PartialEq, Eq, Structural, Debug)]
pub enum Refusal {
    QueueTimeout,
    Rejected,
    RateLimited,
    /// The stack lost the request: nothing travels back.
    Dropped,
}

/// How a queue failed a request.
#[derive(Clone, Copy, PartialEq, Eq, Structural, Debug)]
pub enum QueueFault {
    /// It waited past the deadline.
    Timeout,
    /// Anything else: the request is lost.
    Lost,
}

/// How a layer that can turn a request away failed it: by itself, or further in.
#[derive(Clone, Copy, PartialEq, Eq, Structural, Debug)]
pub enum LayerFault {
    Turned,
    Inner(Refusal),
}

impl Refusal {
    /// A queue's fault, as the client reads it: a missed deadline is a verdict, and every
    /// other fault is a drop.
    pub fn of_queue(fault: QueueFault) -> (r: Refusal)
        ensures
            r == (if fault is Timeout {
                Refusal::QueueTimeout
            } else {
                Refusal::Dropped
            }),
    {
        match fault {
            QueueFault::Timeout => Refusal::QueueTimeout,
            QueueFault::Lost => Refusal::Dropped,
        }
    }

    /// A rejection layer's fault: overloaded is a rejection, and an inner refusal stands.
    pub fn of_reject(fault: LayerFault) -> (r: Refusal)
        ensures
            r == (match fault {
                LayerFault::Turned => Refusal::Rejected,
                LayerFault::Inner(inner) => inner,
            }),
    {
        match fault {
            LayerFault::Turned => Refusal::Rejected,
            LayerFault::Inner(inner) => inner,
        }
    }

    /// A rate limiter's fault: throttled is a rate limit, and an inner refusal stands.
    pub fn of_quota(fault: LayerFault) -> (r: Refusal)
        ensures
            r == (match fault {
                LayerFault::Turned => Refusal::RateLimited,
                LayerFault::Inner(inner) => inner,
            }),
    {
        match fault {
            LayerFault::Turned => Refusal::RateLimited,
            LayerFault::Inner(inner) => inner,
        }
    }
}

/// What a client that owns its retries asks again: a machine that ran out of time for it or of room
/// for it. Not a tenant over its share, whom every machine tells the same; and not anything that
/// was served.
pub proof fn a_refusal_is_asked_again()
    ensures
        Outcome::QueueTimeout.spec_refused() && Outcome::Rejected.spec_refused(),
        !Outcome::RateLimited.spec_refused(),
        !Outcome::Success.spec_refused() && !Outcome::ResponseTimeout.spec_refused()
            && !Outcome::ProcessingTimeout.spec_refused(),
        forall|o: Outcome| #[trigger] o.spec_served() ==> !o.spec_refused(),
{
}

/// A reply leaves by the pipe of what it says: success by the success pipe alone, work finished
/// past its deadline by the processing pipe alone, and everything turned away by the third.
pub proof fn an_exit_says_what_became_of_the_work(o: Outcome)
    ensures
        exit_of(o) == Some(Exit::Success) <==> o == Outcome::Success,
        exit_of(o) == Some(Exit::Processing) <==> o == Outcome::ProcessingTimeout,
        exit_of(o) == Some(Exit::Timeout) <==> !o.spec_served(),
        exit_of(o) is None <==> o == Outcome::ResponseTimeout,
{
}

/// A queue is what hurts: fewer waiting is lighter whatever is being worked on, and work in
/// progress tells two loads apart only where as many wait.
pub proof fn a_queue_outweighs_the_work(a: Load, b: Load)
    ensures
        a.queued < b.queued ==> a.spec_lighter(b),
        a.queued == b.queued && a.processed < b.processed ==> a.spec_lighter(b),
        a.queued == b.queued && a.processed == b.processed ==> !a.spec_lighter(b),
{
}

/// A lane home is the place of the verdict that rides it.
pub proof fn a_lane_is_its_verdicts_place(o: Outcome)
    ensures
        spec_lane_of(o) matches Some(k) ==> k < HOMEWARD@.len() && HOMEWARD@[k as int] == o,
        spec_lane_of(o) is None <==> !HOMEWARD@.contains(o),
{
    homeward_is_every_verdict_that_travels(o);
    if let Some(k) = spec_lane_of(o) {
        assert(HOMEWARD@[k as int] == o);
    }
}

} // verus!
