//! Ten clients, ten servers, one sticky batch, and what it costs.

use vstd::prelude::*;

use crate::atoms::stage::{painted, spec_painted, Paint};
use crate::kept::{kept, kept_further};

verus! {

pub const CLIENTS: usize = 10;

pub const SERVERS: usize = 10;

/// How loaded the server a client stuck to is: the ring its dot wears.
#[derive(Clone, Copy, PartialEq, Eq, Structural, Debug)]
pub enum LoadColour {
    /// Alone, or nobody at all.
    Resting,
    Two,
    Three,
    Piled,
}

/// How loaded a server with this many clients is.
pub open spec fn spec_load(clients: nat) -> LoadColour {
    if clients <= 1 {
        LoadColour::Resting
    } else if clients == 2 {
        LoadColour::Two
    } else if clients == 3 {
        LoadColour::Three
    } else {
        LoadColour::Piled
    }
}

/// A client's colour, by how many clients its server carries.
pub fn load_colour(clients_on_server: usize) -> (c: LoadColour)
    ensures
        c == spec_load(clients_on_server as nat),
{
    match clients_on_server {
        0 | 1 => LoadColour::Resting,
        2 => LoadColour::Two,
        3 => LoadColour::Three,
        _ => LoadColour::Piled,
    }
}

/// How many of the first `n` clients stuck to server `s`.
pub open spec fn stuck_to(assignment: Seq<usize>, s: int, n: int) -> nat
    decreases n,
{
    if n <= 0 {
        0
    } else {
        stuck_to(assignment, s, n - 1) + if assignment[n - 1] == s {
            1nat
        } else {
            0nat
        }
    }
}

/// How many clients stuck to each server.
pub fn per_server(assignment: &Vec<usize>) -> (counts: Vec<usize>)
    requires
        forall|c: int| 0 <= c < assignment@.len() ==> #[trigger] assignment@[c] < SERVERS,
    ensures
        counts@.len() == SERVERS,
        forall|s: int|
            0 <= s < SERVERS ==> #[trigger] counts@[s] == stuck_to(
                assignment@,
                s,
                assignment@.len() as int,
            ),
{
    let mut counts: Vec<usize> = Vec::new();
    let mut s: usize = 0;
    while s < SERVERS
        invariant
            s <= SERVERS,
            counts@.len() == s,
            forall|j: int| 0 <= j < s ==> #[trigger] counts@[j] == 0,
        decreases SERVERS - s,
    {
        counts.push(0);
        s += 1;
    }
    let mut c: usize = 0;
    while c < assignment.len()
        invariant
            c <= assignment@.len(),
            counts@.len() == SERVERS,
            forall|c: int| 0 <= c < assignment@.len() ==> #[trigger] assignment@[c] < SERVERS,
            forall|s: int|
                0 <= s < SERVERS ==> #[trigger] counts@[s] == stuck_to(assignment@, s, c as int)
                    && counts@[s] <= c,
        decreases assignment@.len() - c,
    {
        let at: usize = assignment[c];
        let n: usize = counts[at];
        assert(counts@[at as int] <= c);
        counts.set(at, n + 1);
        c += 1;
    }
    counts
}

/// Each client is on exactly one server, so the servers' clients come to all of them.
pub proof fn everyone_stuck_somewhere(assignment: Seq<usize>, n: int)
    requires
        0 <= n <= assignment.len(),
        forall|c: int| 0 <= c < assignment.len() ==> #[trigger] assignment[c] < SERVERS,
    ensures
        on_servers(assignment, n, SERVERS as int) == n,
    decreases n,
{
    if n > 0 {
        everyone_stuck_somewhere(assignment, n - 1);
        one_more_lands_once(assignment, n, SERVERS as int);
    } else {
        nobody_yet(assignment, SERVERS as int);
    }
}

/// How many of the first `n` clients stuck to one of the first `m` servers.
pub open spec fn on_servers(assignment: Seq<usize>, n: int, m: int) -> nat
    decreases m,
{
    if m <= 0 {
        0
    } else {
        on_servers(assignment, n, m - 1) + stuck_to(assignment, m - 1, n)
    }
}

proof fn nobody_yet(assignment: Seq<usize>, m: int)
    ensures
        on_servers(assignment, 0, m) == 0,
    decreases m,
{
    if m > 0 {
        nobody_yet(assignment, m - 1);
    }
}

proof fn one_more_lands_once(assignment: Seq<usize>, n: int, m: int)
    requires
        0 < n <= assignment.len(),
        0 <= m,
    ensures
        on_servers(assignment, n, m) == on_servers(assignment, n - 1, m) + if assignment[n - 1]
            < m {
            1nat
        } else {
            0nat
        },
    decreases m,
{
    if m > 0 {
        one_more_lands_once(assignment, n, m - 1);
    }
}

/// Whether each client's server has shed anything: its wire takes the colour of a retry.
pub fn shed_flags(assignment: &Vec<usize>, retried: &Vec<usize>) -> (shed: Vec<bool>)
    requires
        forall|c: int| 0 <= c < assignment@.len() ==> #[trigger] assignment@[c] < retried@.len(),
    ensures
        shed@ == assignment@.map_values(|s: usize| retried@[s as int] > 0),
{
    let mut shed: Vec<bool> = Vec::new();
    let mut c: usize = 0;
    while c < assignment.len()
        invariant
            c <= assignment@.len(),
            forall|c: int|
                0 <= c < assignment@.len() ==> #[trigger] assignment@[c] < retried@.len(),
            shed@.len() == c,
            forall|d: int|
                0 <= d < c ==> #[trigger] shed@[d] == (retried@[assignment@[d] as int] > 0),
        decreases assignment@.len() - c,
    {
        shed.push(retried[assignment[c]] > 0);
        c += 1;
    }
    assert(shed@ =~= assignment@.map_values(|s: usize| retried@[s as int] > 0));
    shed
}

/// Every client's wire, to the server it stuck to.
pub open spec fn sticky(assignment: Seq<usize>) -> Seq<(usize, usize)> {
    Seq::new(assignment.len(), |c: int| (c as usize, assignment[c]))
}

/// Whether a client's traffic is being shed; one nobody has heard of is not.
pub open spec fn is_shed(shed: Seq<bool>, c: usize) -> bool {
    c < shed.len() && shed[c as int]
}

/// The wires of one outcome: the outbound splits by it, and each client is on exactly one server.
pub fn sticky_by(assignment: &Vec<usize>, shed: &Vec<bool>, outcome: bool) -> (pairs: Vec<
    (usize, usize),
>)
    ensures
        pairs@ == kept(
            sticky(assignment@),
            |p: (usize, usize)| is_shed(shed@, p.0) == outcome,
        ),
{
    let ghost all = sticky(assignment@);
    let ghost keep = |p: (usize, usize)| is_shed(shed@, p.0) == outcome;
    let mut pairs: Vec<(usize, usize)> = Vec::new();
    let mut c: usize = 0;
    while c < assignment.len()
        invariant
            c <= assignment@.len(),
            all == sticky(assignment@),
            keep == (|p: (usize, usize)| is_shed(shed@, p.0) == outcome),
            pairs@ == kept(all.take(c as int), keep),
        decreases assignment@.len() - c,
    {
        proof {
            kept_further(all, keep, c as int);
        }
        let hit: bool = c < shed.len() && shed[c];
        if hit == outcome {
            pairs.push((c, assignment[c]));
        }
        c += 1;
    }
    assert(all.take(all.len() as int) =~= all);
    pairs
}

/// The outbound wires split by outcome without loss: every client's wire is in one of the two
/// layers, and in no other.
pub proof fn every_wire_is_in_one_layer(assignment: Seq<usize>, shed: Seq<bool>, c: int)
    requires
        0 <= c < assignment.len() <= usize::MAX,
    ensures
        ({
            let wire = (c as usize, assignment[c]);
            let on = kept(sticky(assignment), |p: (usize, usize)| is_shed(shed, p.0) == true);
            let off = kept(sticky(assignment), |p: (usize, usize)| is_shed(shed, p.0) == false);
            on.contains(wire) <==> !off.contains(wire)
        }),
{
    let wire = (c as usize, assignment[c]);
    assert(sticky(assignment)[c] == wire);
    crate::kept::kept_contains(
        sticky(assignment),
        |p: (usize, usize)| is_shed(shed, p.0) == true,
        wire,
    );
    crate::kept::kept_contains(
        sticky(assignment),
        |p: (usize, usize)| is_shed(shed, p.0) == false,
        wire,
    );
}

/// A dot's style while its client is owed answers, over the ring it rests in.
pub fn waiting_style(outstanding: usize) -> (s: String)
    ensures
        s@ == (if outstanding > 0 {
            spec_painted("background"@, Paint::Orange)
        } else {
            Seq::empty()
        }),
{
    if outstanding > 0 {
        painted("background", Paint::Orange)
    } else {
        let s = String::new();
        assert(s@ =~= Seq::empty());
        s
    }
}

/// Whether the frames go on: a settled batch has nothing left to pay, and the picture holds once
/// the last of its afterglow has decayed.
pub fn goes_on(settled: bool, airborne: bool) -> (b: bool)
    ensures
        b == !(settled && !airborne),
{
    !settled || airborne
}

/// What the batch's card takes: where something was laid out, or the order to send.
#[derive(Clone, Copy, PartialEq, Eq, Structural, Debug)]
pub enum FanMsg {
    Stage,
    Client(usize),
    Server(usize),
    Send,
}

/// A batch: who in it is being shed, and whether it is still being drawn.
pub struct Batch {
    pub shed: Vec<bool>,
    pub running: bool,
}

impl Batch {
    /// The card as it opens: nothing sent, and nobody shed.
    pub fn new() -> (b: Batch)
        ensures
            b.shed@ == Seq::new(CLIENTS as nat, |c: int| false),
            !b.running,
    {
        let shed: Vec<bool> = vec![false; CLIENTS];
        assert(shed@ =~= Seq::new(CLIENTS as nat, |c: int| false));
        Batch { shed, running: false }
    }

    /// Take a message. Every one of them moves the wires; a send is a fresh batch, so nobody in it
    /// has been shed yet.
    pub fn turn(&mut self, msg: FanMsg)
        ensures
            msg is Send ==> final(self).running && final(self).shed@ == Seq::new(
                CLIENTS as nat,
                |c: int| false,
            ),
            !(msg is Send) ==> *final(self) == *old(self),
    {
        match msg {
            FanMsg::Send => {
                *self = Batch { running: true, ..Batch::new() };
            },
            _ => {},
        }
    }

    /// Take a frame: who its servers are shedding now, and whether the batch has settled. Says
    /// whether the wires moved.
    pub fn frame(&mut self, shed: Vec<bool>, settled: bool, airborne: bool) -> (relaid: bool)
        ensures
            relaid == (shed@ != old(self).shed@),
            final(self).shed@ == shed@,
            final(self).running == (old(self).running && !(settled && !airborne)),
    {
        let mut same: bool = shed.len() == self.shed.len();
        let mut c: usize = 0;
        while same && c < shed.len()
            invariant
                c <= shed@.len(),
                *self == *old(self),
                same ==> shed@.len() == self.shed@.len(),
                same ==> forall|d: int| 0 <= d < c ==> shed@[d] == self.shed@[d],
                !same ==> shed@ != self.shed@,
            decreases shed@.len() - c + if same {
                1int
            } else {
                0int
            },
        {
            if shed[c] == self.shed[c] {
                c += 1;
            } else {
                same = false;
                assert(shed@[c as int] != self.shed@[c as int]);
            }
        }
        assert(same ==> shed@ =~= self.shed@);
        self.shed = shed;
        if !goes_on(settled, airborne) {
            self.running = false;
        }
        !same
    }
}

/// A server's count is how many clients are stuck to it.
pub proof fn a_count_is_the_clients_stuck(assignment: Seq<usize>, s: int, n: int)
    requires
        0 <= n <= assignment.len(),
    ensures
        stuck_to(assignment, s, n) == assignment.take(n).filter(|a: usize| a == s).len(),
    decreases n,
{
    reveal(Seq::filter);
    if n > 0 {
        a_count_is_the_clients_stuck(assignment, s, n - 1);
        assert(assignment.take(n).drop_last() =~= assignment.take(n - 1));
        assert(assignment.take(n).last() == assignment[n - 1]);
    } else {
        assert(assignment.take(0) =~= Seq::empty());
    }
}

/// A server changes colour with each client more, from the second to the fourth, and no more after.
pub proof fn a_server_colours_with_its_clients(clients: nat)
    ensures
        spec_load(clients) == LoadColour::Resting <==> clients < 2,
        spec_load(clients) == LoadColour::Two <==> clients == 2,
        spec_load(clients) == LoadColour::Three <==> clients == 3,
        spec_load(clients) == LoadColour::Piled <==> clients > 3,
{
}

/// A wire runs from each client to the server it is stuck to, and is shed where that client is; a
/// client nothing is known of is not.
pub proof fn a_wire_is_its_clients(assignment: Seq<usize>, shed: Seq<bool>, c: int)
    requires
        0 <= c < assignment.len() <= usize::MAX,
    ensures
        sticky(assignment).len() == assignment.len(),
        sticky(assignment)[c] == (c as usize, assignment[c]),
        is_shed(shed, c as usize) <==> c < shed.len() && shed[c],
{
}

} // verus!
