//! Ten single-server engines, running at once.

use vstd::prelude::*;

use crate::compose::PolicyStage;
use crate::engine::machine::{opens, SimEngine, TOP_RATE};
use crate::engine::request::Behavior;
use crate::engine::sim::ServerCounts;

verus! {

/// Servers in the cluster.
pub const SERVERS: usize = 10;

/// The healthy arrival rate every server opens on, a thousand seconds' worth.
pub const HEALTHY_RATE: u64 = 75_000;

/// How fast the cluster's clocks run against the reader's, in millionths: fast enough that a box
/// carries a steady state, slow enough that one machine still reads as motion.
pub const CLUSTER_SPEED: u64 = 80_000;

/// The base seed the servers fan out from.
pub const CLUSTER_SEED: u64 = 0x0c10_5eed;

/// Ten healthy servers, ticked together.
pub struct Cluster {
    pub servers: Vec<SimEngine>,
}

/// The seed of server `k`: ten servers at one rate land on different draws.
pub open spec fn seed_of(k: int) -> u64 {
    CLUSTER_SEED ^ (k as u64)
}

/// No two servers share a seed: a fleet is alike box to box, never identical.
pub proof fn seeds_differ(j: u64, k: u64)
    requires
        j != k,
    ensures
        CLUSTER_SEED ^ j != CLUSTER_SEED ^ k,
{
    assert(0x0c10_5eedu64 ^ j != 0x0c10_5eedu64 ^ k) by (bit_vector)
        requires
            j != k,
    ;
}

/// A cold, healthy server: its own seed, the shared rate and pace, a plain queue.
pub open spec fn cold(e: SimEngine, k: int) -> bool {
    &&& opens(e, seed_of(k), HEALTHY_RATE, PolicyStage::Queue, None, false, Behavior::Good)
    &&& e.speed == CLUSTER_SPEED
}

impl Cluster {
    /// Ten healthy servers, cold.
    pub fn new() -> (c: Cluster)
        ensures
            c.servers@.len() == SERVERS,
            forall|k: int| 0 <= k < SERVERS ==> cold(#[trigger] c.servers@[k], k),
    {
        let mut servers: Vec<SimEngine> = Vec::new();
        let mut k: usize = 0;
        while k < SERVERS
            invariant
                k <= SERVERS,
                servers@.len() == k,
                forall|j: int| 0 <= j < k ==> cold(#[trigger] servers@[j], j),
            decreases SERVERS - k,
        {
            let mut engine = SimEngine::seeded(
                CLUSTER_SEED ^ (k as u64),
                HEALTHY_RATE,
                PolicyStage::Queue,
                None,
                false,
                Behavior::Good,
            );
            engine.set_speed(CLUSTER_SPEED);
            servers.push(engine);
            k += 1;
        }
        Cluster { servers }
    }

    /// Every server's live summary counts, in order.
    pub fn fleet_counts(&self) -> (counts: Vec<ServerCounts>)
        requires
            forall|k: int|
                0 <= k < self.servers@.len() ==> (#[trigger] self.servers@[k]).sim@.countable(),
        ensures
            counts@ == self.servers@.map_values(|e: SimEngine| e.sim@.counts()),
    {
        let mut counts: Vec<ServerCounts> = Vec::new();
        let mut k: usize = 0;
        while k < self.servers.len()
            invariant
                k <= self.servers@.len(),
                forall|k: int|
                    0 <= k < self.servers@.len() ==> (#[trigger] self.servers@[k]).sim@.countable(),
                counts@.len() == k,
                forall|j: int|
                    0 <= j < k ==> #[trigger] counts@[j] == self.servers@[j].sim@.counts(),
            decreases self.servers@.len() - k,
        {
            counts.push(self.servers[k].counts());
            k += 1;
        }
        assert(counts@ =~= self.servers@.map_values(|e: SimEngine| e.sim@.counts()));
        counts
    }

    /// Move one server's arrival rate; a place with no server is nobody's. Whether the server's
    /// stream woke, and so needs a gap drawn.
    pub fn set_qps(&mut self, server: usize, rate: u64) -> (woken: bool)
        ensures
            final(self).servers@.len() == old(self).servers@.len(),
            forall|k: int|
                0 <= k < old(self).servers@.len() && k != server ==> #[trigger] final(self).servers@[k] == old(self).servers@[k],
            server < old(self).servers@.len() ==> {
                let (was, now) = (
                    old(self).servers@[server as int],
                    final(self).servers@[server as int],
                );
                let set = if rate > TOP_RATE {
                    TOP_RATE
                } else {
                    rate
                };
                &&& now == (SimEngine {
                    arrivals: crate::engine::arrivals::Arrivals { rate: set, ..was.arrivals },
                    ..was
                })
                &&& woken == (was.arrivals.rate == 0 && set > 0)
            },
            server >= old(self).servers@.len() ==> !woken,
    {
        if server >= self.servers.len() {
            return false;
        }
        let ghost whole = self.servers@;
        let mut engine = self.servers.remove(server);
        let woken: bool = engine.set_lambda(rate);
        self.servers.insert(server, engine);
        assert(self.servers@ =~= whole.update(server as int, engine));
        woken
    }
}

/// Every server of a cluster opens alike but for its seed: at the healthy rate and the cluster's own
/// pace, with a queue, and well.
pub proof fn servers_open_alike_but_for_their_seeds(e: SimEngine, k: int)
    requires
        cold(e, k),
    ensures
        e.arrivals.rate == 75_000 && e.speed == 80_000,
        e.stage is Queue && !e.gated && !e.cpu_only && e.behavior is Good,
        e.next_id == 0 && e.at == 0 && e.tenants is None,
        e.rng.state == seed_of(k) ^ 0x9e37_79b9_7f4a_7c15u64,
        seed_of(k) == CLUSTER_SEED ^ (k as u64),
{
}

} // verus!
