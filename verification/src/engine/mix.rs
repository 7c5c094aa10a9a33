//! The tenants' arrival streams. They have a stream of draws of their own, so a sim that models
//! no tenants draws exactly what it would without them.

use std::collections::HashMap;

use vstd::prelude::*;

use crate::engine::arrivals::{is_earliest, none_due, Arrivals};
use crate::engine::clock::Ticks;
use crate::engine::outcome::Outcome;
use crate::engine::request::{
    make_phases, spec_plan, spec_tenant, spec_tenant_of, tenant_of, tenants, SimReq, TenantSpec,
    TENANT_COUNT,
};
use crate::engine::rng::{drawn, next_state, Rng};

verus! {

broadcast use vstd::std_specs::hash::group_hash_axioms;

/// One tenant's stream: who it is, the clock it sends on, and how big each of its requests is.
#[derive(Clone, Copy)]
pub struct Stream {
    pub spec: TenantSpec,
    pub clock: Arrivals,
    /// The weight its requests carry, in millionths.
    pub work: u32,
}

/// Every tenant's stream, and whose each request the engine still has is.
pub struct TenantMix {
    pub rng: Rng,
    pub streams: Vec<Stream>,
    /// Which tenant sent each request, until its departure has been read.
    pub whose: HashMap<u32, usize>,
}

/// What the tenants' streams hold.
#[verifier::ext_equal]
pub struct MixView {
    pub rng: Rng,
    pub streams: Seq<Stream>,
    pub whose: Map<u32, usize>,
}

impl View for TenantMix {
    type V = MixView;

    open spec fn view(&self) -> MixView {
        MixView { rng: self.rng, streams: self.streams@, whose: self.whose@ }
    }
}

/// Whose each request is, once the departed are forgotten.
pub open spec fn forgotten(whose: Map<u32, usize>, departed: Seq<(u32, Outcome)>) -> Map<
    u32,
    usize,
> {
    Map::new(
        |id: u32| whose.contains_key(id) && !was_departed(departed, departed.len() as int, id),
        |id: u32| whose[id],
    )
}

/// The clocks of some streams.
pub open spec fn clocks(streams: Seq<Stream>) -> Seq<Arrivals> {
    streams.map_values(|s: Stream| s.clock)
}

impl TenantMix {
    /// One stream per tenant, each tenant in its place.
    pub open spec fn wf(self) -> bool {
        &&& self.streams@.len() == TENANT_COUNT
        &&& forall|k: int|
            0 <= k < TENANT_COUNT ==> (#[trigger] self.streams@[k]).spec == spec_tenant(k)
        &&& forall|id: u32| #[trigger]
            self.whose@.contains_key(id) ==> self.whose@[id] < TENANT_COUNT
    }

    /// The tenants as they open: each at its own rate and weight, held until its first gap is
    /// drawn.
    pub fn new(seed: u64) -> (mix: TenantMix)
        ensures
            mix.wf(),
            mix.rng.state == seed ^ 0x9e37_79b9_7f4a_7c15u64,
            mix.whose@ == Map::<u32, usize>::empty(),
            forall|k: int|
                0 <= k < TENANT_COUNT ==> (#[trigger] mix.streams@[k]) == (Stream {
                    spec: spec_tenant(k),
                    clock: Arrivals { rate: spec_tenant(k).rate, next: None },
                    work: spec_tenant(k).work,
                }),
    {
        let table = tenants();
        let mut streams: Vec<Stream> = Vec::new();
        let mut k: usize = 0;
        while k < 3
            invariant
                k <= 3,
                streams@.len() == k,
                forall|j: int| 0 <= j < TENANT_COUNT ==> #[trigger] table@[j] == spec_tenant(j),
                forall|j: int|
                    0 <= j < k ==> (#[trigger] streams@[j]) == (Stream {
                        spec: spec_tenant(j),
                        clock: Arrivals { rate: spec_tenant(j).rate, next: None },
                        work: spec_tenant(j).work,
                    }),
            decreases 3 - k,
        {
            let spec: TenantSpec = table[k];
            assert(table@[k as int] == spec_tenant(k as int));
            streams.push(Stream { spec, clock: Arrivals::new(spec.rate), work: spec.work });
            k += 1;
        }
        TenantMix { rng: Rng::new(seed), streams, whose: HashMap::new() }
    }

    /// A draw from the mix's own stream, for a gap.
    pub fn draw(&mut self) -> (m: u64)
        ensures
            final(self).rng.state == next_state(old(self).rng.state),
            m == drawn(final(self).rng.state),
            final(self).streams == old(self).streams,
            final(self).whose == old(self).whose,
    {
        self.rng.fraction()
    }

    /// Let tenant `k`'s stream go: its next send is a gap from now.
    pub fn release(&mut self, k: usize, now: Ticks, gap: Ticks)
        requires
            old(self).wf(),
            k < TENANT_COUNT,
            now + gap <= u64::MAX,
        ensures
            final(self).wf(),
            final(self).streams@ == old(self).streams@.update(
                k as int,
                Stream {
                    clock: Arrivals {
                        next: Some((now + gap) as u64),
                        ..old(self).streams@[k as int].clock
                    },
                    ..old(self).streams@[k as int]
                },
            ),
            final(self).rng == old(self).rng,
            final(self).whose == old(self).whose,
    {
        let mut stream: Stream = self.streams[k];
        stream.clock.release(now, gap);
        self.streams.set(k, stream);
    }

    /// Retune one tenant's rate, and say which tenant is coming back from silence, if one is. A
    /// name the table does not have changes nothing.
    pub fn set_rate(&mut self, tenant: &str, rate: u64) -> (woken: Option<usize>)
        requires
            old(self).wf(),
        ensures
            final(self).wf(),
            final(self).rng == old(self).rng,
            final(self).whose == old(self).whose,
            match spec_tenant_of(Some(tenant@)) {
                Some(k) => {
                    &&& final(self).streams@ == old(self).streams@.update(
                        k,
                        Stream {
                            clock: Arrivals { rate, ..old(self).streams@[k].clock },
                            ..old(self).streams@[k]
                        },
                    )
                    &&& woken == (if old(self).streams@[k].clock.rate == 0 && rate > 0 {
                        Some(k as usize)
                    } else {
                        None
                    })
                },
                None => final(self).streams@ == old(self).streams@ && woken is None,
            },
    {
        match tenant_of(Some(tenant)) {
            Some(k) => {
                let mut stream: Stream = self.streams[k];
                let back: bool = stream.clock.set_rate(rate);
                self.streams.set(k, stream);
                if back {
                    Some(k)
                } else {
                    None
                }
            },
            None => None,
        }
    }

    /// Retune one tenant's weight. What it has already sent keeps the weight it was sent with. A
    /// name the table does not have changes nothing.
    pub fn set_work(&mut self, tenant: &str, work: u32)
        requires
            old(self).wf(),
        ensures
            final(self).wf(),
            final(self).rng == old(self).rng,
            final(self).whose == old(self).whose,
            final(self).streams@ == (match spec_tenant_of(Some(tenant@)) {
                Some(k) => old(self).streams@.update(k, Stream { work, ..old(self).streams@[k] }),
                None => old(self).streams@,
            }),
    {
        match tenant_of(Some(tenant)) {
            Some(k) => {
                let mut stream: Stream = self.streams[k];
                stream.work = work;
                self.streams.set(k, stream);
            },
            None => {},
        }
    }

    /// The next request a tenant sends by `t_end`, oldest first, and whose it is. It takes the
    /// next id, and its work is drawn here; its tenant's clock stands until the gap after it is
    /// drawn and [`sent`](TenantMix::sent).
    pub fn arrival(&mut self, t_end: Ticks, cpu_only: bool, next_id: &mut u32) -> (sent: Option<
        (usize, SimReq),
    >)
        requires
            old(self).wf(),
            *old(next_id) < u32::MAX,
        ensures
            final(self).wf(),
            final(self).streams@ == old(self).streams@,
            match sent {
                Some((k, req)) => {
                    let stream = old(self).streams@[k as int];
                    &&& is_earliest(clocks(old(self).streams@), t_end, k as int, req.enq_t)
                    &&& k < TENANT_COUNT
                    &&& req.id == *old(next_id)
                    &&& req.tenant == spec_tenant(k as int).id
                    &&& (req.phases@, final(self).rng.state) == spec_plan(
                        old(self).rng.state,
                        cpu_only,
                        stream.work,
                    )
                    &&& *final(next_id) == *old(next_id) + 1
                    &&& final(self).whose@ == old(self).whose@.insert(req.id, k)
                },
                None => {
                    &&& none_due(clocks(old(self).streams@), t_end)
                    &&& *final(next_id) == *old(next_id)
                    &&& final(self).rng == old(self).rng
                    &&& final(self).whose@ == old(self).whose@
                },
            },
    {
        let mut held: Vec<Arrivals> = Vec::new();
        let mut i: usize = 0;
        while i < self.streams.len()
            invariant
                i <= self.streams@.len(),
                held@ == clocks(self.streams@).take(i as int),
            decreases self.streams@.len() - i,
        {
            held.push(self.streams[i].clock);
            i += 1;
            assert(held@ =~= clocks(self.streams@).take(i as int));
        }
        assert(held@ =~= clocks(self.streams@));
        match Arrivals::earliest(&held, t_end) {
            None => None,
            Some((k, at)) => {
                let stream: Stream = self.streams[k];
                let id: u32 = *next_id;
                *next_id = id + 1;
                self.whose.insert(id, k);
                assert(self.streams@[k as int].spec == spec_tenant(k as int));
                let phases = make_phases(&mut self.rng, cpu_only, stream.work);
                Some((k, SimReq { id, enq_t: at, tenant: stream.spec.id, phases }))
            },
        }
    }

    /// Tenant `k` sent a request landing at `at`: its next is a gap after it.
    pub fn sent(&mut self, k: usize, at: Ticks, gap: Ticks)
        requires
            old(self).wf(),
            k < TENANT_COUNT,
            at + gap <= u64::MAX,
        ensures
            final(self).wf(),
            final(self).streams@ == old(self).streams@.update(
                k as int,
                Stream {
                    clock: Arrivals {
                        next: Some((at + gap) as u64),
                        ..old(self).streams@[k as int].clock
                    },
                    ..old(self).streams@[k as int]
                },
            ),
            final(self).rng == old(self).rng,
            final(self).whose == old(self).whose,
    {
        let mut stream: Stream = self.streams[k];
        stream.clock.sent(at, gap);
        self.streams.set(k, stream);
    }

    /// Forget whose the departed were.
    pub fn forget(&mut self, departed: &Vec<(u32, Outcome)>)
        requires
            old(self).wf(),
        ensures
            final(self).wf(),
            final(self)@ == (MixView {
                whose: forgotten(old(self)@.whose, departed@),
                ..old(self)@
            }),
    {
        let mut i: usize = 0;
        while i < departed.len()
            invariant
                i <= departed@.len(),
                self.wf(),
                self.streams == old(self).streams,
                self.rng == old(self).rng,
                forall|id: u32| #[trigger]
                    self.whose@.contains_key(id) <==> old(self).whose@.contains_key(id)
                        && !was_departed(departed@, i as int, id),
                forall|id: u32| #[trigger]
                    self.whose@.contains_key(id) ==> self.whose@[id] == old(self).whose@[id],
            decreases departed@.len() - i,
        {
            let gone: u32 = departed[i].0;
            let ghost before = self.whose@;
            self.whose.remove(&gone);
            proof {
                assert forall|id: u32| #[trigger]
                    self.whose@.contains_key(id) <==> old(self).whose@.contains_key(id)
                        && !was_departed(departed@, i + 1, id) by {
                    assert(self.whose@ == before.remove(gone));
                    assert(before.contains_key(id) <==> old(self).whose@.contains_key(id)
                        && !was_departed(departed@, i as int, id));
                    if was_departed(departed@, i + 1, id) {
                        let j = choose|j: int|
                            0 <= j < i + 1 && (#[trigger] departed@[j]).0 == id;
                        if j == i {
                            assert(id == gone);
                        } else {
                            assert(was_departed(departed@, i as int, id));
                        }
                    }
                    if id == gone {
                        assert(departed@[i as int].0 == id);
                    }
                    if was_departed(departed@, i as int, id) {
                        let j = choose|j: int| 0 <= j < i && (#[trigger] departed@[j]).0 == id;
                        assert(departed@[j].0 == id);
                    }
                }
            }
            i += 1;
        }
        assert(self.whose@ =~= forgotten(old(self)@.whose, departed@));
    }

    /// Which tenant a request belongs to.
    pub fn whose(&self, id: u32) -> (k: Option<usize>)
        ensures
            k == (if self.whose@.contains_key(id) {
                Some(self.whose@[id])
            } else {
                None
            }),
    {
        match self.whose.get(&id) {
            Some(k) => Some(*k),
            None => None,
        }
    }
}

/// Whether a request is among the first `n` departed.
pub open spec fn was_departed(departed: Seq<(u32, Outcome)>, n: int, id: u32) -> bool {
    exists|j: int| 0 <= j < n && (#[trigger] departed[j]).0 == id
}

/// A request is forgotten once it has departed, and whose it was is kept until then.
pub proof fn only_the_departed_are_forgotten(
    whose: Map<u32, usize>,
    departed: Seq<(u32, Outcome)>,
    id: u32,
)
    ensures
        forgotten(whose, departed).contains_key(id) <==> whose.contains_key(id) && forall|i: int|
            0 <= i < departed.len() ==> (#[trigger] departed[i]).0 != id,
        forgotten(whose, departed).contains_key(id) ==> forgotten(whose, departed)[id] == whose[id],
{
}

/// Each stream keeps its own clock.
pub proof fn each_stream_keeps_its_own_clock(streams: Seq<Stream>, k: int)
    requires
        0 <= k < streams.len(),
    ensures
        clocks(streams).len() == streams.len(),
        clocks(streams)[k] == streams[k].clock,
{
}

} // verus!
