//! What the reader steers, what the panel invites, and how each tenant's traffic has been going.

use std::collections::VecDeque;

use vstd::prelude::*;

use crate::blame::panel::Wall;
use crate::engine::clock::Ticks;
use crate::engine::outcome::Outcome;
use crate::engine::request::{spec_tenant, tenants, TENANT_COUNT};
use crate::text::same_text;

verus! {

/// How long the panel lets a reader orient before it will offer them the speed knob, on the wall
/// clock.
pub const ORIENT: Wall = 20_000_000;

/// One request that came back: whose it was, and how it ended.
#[derive(Clone, Copy)]
pub struct Record {
    pub tenant: &'static str,
    pub outcome: Outcome,
}

/// How a tenant's traffic has been going: the colour its outbound requests are drawn in.
#[derive(Clone, Copy, PartialEq, Eq, Structural, Debug)]
pub enum Traffic {
    /// Getting through.
    Served,
    /// Some of it is coming back shed.
    Shed,
}

/// Whether one record is a tenant's, shed.
pub open spec fn sheds(r: Record, k: int) -> bool {
    r.tenant@ == spec_tenant(k).id@ && (r.outcome == Outcome::QueueTimeout || r.outcome
        == Outcome::Rejected)
}

/// Whether any of what came back was a tenant's, shed.
pub open spec fn any_shed(done: Seq<Record>, k: int) -> bool {
    exists|i: int| 0 <= i < done.len() && sheds(#[trigger] done[i], k)
}

impl Traffic {
    /// How each tenant's traffic has been going, read off what came back and nothing else.
    pub fn of_each(done: &VecDeque<Record>) -> (each: Vec<Traffic>)
        ensures
            each@.len() == TENANT_COUNT,
            forall|k: int|
                0 <= k < TENANT_COUNT ==> #[trigger] each@[k] == if any_shed(done@, k) {
                    Traffic::Shed
                } else {
                    Traffic::Served
                },
    {
        let table = tenants();
        let mut each: Vec<Traffic> = Vec::new();
        let mut k: usize = 0;
        while k < TENANT_COUNT
            invariant
                k <= TENANT_COUNT,
                each@.len() == k,
                forall|k: int| 0 <= k < TENANT_COUNT ==> #[trigger] table@[k] == spec_tenant(k),
                forall|j: int|
                    0 <= j < k ==> #[trigger] each@[j] == if any_shed(done@, j) {
                        Traffic::Shed
                    } else {
                        Traffic::Served
                    },
            decreases TENANT_COUNT - k,
        {
            let mut shed = false;
            let mut i: usize = 0;
            while i < done.len()
                invariant
                    i <= done@.len(),
                    k < TENANT_COUNT,
                    table@[k as int] == spec_tenant(k as int),
                    shed <==> exists|j: int| 0 <= j < i && sheds(#[trigger] done@[j], k as int),
                decreases done@.len() - i,
            {
                let r: Record = done[i];
                let lost: bool = match r.outcome {
                    Outcome::QueueTimeout | Outcome::Rejected => true,
                    _ => false,
                };
                assert(done@[i as int] == r);
                if lost && same_text(r.tenant, table[k].id) {
                    assert(sheds(done@[i as int], k as int));
                    shed = true;
                }
                i += 1;
            }
            each.push(
                if shed {
                    Traffic::Shed
                } else {
                    Traffic::Served
                },
            );
            k += 1;
        }
        each
    }
}

/// The panel's own switches, and what it invites the reader to next.
#[derive(Clone, Copy, PartialEq, Eq, Structural, Debug)]
pub struct Controls {
    pub running: bool,
    pub view: usize,
    /// Whether the picture is broken down by tenant rather than by phase.
    pub by_tenant: bool,
    /// Whether the breakdown's invitation still stands.
    pub untouched: bool,
    /// Whether the speed knob's invitation stands.
    pub invited: bool,
    pub offered: bool,
    pub taken: bool,
    /// When the tables were last summed up.
    pub summed: Option<Ticks>,
}

impl Controls {
    /// The panel as it opens.
    pub fn new() -> (c: Controls)
        ensures
            c == (Controls {
                running: false,
                view: 0,
                by_tenant: false,
                untouched: true,
                invited: false,
                offered: false,
                taken: false,
                summed: None,
            }),
            c.asks_for_one_thing(),
    {
        Controls {
            running: false,
            view: 0,
            by_tenant: false,
            untouched: true,
            invited: false,
            offered: false,
            taken: false,
            summed: None,
        }
    }

    /// At most one invitation glows, and the speed's stands only between being offered and being
    /// taken.
    pub open spec fn asks_for_one_thing(self) -> bool {
        &&& !(self.untouched && self.invited)
        &&& self.invited <==> self.offered && !self.taken
    }

    /// A rendered frame: offer the speed knob once, when the reader has been on the page long
    /// enough to have read it and is done with the invitation already standing.
    pub fn tick(&mut self, real_t: Wall)
        requires
            old(self).asks_for_one_thing(),
        ensures
            final(self).asks_for_one_thing(),
            *final(self) == (if !old(self).offered && !old(self).taken && !old(self).untouched
                && real_t >= ORIENT {
                Controls { offered: true, invited: true, ..*old(self) }
            } else {
                *old(self)
            }),
    {
        if !self.offered && !self.taken && !self.untouched && real_t >= ORIENT {
            self.offered = true;
            self.invited = true;
        }
    }

    /// Flip the breakdown. The table's rows are a different set in each, so it is rebuilt at the
    /// switch rather than at the next sample.
    pub fn breakdown(&mut self)
        requires
            old(self).asks_for_one_thing(),
        ensures
            final(self).asks_for_one_thing(),
            *final(self) == (Controls {
                by_tenant: !old(self).by_tenant,
                untouched: false,
                summed: None,
                ..*old(self)
            }),
    {
        self.by_tenant = !self.by_tenant;
        self.untouched = false;
        self.summed = None;
    }

    /// Move the speed knob. The invitation asks for more speed, so only a move above where the
    /// panel opened answers it.
    pub fn speed(&mut self, raw: u32, opening: u32)
        requires
            old(self).asks_for_one_thing(),
        ensures
            final(self).asks_for_one_thing(),
            *final(self) == (if raw > opening {
                Controls { taken: true, invited: false, ..*old(self) }
            } else {
                *old(self)
            }),
    {
        if raw > opening {
            self.taken = true;
            self.invited = false;
        }
    }

    /// Run or pause.
    pub fn toggle(&mut self)
        ensures
            *final(self) == (Controls { running: !old(self).running, ..*old(self) }),
    {
        self.running = !self.running;
    }

    /// Which view the diagram shows.
    pub fn show(&mut self, view: usize)
        ensures
            *final(self) == (Controls { view, ..*old(self) }),
    {
        self.view = view;
    }

    /// A fresh machine: the tables are due, and the knobs stay where the reader put them.
    pub fn reset(&mut self)
        ensures
            *final(self) == (Controls { summed: None, ..*old(self) }),
    {
        self.summed = None;
    }

    /// Whether the tables are due to be summed up: at once where they never were, and `every` so
    /// often after that.
    pub fn summary_due(&mut self, now: Ticks, every: Ticks) -> (due: bool)
        ensures
            due == (match old(self).summed {
                Some(at) => now - at >= every,
                None => true,
            }),
            *final(self) == (if due {
                Controls { summed: Some(now), ..*old(self) }
            } else {
                *old(self)
            }),
    {
        let due: bool = match self.summed {
            Some(at) => now >= at && now - at >= every,
            None => true,
        };
        if due {
            self.summed = Some(now);
        }
        due
    }
}

/// A tenant has been shed where one of its own requests was turned away for want of time or of room;
/// a tenant held to its share has not, nor one that was served, however late.
pub proof fn a_tenant_is_shed_where_it_was_turned_away(r: Record, k: int)
    ensures
        sheds(r, k) <==> r.tenant@ == spec_tenant(k).id@ && r.outcome.spec_refused(),
        sheds(r, k) ==> !r.outcome.spec_served() && r.outcome != Outcome::RateLimited,
{
}

/// One record more sheds a tenant only where it is that tenant's own, and nothing unsheds it.
pub proof fn a_record_sheds_its_own_tenant(done: Seq<Record>, r: Record, k: int)
    ensures
        any_shed(done.push(r), k) <==> any_shed(done, k) || sheds(r, k),
        !any_shed(Seq::empty(), k),
{
    let more = done.push(r);
    if any_shed(done, k) {
        let i = choose|i: int| 0 <= i < done.len() && sheds(#[trigger] done[i], k);
        assert(more[i] == done[i]);
    }
    if sheds(r, k) {
        assert(more[done.len() as int] == r);
    }
    if any_shed(more, k) {
        let i = choose|i: int| 0 <= i < more.len() && sheds(#[trigger] more[i], k);
        if i < done.len() {
            assert(done[i] == more[i]);
        }
    }
}

} // verus!
