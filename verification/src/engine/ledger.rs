//! Where a finished request's fare is banked, by the tenant it is billed to.

use vstd::prelude::*;

use crate::engine::clock::Ticks;
use crate::engine::request::{spec_tenant, spec_tenant_of, tenant_of, tenants, SOLO};
use crate::engine::tagged::take_all;

verus! {

/// The name a fare is banked under: the tenant's own where the table has it, and the lone
/// tenant's otherwise.
pub open spec fn banked_as(tenant: Seq<char>) -> Seq<char> {
    match spec_tenant_of(Some(tenant)) {
        Some(k) => spec_tenant(k).id@,
        None => SOLO@,
    }
}

/// The fares banked since the last drain, in order.
pub struct Ledger {
    pub fares: Vec<(&'static str, Ticks)>,
}

impl View for Ledger {
    type V = Seq<(&'static str, Ticks)>;

    open spec fn view(&self) -> Seq<(&'static str, Ticks)> {
        self.fares@
    }
}

impl Default for Ledger {
    fn default() -> (l: Ledger)
        ensures
            l@ == Seq::<(&'static str, Ticks)>::empty(),
    {
        Ledger { fares: Vec::new() }
    }
}

impl Ledger {
    /// Bank a fare. The table is the authority on the name, not the text that came back.
    pub fn bank(&mut self, tenant: &str, fare: Ticks)
        ensures
            final(self).fares@.len() == old(self).fares@.len() + 1,
            final(self).fares@.take(old(self).fares@.len() as int) == old(self).fares@,
            final(self).fares@.last().0@ == banked_as(tenant@),
            final(self).fares@.last().1 == fare,
    {
        let named: &'static str = match tenant_of(Some(tenant)) {
            Some(k) => {
                let table = tenants();
                assert(table@[k as int] == spec_tenant(k as int));
                table[k].id
            },
            None => SOLO,
        };
        self.fares.push((named, fare));
        assert(self.fares@.take(old(self).fares@.len() as int) =~= old(self).fares@);
    }

    /// Take every fare banked, leaving none.
    pub fn drain(&mut self) -> (fares: Vec<(&'static str, Ticks)>)
        ensures
            fares@ == old(self)@,
            final(self)@ == Seq::<(&'static str, Ticks)>::empty(),
    {
        take_all(&mut self.fares)
    }
}

/// A fare billed to a tenant in the table is banked under that tenant's own name.
pub proof fn a_tenants_fare_is_its_own(k: int)
    requires
        0 <= k < crate::engine::request::TENANT_COUNT,
    ensures
        banked_as(spec_tenant(k).id@) == spec_tenant(k).id@,
{
    crate::engine::request::a_tenant_is_found_by_its_name(k);
}

/// A fare billed to nobody in the table is banked under the lone tenant's name.
pub proof fn a_strangers_fare_is_the_lone_tenants(tenant: Seq<char>)
    ensures
        (forall|k: int|
            0 <= k < crate::engine::request::TENANT_COUNT ==> #[trigger] spec_tenant(k).id@
                != tenant) ==> banked_as(tenant) == SOLO@,
{
    assert(spec_tenant(0).id@ == "Alice"@);
    assert(spec_tenant(1).id@ == "Bob"@);
    assert(spec_tenant(2).id@ == "Charlie"@);
}

} // verus!
