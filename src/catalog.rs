//! The snapshot of the provider's zones, and the lookup of a zone by name.

use vstd::prelude::*;
use crate::domain::Fqdn;
use crate::models::Zone;

verus! {

/// No zone of the snapshot has the name sought.
#[derive(Debug, Clone, Copy, PartialEq, Eq, Structural)]
pub enum LookupError {
    ZoneNotFound,
}

/// One complete listing of the provider's zones. A new listing replaces the
/// snapshot as a whole.
#[derive(Debug)]
pub struct ZoneCatalog {
    pub zones: Vec<Zone>,
}

impl ZoneCatalog {
    pub fn new(zones: Vec<Zone>) -> (r: ZoneCatalog)
        ensures
            r.zones == zones,
    {
        ZoneCatalog { zones }
    }

    /// The first zone whose apex name equals `fqdn` exactly.
    pub fn find_cloudflare_zone(&self, fqdn: &Fqdn) -> (r: Result<&Zone, LookupError>)
        ensures
            r is Err <==> forall|i: int| 0 <= i < self.zones@.len() ==> #[trigger] self.zones@[i].fqdn@ != fqdn@,
            r matches Ok(z) ==> exists|i: int| 0 <= i < self.zones@.len() && *z == #[trigger] self.zones@[i]
                && z.fqdn@ == fqdn@
                && forall|k: int| 0 <= k < i ==> #[trigger] self.zones@[k].fqdn@ != fqdn@,
    {
        let mut i: usize = 0;
        while i < self.zones.len()
            invariant
                i <= self.zones.len(),
                forall|k: int| 0 <= k < i ==> #[trigger] self.zones@[k].fqdn@ != fqdn@,
            decreases self.zones.len() - i,
        {
            if self.zones[i].fqdn.same_as(fqdn) {
                return Ok(&self.zones[i]);
            }
            i = i + 1;
        }
        Err(LookupError::ZoneNotFound)
    }
}

} // verus!
