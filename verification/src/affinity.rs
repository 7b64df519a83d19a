//! CPU-core affinity: enumerating the machine's processing units and
//! pinning the calling thread to one of them, e.g. so a worker loop runs
//! with less scheduling jitter. Both operations are best-effort views of the
//! platform; failure to pin is expected and never fatal.

use vstd::prelude::*;

verus! {

/// A unique identifier for a CPU core.
#[derive(Clone, Copy, Debug, PartialEq, Eq, Structural)]
pub struct CoreId {
    pub id: usize,
    /// The platform's own identifier, kept out of the public surface.
    internal: usize,
}

impl CoreId {
    /// The public identifier.
    pub closed spec fn spec_id(&self) -> usize {
        self.id
    }

    /// The public identifier mirrors the platform's.
    pub closed spec fn well_formed(&self) -> bool {
        self.id == self.internal
    }
}

/// Relies on `core_affinity::get_core_ids`: reports the processing units
/// available to this process, or nothing when the platform cannot tell. The
/// result depends on the machine, so nothing is promised of it.
#[verifier::external_body]
fn fetch_core_id_numbers() -> Option<Vec<usize>> {
    core_affinity::get_core_ids().map(|v| v.into_iter().map(|c| c.id).collect())
}

/// Relies on `core_affinity::set_for_current`: asks the OS to pin the
/// calling thread to the unit with this identifier, returning whether that
/// succeeded. The outcome depends on the platform, so nothing is promised of
/// it. Identifiers must stay below 64: beyond that the platform backends can
/// panic (the winbase backend shifts a word by the identifier; the sched
/// backends index a fixed 1024-bit set), and every enumerated unit on a
/// 64-bit-mask platform lies below it.
#[verifier::external_body]
fn pin_current_thread(id: usize) -> bool
    requires
        id < 64,
{
    core_affinity::set_for_current(core_affinity::CoreId { id })
}

/// Converts the platform's list of unit identifiers, one `CoreId` per entry,
/// in order.
pub fn core_ids_from(ids: Vec<usize>) -> (r: Vec<CoreId>)
    ensures
        r@.len() == ids@.len(),
        forall|i: int|
            0 <= i < ids@.len() ==> (#[trigger] r@[i]).spec_id() == ids@[i] && r@[i].well_formed(),
{
    let mut out: Vec<CoreId> = Vec::new();
    let mut i: usize = 0;
    while i < ids.len()
        invariant
            i <= ids@.len(),
            out@.len() == i,
            forall|j: int|
                0 <= j < i ==> (#[trigger] out@[j]).spec_id() == ids@[j] && out@[j].well_formed(),
        decreases ids@.len() - i,
    {
        let id = ids[i];
        out.push(CoreId { id, internal: id });
        i = i + 1;
    }
    out
}

/// Retrieves a list of all available CPU processor IDs on the system, one
/// entry per unit the platform reports and in the platform's order; empty
/// when the platform reports none. What the platform reports depends on the
/// machine; `core_ids_from` states exactly how each reported identifier
/// becomes a `CoreId`.
pub fn get_core_ids() -> (r: Vec<CoreId>)
    ensures
        forall|i: int| 0 <= i < r@.len() ==> (#[trigger] r@[i]).well_formed(),
{
    match fetch_core_id_numbers() {
        None => Vec::new(),
        Some(ids) => core_ids_from(ids),
    }
}

/// Pins the *current* thread to the specified CPU core; returns whether the
/// platform accepted the request. Failure is best-effort and never fatal:
/// common in containers, on platforms without affinity control, and for
/// identifiers beyond the platform mask width.
pub fn pin_to_core(core_id: CoreId) -> (r: bool)
    ensures
        core_id.well_formed() && core_id.spec_id() >= 64 ==> r == false,
{
    if core_id.internal < 64 {
        pin_current_thread(core_id.internal)
    } else {
        false
    }
}

} // verus!
