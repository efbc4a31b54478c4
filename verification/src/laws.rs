//! Laws of the table engine, stated once over every function, domain
//! and mode.

use vstd::prelude::*;

use crate::domain::Domain;
use crate::domain::RangeDecl;
use crate::domain::flat_index;
use crate::table::PrecalcFn;
use crate::table::Table;

verus! {

/// In-range equivalence: at every coordinate of the declared domain,
/// the slot the accessors read holds exactly the original function's
/// value at those arguments — so all three modes answer an in-range
/// input with the original result.
pub proof fn lemma_table_matches_original<F: PrecalcFn>(t: Table<F>, args: Seq<i64>)
    requires
        t.wf(),
        t.spec_in_domain(args),
    ensures
        t.entries@[flat_index(t.dom.ranges@, args)] == t.func.value(args),
{
}

/// A range with a single value contributes a dimension of exactly one
/// slot, holding precisely that value; nothing else distinguishes it
/// from a wider range.
pub proof fn lemma_singleton_range(r: RangeDecl)
    requires
        r.start == r.end,
    ensures
        r.card() == 1,
        forall|v: i64| r.spec_contains(v) <==> v == r.start,
{
}

/// Boundary inclusivity: both declared endpoints of a range are in
/// range, and any value beyond either endpoint is out of range.
pub proof fn lemma_boundary_inclusivity(r: RangeDecl)
    requires
        r.wf(),
    ensures
        r.spec_contains(r.start),
        r.spec_contains(r.end),
        forall|v: i64| v < r.start || v > r.end ==> !r.spec_contains(v),
{
}

/// Boundary inclusivity over a whole argument tuple: replacing any one
/// in-range argument by a value outside its declared range — one unit
/// beyond an endpoint suffices — puts the tuple out of the domain.
pub proof fn lemma_domain_boundary(d: Domain, args: Seq<i64>, j: int, v: i64)
    requires
        d.spec_in_domain(args),
        0 <= j < args.len(),
        !d.ranges@[j].spec_contains(v),
    ensures
        !d.spec_in_domain(args.update(j, v)),
{
    assert(args.update(j, v)[j] == v);
}

} // verus!
