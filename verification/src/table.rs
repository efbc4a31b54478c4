//! The materialized lookup table and the three accessor modes.
//!
//! A table caches one value per coordinate of a finite domain, filled
//! once by exhaustive evaluation of the cached function. The basic
//! accessor trusts the caller to stay in range; the option accessor
//! turns an out-of-range input into an absent result; the keep accessor
//! falls back to the original computation.

use vstd::prelude::*;

use crate::PrecalcConst;
use crate::domain::Domain;
use crate::domain::coords_of;
use crate::domain::domain_size;
use crate::domain::flat_index;
use crate::domain::lemma_coords_of_flat_index;
use crate::domain::lemma_flat_index_bounds;

verus! {

/// A pure function over `i64` argument tuples that a lookup table can be
/// built for. `value` is the mathematical function itself; `eval` is the
/// ground-truth implementation that fills the table and that the keep
/// mode falls back to; `pre` delimits the arguments on which `eval` is
/// defined (an `eval` outside `pre` is never called).
pub trait PrecalcFn: Sized {
    spec fn pre(&self, args: Seq<i64>) -> bool;

    spec fn value(&self, args: Seq<i64>) -> i64;

    fn eval(&self, args: &Vec<i64>) -> (r: i64)
        requires
            self.pre(args@),
        ensures
            r == self.value(args@),
    ;
}

/// A lookup table for `func` over `dom`: one slot per domain coordinate,
/// holding exactly the value of `func` there. Populated once by its
/// constructor and never mutated afterwards.
pub struct Table<F: PrecalcFn> {
    pub entries: Vec<i64>,
    pub dom: Domain,
    pub func: F,
}

impl<F: PrecalcFn> Table<F> {
    /// Every slot of the fully populated table holds the cached
    /// function's value at the coordinate the slot's index denotes.
    pub open spec fn wf(self) -> bool {
        &&& self.dom.wf()
        &&& self.entries@.len() == domain_size(self.dom.ranges@)
        &&& forall|args: Seq<i64>| #[trigger]
            self.dom.spec_in_domain(args) ==> self.entries@[flat_index(self.dom.ranges@, args)]
                == self.func.value(args)
    }

    pub open spec fn spec_in_domain(self, args: Seq<i64>) -> bool {
        self.dom.spec_in_domain(args)
    }

    /// Materializes the table: fills every slot with the placeholder
    /// value, then walks the whole domain in flat-index order — the
    /// first declared parameter outermost — and overwrites each slot
    /// with the function's value at that coordinate.
    pub fn new(func: F, dom: Domain) -> (t: Table<F>)
        requires
            dom.wf(),
            forall|args: Seq<i64>| #[trigger] dom.spec_in_domain(args) ==> func.pre(args),
        ensures
            t.wf(),
            t.dom == dom,
            t.func == func,
    {
        let size = dom.size;
        let mut entries: Vec<i64> = Vec::new();
        let mut k: usize = 0;
        while k < size
            invariant
                k <= size,
                entries@.len() == k,
            decreases size - k,
        {
            entries.push(<i64 as PrecalcConst>::DEFAULT);
            k += 1;
        }
        let mut k: usize = 0;
        while k < size
            invariant
                k <= size,
                size == dom.size,
                dom.wf(),
                forall|args: Seq<i64>| #[trigger] dom.spec_in_domain(args) ==> func.pre(args),
                entries@.len() == size,
                forall|m: int|
                    0 <= m < k ==> entries@[m] == func.value(coords_of(dom.ranges@, m)),
            decreases size - k,
        {
            let args = dom.coords(k);
            let v = func.eval(&args);
            entries[k] = v;
            k += 1;
        }
        proof {
            assert forall|args: Seq<i64>| #[trigger] dom.spec_in_domain(args) implies entries@[
            flat_index(dom.ranges@, args)] == func.value(args) by {
                lemma_flat_index_bounds(dom.ranges@, args);
                lemma_coords_of_flat_index(dom.ranges@, args);
            }
        }
        Table { entries, dom, func }
    }

    /// Basic mode: no bounds check, the caller answers for the input
    /// being in the declared domain. Returns the cached value, which
    /// equals the original function's result at the same arguments.
    pub fn get_basic(&self, args: &Vec<i64>) -> (r: i64)
        requires
            self.wf(),
            self.spec_in_domain(args@),
        ensures
            r == self.func.value(args@),
    {
        let i = self.dom.index_of(args);
        self.entries[i]
    }

    /// Option mode: an in-range input yields the cached value — the
    /// original function's result — wrapped as present; any input with
    /// at least one argument outside its declared range yields absence.
    pub fn get_option(&self, args: &Vec<i64>) -> (r: Option<i64>)
        requires
            self.wf(),
        ensures
            self.spec_in_domain(args@) ==> r == Some(self.func.value(args@)),
            !self.spec_in_domain(args@) ==> r is None,
    {
        if self.dom.in_domain(args) {
            Some(self.get_basic(args))
        } else {
            None
        }
    }

    /// Keep mode: an in-range input is answered from the table, any
    /// other input by invoking the original function directly — so the
    /// result always equals the original function's, over its whole
    /// domain.
    pub fn get_keep(&self, args: &Vec<i64>) -> (r: i64)
        requires
            self.wf(),
            !self.spec_in_domain(args@) ==> self.func.pre(args@),
        ensures
            r == self.func.value(args@),
    {
        if self.dom.in_domain(args) {
            self.get_basic(args)
        } else {
            self.func.eval(args)
        }
    }
}

} // verus!
