//! The domain of a precalculated function: one inclusive range per
//! parameter, in declaration order, and the affine mapping between
//! argument tuples and flat table indices.
//!
//! The table stores the value for coordinate `(v_0, .., v_{n-1})` at the
//! flat index obtained by treating `(v_j - start_j)` as a digit in a
//! mixed-radix number whose radices are the per-parameter cardinalities,
//! with the first declared parameter as the outermost (most significant)
//! dimension.

use vstd::prelude::*;
use vstd::arithmetic::div_mod::lemma_fundamental_div_mod_converse_div;
use vstd::arithmetic::div_mod::lemma_fundamental_div_mod_converse_mod;
use vstd::arithmetic::div_mod::lemma_mod_division_less_than_divisor;
use vstd::arithmetic::div_mod::lemma_multiply_divide_lt;
use vstd::arithmetic::div_mod::lemma_div_pos_is_pos;
use vstd::arithmetic::div_mod::lemma_div_multiples_vanish;

verus! {

/// An inclusive range of values declared for one parameter.
#[derive(Clone, Copy, PartialEq, Eq, Structural, Debug)]
pub struct RangeDecl {
    pub start: i64,
    pub end: i64,
}

impl RangeDecl {
    /// A range is well formed when it holds at least one value.
    pub open spec fn wf(self) -> bool {
        self.start <= self.end
    }

    /// The number of values the range holds.
    pub open spec fn card(self) -> int {
        self.end - self.start + 1
    }

    pub open spec fn spec_contains(self, v: i64) -> bool {
        self.start <= v <= self.end
    }

    /// Whether the value lies within the inclusive range.
    pub fn contains(&self, v: i64) -> (b: bool)
        ensures
            b == self.spec_contains(v),
    {
        self.start <= v && v <= self.end
    }
}

pub open spec fn ranges_wf(rs: Seq<RangeDecl>) -> bool {
    forall|j: int| 0 <= j < rs.len() ==> #[trigger] rs[j].wf()
}

/// Total number of coordinates of the domain: the product of the
/// cardinalities of all ranges.
pub open spec fn domain_size(rs: Seq<RangeDecl>) -> int
    decreases rs.len(),
{
    if rs.len() == 0 {
        1
    } else {
        rs[0].card() * domain_size(rs.skip(1))
    }
}

/// The argument tuple lies within every declared range.
pub open spec fn in_ranges(rs: Seq<RangeDecl>, args: Seq<i64>) -> bool {
    &&& args.len() == rs.len()
    &&& forall|j: int| 0 <= j < rs.len() ==> #[trigger] rs[j].spec_contains(args[j])
}

/// The flat table index of an in-range argument tuple: per dimension the
/// offset is `value - start`, and the first dimension is outermost.
pub open spec fn flat_index(rs: Seq<RangeDecl>, args: Seq<i64>) -> int
    decreases rs.len(),
{
    if rs.len() == 0 {
        0
    } else {
        (args[0] - rs[0].start) * domain_size(rs.skip(1)) + flat_index(rs.skip(1), args.skip(1))
    }
}

/// The argument tuple that a flat index denotes: the inverse of
/// `flat_index` on `[0, domain_size)`.
pub open spec fn coords_of(rs: Seq<RangeDecl>, i: int) -> Seq<i64>
    decreases rs.len(),
{
    if rs.len() == 0 {
        Seq::empty()
    } else {
        let s = domain_size(rs.skip(1));
        seq![(rs[0].start + i / s) as i64] + coords_of(rs.skip(1), i % s)
    }
}

pub proof fn lemma_domain_size_pos(rs: Seq<RangeDecl>)
    requires
        ranges_wf(rs),
    ensures
        domain_size(rs) >= 1,
    decreases rs.len(),
{
    if rs.len() > 0 {
        assert(ranges_wf(rs.skip(1)));
        lemma_domain_size_pos(rs.skip(1));
        assert(rs[0].wf());
        assert(rs[0].card() * domain_size(rs.skip(1)) >= 1) by (nonlinear_arith)
            requires
                rs[0].card() >= 1,
                domain_size(rs.skip(1)) >= 1,
        ;
    }
}

/// Appending one more range multiplies the domain size by its cardinality.
pub proof fn lemma_domain_size_push(rs: Seq<RangeDecl>, r: RangeDecl)
    ensures
        domain_size(rs.push(r)) == domain_size(rs) * r.card(),
    decreases rs.len(),
{
    if rs.len() == 0 {
        assert(rs.push(r).skip(1) =~= Seq::<RangeDecl>::empty());
        assert(rs.push(r)[0] == r);
        assert(domain_size(rs.push(r)) == r.card() * domain_size(Seq::<RangeDecl>::empty()));
        assert(domain_size(rs) == 1);
    } else {
        assert(rs.push(r).skip(1) =~= rs.skip(1).push(r));
        lemma_domain_size_push(rs.skip(1), r);
        assert(rs[0].card() * (domain_size(rs.skip(1)) * r.card()) == (rs[0].card() * domain_size(
            rs.skip(1),
        )) * r.card()) by (nonlinear_arith);
    }
}

/// The size of a prefix of the domain never exceeds the whole size.
pub proof fn lemma_domain_size_prefix_le(rs: Seq<RangeDecl>, j: int)
    requires
        ranges_wf(rs),
        0 <= j <= rs.len(),
    ensures
        domain_size(rs.take(j)) <= domain_size(rs),
    decreases rs.len() - j,
{
    if j == rs.len() {
        assert(rs.take(j) =~= rs);
    } else {
        lemma_domain_size_prefix_le(rs, j + 1);
        assert(rs.take(j + 1) =~= rs.take(j).push(rs[j]));
        lemma_domain_size_push(rs.take(j), rs[j]);
        assert(ranges_wf(rs.take(j)));
        lemma_domain_size_pos(rs.take(j));
        assert(rs[j].wf());
        assert(domain_size(rs.take(j)) <= domain_size(rs.take(j)) * rs[j].card())
            by (nonlinear_arith)
            requires
                domain_size(rs.take(j)) >= 1,
                rs[j].card() >= 1,
        ;
    }
}

/// The size of a suffix of the domain never exceeds the whole size.
pub proof fn lemma_domain_size_suffix_le(rs: Seq<RangeDecl>, j: int)
    requires
        ranges_wf(rs),
        0 <= j <= rs.len(),
    ensures
        domain_size(rs.skip(j)) <= domain_size(rs),
    decreases j,
{
    if j == 0 {
        assert(rs.skip(0) =~= rs);
    } else {
        lemma_domain_size_suffix_le(rs, j - 1);
        let tail = rs.skip(j - 1);
        assert(tail.skip(1) =~= rs.skip(j));
        assert(ranges_wf(rs.skip(j)));
        lemma_domain_size_pos(rs.skip(j));
        assert(tail[0] == rs[j - 1]);
        assert(rs[j - 1].wf());
        assert(domain_size(tail) == tail[0].card() * domain_size(rs.skip(j)));
        assert(domain_size(rs.skip(j)) <= tail[0].card() * domain_size(rs.skip(j)))
            by (nonlinear_arith)
            requires
                domain_size(rs.skip(j)) >= 1,
                tail[0].card() >= 1,
        ;
    }
}

/// Every in-range argument tuple maps to a flat index inside the table.
pub proof fn lemma_flat_index_bounds(rs: Seq<RangeDecl>, args: Seq<i64>)
    requires
        ranges_wf(rs),
        in_ranges(rs, args),
    ensures
        0 <= flat_index(rs, args) < domain_size(rs),
    decreases rs.len(),
{
    if rs.len() > 0 {
        assert(ranges_wf(rs.skip(1)));
        assert(in_ranges(rs.skip(1), args.skip(1)));
        lemma_flat_index_bounds(rs.skip(1), args.skip(1));
        lemma_domain_size_pos(rs.skip(1));
        let off = args[0] - rs[0].start;
        let s = domain_size(rs.skip(1));
        let f1 = flat_index(rs.skip(1), args.skip(1));
        assert(rs[0].spec_contains(args[0]));
        assert(0 <= off * s + f1 < rs[0].card() * s) by (nonlinear_arith)
            requires
                0 <= off,
                off <= rs[0].card() - 1,
                0 <= f1 < s,
                1 <= s,
        ;
    }
}

/// Every flat index inside the table denotes an in-range argument tuple.
pub proof fn lemma_coords_of_in_ranges(rs: Seq<RangeDecl>, i: int)
    requires
        ranges_wf(rs),
        0 <= i < domain_size(rs),
    ensures
        in_ranges(rs, coords_of(rs, i)),
    decreases rs.len(),
{
    if rs.len() > 0 {
        assert(ranges_wf(rs.skip(1)));
        let s = domain_size(rs.skip(1));
        lemma_domain_size_pos(rs.skip(1));
        lemma_div_pos_is_pos(i, s);
        assert(s * rs[0].card() == rs[0].card() * s) by (nonlinear_arith);
        lemma_multiply_divide_lt(i, s, rs[0].card());
        lemma_mod_division_less_than_divisor(i, s);
        lemma_coords_of_in_ranges(rs.skip(1), i % s);
        assert(rs[0].wf());
        let c = coords_of(rs, i);
        assert(c == seq![(rs[0].start + i / s) as i64] + coords_of(rs.skip(1), i % s));
        assert(rs[0].start <= rs[0].start + i / s <= rs[0].end);
        assert(c[0] == (rs[0].start + i / s) as i64);
        assert(c.skip(1) =~= coords_of(rs.skip(1), i % s));
        assert forall|j: int| 0 <= j < rs.len() implies #[trigger] rs[j].spec_contains(
            c[j],
        ) by {
            if j > 0 {
                assert(rs.skip(1)[j - 1].spec_contains(c.skip(1)[j - 1]));
            }
        }
    }
}

/// Decoding the flat index of an in-range tuple gives the tuple back:
/// distinct coordinates never share a table slot.
pub proof fn lemma_coords_of_flat_index(rs: Seq<RangeDecl>, args: Seq<i64>)
    requires
        ranges_wf(rs),
        in_ranges(rs, args),
    ensures
        coords_of(rs, flat_index(rs, args)) == args,
    decreases rs.len(),
{
    if rs.len() == 0 {
        assert(args =~= Seq::<i64>::empty());
        assert(coords_of(rs, flat_index(rs, args)) =~= args);
    } else {
        assert(ranges_wf(rs.skip(1)));
        assert(in_ranges(rs.skip(1), args.skip(1)));
        let s = domain_size(rs.skip(1));
        let off = args[0] - rs[0].start;
        let f1 = flat_index(rs.skip(1), args.skip(1));
        let f = flat_index(rs, args);
        lemma_domain_size_pos(rs.skip(1));
        lemma_flat_index_bounds(rs.skip(1), args.skip(1));
        assert(f == off * s + f1);
        lemma_fundamental_div_mod_converse_div(f, s, off, f1);
        lemma_fundamental_div_mod_converse_mod(f, s, off, f1);
        lemma_coords_of_flat_index(rs.skip(1), args.skip(1));
        assert(coords_of(rs, f) == seq![(rs[0].start + f / s) as i64] + coords_of(
            rs.skip(1),
            f % s,
        ));
        assert(rs[0].start + f / s == args[0]);
        assert(coords_of(rs, f) =~= args);
    }
}

/// Encoding the tuple a flat index denotes gives the index back.
pub proof fn lemma_flat_index_of_coords(rs: Seq<RangeDecl>, i: int)
    requires
        ranges_wf(rs),
        0 <= i < domain_size(rs),
    ensures
        flat_index(rs, coords_of(rs, i)) == i,
    decreases rs.len(),
{
    if rs.len() > 0 {
        assert(ranges_wf(rs.skip(1)));
        let s = domain_size(rs.skip(1));
        lemma_domain_size_pos(rs.skip(1));
        lemma_div_pos_is_pos(i, s);
        assert(s * rs[0].card() == rs[0].card() * s) by (nonlinear_arith);
        lemma_multiply_divide_lt(i, s, rs[0].card());
        lemma_mod_division_less_than_divisor(i, s);
        lemma_flat_index_of_coords(rs.skip(1), i % s);
        assert(rs[0].wf());
        let c = coords_of(rs, i);
        assert(c[0] == (rs[0].start + i / s) as i64);
        assert(c.skip(1) =~= coords_of(rs.skip(1), i % s));
        assert(rs[0].start <= rs[0].start + i / s <= rs[0].end);
        assert(flat_index(rs, c) == (i / s) * s + (i % s));
        assert((i / s) * s + (i % s) == i) by {
            vstd::arithmetic::div_mod::lemma_fundamental_div_mod(i, s);
        }
    }
}

/// The ordered per-parameter ranges of one precalculated function,
/// together with the total number of table slots.
pub struct Domain {
    pub ranges: Vec<RangeDecl>,
    pub size: usize,
}

impl Domain {
    pub open spec fn wf(self) -> bool {
        &&& ranges_wf(self.ranges@)
        &&& self.size == domain_size(self.ranges@)
    }

    pub open spec fn spec_in_domain(self, args: Seq<i64>) -> bool {
        in_ranges(self.ranges@, args)
    }

    /// Builds the domain from the bound ranges, in parameter order.
    /// Fails exactly when some range is empty or when the number of
    /// table slots does not fit in `usize`.
    pub fn new(ranges: Vec<RangeDecl>) -> (r: Option<Domain>)
        ensures
            r is Some <==> ranges_wf(ranges@) && domain_size(ranges@) <= usize::MAX,
            r matches Some(d) ==> d.wf() && d.ranges@ == ranges@,
    {
        let n = ranges.len();
        let mut j: usize = 0;
        while j < n
            invariant
                j <= n,
                n == ranges@.len(),
                forall|k: int| 0 <= k < j ==> (#[trigger] ranges@[k]).wf(),
            decreases n - j,
        {
            if ranges[j].start > ranges[j].end {
                proof {
                    assert(!ranges@[j as int].wf());
                }
                return None;
            }
            j += 1;
        }
        assert(ranges_wf(ranges@));
        let mut acc: usize = 1;
        let mut j: usize = 0;
        while j < n
            invariant
                j <= n,
                n == ranges@.len(),
                ranges_wf(ranges@),
                acc as int == domain_size(ranges@.take(j as int)),
            decreases n - j,
        {
            let ghost jj = j as int;
            let r = ranges[j];
            proof {
                assert(ranges@.take(jj + 1) =~= ranges@.take(jj).push(ranges@[jj]));
                lemma_domain_size_push(ranges@.take(jj), ranges@[jj]);
                assert(ranges_wf(ranges@.take(jj)));
                lemma_domain_size_pos(ranges@.take(jj));
                assert(ranges@[jj].wf());
            }
            let card: i128 = r.end as i128 - r.start as i128 + 1;
            if card > usize::MAX as i128 {
                proof {
                    assert(domain_size(ranges@.take(jj + 1)) > usize::MAX) by (nonlinear_arith)
                        requires
                            domain_size(ranges@.take(jj + 1)) == domain_size(ranges@.take(jj))
                                * ranges@[jj].card(),
                            domain_size(ranges@.take(jj)) >= 1,
                            ranges@[jj].card() > usize::MAX,
                    ;
                    lemma_domain_size_prefix_le(ranges@, jj + 1);
                }
                return None;
            }
            let c: usize = card as usize;
            acc = match acc.checked_mul(c) {
                Some(v) => v,
                None => {
                    proof {
                        lemma_domain_size_prefix_le(ranges@, jj + 1);
                    }
                    return None;
                },
            };
            j += 1;
        }
        proof {
            assert(ranges@.take(n as int) =~= ranges@);
        }
        Some(Domain { ranges, size: acc })
    }

    /// The conjoined bounds predicate: every argument lies within its
    /// declared range.
    pub fn in_domain(&self, args: &Vec<i64>) -> (b: bool)
        ensures
            b == self.spec_in_domain(args@),
    {
        let n = self.ranges.len();
        if args.len() != n {
            return false;
        }
        let mut j: usize = 0;
        while j < n
            invariant
                j <= n,
                n == self.ranges@.len(),
                args@.len() == n,
                forall|k: int|
                    0 <= k < j ==> (#[trigger] self.ranges@[k]).spec_contains(args@[k]),
            decreases n - j,
        {
            if !self.ranges[j].contains(args[j]) {
                return false;
            }
            j += 1;
        }
        true
    }

    /// The flat table index of an in-range argument tuple, computed by
    /// the mixed-radix accumulation that matches `flat_index`.
    pub fn index_of(&self, args: &Vec<i64>) -> (i: usize)
        requires
            self.wf(),
            self.spec_in_domain(args@),
        ensures
            i as int == flat_index(self.ranges@, args@),
            i < self.size,
    {
        let ghost rs = self.ranges@;
        let ghost f = flat_index(rs, args@);
        proof {
            lemma_flat_index_bounds(rs, args@);
            assert(rs.skip(0) =~= rs);
            assert(args@.skip(0) =~= args@);
        }
        let n = self.ranges.len();
        let mut idx: usize = 0;
        let mut j: usize = 0;
        while j < n
            invariant
                j <= n,
                n == rs.len(),
                rs == self.ranges@,
                args@.len() == n,
                self.wf(),
                in_ranges(rs, args@),
                f == flat_index(rs, args@),
                0 <= f < domain_size(rs),
                domain_size(rs) <= usize::MAX,
                idx as int * domain_size(rs.skip(j as int)) + flat_index(
                    rs.skip(j as int),
                    args@.skip(j as int),
                ) == f,
                idx as int <= f,
            decreases n - j,
        {
            let ghost jj = j as int;
            let ghost tail = rs.skip(jj);
            let ghost s1 = domain_size(rs.skip(jj + 1));
            let r = self.ranges[j];
            proof {
                assert(tail.skip(1) =~= rs.skip(jj + 1));
                assert(tail[0] == rs[jj]);
                assert(rs[jj].wf());
                assert(rs[jj].spec_contains(args@[jj]));
                assert(ranges_wf(rs.skip(jj + 1)));
                assert(in_ranges(rs.skip(jj + 1), args@.skip(jj + 1))) by {
                    assert(args@.skip(jj + 1).len() == rs.skip(jj + 1).len());
                    assert forall|k: int| 0 <= k < rs.skip(jj + 1).len() implies (
                    #[trigger] rs.skip(jj + 1)[k]).spec_contains(args@.skip(jj + 1)[k]) by {
                        assert(rs[jj + 1 + k].spec_contains(args@[jj + 1 + k]));
                    }
                }
                lemma_domain_size_pos(rs.skip(jj + 1));
                lemma_flat_index_bounds(rs.skip(jj + 1), args@.skip(jj + 1));
                assert(args@.skip(jj).skip(1) =~= args@.skip(jj + 1));
                assert(args@.skip(jj)[0] == args@[jj]);
                assert(domain_size(tail) == rs[jj].card() * s1);
                assert(flat_index(tail, args@.skip(jj)) == (args@[jj] - rs[jj].start) * s1
                    + flat_index(rs.skip(jj + 1), args@.skip(jj + 1)));
                assert(rs[jj].card() <= rs[jj].card() * s1) by (nonlinear_arith)
                    requires
                        rs[jj].card() >= 1,
                        s1 >= 1,
                ;
                lemma_domain_size_suffix_le(rs, jj);
            }
            let card_u: usize = (r.end as i128 - r.start as i128 + 1) as usize;
            let off_u: usize = (args[j] as i128 - r.start as i128) as usize;
            proof {
                let off = args@[jj] - r.start;
                let fj1 = flat_index(rs.skip(jj + 1), args@.skip(jj + 1));
                assert(idx as int * (rs[jj].card() * s1) + (off * s1 + fj1) == (idx as int
                    * rs[jj].card() + off) * s1 + fj1) by (nonlinear_arith);
                assert(idx as int * rs[jj].card() + off >= 0) by (nonlinear_arith)
                    requires
                        idx as int >= 0,
                        rs[jj].card() >= 1,
                        off >= 0,
                ;
                assert(idx as int * rs[jj].card() + off <= f) by (nonlinear_arith)
                    requires
                        (idx as int * rs[jj].card() + off) * s1 + fj1 == f,
                        s1 >= 1,
                        fj1 >= 0,
                        idx as int * rs[jj].card() + off >= 0,
                ;
            }
            idx = idx * card_u + off_u;
            j += 1;
        }
        proof {
            assert(rs.skip(n as int) =~= Seq::<RangeDecl>::empty());
            assert(args@.skip(n as int) =~= Seq::<i64>::empty());
        }
        idx
    }

    /// The argument tuple stored at a flat table index: the inverse of
    /// `index_of`, reconstructing each argument as `start + digit`.
    pub fn coords(&self, i: usize) -> (args: Vec<i64>)
        requires
            self.wf(),
            i < self.size,
        ensures
            args@ == coords_of(self.ranges@, i as int),
            self.spec_in_domain(args@),
    {
        let ghost rs = self.ranges@;
        proof {
            lemma_coords_of_in_ranges(rs, i as int);
            assert(rs.skip(0) =~= rs);
        }
        let n = self.ranges.len();
        let mut out: Vec<i64> = Vec::new();
        let mut rem: usize = i;
        let mut rem_size: usize = self.size;
        let mut j: usize = 0;
        while j < n
            invariant
                j <= n,
                n == rs.len(),
                rs == self.ranges@,
                self.wf(),
                rem_size as int == domain_size(rs.skip(j as int)),
                rem < rem_size,
                out@.len() == j,
                coords_of(rs, i as int) == out@ + coords_of(rs.skip(j as int), rem as int),
            decreases n - j,
        {
            let ghost jj = j as int;
            let ghost tail = rs.skip(jj);
            let ghost s1 = domain_size(rs.skip(jj + 1));
            let r = self.ranges[j];
            proof {
                assert(tail.skip(1) =~= rs.skip(jj + 1));
                assert(tail[0] == rs[jj]);
                assert(rs[jj].wf());
                assert(ranges_wf(rs.skip(jj + 1)));
                lemma_domain_size_pos(rs.skip(jj + 1));
                assert(rem_size as int == rs[jj].card() * s1);
                assert(rs[jj].card() <= rs[jj].card() * s1) by (nonlinear_arith)
                    requires
                        rs[jj].card() >= 1,
                        s1 >= 1,
                ;
            }
            let card_u: usize = (r.end as i128 - r.start as i128 + 1) as usize;
            let stride: usize = rem_size / card_u;
            proof {
                lemma_div_multiples_vanish(s1, rs[jj].card());
                assert(stride as int == s1);
                lemma_div_pos_is_pos(rem as int, s1);
                assert(s1 * rs[jj].card() == rs[jj].card() * s1) by (nonlinear_arith);
                lemma_multiply_divide_lt(rem as int, s1, rs[jj].card());
                lemma_mod_division_less_than_divisor(rem as int, s1);
            }
            let c: usize = rem / stride;
            let new_rem: usize = rem % stride;
            let v: i64 = (r.start as i128 + c as i128) as i64;
            proof {
                assert(coords_of(tail, rem as int) == seq![(tail[0].start + rem as int / s1) as i64]
                    + coords_of(tail.skip(1), rem as int % s1));
                assert(v == (rs[jj].start + rem as int / s1) as i64);
                assert((out@ + seq![v]) + coords_of(rs.skip(jj + 1), new_rem as int) =~= out@ + (
                seq![v] + coords_of(rs.skip(jj + 1), new_rem as int)));
            }
            out.push(v);
            rem = new_rem;
            rem_size = stride;
            j += 1;
        }
        proof {
            assert(rs.skip(n as int) =~= Seq::<RangeDecl>::empty());
            assert(out@ + coords_of(rs.skip(n as int), rem as int) =~= out@);
        }
        out
    }
}

} // verus!
