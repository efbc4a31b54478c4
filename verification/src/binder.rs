//! The signature binder: matches each function parameter, in
//! declaration order, to the range declared for its name, and checks
//! that the function declares a return type.
//!
//! A range entry whose key matches no parameter is deliberately
//! tolerated as a silent no-op, while a parameter without a range is
//! an error naming that parameter.

use vstd::prelude::*;

use crate::config::Config;
use crate::config::RangeBinding;
use crate::config::bindings_view;
use crate::config::contains_name;
use crate::config::find_binding;
use crate::config::range_of;

verus! {

/// The binder's errors: a parameter no range was declared for, or a
/// function without an explicit return type.
#[derive(Debug)]
pub enum BindError {
    UnboundParameter { name: String },
    MissingReturnType,
}

/// Whether every parameter name has a binding in the configuration.
pub open spec fn all_params_bound<R>(bs: Seq<(Seq<char>, R)>, params: Seq<String>) -> bool {
    forall|j: int| 0 <= j < params.len() ==> contains_name(bs, #[trigger] params[j]@)
}

/// Binds each parameter to its declared range, in parameter order.
/// The function must have a return type; each parameter must have a
/// range declared under its name; entries for unknown names are
/// ignored. On failure, names the first parameter without a range.
pub fn bind_signature<R: Copy>(
    config: &Config<R>,
    params: &Vec<String>,
    has_return: bool,
) -> (r: Result<Vec<RangeBinding<R>>, BindError>)
    ensures
        r is Ok <==> has_return && all_params_bound(bindings_view(config.bindings@), params@),
        ({
            match r {
                Ok(bs) => bs@.len() == params@.len() && (forall|j: int|
                    0 <= j < params@.len() ==> (#[trigger] bs@[j]).name@ == params@[j]@
                        && bs@[j].range == range_of(bindings_view(config.bindings@), params@[j]@)),
                Err(BindError::MissingReturnType) => !has_return,
                Err(BindError::UnboundParameter { name }) => has_return && (exists|j: int|
                    0 <= j < params@.len() && name@ == #[trigger] params@[j]@ && !contains_name(
                        bindings_view(config.bindings@),
                        params@[j]@,
                    ) && (forall|k: int|
                        0 <= k < j ==> contains_name(
                            bindings_view(config.bindings@),
                            #[trigger] params@[k]@,
                        ))),
            }
        }),
{
    if !has_return {
        return Err(BindError::MissingReturnType);
    }
    let ghost bview = bindings_view(config.bindings@);
    let n = params.len();
    let mut out: Vec<RangeBinding<R>> = Vec::new();
    let mut j: usize = 0;
    while j < n
        invariant
            has_return,
            j <= n,
            n == params@.len(),
            bview == bindings_view(config.bindings@),
            out@.len() == j,
            forall|k: int|
                0 <= k < j ==> (#[trigger] out@[k]).name@ == params@[k]@ && out@[k].range
                    == range_of(bview, params@[k]@),
            forall|k: int| 0 <= k < j ==> contains_name(bview, #[trigger] params@[k]@),
        decreases n - j,
    {
        let name = &params[j];
        match find_binding(&config.bindings, name) {
            Some(i) => {
                proof {
                    assert(bview[i as int].0 == name@);
                    assert forall|k: int| 0 <= k < i implies bview[k].0 != name@ by {
                        assert(config.bindings@[k].name@ != name@);
                    }
                    lemma_range_of_found(bview, i as int, name@);
                }
                let rg = config.bindings[i].range;
                out.push(RangeBinding { name: name.clone(), range: rg });
            },
            None => {
                proof {
                    assert forall|k: int| 0 <= k < bview.len() implies bview[k].0 != name@ by {
                        assert(config.bindings@[k].name@ != name@);
                    }
                    assert(!contains_name(bview, name@));
                    assert(has_return);
                    let jj = j as int;
                    assert(name@ == params@[jj]@);
                    assert(0 <= jj < params@.len() && !contains_name(bview, params@[jj]@) && (
                    forall|k: int| 0 <= k < jj ==> contains_name(bview, #[trigger] params@[k]@)));
                }
                return Err(BindError::UnboundParameter { name: name.clone() });
            },
        }
        j += 1;
    }
    Ok(out)
}

/// The bound ranges alone, in parameter order: what the domain of the
/// table is built from.
pub fn ranges_of_bindings<R: Copy>(bs: &Vec<RangeBinding<R>>) -> (rs: Vec<R>)
    ensures
        rs@.len() == bs@.len(),
        forall|j: int| 0 <= j < bs@.len() ==> rs@[j] == (#[trigger] bs@[j]).range,
{
    let n = bs.len();
    let mut rs: Vec<R> = Vec::new();
    let mut j: usize = 0;
    while j < n
        invariant
            j <= n,
            n == bs@.len(),
            rs@.len() == j,
            forall|k: int| 0 <= k < j ==> rs@[k] == (#[trigger] bs@[k]).range,
        decreases n - j,
    {
        rs.push(bs[j].range);
        j += 1;
    }
    rs
}

/// If slot `i` is the first slot holding name `n`, then `range_of`
/// picks slot `i`'s payload.
proof fn lemma_range_of_found<R>(bs: Seq<(Seq<char>, R)>, i: int, n: Seq<char>)
    requires
        0 <= i < bs.len(),
        bs[i].0 == n,
        forall|k: int| 0 <= k < i ==> bs[k].0 != n,
    ensures
        range_of(bs, n) == bs[i].1,
    decreases i,
{
    if i == 0 {
    } else {
        assert(bs.skip(1)[i - 1] == bs[i]);
        assert forall|k: int| 0 <= k < i - 1 implies bs.skip(1)[k].0 != n by {
            assert(bs[k + 1].0 != n);
        }
        lemma_range_of_found(bs.skip(1), i - 1, n);
    }
}

} // verus!
