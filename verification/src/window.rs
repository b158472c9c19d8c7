//! The time dimension that a rolling window steps through.

use crate::granularity::Granularity;
use crate::granularity::GranularityHelper;
use crate::plan::agree;
use crate::plan::date_range_text;
use crate::plan::finest;
use crate::plan::time_dimensions_among;
use crate::plan::window_key;
use crate::symbol::inner;
use crate::symbol::resolve_reference_chain;
use crate::symbol::MemberSymbol;
use crate::symbol::TimeDimensionSymbol;
use itertools::Itertools;
use std::rc::Rc;
use vstd::prelude::*;

verus! {

/// The first of the time dimensions for each key, in their order.
pub open spec fn first_by_key(dimensions: Seq<Rc<TimeDimensionSymbol>>) -> Seq<
    Rc<TimeDimensionSymbol>,
>
    decreases dimensions.len(),
{
    if dimensions.len() == 0 {
        Seq::empty()
    } else {
        let before = dimensions.drop_last();
        if exists|i: int|
            0 <= i < before.len() && window_key(*#[trigger] before[i]) == window_key(
                *dimensions.last(),
            ) {
            first_by_key(before)
        } else {
            first_by_key(before).push(dimensions.last())
        }
    }
}

/// What the time dimensions of a window have to agree on.
pub fn key_of_window(dimension: &TimeDimensionSymbol) -> (key: (
    String,
    String,
    Option<(String, String)>,
))
    ensures
        (key.0@, key.1@, date_range_text(key.2)) == window_key(*dimension),
{
    (
        dimension.base_symbol.cube_name(),
        dimension.base_symbol.name(),
        match &dimension.date_range {
            Some((from, to)) => Some((from.clone(), to.clone())),
            None => None,
        },
    )
}

/// `itertools::Itertools::unique_by` with the key of a window: of the time dimensions with the
/// same key only the first stays, and the order is kept.
#[verifier::external_body]
fn unique_by_window(dimensions: &Vec<Rc<TimeDimensionSymbol>>) -> (unique: Vec<
    Rc<TimeDimensionSymbol>,
>)
    ensures
        unique@ == first_by_key(dimensions@),
{
    dimensions.iter().unique_by(|d| key_of_window(d)).cloned().collect_vec()
}

/// One dimension for each key is one in all exactly where all agree.
proof fn lemma_one_key(dimensions: Seq<Rc<TimeDimensionSymbol>>)
    requires
        dimensions.len() > 0,
    ensures
        first_by_key(dimensions).len() > 0,
        (first_by_key(dimensions).len() == 1) == agree(dimensions),
    decreases dimensions.len(),
{
    let before = dimensions.drop_last();
    let last = dimensions.last();
    assert forall|i: int| 0 <= i < before.len() implies before[i] == #[trigger] dimensions[i] by {}
    if before.len() == 0 {
        assert(first_by_key(before).len() == 0);
    } else {
        lemma_one_key(before);
        if exists|i: int|
            0 <= i < before.len() && window_key(inner(#[trigger] before[i])) == window_key(
                inner(last),
            ) {
            let k = choose|i: int|
                0 <= i < before.len() && window_key(inner(#[trigger] before[i])) == window_key(
                    inner(last),
                );
            if agree(before) {
                assert forall|i: int, j: int|
                    0 <= i < dimensions.len() && 0 <= j < dimensions.len() implies window_key(
                    *#[trigger] dimensions[i],
                ) == window_key(*#[trigger] dimensions[j]) by {
                    let a = if i < before.len() {
                        i
                    } else {
                        k
                    };
                    let b = if j < before.len() {
                        j
                    } else {
                        k
                    };
                    assert(window_key(inner(before[a])) == window_key(inner(before[b])));
                }
            }
            if agree(dimensions) {
                assert(agree(before));
            }
        } else {
            assert(dimensions[dimensions.len() - 1] == last);
            assert(window_key(inner(before[0])) != window_key(inner(last)));
            assert(dimensions[0] == before[0]);
            assert(!agree(dimensions));
        }
    }
}

/// Whether the time dimensions agree on all but the granularity.
pub fn have_one_key(dimensions: &Vec<Rc<TimeDimensionSymbol>>) -> (result: bool)
    requires
        dimensions@.len() > 0,
    ensures
        result == agree(dimensions@),
{
    proof {
        lemma_one_key(dimensions@);
    }
    unique_by_window(dimensions).len() == 1
}

fn same_granularity(a: Option<Granularity>, b: Option<Granularity>) -> (result: bool)
    ensures
        result == (a == b),
{
    match (a, b) {
        (Some(a), Some(b)) => a == b,
        (None, None) => true,
        _ => false,
    }
}

impl GranularityHelper {
    /// The time dimension of the smallest granularity.
    pub fn find_dimension_with_min_granularity(dimensions: &Vec<Rc<TimeDimensionSymbol>>) -> (result:
        Rc<TimeDimensionSymbol>)
        requires
            dimensions@.len() > 0,
        ensures
            result == finest(dimensions@),
    {
        let mut best: Rc<TimeDimensionSymbol> = dimensions[0].clone();
        let mut i: usize = 1;
        while i < dimensions.len()
            invariant
                1 <= i <= dimensions@.len(),
                best == finest(dimensions@.take(i as int)),
            decreases dimensions@.len() - i,
        {
            assert(dimensions@.take(i + 1).drop_last() == dimensions@.take(i as int));
            let granularity = best.resolved_granularity();
            let other = dimensions[i].resolved_granularity();
            let smallest = GranularityHelper::min_granularity(granularity, other);
            if !same_granularity(smallest, granularity) {
                best = dimensions[i].clone();
            }
            i += 1;
        }
        assert(dimensions@.take(i as int) == dimensions@);
        best
    }
}

/// Adds the time dimensions that members are, or refer to.
pub fn append_time_dimensions(
    list: &mut Vec<Rc<TimeDimensionSymbol>>,
    members: &Vec<Rc<MemberSymbol>>,
)
    ensures
        final(list)@ == old(list)@ + time_dimensions_among(members@),
{
    let mut i: usize = 0;
    while i < members.len()
        invariant
            i <= members@.len(),
            list@ == old(list)@ + time_dimensions_among(members@.take(i as int)),
        decreases members@.len() - i,
    {
        assert(members@.take(i + 1).drop_last() == members@.take(i as int));
        let member = resolve_reference_chain(&members[i]);
        match &*member {
            MemberSymbol::TimeDimension(dimension) => {
                list.push(dimension.clone());
            },
            _ => {},
        }
        i += 1;
    }
    assert(members@.take(i as int) == members@);
}

} // verus!
