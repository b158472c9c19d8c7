//! Filter directives of multi-stage members.

use crate::plan::all_match_names;
use crate::plan::directed;
use crate::plan::directive_excluded;
use crate::plan::directive_kept;
use crate::plan::filter_directive;
use crate::plan::match_names;
use crate::query_properties::QueryProperties;
use crate::symbol::MemberSymbol;
use crate::symbol::MultiStageFilter;
use crate::symbol::MultiStageProperties;
use crate::text::strip_prefix;
use crate::text::texts;
use std::rc::Rc;
use vstd::prelude::*;

verus! {

fn filter_of(multi_stage: &Option<Rc<MultiStageProperties>>) -> (filter: Option<
    Rc<MultiStageFilter>,
>)
    ensures
        filter == (match *multi_stage {
            Some(multi_stage) => multi_stage.filter,
            None => None,
        }),
{
    match multi_stage {
        Some(multi_stage) => match &multi_stage.filter {
            Some(filter) => Some(filter.clone()),
            None => None,
        },
        None => None,
    }
}

/// The filter directive of a member.
pub fn multi_stage_filter_directive(member: &Rc<MemberSymbol>) -> (filter: Option<
    Rc<MultiStageFilter>,
>)
    ensures
        filter == filter_directive(**member),
{
    match &**member {
        MemberSymbol::Measure(measure) => filter_of(&measure.multi_stage),
        MemberSymbol::Dimension(dimension) => filter_of(&dimension.multi_stage),
        _ => None,
    }
}

/// The names by which a directive reaches a member. A segment that is listed in a directive is an
/// expression of the query, whose name starts with `expr:`; filters know the segment by the rest.
pub fn filter_directive_match_names(symbol: &Rc<MemberSymbol>) -> (names: Vec<String>)
    ensures
        texts(names@) == match_names(**symbol),
{
    let full = symbol.full_name();
    let mut names: Vec<String> = Vec::new();
    match strip_prefix(full.as_str(), "expr:") {
        Some(stripped) => {
            let stripped = stripped.to_string();
            assert(full@.take("expr:"@.len() as int) == "expr:"@);
            assert(full@.skip("expr:"@.len() as int) == stripped@);
            names.push(full.clone());
            names.push(stripped);
        },
        None => {
            names.push(full.clone());
        },
    }
    assert(texts(names@) == match_names(**symbol));
    names
}

/// The names by which a directive reaches members.
fn match_names_of(members: &Vec<Rc<MemberSymbol>>) -> (names: Vec<String>)
    ensures
        texts(names@) == all_match_names(members@),
{
    let mut names: Vec<String> = Vec::new();
    let mut i: usize = 0;
    while i < members.len()
        invariant
            i <= members@.len(),
            texts(names@) == all_match_names(members@.take(i as int)),
        decreases members@.len() - i,
    {
        assert(members@.take(i + 1).drop_last() == members@.take(i as int));
        let ghost before = names@;
        let mut more = filter_directive_match_names(&members[i]);
        let ghost added = more@;
        names.append(&mut more);
        assert(texts(names@) == texts(before) + texts(added));
        i += 1;
    }
    assert(members@.take(i as int) == members@);
    names
}

/// Applies a directive to a state.
pub fn apply_filter_directive_to_state(filter: &MultiStageFilter, state: &mut QueryProperties)
    ensures
        final(state)@ == directed(*filter, old(state)@),
{
    if let Some(exclude) = &filter.exclude {
        let names = match_names_of(exclude);
        state.remove_filters_for_members(names);
    }
    assert(state@ == directive_excluded(*filter, old(state)@));
    if let Some(keep_only) = &filter.keep_only {
        let names = match_names_of(keep_only);
        state.keep_only_filters_for_members(names);
    }
    assert(state@ == directive_kept(*filter, directive_excluded(*filter, old(state)@)));
    if filter.include_dimension.len() > 0 {
        state.add_dimension_filters(&filter.include_dimension);
    }
    if filter.include_time_dimension.len() > 0 {
        state.add_time_dimension_filters(&filter.include_time_dimension);
    }
    if filter.include_measure.len() > 0 {
        state.add_measure_filters(&filter.include_measure);
    }
    assert(state@ =~= directed(*filter, old(state)@));
}

} // verus!
