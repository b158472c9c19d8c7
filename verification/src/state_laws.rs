//! Laws of states: what reaches a stage, and what a step of planning leaves as it is.

use crate::filter::FilterGroupOperator;
use crate::filter::FilterOperator;
use crate::filter::FilterType;
use crate::filter::FilterView;
use crate::filter::filter_views;
use crate::filter::optional_text;
use crate::filter_edit::FilterEditView;
use crate::filter_edit::edited;
use crate::filter_edit::edited_filter;
use crate::filter_laws::PlacedLeaf;
use crate::filter_laws::all_say_the_same;
use crate::filter_laws::becomes;
use crate::filter_laws::changes_reach_filters_one_by_one;
use crate::filter_laws::excluding_leaves_other_conditions_alone;
use crate::filter_laws::filter_keys_tell_lists_apart;
use crate::filter_laws::filters_mention_the_members_of_conditions;
use crate::filter_laws::has_condition_on;
use crate::filter_laws::has_empty_group;
use crate::filter_laws::has_opened;
use crate::filter_laws::is_condition_on;
use crate::filter_laws::is_named;
use crate::filter_laws::is_range;
use crate::filter_laws::item_leaves;
use crate::filter_laws::keeping_leaves_named_conditions_alone;
use crate::filter_laws::leaf_name;
use crate::filter_laws::leaf_values;
use crate::filter_laws::leaves;
use crate::filter_laws::leaves_below;
use crate::filter_laws::lemma_condition_add;
use crate::filter_laws::lemma_leaves_add;
use crate::filter_laws::lemma_spared_list;
use crate::filter_laws::names_alone_decide;
use crate::filter_laws::opening_changes_date_ranges_only;
use crate::filter_laws::replacing_changes_date_ranges_only;
use crate::filter_laws::spares;
use crate::granularity::TimeGranularity;
use crate::laws::directives_reach_names_with_and_without_prefix;
use crate::laws::inputs_have_no_condition_on_the_member;
use crate::laws::passes;
use crate::laws::reaches;
use crate::plan::PlannerView;
use crate::plan::all_match_names;
use crate::plan::base_granularity;
use crate::plan::base_time_dimension;
use crate::plan::date_ranges_opened;
use crate::plan::directed;
use crate::plan::directed_state;
use crate::plan::entry_state;
use crate::plan::filter_directive;
use crate::plan::input_dimensions;
use crate::plan::input_state;
use crate::plan::multi_stage_members;
use crate::plan::planned_member;
use crate::plan::planned_state;
use crate::plan::resolved_with;
use crate::plan::rolling_base_state;
use crate::plan::root_state;
use crate::plan::unstepped_state;
use crate::query_properties::QueryProperties;
use crate::query_properties::QueryPropertiesView;
use crate::query_properties::filter_members;
use crate::query_properties::is_unbounded;
use crate::query_properties::is_unresolved;
use crate::query_properties::item_members;
use crate::query_properties::time_shift_key;
use crate::query_properties::time_shift_keys;
use crate::query_properties::unique_by_name;
use crate::switch::SwitchEntry;
use crate::symbol::DimensionSymbol;
use crate::symbol::DimensionTimeShift;
use crate::symbol::MeasureSymbol;
use crate::symbol::MeasureTimeShifts;
use crate::symbol::MemberSymbol;
use crate::symbol::MultiStageFilter;
use crate::symbol::MultiStageProperties;
use crate::symbol::RollingWindow;
use crate::symbol::TimeDimensionSymbol;
use crate::symbol::case_of;
use crate::symbol::full_name;
use crate::symbol::full_names;
use crate::symbol::has_multi_stage;
use crate::symbol::inner;
use crate::symbol::resolved;
use crate::symbol::resolved_granularity;
use crate::symbol_laws::filters_prune_cases_only;
use crate::symbol_laws::is_pruned;
use std::rc::Rc;
use vstd::prelude::*;

verus! {

// ---------------------------------------------------------------------------------------------
// Sameness
// ---------------------------------------------------------------------------------------------

/// Whether two time shifts mean the same: by the same interval, under the same name, or dimension
/// by dimension by the same intervals.
pub open spec fn shift_alike(a: MeasureTimeShifts, b: MeasureTimeShifts) -> bool {
    match (a, b) {
        (MeasureTimeShifts::Common(a), MeasureTimeShifts::Common(b)) => a@ == b@,
        (MeasureTimeShifts::Named(a), MeasureTimeShifts::Named(b)) => a@ == b@,
        (MeasureTimeShifts::Dimensions(a), MeasureTimeShifts::Dimensions(b)) => {
            &&& a@.len() == b@.len()
            &&& forall|i: int|
                0 <= i < a@.len() ==> full_name(*(#[trigger] a@[i]).dimension) == full_name(
                    *b@[i].dimension,
                ) && a@[i].interval@ == b@[i].interval@
        },
        _ => false,
    }
}

/// Whether two lists of members have the same names, one by one.
pub open spec fn named_alike(a: Seq<Rc<MemberSymbol>>, b: Seq<Rc<MemberSymbol>>) -> bool {
    &&& a.len() == b.len()
    &&& forall|i: int| 0 <= i < a.len() ==> full_name(*#[trigger] a[i]) == full_name(*b[i])
}

/// Whether two states read the same rows and group them alike.
pub open spec fn read_alike(a: QueryPropertiesView, b: QueryPropertiesView) -> bool {
    &&& named_alike(a.dimensions, b.dimensions)
    &&& named_alike(a.time_dimensions, b.time_dimensions)
    &&& all_say_the_same(a.dimensions_filters, b.dimensions_filters)
    &&& all_say_the_same(a.time_dimensions_filters, b.time_dimensions_filters)
    &&& all_say_the_same(a.measures_filters, b.measures_filters)
    &&& all_say_the_same(a.segments, b.segments)
    &&& a.time_shifts.len() == b.time_shifts.len()
    &&& forall|i: int|
        0 <= i < a.time_shifts.len() ==> shift_alike(#[trigger] a.time_shifts[i], b.time_shifts[i])
}

proof fn lemma_named_alike(a: Seq<Rc<MemberSymbol>>, b: Seq<Rc<MemberSymbol>>)
    ensures
        (full_names(a) == full_names(b)) == named_alike(a, b),
{
    let a_names = full_names(a);
    let b_names = full_names(b);
    assert(a_names.len() == a.len() && b_names.len() == b.len());
    if named_alike(a, b) {
        assert forall|i: int| 0 <= i < a_names.len() implies a_names[i] == b_names[i] by {
            assert(full_name(inner(a[i])) == full_name(inner(b[i])));
        }
        assert(a_names == b_names);
    }
    if a_names == b_names {
        assert forall|i: int| 0 <= i < a.len() implies full_name(*#[trigger] a[i]) == full_name(
            *b[i],
        ) by {
            assert(a_names[i] == b_names[i]);
        }
    }
}

proof fn lemma_shift_alike(a: MeasureTimeShifts, b: MeasureTimeShifts)
    ensures
        (time_shift_key(a) == time_shift_key(b)) == shift_alike(a, b),
{
    if let (MeasureTimeShifts::Dimensions(x), MeasureTimeShifts::Dimensions(y)) = (a, b) {
        let keys = |s: DimensionTimeShift| (full_name(*s.dimension), s.interval@);
        let xs = inner(x)@.map_values(keys);
        let ys = inner(y)@.map_values(keys);
        if shift_alike(a, b) {
            assert(xs =~= ys);
        }
        if xs == ys {
            assert(xs.len() == ys.len());
            assert forall|i: int| 0 <= i < inner(x)@.len() implies full_name(
                *(#[trigger] inner(x)@[i]).dimension,
            ) == full_name(*inner(y)@[i].dimension) && inner(x)@[i].interval@
                == inner(y)@[i].interval@ by {
                assert(xs[i] == ys[i]);
            }
        }
    }
}

/// States are taken for the same if and only if they read the same rows and group them alike:
/// dimensions, time dimensions, all filters, segments and time shifts agree one by one. So a stage
/// is used again for such states, and for no others.
pub proof fn states_are_the_same_if_they_read_alike(a: QueryPropertiesView, b: QueryPropertiesView)
    ensures
        (a.key() == b.key()) == read_alike(a, b),
{
    lemma_named_alike(a.dimensions, b.dimensions);
    lemma_named_alike(a.time_dimensions, b.time_dimensions);
    filter_keys_tell_lists_apart(a.dimensions_filters, b.dimensions_filters);
    filter_keys_tell_lists_apart(a.time_dimensions_filters, b.time_dimensions_filters);
    filter_keys_tell_lists_apart(a.measures_filters, b.measures_filters);
    filter_keys_tell_lists_apart(a.segments, b.segments);
    let x = time_shift_keys(a.time_shifts);
    let y = time_shift_keys(b.time_shifts);
    assert(x.len() == a.time_shifts.len() && y.len() == b.time_shifts.len());
    assert forall|i: int| 0 <= i < a.time_shifts.len() && i < b.time_shifts.len() implies (x[i]
        == y[i]) == shift_alike(#[trigger] a.time_shifts[i], b.time_shifts[i]) by {
        lemma_shift_alike(a.time_shifts[i], b.time_shifts[i]);
    }
    if read_alike(a, b) {
        assert forall|i: int| 0 <= i < x.len() implies x[i] == y[i] by {
            assert(shift_alike(a.time_shifts[i], b.time_shifts[i]));
        }
        assert(x == y);
    }
    if a.key() == b.key() {
        assert(x == y);
        assert forall|i: int| 0 <= i < a.time_shifts.len() implies shift_alike(
            #[trigger] a.time_shifts[i],
            b.time_shifts[i],
        ) by {
            assert(x[i] == y[i]);
        }
    }
}

/// The content of a state is all that it holds.
pub proof fn content_of_a_state_is_all_of_it(a: QueryProperties, b: QueryProperties)
    requires
        a@ == b@,
    ensures
        a.query_tools == b.query_tools,
        a.measures@ == b.measures@,
        a.dimensions@ == b.dimensions@,
        a.time_dimensions@ == b.time_dimensions@,
        filter_views(a.dimensions_filters@) == filter_views(b.dimensions_filters@),
        filter_views(a.time_dimensions_filters@) == filter_views(b.time_dimensions_filters@),
        filter_views(a.measures_filters@) == filter_views(b.measures_filters@),
        filter_views(a.segments@) == filter_views(b.segments@),
        a.time_shifts@ == b.time_shifts@,
        a.order_by@ == b.order_by@,
        a.ungrouped == b.ungrouped,
{
}

// ---------------------------------------------------------------------------------------------
// The query
// ---------------------------------------------------------------------------------------------

/// Stages start with the dimensions, the conditions on them and on time, and the segments of the
/// query. They start without measures, conditions on measures, time shifts and order.
pub proof fn stages_start_with_the_query(planner: PlannerView)
    ensures
        root_state(planner).query_tools == planner.query_tools,
        root_state(planner).dimensions == planner.query.dimensions,
        root_state(planner).time_dimensions == planner.query.time_dimensions,
        root_state(planner).dimensions_filters == planner.query.dimensions_filters,
        root_state(planner).time_dimensions_filters == planner.query.time_dimensions_filters,
        root_state(planner).segments == planner.query.segments,
        root_state(planner).measures.len() == 0,
        root_state(planner).measures_filters.len() == 0,
        root_state(planner).time_shifts.len() == 0,
        root_state(planner).order_by.len() == 0,
        !root_state(planner).ungrouped,
{
}

// ---------------------------------------------------------------------------------------------
// Directives
// ---------------------------------------------------------------------------------------------

proof fn lemma_filter_twice(
    all: Seq<PlacedLeaf>,
    first: spec_fn(PlacedLeaf) -> bool,
    second: spec_fn(PlacedLeaf) -> bool,
    both: spec_fn(PlacedLeaf) -> bool,
)
    requires
        forall|l: PlacedLeaf| #[trigger] both(l) == (first(l) && second(l)),
    ensures
        all.filter(first).filter(second) == all.filter(both),
    decreases all.len(),
{
    reveal(Seq::filter);
    if all.len() > 0 {
        lemma_filter_twice(all.drop_last(), first, second, both);
        let rest = all.drop_last().filter(first);
        let last = all.last();
        assert(both(last) == (first(last) && second(last)));
        if first(last) {
            assert(rest.push(last).drop_last() == rest);
        }
    }
}

proof fn lemma_filter_all(all: Seq<PlacedLeaf>, keep: spec_fn(PlacedLeaf) -> bool)
    requires
        forall|l: PlacedLeaf| #[trigger] keep(l),
    ensures
        all.filter(keep) == all,
    decreases all.len(),
{
    reveal(Seq::filter);
    if all.len() > 0 {
        lemma_filter_all(all.drop_last(), keep);
        assert(all.drop_last().push(all.last()) == all);
        assert(keep(all.last()));
    }
}

/// What a directive makes of one list of filters, before it adds to it.
spec fn directive_rest(filter: MultiStageFilter, filters: Seq<FilterView>) -> Seq<FilterView> {
    let excluded = match filter.exclude {
        Some(members) => edited(FilterEditView::Exclude(all_match_names(members@)), filters),
        None => filters,
    };
    match filter.keep_only {
        Some(members) => edited(FilterEditView::KeepOnly(all_match_names(members@)), excluded),
        None => excluded,
    }
}

proof fn lemma_directive_leaves(filter: MultiStageFilter, filters: Seq<FilterView>)
    ensures
        leaves(directive_rest(filter, filters)) == leaves(filters).filter(
            |l: PlacedLeaf| passes(filter, leaf_name(l)),
        ),
{
    let excluded = match filter.exclude {
        Some(members) => edited(FilterEditView::Exclude(all_match_names(members@)), filters),
        None => filters,
    };
    let not_excluded = |l: PlacedLeaf|
        filter.exclude is Some ==> !all_match_names((filter.exclude->0)@).contains(leaf_name(l));
    let kept = |l: PlacedLeaf|
        filter.keep_only is Some ==> all_match_names((filter.keep_only->0)@).contains(leaf_name(l));
    let both = |l: PlacedLeaf| passes(filter, leaf_name(l));
    assert forall|l: PlacedLeaf| #[trigger] both(l) == (not_excluded(l) && kept(l)) by {
        if filter.exclude is Some {
            directives_reach_names_with_and_without_prefix(
                (filter.exclude->0)@,
                leaf_name(l),
            );
        }
        if filter.keep_only is Some {
            directives_reach_names_with_and_without_prefix(
                (filter.keep_only->0)@,
                leaf_name(l),
            );
        }
    }
    match filter.exclude {
        Some(members) => {
            let names = all_match_names(members@);
            excluding_leaves_other_conditions_alone(names, filters);
            let plain = |l: PlacedLeaf| !names.contains(leaf_name(l));
            assert(plain =~= not_excluded);
        },
        None => {
            lemma_filter_all(leaves(filters), not_excluded);
        },
    }
    match filter.keep_only {
        Some(members) => {
            let names = all_match_names(members@);
            keeping_leaves_named_conditions_alone(names, excluded);
            let plain = |l: PlacedLeaf| names.contains(leaf_name(l));
            assert(plain =~= kept);
        },
        None => {
            lemma_filter_all(leaves(excluded), kept);
        },
    }
    lemma_filter_twice(leaves(filters), not_excluded, kept, both);
}

/// After a directive, the conditions and segments are those that pass it, the same ones in the same
/// order and under the same operators, and behind them all that it adds.
pub proof fn directives_leave_what_passes_alone(
    filter: MultiStageFilter,
    state: QueryPropertiesView,
)
    ensures
        ({
            let after = directed(filter, state);
            let keep = |l: PlacedLeaf| passes(filter, leaf_name(l));
            &&& leaves(after.dimensions_filters) == leaves(state.dimensions_filters).filter(keep)
                + leaves(filter_views(filter.include_dimension@))
            &&& leaves(after.time_dimensions_filters) == leaves(
                state.time_dimensions_filters,
            ).filter(keep) + leaves(filter_views(filter.include_time_dimension@))
            &&& leaves(after.measures_filters) == leaves(state.measures_filters).filter(keep)
                + leaves(filter_views(filter.include_measure@))
            &&& leaves(after.segments) == leaves(state.segments).filter(keep)
        }),
{
    lemma_directive_leaves(filter, state.dimensions_filters);
    lemma_directive_leaves(filter, state.time_dimensions_filters);
    lemma_directive_leaves(filter, state.measures_filters);
    lemma_directive_leaves(filter, state.segments);
    lemma_leaves_add(
        directive_rest(filter, state.dimensions_filters),
        filter_views(filter.include_dimension@),
        Seq::empty(),
    );
    lemma_leaves_add(
        directive_rest(filter, state.time_dimensions_filters),
        filter_views(filter.include_time_dimension@),
        Seq::empty(),
    );
    lemma_leaves_add(
        directive_rest(filter, state.measures_filters),
        filter_views(filter.include_measure@),
        Seq::empty(),
    );
}

/// Whether a directive has no reason to change a filter.
pub open spec fn passes_whole(filter: MultiStageFilter, item: FilterView) -> bool {
    !has_empty_group(item) && is_named(item, |name: Seq<char>| passes(filter, name))
}

proof fn lemma_named_implies(
    item: FilterView,
    first: spec_fn(Seq<char>) -> bool,
    second: spec_fn(Seq<char>) -> bool,
)
    requires
        is_named(item, first),
        forall|name: Seq<char>| #[trigger] first(name) ==> second(name),
    ensures
        is_named(item, second),
    decreases item,
{
    match item {
        FilterView::Group { operator, items } => {
            assert forall|i: int| 0 <= i < items.len() implies is_named(
                #[trigger] items[i],
                second,
            ) by {
                assert(is_named(items[i], first));
                lemma_named_implies(items[i], first, second);
            }
        },
        FilterView::Item(item) => {
            assert(first(full_name(inner(item.member))));
        },
        FilterView::Segment(name) => {
            assert(first(name));
        },
    }
}

proof fn lemma_whole_list(filter: MultiStageFilter, filters: Seq<FilterView>)
    requires
        forall|i: int| 0 <= i < filters.len() ==> passes_whole(filter, #[trigger] filters[i]),
    ensures
        directive_rest(filter, filters) == filters,
{
    let first = |name: Seq<char>| passes(filter, name);
    if let Some(members) = filter.exclude {
        let edit = FilterEditView::Exclude(all_match_names(members@));
        let second = |name: Seq<char>| spares(edit, name);
        assert forall|name: Seq<char>| #[trigger] first(name) implies second(name) by {
            directives_reach_names_with_and_without_prefix(members@, name);
        }
        assert forall|i: int| 0 <= i < filters.len() implies !has_empty_group(
            #[trigger] filters[i],
        ) && is_named(filters[i], second) by {
            assert(passes_whole(filter, filters[i]));
            lemma_named_implies(filters[i], first, second);
        }
        lemma_spared_list(edit, filters);
    }
    if let Some(members) = filter.keep_only {
        let edit = FilterEditView::KeepOnly(all_match_names(members@));
        let second = |name: Seq<char>| spares(edit, name);
        assert forall|name: Seq<char>| #[trigger] first(name) implies second(name) by {
            directives_reach_names_with_and_without_prefix(members@, name);
        }
        assert forall|i: int| 0 <= i < filters.len() implies !has_empty_group(
            #[trigger] filters[i],
        ) && is_named(filters[i], second) by {
            assert(passes_whole(filter, filters[i]));
            lemma_named_implies(filters[i], first, second);
        }
        lemma_spared_list(edit, filters);
    }
}

/// Filters that a directive has no reason to change stay as they are, groups and all, and what it
/// adds comes behind them.
pub proof fn directives_leave_unnamed_filters_alone(
    filter: MultiStageFilter,
    state: QueryPropertiesView,
)
    ensures
        ({
            let after = directed(filter, state);
            &&& (forall|i: int|
                0 <= i < state.dimensions_filters.len() ==> passes_whole(
                    filter,
                    #[trigger] state.dimensions_filters[i],
                )) ==> after.dimensions_filters == state.dimensions_filters + filter_views(
                filter.include_dimension@,
            )
            &&& (forall|i: int|
                0 <= i < state.time_dimensions_filters.len() ==> passes_whole(
                    filter,
                    #[trigger] state.time_dimensions_filters[i],
                )) ==> after.time_dimensions_filters == state.time_dimensions_filters
                + filter_views(filter.include_time_dimension@)
            &&& (forall|i: int|
                0 <= i < state.measures_filters.len() ==> passes_whole(
                    filter,
                    #[trigger] state.measures_filters[i],
                )) ==> after.measures_filters == state.measures_filters + filter_views(
                filter.include_measure@,
            )
            &&& (forall|i: int|
                0 <= i < state.segments.len() ==> passes_whole(
                    filter,
                    #[trigger] state.segments[i],
                )) ==> after.segments == state.segments
        }),
{
    if forall|i: int|
        0 <= i < state.dimensions_filters.len() ==> passes_whole(
            filter,
            #[trigger] state.dimensions_filters[i],
        ) {
        lemma_whole_list(filter, state.dimensions_filters);
    }
    if forall|i: int|
        0 <= i < state.time_dimensions_filters.len() ==> passes_whole(
            filter,
            #[trigger] state.time_dimensions_filters[i],
        ) {
        lemma_whole_list(filter, state.time_dimensions_filters);
    }
    if forall|i: int|
        0 <= i < state.measures_filters.len() ==> passes_whole(
            filter,
            #[trigger] state.measures_filters[i],
        ) {
        lemma_whole_list(filter, state.measures_filters);
    }
    if forall|i: int|
        0 <= i < state.segments.len() ==> passes_whole(filter, #[trigger] state.segments[i]) {
        lemma_whole_list(filter, state.segments);
    }
}

/// The same directive applied to filters one after another gives what it gives for all of them: it
/// changes each by itself.
pub proof fn directives_reach_filters_one_by_one(
    filter: MultiStageFilter,
    state: QueryPropertiesView,
    more: Seq<FilterView>,
)
    requires
        filter.include_dimension@.len() == 0,
    ensures
        ({
            let longer = QueryPropertiesView {
                dimensions_filters: state.dimensions_filters + more,
                ..state
            };
            let other = QueryPropertiesView { dimensions_filters: more, ..state };
            directed(filter, longer).dimensions_filters == directed(
                filter,
                state,
            ).dimensions_filters + directed(filter, other).dimensions_filters
        }),
{
    let first = state.dimensions_filters;
    let none = filter_views(filter.include_dimension@);
    assert(none == Seq::<FilterView>::empty());
    let mut a = first;
    let mut b = more;
    if let Some(members) = filter.exclude {
        let edit = FilterEditView::Exclude(all_match_names(members@));
        changes_reach_filters_one_by_one(edit, a, b);
        a = edited(edit, a);
        b = edited(edit, b);
    }
    if let Some(members) = filter.keep_only {
        let edit = FilterEditView::KeepOnly(all_match_names(members@));
        changes_reach_filters_one_by_one(edit, a, b);
        a = edited(edit, a);
        b = edited(edit, b);
    }
    assert(a + none == a && b + none == b);
    assert((a + b) + none == a + b);
}

// ---------------------------------------------------------------------------------------------
// Inputs
// ---------------------------------------------------------------------------------------------

/// The multi-stage properties that a measure has, if it is one.
pub open spec fn measure_properties(member: MemberSymbol) -> Option<MultiStageProperties> {
    match member {
        MemberSymbol::Measure(measure) => match measure.multi_stage {
            Some(properties) => Some(*properties),
            None => None,
        },
        _ => None,
    }
}

/// Inputs are shifted in time by what the state they start from is shifted by, and then by the
/// shift of the measure, of whatever kind, if it has one.
pub proof fn inputs_are_shifted_by_the_measure(
    planner: PlannerView,
    member: MemberSymbol,
    state: QueryPropertiesView,
)
    ensures
        ({
            let start = directed_state(planner, member, state).time_shifts;
            let shifts = input_state(planner, member, state).time_shifts;
            match measure_properties(member) {
                Some(properties) => match properties.time_shift {
                    Some(shift) => shifts == start.push(shift),
                    None => shifts == start,
                },
                None => shifts == start,
            }
        }),
{
}

/// Inputs keep all of the state they start from that the member does not speak of.
pub proof fn inputs_keep_the_rest_of_the_state(
    planner: PlannerView,
    member: MemberSymbol,
    state: QueryPropertiesView,
)
    ensures
        ({
            let start = directed_state(planner, member, state);
            let inputs = input_state(planner, member, state);
            &&& inputs.query_tools == start.query_tools
            &&& inputs.measures == start.measures
            &&& inputs.time_dimensions == start.time_dimensions
            &&& inputs.segments == start.segments
            &&& inputs.order_by == start.order_by
            &&& inputs.ungrouped == start.ungrouped
        }),
{
}

/// Inputs have all conditions of the state they start from that are not on the member itself: the
/// same ones, in the same order, under the same operators. Where there are none on the member, the
/// filters are the same.
pub proof fn inputs_keep_conditions_on_other_members(
    planner: PlannerView,
    member: MemberSymbol,
    state: QueryPropertiesView,
)
    ensures
        ({
            let start = directed_state(planner, member, state);
            let inputs = input_state(planner, member, state);
            let other = |l: PlacedLeaf| leaf_name(l) != full_name(member);
            if start.has_filters_for(full_name(member)) {
                &&& leaves(inputs.dimensions_filters) == leaves(start.dimensions_filters).filter(
                    other,
                )
                &&& leaves(inputs.time_dimensions_filters) == leaves(
                    start.time_dimensions_filters,
                ).filter(other)
                &&& leaves(inputs.measures_filters) == leaves(start.measures_filters).filter(other)
            } else {
                &&& inputs.dimensions_filters == start.dimensions_filters
                &&& inputs.time_dimensions_filters == start.time_dimensions_filters
                &&& inputs.measures_filters == start.measures_filters
            }
        }),
{
    let start = directed_state(planner, member, state);
    let name = full_name(member);
    let names = seq![name];
    let plain = |l: PlacedLeaf| !names.contains(leaf_name(l));
    let other = |l: PlacedLeaf| leaf_name(l) != name;
    assert forall|l: PlacedLeaf| #[trigger] plain(l) == other(l) by {
        assert(names[0] == name);
        if names.contains(leaf_name(l)) {
            let i = choose|i: int| 0 <= i < names.len() && names[i] == leaf_name(l);
            assert(i == 0);
        }
    }
    assert(plain =~= other);
    excluding_leaves_other_conditions_alone(names, start.dimensions_filters);
    excluding_leaves_other_conditions_alone(names, start.time_dimensions_filters);
    excluding_leaves_other_conditions_alone(names, start.measures_filters);
}

/// A state has filters for a member exactly where a condition on the member stands among its
/// filters on dimensions, on time or on measures, at any depth.
pub proof fn states_have_filters_for_the_members_of_conditions(
    state: QueryPropertiesView,
    member: Seq<char>,
)
    ensures
        state.has_filters_for(member) == (has_condition_on(
            leaves(state.dimensions_filters),
            member,
        ) || has_condition_on(leaves(state.time_dimensions_filters), member) || has_condition_on(
            leaves(state.measures_filters),
            member,
        )),
{
    filters_mention_the_members_of_conditions(state.dimensions_filters, member);
    filters_mention_the_members_of_conditions(state.time_dimensions_filters, member);
    filters_mention_the_members_of_conditions(state.measures_filters, member);
}

/// No condition on a member reaches its inputs, at any depth.
pub proof fn conditions_on_the_member_do_not_reach_its_inputs(
    planner: PlannerView,
    member: MemberSymbol,
    state: QueryPropertiesView,
)
    ensures
        ({
            let inputs = input_state(planner, member, state);
            let name = full_name(member);
            &&& !has_condition_on(leaves(inputs.dimensions_filters), name)
            &&& !has_condition_on(leaves(inputs.time_dimensions_filters), name)
            &&& !has_condition_on(leaves(inputs.measures_filters), name)
        }),
{
    inputs_have_no_condition_on_the_member(planner, member, state);
    states_have_filters_for_the_members_of_conditions(
        input_state(planner, member, state),
        full_name(member),
    );
}

/// The directive of a member is that of its multi-stage properties.
pub proof fn directives_are_those_of_the_definition(member: MemberSymbol)
    ensures
        filter_directive(member) == match member {
            MemberSymbol::Measure(m) => if m.multi_stage is Some {
                m.multi_stage->0.filter
            } else {
                None
            },
            MemberSymbol::Dimension(d) => if d.multi_stage is Some {
                d.multi_stage->0.filter
            } else {
                None
            },
            _ => None,
        },
{
}

/// Beginning the stage of a member takes up its name, at the end of its references, unless it is a
/// measure, and no other name.
pub proof fn members_take_up_their_own_name(
    member: MemberSymbol,
    names: Set<Seq<char>>,
    name: Seq<char>,
)
    ensures
        resolved_with(member, names).contains(name) == (names.contains(name) || (!(member is Measure)
            && name == full_name(resolved(member)))),
{
}

/// The dimensions that a member adds to the state of its inputs are those of its definition, and
/// the dimension that it switches on.
pub proof fn added_dimensions_are_those_of_the_definition(member: MemberSymbol)
    ensures
        ({
            let listed = match member {
                MemberSymbol::Measure(measure) => if measure.multi_stage is Some {
                    measure.multi_stage->0.add_group_by
                } else {
                    None
                },
                MemberSymbol::Dimension(dimension) => if dimension.multi_stage is Some {
                    dimension.multi_stage->0.add_group_by
                } else {
                    None
                },
                _ => None,
            };
            let own = if listed is Some {
                (listed->0)@
            } else {
                Seq::empty()
            };
            if case_of(member) is Some && case_of(member)->0 is CaseSwitch
                && case_of(member)->0->CaseSwitch_0.switch is Member {
                input_dimensions(member) == own.push(
                    case_of(member)->0->CaseSwitch_0.switch->Member_0,
                )
            } else {
                input_dimensions(member) == own
            }
        }),
{
}

/// Whether a member is the first of its name in a list.
pub open spec fn is_first_of_name(members: Seq<Rc<MemberSymbol>>, i: int) -> bool {
    &&& 0 <= i < members.len()
    &&& forall|j: int| 0 <= j < i ==> full_name(*#[trigger] members[j]) != full_name(*members[i])
}

/// The places of the members that are first of their names, in order.
pub open spec fn first_places(members: Seq<Rc<MemberSymbol>>, n: nat) -> Seq<int>
    decreases n,
{
    if n == 0 {
        Seq::empty()
    } else {
        let rest = first_places(members, (n - 1) as nat);
        if is_first_of_name(members, n - 1) {
            rest.push(n - 1)
        } else {
            rest
        }
    }
}

proof fn lemma_first_places(members: Seq<Rc<MemberSymbol>>, n: nat)
    requires
        n <= members.len(),
    ensures
        unique_by_name(members.take(n as int)) == first_places(members, n).map_values(
            |i: int| members[i],
        ),
        forall|name: Seq<char>| #[trigger]
            full_names(unique_by_name(members.take(n as int))).contains(name) == exists|j: int|
                0 <= j < n && full_name(*#[trigger] members[j]) == name,
    decreases n,
{
    let pick = |i: int| members[i];
    if n > 0 {
        let m = (n - 1) as nat;
        let taken = members.take(n as int);
        assert(taken.drop_last() == members.take(m as int));
        assert(taken.last() == members[n - 1]);
        lemma_first_places(members, m);
        let rest = unique_by_name(members.take(m as int));
        let name = full_name(inner(members[n - 1]));
        let is_new = !full_names(rest).contains(name);
        assert(is_new == is_first_of_name(members, n - 1));
        if is_new {
            assert(first_places(members, n).map_values(pick) =~= first_places(
                members,
                m,
            ).map_values(pick).push(members[n - 1]));
            assert(full_names(rest.push(members[n - 1])) =~= full_names(rest).push(name));
        }
        assert forall|other: Seq<char>| #[trigger]
            full_names(unique_by_name(taken)).contains(other) == exists|j: int|
                0 <= j < n && full_name(*#[trigger] members[j]) == other by {
            assert(full_names(rest).contains(other) == exists|j: int|
                0 <= j < m && full_name(*#[trigger] members[j]) == other);
            if is_new {
                let all = full_names(rest).push(name);
                if full_names(rest).contains(other) {
                    let k = choose|k: int|
                        0 <= k < full_names(rest).len() && full_names(rest)[k] == other;
                    assert(all[k] == other);
                }
                if name == other {
                    assert(all[full_names(rest).len() as int] == other);
                }
                if all.contains(other) && name != other {
                    let k = choose|k: int| 0 <= k < all.len() && all[k] == other;
                    assert(full_names(rest)[k] == other);
                }
            }
            if exists|j: int| 0 <= j < n && full_name(*#[trigger] members[j]) == other {
                let j = choose|j: int| 0 <= j < n && full_name(inner(#[trigger] members[j])) == other;
                if j == n - 1 {
                    assert(name == other);
                }
            }
            if name == other {
                assert(full_name(inner(members[n - 1])) == other);
            }
        }
    } else {
        assert(members.take(0) =~= Seq::empty());
        assert(first_places(members, 0).map_values(pick) =~= Seq::empty());
    }
}

/// Of members of one name the first stays, and those that stay keep their order.
pub proof fn first_members_of_a_name_stay(members: Seq<Rc<MemberSymbol>>)
    ensures
        unique_by_name(members) == first_places(members, members.len()).map_values(
            |i: int| members[i],
        ),
{
    lemma_first_places(members, members.len());
    assert(members.take(members.len() as int) == members);
}

/// Inputs are grouped by the dimensions of the state they start from, and behind them by those that
/// the member adds; of dimensions of one name the first stays. Nothing changes where nothing is
/// added.
pub proof fn inputs_keep_the_order_of_dimensions(
    planner: PlannerView,
    member: MemberSymbol,
    state: QueryPropertiesView,
)
    ensures
        ({
            let start = directed_state(planner, member, state).dimensions;
            let added = input_dimensions(member);
            let all = start + added;
            if added.len() == 0 {
                input_state(planner, member, state).dimensions == start
            } else {
                input_state(planner, member, state).dimensions == first_places(
                    all,
                    all.len(),
                ).map_values(|i: int| all[i])
            }
        }),
{
    first_members_of_a_name_stay(
        directed_state(planner, member, state).dimensions + input_dimensions(member),
    );
}

// ---------------------------------------------------------------------------------------------
// States of members
// ---------------------------------------------------------------------------------------------

/// What is planned for a member is the end of its references, with nothing changed but that its
/// case lacks what the filters of the state on dimensions rule out.
pub proof fn members_are_planned_without_what_filters_rule_out(
    member: MemberSymbol,
    state: QueryPropertiesView,
)
    ensures
        ({
            let target = *planned_member(member, state);
            let end = resolved(member);
            &&& full_name(target) == full_name(end)
            &&& is_pruned(case_of(end), case_of(target), state.dimensions_filters)
            &&& match (end, target) {
                (MemberSymbol::Measure(a), MemberSymbol::Measure(b)) => *b == (MeasureSymbol {
                    case: b.case,
                    ..*a
                }),
                (MemberSymbol::Dimension(a), MemberSymbol::Dimension(b)) => *b == (DimensionSymbol {
                    case: b.case,
                    ..*a
                }),
                (MemberSymbol::Measure(_), _) => false,
                (MemberSymbol::Dimension(_), _) => false,
                _ => target == end,
            }
        }),
{
    filters_prune_cases_only(resolved(member), state.dimensions_filters);
}

/// A member is planned for the state it is needed for. Only a dimension loses dimensions there, and
/// only those that take more than one stage and were not taken up; the others keep their order.
pub proof fn members_are_planned_for_their_state(
    member: MemberSymbol,
    state: QueryPropertiesView,
    names: Set<Seq<char>>,
)
    ensures
        ({
            let after = planned_state(member, state, names);
            &&& !(*planned_member(member, state) is Dimension) ==> after == state
            &&& *planned_member(member, state) is Dimension ==> after.dimensions
                == state.dimensions.filter(
                |d: Rc<MemberSymbol>|
                    !has_multi_stage(*d, false) || names.contains(full_name(resolved(*d))),
            )
            &&& after.query_tools == state.query_tools
            &&& after.measures == state.measures
            &&& after.time_dimensions == state.time_dimensions
            &&& after.dimensions_filters == state.dimensions_filters
            &&& after.time_dimensions_filters == state.time_dimensions_filters
            &&& after.measures_filters == state.measures_filters
            &&& after.segments == state.segments
            &&& after.time_shifts == state.time_shifts
            &&& after.order_by == state.order_by
            &&& after.ungrouped == state.ungrouped
        }),
{
    let a = |d: Rc<MemberSymbol>| !is_unresolved(names, d);
    let b = |d: Rc<MemberSymbol>|
        !has_multi_stage(*d, false) || names.contains(full_name(resolved(*d)));
    assert(a =~= b);
}

// ---------------------------------------------------------------------------------------------
// Switches
// ---------------------------------------------------------------------------------------------

/// A dependency of a switch is planned for the state of the inputs, with all its filters. Where the
/// values are known for which it is needed, and there are some, one condition comes behind them:
/// that the switch has one of the values.
pub proof fn switches_keep_the_state(
    switch: Rc<MemberSymbol>,
    entry: SwitchEntry,
    state: QueryPropertiesView,
)
    ensures
        ({
            let after = entry_state(switch, entry, state);
            let n = state.dimensions_filters.len();
            &&& state.dimensions_filters.is_prefix_of(after.dimensions_filters)
            &&& after.dimensions_filters.len() == if entry.values is Some && entry.values->0.len()
                > 0 {
                n + 1
            } else {
                n
            }
            &&& after.dimensions_filters.len() > n ==> {
                &&& after.dimensions_filters[n as int] is Item
                &&& after.dimensions_filters[n as int]->Item_0.member == switch
                &&& after.dimensions_filters[n as int]->Item_0.filter_type == FilterType::Dimension
                &&& after.dimensions_filters[n as int]->Item_0.filter_operator
                    == FilterOperator::Equal
                &&& after.dimensions_filters[n as int]->Item_0.values.len() == entry.values->0.len()
                &&& forall|i: int|
                    0 <= i < entry.values->0.len()
                        ==> #[trigger] after.dimensions_filters[n as int]->Item_0.values[i] == Some(
                        entry.values->0[i],
                    )
            }
            &&& after.query_tools == state.query_tools
            &&& after.measures == state.measures
            &&& after.dimensions == state.dimensions
            &&& after.time_dimensions == state.time_dimensions
            &&& after.time_dimensions_filters == state.time_dimensions_filters
            &&& after.measures_filters == state.measures_filters
            &&& after.segments == state.segments
            &&& after.time_shifts == state.time_shifts
            &&& after.order_by == state.order_by
            &&& after.ungrouped == state.ungrouped
        }),
{
}

// ---------------------------------------------------------------------------------------------
// Windows
// ---------------------------------------------------------------------------------------------

/// The input of a window that steps through time is planned for the state of the window. Only the
/// time dimensions, the time dimensions among the dimensions, and the date range change: filters on
/// dimensions and on measures, segments and time shifts stay.
pub proof fn window_inputs_keep_the_state(
    dimension: TimeDimensionSymbol,
    window: RollingWindow,
    state: QueryPropertiesView,
)
    requires
        rolling_base_state(dimension, window, state) is Ok,
    ensures
        ({
            let base = rolling_base_state(dimension, window, state)->Ok_0;
            &&& base.query_tools == state.query_tools
            &&& base.measures == state.measures
            &&& base.dimensions == state.dimensions.filter(
                |d: Rc<MemberSymbol>| !(resolved(*d) is TimeDimension),
            )
            &&& base.time_dimensions.len() == 1
            &&& base.dimensions_filters == state.dimensions_filters
            &&& base.measures_filters == state.measures_filters
            &&& base.segments == state.segments
            &&& base.time_shifts == state.time_shifts
            &&& base.order_by == state.order_by
            &&& base.ungrouped == state.ungrouped
        }),
{
}

/// Whether a window reaches from the start of a period to the date.
pub open spec fn is_to_date(window: RollingWindow) -> bool {
    window.rolling_type is Some && window.rolling_type->0@ == "to_date"@
}

/// In the input of a window, every date range on the base of its time dimension becomes one that
/// carries, behind its dates, what widens it: the period of a window to the date, else the trailing
/// and the leading interval. All other conditions on time stay, in their places.
pub proof fn window_inputs_widen_date_ranges_only(
    dimension: TimeDimensionSymbol,
    window: RollingWindow,
    state: QueryPropertiesView,
)
    requires
        rolling_base_state(dimension, window, state) is Ok,
    ensures
        is_to_date(window) ==> window.granularity is Some,
        ({
            let before = leaves(state.time_dimensions_filters);
            let after = leaves(
                rolling_base_state(dimension, window, state)->Ok_0.time_dimensions_filters,
            );
            &&& after.len() == before.len()
            &&& forall|i: int|
                0 <= i < before.len() ==> if is_range(
                    before[i],
                    full_name(*dimension.base_symbol),
                ) {
                    if is_to_date(window) {
                        becomes(
                            before[i],
                            #[trigger] after[i],
                            FilterOperator::ToDateRollingWindowDateRange,
                            leaf_values(before[i]).push(Some(window.granularity->0@)),
                        )
                    } else {
                        becomes(
                            before[i],
                            after[i],
                            FilterOperator::RegularRollingWindowDateRange,
                            leaf_values(before[i]).push(optional_text(window.trailing)).push(
                                optional_text(window.leading),
                            ),
                        )
                    }
                } else {
                    after[i] == before[i]
                }
        }),
{
    let before = leaves(state.time_dimensions_filters);
    let name = full_name(inner(dimension.base_symbol));
    if is_to_date(window) {
        let more = seq![Some(window.granularity->0@)];
        replacing_changes_date_ranges_only(
            name,
            FilterOperator::ToDateRollingWindowDateRange,
            more,
            state.time_dimensions_filters,
        );
        assert forall|i: int| 0 <= i < before.len() implies #[trigger] leaf_values(before[i])
            + more == leaf_values(before[i]).push(Some(window.granularity->0@)) by {}
    } else {
        let more = seq![optional_text(window.trailing), optional_text(window.leading)];
        replacing_changes_date_ranges_only(
            name,
            FilterOperator::RegularRollingWindowDateRange,
            more,
            state.time_dimensions_filters,
        );
        assert forall|i: int| 0 <= i < before.len() implies #[trigger] leaf_values(before[i])
            + more == leaf_values(before[i]).push(optional_text(window.trailing)).push(
            optional_text(window.leading),
        ) by {}
    }
}

/// The time dimension of the input of a window is the time dimension of the window at another
/// granularity: same base, same dates.
pub proof fn window_inputs_are_grouped_by_the_same_dimension(
    dimension: TimeDimensionSymbol,
    window: RollingWindow,
)
    ensures
        *base_time_dimension(dimension, window) is TimeDimension,
        base_time_dimension(dimension, window)->TimeDimension_0.base_symbol
            == dimension.base_symbol,
        base_time_dimension(dimension, window)->TimeDimension_0.date_range == dimension.date_range,
        resolved_granularity(*base_time_dimension(dimension, window)->TimeDimension_0)
            == base_granularity(dimension, window),
{
}

/// A window that nothing steps through is planned for the state of the measure. Only conditions on
/// time may change.
pub proof fn unstepped_windows_keep_the_state(window: RollingWindow, state: QueryPropertiesView)
    ensures
        ({
            let after = unstepped_state(window, state);
            &&& after.query_tools == state.query_tools
            &&& after.measures == state.measures
            &&& after.dimensions == state.dimensions
            &&& after.time_dimensions == state.time_dimensions
            &&& after.dimensions_filters == state.dimensions_filters
            &&& after.measures_filters == state.measures_filters
            &&& after.segments == state.segments
            &&& after.time_shifts == state.time_shifts
            &&& after.order_by == state.order_by
            &&& after.ungrouped == state.ungrouped
        }),
{
    lemma_opened_frame(window, state, state.time_dimensions_filters.len());
}

proof fn lemma_opened_frame(window: RollingWindow, state: QueryPropertiesView, n: nat)
    ensures
        date_ranges_opened(window, state, n) == (QueryPropertiesView {
            time_dimensions_filters: date_ranges_opened(window, state, n).time_dimensions_filters,
            ..state
        }),
    decreases n,
{
    if n > 0 {
        lemma_opened_frame(window, state, (n - 1) as nat);
    }
}

/// Whether one of the first `n` filters is, by itself, a date range on the member of this name.
pub open spec fn is_ranged_by_first(filters: Seq<FilterView>, n: nat, member: Seq<char>) -> bool {
    exists|i: int|
        0 <= i < n && (#[trigger] filters[i]) is Item && filters[i]->Item_0.filter_operator
            == FilterOperator::InDateRange && full_name(*filters[i]->Item_0.member) == member
}

/// Whether a condition is a date range on a member that one of the first `n` filters bounds by
/// itself.
pub open spec fn is_opened_by_first(
    filters: Seq<FilterView>,
    n: nat,
    placed: PlacedLeaf,
) -> bool {
    is_range(placed, leaf_name(placed)) && is_ranged_by_first(filters, n, leaf_name(placed))
}

proof fn lemma_ranged_step(filters: Seq<FilterView>, n: nat, member: Seq<char>)
    requires
        n > 0,
    ensures
        is_ranged_by_first(filters, n, member) == (is_ranged_by_first(
            filters,
            (n - 1) as nat,
            member,
        ) || (filters[n - 1] is Item && filters[n - 1]->Item_0.filter_operator
            == FilterOperator::InDateRange && full_name(*filters[n - 1]->Item_0.member) == member)),
{
    let m = (n - 1) as nat;
    if is_ranged_by_first(filters, m, member) {
        let i = choose|i: int|
            0 <= i < m && (#[trigger] filters[i]) is Item && filters[i]->Item_0.filter_operator
                == FilterOperator::InDateRange && full_name(inner(filters[i]->Item_0.member))
                == member;
        assert(filters[i] is Item);
    }
    if is_ranged_by_first(filters, n, member) && !is_ranged_by_first(filters, m, member) {
        let i = choose|i: int|
            0 <= i < n && (#[trigger] filters[i]) is Item && filters[i]->Item_0.filter_operator
                == FilterOperator::InDateRange && full_name(inner(filters[i]->Item_0.member))
                == member;
        assert(i == n - 1);
    }
    assert(filters[n - 1] is Item ==> filters[n - 1] is Item);
}

proof fn lemma_opened_at_both_ends(window: RollingWindow, state: QueryPropertiesView, n: nat)
    requires
        n <= state.time_dimensions_filters.len(),
        is_unbounded(window.trailing) && is_unbounded(window.leading),
    ensures
        leaves(date_ranges_opened(window, state, n).time_dimensions_filters) == leaves(
            state.time_dimensions_filters,
        ).filter(|l: PlacedLeaf| !is_opened_by_first(state.time_dimensions_filters, n, l)),
    decreases n,
{
    let filters = state.time_dimensions_filters;
    let all = leaves(filters);
    let both = |l: PlacedLeaf| !is_opened_by_first(filters, n, l);
    if n == 0 {
        lemma_filter_all(all, both);
    } else {
        let m = (n - 1) as nat;
        let first = |l: PlacedLeaf| !is_opened_by_first(filters, m, l);
        lemma_opened_at_both_ends(window, state, m);
        let before = date_ranges_opened(window, state, m).time_dimensions_filters;
        let last = filters[n - 1];
        if last is Item && last->Item_0.filter_operator == FilterOperator::InDateRange {
            let member = full_name(inner(last->Item_0.member));
            let second = |l: PlacedLeaf| !is_range(l, member);
            opening_changes_date_ranges_only(member, true, true, before);
            assert forall|l: PlacedLeaf| #[trigger] both(l) == (first(l) && second(l)) by {
                lemma_ranged_step(filters, n, leaf_name(l));
            }
            lemma_filter_twice(all, first, second, both);
        } else {
            assert forall|l: PlacedLeaf| #[trigger] both(l) == first(l) by {
                lemma_ranged_step(filters, n, leaf_name(l));
            }
            assert(both =~= first);
        }
    }
}

proof fn lemma_opened_at_one_end(window: RollingWindow, state: QueryPropertiesView, n: nat)
    requires
        n <= state.time_dimensions_filters.len(),
        !(is_unbounded(window.trailing) && is_unbounded(window.leading)),
    ensures
        ({
            let before = leaves(state.time_dimensions_filters);
            let after = leaves(date_ranges_opened(window, state, n).time_dimensions_filters);
            &&& after.len() == before.len()
            &&& forall|i: int|
                0 <= i < before.len() ==> if is_opened_by_first(
                    state.time_dimensions_filters,
                    n,
                    before[i],
                ) && (is_unbounded(window.trailing) || is_unbounded(window.leading)) {
                    has_opened(before[i], #[trigger] after[i], is_unbounded(window.trailing))
                } else {
                    after[i] == before[i]
                }
        }),
    decreases n,
{
    let filters = state.time_dimensions_filters;
    let all = leaves(filters);
    if n > 0 {
        let m = (n - 1) as nat;
        lemma_opened_at_one_end(window, state, m);
        let middle = date_ranges_opened(window, state, m).time_dimensions_filters;
        let after = leaves(date_ranges_opened(window, state, n).time_dimensions_filters);
        let last = filters[n - 1];
        let open_start = is_unbounded(window.trailing);
        let open_end = is_unbounded(window.leading);
        if last is Item && last->Item_0.filter_operator == FilterOperator::InDateRange {
            let member = full_name(inner(last->Item_0.member));
            opening_changes_date_ranges_only(member, open_start, open_end, middle);
        }
        assert forall|i: int| 0 <= i < all.len() implies if is_opened_by_first(filters, n, all[i])
            && (open_start || open_end) {
            has_opened(all[i], #[trigger] after[i], open_start)
        } else {
            after[i] == all[i]
        } by {
            lemma_ranged_step(filters, n, leaf_name(all[i]));
            assert(after[i] == after[i]);
            assert(leaves(middle)[i] == leaves(middle)[i]);
        }
    }
}

/// A window that nothing steps through and that is unbounded on one side leaves the other end of
/// every date range on a member that a filter bounds by itself; if it is unbounded on both sides,
/// it drops them. All other conditions on time stay, in their places.
pub proof fn unstepped_windows_open_date_ranges_only(
    window: RollingWindow,
    state: QueryPropertiesView,
)
    ensures
        ({
            let filters = state.time_dimensions_filters;
            let n = filters.len();
            let before = leaves(filters);
            let after = leaves(unstepped_state(window, state).time_dimensions_filters);
            if is_unbounded(window.trailing) && is_unbounded(window.leading) {
                after == before.filter(|l: PlacedLeaf| !is_opened_by_first(filters, n, l))
            } else {
                &&& after.len() == before.len()
                &&& forall|i: int|
                    0 <= i < before.len() ==> if is_opened_by_first(filters, n, before[i]) && (
                    is_unbounded(window.trailing) || is_unbounded(window.leading)) {
                        has_opened(before[i], #[trigger] after[i], is_unbounded(window.trailing))
                    } else {
                        after[i] == before[i]
                    }
            }
        }),
{
    let n = state.time_dimensions_filters.len();
    if is_unbounded(window.trailing) && is_unbounded(window.leading) {
        lemma_opened_at_both_ends(window, state, n);
    } else {
        lemma_opened_at_one_end(window, state, n);
    }
}

/// A side of a window has no end where its interval is the word for that.
pub proof fn unbounded_sides_say_so(interval: Option<String>)
    ensures
        is_unbounded(interval) == (interval is Some && interval->0@ == "unbounded"@),
{
}

// ---------------------------------------------------------------------------------------------
// Members of a query
// ---------------------------------------------------------------------------------------------

/// Whether one of the members has this name.
pub open spec fn has_name(members: Seq<Rc<MemberSymbol>>, name: Seq<char>) -> bool {
    exists|i: int| 0 <= i < members.len() && full_name(*#[trigger] members[i]) == name
}

proof fn lemma_has_name_add(
    a: Seq<Rc<MemberSymbol>>,
    b: Seq<Rc<MemberSymbol>>,
    name: Seq<char>,
)
    ensures
        has_name(a + b, name) == (has_name(a, name) || has_name(b, name)),
{
    let all = a + b;
    if has_name(a, name) {
        let i = choose|i: int| 0 <= i < a.len() && full_name(inner(#[trigger] a[i])) == name;
        assert(full_name(inner(all[i])) == name);
    }
    if has_name(b, name) {
        let i = choose|i: int| 0 <= i < b.len() && full_name(inner(#[trigger] b[i])) == name;
        assert(full_name(inner(all[a.len() + i])) == name);
    }
    if has_name(all, name) {
        let i = choose|i: int| 0 <= i < all.len() && full_name(inner(#[trigger] all[i])) == name;
        if i < a.len() {
            assert(full_name(inner(a[i])) == name);
        } else {
            assert(full_name(inner(b[i - a.len()])) == name);
        }
    }
}

proof fn lemma_item_members(filter: FilterView, above: Seq<FilterGroupOperator>, name: Seq<char>)
    ensures
        has_name(item_members(filter), name) == has_condition_on(item_leaves(filter, above), name),
    decreases filter,
{
    match filter {
        FilterView::Group { operator, items } => {
            lemma_filter_members(items, above.push(operator), name);
        },
        FilterView::Item(item) => {
            let leaf = item_leaves(filter, above);
            let single = item_members(filter);
            assert(single[0] == item.member);
            assert(is_condition_on(leaf[0], name) == (full_name(inner(item.member)) == name));
        },
        FilterView::Segment(_) => {},
    }
}

proof fn lemma_filter_members(
    filters: Seq<FilterView>,
    above: Seq<FilterGroupOperator>,
    name: Seq<char>,
)
    ensures
        has_name(filter_members(filters), name) == has_condition_on(
            leaves_below(filters, above),
            name,
        ),
    decreases filters,
{
    if filters.len() > 0 {
        let before = filters.drop_last();
        let last = filters.last();
        lemma_filter_members(before, above, name);
        lemma_item_members(last, above, name);
        lemma_has_name_add(filter_members(before), item_members(last), name);
        lemma_condition_add(leaves_below(before, above), item_leaves(last, above), name);
    }
}

/// A query uses the members of its dimensions, time dimensions and measures, and those that its
/// filters have conditions on, at any depth; each name stands once.
pub proof fn queries_use_the_members_of_all_their_parts(
    query: QueryPropertiesView,
    name: Seq<char>,
)
    ensures
        has_name(query.used_symbols(), name) == (has_name(query.dimensions, name) || has_name(
            query.time_dimensions,
            name,
        ) || has_name(query.measures, name) || has_condition_on(
            leaves(query.dimensions_filters),
            name,
        ) || has_condition_on(leaves(query.time_dimensions_filters), name) || has_condition_on(
            leaves(query.measures_filters),
            name,
        )),
        forall|i: int, j: int|
            0 <= i < j < query.used_symbols().len() ==> full_name(
                *#[trigger] query.used_symbols()[i],
            ) != full_name(*#[trigger] query.used_symbols()[j]),
{
    let none = Seq::<FilterGroupOperator>::empty();
    let a = query.dimensions + query.time_dimensions;
    let b = a + query.measures;
    let c = b + filter_members(query.dimensions_filters);
    let d = c + filter_members(query.time_dimensions_filters);
    let all = d + filter_members(query.measures_filters);
    lemma_has_name_add(query.dimensions, query.time_dimensions, name);
    lemma_has_name_add(a, query.measures, name);
    lemma_has_name_add(b, filter_members(query.dimensions_filters), name);
    lemma_has_name_add(c, filter_members(query.time_dimensions_filters), name);
    lemma_has_name_add(d, filter_members(query.measures_filters), name);
    lemma_filter_members(query.dimensions_filters, none, name);
    lemma_filter_members(query.time_dimensions_filters, none, name);
    lemma_filter_members(query.measures_filters, none, name);
    lemma_unique_names(all);
    lemma_first_places(all, all.len());
    assert(all.take(all.len() as int) == all);
    let used = query.used_symbols();
    let names = full_names(used);
    assert(names.contains(name) == has_name(all, name));
    if names.contains(name) {
        let i = choose|i: int| 0 <= i < names.len() && names[i] == name;
        assert(full_name(inner(used[i])) == name);
    }
    if has_name(used, name) {
        let i = choose|i: int| 0 <= i < used.len() && full_name(inner(#[trigger] used[i])) == name;
        assert(names[i] == name);
    }
}

proof fn lemma_unique_names(members: Seq<Rc<MemberSymbol>>)
    ensures
        forall|i: int, j: int|
            0 <= i < j < unique_by_name(members).len() ==> full_name(
                *#[trigger] unique_by_name(members)[i],
            ) != full_name(*#[trigger] unique_by_name(members)[j]),
    decreases members.len(),
{
    if members.len() > 0 {
        let rest = unique_by_name(members.drop_last());
        let all = unique_by_name(members);
        lemma_unique_names(members.drop_last());
        assert forall|i: int, j: int| 0 <= i < j < all.len() implies full_name(
            *#[trigger] all[i],
        ) != full_name(*#[trigger] all[j]) by {
            assert(all[i] == rest[i]);
            if j < rest.len() {
                assert(all[j] == rest[j]);
            } else {
                assert(full_names(rest)[i] == full_name(inner(rest[i])));
            }
        }
    }
}

/// The members of a query that are planned are those it uses that take more than one stage, in the
/// order of its use.
pub proof fn queries_plan_members_that_take_more_than_one_stage(
    query: QueryPropertiesView,
    member: Rc<MemberSymbol>,
)
    ensures
        multi_stage_members(query).contains(member) == (query.used_symbols().contains(member)
            && has_multi_stage(*member, false)),
{
    let keep = |m: Rc<MemberSymbol>| has_multi_stage(*m, false);
    let used = query.used_symbols();
    let kept = multi_stage_members(query);
    if kept.contains(member) {
        let i = choose|i: int| 0 <= i < kept.len() && kept[i] == member;
        used.lemma_filter_pred(keep, i);
        used.lemma_filter_contains_rev(keep, member);
    }
    if used.contains(member) && has_multi_stage(inner(member), false) {
        let i = choose|i: int| 0 <= i < used.len() && used[i] == member;
        used.lemma_filter_contains(keep, i);
    }
}

// ---------------------------------------------------------------------------------------------
// Groups
// ---------------------------------------------------------------------------------------------

/// Whether a list holds exactly the names by which a directive reaches members.
pub open spec fn lists_reached(names: Seq<Seq<char>>, members: Seq<Rc<MemberSymbol>>) -> bool {
    forall|name: Seq<char>| #[trigger] names.contains(name) == reaches(members, name)
}

proof fn lemma_directive_edit(
    filter: MultiStageFilter,
    excluded: Seq<Seq<char>>,
    kept: Seq<Seq<char>>,
    filters: Seq<FilterView>,
)
    requires
        filter.exclude is Some ==> lists_reached(excluded, (filter.exclude->0)@),
        filter.keep_only is Some ==> lists_reached(kept, (filter.keep_only->0)@),
    ensures
        directive_rest(filter, filters) == ({
            let rest = if filter.exclude is Some {
                edited(FilterEditView::Exclude(excluded), filters)
            } else {
                filters
            };
            if filter.keep_only is Some {
                edited(FilterEditView::KeepOnly(kept), rest)
            } else {
                rest
            }
        }),
{
    let mut rest = filters;
    if let Some(members) = filter.exclude {
        let a = FilterEditView::Exclude(all_match_names(members@));
        let b = FilterEditView::Exclude(excluded);
        assert forall|name: Seq<char>| #[trigger]
            all_match_names(members@).contains(name) == excluded.contains(name) by {
            directives_reach_names_with_and_without_prefix(members@, name);
            assert(excluded.contains(name) == reaches(members@, name));
        }
        names_alone_decide(a, b, rest);
        rest = edited(a, rest);
    }
    if let Some(members) = filter.keep_only {
        let a = FilterEditView::KeepOnly(all_match_names(members@));
        let b = FilterEditView::KeepOnly(kept);
        assert forall|name: Seq<char>| #[trigger]
            all_match_names(members@).contains(name) == kept.contains(name) by {
            directives_reach_names_with_and_without_prefix(members@, name);
            assert(kept.contains(name) == reaches(members@, name));
        }
        names_alone_decide(a, b, rest);
    }
}

/// A directive excludes the names it reaches, then keeps only those it reaches, and adds what it
/// lists behind the rest. This decides what becomes of groups, too.
pub proof fn directives_exclude_and_keep_the_names_they_reach(
    filter: MultiStageFilter,
    state: QueryPropertiesView,
    excluded: Seq<Seq<char>>,
    kept: Seq<Seq<char>>,
)
    requires
        filter.exclude is Some ==> lists_reached(excluded, (filter.exclude->0)@),
        filter.keep_only is Some ==> lists_reached(kept, (filter.keep_only->0)@),
    ensures
        ({
            let after = directed(filter, state);
            let rest = |filters: Seq<FilterView>|
                {
                    let first = if filter.exclude is Some {
                        edited(FilterEditView::Exclude(excluded), filters)
                    } else {
                        filters
                    };
                    if filter.keep_only is Some {
                        edited(FilterEditView::KeepOnly(kept), first)
                    } else {
                        first
                    }
                };
            &&& after.dimensions_filters == rest(state.dimensions_filters) + filter_views(
                filter.include_dimension@,
            )
            &&& after.time_dimensions_filters == rest(state.time_dimensions_filters)
                + filter_views(filter.include_time_dimension@)
            &&& after.measures_filters == rest(state.measures_filters) + filter_views(
                filter.include_measure@,
            )
            &&& after.segments == rest(state.segments)
        }),
{
    lemma_directive_edit(filter, excluded, kept, state.dimensions_filters);
    lemma_directive_edit(filter, excluded, kept, state.time_dimensions_filters);
    lemma_directive_edit(filter, excluded, kept, state.measures_filters);
    lemma_directive_edit(filter, excluded, kept, state.segments);
}

/// Inputs have the filters of the state they start from without the name of the member, where one
/// of them has a condition on it. This decides what becomes of groups, too.
pub proof fn inputs_exclude_the_name_of_the_member(
    planner: PlannerView,
    member: MemberSymbol,
    state: QueryPropertiesView,
    names: Seq<Seq<char>>,
)
    requires
        forall|name: Seq<char>| #[trigger] names.contains(name) == (name == full_name(member)),
        ({
            let start = directed_state(planner, member, state);
            ||| has_condition_on(leaves(start.dimensions_filters), full_name(member))
            ||| has_condition_on(leaves(start.time_dimensions_filters), full_name(member))
            ||| has_condition_on(leaves(start.measures_filters), full_name(member))
        }),
    ensures
        ({
            let start = directed_state(planner, member, state);
            let inputs = input_state(planner, member, state);
            let edit = FilterEditView::Exclude(names);
            &&& inputs.dimensions_filters == edited(edit, start.dimensions_filters)
            &&& inputs.time_dimensions_filters == edited(edit, start.time_dimensions_filters)
            &&& inputs.measures_filters == edited(edit, start.measures_filters)
        }),
{
    let start = directed_state(planner, member, state);
    let own = seq![full_name(member)];
    states_have_filters_for_the_members_of_conditions(start, full_name(member));
    assert forall|name: Seq<char>| #[trigger] own.contains(name) == names.contains(name) by {
        assert(own[0] == full_name(member));
        if own.contains(name) {
            let i = choose|i: int| 0 <= i < own.len() && own[i] == name;
            assert(i == 0);
        }
    }
    let a = FilterEditView::Exclude(own);
    let b = FilterEditView::Exclude(names);
    names_alone_decide(a, b, start.dimensions_filters);
    names_alone_decide(a, b, start.time_dimensions_filters);
    names_alone_decide(a, b, start.measures_filters);
}

/// The filters on time of the input of a window are those of the window with date ranges on the
/// base of its time dimension replaced, and nothing else done to them.
pub proof fn window_inputs_replace_date_ranges(
    dimension: TimeDimensionSymbol,
    window: RollingWindow,
    state: QueryPropertiesView,
)
    ensures
        rolling_base_state(dimension, window, state) is Ok == (is_to_date(window)
            ==> window.granularity is Some),
        rolling_base_state(dimension, window, state) is Ok ==> rolling_base_state(
            dimension,
            window,
            state,
        )->Ok_0.time_dimensions_filters == edited(
            FilterEditView::ReplaceDateRange {
                member_name: full_name(*dimension.base_symbol),
                filter_operator: if is_to_date(window) {
                    FilterOperator::ToDateRollingWindowDateRange
                } else {
                    FilterOperator::RegularRollingWindowDateRange
                },
                additional_values: if is_to_date(window) {
                    seq![Some(window.granularity->0@)]
                } else {
                    seq![optional_text(window.trailing), optional_text(window.leading)]
                },
            },
            state.time_dimensions_filters,
        ),
{
}

proof fn lemma_untouched(member: Seq<char>, filters: Seq<FilterView>)
    requires
        forall|i: int| 0 <= i < filters.len() ==> !has_empty_group(#[trigger] filters[i]),
    ensures
        edited(
            FilterEditView::OpenDateRange {
                member_name: member,
                open_start: false,
                open_end: false,
            },
            filters,
        ) == filters,
    decreases filters,
{
    let edit = FilterEditView::OpenDateRange {
        member_name: member,
        open_start: false,
        open_end: false,
    };
    if filters.len() > 0 {
        let before = filters.drop_last();
        let last = filters.last();
        assert(last == filters[filters.len() - 1]);
        assert forall|i: int| 0 <= i < before.len() implies !has_empty_group(
            #[trigger] before[i],
        ) by {
            assert(before[i] == filters[i]);
        }
        lemma_untouched(member, before);
        match last {
            FilterView::Group { operator, items } => {
                assert(has_empty_group(last) == (items.len() == 0 || exists|i: int|
                    0 <= i < items.len() && has_empty_group(#[trigger] items[i])));
                assert forall|i: int| 0 <= i < items.len() implies !has_empty_group(
                    #[trigger] items[i],
                ) by {}
                lemma_untouched(member, items);
            },
            _ => {},
        }
        assert(edited_filter(edit, last) == Some(last));
        assert(before.push(last) == filters);
    }
}

/// A window that nothing steps through and that is bounded on both sides keeps the state as it is.
pub proof fn bounded_unstepped_windows_change_nothing(
    window: RollingWindow,
    state: QueryPropertiesView,
)
    requires
        !is_unbounded(window.trailing),
        !is_unbounded(window.leading),
        forall|i: int|
            0 <= i < state.time_dimensions_filters.len() ==> !has_empty_group(
                #[trigger] state.time_dimensions_filters[i],
            ),
    ensures
        unstepped_state(window, state) == state,
{
    lemma_bounded(window, state, state.time_dimensions_filters.len());
}

proof fn lemma_bounded(window: RollingWindow, state: QueryPropertiesView, n: nat)
    requires
        !is_unbounded(window.trailing),
        !is_unbounded(window.leading),
        forall|i: int|
            0 <= i < state.time_dimensions_filters.len() ==> !has_empty_group(
                #[trigger] state.time_dimensions_filters[i],
            ),
    ensures
        date_ranges_opened(window, state, n) == state,
    decreases n,
{
    if n > 0 {
        lemma_bounded(window, state, (n - 1) as nat);
        if let FilterView::Item(item) = state.time_dimensions_filters[n - 1] {
            lemma_untouched(full_name(inner(item.member)), state.time_dimensions_filters);
        }
    }
}

/// The time dimension of the input of a window has a calendar unit as its granularity, or none.
pub proof fn window_inputs_have_calendar_units(
    dimension: TimeDimensionSymbol,
    window: RollingWindow,
)
    ensures
        ({
            let base = base_time_dimension(dimension, window)->TimeDimension_0;
            match base_granularity(dimension, window) {
                Some(unit) => base.granularity == Some(TimeGranularity::Predefined(unit)),
                None => base.granularity is None,
            }
        }),
{
}

} // verus!
