//! Laws of planning: how filters, states and stages relate.

use crate::error::CubeErrorView;
use crate::filter::FilterOperator;
use crate::filter::FilterView;
use crate::filter::filter_views;
use crate::filter::filtered_member;
use crate::filter::item_mentions;
use crate::filter::mentions;
use crate::filter_edit::FilterEditView;
use crate::filter_edit::edited;
use crate::filter_edit::edited_filter;
use crate::filter_edit::is_date_range_on;
use crate::filter_edit::keeps_segment;
use crate::granularity::Granularity;
use crate::granularity::common_unit_is_coarsest;
use crate::granularity::common_unit_with_part;
use crate::granularity::made_of;
use crate::granularity::made_of_is_transitive;
use crate::granularity::min_granularity;
use crate::granularity::optional_interval_unit;
use crate::plan::PlanState;
use crate::plan::PlannerView;
use crate::plan::agree;
use crate::plan::all_match_names;
use crate::plan::base_granularity;
use crate::plan::base_time_dimension;
use crate::plan::date_ranges_opened;
use crate::plan::directed;
use crate::plan::directed_state;
use crate::plan::directive_excluded;
use crate::plan::directive_kept;
use crate::plan::filter_directive;
use crate::plan::finest;
use crate::plan::granularity_required;
use crate::plan::input_dimensions;
use crate::plan::input_state;
use crate::plan::match_names;
use crate::plan::measure_children;
use crate::plan::multi_stage_members;
use crate::plan::plan_query;
use crate::plan::plan_window;
use crate::plan::query_time_dimensions;
use crate::plan::rolling_base_state;
use crate::plan::root_state;
use crate::plan::to_date_granularity;
use crate::plan::unstepped_state;
use crate::plan::window_edit;
use crate::plan::window_of;
use crate::query_properties::QueryPropertiesView;
use crate::query_properties::is_unbounded;
use crate::query_properties::unique_by_name;
use crate::stage::DescriptionView;
use crate::stage::LeafView;
use crate::stage::MemberTypeView;
use crate::switch::SwitchEntry;
use crate::switch::SwitchUse;
use crate::switch::distinct_names;
use crate::switch::has_entry;
use crate::switch::lemma_with_use_distinct;
use crate::switch::switch_entries;
use crate::switch::switch_uses;
use crate::switch::with_use;
use crate::switch::with_uses;
use crate::switch::with_values;
use crate::symbol::CaseSwitchDefinition;
use crate::symbol::MeasureSymbol;
use crate::symbol::MemberSymbol;
use crate::symbol::MultiStageFilter;
use crate::symbol::RollingWindow;
use crate::symbol::TimeDimensionSymbol;
use crate::symbol::full_name;
use crate::symbol::full_names;
use crate::symbol::inner;
use crate::symbol::is_cumulative;
use crate::symbol::resolved;
use crate::symbol::resolved_granularity;
use std::rc::Rc;
use vstd::prelude::*;

verus! {

// ---------------------------------------------------------------------------------------------
// Filters
// ---------------------------------------------------------------------------------------------

/// Whether a filter has a condition on the member of this name or is the segment of this name, at
/// any depth.
pub open spec fn item_concerns(filter: FilterView, name: Seq<char>) -> bool
    decreases filter,
{
    match filter {
        FilterView::Group { items, .. } => exists|i: int|
            0 <= i < items.len() && item_concerns(#[trigger] items[i], name),
        FilterView::Item(item) => filtered_member(item) == name,
        FilterView::Segment(segment) => segment == name,
    }
}

/// Whether filters have a condition on the member of this name or the segment of this name.
pub open spec fn concerns(filters: Seq<FilterView>, name: Seq<char>) -> bool {
    exists|i: int| 0 <= i < filters.len() && item_concerns(#[trigger] filters[i], name)
}

proof fn lemma_concerns_push(filters: Seq<FilterView>, filter: FilterView, name: Seq<char>)
    ensures
        concerns(filters.push(filter), name) == (concerns(filters, name) || item_concerns(
            filter,
            name,
        )),
{
    let all = filters.push(filter);
    if concerns(filters, name) {
        let i = choose|i: int| 0 <= i < filters.len() && item_concerns(#[trigger] filters[i], name);
        assert(item_concerns(all[i], name));
    }
    if item_concerns(filter, name) {
        assert(item_concerns(all[filters.len() as int], name));
    }
    if concerns(all, name) && !item_concerns(filter, name) {
        let i = choose|i: int| 0 <= i < all.len() && item_concerns(#[trigger] all[i], name);
        assert(item_concerns(filters[i], name));
    }
}

proof fn lemma_concerns_add(a: Seq<FilterView>, b: Seq<FilterView>, name: Seq<char>)
    ensures
        concerns(a + b, name) == (concerns(a, name) || concerns(b, name)),
    decreases b.len(),
{
    if b.len() == 0 {
        assert(a + b == a);
    } else {
        assert(a + b == (a + b.drop_last()).push(b.last()));
        assert(b == b.drop_last().push(b.last()));
        lemma_concerns_add(a, b.drop_last(), name);
        lemma_concerns_push(a + b.drop_last(), b.last(), name);
        lemma_concerns_push(b.drop_last(), b.last(), name);
    }
}

proof fn lemma_mentions_push(filters: Seq<FilterView>, filter: FilterView, member: Seq<char>)
    ensures
        mentions(filters.push(filter), member) == (mentions(filters, member) || item_mentions(
            filter,
            member,
        )),
{
    let all = filters.push(filter);
    if mentions(filters, member) {
        let i = choose|i: int|
            0 <= i < filters.len() && item_mentions(#[trigger] filters[i], member);
        assert(item_mentions(all[i], member));
    }
    if item_mentions(filter, member) {
        assert(item_mentions(all[filters.len() as int], member));
    }
    if mentions(all, member) && !item_mentions(filter, member) {
        let i = choose|i: int| 0 <= i < all.len() && item_mentions(#[trigger] all[i], member);
        assert(item_mentions(filters[i], member));
    }
}

proof fn lemma_group(filter: FilterView, name: Seq<char>)
    requires
        filter is Group,
    ensures
        item_concerns(filter, name) == concerns(filter->items, name),
        item_mentions(filter, name) == mentions(filter->items, name),
{
    let items = filter->items;
    assert(item_concerns(filter, name) == exists|i: int|
        0 <= i < items.len() && item_concerns(#[trigger] items[i], name));
    assert(item_mentions(filter, name) == exists|i: int|
        0 <= i < items.len() && item_mentions(#[trigger] items[i], name));
}

proof fn lemma_edited_filter_concerns(edit: FilterEditView, filter: FilterView, name: Seq<char>)
    requires
        edit is Exclude || edit is KeepOnly,
    ensures
        (match edited_filter(edit, filter) {
            Some(rest) => item_concerns(rest, name),
            None => false,
        }) == (item_concerns(filter, name) && keeps_segment(edit, name)),
        (match edited_filter(edit, filter) {
            Some(rest) => item_mentions(rest, name),
            None => false,
        }) == (item_mentions(filter, name) && keeps_segment(edit, name)),
    decreases filter,
{
    match filter {
        FilterView::Group { operator, items } => {
            lemma_edited_concerns(edit, items, name);
            let rest = edited(edit, items);
            lemma_group(filter, name);
            lemma_group(FilterView::Group { operator, items: rest }, name);
            if rest.len() == 0 {
                assert(!concerns(rest, name));
                assert(!mentions(rest, name));
            }
        },
        FilterView::Item(_) => {},
        FilterView::Segment(_) => {},
    }
}

proof fn lemma_edited_concerns(edit: FilterEditView, filters: Seq<FilterView>, name: Seq<char>)
    requires
        edit is Exclude || edit is KeepOnly,
    ensures
        concerns(edited(edit, filters), name) == (concerns(filters, name) && keeps_segment(
            edit,
            name,
        )),
        mentions(edited(edit, filters), name) == (mentions(filters, name) && keeps_segment(
            edit,
            name,
        )),
    decreases filters,
{
    if filters.len() > 0 {
        let before = filters.drop_last();
        let last = filters.last();
        assert(filters == before.push(last));
        lemma_edited_concerns(edit, before, name);
        lemma_edited_filter_concerns(edit, last, name);
        lemma_concerns_push(before, last, name);
        lemma_mentions_push(before, last, name);
        match edited_filter(edit, last) {
            Some(rest) => {
                lemma_concerns_push(edited(edit, before), rest, name);
                lemma_mentions_push(edited(edit, before), rest, name);
            },
            None => {},
        }
    }
}

/// Excluding names drops the conditions on the members and the segments of these names, and no
/// others.
pub proof fn excluding_drops_exactly_the_names(
    names: Seq<Seq<char>>,
    filters: Seq<FilterView>,
    name: Seq<char>,
)
    ensures
        concerns(edited(FilterEditView::Exclude(names), filters), name) == (concerns(filters, name)
            && !names.contains(name)),
{
    lemma_edited_concerns(FilterEditView::Exclude(names), filters, name);
}

/// Keeping only names leaves the conditions on the members and the segments of these names, and no
/// others.
pub proof fn keeping_leaves_exactly_the_names(
    names: Seq<Seq<char>>,
    filters: Seq<FilterView>,
    name: Seq<char>,
)
    ensures
        concerns(edited(FilterEditView::KeepOnly(names), filters), name) == (concerns(filters, name)
            && names.contains(name)),
{
    lemma_edited_concerns(FilterEditView::KeepOnly(names), filters, name);
}

// ---------------------------------------------------------------------------------------------
// Directives
// ---------------------------------------------------------------------------------------------

/// Whether one of the members has this name, or is an expression of this name.
pub open spec fn reaches(members: Seq<Rc<MemberSymbol>>, name: Seq<char>) -> bool {
    exists|i: int|
        0 <= i < members.len() && (full_name(*#[trigger] members[i]) == name || full_name(
            *members[i],
        ) == "expr:"@ + name)
}

proof fn lemma_match_names(member: MemberSymbol, name: Seq<char>)
    ensures
        match_names(member).contains(name) == (full_name(member) == name || full_name(member)
            == "expr:"@ + name),
{
    let full = full_name(member);
    let names = match_names(member);
    assert(names[0] == full);
    let n = "expr:"@.len() as int;
    if "expr:"@.is_prefix_of(full) {
        assert(full == "expr:"@ + full.skip(n));
        assert(names[1] == full.skip(n));
        if full == "expr:"@ + name {
            assert(full.skip(n) == name);
        }
    } else if full == "expr:"@ + name {
        assert(full.take(n) == "expr:"@);
        assert("expr:"@.is_prefix_of(full));
    }
}

/// A directive reaches a member or a segment by its name and, where it is listed as an expression,
/// by the name without the prefix; it reaches nothing else.
pub proof fn directives_reach_names_with_and_without_prefix(
    members: Seq<Rc<MemberSymbol>>,
    name: Seq<char>,
)
    ensures
        all_match_names(members).contains(name) == reaches(members, name),
    decreases members.len(),
{
    if members.len() > 0 {
        let before = members.drop_last();
        let last = members.last();
        directives_reach_names_with_and_without_prefix(before, name);
        lemma_match_names(inner(last), name);
        let a = all_match_names(before);
        let b = match_names(inner(last));
        if (a + b).contains(name) {
            let k = choose|k: int| 0 <= k < (a + b).len() && (a + b)[k] == name;
            if k < a.len() {
                assert(a[k] == name);
                assert(reaches(before, name));
                let i = choose|i: int|
                    0 <= i < before.len() && (full_name(inner(#[trigger] before[i])) == name
                        || full_name(inner(before[i])) == "expr:"@ + name);
                assert(members[i] == before[i]);
            } else {
                assert(b[k - a.len()] == name);
                assert(members[members.len() - 1] == last);
            }
        }
        if reaches(members, name) {
            let i = choose|i: int|
                0 <= i < members.len() && (full_name(inner(#[trigger] members[i])) == name
                    || full_name(inner(members[i])) == "expr:"@ + name);
            if i < before.len() {
                assert(before[i] == members[i]);
                assert(reaches(before, name));
                let k = choose|k: int| 0 <= k < a.len() && a[k] == name;
                assert((a + b)[k] == name);
            } else {
                let k = choose|k: int| 0 <= k < b.len() && b[k] == name;
                assert((a + b)[a.len() + k] == name);
            }
        }
    }
}

/// Whether the filters on a name pass a directive.
pub open spec fn passes(filter: MultiStageFilter, name: Seq<char>) -> bool {
    &&& filter.exclude is Some ==> !reaches((filter.exclude->0)@, name)
    &&& filter.keep_only is Some ==> reaches((filter.keep_only->0)@, name)
}

proof fn lemma_directive_kept(filter: MultiStageFilter, state: QueryPropertiesView, name: Seq<char>)
    ensures
        ({
            let rest = directive_kept(filter, directive_excluded(filter, state));
            &&& concerns(rest.dimensions_filters, name) == (concerns(
                state.dimensions_filters,
                name,
            ) && passes(filter, name))
            &&& concerns(rest.time_dimensions_filters, name) == (concerns(
                state.time_dimensions_filters,
                name,
            ) && passes(filter, name))
            &&& concerns(rest.measures_filters, name) == (concerns(state.measures_filters, name)
                && passes(filter, name))
            &&& concerns(rest.segments, name) == (concerns(state.segments, name) && passes(
                filter,
                name,
            ))
        }),
{
    let excluded = directive_excluded(filter, state);
    if let Some(members) = filter.exclude {
        let names = all_match_names(members@);
        directives_reach_names_with_and_without_prefix(members@, name);
        excluding_drops_exactly_the_names(names, state.dimensions_filters, name);
        excluding_drops_exactly_the_names(names, state.time_dimensions_filters, name);
        excluding_drops_exactly_the_names(names, state.measures_filters, name);
        excluding_drops_exactly_the_names(names, state.segments, name);
    }
    if let Some(members) = filter.keep_only {
        let names = all_match_names(members@);
        directives_reach_names_with_and_without_prefix(members@, name);
        keeping_leaves_exactly_the_names(names, excluded.dimensions_filters, name);
        keeping_leaves_exactly_the_names(names, excluded.time_dimensions_filters, name);
        keeping_leaves_exactly_the_names(names, excluded.measures_filters, name);
        keeping_leaves_exactly_the_names(names, excluded.segments, name);
    }
}

/// After a directive, filters concern a name if they did before and the directive neither excludes
/// the name nor keeps only others, or if the directive adds such a filter. What it adds is not
/// subject to what it excludes.
pub proof fn directives_exclude_keep_and_add(
    filter: MultiStageFilter,
    state: QueryPropertiesView,
    name: Seq<char>,
)
    ensures
        ({
            let after = directed(filter, state);
            &&& concerns(after.dimensions_filters, name) == ((concerns(
                state.dimensions_filters,
                name,
            ) && passes(filter, name)) || concerns(filter_views(filter.include_dimension@), name))
            &&& concerns(after.time_dimensions_filters, name) == ((concerns(
                state.time_dimensions_filters,
                name,
            ) && passes(filter, name)) || concerns(
                filter_views(filter.include_time_dimension@),
                name,
            ))
            &&& concerns(after.measures_filters, name) == ((concerns(state.measures_filters, name)
                && passes(filter, name)) || concerns(filter_views(filter.include_measure@), name))
            &&& concerns(after.segments, name) == (concerns(state.segments, name) && passes(
                filter,
                name,
            ))
        }),
{
    let rest = directive_kept(filter, directive_excluded(filter, state));
    lemma_directive_kept(filter, state, name);
    lemma_concerns_add(rest.dimensions_filters, filter_views(filter.include_dimension@), name);
    lemma_concerns_add(
        rest.time_dimensions_filters,
        filter_views(filter.include_time_dimension@),
        name,
    );
    lemma_concerns_add(rest.measures_filters, filter_views(filter.include_measure@), name);
}

/// A directive leaves all but filters and segments as it is.
pub proof fn directives_change_filters_only(filter: MultiStageFilter, state: QueryPropertiesView)
    ensures
        directed(filter, state).query_tools == state.query_tools,
        directed(filter, state).dimensions == state.dimensions,
        directed(filter, state).time_dimensions == state.time_dimensions,
        directed(filter, state).measures == state.measures,
        directed(filter, state).time_shifts == state.time_shifts,
        directed(filter, state).order_by == state.order_by,
        directed(filter, state).ungrouped == state.ungrouped,
{
}

// ---------------------------------------------------------------------------------------------
// States
// ---------------------------------------------------------------------------------------------

/// The state of the query itself does not depend on its measures, on conditions on measures, on its
/// order or on its grouping: stages start without them.
pub proof fn stages_start_without_measures_and_order(a: PlannerView, b: PlannerView)
    requires
        a.query_tools == b.query_tools,
        a.query.dimensions == b.query.dimensions,
        a.query.time_dimensions == b.query.time_dimensions,
        a.query.dimensions_filters == b.query.dimensions_filters,
        a.query.time_dimensions_filters == b.query.time_dimensions_filters,
        a.query.segments == b.query.segments,
    ensures
        root_state(a) == root_state(b),
{
}

/// Inputs of a member with a directive in fixed mode start from the state of the query itself. They
/// are planned for the same state wherever the member is used: nothing of the state there reaches
/// them.
pub proof fn fixed_mode_forgets_the_state(
    planner: PlannerView,
    member: MemberSymbol,
    here: QueryPropertiesView,
    there: QueryPropertiesView,
)
    requires
        filter_directive(member) is Some,
        filter_directive(member)->0.mode is Fixed,
    ensures
        directed_state(planner, member, here) == directed(
            *filter_directive(member)->0,
            root_state(planner),
        ),
        input_state(planner, member, here) == input_state(planner, member, there),
{
}

/// Inputs of a member without a directive, or with one in relative mode, start from the state of
/// the member.
pub proof fn relative_mode_starts_from_the_state(
    planner: PlannerView,
    member: MemberSymbol,
    state: QueryPropertiesView,
)
    requires
        filter_directive(member) is Some ==> filter_directive(member)->0.mode is Relative,
    ensures
        directed_state(planner, member, state) == (match filter_directive(member) {
            Some(filter) => directed(*filter, state),
            None => state,
        }),
{
}

/// Inputs of a member have no condition on the member itself.
pub proof fn inputs_have_no_condition_on_the_member(
    planner: PlannerView,
    member: MemberSymbol,
    state: QueryPropertiesView,
)
    ensures
        !input_state(planner, member, state).has_filters_for(full_name(member)),
{
    let name = full_name(member);
    let directed = directed_state(planner, member, state);
    let edit = FilterEditView::Exclude(seq![name]);
    assert(seq![name].contains(name)) by {
        assert(seq![name][0] == name);
    }
    lemma_edited_concerns(edit, directed.dimensions_filters, name);
    lemma_edited_concerns(edit, directed.time_dimensions_filters, name);
    lemma_edited_concerns(edit, directed.measures_filters, name);
}

/// Conditions on other names than that of the member itself reach its inputs as the directive has
/// left them.
pub proof fn inputs_have_the_conditions_on_other_names(
    planner: PlannerView,
    member: MemberSymbol,
    state: QueryPropertiesView,
    name: Seq<char>,
)
    requires
        name != full_name(member),
    ensures
        ({
            let start = directed_state(planner, member, state);
            let inputs = input_state(planner, member, state);
            &&& concerns(inputs.dimensions_filters, name) == concerns(
                start.dimensions_filters,
                name,
            )
            &&& concerns(inputs.time_dimensions_filters, name) == concerns(
                start.time_dimensions_filters,
                name,
            )
            &&& concerns(inputs.measures_filters, name) == concerns(start.measures_filters, name)
            &&& inputs.segments == start.segments
        }),
{
    let start = directed_state(planner, member, state);
    let names = seq![full_name(member)];
    excluding_drops_exactly_the_names(names, start.dimensions_filters, name);
    excluding_drops_exactly_the_names(names, start.time_dimensions_filters, name);
    excluding_drops_exactly_the_names(names, start.measures_filters, name);
}

proof fn lemma_unique_keeps_names(members: Seq<Rc<MemberSymbol>>, name: Seq<char>)
    ensures
        full_names(unique_by_name(members)).contains(name) == full_names(members).contains(name),
    decreases members.len(),
{
    if members.len() > 0 {
        let before = members.drop_last();
        let last = members.last();
        let rest = unique_by_name(before);
        lemma_unique_keeps_names(before, name);
        assert(full_names(members) == full_names(before).push(full_name(inner(last))));
        if !full_names(rest).contains(full_name(inner(last))) {
            assert(full_names(rest.push(last)) == full_names(rest).push(full_name(inner(last))));
            lemma_push_contains(full_names(rest), full_name(inner(last)), name);
        }
        lemma_push_contains(full_names(before), full_name(inner(last)), name);
        lemma_unique_keeps_names(before, full_name(inner(last)));
    }
}

proof fn lemma_push_contains(names: Seq<Seq<char>>, last: Seq<char>, name: Seq<char>)
    ensures
        names.push(last).contains(name) == (names.contains(name) || last == name),
{
    let all = names.push(last);
    if names.contains(name) {
        let i = choose|i: int| 0 <= i < names.len() && names[i] == name;
        assert(all[i] == name);
    }
    if last == name {
        assert(all[names.len() as int] == name);
    }
    if all.contains(name) && last != name {
        let i = choose|i: int| 0 <= i < all.len() && all[i] == name;
        assert(names[i] == name);
    }
}

/// Inputs of a member are grouped by the dimensions of the state they start from, and by those
/// that the member adds.
pub proof fn inputs_are_grouped_by_added_dimensions(
    planner: PlannerView,
    member: MemberSymbol,
    state: QueryPropertiesView,
    name: Seq<char>,
)
    ensures
        full_names(input_state(planner, member, state).dimensions).contains(name) == (full_names(
            directed_state(planner, member, state).dimensions,
        ).contains(name) || full_names(input_dimensions(member)).contains(name)),
{
    let kept = directed_state(planner, member, state).dimensions;
    let added = input_dimensions(member);
    if added.len() > 0 {
        lemma_unique_keeps_names(kept + added, name);
        assert(full_names(kept + added) == full_names(kept) + full_names(added));
        let a = full_names(kept);
        let b = full_names(added);
        if a.contains(name) {
            let i = choose|i: int| 0 <= i < a.len() && a[i] == name;
            assert((a + b)[i] == name);
        }
        if b.contains(name) {
            let i = choose|i: int| 0 <= i < b.len() && b[i] == name;
            assert((a + b)[a.len() + i] == name);
        }
        if (a + b).contains(name) {
            let i = choose|i: int| 0 <= i < (a + b).len() && (a + b)[i] == name;
            if i < a.len() {
                assert(a[i] == name);
            } else {
                assert(b[i - a.len()] == name);
            }
        }
    } else {
        assert(full_names(added).len() == 0);
    }
}

/// A query none of whose members takes more than one stage has no stages, and planning gives out
/// no names.
pub proof fn plain_queries_have_no_stages(planner: PlannerView, next: nat)
    requires
        multi_stage_members(planner.query).len() == 0,
    ensures
        plan_query(planner, next).plan.descriptions.len() == 0,
        plan_query(planner, next).plan.next == next,
        plan_query(planner, next).references.len() == 0,
        plan_query(planner, next).error is None,
{
}

// ---------------------------------------------------------------------------------------------
// Switches
// ---------------------------------------------------------------------------------------------

/// Whether a use is one of the member of this name.
pub open spec fn uses_name(used: SwitchUse, name: Seq<char>) -> bool {
    full_name(resolved(*used.dep)) == name
}

/// Whether one of the uses is of the member of this name.
pub open spec fn is_used(uses: Seq<SwitchUse>, name: Seq<char>) -> bool {
    exists|k: int| 0 <= k < uses.len() && uses_name(#[trigger] uses[k], name)
}

/// Whether one of the uses is of the member of this name and for all values.
pub open spec fn is_used_for_all(uses: Seq<SwitchUse>, name: Seq<char>) -> bool {
    exists|k: int|
        0 <= k < uses.len() && uses_name(#[trigger] uses[k], name) && uses[k].values is None
}

/// Whether one of the uses is of the member of this name and for this value.
pub open spec fn is_used_for(uses: Seq<SwitchUse>, name: Seq<char>, value: Seq<char>) -> bool {
    exists|k: int|
        0 <= k < uses.len() && uses_name(#[trigger] uses[k], name) && uses[k].values is Some && (
        uses[k].values->0).contains(value)
}

/// Whether an entry stands for uses: it has no values where a use is for all values, and else the
/// values of the uses, each once.
pub open spec fn stands_for(entry: SwitchEntry, uses: Seq<SwitchUse>) -> bool {
    let name = full_name(*entry.dep);
    &&& (entry.values is None) == is_used_for_all(uses, name)
    &&& entry.values is Some ==> (entry.values->0).no_duplicates()
    &&& entry.values is Some ==> forall|value: Seq<char>|
        #[trigger] (entry.values->0).contains(value) == is_used_for(uses, name, value)
}

proof fn lemma_is_used_push(uses: Seq<SwitchUse>, used: SwitchUse, name: Seq<char>)
    ensures
        is_used(uses.push(used), name) == (is_used(uses, name) || uses_name(used, name)),
        is_used_for_all(uses.push(used), name) == (is_used_for_all(uses, name) || (uses_name(
            used,
            name,
        ) && used.values is None)),
{
    let all = uses.push(used);
    assert(all[uses.len() as int] == used);
    if is_used(uses, name) {
        let k = choose|k: int| 0 <= k < uses.len() && uses_name(#[trigger] uses[k], name);
        assert(uses_name(all[k], name));
    }
    if is_used_for_all(uses, name) {
        let k = choose|k: int|
            0 <= k < uses.len() && uses_name(#[trigger] uses[k], name) && uses[k].values is None;
        assert(uses_name(all[k], name));
    }
    if is_used(all, name) && !uses_name(used, name) {
        let k = choose|k: int| 0 <= k < all.len() && uses_name(#[trigger] all[k], name);
        assert(uses_name(uses[k], name));
    }
    if is_used_for_all(all, name) && !(uses_name(used, name) && used.values is None) {
        let k = choose|k: int|
            0 <= k < all.len() && uses_name(#[trigger] all[k], name) && all[k].values is None;
        assert(uses_name(uses[k], name));
    }
}

proof fn lemma_is_used_for_push(
    uses: Seq<SwitchUse>,
    used: SwitchUse,
    name: Seq<char>,
    value: Seq<char>,
)
    ensures
        is_used_for(uses.push(used), name, value) == (is_used_for(uses, name, value) || (uses_name(
            used,
            name,
        ) && used.values is Some && (used.values->0).contains(value))),
{
    let all = uses.push(used);
    assert(all[uses.len() as int] == used);
    if is_used_for(uses, name, value) {
        let k = choose|k: int|
            0 <= k < uses.len() && uses_name(#[trigger] uses[k], name) && uses[k].values is Some
                && (uses[k].values->0).contains(value);
        assert(uses_name(all[k], name));
    }
    if is_used_for(all, name, value) {
        let k = choose|k: int|
            0 <= k < all.len() && uses_name(#[trigger] all[k], name) && all[k].values is Some && (
            all[k].values->0).contains(value);
        if k < uses.len() {
            assert(uses_name(uses[k], name));
        }
    }
}

proof fn lemma_with_values(values: Seq<Seq<char>>, more: Seq<Seq<char>>)
    requires
        values.no_duplicates(),
    ensures
        with_values(values, more).no_duplicates(),
        forall|value: Seq<char>| #[trigger]
            with_values(values, more).contains(value) == (values.contains(value) || more.contains(
                value,
            )),
    decreases more.len(),
{
    if more.len() > 0 {
        let before = more.drop_last();
        let last = more.last();
        assert(more == before.push(last));
        lemma_with_values(values, before);
        let rest = with_values(values, before);
        assert forall|value: Seq<char>| #[trigger]
            with_values(values, more).contains(value) == (values.contains(value) || more.contains(
                value,
            )) by {
            lemma_push_contains(before, last, value);
            lemma_push_contains(rest, last, value);
            assert(rest.contains(value) == (values.contains(value) || before.contains(value)));
        }
    }
}

proof fn lemma_entries(uses: Seq<SwitchUse>)
    ensures
        ({
            let entries = with_uses(Seq::empty(), uses);
            &&& distinct_names(entries)
            &&& forall|name: Seq<char>| #[trigger] has_entry(entries, name) == is_used(uses, name)
            &&& forall|i: int| 0 <= i < entries.len() ==> stands_for(#[trigger] entries[i], uses)
        }),
    decreases uses.len(),
{
    let entries = with_uses(Seq::empty(), uses);
    if uses.len() > 0 {
        let before = uses.drop_last();
        let used = uses.last();
        assert(uses == before.push(used));
        lemma_entries(before);
        let rest = with_uses(Seq::empty(), before);
        let name = full_name(resolved(inner(used.dep)));
        lemma_with_use_distinct(rest, used);
        assert forall|other: Seq<char>| #[trigger] has_entry(entries, other) == is_used(
            uses,
            other,
        ) by {
            lemma_is_used_push(before, used, other);
            assert(has_entry(rest, other) == is_used(before, other));
            if has_entry(rest, other) {
                let i = choose|i: int|
                    0 <= i < rest.len() && full_name(*#[trigger] rest[i].dep) == other;
                assert(entries[i].dep == rest[i].dep);
            }
            if has_entry(entries, other) {
                let i = choose|i: int|
                    0 <= i < entries.len() && full_name(*#[trigger] entries[i].dep) == other;
                if i < rest.len() {
                    assert(rest[i].dep == entries[i].dep);
                }
            }
            if other == name && !has_entry(rest, name) {
                assert(full_name(*entries[rest.len() as int].dep) == name);
            }
        }
        assert forall|i: int| 0 <= i < entries.len() implies stands_for(
            #[trigger] entries[i],
            uses,
        ) by {
            lemma_entry(rest, before, used, i);
        }
    }
}

proof fn lemma_entry(rest: Seq<SwitchEntry>, uses: Seq<SwitchUse>, used: SwitchUse, i: int)
    requires
        forall|name: Seq<char>| #[trigger] has_entry(rest, name) == is_used(uses, name),
        forall|k: int| 0 <= k < rest.len() ==> stands_for(#[trigger] rest[k], uses),
        0 <= i < with_use(rest, used).len(),
    ensures
        stands_for(with_use(rest, used)[i], uses.push(used)),
{
    let entry = with_use(rest, used)[i];
    let name = full_name(inner(entry.dep));
    lemma_is_used_push(uses, used, name);
    assert forall|value: Seq<char>| entry.values is Some implies #[trigger] (
    entry.values->0).contains(value) == is_used_for(uses.push(used), name, value) by {
        lemma_is_used_for_push(uses, used, name, value);
        if i < rest.len() {
            assert(stands_for(rest[i], uses));
            if uses_name(used, name) {
                lemma_with_values(rest[i].values->0, used.values->0);
            }
        } else {
            assert(!has_entry(rest, name));
            lemma_with_values(Seq::empty(), used.values->0);
            lemma_unused(uses, name, value);
        }
    }
    if i < rest.len() {
        assert(stands_for(rest[i], uses));
        if uses_name(used, name) && rest[i].values is Some && used.values is Some {
            lemma_with_values(rest[i].values->0, used.values->0);
        }
    } else {
        assert(!has_entry(rest, name));
        assert(!is_used(uses, name));
        lemma_unused(uses, name, Seq::empty());
        if used.values is Some {
            lemma_with_values(Seq::empty(), used.values->0);
        }
    }
}

proof fn lemma_unused(uses: Seq<SwitchUse>, name: Seq<char>, value: Seq<char>)
    requires
        !is_used(uses, name),
    ensures
        !is_used_for_all(uses, name),
        !is_used_for(uses, name, value),
{
    if is_used_for_all(uses, name) {
        let k = choose|k: int|
            0 <= k < uses.len() && uses_name(#[trigger] uses[k], name) && uses[k].values is None;
        assert(uses_name(uses[k], name));
    }
    if is_used_for(uses, name, value) {
        let k = choose|k: int|
            0 <= k < uses.len() && uses_name(#[trigger] uses[k], name) && uses[k].values is Some
                && (uses[k].values->0).contains(value);
        assert(uses_name(uses[k], name));
    }
}

/// Each member that a branch of a switch depends on is planned once, and no other is. It is planned
/// for the values of the branches that depend on it; if one of them is for all other values and
/// these are not known, it is planned for all.
pub proof fn switches_plan_each_dependency_once(definition: CaseSwitchDefinition)
    ensures
        distinct_names(switch_entries(definition)),
        forall|name: Seq<char>| #[trigger]
            has_entry(switch_entries(definition), name) == is_used(switch_uses(definition), name),
        forall|i: int|
            0 <= i < switch_entries(definition).len() ==> stands_for(
                #[trigger] switch_entries(definition)[i],
                switch_uses(definition),
            ),
{
    lemma_entries(switch_uses(definition));
}

// ---------------------------------------------------------------------------------------------
// Windows
// ---------------------------------------------------------------------------------------------

/// The input of a window that steps through time is grouped by one time dimension: none is left
/// among the other dimensions.
pub proof fn window_inputs_have_one_time_dimension(
    dimension: TimeDimensionSymbol,
    window: RollingWindow,
    state: QueryPropertiesView,
)
    requires
        rolling_base_state(dimension, window, state) is Ok,
    ensures
        ({
            let base = rolling_base_state(dimension, window, state)->Ok_0;
            &&& base.time_dimensions == seq![base_time_dimension(dimension, window)]
            &&& forall|i: int|
                0 <= i < base.dimensions.len() ==> !(resolved(*#[trigger] base.dimensions[i])
                    is TimeDimension)
        }),
{
    let keep = |d: Rc<MemberSymbol>| !(resolved(*d) is TimeDimension);
    let base = rolling_base_state(dimension, window, state)->Ok_0;
    assert forall|i: int| 0 <= i < base.dimensions.len() implies !(resolved(
        *#[trigger] base.dimensions[i],
    ) is TimeDimension) by {
        state.dimensions.lemma_filter_pred(keep, i);
    }
}

/// Where one of the time dimensions of a window has a granularity that those of all others are made
/// of, the window steps by that granularity.
pub proof fn windows_step_by_the_smallest_granularity(
    dimensions: Seq<Rc<TimeDimensionSymbol>>,
    j: int,
    unit: Granularity,
)
    requires
        0 <= j < dimensions.len(),
        resolved_granularity(*dimensions[j]) == Some(unit),
        forall|i: int|
            0 <= i < dimensions.len() ==> is_made_of(
                resolved_granularity(*#[trigger] dimensions[i]),
                unit,
            ),
    ensures
        resolved_granularity(*finest(dimensions)) == Some(unit),
    decreases dimensions.len(),
{
    if dimensions.len() > 1 {
        let before = dimensions.drop_last();
        let last = dimensions.last();
        assert(last == dimensions[dimensions.len() - 1]);
        assert forall|i: int| 0 <= i < before.len() implies is_made_of(
            resolved_granularity(inner(#[trigger] before[i])),
            unit,
        ) by {
            assert(before[i] == dimensions[i]);
        }
        lemma_finest_is_made_of(before, unit);
        let best = resolved_granularity(inner(finest(before)));
        let step = resolved_granularity(inner(last));
        if best is Some {
            common_unit_with_part(best->0, unit);
        }
        if step is Some {
            common_unit_with_part(step->0, unit);
        }
        if j < before.len() {
            assert(before[j] == dimensions[j]);
            windows_step_by_the_smallest_granularity(before, j, unit);
        }
    }
}

/// Whether a granularity, if there is one, is made of the unit.
pub open spec fn is_made_of(granularity: Option<Granularity>, unit: Granularity) -> bool {
    granularity is Some ==> made_of(granularity->0, unit)
}

proof fn lemma_finest_is_made_of(dimensions: Seq<Rc<TimeDimensionSymbol>>, unit: Granularity)
    requires
        dimensions.len() > 0,
        forall|i: int|
            0 <= i < dimensions.len() ==> is_made_of(
                resolved_granularity(*#[trigger] dimensions[i]),
                unit,
            ),
    ensures
        is_made_of(resolved_granularity(*finest(dimensions)), unit),
    decreases dimensions.len(),
{
    if dimensions.len() > 1 {
        let before = dimensions.drop_last();
        assert forall|i: int| 0 <= i < before.len() implies is_made_of(
            resolved_granularity(inner(#[trigger] before[i])),
            unit,
        ) by {
            assert(before[i] == dimensions[i]);
        }
        lemma_finest_is_made_of(before, unit);
        assert(dimensions.last() == dimensions[dimensions.len() - 1]);
    } else {
        assert(finest(dimensions) == dimensions[0]);
    }
}

/// The input of a window is grouped by a unit that the steps of the window and both its sides are
/// made of.
pub proof fn window_inputs_are_fine_enough(
    dimension: TimeDimensionSymbol,
    window: RollingWindow,
    unit: Granularity,
)
    requires
        optional_interval_unit(window.trailing) == Some(unit) || optional_interval_unit(
            window.leading,
        ) == Some(unit) || resolved_granularity(dimension) == Some(unit),
    ensures
        base_granularity(dimension, window) is Some,
        made_of(unit, base_granularity(dimension, window)->0),
{
    let trailing = optional_interval_unit(window.trailing);
    let leading = optional_interval_unit(window.leading);
    let sides = min_granularity(trailing, leading);
    let step = resolved_granularity(dimension);
    if trailing is Some && leading is Some {
        common_unit_is_coarsest(trailing->0, leading->0, leading->0);
    }
    if sides is Some && step is Some {
        common_unit_is_coarsest(sides->0, step->0, step->0);
        if made_of(unit, sides->0) {
            made_of_is_transitive(unit, sides->0, base_granularity(dimension, window)->0);
        }
    }
}

/// A window to the date needs a period to start with.
pub proof fn windows_to_date_need_a_period(
    planner: PlannerView,
    member: Rc<MemberSymbol>,
    measure: Rc<MeasureSymbol>,
    state: QueryPropertiesView,
    plan: PlanState,
)
    requires
        *member == MemberSymbol::Measure(measure),
        is_cumulative(*measure),
        measure.multi_stage is Some || measure_children(*member).len() == 0,
        query_time_dimensions(planner.query) is Ok,
        query_time_dimensions(planner.query)->Ok_0.len() > 0,
        agree(query_time_dimensions(planner.query)->Ok_0),
        window_of(*measure).rolling_type is Some,
        window_of(*measure).rolling_type->0@ == "to_date"@,
        window_of(*measure).granularity is None,
    ensures
        plan_window(planner, member, state, plan) == (
            Err::<Option<DescriptionView>, CubeErrorView>(granularity_required()),
            plan,
        ),
{
}

/// Whether a filter bounds the member of this name to a range of dates, at any depth.
pub open spec fn item_has_date_range(filter: FilterView, member: Seq<char>) -> bool
    decreases filter,
{
    match filter {
        FilterView::Group { items, .. } => exists|i: int|
            0 <= i < items.len() && item_has_date_range(#[trigger] items[i], member),
        FilterView::Item(item) => is_date_range_on(item, member),
        FilterView::Segment(_) => false,
    }
}

/// Whether filters bound the member of this name to a range of dates, at any depth.
pub open spec fn has_date_range(filters: Seq<FilterView>, member: Seq<char>) -> bool {
    exists|i: int| 0 <= i < filters.len() && item_has_date_range(#[trigger] filters[i], member)
}

/// Whether an edit puts something else in the place of date ranges on the member of this name.
pub open spec fn replaces_date_range(edit: FilterEditView, member: Seq<char>) -> bool {
    match edit {
        FilterEditView::ReplaceDateRange { member_name, filter_operator, .. } => member
            == member_name && filter_operator != FilterOperator::InDateRange,
        FilterEditView::OpenDateRange { member_name, open_start, open_end } => member
            == member_name && (open_start || open_end),
        _ => false,
    }
}

proof fn lemma_date_range_push(filters: Seq<FilterView>, filter: FilterView, member: Seq<char>)
    ensures
        has_date_range(filters.push(filter), member) == (has_date_range(filters, member)
            || item_has_date_range(filter, member)),
{
    let all = filters.push(filter);
    if has_date_range(filters, member) {
        let i = choose|i: int|
            0 <= i < filters.len() && item_has_date_range(#[trigger] filters[i], member);
        assert(item_has_date_range(all[i], member));
    }
    if item_has_date_range(filter, member) {
        assert(item_has_date_range(all[filters.len() as int], member));
    }
    if has_date_range(all, member) && !item_has_date_range(filter, member) {
        let i = choose|i: int|
            0 <= i < all.len() && item_has_date_range(#[trigger] all[i], member);
        assert(item_has_date_range(filters[i], member));
    }
}

proof fn lemma_group_date_range(filter: FilterView, member: Seq<char>)
    requires
        filter is Group,
    ensures
        item_has_date_range(filter, member) == has_date_range(filter->items, member),
{
    let items = filter->items;
    assert(item_has_date_range(filter, member) == exists|i: int|
        0 <= i < items.len() && item_has_date_range(#[trigger] items[i], member));
}

proof fn lemma_edited_filter_date_range(
    edit: FilterEditView,
    filter: FilterView,
    member: Seq<char>,
)
    requires
        edit is ReplaceDateRange || edit is OpenDateRange,
    ensures
        (match edited_filter(edit, filter) {
            Some(rest) => item_has_date_range(rest, member),
            None => false,
        }) == (item_has_date_range(filter, member) && !replaces_date_range(edit, member)),
    decreases filter,
{
    match filter {
        FilterView::Group { operator, items } => {
            let rest = edited(edit, items);
            lemma_edited_date_range(edit, items, member);
            lemma_group_date_range(filter, member);
            lemma_group_date_range(FilterView::Group { operator, items: rest }, member);
            if rest.len() == 0 {
                assert(!has_date_range(rest, member));
            }
        },
        FilterView::Item(_) => {},
        FilterView::Segment(_) => {},
    }
}

proof fn lemma_edited_date_range(edit: FilterEditView, filters: Seq<FilterView>, member: Seq<char>)
    requires
        edit is ReplaceDateRange || edit is OpenDateRange,
    ensures
        has_date_range(edited(edit, filters), member) == (has_date_range(filters, member)
            && !replaces_date_range(edit, member)),
    decreases filters,
{
    if filters.len() > 0 {
        let before = filters.drop_last();
        let last = filters.last();
        assert(filters == before.push(last));
        lemma_edited_date_range(edit, before, member);
        lemma_edited_filter_date_range(edit, last, member);
        lemma_date_range_push(before, last, member);
        match edited_filter(edit, last) {
            Some(rest) => {
                lemma_date_range_push(edited(edit, before), rest, member);
            },
            None => {},
        }
    }
}

/// The input of a window that steps through time has no plain date range on its time dimension: the
/// range is as wide as the window needs. Date ranges on other members stay.
pub proof fn window_inputs_have_a_wider_date_range(
    dimension: TimeDimensionSymbol,
    window: RollingWindow,
    state: QueryPropertiesView,
    member: Seq<char>,
)
    requires
        rolling_base_state(dimension, window, state) is Ok,
    ensures
        has_date_range(
            rolling_base_state(dimension, window, state)->Ok_0.time_dimensions_filters,
            member,
        ) == (has_date_range(state.time_dimensions_filters, member) && member != full_name(
            *dimension.base_symbol,
        )),
{
    let edit = window_edit(dimension, window, to_date_granularity(window)->Ok_0);
    lemma_edited_date_range(edit, state.time_dimensions_filters, member);
}

/// Whether one of the first `n` filters is a date range on the member of this name.
pub open spec fn is_bounded_by_first(filters: Seq<FilterView>, n: nat, member: Seq<char>) -> bool {
    exists|i: int|
        0 <= i < n && (#[trigger] filters[i]) is Item && is_date_range_on(filters[i]->Item_0, member)
}

proof fn lemma_date_ranges_opened(
    window: RollingWindow,
    state: QueryPropertiesView,
    n: nat,
    member: Seq<char>,
)
    requires
        n <= state.time_dimensions_filters.len(),
    ensures
        has_date_range(
            date_ranges_opened(window, state, n).time_dimensions_filters,
            member,
        ) == (has_date_range(state.time_dimensions_filters, member) && !((is_unbounded(
            window.trailing,
        ) || is_unbounded(window.leading)) && is_bounded_by_first(
            state.time_dimensions_filters,
            n,
            member,
        ))),
    decreases n,
{
    let filters = state.time_dimensions_filters;
    if n > 0 {
        let m = (n - 1) as nat;
        lemma_date_ranges_opened(window, state, m, member);
        let before = date_ranges_opened(window, state, m);
        if is_bounded_by_first(filters, m, member) {
            let i = choose|i: int|
                0 <= i < m && (#[trigger] filters[i]) is Item && is_date_range_on(
                    filters[i]->Item_0,
                    member,
                );
            assert(filters[i] is Item);
            assert(is_bounded_by_first(filters, n, member));
        }
        if is_bounded_by_first(filters, n, member) && !is_bounded_by_first(filters, m, member) {
            let i = choose|i: int|
                0 <= i < n && (#[trigger] filters[i]) is Item && is_date_range_on(
                    filters[i]->Item_0,
                    member,
                );
            assert(i == n - 1);
        }
        if let FilterView::Item(item) = filters[n - 1] {
            if item.filter_operator == FilterOperator::InDateRange {
                let edit = FilterEditView::OpenDateRange {
                    member_name: full_name(inner(item.member)),
                    open_start: is_unbounded(window.trailing),
                    open_end: is_unbounded(window.leading),
                };
                lemma_edited_date_range(edit, before.time_dimensions_filters, member);
                if member == full_name(inner(item.member)) {
                    assert(filters[n - 1] is Item);
                    assert(is_bounded_by_first(filters, n, member));
                }
            }
        }
    }
}

/// A window that nothing steps through and that has no bound on one side leaves no date range on a
/// member that a filter of its state bounds by itself. Other date ranges stay.
pub proof fn unbounded_windows_open_date_ranges(
    window: RollingWindow,
    state: QueryPropertiesView,
    member: Seq<char>,
)
    ensures
        has_date_range(unstepped_state(window, state).time_dimensions_filters, member) == (
        has_date_range(state.time_dimensions_filters, member) && !((is_unbounded(window.trailing)
            || is_unbounded(window.leading)) && is_bounded_by_first(
            state.time_dimensions_filters,
            state.time_dimensions_filters.len(),
            member,
        ))),
{
    lemma_date_ranges_opened(window, state, state.time_dimensions_filters.len(), member);
}

/// A window that nothing steps through has no series of points: a measure that is not multi-stage
/// takes one stage, which reads the data.
pub proof fn unstepped_windows_take_one_stage(
    planner: PlannerView,
    member: Rc<MemberSymbol>,
    measure: Rc<MeasureSymbol>,
    state: QueryPropertiesView,
    plan: PlanState,
)
    requires
        *member == MemberSymbol::Measure(measure),
        is_cumulative(*measure),
        measure.multi_stage is None,
        measure_children(*member).len() == 0,
        query_time_dimensions(planner.query) == Ok::<Seq<Rc<TimeDimensionSymbol>>, CubeErrorView>(
            Seq::empty(),
        ),
    ensures
        ({
            let (result, after) = plan_window(planner, member, state, plan);
            &&& result is Ok
            &&& result->Ok_0 is Some
            &&& result->Ok_0->0.input.len() == 0
            &&& result->Ok_0->0.member.member_type == MemberTypeView::Leaf(LeafView::Measure)
            &&& after.descriptions == plan.descriptions.push(result->Ok_0->0)
        }),
{
}

} // verus!
