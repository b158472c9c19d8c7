//! What a plan is.
//!
//! The functions here say, for each step of planning, what comes out of it and what it leaves
//! behind. A step starts from a [`PlanState`] and ends in another one.

use crate::cte::cte_name;
use crate::cte::MultiStageSubqueryRefView;
use crate::error::internal_error;
use crate::error::user_error;
use crate::error::CubeErrorView;
use crate::filter::filter_views;
use crate::filter::optional_text;
use crate::filter::BaseFilterView;
use crate::filter::FilterOperator;
use crate::filter::FilterType;
use crate::filter::FilterView;
use crate::filter_edit::FilterEditView;
use crate::granularity::min_granularity;
use crate::granularity::optional_interval_unit;
use crate::granularity::Granularity;
use crate::query_properties::is_unbounded;
use crate::query_properties::QueryPropertiesView;
use crate::query_properties::QueryTools;
use crate::stage::DescriptionView;
use crate::stage::InodeTypeView;
use crate::stage::InodeView;
use crate::stage::LeafView;
use crate::stage::MemberTypeView;
use crate::stage::RollingWindowTypeView;
use crate::stage::RollingWindowView;
use crate::stage::StageMemberView;
use crate::static_filter::lemma_statically_filtered_height;
use crate::static_filter::statically_filtered;
use crate::switch::lemma_switch_entries_lie_below;
use crate::switch::switch_entries;
use crate::switch::switch_height;
use crate::switch::SwitchEntry;
use crate::symbol::case_of;
use crate::symbol::case_switch_dimension;
use crate::symbol::cube_name;
use crate::symbol::dependencies;
use crate::symbol::full_name;
use crate::symbol::full_names;
use crate::symbol::has_multi_stage;
use crate::symbol::height;
use crate::symbol::inner;
use crate::symbol::is_cumulative;
use crate::symbol::lemma_dependencies_lie_below;
use crate::symbol::lemma_resolved_height;
use crate::symbol::multi_stage_of;
use crate::symbol::not_a_time_dimension;
use crate::symbol::resolved;
use crate::symbol::resolved_granularity;
use crate::symbol::short_name;
use crate::symbol::unrolled;
use crate::symbol::with_granularity;
use crate::symbol::Case;
use crate::symbol::CaseSwitchDefinition;
use crate::symbol::CaseSwitchItem;
use crate::symbol::MeasureKind;
use crate::symbol::MeasureSymbol;
use crate::symbol::MemberSymbol;
use crate::symbol::MultiStageFilter;
use crate::symbol::MultiStageFilterMode;
use crate::symbol::RollingWindow;
use crate::symbol::TimeDimensionSymbol;
use crate::text::joined;
use std::rc::Rc;
use vstd::prelude::*;

verus! {

/// What planning starts from.
pub struct PlannerView {
    pub query_tools: Rc<QueryTools>,
    pub query: QueryPropertiesView,
}

/// What planning has produced so far.
#[verifier::ext_equal]
pub struct PlanState {
    /// The stages, each after those it reads.
    pub descriptions: Seq<DescriptionView>,
    /// The names of the multi-stage dimensions that were taken up.
    pub resolved: Set<Seq<char>>,
    /// The number that the next name is made of.
    pub next: nat,
}

impl PlanState {
    /// The state in which the next name has been given out.
    pub open spec fn named(self) -> Self {
        PlanState { next: self.next + 1, ..self }
    }

    pub open spec fn push(self, description: DescriptionView) -> Self {
        PlanState { descriptions: self.descriptions.push(description), ..self }
    }
}

/// The state of the query itself: its dimensions, filters and segments. Conditions on measures do
/// not reach the stages, and the order of the result means nothing to them.
pub open spec fn root_state(planner: PlannerView) -> QueryPropertiesView {
    QueryPropertiesView {
        query_tools: planner.query_tools,
        measures: Seq::empty(),
        dimensions: planner.query.dimensions,
        time_dimensions: planner.query.time_dimensions,
        dimensions_filters: planner.query.dimensions_filters,
        time_dimensions_filters: planner.query.time_dimensions_filters,
        measures_filters: Seq::empty(),
        segments: planner.query.segments,
        time_shifts: Seq::empty(),
        order_by: Seq::empty(),
        ungrouped: false,
    }
}

// ---------------------------------------------------------------------------------------------
// Inner stages
// ---------------------------------------------------------------------------------------------

pub open spec fn list_or_empty(list: Option<Rc<Vec<Rc<MemberSymbol>>>>) -> Seq<Rc<MemberSymbol>> {
    match list {
        Some(list) => list@,
        None => Seq::empty(),
    }
}

pub open spec fn shared_list(list: Option<Rc<Vec<Rc<MemberSymbol>>>>) -> Option<
    Seq<Rc<MemberSymbol>>,
> {
    match list {
        Some(list) => Some(list@),
        None => None,
    }
}

/// How a measure is computed from the stages below it.
pub open spec fn measure_inode_type(kind: MeasureKind) -> InodeTypeView {
    match kind {
        MeasureKind::Rank => InodeTypeView::Rank,
        MeasureKind::Calculated => InodeTypeView::Calculate,
        _ => InodeTypeView::Aggregate,
    }
}

/// What the stage of a multi-stage member computes. A measure brings all that its definition
/// says; of a dimension only the additional grouping counts.
pub open spec fn inode_of(member: MemberSymbol) -> InodeView {
    match member {
        MemberSymbol::Measure(m) => match m.multi_stage {
            Some(multi_stage) => InodeView {
                inode_type: measure_inode_type(m.kind),
                reduce_by: list_or_empty(multi_stage.reduce_by),
                add_group_by: list_or_empty(multi_stage.add_group_by),
                group_by: shared_list(multi_stage.group_by),
                time_shift: multi_stage.time_shift,
            },
            None => InodeView {
                inode_type: measure_inode_type(m.kind),
                reduce_by: Seq::empty(),
                add_group_by: Seq::empty(),
                group_by: None,
                time_shift: None,
            },
        },
        _ => InodeView {
            inode_type: InodeTypeView::Dimension,
            reduce_by: Seq::empty(),
            add_group_by: match member {
                MemberSymbol::Dimension(d) => match d.multi_stage {
                    Some(multi_stage) => list_or_empty(multi_stage.add_group_by),
                    None => Seq::empty(),
                },
                _ => Seq::empty(),
            },
            group_by: None,
            time_shift: None,
        },
    }
}

/// Whether the stage of a multi-stage member leaves rows as they are: ranks and calculations do,
/// aggregates do as the query does, dimensions do not.
pub open spec fn inode_is_ungrouped(planner: PlannerView, member: MemberSymbol) -> bool {
    match member {
        MemberSymbol::Measure(m) => match m.kind {
            MeasureKind::Rank => true,
            MeasureKind::Calculated => true,
            _ => planner.query.ungrouped,
        },
        _ => false,
    }
}

/// The dimensions taken up once the stage of the member has been begun.
pub open spec fn resolved_with(member: MemberSymbol, names: Set<Seq<char>>) -> Set<Seq<char>> {
    if member is Measure {
        names
    } else {
        names.insert(full_name(resolved(member)))
    }
}

// ---------------------------------------------------------------------------------------------
// Filter directives
// ---------------------------------------------------------------------------------------------

/// The filter directive of a member.
pub open spec fn filter_directive(member: MemberSymbol) -> Option<Rc<MultiStageFilter>> {
    match multi_stage_of(member) {
        Some(multi_stage) => multi_stage.filter,
        None => None,
    }
}

/// The names by which a directive reaches a member: a segment is listed as an expression of the
/// query, whose name has a prefix, and filters know it without.
pub open spec fn match_names(member: MemberSymbol) -> Seq<Seq<char>> {
    let name = full_name(member);
    if "expr:"@.is_prefix_of(name) {
        seq![name, name.skip("expr:"@.len() as int)]
    } else {
        seq![name]
    }
}

/// The names by which a directive reaches members.
pub open spec fn all_match_names(members: Seq<Rc<MemberSymbol>>) -> Seq<Seq<char>>
    decreases members.len(),
{
    if members.len() == 0 {
        Seq::empty()
    } else {
        all_match_names(members.drop_last()) + match_names(*members.last())
    }
}

/// A state without what a directive excludes.
pub open spec fn directive_excluded(
    filter: MultiStageFilter,
    state: QueryPropertiesView,
) -> QueryPropertiesView {
    match filter.exclude {
        Some(members) => state.filters_and_segments_edited(
            FilterEditView::Exclude(all_match_names(members@)),
        ),
        None => state,
    }
}

/// A state with no more than what a directive keeps.
pub open spec fn directive_kept(
    filter: MultiStageFilter,
    state: QueryPropertiesView,
) -> QueryPropertiesView {
    match filter.keep_only {
        Some(members) => state.filters_and_segments_edited(
            FilterEditView::KeepOnly(all_match_names(members@)),
        ),
        None => state,
    }
}

/// A state with a directive applied: it excludes, then keeps only, then adds.
pub open spec fn directed(
    filter: MultiStageFilter,
    state: QueryPropertiesView,
) -> QueryPropertiesView {
    let rest = directive_kept(filter, directive_excluded(filter, state));
    QueryPropertiesView {
        dimensions_filters: rest.dimensions_filters + filter_views(filter.include_dimension@),
        time_dimensions_filters: rest.time_dimensions_filters + filter_views(
            filter.include_time_dimension@,
        ),
        measures_filters: rest.measures_filters + filter_views(filter.include_measure@),
        ..rest
    }
}

// ---------------------------------------------------------------------------------------------
// The state of inputs
// ---------------------------------------------------------------------------------------------

/// The dimensions that the inputs of a multi-stage member have beside those of its state: those
/// that it groups by in addition, and the one that it switches on.
pub open spec fn input_dimensions(member: MemberSymbol) -> Seq<Rc<MemberSymbol>> {
    match case_switch_dimension(case_of(member)) {
        Some(dimension) => inode_of(member).add_group_by.push(dimension),
        None => inode_of(member).add_group_by,
    }
}

/// The state that the filters of inputs start from, with the directive of the member applied.
///
/// Fixed mode returns to the state of the query itself, whatever was made of it on the way. Below a
/// rolling window this loses what the window needs: its input then reads the date range of the
/// query, not the wider one, and is grouped by the time dimensions of the query.
pub open spec fn directed_state(
    planner: PlannerView,
    member: MemberSymbol,
    state: QueryPropertiesView,
) -> QueryPropertiesView {
    match filter_directive(member) {
        Some(filter) => directed(
            *filter,
            match filter.mode {
                MultiStageFilterMode::Fixed => root_state(planner),
                MultiStageFilterMode::Relative => state,
            },
        ),
        None => state,
    }
}

/// The state for which the inputs of a multi-stage member are computed: its own one with its
/// directive applied, its dimensions and its time shift added, and without conditions on itself.
pub open spec fn input_state(
    planner: PlannerView,
    member: MemberSymbol,
    state: QueryPropertiesView,
) -> QueryPropertiesView {
    let directed = directed_state(planner, member, state);
    let grouped = if input_dimensions(member).len() > 0 {
        directed.with_dimensions_added(input_dimensions(member))
    } else {
        directed
    };
    let shifted = match inode_of(member).time_shift {
        Some(shift) => QueryPropertiesView {
            time_shifts: grouped.time_shifts.push(shift),
            ..grouped
        },
        None => grouped,
    };
    if shifted.has_filters_for(full_name(member)) {
        shifted.without_filters_for(full_name(member))
    } else {
        shifted
    }
}

// ---------------------------------------------------------------------------------------------
// Stages
// ---------------------------------------------------------------------------------------------

/// A stage that reads the data.
pub open spec fn leaf(
    member: Rc<MemberSymbol>,
    is_ungrupped: bool,
    has_aggregates_on_top: bool,
    state: QueryPropertiesView,
    alias: Seq<char>,
) -> DescriptionView {
    DescriptionView {
        member: StageMemberView {
            member_type: MemberTypeView::Leaf(LeafView::Measure),
            member_symbol: member,
            is_ungrupped,
            has_aggregates_on_top,
            is_without_member_leaf: false,
        },
        state,
        input: Seq::empty(),
        alias,
    }
}

/// A stage that only brings the dimensions.
pub open spec fn leaf_without_member(
    member: Rc<MemberSymbol>,
    is_ungrupped: bool,
    state: QueryPropertiesView,
    alias: Seq<char>,
) -> DescriptionView {
    let description = leaf(member, is_ungrupped, false, state, alias);
    DescriptionView {
        member: StageMemberView { is_without_member_leaf: true, ..description.member },
        ..description
    }
}

/// A stage that reads other stages.
pub open spec fn inode(
    inode: InodeView,
    member: Rc<MemberSymbol>,
    is_ungrupped: bool,
    state: QueryPropertiesView,
    input: Seq<DescriptionView>,
    alias: Seq<char>,
) -> DescriptionView {
    DescriptionView {
        member: StageMemberView {
            member_type: MemberTypeView::Inode(inode),
            member_symbol: member,
            is_ungrupped,
            has_aggregates_on_top: false,
            is_without_member_leaf: false,
        },
        state,
        input,
        alias,
    }
}

/// The first stage that computes the member of this name for this state.
pub open spec fn find_match(
    descriptions: Seq<DescriptionView>,
    member: Seq<char>,
    state: QueryPropertiesView,
) -> Option<DescriptionView>
    decreases descriptions.len(),
{
    if descriptions.len() == 0 {
        None
    } else if descriptions.first().is_match(member, state) {
        Some(descriptions.first())
    } else {
        find_match(descriptions.drop_first(), member, state)
    }
}

/// The first stage of this name.
pub open spec fn find_alias(descriptions: Seq<DescriptionView>, alias: Seq<char>) -> Option<
    DescriptionView,
>
    decreases descriptions.len(),
{
    if descriptions.len() == 0 {
        None
    } else if descriptions.first().alias == alias {
        Some(descriptions.first())
    } else {
        find_alias(descriptions.drop_first(), alias)
    }
}

// ---------------------------------------------------------------------------------------------
// Rolling windows
// ---------------------------------------------------------------------------------------------

/// The window of a measure; that of a running total has no bounds of its own.
pub open spec fn window_of(measure: MeasureSymbol) -> RollingWindow {
    match measure.rolling_window {
        Some(window) => *window,
        None => RollingWindow {
            trailing: None,
            leading: None,
            offset: None,
            rolling_type: None,
            granularity: None,
        },
    }
}

/// The measures that the definition of a member refers to.
pub open spec fn measure_children(member: MemberSymbol) -> Seq<Rc<MemberSymbol>> {
    dependencies(member).filter(|d: Rc<MemberSymbol>| *d is Measure)
}

/// What is wrong with a rolling measure over measures that is not marked as multi-stage.
pub open spec fn not_multi_stage(member: MemberSymbol) -> CubeErrorView {
    user_error(
        "Measure "@ + full_name(member) + " references another measures ("@ + joined(
            full_names(measure_children(member)),
            ", "@,
        ) + "). In this case, "@ + full_name(member) + " must have multi_stage: true defined"@,
    )
}

pub open spec fn not_one_time_dimension() -> CubeErrorView {
    internal_error("Rolling window requires one time dimension and equal date ranges"@)
}

pub open spec fn granularity_required() -> CubeErrorView {
    user_error("Granularity required for to_date rolling window"@)
}

/// The members as time dimensions, or the first that is none.
pub open spec fn as_time_dimensions(members: Seq<Rc<MemberSymbol>>) -> Result<
    Seq<Rc<TimeDimensionSymbol>>,
    CubeErrorView,
>
    decreases members.len(),
{
    if members.len() == 0 {
        Ok(Seq::empty())
    } else {
        match as_time_dimensions(members.drop_last()) {
            Err(error) => Err(error),
            Ok(dimensions) => match *members.last() {
                MemberSymbol::TimeDimension(t) => Ok(dimensions.push(t)),
                _ => Err(not_a_time_dimension(*members.last())),
            },
        }
    }
}

/// The time dimensions that members are, or refer to.
pub open spec fn time_dimensions_among(members: Seq<Rc<MemberSymbol>>) -> Seq<
    Rc<TimeDimensionSymbol>,
>
    decreases members.len(),
{
    if members.len() == 0 {
        Seq::empty()
    } else {
        match resolved(*members.last()) {
            MemberSymbol::TimeDimension(t) => time_dimensions_among(members.drop_last()).push(t),
            _ => time_dimensions_among(members.drop_last()),
        }
    }
}

/// All time dimensions of a query.
pub open spec fn query_time_dimensions(query: QueryPropertiesView) -> Result<
    Seq<Rc<TimeDimensionSymbol>>,
    CubeErrorView,
> {
    match as_time_dimensions(query.time_dimensions) {
        Ok(dimensions) => Ok(dimensions + time_dimensions_among(query.dimensions)),
        Err(error) => Err(error),
    }
}

pub open spec fn date_range_text(range: Option<(String, String)>) -> Option<
    (Seq<char>, Seq<char>),
> {
    match range {
        Some((from, to)) => Some((from@, to@)),
        None => None,
    }
}

/// What the time dimensions of a window have to agree on: all but the granularity.
pub open spec fn window_key(dimension: TimeDimensionSymbol) -> (
    Seq<char>,
    Seq<char>,
    Option<(Seq<char>, Seq<char>)>,
) {
    (
        cube_name(*dimension.base_symbol),
        short_name(*dimension.base_symbol),
        date_range_text(dimension.date_range),
    )
}

/// Whether time dimensions agree.
pub open spec fn agree(dimensions: Seq<Rc<TimeDimensionSymbol>>) -> bool {
    forall|i: int, j: int|
        0 <= i < dimensions.len() && 0 <= j < dimensions.len() ==> window_key(
            *#[trigger] dimensions[i],
        ) == window_key(*#[trigger] dimensions[j])
}

/// The time dimension by which a window steps. Each is held against the best so far, and takes its
/// place unless the best already has the coarsest granularity that both are made of.
pub open spec fn finest(dimensions: Seq<Rc<TimeDimensionSymbol>>) -> Rc<TimeDimensionSymbol>
    decreases dimensions.len(),
{
    if dimensions.len() <= 1 {
        dimensions[0]
    } else {
        let best = finest(dimensions.drop_last());
        let last = dimensions.last();
        if min_granularity(resolved_granularity(*best), resolved_granularity(*last))
            == resolved_granularity(*best) {
            best
        } else {
            last
        }
    }
}

/// The period at whose start a window begins, for a window that reaches from there to the date.
pub open spec fn to_date_granularity(window: RollingWindow) -> Result<
    Option<Seq<char>>,
    CubeErrorView,
> {
    if window.rolling_type is Some && window.rolling_type->0@ == "to_date"@ {
        match window.granularity {
            Some(granularity) => Ok(Some(granularity@)),
            None => Err(granularity_required()),
        }
    } else {
        Ok(None)
    }
}

/// The granularity at which the input of a window is grouped: the coarsest that the steps of the
/// window and both its sides are made of.
pub open spec fn base_granularity(
    dimension: TimeDimensionSymbol,
    window: RollingWindow,
) -> Option<Granularity> {
    min_granularity(
        min_granularity(
            optional_interval_unit(window.trailing),
            optional_interval_unit(window.leading),
        ),
        resolved_granularity(dimension),
    )
}

/// The time dimension of the input of a window.
pub open spec fn base_time_dimension(
    dimension: TimeDimensionSymbol,
    window: RollingWindow,
) -> Rc<MemberSymbol> {
    Rc::new(
        MemberSymbol::TimeDimension(
            Rc::new(with_granularity(dimension, base_granularity(dimension, window))),
        ),
    )
}

/// What becomes of the date range for the input of a window.
pub open spec fn window_edit(
    dimension: TimeDimensionSymbol,
    window: RollingWindow,
    granularity: Option<Seq<char>>,
) -> FilterEditView {
    match granularity {
        Some(granularity) => FilterEditView::ReplaceDateRange {
            member_name: full_name(*dimension.base_symbol),
            filter_operator: FilterOperator::ToDateRollingWindowDateRange,
            additional_values: seq![Some(granularity)],
        },
        None => FilterEditView::ReplaceDateRange {
            member_name: full_name(*dimension.base_symbol),
            filter_operator: FilterOperator::RegularRollingWindowDateRange,
            additional_values: seq![
                optional_text(window.trailing),
                optional_text(window.leading),
            ],
        },
    }
}

/// The state for which the input of a window is computed: grouped by the one time dimension, and
/// with a date range as wide as the window needs.
pub open spec fn rolling_base_state(
    dimension: TimeDimensionSymbol,
    window: RollingWindow,
    state: QueryPropertiesView,
) -> Result<QueryPropertiesView, CubeErrorView> {
    let grouped = QueryPropertiesView {
        time_dimensions: seq![base_time_dimension(dimension, window)],
        dimensions: state.dimensions.filter(
            |d: Rc<MemberSymbol>| !(resolved(*d) is TimeDimension),
        ),
        ..state
    };
    match to_date_granularity(window) {
        Ok(granularity) => Ok(
            grouped.time_filters_edited(window_edit(dimension, window, granularity)),
        ),
        Err(error) => Err(error),
    }
}

/// The state with the date ranges of the first `n` filters on time opened where the window has no
/// bound.
pub open spec fn date_ranges_opened(
    window: RollingWindow,
    state: QueryPropertiesView,
    n: nat,
) -> QueryPropertiesView
    decreases n,
{
    if n == 0 {
        state
    } else {
        let before = date_ranges_opened(window, state, (n - 1) as nat);
        match state.time_dimensions_filters[n - 1] {
            FilterView::Item(item) => if item.filter_operator == FilterOperator::InDateRange {
                before.time_filters_edited(
                    FilterEditView::OpenDateRange {
                        member_name: full_name(*item.member),
                        open_start: is_unbounded(window.trailing),
                        open_end: is_unbounded(window.leading),
                    },
                )
            } else {
                before
            },
            _ => before,
        }
    }
}

/// The state for which a window is computed that no time dimension steps through.
pub open spec fn unstepped_state(
    window: RollingWindow,
    state: QueryPropertiesView,
) -> QueryPropertiesView {
    date_ranges_opened(window, state, state.time_dimensions_filters.len())
}

/// The stage that finds the first and the last moment of a time dimension.
pub open spec fn get_range_stage(
    dimension: Rc<MemberSymbol>,
    state: QueryPropertiesView,
) -> DescriptionView {
    DescriptionView {
        member: StageMemberView {
            member_type: MemberTypeView::Leaf(LeafView::TimeSeriesGetRange(dimension)),
            member_symbol: dimension,
            is_ungrupped: true,
            has_aggregates_on_top: false,
            is_without_member_leaf: false,
        },
        state,
        input: Seq::empty(),
        alias: "time_series_get_range"@,
    }
}

/// That stage, and the stages with it: it is there once.
pub open spec fn with_get_range(
    dimension: Rc<MemberSymbol>,
    state: QueryPropertiesView,
    descriptions: Seq<DescriptionView>,
) -> (DescriptionView, Seq<DescriptionView>) {
    match find_alias(descriptions, "time_series_get_range"@) {
        Some(description) => (description, descriptions),
        None => {
            let stage = get_range_stage(dimension, state);
            (stage, descriptions.push(stage))
        },
    }
}

/// The stage that lists the points of a window.
pub open spec fn time_series_stage(
    dimension: Rc<MemberSymbol>,
    date_range_cte: Option<Seq<char>>,
    state: QueryPropertiesView,
) -> DescriptionView {
    DescriptionView {
        member: StageMemberView {
            member_type: MemberTypeView::Leaf(
                LeafView::TimeSeries { time_dimension: dimension, date_range_cte },
            ),
            member_symbol: dimension,
            is_ungrupped: true,
            has_aggregates_on_top: false,
            is_without_member_leaf: false,
        },
        state,
        input: Seq::empty(),
        alias: "time_series"@,
    }
}

/// That stage, and the stages with it: it is there once. Where the query gives no date range,
/// another stage finds it.
pub open spec fn with_time_series(
    dimension: Rc<MemberSymbol>,
    state: QueryPropertiesView,
    descriptions: Seq<DescriptionView>,
) -> (Result<DescriptionView, CubeErrorView>, Seq<DescriptionView>) {
    match find_alias(descriptions, "time_series"@) {
        Some(description) => (Ok(description), descriptions),
        None => match *dimension {
            MemberSymbol::TimeDimension(t) => if t.date_range is Some {
                let stage = time_series_stage(dimension, None, state);
                (Ok(stage), descriptions.push(stage))
            } else {
                let (range, ranged) = with_get_range(dimension, state, descriptions);
                let stage = time_series_stage(dimension, Some(range.alias), state);
                (Ok(stage), ranged.push(stage))
            },
            _ => (Err(not_a_time_dimension(*dimension)), descriptions),
        },
    }
}

/// The stage that brings the input of a window.
pub open spec fn window_base(
    planner: PlannerView,
    member: Rc<MemberSymbol>,
    state: QueryPropertiesView,
    ungrouped: bool,
    alias: Seq<char>,
) -> DescriptionView {
    leaf(member, planner.query.ungrouped || ungrouped, true, state, alias)
}

/// The extent of the window of a measure.
pub open spec fn window_type(
    measure: MeasureSymbol,
    granularity: Option<Seq<char>>,
) -> RollingWindowTypeView {
    let window = window_of(measure);
    if measure.running_total {
        RollingWindowTypeView::RunningTotal
    } else {
        match granularity {
            Some(granularity) => RollingWindowTypeView::ToDate { granularity },
            None => RollingWindowTypeView::Regular {
                trailing: optional_text(window.trailing),
                leading: optional_text(window.leading),
                offset: match window.offset {
                    Some(offset) => offset@,
                    None => "end"@,
                },
            },
        }
    }
}

/// What the stage of a window computes.
pub open spec fn window_inode(
    measure: MeasureSymbol,
    dimension: TimeDimensionSymbol,
    granularity: Option<Seq<char>>,
) -> InodeView {
    InodeView {
        inode_type: InodeTypeView::RollingWindow(
            RollingWindowView {
                time_dimension: Rc::new(MemberSymbol::TimeDimension(Rc::new(dimension))),
                base_time_dimension: base_time_dimension(dimension, window_of(measure)),
                rolling_window: window_type(measure, granularity),
            },
        ),
        reduce_by: Seq::empty(),
        add_group_by: Seq::empty(),
        group_by: None,
        time_shift: None,
    }
}

/// A measure without its window, as a member.
pub open spec fn unrolled_member(measure: MeasureSymbol) -> Rc<MemberSymbol> {
    Rc::new(MemberSymbol::Measure(Rc::new(unrolled(measure))))
}

// ---------------------------------------------------------------------------------------------
// Planning
// ---------------------------------------------------------------------------------------------

/// How much there is to plan for a member: its height, and its window.
pub open spec fn weight(member: MemberSymbol) -> nat {
    match member {
        MemberSymbol::Measure(m) => if is_cumulative(*m) {
            2 * height(member) + 1
        } else {
            2 * height(member)
        },
        _ => 2 * height(member),
    }
}

/// How much there is to plan for the branches of a switch.
pub open spec fn switch_weight(definition: CaseSwitchDefinition) -> nat {
    2 * switch_height(definition) + 2
}

/// The member that is planned for a member: the end of its references, without the case branches
/// that the state rules out.
///
/// These are the filters of the state that the member is planned for, before its own directive is
/// applied. A branch that they rule out is gone: a directive in fixed mode, which drops such
/// filters, does not bring it back.
pub open spec fn planned_member(
    member: MemberSymbol,
    state: QueryPropertiesView,
) -> Rc<MemberSymbol> {
    Rc::new(statically_filtered(resolved(member), state.dimensions_filters))
}

/// The state for which a member is planned: a dimension cannot be grouped by dimensions that are
/// yet to be planned.
pub open spec fn planned_state(
    member: MemberSymbol,
    state: QueryPropertiesView,
    names: Set<Seq<char>>,
) -> QueryPropertiesView {
    if *planned_member(member, state) is Dimension {
        state.without_unresolved(names)
    } else {
        state
    }
}

/// What is planned for a member is no more than the member.
pub proof fn lemma_planned_member_weight(member: MemberSymbol, state: QueryPropertiesView)
    ensures
        weight(*planned_member(member, state)) <= weight(member),
{
    lemma_resolved_height(member);
    lemma_statically_filtered_height(resolved(member), state.dimensions_filters);
}

/// There is less to plan for a dependency.
pub proof fn lemma_dependency_weight(member: MemberSymbol, i: int)
    requires
        0 <= i < dependencies(member).len(),
    ensures
        weight(resolved(*dependencies(member)[i])) < weight(member),
{
    lemma_dependencies_lie_below(member);
    lemma_resolved_height(inner(dependencies(member)[i]));
}

/// There is less to plan for a measure without its window.
pub proof fn lemma_unrolled_weight(measure: Rc<MeasureSymbol>)
    requires
        is_cumulative(*measure),
    ensures
        weight(*unrolled_member(*measure)) < weight(MemberSymbol::Measure(measure)),
{
}

/// There is less to plan for one dependency of a switch.
pub proof fn lemma_switch_entry_weight(definition: CaseSwitchDefinition, i: int)
    requires
        0 <= i < switch_entries(definition).len(),
    ensures
        weight(*switch_entries(definition)[i].dep) < switch_weight(definition),
{
    lemma_switch_entries_lie_below(definition, i);
}

/// There is no more to plan for the branches of a switch than for its member.
pub proof fn lemma_switch_weight(member: MemberSymbol, definition: Rc<CaseSwitchDefinition>)
    requires
        case_of(member) == Some(Case::CaseSwitch(definition)),
    ensures
        switch_weight(*definition) <= weight(member),
{
}

/// The input stages that were found, the error that ended the search, if any, and the plan then.
pub struct Inputs {
    pub found: Seq<DescriptionView>,
    pub error: Option<CubeErrorView>,
    pub plan: PlanState,
}

/// Whether a member, as a dependency of a multi-stage member, has a stage of its own.
pub open spec fn is_input(member: MemberSymbol) -> bool {
    member is Measure || (member is Dimension && has_multi_stage(member, false))
}

/// Whether a dependency of the member has a stage of its own.
pub open spec fn has_inputs(member: MemberSymbol) -> bool {
    exists|i: int|
        0 <= i < dependencies(member).len() && is_input(
            resolved(*#[trigger] dependencies(member)[i]),
        )
}

/// The plan with the stages for the member and the state, and the stage that computes it.
pub open spec fn plan_member(
    planner: PlannerView,
    member: Rc<MemberSymbol>,
    state: QueryPropertiesView,
    plan: PlanState,
) -> (Result<DescriptionView, CubeErrorView>, PlanState)
    decreases weight(*member), 4nat, 0nat,
{
    proof {
        lemma_planned_member_weight(inner(member), state);
    }
    let target = planned_member(*member, state);
    let target_state = planned_state(*member, state, plan.resolved);
    match find_match(plan.descriptions, full_name(*target), target_state) {
        Some(description) => (Ok(description), plan),
        None => match plan_window(planner, target, target_state, plan) {
            (Err(error), after) => (Err(error), after),
            (Ok(Some(description)), after) => (Ok(description), after),
            (Ok(None), after) => if !has_multi_stage(*target, false) {
                let stage = leaf(
                    target,
                    planner.query.ungrouped,
                    false,
                    target_state,
                    cte_name(after.next),
                );
                (Ok(stage), after.named().push(stage))
            } else {
                let inputs = plan_inputs(
                    planner,
                    target,
                    input_state(planner, *target, target_state),
                    PlanState { resolved: resolved_with(*target, after.resolved), ..after },
                );
                match inputs.error {
                    Some(error) => (Err(error), inputs.plan),
                    None => {
                        let stage = inode(
                            inode_of(*target),
                            target,
                            inode_is_ungrouped(planner, *target),
                            target_state,
                            inputs.found,
                            cte_name(inputs.plan.next),
                        );
                        (Ok(stage), inputs.plan.named().push(stage))
                    },
                }
            },
        },
    }
}

/// The stage that computes a cumulative measure, if the member is one, with the plan.
pub open spec fn plan_window(
    planner: PlannerView,
    member: Rc<MemberSymbol>,
    state: QueryPropertiesView,
    plan: PlanState,
) -> (Result<Option<DescriptionView>, CubeErrorView>, PlanState)
    decreases weight(*member), 3nat, 0nat,
{
    match *member {
        MemberSymbol::Measure(measure) => if is_cumulative(*measure) {
            proof {
                lemma_unrolled_weight(measure);
            }
            let base = unrolled_member(*measure);
            let window = window_of(*measure);
            if measure.multi_stage is None && measure_children(*member).len() > 0 {
                (Err(not_multi_stage(*member)), plan)
            } else {
                match query_time_dimensions(planner.query) {
                    Err(error) => (Err(error), plan),
                    Ok(dimensions) => if dimensions.len() == 0 {
                        let base_state = unstepped_state(window, state);
                        if measure.multi_stage is None {
                            let stage = window_base(
                                planner,
                                base,
                                base_state,
                                false,
                                cte_name(plan.next),
                            );
                            (Ok(Some(stage)), plan.named().push(stage))
                        } else {
                            match plan_member(planner, base, base_state, plan) {
                                (Ok(stage), after) => (Ok(Some(stage)), after),
                                (Err(error), after) => (Err(error), after),
                            }
                        }
                    } else if !agree(dimensions) {
                        (Err(not_one_time_dimension()), plan)
                    } else {
                        let dimension = finest(dimensions);
                        let dimension_symbol = Rc::new(MemberSymbol::TimeDimension(dimension));
                        match rolling_base_state(*dimension, window, state) {
                            Err(error) => (Err(error), plan),
                            Ok(base_state) => {
                                let (series, descriptions) = with_time_series(
                                    dimension_symbol,
                                    state,
                                    plan.descriptions,
                                );
                                let with_series = PlanState { descriptions, ..plan };
                                let (input, with_base) = if measure.multi_stage is None {
                                    let stage = window_base(
                                        planner,
                                        base,
                                        base_state,
                                        measure.rolling_window is Some && !measure.additive,
                                        cte_name(with_series.next),
                                    );
                                    (Ok(stage), with_series.named().push(stage))
                                } else {
                                    plan_member(planner, base, base_state, with_series)
                                };
                                match input {
                                    Err(error) => (Err(error), with_base),
                                    Ok(input) => {
                                        let stage = inode(
                                            window_inode(
                                                *measure,
                                                *dimension,
                                                to_date_granularity(window)->Ok_0,
                                            ),
                                            member,
                                            planner.query.ungrouped,
                                            state,
                                            seq![series->Ok_0, input],
                                            cte_name(with_base.next),
                                        );
                                        (Ok(Some(stage)), with_base.named().push(stage))
                                    },
                                }
                            },
                        }
                    },
                }
            }
        } else {
            (Ok(None), plan)
        },
        _ => (Ok(None), plan),
    }
}

/// The stages that a multi-stage member reads: by branches where it switches on a dimension, else
/// by dependencies.
pub open spec fn plan_inputs(
    planner: PlannerView,
    member: Rc<MemberSymbol>,
    state: QueryPropertiesView,
    plan: PlanState,
) -> Inputs
    decreases weight(*member), 3nat, 0nat,
{
    match case_of(*member) {
        Some(Case::CaseSwitch(definition)) => match definition.switch {
            CaseSwitchItem::Member(switch) => plan_switch_inputs(
                planner,
                *definition,
                switch,
                state,
                switch_entries(*definition).len(),
                plan,
            ),
            CaseSwitchItem::Sql(_) => plan_default_inputs(planner, member, state, plan),
        },
        _ => plan_default_inputs(planner, member, state, plan),
    }
}

/// The state for which one dependency of a switch is computed: only rows for which the switch has
/// a value that needs it.
pub open spec fn entry_state(
    switch: Rc<MemberSymbol>,
    entry: SwitchEntry,
    state: QueryPropertiesView,
) -> QueryPropertiesView {
    match entry.values {
        Some(values) => if values.len() > 0 {
            QueryPropertiesView {
                dimensions_filters: state.dimensions_filters.push(
                    FilterView::Item(
                        BaseFilterView {
                            member: switch,
                            filter_type: FilterType::Dimension,
                            filter_operator: FilterOperator::Equal,
                            values: values.map_values(|v: Seq<char>| Some(v)),
                        },
                    ),
                ),
                ..state
            }
        } else {
            state
        },
        None => state,
    }
}

/// The stages for the first `n` dependencies of a switch.
pub open spec fn plan_switch_inputs(
    planner: PlannerView,
    definition: CaseSwitchDefinition,
    switch: Rc<MemberSymbol>,
    state: QueryPropertiesView,
    n: nat,
    plan: PlanState,
) -> Inputs
    decreases switch_weight(definition), 1nat, n,
    when n <= switch_entries(definition).len()
{
    if n == 0 {
        Inputs { found: Seq::empty(), error: None, plan }
    } else {
        let before = plan_switch_inputs(
            planner,
            definition,
            switch,
            state,
            (n - 1) as nat,
            plan,
        );
        if before.error is Some {
            before
        } else {
            proof {
                lemma_switch_entry_weight(definition, n - 1);
            }
            let entry = switch_entries(definition)[n - 1];
            match plan_member(planner, entry.dep, entry_state(switch, entry, state), before.plan) {
                (Ok(stage), after) => Inputs {
                    found: before.found.push(stage),
                    error: None,
                    plan: after,
                },
                (Err(error), after) => Inputs {
                    found: before.found,
                    error: Some(error),
                    plan: after,
                },
            }
        }
    }
}

/// The stages for the first `n` dependencies of a member. A stage for a dimension is there for
/// others to join; only a dimension reads it as an input.
pub open spec fn plan_dependencies(
    planner: PlannerView,
    member: Rc<MemberSymbol>,
    state: QueryPropertiesView,
    n: nat,
    plan: PlanState,
) -> Inputs
    decreases weight(*member), 1nat, n,
    when n <= dependencies(*member).len()
{
    if n == 0 {
        Inputs { found: Seq::empty(), error: None, plan }
    } else {
        let before = plan_dependencies(planner, member, state, (n - 1) as nat, plan);
        let dep = resolved(*dependencies(*member)[n - 1]);
        if before.error is Some || !is_input(dep) {
            before
        } else {
            proof {
                lemma_dependency_weight(inner(member), n - 1);
            }
            match plan_member(planner, Rc::new(dep), state, before.plan) {
                (Ok(stage), after) => Inputs {
                    found: if !stage.is_multi_stage_dimension() || *member is Dimension {
                        before.found.push(stage)
                    } else {
                        before.found
                    },
                    error: None,
                    plan: after,
                },
                (Err(error), after) => Inputs {
                    found: before.found,
                    error: Some(error),
                    plan: after,
                },
            }
        }
    }
}

/// The stages for the dependencies of a member. One that depends on no other stage reads one that
/// only brings the dimensions.
pub open spec fn plan_default_inputs(
    planner: PlannerView,
    member: Rc<MemberSymbol>,
    state: QueryPropertiesView,
    plan: PlanState,
) -> Inputs
    decreases weight(*member), 2nat, 0nat,
{
    let inputs = plan_dependencies(
        planner,
        member,
        state,
        dependencies(*member).len(),
        plan,
    );
    if inputs.error is Some || has_inputs(*member) {
        inputs
    } else {
        let stage = leaf_without_member(
            member,
            planner.query.ungrouped,
            state,
            cte_name(inputs.plan.next),
        );
        Inputs {
            found: inputs.found.push(stage),
            error: None,
            plan: inputs.plan.named().push(stage),
        }
    }
}

// ---------------------------------------------------------------------------------------------
// Queries
// ---------------------------------------------------------------------------------------------

/// The members of a query that take more than one stage.
pub open spec fn multi_stage_members(query: QueryPropertiesView) -> Seq<Rc<MemberSymbol>> {
    query.used_symbols().filter(|m: Rc<MemberSymbol>| has_multi_stage(*m, false))
}

/// The references by which a query reads the stage of one of its members. It joins the stage of a
/// dimension by itself.
pub open spec fn references_to(stage: DescriptionView) -> Seq<MultiStageSubqueryRefView> {
    if stage.is_multi_stage_dimension() {
        Seq::empty()
    } else {
        seq![
            MultiStageSubqueryRefView {
                name: stage.alias,
                symbols: seq![stage.member.member_symbol],
                schema: stage.schema(),
            },
        ]
    }
}

/// The plan of a query: its stages, the references to them, and the error that ended planning, if
/// any.
pub struct QueryPlan {
    pub plan: PlanState,
    pub references: Seq<MultiStageSubqueryRefView>,
    pub error: Option<CubeErrorView>,
}

/// The plan for the first `n` multi-stage members of a query. The names start with the given
/// number.
pub open spec fn plan_members(planner: PlannerView, next: nat, n: nat) -> QueryPlan
    decreases n,
{
    if n == 0 {
        QueryPlan {
            plan: PlanState { descriptions: Seq::empty(), resolved: Set::empty(), next },
            references: Seq::empty(),
            error: None,
        }
    } else {
        let before = plan_members(planner, next, (n - 1) as nat);
        if before.error is Some {
            before
        } else {
            match plan_member(
                planner,
                multi_stage_members(planner.query)[n - 1],
                root_state(planner),
                before.plan,
            ) {
                (Ok(stage), after) => QueryPlan {
                    plan: after,
                    references: before.references + references_to(stage),
                    error: None,
                },
                (Err(error), after) => QueryPlan {
                    plan: after,
                    references: before.references,
                    error: Some(error),
                },
            }
        }
    }
}

/// The plan of a query whose names start with the given number.
pub open spec fn plan_query(planner: PlannerView, next: nat) -> QueryPlan {
    plan_members(planner, next, multi_stage_members(planner.query).len())
}

} // verus!
