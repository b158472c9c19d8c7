//! Laws of contents: what is said of the content of a value is said of all of the value.

use crate::cte::CteState;
use crate::cte::CteStateView;
use crate::cte::MultiStageSubqueryRef;
use crate::error::CubeError;
use crate::filter::BaseFilter;
use crate::filter::FilterItem;
use crate::filter::filter_views;
use crate::filter::lemma_group_view;
use crate::filter::optional_text;
use crate::filter::optional_texts;
use crate::plan::PlanState;
use crate::plan::PlannerView;
use crate::planner::ends_in;
use crate::planner::error_of;
use crate::planner::optional_stage_or_error;
use crate::planner::request_views;
use crate::planner::stage_or_error;
use crate::planner::stage_requests;
use crate::planner::turned_into_queries;
use crate::query_properties::ResolvedDimensions;
use crate::stage::DescriptionView;
use crate::stage::MultiStageInodeMember;
use crate::stage::MultiStageInodeMemberType;
use crate::stage::MultiStageLeafMemberType;
use crate::stage::MultiStageMember;
use crate::stage::MultiStageMemberQueryPlanner;
use crate::stage::MultiStageMemberType;
use crate::stage::MultiStageQueryDescription;
use crate::stage::RollingWindowDescription;
use crate::stage::RollingWindowType;
use crate::stage::description_views;
use crate::stage_laws::computes_dimension;
use std::rc::Rc;
use vstd::prelude::*;

verus! {

/// Conditions with the same content are on the same member, of the same kind, with the same values.
pub proof fn content_of_a_condition_is_all_of_it(a: BaseFilter, b: BaseFilter)
    requires
        a@ == b@,
    ensures
        a.member == b.member,
        a.filter_type == b.filter_type,
        a.filter_operator == b.filter_operator,
        a.values@.len() == b.values@.len(),
        forall|i: int|
            0 <= i < a.values@.len() ==> optional_text(#[trigger] a.values@[i]) == optional_text(
                b.values@[i],
            ),
{
    assert(optional_texts(a.values@).len() == a.values@.len());
    assert(optional_texts(b.values@).len() == b.values@.len());
    assert forall|i: int| 0 <= i < a.values@.len() implies optional_text(#[trigger] a.values@[i])
        == optional_text(b.values@[i]) by {
        assert(optional_texts(a.values@)[i] == optional_texts(b.values@)[i]);
    }
}

/// Filters with the same content are both groups, conditions or segments, with the same content.
pub proof fn content_of_a_filter_is_all_of_it(a: FilterItem, b: FilterItem)
    requires
        a@ == b@,
    ensures
        match (a, b) {
            (FilterItem::Group(a), FilterItem::Group(b)) => {
                &&& a.operator == b.operator
                &&& filter_views(a.items@) == filter_views(b.items@)
            },
            (FilterItem::Item(a), FilterItem::Item(b)) => a@ == b@,
            (FilterItem::Segment(a), FilterItem::Segment(b)) => a.full_name@ == b.full_name@,
            _ => false,
        },
{
    if let FilterItem::Group(group) = a {
        lemma_group_view(group);
    }
    if let FilterItem::Group(group) = b {
        lemma_group_view(group);
    }
}

/// Stages with the same content compute the same, for states with the same content, from stages
/// with the same contents, under the same name.
pub proof fn content_of_a_stage_is_all_of_it(
    a: MultiStageQueryDescription,
    b: MultiStageQueryDescription,
)
    requires
        a@ == b@,
    ensures
        a.member@ == b.member@,
        a.state@ == b.state@,
        description_views(a.input@) == description_views(b.input@),
        a.alias@ == b.alias@,
{
    assert(a@.input =~= description_views(a.input@));
    assert(b@.input =~= description_views(b.input@));
}

/// What stages with the same content compute agrees in all.
pub proof fn content_of_a_stage_member_is_all_of_it(a: MultiStageMember, b: MultiStageMember)
    requires
        a@ == b@,
    ensures
        a.member_symbol == b.member_symbol,
        a.is_ungrupped == b.is_ungrupped,
        a.has_aggregates_on_top == b.has_aggregates_on_top,
        a.is_without_member_leaf == b.is_without_member_leaf,
        match (a.member_type, b.member_type) {
            (MultiStageMemberType::Inode(a), MultiStageMemberType::Inode(b)) => a@ == b@,
            (MultiStageMemberType::Leaf(a), MultiStageMemberType::Leaf(b)) => a@ == b@,
            _ => false,
        },
{
}

/// What stages with the same content compute from others agrees in all.
pub proof fn content_of_an_inner_stage_is_all_of_it(
    a: MultiStageInodeMember,
    b: MultiStageInodeMember,
)
    requires
        a@ == b@,
    ensures
        a.inode_type@ == b.inode_type@,
        a.reduce_by@ == b.reduce_by@,
        a.add_group_by@ == b.add_group_by@,
        a.group_by is Some == b.group_by is Some,
        a.group_by is Some ==> (a.group_by->0)@ == (b.group_by->0)@,
        a.time_shift == b.time_shift,
{
}

/// Stages with the same content compute their members in the same way.
pub proof fn content_of_a_kind_of_stage_is_all_of_it(
    a: MultiStageInodeMemberType,
    b: MultiStageInodeMemberType,
)
    requires
        a@ == b@,
    ensures
        match (a, b) {
            (MultiStageInodeMemberType::Rank, MultiStageInodeMemberType::Rank) => true,
            (MultiStageInodeMemberType::Aggregate, MultiStageInodeMemberType::Aggregate) => true,
            (MultiStageInodeMemberType::Calculate, MultiStageInodeMemberType::Calculate) => true,
            (MultiStageInodeMemberType::Dimension, MultiStageInodeMemberType::Dimension) => true,
            (
                MultiStageInodeMemberType::RollingWindow(a),
                MultiStageInodeMemberType::RollingWindow(b),
            ) => a@ == b@,
            _ => false,
        },
{
}

/// Windows with the same content step by the same dimension, over the same input, with the same
/// bounds.
pub proof fn content_of_a_window_is_all_of_it(
    a: RollingWindowDescription,
    b: RollingWindowDescription,
)
    requires
        a@ == b@,
    ensures
        a.time_dimension == b.time_dimension,
        a.base_time_dimension == b.base_time_dimension,
        match (a.rolling_window, b.rolling_window) {
            (
                RollingWindowType::Regular { trailing: at, leading: al, offset: ao },
                RollingWindowType::Regular { trailing: bt, leading: bl, offset: bo },
            ) => {
                &&& optional_text(at) == optional_text(bt)
                &&& optional_text(al) == optional_text(bl)
                &&& ao@ == bo@
            },
            (
                RollingWindowType::ToDate { granularity: a },
                RollingWindowType::ToDate { granularity: b },
            ) => a@ == b@,
            (RollingWindowType::RunningTotal, RollingWindowType::RunningTotal) => true,
            _ => false,
        },
{
}

/// Stages that read the data and have the same content compute the same.
pub proof fn content_of_a_leaf_is_all_of_it(
    a: MultiStageLeafMemberType,
    b: MultiStageLeafMemberType,
)
    requires
        a@ == b@,
    ensures
        match (a, b) {
            (MultiStageLeafMemberType::Measure, MultiStageLeafMemberType::Measure) => true,
            (MultiStageLeafMemberType::TimeSeries(a), MultiStageLeafMemberType::TimeSeries(b)) => {
                &&& a.time_dimension == b.time_dimension
                &&& optional_text(a.date_range_cte) == optional_text(b.date_range_cte)
            },
            (
                MultiStageLeafMemberType::TimeSeriesGetRange(a),
                MultiStageLeafMemberType::TimeSeriesGetRange(b),
            ) => a == b,
            _ => false,
        },
{
}

/// References with the same content are by the same name, for the same members, with the same
/// columns.
pub proof fn content_of_a_reference_is_all_of_it(
    a: MultiStageSubqueryRef,
    b: MultiStageSubqueryRef,
)
    requires
        a@ == b@,
    ensures
        a.name@ == b.name@,
        a.symbols@ == b.symbols@,
        a.schema.dimensions@ == b.schema.dimensions@,
        a.schema.time_dimensions@ == b.schema.time_dimensions@,
        a.schema.measures@ == b.schema.measures@,
{
}

/// Errors with the same content have the same cause and message.
pub proof fn content_of_an_error_is_all_of_it(a: CubeError, b: CubeError)
    requires
        a@ == b@,
    ensures
        a.cause == b.cause,
        a.message@ == b.message@,
{
}

/// A stage is that of a dimension exactly where it computes one from other stages.
pub proof fn stages_of_dimensions_compute_dimensions(stage: DescriptionView)
    ensures
        stage.is_multi_stage_dimension() == computes_dimension(stage),
{
}

/// Turning stages into queries asks for each stage in turn, with the tools and the query at hand,
/// and collects the answers. It succeeds if all are answered; else it ends with the first error,
/// and the answers before that are kept.
pub proof fn stages_are_turned_into_queries_in_order<
    M,
    F: Fn(MultiStageMemberQueryPlanner) -> Result<M, CubeError>,
>(
    planner: PlannerView,
    stages: Seq<DescriptionView>,
    plan_logical_query: F,
    requests: Seq<MultiStageMemberQueryPlanner>,
    members: Seq<M>,
    result: Result<(), CubeError>,
)
    requires
        request_views(requests) == stage_requests(planner, stages),
        turned_into_queries(plan_logical_query, requests, members, result),
    ensures
        requests.len() == stages.len(),
        forall|i: int|
            0 <= i < stages.len() ==> (#[trigger] requests[i]).query_tools == planner.query_tools
                && requests[i].query_properties@ == planner.query && requests[i].description@
                == stages[i],
        forall|i: int|
            0 <= i < members.len() ==> call_ensures(
                plan_logical_query,
                (requests[i],),
                Ok(#[trigger] members[i]),
            ),
        members.len() <= stages.len(),
        result is Ok == (members.len() == stages.len()),
        result is Err ==> call_ensures(
            plan_logical_query,
            (requests[members.len() as int],),
            Err(result->Err_0),
        ),
{
    let asked = request_views(requests);
    assert(asked.len() == requests.len());
    assert(stage_requests(planner, stages).len() == stages.len());
    assert forall|i: int| 0 <= i < stages.len() implies (#[trigger] requests[i]).query_tools
        == planner.query_tools && requests[i].query_properties@ == planner.query
        && requests[i].description@ == stages[i] by {
        assert(asked[i] == requests[i]@);
        assert(stage_requests(planner, stages)[i].description == stages[i]);
    }
}

/// What is planned so far is read off the stages, the dimensions taken up and the number of the
/// next name. A step of planning changes nothing else of the common table expressions.
pub proof fn steps_of_planning_change_names_only<M>(
    expected: PlanState,
    descriptions: Vec<Rc<MultiStageQueryDescription>>,
    resolved_names: ResolvedDimensions,
    before: CteStateView<M>,
    cte_state: CteState<M>,
)
    requires
        ends_in(expected, descriptions, resolved_names, before, cte_state),
    ensures
        expected.descriptions.len() == descriptions@.len(),
        forall|i: int|
            0 <= i < descriptions@.len() ==> #[trigger] expected.descriptions[i]
                == descriptions@[i]@,
        expected.resolved == resolved_names@,
        expected.next == cte_state@.next,
        cte_state@.members == before.members,
        cte_state@.subquery_refs == before.subquery_refs,
{
}

/// What is said of a result is said of the stage or the error in it.
pub proof fn results_are_stages_or_errors(
    result: Result<Rc<MultiStageQueryDescription>, CubeError>,
    optional: Result<Option<Rc<MultiStageQueryDescription>>, CubeError>,
)
    ensures
        match (result, stage_or_error(result)) {
            (Ok(description), Ok(stage)) => description@ == stage,
            (Err(error), Err(content)) => error@ == content,
            _ => false,
        },
        match (optional, optional_stage_or_error(optional)) {
            (Ok(Some(description)), Ok(Some(stage))) => description@ == stage,
            (Ok(None), Ok(None)) => true,
            (Err(error), Err(content)) => error@ == content,
            _ => false,
        },
        (error_of(result) is None) == result is Ok,
        result is Err ==> error_of(result) == Some(result->Err_0@),
{
}

} // verus!
