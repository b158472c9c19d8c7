//! Planning of members that take more than one stage.

use crate::cte::CteState;
use crate::cte::CteStateView;
use crate::cte::MultiStageSubqueryRef;
use crate::cte::cte_name;
use crate::directive::apply_filter_directive_to_state;
use crate::directive::multi_stage_filter_directive;
use crate::error::CubeError;
use crate::error::CubeErrorView;
use crate::filter::BaseFilter;
use crate::filter::FilterItem;
use crate::filter::FilterOperator;
use crate::filter::FilterType;
use crate::filter::copy_filters;
use crate::filter::optional_text;
use crate::filter::optional_texts;
use crate::granularity::GranularityHelper;
use crate::plan::PlanState;
use crate::plan::PlannerView;
use crate::plan::as_time_dimensions;
use crate::plan::base_time_dimension;
use crate::plan::date_ranges_opened;
use crate::plan::directed_state;
use crate::plan::entry_state;
use crate::plan::find_alias;
use crate::plan::find_match;
use crate::plan::get_range_stage;
use crate::plan::inode_is_ungrouped;
use crate::plan::inode_of;
use crate::plan::input_dimensions;
use crate::plan::input_state;
use crate::plan::is_input;
use crate::plan::lemma_dependency_weight;
use crate::plan::lemma_planned_member_weight;
use crate::plan::lemma_switch_entry_weight;
use crate::plan::lemma_switch_weight;
use crate::plan::lemma_unrolled_weight;
use crate::plan::list_or_empty;
use crate::plan::measure_children;
use crate::plan::multi_stage_members;
use crate::plan::not_multi_stage;
use crate::plan::plan_default_inputs;
use crate::plan::plan_dependencies;
use crate::plan::plan_inputs;
use crate::plan::plan_member;
use crate::plan::plan_members;
use crate::plan::plan_query;
use crate::plan::plan_switch_inputs;
use crate::plan::plan_window;
use crate::plan::planned_member;
use crate::plan::planned_state;
use crate::plan::query_time_dimensions;
use crate::plan::references_to;
use crate::plan::resolved_with;
use crate::plan::rolling_base_state;
use crate::plan::root_state;
use crate::plan::shared_list;
use crate::plan::switch_weight;
use crate::plan::time_series_stage;
use crate::plan::to_date_granularity;
use crate::plan::unrolled_member;
use crate::plan::unstepped_state;
use crate::plan::weight;
use crate::plan::window_base;
use crate::plan::window_inode;
use crate::plan::with_get_range;
use crate::plan::with_time_series;
use crate::query_properties::QueryProperties;
use crate::query_properties::QueryPropertiesView;
use crate::query_properties::QueryTools;
use crate::query_properties::ResolvedDimensions;
use crate::query_properties::copy_members;
use crate::stage::DescriptionView;
use crate::stage::MemberQueryPlannerView;
use crate::stage::MultiStageInodeMember;
use crate::stage::MultiStageInodeMemberType;
use crate::stage::MultiStageLeafMemberType;
use crate::stage::MultiStageMember;
use crate::stage::MultiStageMemberQueryPlanner;
use crate::stage::MultiStageMemberType;
use crate::stage::MultiStageQueryDescription;
use crate::stage::RollingWindowDescription;
use crate::stage::RollingWindowType;
use crate::stage::TimeSeriesDescription;
use crate::stage::description_views;
use crate::static_filter::apply_static_filter_to_symbol;
use crate::switch::entry_view;
use crate::switch::entry_views;
use crate::switch::switch_dependencies;
use crate::switch::switch_entries;
use crate::symbol::Case;
use crate::symbol::CaseSwitchDefinition;
use crate::symbol::CaseSwitchItem;
use crate::symbol::MeasureKind;
use crate::symbol::MeasureSymbol;
use crate::symbol::MeasureTimeShifts;
use crate::symbol::MemberSymbol;
use crate::symbol::MultiStageFilterMode;
use crate::symbol::RollingWindow;
use crate::symbol::TimeDimensionSymbol;
use crate::symbol::dependencies;
use crate::symbol::full_name;
use crate::symbol::full_names;
use crate::symbol::has_multi_stage;
use crate::symbol::has_multi_stage_members;
use crate::symbol::inner;
use crate::symbol::not_a_time_dimension;
use crate::symbol::resolve_reference_chain;
use crate::symbol::resolved;
use crate::text::join;
use crate::text::texts;
use crate::window::append_time_dimensions;
use crate::window::have_one_key;
use std::rc::Rc;
use vstd::prelude::*;

verus! {

/// Plans the stages of a query.
pub struct MultiStageQueryPlanner {
    query_tools: Rc<QueryTools>,
    query_properties: Rc<QueryProperties>,
    /// The state for which the members of the query are planned, and to which filter directives in
    /// fixed mode return.
    root_state: Rc<QueryProperties>,
}

impl View for MultiStageQueryPlanner {
    type V = PlannerView;

    closed spec fn view(&self) -> PlannerView {
        PlannerView { query_tools: self.query_tools, query: self.query_properties@ }
    }
}

/// What is planned so far.
pub open spec fn plan_state<M>(
    descriptions: Vec<Rc<MultiStageQueryDescription>>,
    resolved_names: ResolvedDimensions,
    cte_state: CteState<M>,
) -> PlanState {
    PlanState {
        descriptions: description_views(descriptions@),
        resolved: resolved_names@,
        next: cte_state@.next,
    }
}

/// A stage or an error.
pub open spec fn stage_or_error(
    result: Result<Rc<MultiStageQueryDescription>, CubeError>,
) -> Result<DescriptionView, CubeErrorView> {
    match result {
        Ok(description) => Ok(description@),
        Err(error) => Err(error@),
    }
}

/// A stage, none, or an error.
pub open spec fn optional_stage_or_error(
    result: Result<Option<Rc<MultiStageQueryDescription>>, CubeError>,
) -> Result<Option<DescriptionView>, CubeErrorView> {
    match result {
        Ok(Some(description)) => Ok(Some(description@)),
        Ok(None) => Ok(None),
        Err(error) => Err(error@),
    }
}

/// The error of an outcome.
pub open spec fn error_of<T>(outcome: Result<T, CubeError>) -> Option<CubeErrorView> {
    match outcome {
        Ok(_) => None,
        Err(error) => Some(error@),
    }
}

/// The state of the common table expressions with another number for the next name.
pub open spec fn renumbered<M>(state: CteStateView<M>, next: nat) -> CteStateView<M> {
    CteStateView { next, ..state }
}

/// Whether planning, begun with `before`, has ended in `expected`. Nothing but the names that were
/// given out has changed in the state of the common table expressions.
pub open spec fn ends_in<M>(
    expected: PlanState,
    descriptions: Vec<Rc<MultiStageQueryDescription>>,
    resolved_names: ResolvedDimensions,
    before: CteStateView<M>,
    cte_state: CteState<M>,
) -> bool {
    &&& plan_state(descriptions, resolved_names, cte_state) == expected
    &&& cte_state@ == renumbered(before, expected.next)
}

/// The requests to turn stages into queries.
pub open spec fn stage_requests(planner: PlannerView, stages: Seq<DescriptionView>) -> Seq<
    MemberQueryPlannerView,
> {
    stages.map_values(
        |stage: DescriptionView|
            MemberQueryPlannerView {
                query_tools: planner.query_tools,
                query: planner.query,
                description: stage,
            },
    )
}

pub open spec fn request_views(requests: Seq<MultiStageMemberQueryPlanner>) -> Seq<
    MemberQueryPlannerView,
> {
    requests.map_values(|r: MultiStageMemberQueryPlanner| r@)
}

/// Whether the requests were put one after another, and answered with the members. The first
/// error ends it, and is the result.
pub open spec fn turned_into_queries<
    M,
    F: Fn(MultiStageMemberQueryPlanner) -> Result<M, CubeError>,
>(
    plan_logical_query: F,
    requests: Seq<MultiStageMemberQueryPlanner>,
    members: Seq<M>,
    result: Result<(), CubeError>,
) -> bool {
    &&& forall|i: int|
        0 <= i < members.len() ==> call_ensures(
            plan_logical_query,
            (requests[i],),
            Ok(#[trigger] members[i]),
        )
    &&& match result {
        Ok(_) => members.len() == requests.len(),
        Err(error) => members.len() < requests.len() && call_ensures(
            plan_logical_query,
            (requests[members.len() as int],),
            Err(error),
        ),
    }
}

/// Once the members of a query have met an error, nothing more is planned.
proof fn lemma_members_error_stays(planner: PlannerView, next: nat, n: nat, m: nat)
    requires
        n <= m,
        plan_members(planner, next, n).error is Some,
    ensures
        plan_members(planner, next, m) == plan_members(planner, next, n),
    decreases m,
{
    if n < m {
        lemma_members_error_stays(planner, next, n, (m - 1) as nat);
    }
}

proof fn lemma_description_push(
    descriptions: Seq<Rc<MultiStageQueryDescription>>,
    description: Rc<MultiStageQueryDescription>,
)
    ensures
        description_views(descriptions.push(description)) == description_views(descriptions).push(
            description@,
        ),
{
}

/// The first stage of this name.
fn find_by_alias(descriptions: &Vec<Rc<MultiStageQueryDescription>>, alias: &str) -> (found: Option<
    Rc<MultiStageQueryDescription>,
>)
    ensures
        match found {
            Some(description) => find_alias(description_views(descriptions@), alias@) == Some(
                description@,
            ),
            None => find_alias(description_views(descriptions@), alias@) is None,
        },
{
    let name = alias.to_string();
    let ghost views = description_views(descriptions@);
    let mut i: usize = 0;
    assert(views.skip(0) == views);
    while i < descriptions.len()
        invariant
            i <= descriptions@.len(),
            name@ == alias@,
            views == description_views(descriptions@),
            find_alias(views.skip(i as int), alias@) == find_alias(views, alias@),
        decreases descriptions@.len() - i,
    {
        assert(views.skip(i as int).drop_first() == views.skip(i + 1));
        assert(views.skip(i as int).first() == descriptions@[i as int]@);
        if descriptions[i].alias == name {
            return Some(descriptions[i].clone());
        }
        i += 1;
    }
    assert(views.skip(i as int).len() == 0);
    None
}

/// The first stage that computes the member for the state.
fn find_by_member_and_state(
    descriptions: &Vec<Rc<MultiStageQueryDescription>>,
    member: &MemberSymbol,
    state: &QueryProperties,
) -> (found: Option<Rc<MultiStageQueryDescription>>)
    ensures
        match found {
            Some(description) => find_match(
                description_views(descriptions@),
                full_name(*member),
                state@,
            ) == Some(description@),
            None => find_match(
                description_views(descriptions@),
                full_name(*member),
                state@,
            ) is None,
        },
{
    let ghost views = description_views(descriptions@);
    let ghost name = full_name(*member);
    let mut i: usize = 0;
    assert(views.skip(0) == views);
    while i < descriptions.len()
        invariant
            i <= descriptions@.len(),
            name == full_name(*member),
            views == description_views(descriptions@),
            find_match(views.skip(i as int), name, state@) == find_match(views, name, state@),
        decreases descriptions@.len() - i,
    {
        assert(views.skip(i as int).drop_first() == views.skip(i + 1));
        assert(views.skip(i as int).first() == descriptions@[i as int]@);
        if descriptions[i].is_match_member_and_state(member, state) {
            return Some(descriptions[i].clone());
        }
        i += 1;
    }
    assert(views.skip(i as int).len() == 0);
    None
}

fn copy_or_empty(list: &Option<Rc<Vec<Rc<MemberSymbol>>>>) -> (copy: Vec<Rc<MemberSymbol>>)
    ensures
        copy@ == list_or_empty(*list),
{
    match list {
        Some(list) => copy_members(list),
        None => Vec::new(),
    }
}

fn copy_list(list: &Option<Rc<Vec<Rc<MemberSymbol>>>>) -> (copy: Option<Vec<Rc<MemberSymbol>>>)
    ensures
        match copy {
            Some(copy) => Some(copy@) == shared_list(*list),
            None => shared_list(*list) is None,
        },
{
    match list {
        Some(list) => Some(copy_members(list)),
        None => None,
    }
}

fn copy_time_shift(shift: &Option<MeasureTimeShifts>) -> (copy: Option<MeasureTimeShifts>)
    ensures
        copy == *shift,
{
    match shift {
        Some(shift) => Some(shift.clone()),
        None => None,
    }
}

impl MultiStageQueryPlanner {
    /// The root state is that of the query.
    #[verifier::type_invariant]
    spec fn has_root_state(self) -> bool {
        self.root_state@ == root_state(self@)
    }

    /// A planner for a query.
    pub fn try_new(query_tools: Rc<QueryTools>, query_properties: Rc<QueryProperties>) -> (result:
        Result<Self, CubeError>)
        ensures
            result is Ok,
            result->Ok_0@ == (PlannerView { query_tools, query: query_properties@ }),
    {
        match Self::build_root_state(&query_tools, &query_properties) {
            Ok(root_state) => Ok(
                MultiStageQueryPlanner { query_tools, query_properties, root_state },
            ),
            Err(error) => Err(error),
        }
    }

    /// The state of the query itself, for which its members are planned.
    pub fn build_root_state(
        query_tools: &Rc<QueryTools>,
        query_properties: &Rc<QueryProperties>,
    ) -> (result: Result<Rc<QueryProperties>, CubeError>)
        ensures
            result is Ok,
            result->Ok_0@ == root_state(
                (PlannerView { query_tools: *query_tools, query: query_properties@ }),
            ),
    {
        let state = QueryProperties {
            query_tools: query_tools.clone(),
            measures: Vec::new(),
            dimensions: copy_members(&query_properties.dimensions),
            time_dimensions: copy_members(&query_properties.time_dimensions),
            dimensions_filters: copy_filters(&query_properties.dimensions_filters),
            time_dimensions_filters: copy_filters(&query_properties.time_dimensions_filters),
            measures_filters: Vec::new(),
            segments: copy_filters(&query_properties.segments),
            time_shifts: Vec::new(),
            order_by: Vec::new(),
            ungrouped: false,
        };
        proof {
            let view = root_state(
                PlannerView { query_tools: *query_tools, query: query_properties@ },
            );
            assert(state@.measures_filters =~= view.measures_filters);
            assert(state@.order_by =~= view.order_by);
            assert(state@ =~= view);
        }
        Ok(Rc::new(state))
    }

    pub fn root_state(&self) -> (state: &Rc<QueryProperties>)
        ensures
            state@ == root_state(self@),
    {
        proof {
            use_type_invariant(self);
        }
        &self.root_state
    }

    /// Plans the members of the query that take more than one stage. Each stage is turned into a
    /// query by `plan_logical_query`, in order; the query reads the stages of its members by
    /// references.
    pub fn plan_queries<M, F: Fn(MultiStageMemberQueryPlanner) -> Result<M, CubeError>>(
        &self,
        cte_state: &mut CteState<M>,
        plan_logical_query: F,
    ) -> (result: Result<(), CubeError>)
        requires
            forall|request: MultiStageMemberQueryPlanner|
                call_requires(plan_logical_query, (request,)),
        ensures
            ({
                let planned = plan_query(self@, old(cte_state)@.next);
                &&& final(cte_state)@.next == planned.plan.next
                &&& final(cte_state)@.subquery_refs == old(cte_state)@.subquery_refs
                    + planned.references
                &&& old(cte_state)@.members.is_prefix_of(final(cte_state)@.members)
                &&& match planned.error {
                    Some(error) => {
                        &&& result is Err
                        &&& result->Err_0@ == error
                        &&& final(cte_state)@.members == old(cte_state)@.members
                    },
                    None => {
                        let added = final(cte_state)@.members.skip(
                            old(cte_state)@.members.len() as int,
                        );
                        &&& added.len() <= planned.plan.descriptions.len()
                        &&& result is Ok == (added.len() == planned.plan.descriptions.len())
                        &&& exists|requests: Seq<MultiStageMemberQueryPlanner>|
                            #![trigger request_views(requests)]
                            {
                                &&& request_views(requests) == stage_requests(
                                    self@,
                                    planned.plan.descriptions,
                                )
                                &&& turned_into_queries(
                                    plan_logical_query,
                                    requests,
                                    added,
                                    result,
                                )
                            }
                    },
                }
            }),
    {
        let members = self.multi_stage_members();
        let ghost start = cte_state@;
        let mut descriptions: Vec<Rc<MultiStageQueryDescription>> = Vec::new();
        let mut resolved_multi_stage_dimensions = ResolvedDimensions::new();
        let mut i: usize = 0;
        assert(description_views(descriptions@) == Seq::<DescriptionView>::empty());
        while i < members.len()
            invariant
                i <= members@.len(),
                start == old(cte_state)@,
                members@ == multi_stage_members(self@.query),
                plan_members(self@, start.next, i as nat).error is None,
                plan_state(descriptions, resolved_multi_stage_dimensions, *cte_state)
                    == plan_members(self@, start.next, i as nat).plan,
                cte_state@.members == start.members,
                cte_state@.subquery_refs == start.subquery_refs + plan_members(
                    self@,
                    start.next,
                    i as nat,
                ).references,
            decreases members@.len() - i,
        {
            match self.make_queries_descriptions(
                members[i].clone(),
                self.root_state().clone(),
                &mut descriptions,
                &mut resolved_multi_stage_dimensions,
                cte_state,
            ) {
                Ok(description) => {
                    add_reference(&description, cte_state);
                },
                Err(error) => {
                    proof {
                        lemma_members_error_stays(
                            self@,
                            start.next,
                            (i + 1) as nat,
                            members@.len(),
                        );
                    }
                    return Err(error);
                },
            }
            i += 1;
        }
        self.turn_into_queries(&descriptions, cte_state, plan_logical_query)
    }

    /// Turns stages into queries, one after another.
    fn turn_into_queries<M, F: Fn(MultiStageMemberQueryPlanner) -> Result<M, CubeError>>(
        &self,
        descriptions: &Vec<Rc<MultiStageQueryDescription>>,
        cte_state: &mut CteState<M>,
        plan_logical_query: F,
    ) -> (result: Result<(), CubeError>)
        requires
            forall|request: MultiStageMemberQueryPlanner|
                call_requires(plan_logical_query, (request,)),
        ensures
            final(cte_state)@.next == old(cte_state)@.next,
            final(cte_state)@.subquery_refs == old(cte_state)@.subquery_refs,
            old(cte_state)@.members.is_prefix_of(final(cte_state)@.members),
            final(cte_state)@.members.len() <= old(cte_state)@.members.len() + descriptions@.len(),
            result is Ok == (final(cte_state)@.members.len() == old(cte_state)@.members.len()
                + descriptions@.len()),
            exists|requests: Seq<MultiStageMemberQueryPlanner>|
                #![trigger request_views(requests)]
                {
                    &&& request_views(requests) == stage_requests(
                        self@,
                        description_views(descriptions@),
                    )
                    &&& turned_into_queries(
                        plan_logical_query,
                        requests,
                        final(cte_state)@.members.skip(old(cte_state)@.members.len() as int),
                        result,
                    )
                },
    {
        let ghost start = cte_state@.members;
        let ghost requests = Seq::new(
            descriptions@.len(),
            |j: int|
                MultiStageMemberQueryPlanner {
                    query_tools: self.query_tools,
                    query_properties: self.query_properties,
                    description: descriptions@[j],
                },
        );
        assert(request_views(requests) == stage_requests(self@, description_views(descriptions@)));
        let mut i: usize = 0;
        while i < descriptions.len()
            invariant
                i <= descriptions@.len(),
                start == old(cte_state)@.members,
                requests == Seq::new(
                    descriptions@.len(),
                    |j: int|
                        MultiStageMemberQueryPlanner {
                            query_tools: self.query_tools,
                            query_properties: self.query_properties,
                            description: descriptions@[j],
                        },
                ),
                request_views(requests) == stage_requests(
                    self@,
                    description_views(descriptions@),
                ),
                forall|request: MultiStageMemberQueryPlanner|
                    call_requires(plan_logical_query, (request,)),
                cte_state@.next == old(cte_state)@.next,
                cte_state@.subquery_refs == old(cte_state)@.subquery_refs,
                start.is_prefix_of(cte_state@.members),
                cte_state@.members.skip(start.len() as int).len() == i,
                forall|j: int|
                    0 <= j < i ==> call_ensures(
                        plan_logical_query,
                        (requests[j],),
                        Ok(#[trigger] cte_state@.members.skip(start.len() as int)[j]),
                    ),
            decreases descriptions@.len() - i,
        {
            let request = MultiStageMemberQueryPlanner::new(
                self.query_tools.clone(),
                self.query_properties.clone(),
                descriptions[i].clone(),
            );
            assert(request == requests[i as int]);
            match plan_logical_query(request) {
                Ok(member) => {
                    let ghost before = cte_state@.members.skip(start.len() as int);
                    cte_state.add_member(member);
                    assert(cte_state@.members.skip(start.len() as int) == before.push(member));
                },
                Err(error) => {
                    assert(turned_into_queries(
                        plan_logical_query,
                        requests,
                        cte_state@.members.skip(start.len() as int),
                        Err::<(), CubeError>(error),
                    ));
                    return Err(error);
                },
            }
            i += 1;
        }
        assert(turned_into_queries(
            plan_logical_query,
            requests,
            cte_state@.members.skip(start.len() as int),
            Ok::<(), CubeError>(()),
        ));
        Ok(())
    }

    /// The members of the query that take more than one stage.
    fn multi_stage_members(&self) -> (members: Vec<Rc<MemberSymbol>>)
        ensures
            members@ == multi_stage_members(self@.query),
    {
        let ghost keep = |m: Rc<MemberSymbol>| has_multi_stage(*m, false);
        let used = self.query_properties.all_used_symbols();
        let mut members: Vec<Rc<MemberSymbol>> = Vec::new();
        let mut i: usize = 0;
        proof {
            reveal(Seq::filter);
        }
        assert(used@.take(0) =~= Seq::empty());
        while i < used.len()
            invariant
                i <= used@.len(),
                keep == (|m: Rc<MemberSymbol>| has_multi_stage(*m, false)),
                members@ == used@.take(i as int).filter(keep),
            decreases used@.len() - i,
        {
            proof {
                reveal(Seq::filter);
                assert(used@.take(i + 1).drop_last() =~= used@.take(i as int));
            }
            if has_multi_stage_members(&used[i], false) {
                members.push(used[i].clone());
            }
            i += 1;
        }
        assert(used@.take(i as int) =~= used@);
        members
    }

    /// What the stage of a multi-stage member computes, and whether it leaves rows as they are. A
    /// dimension is taken up from then on.
    pub fn create_multi_stage_inode_member(
        &self,
        base_member: Rc<MemberSymbol>,
        resolved_multi_stage_dimensions: &mut ResolvedDimensions,
    ) -> (result: Result<(MultiStageInodeMember, bool), CubeError>)
        ensures
            result is Ok,
            result->Ok_0.0@ == inode_of(*base_member),
            result->Ok_0.1 == inode_is_ungrouped(self@, *base_member),
            final(resolved_multi_stage_dimensions)@ == resolved_with(
                *base_member,
                old(resolved_multi_stage_dimensions)@,
            ),
    {
        match &*base_member {
            MemberSymbol::Measure(measure) => {
                let inode_type = match &measure.kind {
                    MeasureKind::Rank => MultiStageInodeMemberType::Rank,
                    MeasureKind::Calculated => MultiStageInodeMemberType::Calculate,
                    _ => MultiStageInodeMemberType::Aggregate,
                };
                let is_ungrupped = match &inode_type {
                    MultiStageInodeMemberType::Rank => true,
                    MultiStageInodeMemberType::Calculate => true,
                    _ => self.query_properties.ungrouped,
                };
                let inode = match &measure.multi_stage {
                    Some(multi_stage) => MultiStageInodeMember {
                        inode_type,
                        reduce_by: copy_or_empty(&multi_stage.reduce_by),
                        add_group_by: copy_or_empty(&multi_stage.add_group_by),
                        group_by: copy_list(&multi_stage.group_by),
                        time_shift: copy_time_shift(&multi_stage.time_shift),
                    },
                    None => MultiStageInodeMember {
                        inode_type,
                        reduce_by: Vec::new(),
                        add_group_by: Vec::new(),
                        group_by: None,
                        time_shift: None,
                    },
                };
                assert(inode@ =~= inode_of(*base_member));
                Ok((inode, is_ungrupped))
            },
            _ => {
                let add_group_by = match &*base_member {
                    MemberSymbol::Dimension(dimension) => match &dimension.multi_stage {
                        Some(multi_stage) => copy_or_empty(&multi_stage.add_group_by),
                        None => Vec::new(),
                    },
                    _ => Vec::new(),
                };
                resolved_multi_stage_dimensions.insert(
                    resolve_reference_chain(&base_member).full_name(),
                );
                let inode = MultiStageInodeMember {
                    inode_type: MultiStageInodeMemberType::Dimension,
                    reduce_by: Vec::new(),
                    add_group_by,
                    group_by: None,
                    time_shift: None,
                };
                assert(inode@ =~= inode_of(*base_member));
                Ok((inode, false))
            },
        }
    }

    /// Adds the stage that finds the first and the last moment of a time dimension, unless it is
    /// there.
    pub fn add_time_series_get_range_query(
        &self,
        time_dimension: Rc<MemberSymbol>,
        state: Rc<QueryProperties>,
        descriptions: &mut Vec<Rc<MultiStageQueryDescription>>,
    ) -> (result: Result<Rc<MultiStageQueryDescription>, CubeError>)
        ensures
            result is Ok,
            (result->Ok_0@, description_views(final(descriptions)@)) == with_get_range(
                time_dimension,
                state@,
                description_views(old(descriptions)@),
            ),
    {
        if let Some(description) = find_by_alias(descriptions, "time_series_get_range") {
            return Ok(description);
        }
        let description = MultiStageQueryDescription::new(
            MultiStageMember::new(
                MultiStageMemberType::Leaf(
                    MultiStageLeafMemberType::TimeSeriesGetRange(time_dimension.clone()),
                ),
                time_dimension.clone(),
                true,
                false,
            ),
            state.clone(),
            Vec::new(),
            "time_series_get_range".to_string(),
        );
        proof {
            assert(description@.input =~= Seq::<DescriptionView>::empty());
            assert(description@ == get_range_stage(time_dimension, state@));
            lemma_description_push(descriptions@, description);
        }
        descriptions.push(description.clone());
        Ok(description)
    }

    /// Adds the stage that lists the points of a window, unless it is there.
    pub fn add_time_series(
        &self,
        time_dimension: Rc<MemberSymbol>,
        state: Rc<QueryProperties>,
        descriptions: &mut Vec<Rc<MultiStageQueryDescription>>,
    ) -> (result: Result<Rc<MultiStageQueryDescription>, CubeError>)
        ensures
            (stage_or_error(result), description_views(final(descriptions)@)) == with_time_series(
                time_dimension,
                state@,
                description_views(old(descriptions)@),
            ),
    {
        if let Some(description) = find_by_alias(descriptions, "time_series") {
            return Ok(description);
        }
        let symbol = match time_dimension.as_time_dimension() {
            Ok(symbol) => symbol,
            Err(error) => return Err(error),
        };
        let date_range_cte = if symbol.date_range.is_some() {
            None
        } else {
            match self.add_time_series_get_range_query(
                time_dimension.clone(),
                state.clone(),
                descriptions,
            ) {
                Ok(description) => Some(description.alias.clone()),
                Err(error) => return Err(error),
            }
        };
        let ghost range = optional_text(date_range_cte);
        let description = MultiStageQueryDescription::new(
            MultiStageMember::new(
                MultiStageMemberType::Leaf(
                    MultiStageLeafMemberType::TimeSeries(
                        Rc::new(
                            TimeSeriesDescription {
                                time_dimension: time_dimension.clone(),
                                date_range_cte,
                            },
                        ),
                    ),
                ),
                time_dimension.clone(),
                true,
                false,
            ),
            state.clone(),
            Vec::new(),
            "time_series".to_string(),
        );
        proof {
            assert(description@.input =~= Seq::<DescriptionView>::empty());
            assert(description@ == time_series_stage(time_dimension, range, state@));
            lemma_description_push(descriptions@, description);
        }
        descriptions.push(description.clone());
        Ok(description)
    }

    /// Adds the stage that brings the input of a window.
    pub fn add_rolling_window_base<M>(
        &self,
        member: Rc<MemberSymbol>,
        state: Rc<QueryProperties>,
        ungrouped: bool,
        descriptions: &mut Vec<Rc<MultiStageQueryDescription>>,
        cte_state: &mut CteState<M>,
    ) -> (result: Result<Rc<MultiStageQueryDescription>, CubeError>)
        ensures
            result is Ok,
            result->Ok_0@ == window_base(
                self@,
                member,
                state@,
                ungrouped,
                cte_name(old(cte_state)@.next),
            ),
            description_views(final(descriptions)@) == description_views(old(descriptions)@).push(
                result->Ok_0@,
            ),
            final(cte_state)@ == renumbered(old(cte_state)@, old(cte_state)@.next + 1),
    {
        let alias = cte_state.next_cte_name();
        let description = MultiStageQueryDescription::new(
            MultiStageMember::new(
                MultiStageMemberType::Leaf(MultiStageLeafMemberType::Measure),
                member,
                self.query_properties.ungrouped || ungrouped,
                true,
            ),
            state,
            Vec::new(),
            alias,
        );
        proof {
            assert(description@.input =~= Seq::<DescriptionView>::empty());
            lemma_description_push(descriptions@, description);
        }
        descriptions.push(description.clone());
        Ok(description)
    }

    /// The period at whose start a window begins, for a window that reaches from there to the
    /// date.
    pub fn get_to_date_rolling_granularity(&self, rolling_window: &RollingWindow) -> (result: Result<
        Option<String>,
        CubeError,
    >)
        ensures
            match (result, to_date_granularity(*rolling_window)) {
                (Ok(granularity), Ok(expected)) => optional_text(granularity) == expected,
                (Err(error), Err(expected)) => error@ == expected,
                _ => false,
            },
    {
        let is_to_date = match &rolling_window.rolling_type {
            Some(rolling_type) => *rolling_type == "to_date".to_string(),
            None => false,
        };
        if is_to_date {
            match &rolling_window.granularity {
                Some(granularity) => Ok(Some(granularity.clone())),
                None => Err(
                    CubeError::user("Granularity required for to_date rolling window".to_string()),
                ),
            }
        } else {
            Ok(None)
        }
    }

    /// The state for a window that no time dimension steps through. There is no series of points
    /// then, so a date range gives way to the bounds that the window leaves.
    pub fn replace_date_range_for_rolling_window(
        &self,
        rolling_window: &RollingWindow,
        state: Rc<QueryProperties>,
    ) -> (result: Result<Rc<QueryProperties>, CubeError>)
        ensures
            result is Ok,
            result->Ok_0@ == unstepped_state(*rolling_window, state@),
    {
        let mut new_state: QueryProperties = (*state).clone();
        let mut i: usize = 0;
        while i < state.time_dimensions_filters.len()
            invariant
                i <= state.time_dimensions_filters@.len(),
                new_state@ == date_ranges_opened(*rolling_window, state@, i as nat),
            decreases state.time_dimensions_filters@.len() - i,
        {
            assert(state@.time_dimensions_filters[i as int]
                == state.time_dimensions_filters@[i as int]@);
            if let FilterItem::Item(filter) = &state.time_dimensions_filters[i] {
                if filter.filter_operator == FilterOperator::InDateRange {
                    new_state.replace_date_range_for_rolling_window_without_granularity(
                        &filter.member_name(),
                        &rolling_window.trailing,
                        &rolling_window.leading,
                    );
                }
            }
            i += 1;
        }
        Ok(Rc::new(new_state))
    }

    /// The state for the input of a window, and the time dimension it is grouped by.
    pub fn make_rolling_base_state(
        &self,
        time_dimension: Rc<MemberSymbol>,
        rolling_window: &RollingWindow,
        state: Rc<QueryProperties>,
    ) -> (result: Result<(Rc<QueryProperties>, Rc<MemberSymbol>), CubeError>)
        ensures
            match *time_dimension {
                MemberSymbol::TimeDimension(dimension) => match (
                    result,
                    rolling_base_state(*dimension, *rolling_window, state@),
                ) {
                    (Ok((base_state, base_dimension)), Ok(expected)) => base_state@ == expected
                        && base_dimension == base_time_dimension(*dimension, *rolling_window),
                    (Err(error), Err(expected)) => error@ == expected,
                    _ => false,
                },
                _ => result is Err && result->Err_0@ == not_a_time_dimension(*time_dimension),
            },
    {
        let time_dimension_symbol = match time_dimension.as_time_dimension() {
            Ok(symbol) => symbol,
            Err(error) => return Err(error),
        };
        let time_dimension_base_name = time_dimension_symbol.base_symbol.full_name();
        let mut new_state: QueryProperties = (*state).clone();
        let trailing_granularity = GranularityHelper::granularity_from_interval(
            &rolling_window.trailing,
        );
        let leading_granularity = GranularityHelper::granularity_from_interval(
            &rolling_window.leading,
        );
        let window_granularity = GranularityHelper::min_granularity(
            trailing_granularity,
            leading_granularity,
        );
        let result_granularity = GranularityHelper::min_granularity(
            window_granularity,
            time_dimension_symbol.resolved_granularity(),
        );
        let new_time_dimension = Rc::new(
            MemberSymbol::TimeDimension(
                time_dimension_symbol.change_granularity(result_granularity),
            ),
        );
        // The query may ask for one time dimension at several granularities. Its input is grouped
        // by the smallest alone.
        let mut time_dimensions: Vec<Rc<MemberSymbol>> = Vec::new();
        time_dimensions.push(new_time_dimension.clone());
        assert(time_dimensions@ == seq![new_time_dimension]);
        new_state.set_time_dimensions(time_dimensions);
        let dimensions = without_time_dimensions(&new_state.dimensions);
        new_state.set_dimensions(dimensions);
        match self.get_to_date_rolling_granularity(rolling_window) {
            Ok(Some(granularity)) => {
                new_state.replace_to_date_date_range_filter(
                    &time_dimension_base_name,
                    &granularity,
                );
            },
            Ok(None) => {
                new_state.replace_regular_date_range_filter(
                    &time_dimension_base_name,
                    rolling_window.trailing.clone(),
                    rolling_window.leading.clone(),
                );
            },
            Err(error) => return Err(error),
        }
        Ok((Rc::new(new_state), new_time_dimension))
    }

    /// Whether a member is a dimension that takes more than one stage.
    pub fn is_multi_stage_dimension(member: &Rc<MemberSymbol>) -> (result: Result<bool, CubeError>)
        ensures
            result == Ok::<bool, CubeError>(**member is Dimension && has_multi_stage(**member, false)),
    {
        if member.is_dimension() {
            Ok(has_multi_stage_members(member, false))
        } else {
            Ok(false)
        }
    }

    /// Plans the stages that a multi-stage member reads.
    pub fn make_childs<M>(
        &self,
        member: Rc<MemberSymbol>,
        new_state: Rc<QueryProperties>,
        result: &mut Vec<Rc<MultiStageQueryDescription>>,
        descriptions: &mut Vec<Rc<MultiStageQueryDescription>>,
        resolved_multi_stage_dimensions: &mut ResolvedDimensions,
        cte_state: &mut CteState<M>,
    ) -> (outcome: Result<(), CubeError>)
        ensures
            ({
                let inputs = plan_inputs(
                    self@,
                    member,
                    new_state@,
                    plan_state(
                        *old(descriptions),
                        *old(resolved_multi_stage_dimensions),
                        *old(cte_state),
                    ),
                );
                &&& description_views(final(result)@) == description_views(old(result)@)
                    + inputs.found
                &&& error_of(outcome) == inputs.error
                &&& ends_in(
                    inputs.plan,
                    *final(descriptions),
                    *final(resolved_multi_stage_dimensions),
                    old(cte_state)@,
                    *final(cte_state),
                )
            }),
        decreases weight(*member), 3nat, 0nat,
    {
        if let Some(Case::CaseSwitch(case_switch)) = member.case() {
            proof {
                lemma_switch_weight(inner(member), *case_switch);
            }
            match self.try_make_childs_for_case_switch(
                case_switch,
                new_state.clone(),
                result,
                descriptions,
                resolved_multi_stage_dimensions,
                cte_state,
            ) {
                Ok(true) => return Ok(()),
                Ok(false) => {},
                Err(error) => return Err(error),
            }
        }
        self.default_make_childs(
            member,
            new_state,
            result,
            descriptions,
            resolved_multi_stage_dimensions,
            cte_state,
        )
    }

    /// Plans the stages that a multi-stage member reads, one dependency after another.
    pub fn default_make_childs<M>(
        &self,
        member: Rc<MemberSymbol>,
        new_state: Rc<QueryProperties>,
        result: &mut Vec<Rc<MultiStageQueryDescription>>,
        descriptions: &mut Vec<Rc<MultiStageQueryDescription>>,
        resolved_multi_stage_dimensions: &mut ResolvedDimensions,
        cte_state: &mut CteState<M>,
    ) -> (outcome: Result<(), CubeError>)
        ensures
            ({
                let inputs = plan_default_inputs(
                    self@,
                    member,
                    new_state@,
                    plan_state(
                        *old(descriptions),
                        *old(resolved_multi_stage_dimensions),
                        *old(cte_state),
                    ),
                );
                &&& description_views(final(result)@) == description_views(old(result)@)
                    + inputs.found
                &&& error_of(outcome) == inputs.error
                &&& ends_in(
                    inputs.plan,
                    *final(descriptions),
                    *final(resolved_multi_stage_dimensions),
                    old(cte_state)@,
                    *final(cte_state),
                )
            }),
        decreases weight(*member), 2nat, 0nat,
    {
        let ghost start = plan_state(*descriptions, *resolved_multi_stage_dimensions, *cte_state);
        let dependencies_of_member = member.get_dependencies();
        let mut has_stages = false;
        let mut i: usize = 0;
        while i < dependencies_of_member.len()
            invariant
                i <= dependencies_of_member@.len(),
                dependencies_of_member@ == dependencies(*member),
                start == plan_state(
                    *old(descriptions),
                    *old(resolved_multi_stage_dimensions),
                    *old(cte_state),
                ),
                has_stages == exists|k: int|
                    0 <= k < i && is_input(resolved(*#[trigger] dependencies(*member)[k])),
                plan_dependencies(self@, member, new_state@, i as nat, start).error is None,
                description_views(result@) == description_views(old(result)@) + plan_dependencies(
                    self@,
                    member,
                    new_state@,
                    i as nat,
                    start,
                ).found,
                ends_in(
                    plan_dependencies(self@, member, new_state@, i as nat, start).plan,
                    *descriptions,
                    *resolved_multi_stage_dimensions,
                    old(cte_state)@,
                    *cte_state,
                ),
            decreases dependencies_of_member@.len() - i,
        {
            let dep = resolve_reference_chain(&dependencies_of_member[i]);
            let is_stage = dep.is_measure() || match Self::is_multi_stage_dimension(&dep) {
                Ok(is_stage) => is_stage,
                Err(error) => return Err(error),
            };
            if is_stage {
                has_stages = true;
                proof {
                    lemma_dependency_weight(inner(member), i as int);
                }
                match self.make_queries_descriptions(
                    dep.clone(),
                    new_state.clone(),
                    descriptions,
                    resolved_multi_stage_dimensions,
                    cte_state,
                ) {
                    Ok(description) => {
                        if !description.is_multi_stage_dimension() || member.is_dimension() {
                            proof {
                                lemma_description_push(result@, description);
                            }
                            result.push(description);
                        }
                    },
                    Err(error) => {
                        proof {
                            lemma_dependencies_error_stays(
                                self@,
                                member,
                                new_state@,
                                (i + 1) as nat,
                                dependencies_of_member@.len(),
                                start,
                            );
                        }
                        return Err(error);
                    },
                }
            }
            i += 1;
        }
        if !has_stages {
            let alias = cte_state.next_cte_name();
            let description = MultiStageQueryDescription::new(
                MultiStageMember::new_without_member_leaf(
                    MultiStageMemberType::Leaf(MultiStageLeafMemberType::Measure),
                    member.clone(),
                    self.query_properties.ungrouped,
                    false,
                ),
                new_state.clone(),
                Vec::new(),
                alias,
            );
            proof {
                assert(description@.input =~= Seq::<DescriptionView>::empty());
                lemma_description_push(result@, description);
                lemma_description_push(descriptions@, description);
            }
            result.push(description.clone());
            descriptions.push(description);
        }
        Ok(())
    }

    /// Plans the stages that the branches of a switch read, if it switches on a member. Each is
    /// planned once, for the values of the branches that need it.
    pub fn try_make_childs_for_case_switch<M>(
        &self,
        case: &Rc<CaseSwitchDefinition>,
        new_state: Rc<QueryProperties>,
        result: &mut Vec<Rc<MultiStageQueryDescription>>,
        descriptions: &mut Vec<Rc<MultiStageQueryDescription>>,
        resolved_multi_stage_dimensions: &mut ResolvedDimensions,
        cte_state: &mut CteState<M>,
    ) -> (outcome: Result<bool, CubeError>)
        ensures
            match case.switch {
                CaseSwitchItem::Sql(_) => {
                    &&& outcome == Ok::<bool, CubeError>(false)
                    &&& final(result)@ == old(result)@
                    &&& final(descriptions)@ == old(descriptions)@
                    &&& final(resolved_multi_stage_dimensions)@ == old(
                        resolved_multi_stage_dimensions,
                    )@
                    &&& final(cte_state)@ == old(cte_state)@
                },
                CaseSwitchItem::Member(switch_member) => {
                    let inputs = plan_switch_inputs(
                        self@,
                        **case,
                        switch_member,
                        new_state@,
                        switch_entries(**case).len(),
                        plan_state(
                            *old(descriptions),
                            *old(resolved_multi_stage_dimensions),
                            *old(cte_state),
                        ),
                    );
                    &&& description_views(final(result)@) == description_views(old(result)@)
                        + inputs.found
                    &&& outcome is Ok ==> outcome == Ok::<bool, CubeError>(true)
                    &&& error_of(outcome) == inputs.error
                    &&& ends_in(
                        inputs.plan,
                        *final(descriptions),
                        *final(resolved_multi_stage_dimensions),
                        old(cte_state)@,
                        *final(cte_state),
                    )
                },
            },
        decreases switch_weight(**case), 2nat, 0nat,
    {
        let switch_member = match &case.switch {
            CaseSwitchItem::Member(switch_member) => switch_member,
            CaseSwitchItem::Sql(_) => return Ok(false),
        };
        let ghost start = plan_state(*descriptions, *resolved_multi_stage_dimensions, *cte_state);
        let deps = switch_dependencies(case);
        let mut i: usize = 0;
        while i < deps.len()
            invariant
                i <= deps@.len(),
                entry_views(deps@) == switch_entries(**case),
                case.switch == CaseSwitchItem::Member(*switch_member),
                start == plan_state(
                    *old(descriptions),
                    *old(resolved_multi_stage_dimensions),
                    *old(cte_state),
                ),
                plan_switch_inputs(
                    self@,
                    **case,
                    *switch_member,
                    new_state@,
                    i as nat,
                    start,
                ).error is None,
                description_views(result@) == description_views(old(result)@) + plan_switch_inputs(
                    self@,
                    **case,
                    *switch_member,
                    new_state@,
                    i as nat,
                    start,
                ).found,
                ends_in(
                    plan_switch_inputs(
                        self@,
                        **case,
                        *switch_member,
                        new_state@,
                        i as nat,
                        start,
                    ).plan,
                    *descriptions,
                    *resolved_multi_stage_dimensions,
                    old(cte_state)@,
                    *cte_state,
                ),
            decreases deps@.len() - i,
        {
            assert(entry_views(deps@)[i as int] == entry_view(deps@[i as int]));
            let dep = &deps[i];
            let mut state: QueryProperties = (*new_state).clone();
            if let Some(values) = &dep.1 {
                if values.len() > 0 {
                    let filter = BaseFilter::new(
                        switch_member.clone(),
                        FilterType::Dimension,
                        FilterOperator::Equal,
                        filter_values(values),
                    );
                    state.add_dimension_filter(FilterItem::Item(filter));
                }
            }
            let state = Rc::new(state);
            assert(state@ == entry_state(
                *switch_member,
                switch_entries(**case)[i as int],
                new_state@,
            ));
            proof {
                lemma_switch_entry_weight(inner(*case), i as int);
            }
            match self.make_queries_descriptions(
                dep.0.clone(),
                state,
                descriptions,
                resolved_multi_stage_dimensions,
                cte_state,
            ) {
                Ok(description) => {
                    proof {
                        lemma_description_push(result@, description);
                    }
                    result.push(description);
                },
                Err(error) => {
                    proof {
                        lemma_switch_error_stays(
                            self@,
                            inner(*case),
                            *switch_member,
                            new_state@,
                            (i + 1) as nat,
                            deps@.len(),
                            start,
                        );
                    }
                    return Err(error);
                },
            }
            i += 1;
        }
        Ok(true)
    }

    /// Plans the stages for a member and a state. A stage that is there already is used again.
    pub fn make_queries_descriptions<M>(
        &self,
        member: Rc<MemberSymbol>,
        state: Rc<QueryProperties>,
        descriptions: &mut Vec<Rc<MultiStageQueryDescription>>,
        resolved_multi_stage_dimensions: &mut ResolvedDimensions,
        cte_state: &mut CteState<M>,
    ) -> (result: Result<Rc<MultiStageQueryDescription>, CubeError>)
        ensures
            ({
                let (expected, after) = plan_member(
                    self@,
                    member,
                    state@,
                    plan_state(
                        *old(descriptions),
                        *old(resolved_multi_stage_dimensions),
                        *old(cte_state),
                    ),
                );
                &&& stage_or_error(result) == expected
                &&& ends_in(
                    after,
                    *final(descriptions),
                    *final(resolved_multi_stage_dimensions),
                    old(cte_state)@,
                    *final(cte_state),
                )
            }),
        decreases weight(*member), 4nat, 0nat,
    {
        proof {
            lemma_planned_member_weight(inner(member), state@);
        }
        let target = apply_static_filter_to_symbol(
            &resolve_reference_chain(&member),
            &state.dimensions_filters,
        );
        let target_state = if target.is_dimension() {
            let mut new_state: QueryProperties = (*state).clone();
            new_state.remove_multistage_dimensions(resolved_multi_stage_dimensions);
            Rc::new(new_state)
        } else {
            state.clone()
        };
        assert(target == planned_member(*member, state@));
        assert(target_state@ == planned_state(
            *member,
            state@,
            resolved_multi_stage_dimensions@,
        ));
        if let Some(exists) = find_by_member_and_state(descriptions, &target, &target_state) {
            return Ok(exists);
        }
        match self.try_plan_rolling_window(
            target.clone(),
            target_state.clone(),
            descriptions,
            resolved_multi_stage_dimensions,
            cte_state,
        ) {
            Ok(Some(description)) => return Ok(description),
            Ok(None) => {},
            Err(error) => return Err(error),
        }
        let description = if !has_multi_stage_members(&target, false) {
            let alias = cte_state.next_cte_name();
            let description = MultiStageQueryDescription::new(
                MultiStageMember::new(
                    MultiStageMemberType::Leaf(MultiStageLeafMemberType::Measure),
                    target.clone(),
                    self.query_properties.ungrouped,
                    false,
                ),
                target_state.clone(),
                Vec::new(),
                alias,
            );
            assert(description@.input == Seq::<DescriptionView>::empty());
            description
        } else {
            let (multi_stage_member, is_ungrupped) = match self.create_multi_stage_inode_member(
                target.clone(),
                resolved_multi_stage_dimensions,
            ) {
                Ok(inode) => inode,
                Err(error) => return Err(error),
            };
            let new_state = self.make_input_state(&target, &multi_stage_member, &target_state);
            let mut input: Vec<Rc<MultiStageQueryDescription>> = Vec::new();
            assert(description_views(input@) == Seq::<DescriptionView>::empty());
            match self.make_childs(
                target.clone(),
                new_state,
                &mut input,
                descriptions,
                resolved_multi_stage_dimensions,
                cte_state,
            ) {
                Ok(()) => {},
                Err(error) => return Err(error),
            }
            let alias = cte_state.next_cte_name();
            MultiStageQueryDescription::new(
                MultiStageMember::new(
                    MultiStageMemberType::Inode(multi_stage_member),
                    target,
                    is_ungrupped,
                    false,
                ),
                target_state.clone(),
                input,
                alias,
            )
        };
        proof {
            lemma_description_push(descriptions@, description);
        }
        descriptions.push(description.clone());
        Ok(description)
    }

    /// The state for which the inputs of a multi-stage member are planned.
    fn make_input_state(
        &self,
        member: &Rc<MemberSymbol>,
        multi_stage_member: &MultiStageInodeMember,
        state: &Rc<QueryProperties>,
    ) -> (result: Rc<QueryProperties>)
        requires
            multi_stage_member@ == inode_of(**member),
        ensures
            result@ == input_state(self@, **member, state@),
    {
        let member_name = member.full_name();
        let mut dimensions_to_add = copy_members(&multi_stage_member.add_group_by);
        if let Some(case) = member.case() {
            if let Some(switch_dimension) = case.case_switch_dimension() {
                dimensions_to_add.push(switch_dimension);
            }
        }
        assert(dimensions_to_add@ == input_dimensions(**member));
        let directive_filter = multi_stage_filter_directive(member);
        let needs_new_state = dimensions_to_add.len() > 0 || multi_stage_member.time_shift.is_some()
            || state.has_filters_for_member(&member_name) || directive_filter.is_some();
        if !needs_new_state {
            return state.clone();
        }
        let mut new_state: QueryProperties = match &directive_filter {
            Some(filter) => match filter.mode {
                MultiStageFilterMode::Fixed => (**self.root_state()).clone(),
                MultiStageFilterMode::Relative => (**state).clone(),
            },
            None => (**state).clone(),
        };
        if let Some(filter) = &directive_filter {
            apply_filter_directive_to_state(filter, &mut new_state);
        }
        assert(new_state@ == directed_state(self@, **member, state@));
        if dimensions_to_add.len() > 0 {
            new_state.add_dimensions(&dimensions_to_add);
        }
        if let Some(time_shift) = &multi_stage_member.time_shift {
            new_state.add_time_shifts(time_shift.clone());
        }
        if new_state.has_filters_for_member(&member_name) {
            new_state.remove_filter_for_member(&member_name);
        }
        Rc::new(new_state)
    }

    /// Plans the stages for a cumulative measure and a state, if the member is one.
    pub fn try_plan_rolling_window<M>(
        &self,
        member: Rc<MemberSymbol>,
        state: Rc<QueryProperties>,
        descriptions: &mut Vec<Rc<MultiStageQueryDescription>>,
        resolved_multi_stage_dimensions: &mut ResolvedDimensions,
        cte_state: &mut CteState<M>,
    ) -> (result: Result<Option<Rc<MultiStageQueryDescription>>, CubeError>)
        ensures
            ({
                let (expected, after) = plan_window(
                    self@,
                    member,
                    state@,
                    plan_state(
                        *old(descriptions),
                        *old(resolved_multi_stage_dimensions),
                        *old(cte_state),
                    ),
                );
                &&& optional_stage_or_error(result) == expected
                &&& ends_in(
                    after,
                    *final(descriptions),
                    *final(resolved_multi_stage_dimensions),
                    old(cte_state)@,
                    *final(cte_state),
                )
            }),
        decreases weight(*member), 3nat, 0nat,
    {
        let measure: &Rc<MeasureSymbol> = match &*member {
            MemberSymbol::Measure(measure) => measure,
            _ => return Ok(None),
        };
        if !measure.is_cumulative() {
            return Ok(None);
        }
        proof {
            lemma_unrolled_weight(*measure);
        }
        let rolling_window = match &measure.rolling_window {
            Some(rolling_window) => rolling_window.clone(),
            None => Rc::new(
                RollingWindow {
                    trailing: None,
                    leading: None,
                    offset: None,
                    rolling_type: None,
                    granularity: None,
                },
            ),
        };
        let is_multi_stage = measure.multi_stage.is_some();
        if !is_multi_stage {
            let measures = measure_childs(&member);
            if measures.len() > 0 {
                return Err(references_measures(&member, &measures));
            }
        }
        let ungrouped = measure.rolling_window.is_some() && !measure.additive;
        let time_dimensions = match self.query_time_dimensions() {
            Ok(time_dimensions) => time_dimensions,
            Err(error) => return Err(error),
        };
        let base_member = Rc::new(MemberSymbol::Measure(measure.new_unrolling()));
        assert(base_member == unrolled_member(**measure));
        if time_dimensions.len() == 0 {
            let base_state = match self.replace_date_range_for_rolling_window(
                &rolling_window,
                state.clone(),
            ) {
                Ok(base_state) => base_state,
                Err(error) => return Err(error),
            };
            let rolling_base = if !is_multi_stage {
                self.add_rolling_window_base(
                    base_member,
                    base_state,
                    false,
                    descriptions,
                    cte_state,
                )
            } else {
                self.make_queries_descriptions(
                    base_member,
                    base_state,
                    descriptions,
                    resolved_multi_stage_dimensions,
                    cte_state,
                )
            };
            return match rolling_base {
                Ok(rolling_base) => Ok(Some(rolling_base)),
                Err(error) => Err(error),
            };
        }
        if !have_one_key(&time_dimensions) {
            return Err(
                CubeError::internal(
                    "Rolling window requires one time dimension and equal date ranges".to_string(),
                ),
            );
        }
        let time_dimension_symbol = GranularityHelper::find_dimension_with_min_granularity(
            &time_dimensions,
        );
        let time_dimension = Rc::new(MemberSymbol::TimeDimension(time_dimension_symbol.clone()));
        let (base_rolling_state, base_dimension) = match self.make_rolling_base_state(
            time_dimension.clone(),
            &rolling_window,
            state.clone(),
        ) {
            Ok(base) => base,
            Err(error) => return Err(error),
        };
        let time_series = match self.add_time_series(
            time_dimension.clone(),
            state.clone(),
            descriptions,
        ) {
            Ok(time_series) => time_series,
            Err(error) => return Err(error),
        };
        let rolling_base = if !is_multi_stage {
            self.add_rolling_window_base(
                base_member,
                base_rolling_state,
                ungrouped,
                descriptions,
                cte_state,
            )
        } else {
            self.make_queries_descriptions(
                base_member,
                base_rolling_state,
                descriptions,
                resolved_multi_stage_dimensions,
                cte_state,
            )
        };
        let rolling_base = match rolling_base {
            Ok(rolling_base) => rolling_base,
            Err(error) => return Err(error),
        };
        let ghost inputs = seq![time_series@, rolling_base@];
        let mut input: Vec<Rc<MultiStageQueryDescription>> = Vec::new();
        input.push(time_series);
        input.push(rolling_base);
        assert(description_views(input@) == inputs);
        let alias = cte_state.next_cte_name();
        let granularity = match self.get_to_date_rolling_granularity(&rolling_window) {
            Ok(granularity) => granularity,
            Err(error) => return Err(error),
        };
        let ghost period = optional_text(granularity);
        let rolling_window_type = if measure.running_total {
            RollingWindowType::RunningTotal
        } else {
            match granularity {
                Some(granularity) => RollingWindowType::ToDate { granularity },
                None => RollingWindowType::Regular {
                    trailing: rolling_window.trailing.clone(),
                    leading: rolling_window.leading.clone(),
                    offset: match &rolling_window.offset {
                        Some(offset) => offset.clone(),
                        None => "end".to_string(),
                    },
                },
            }
        };
        let inode_member = MultiStageInodeMember {
            inode_type: MultiStageInodeMemberType::RollingWindow(
                RollingWindowDescription {
                    time_dimension,
                    base_time_dimension: base_dimension,
                    rolling_window: rolling_window_type,
                },
            ),
            reduce_by: Vec::new(),
            add_group_by: Vec::new(),
            group_by: None,
            time_shift: None,
        };
        assert(inode_member@ =~= window_inode(**measure, *time_dimension_symbol, period));
        let description = MultiStageQueryDescription::new(
            MultiStageMember::new(
                MultiStageMemberType::Inode(inode_member),
                member.clone(),
                self.query_properties.ungrouped,
                false,
            ),
            state.clone(),
            input,
            alias,
        );
        proof {
            lemma_description_push(descriptions@, description);
        }
        descriptions.push(description.clone());
        Ok(Some(description))
    }

    /// All time dimensions of the query.
    fn query_time_dimensions(&self) -> (result: Result<Vec<Rc<TimeDimensionSymbol>>, CubeError>)
        ensures
            match (result, query_time_dimensions(self@.query)) {
                (Ok(dimensions), Ok(expected)) => dimensions@ == expected,
                (Err(error), Err(expected)) => error@ == expected,
                _ => false,
            },
    {
        let ghost members = self.query_properties.time_dimensions@;
        let mut dimensions: Vec<Rc<TimeDimensionSymbol>> = Vec::new();
        let mut i: usize = 0;
        while i < self.query_properties.time_dimensions.len()
            invariant
                i <= self.query_properties.time_dimensions@.len(),
                members == self.query_properties.time_dimensions@,
                as_time_dimensions(members.take(i as int)) == Ok::<
                    Seq<Rc<TimeDimensionSymbol>>,
                    CubeErrorView,
                >(dimensions@),
            decreases self.query_properties.time_dimensions@.len() - i,
        {
            assert(members.take(i + 1).drop_last() == members.take(i as int));
            match self.query_properties.time_dimensions[i].as_time_dimension() {
                Ok(dimension) => {
                    dimensions.push(dimension);
                },
                Err(error) => {
                    proof {
                        lemma_time_dimensions_error_stays(members, i + 1, members.len() as int);
                        assert(members.take(members.len() as int) == members);
                    }
                    return Err(error);
                },
            }
            i += 1;
        }
        assert(members.take(i as int) == members);
        append_time_dimensions(&mut dimensions, &self.query_properties.dimensions);
        Ok(dimensions)
    }
}

/// The measures that the definition of a member refers to.
fn measure_childs(member: &Rc<MemberSymbol>) -> (measures: Vec<Rc<MemberSymbol>>)
    ensures
        measures@ == measure_children(**member),
{
    let ghost is_measure = |d: Rc<MemberSymbol>| *d is Measure;
    let childs = member.get_dependencies();
    let mut measures: Vec<Rc<MemberSymbol>> = Vec::new();
    let mut i: usize = 0;
    proof {
        reveal(Seq::filter);
    }
    assert(childs@.take(0) =~= Seq::empty());
    while i < childs.len()
        invariant
            i <= childs@.len(),
            is_measure == (|d: Rc<MemberSymbol>| *d is Measure),
            measures@ == childs@.take(i as int).filter(is_measure),
        decreases childs@.len() - i,
    {
        proof {
            reveal(Seq::filter);
            assert(childs@.take(i + 1).drop_last() =~= childs@.take(i as int));
        }
        if childs[i].is_measure() {
            measures.push(childs[i].clone());
        }
        i += 1;
    }
    assert(childs@.take(i as int) =~= childs@);
    measures
}

/// What is wrong with a rolling measure over measures that is not marked as multi-stage.
fn references_measures(member: &Rc<MemberSymbol>, measures: &Vec<Rc<MemberSymbol>>) -> (error:
    CubeError)
    requires
        measures@ == measure_children(**member),
    ensures
        error@ == not_multi_stage(**member),
{
    let mut names: Vec<String> = Vec::new();
    let mut i: usize = 0;
    while i < measures.len()
        invariant
            i <= measures@.len(),
            names@.len() == i,
            forall|j: int| 0 <= j < i ==> (#[trigger] names@[j])@ == full_name(*measures@[j]),
        decreases measures@.len() - i,
    {
        names.push(measures[i].full_name());
        i += 1;
    }
    assert(texts(names@) =~= full_names(measures@));
    let name = member.full_name();
    let message = "Measure ".to_string().concat(name.as_str()).concat(
        " references another measures (",
    ).concat(join(&names, ", ").as_str()).concat("). In this case, ").concat(name.as_str()).concat(
        " must have multi_stage: true defined",
    );
    CubeError::user(message)
}

/// A member that is no time dimension is the first such member of every longer list.
proof fn lemma_time_dimensions_error_stays(members: Seq<Rc<MemberSymbol>>, n: int, m: int)
    requires
        0 <= n <= m <= members.len(),
        as_time_dimensions(members.take(n)) is Err,
    ensures
        as_time_dimensions(members.take(m)) == as_time_dimensions(members.take(n)),
    decreases m,
{
    if n < m {
        lemma_time_dimensions_error_stays(members, n, m - 1);
        assert(members.take(m).drop_last() == members.take(m - 1));
    }
}

/// Values of a filter.
fn filter_values(values: &Vec<String>) -> (result: Vec<Option<String>>)
    ensures
        optional_texts(result@) == texts(values@).map_values(|v: Seq<char>| Some(v)),
{
    let mut result: Vec<Option<String>> = Vec::new();
    let mut i: usize = 0;
    while i < values.len()
        invariant
            i <= values@.len(),
            result@.len() == i,
            forall|j: int| 0 <= j < i ==> optional_text(#[trigger] result@[j]) == Some(values@[j]@),
        decreases values@.len() - i,
    {
        result.push(Some(values[i].clone()));
        i += 1;
    }
    assert(optional_texts(result@) =~= texts(values@).map_values(|v: Seq<char>| Some(v)));
    result
}

/// Once the dependencies have met an error, nothing more is planned.
proof fn lemma_dependencies_error_stays(
    planner: PlannerView,
    member: Rc<MemberSymbol>,
    state: QueryPropertiesView,
    n: nat,
    m: nat,
    plan: PlanState,
)
    requires
        n <= m <= dependencies(*member).len(),
        plan_dependencies(planner, member, state, n, plan).error is Some,
    ensures
        plan_dependencies(planner, member, state, m, plan) == plan_dependencies(
            planner,
            member,
            state,
            n,
            plan,
        ),
    decreases m,
{
    if n < m {
        lemma_dependencies_error_stays(planner, member, state, n, (m - 1) as nat, plan);
    }
}

/// Once the branches have met an error, nothing more is planned.
proof fn lemma_switch_error_stays(
    planner: PlannerView,
    definition: CaseSwitchDefinition,
    switch: Rc<MemberSymbol>,
    state: QueryPropertiesView,
    n: nat,
    m: nat,
    plan: PlanState,
)
    requires
        n <= m <= switch_entries(definition).len(),
        plan_switch_inputs(planner, definition, switch, state, n, plan).error is Some,
    ensures
        plan_switch_inputs(planner, definition, switch, state, m, plan) == plan_switch_inputs(
            planner,
            definition,
            switch,
            state,
            n,
            plan,
        ),
    decreases m,
{
    if n < m {
        lemma_switch_error_stays(planner, definition, switch, state, n, (m - 1) as nat, plan);
    }
}


/// Adds the references by which a query reads the stage of one of its members.
fn add_reference<M>(description: &Rc<MultiStageQueryDescription>, cte_state: &mut CteState<M>)
    ensures
        final(cte_state)@ == (CteStateView {
            subquery_refs: old(cte_state)@.subquery_refs + references_to(description@),
            ..old(cte_state)@
        }),
{
    if !description.is_multi_stage_dimension() {
        let mut symbols: Vec<Rc<MemberSymbol>> = Vec::new();
        symbols.push(description.member.member_symbol.clone());
        let reference = Rc::new(
            MultiStageSubqueryRef {
                name: description.alias.clone(),
                symbols,
                schema: description.schema(),
            },
        );
        assert(reference@.symbols == seq![description@.member.member_symbol]);
        assert(seq![reference@] == references_to(description@));
        cte_state.add_subquery_ref(reference);
    }
    assert(cte_state@.subquery_refs == old(cte_state)@.subquery_refs + references_to(description@));
}

/// The members that are no time dimensions and refer to none.
fn without_time_dimensions(members: &Vec<Rc<MemberSymbol>>) -> (kept: Vec<Rc<MemberSymbol>>)
    ensures
        kept@ == members@.filter(|d: Rc<MemberSymbol>| !(resolved(*d) is TimeDimension)),
{
    let ghost keep = |d: Rc<MemberSymbol>| !(resolved(*d) is TimeDimension);
    let mut kept: Vec<Rc<MemberSymbol>> = Vec::new();
    let mut i: usize = 0;
    proof {
        reveal(Seq::filter);
    }
    assert(members@.take(0) =~= Seq::empty());
    while i < members.len()
        invariant
            i <= members@.len(),
            keep == (|d: Rc<MemberSymbol>| !(resolved(*d) is TimeDimension)),
            kept@ == members@.take(i as int).filter(keep),
        decreases members@.len() - i,
    {
        proof {
            reveal(Seq::filter);
            assert(members@.take(i + 1).drop_last() =~= members@.take(i as int));
        }
        let member = resolve_reference_chain(&members[i]);
        match &*member {
            MemberSymbol::TimeDimension(_) => {},
            _ => {
                kept.push(members[i].clone());
            },
        }
        i += 1;
    }
    assert(members@.take(i as int) =~= members@);
    kept
}

} // verus!
