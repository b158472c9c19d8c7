//! Laws of stages: what each stage computes, for which state, and which stages it reads.

use crate::cte::MultiStageSubqueryRefView;
use crate::cte::cte_name;
use crate::error::CubeErrorView;
use crate::filter::optional_text;
use crate::plan::PlanState;
use crate::plan::PlannerView;
use crate::plan::QueryPlan;
use crate::plan::agree;
use crate::plan::entry_state;
use crate::plan::find_alias;
use crate::plan::find_match;
use crate::plan::finest;
use crate::plan::granularity_required;
use crate::plan::has_inputs;
use crate::plan::input_state;
use crate::plan::is_input;
use crate::plan::measure_children;
use crate::plan::multi_stage_members;
use crate::plan::not_multi_stage;
use crate::plan::not_one_time_dimension;
use crate::plan::plan_default_inputs;
use crate::plan::plan_dependencies;
use crate::plan::plan_inputs;
use crate::plan::plan_member;
use crate::plan::plan_members;
use crate::plan::plan_query;
use crate::plan::plan_switch_inputs;
use crate::plan::plan_window;
use crate::plan::planned_member;
use crate::plan::planned_state;
use crate::plan::query_time_dimensions;
use crate::plan::resolved_with;
use crate::plan::rolling_base_state;
use crate::plan::root_state;
use crate::plan::unrolled_member;
use crate::plan::unstepped_state;
use crate::plan::window_of;
use crate::plan::with_get_range;
use crate::plan::with_time_series;
use crate::query_properties::QueryPropertiesView;
use crate::soundness::extends;
use crate::soundness::is_unstepped_window;
use crate::soundness::lemma_extends_trans;
use crate::soundness::lemma_find_alias;
use crate::soundness::lemma_find_match;
use crate::soundness::lemma_inputs;
use crate::soundness::lemma_unrolled_target;
use crate::soundness::planning_keeps_plans_sound;
use crate::soundness::stage_state;
use crate::stage::DescriptionView;
use crate::stage::InodeTypeView;
use crate::stage::InodeView;
use crate::stage::LeafView;
use crate::stage::MemberTypeView;
use crate::stage::RollingWindowTypeView;
use crate::state_laws::is_to_date;
use crate::state_laws::read_alike;
use crate::state_laws::states_are_the_same_if_they_read_alike;
use crate::state_laws::window_inputs_replace_date_ranges;
use crate::switch::switch_entries;
use crate::symbol::CaseSwitchDefinition;
use crate::symbol::MeasureKind;
use crate::symbol::MeasureSymbol;
use crate::symbol::MemberSymbol;
use crate::symbol::MultiStageProperties;
use crate::symbol::case_of;
use crate::symbol::dependencies;
use crate::symbol::full_name;
use crate::symbol::has_multi_stage;
use crate::symbol::inner;
use crate::symbol::is_cumulative;
use crate::symbol::resolved;
use std::rc::Rc;
use vstd::prelude::*;

verus! {

// ---------------------------------------------------------------------------------------------
// Members
// ---------------------------------------------------------------------------------------------

/// Whether a stage computes a member for a state, with these dimensions taken up: it has the name
/// of the member, and a state that reads the same rows and groups them alike. A window that
/// nothing steps through has its own state.
pub open spec fn computes_with(
    planner: PlannerView,
    stage: DescriptionView,
    member: Rc<MemberSymbol>,
    state: QueryPropertiesView,
    names: Set<Seq<char>>,
) -> bool {
    let target = planned_member(*member, state);
    let target_state = planned_state(*member, state, names);
    &&& full_name(*stage.member.member_symbol) == full_name(*target)
    &&& read_alike(stage.state, target_state) || read_alike(
        stage.state,
        stage_state(planner, *target, target_state),
    )
}

/// Whether a stage computes a member for a state, as it was planned at some point.
pub open spec fn computes(
    planner: PlannerView,
    stage: DescriptionView,
    member: Rc<MemberSymbol>,
    state: QueryPropertiesView,
) -> bool {
    exists|names: Set<Seq<char>>| #[trigger] computes_with(planner, stage, member, state, names)
}

/// The stage that planning ends in computes the member for the state.
pub proof fn planned_stages_compute_the_member(
    planner: PlannerView,
    member: Rc<MemberSymbol>,
    state: QueryPropertiesView,
    plan: PlanState,
)
    requires
        plan_member(planner, member, state, plan).0 is Ok,
    ensures
        computes_with(
            planner,
            plan_member(planner, member, state, plan).0->Ok_0,
            member,
            state,
            plan.resolved,
        ),
{
    let stage = plan_member(planner, member, state, plan).0->Ok_0;
    let target = planned_member(inner(member), state);
    let target_state = planned_state(inner(member), state, plan.resolved);
    let own_state = stage_state(planner, inner(target), target_state);
    let name = full_name(inner(target));
    lemma_find_match(plan.descriptions, name, target_state);
    states_are_the_same_if_they_read_alike(stage.state, target_state);
    states_are_the_same_if_they_read_alike(stage.state, own_state);
    if find_match(plan.descriptions, name, target_state) is None && is_unstepped_window(
        planner,
        inner(target),
    ) {
        let measure = inner(target)->Measure_0;
        let base = unrolled_member(inner(measure));
        if inner(measure).multi_stage is Some {
            lemma_unrolled_target(inner(member), state, own_state);
            let base_target = planned_member(inner(base), own_state);
            lemma_find_match(plan.descriptions, full_name(inner(base_target)), own_state);
            assert(plan_member(planner, base, own_state, plan).0->Ok_0 == stage);
        }
    }
}

/// A stage is found for a member and a state only if it computes a member of that name, for a state
/// that reads the same rows and groups them alike; and then one is found.
pub proof fn stages_are_found_by_name_and_state(
    descriptions: Seq<DescriptionView>,
    name: Seq<char>,
    state: QueryPropertiesView,
)
    ensures
        ({
            let found = find_match(descriptions, name, state);
            &&& found is Some == exists|i: int|
                0 <= i < descriptions.len() && full_name(
                    *(#[trigger] descriptions[i]).member.member_symbol,
                ) == name && read_alike(descriptions[i].state, state)
            &&& found is Some ==> descriptions.contains(found->0) && full_name(
                *found->0.member.member_symbol,
            ) == name && read_alike(found->0.state, state)
        }),
{
    lemma_find_match(descriptions, name, state);
    assert forall|i: int| 0 <= i < descriptions.len() implies (
    #[trigger] descriptions[i]).is_match(name, state) == (full_name(
        *descriptions[i].member.member_symbol,
    ) == name && read_alike(descriptions[i].state, state)) by {
        states_are_the_same_if_they_read_alike(descriptions[i].state, state);
    }
    if let Some(stage) = find_match(descriptions, name, state) {
        states_are_the_same_if_they_read_alike(stage.state, state);
        let i = choose|i: int| 0 <= i < descriptions.len() && descriptions[i] == stage;
        assert(full_name(inner(descriptions[i].member.member_symbol)) == name);
    }
}

/// Whether a member is a measure with a window or a running total.
pub open spec fn is_window(member: MemberSymbol) -> bool {
    member matches MemberSymbol::Measure(m) && (m.rolling_window is Some || m.running_total)
}

/// A member that takes no more than one stage and has none takes one that reads the data: for the
/// state it is planned for, under the next name, and as grouped as the query.
pub proof fn plain_members_take_one_stage(
    planner: PlannerView,
    member: Rc<MemberSymbol>,
    state: QueryPropertiesView,
    plan: PlanState,
)
    requires
        !has_multi_stage(*planned_member(*member, state), false),
        find_match(
            plan.descriptions,
            full_name(*planned_member(*member, state)),
            planned_state(*member, state, plan.resolved),
        ) is None,
    ensures
        ({
            let (result, after) = plan_member(planner, member, state, plan);
            &&& result is Ok
            &&& after.descriptions == plan.descriptions.push(result->Ok_0)
            &&& after.next == plan.next + 1
            &&& after.resolved == plan.resolved
            &&& result->Ok_0.member.member_symbol == planned_member(*member, state)
            &&& result->Ok_0.member.member_type == MemberTypeView::Leaf(LeafView::Measure)
            &&& result->Ok_0.member.is_ungrupped == planner.query.ungrouped
            &&& !result->Ok_0.member.has_aggregates_on_top
            &&& !result->Ok_0.member.is_without_member_leaf
            &&& result->Ok_0.state == planned_state(*member, state, plan.resolved)
            &&& result->Ok_0.input.len() == 0
            &&& result->Ok_0.alias == cte_name(plan.next)
        }),
{
}

/// The members that a definition lists, if it does.
pub open spec fn listed(list: Option<Rc<Vec<Rc<MemberSymbol>>>>) -> Seq<Rc<MemberSymbol>> {
    if list is Some {
        (list->0)@
    } else {
        Seq::empty()
    }
}

/// Whether an inner stage computes what the multi-stage properties of a measure say.
pub open spec fn follows(inode: InodeView, properties: MultiStageProperties) -> bool {
    &&& inode.reduce_by == listed(properties.reduce_by)
    &&& inode.add_group_by == listed(properties.add_group_by)
    &&& inode.group_by is Some == properties.group_by is Some
    &&& properties.group_by is Some ==> inode.group_by->0 == listed(properties.group_by)
    &&& inode.time_shift == properties.time_shift
}

/// Whether an inner stage says no more than how it computes its member.
pub open spec fn says_no_more(inode: InodeView) -> bool {
    &&& inode.reduce_by.len() == 0
    &&& inode.group_by is None
    &&& inode.time_shift is None
}

/// A member that takes more than one stage, has none and is no window takes an inner stage, behind
/// all it reads: for the state it is planned for, computed as its definition says. Ranks and
/// calculations leave rows as they are, aggregates are as grouped as the query, dimensions are
/// grouped.
pub proof fn multi_stage_members_take_an_inner_stage(
    planner: PlannerView,
    member: Rc<MemberSymbol>,
    state: QueryPropertiesView,
    plan: PlanState,
)
    requires
        has_multi_stage(*planned_member(*member, state), false),
        !is_window(*planned_member(*member, state)),
        find_match(
            plan.descriptions,
            full_name(*planned_member(*member, state)),
            planned_state(*member, state, plan.resolved),
        ) is None,
        plan_member(planner, member, state, plan).0 is Ok,
    ensures
        ({
            let (result, after) = plan_member(planner, member, state, plan);
            let target = planned_member(*member, state);
            let stage = result->Ok_0;
            &&& after.descriptions.len() > plan.descriptions.len()
            &&& after.descriptions.last() == stage
            &&& stage.alias == cte_name((after.next - 1) as nat)
            &&& stage.member.member_symbol == target
            &&& !stage.member.has_aggregates_on_top
            &&& !stage.member.is_without_member_leaf
            &&& stage.state == planned_state(*member, state, plan.resolved)
            &&& stage.member.member_type is Inode
            &&& match *target {
                MemberSymbol::Measure(m) => {
                    let inode = stage.member.member_type->Inode_0;
                    &&& (inode.inode_type is Rank) == (m.kind == MeasureKind::Rank)
                    &&& (inode.inode_type is Calculate) == (m.kind == MeasureKind::Calculated)
                    &&& (inode.inode_type is Aggregate) == (m.kind == MeasureKind::Aggregated
                        || m.kind == MeasureKind::Count)
                    &&& stage.member.is_ungrupped == (m.kind == MeasureKind::Rank || m.kind
                        == MeasureKind::Calculated || planner.query.ungrouped)
                    &&& m.multi_stage is Some ==> follows(inode, *m.multi_stage->0)
                    &&& m.multi_stage is None ==> says_no_more(inode) && inode.add_group_by.len()
                        == 0
                },
                MemberSymbol::Dimension(d) => {
                    let inode = stage.member.member_type->Inode_0;
                    &&& inode.inode_type is Dimension
                    &&& !stage.member.is_ungrupped
                    &&& says_no_more(inode)
                    &&& inode.add_group_by == if d.multi_stage is Some {
                        listed(d.multi_stage->0.add_group_by)
                    } else {
                        Seq::empty()
                    }
                },
                _ => {
                    let inode = stage.member.member_type->Inode_0;
                    &&& inode.inode_type is Dimension
                    &&& !stage.member.is_ungrupped
                    &&& says_no_more(inode)
                    &&& inode.add_group_by.len() == 0
                },
            }
        }),
{
    let target = planned_member(inner(member), state);
    let target_state = planned_state(inner(member), state, plan.resolved);
    let begun = PlanState { resolved: resolved_with(inner(target), plan.resolved), ..plan };
    lemma_inputs_extend(
        planner,
        target,
        input_state(planner, inner(target), target_state),
        begun,
    );
}

proof fn lemma_inputs_extend(
    planner: PlannerView,
    member: Rc<MemberSymbol>,
    state: QueryPropertiesView,
    plan: PlanState,
)
    ensures
        extends(plan, plan_inputs(planner, member, state, plan).plan),
{
    lemma_inputs(planner, member, state, plan);
}

// ---------------------------------------------------------------------------------------------
// Inputs
// ---------------------------------------------------------------------------------------------

/// Whether a member, as a dependency, has a stage of its own: it is a measure, or a dimension that
/// takes more than one stage.
pub open spec fn has_own_stage(member: MemberSymbol) -> bool {
    member is Measure || (member is Dimension && has_multi_stage(member, false))
}

/// Whether a stage of a dependency is read as an input, or is the stage of a dimension that only
/// others join.
pub open spec fn is_read_or_joined(
    stage: DescriptionView,
    inputs: Seq<DescriptionView>,
    member: MemberSymbol,
) -> bool {
    if stage.is_multi_stage_dimension() && !(member is Dimension) {
        true
    } else {
        inputs.contains(stage)
    }
}

/// Whether one of the stages is that of the dependency.
pub open spec fn has_stage_for(
    planner: PlannerView,
    stages: Seq<DescriptionView>,
    inputs: Seq<DescriptionView>,
    member: MemberSymbol,
    dep: Rc<MemberSymbol>,
    state: QueryPropertiesView,
) -> bool {
    exists|k: int|
        0 <= k < stages.len() && computes(planner, #[trigger] stages[k], dep, state)
            && is_read_or_joined(stages[k], inputs, member)
}

/// Whether a stage is that of one of the first `n` dependencies.
pub open spec fn is_stage_of_first(
    planner: PlannerView,
    stage: DescriptionView,
    member: MemberSymbol,
    n: nat,
    state: QueryPropertiesView,
) -> bool {
    exists|i: int|
        0 <= i < n && has_own_stage(resolved(*#[trigger] dependencies(member)[i])) && computes(
            planner,
            stage,
            Rc::new(resolved(*dependencies(member)[i])),
            state,
        )
}

proof fn lemma_dependencies_read(
    planner: PlannerView,
    member: Rc<MemberSymbol>,
    state: QueryPropertiesView,
    n: nat,
    plan: PlanState,
)
    requires
        n <= dependencies(*member).len(),
        plan_dependencies(planner, member, state, n, plan).error is None,
    ensures
        ({
            let inputs = plan_dependencies(planner, member, state, n, plan);
            &&& extends(plan, inputs.plan)
            &&& forall|i: int|
                0 <= i < n && has_own_stage(resolved(*#[trigger] dependencies(*member)[i]))
                    ==> has_stage_for(
                    planner,
                    inputs.plan.descriptions,
                    inputs.found,
                    *member,
                    Rc::new(resolved(*dependencies(*member)[i])),
                    state,
                )
            &&& forall|k: int|
                0 <= k < inputs.found.len() ==> is_stage_of_first(
                    planner,
                    #[trigger] inputs.found[k],
                    *member,
                    n,
                    state,
                ) && (inputs.found[k].is_multi_stage_dimension() ==> *member is Dimension)
        }),
    decreases n,
{
    let inputs = plan_dependencies(planner, member, state, n, plan);
    let deps = dependencies(inner(member));
    if n > 0 {
        let m = (n - 1) as nat;
        let before = plan_dependencies(planner, member, state, m, plan);
        lemma_dependencies_read(planner, member, state, m, plan);
        let dep = Rc::new(resolved(inner(deps[n - 1])));
        assert(is_input(inner(dep)) == has_own_stage(inner(dep)));
        if is_input(inner(dep)) {
            planning_keeps_plans_sound(planner, dep, state, before.plan);
            let stage = plan_member(planner, dep, state, before.plan).0->Ok_0;
            planned_stages_compute_the_member(planner, dep, state, before.plan);
            assert(computes(planner, stage, dep, state));
            lemma_extends_trans(plan, before.plan, inputs.plan);
            assert forall|i: int|
                0 <= i < n && has_own_stage(resolved(*#[trigger] deps[i])) implies has_stage_for(
                planner,
                inputs.plan.descriptions,
                inputs.found,
                inner(member),
                Rc::new(resolved(*deps[i])),
                state,
            ) by {
                let stages = inputs.plan.descriptions;
                if i < m {
                    let k = choose|k: int|
                        0 <= k < before.plan.descriptions.len() && computes(
                            planner,
                            #[trigger] before.plan.descriptions[k],
                            Rc::new(resolved(inner(deps[i]))),
                            state,
                        ) && is_read_or_joined(
                            before.plan.descriptions[k],
                            before.found,
                            inner(member),
                        );
                    assert(stages[k] == before.plan.descriptions[k]);
                    if before.found.contains(stages[k]) {
                        let j = choose|j: int|
                            0 <= j < before.found.len() && before.found[j] == stages[k];
                        assert(inputs.found[j] == stages[k]);
                    }
                } else {
                    let k = choose|k: int| 0 <= k < stages.len() && stages[k] == stage;
                    assert(computes(planner, stages[k], dep, state));
                    if !(stage.is_multi_stage_dimension() && !(inner(member) is Dimension)) {
                        assert(inputs.found[inputs.found.len() - 1] == stage);
                    }
                }
            }
        }
        assert forall|k: int| 0 <= k < inputs.found.len() implies is_stage_of_first(
            planner,
            #[trigger] inputs.found[k],
            inner(member),
            n,
            state,
        ) && (inputs.found[k].is_multi_stage_dimension() ==> inner(member) is Dimension) by {
            if k < before.found.len() {
                assert(inputs.found[k] == before.found[k]);
                let i = choose|i: int|
                    0 <= i < m && has_own_stage(resolved(inner(#[trigger] deps[i]))) && computes(
                        planner,
                        before.found[k],
                        Rc::new(resolved(inner(deps[i]))),
                        state,
                    );
                assert(has_own_stage(resolved(inner(deps[i]))));
            } else {
                assert(has_own_stage(resolved(inner(deps[n - 1]))));
            }
        }
    }
}

/// Whether a member switches on another member.
pub open spec fn is_member_switch(member: MemberSymbol) -> bool {
    &&& case_of(member) is Some
    &&& case_of(member)->0 is CaseSwitch
    &&& case_of(member)->0->CaseSwitch_0.switch is Member
}

/// An inner stage reads the stages of the dependencies of its member, for the state of its inputs:
/// each dependency that has a stage of its own has it in the plan, and it is read, except that the
/// stage of a dimension is read by dimensions only. Nothing else is read, but for a stage that
/// brings the dimensions where no dependency has a stage.
pub proof fn inner_stages_read_their_dependencies(
    planner: PlannerView,
    member: Rc<MemberSymbol>,
    state: QueryPropertiesView,
    plan: PlanState,
)
    requires
        has_multi_stage(*planned_member(*member, state), false),
        !is_window(*planned_member(*member, state)),
        !is_member_switch(*planned_member(*member, state)),
        find_match(
            plan.descriptions,
            full_name(*planned_member(*member, state)),
            planned_state(*member, state, plan.resolved),
        ) is None,
        plan_member(planner, member, state, plan).0 is Ok,
    ensures
        ({
            let (result, after) = plan_member(planner, member, state, plan);
            let target = planned_member(*member, state);
            let deps = dependencies(*target);
            let below = input_state(
                planner,
                *target,
                planned_state(*member, state, plan.resolved),
            );
            let inputs = result->Ok_0.input;
            &&& forall|i: int|
                0 <= i < deps.len() && has_own_stage(resolved(*#[trigger] deps[i]))
                    ==> has_stage_for(
                    planner,
                    after.descriptions,
                    inputs,
                    *target,
                    Rc::new(resolved(*deps[i])),
                    below,
                )
            &&& if exists|i: int|
                0 <= i < deps.len() && has_own_stage(resolved(*#[trigger] deps[i])) {
                forall|k: int|
                    0 <= k < inputs.len() ==> is_stage_of_first(
                        planner,
                        #[trigger] inputs[k],
                        *target,
                        deps.len(),
                        below,
                    ) && (inputs[k].is_multi_stage_dimension() ==> *target is Dimension)
            } else {
                &&& inputs.len() == 1
                &&& inputs[0].member.member_type == MemberTypeView::Leaf(LeafView::Measure)
                &&& inputs[0].member.member_symbol == target
                &&& inputs[0].member.is_without_member_leaf
                &&& !inputs[0].member.has_aggregates_on_top
                &&& inputs[0].member.is_ungrupped == planner.query.ungrouped
                &&& inputs[0].state == below
                &&& inputs[0].input.len() == 0
                &&& after.descriptions.contains(inputs[0])
            }
        }),
{
    let (result, after) = plan_member(planner, member, state, plan);
    let target = planned_member(inner(member), state);
    let deps = dependencies(inner(target));
    let target_state = planned_state(inner(member), state, plan.resolved);
    let below = input_state(planner, inner(target), target_state);
    let begun = PlanState { resolved: resolved_with(inner(target), plan.resolved), ..plan };
    let inputs = plan_default_inputs(planner, target, below, begun);
    assert(inputs == plan_inputs(planner, target, below, begun));
    let read = plan_dependencies(planner, target, below, deps.len(), begun);
    lemma_dependencies_read(planner, target, below, deps.len(), begun);
    assert(after.descriptions == inputs.plan.descriptions.push(result->Ok_0));
    assert forall|i: int| 0 <= i < deps.len() implies is_input(resolved(*#[trigger] deps[i]))
        == has_own_stage(resolved(*deps[i])) by {}
    if has_inputs(inner(target)) {
        let i = choose|i: int|
            0 <= i < deps.len() && is_input(resolved(inner(#[trigger] deps[i])));
        assert(has_own_stage(resolved(inner(deps[i]))));
        assert(result->Ok_0.input == read.found);
        assert forall|i: int|
            0 <= i < deps.len() && has_own_stage(resolved(*#[trigger] deps[i])) implies
            has_stage_for(
            planner,
            after.descriptions,
            result->Ok_0.input,
            inner(target),
            Rc::new(resolved(*deps[i])),
            below,
        ) by {
            let k = choose|k: int|
                0 <= k < read.plan.descriptions.len() && computes(
                    planner,
                    #[trigger] read.plan.descriptions[k],
                    Rc::new(resolved(inner(deps[i]))),
                    below,
                ) && is_read_or_joined(read.plan.descriptions[k], read.found, inner(target));
            assert(after.descriptions[k] == read.plan.descriptions[k]);
        }
    } else {
        assert forall|i: int| 0 <= i < deps.len() implies !has_own_stage(
            resolved(*#[trigger] deps[i]),
        ) by {
            assert(!is_input(resolved(inner(deps[i]))));
        }
        if read.found.len() > 0 {
            assert(is_stage_of_first(planner, read.found[0], inner(target), deps.len(), below));
            let i = choose|i: int|
                0 <= i < deps.len() && has_own_stage(resolved(inner(#[trigger] deps[i])))
                    && computes(
                    planner,
                    read.found[0],
                    Rc::new(resolved(inner(deps[i]))),
                    below,
                );
            assert(false);
        }
        let stage = result->Ok_0.input[0];
        let n = read.plan.descriptions.len() as int;
        assert(after.descriptions[n] == stage);
    }
}

proof fn lemma_switch_read(
    planner: PlannerView,
    definition: CaseSwitchDefinition,
    switch: Rc<MemberSymbol>,
    state: QueryPropertiesView,
    n: nat,
    plan: PlanState,
)
    requires
        n <= switch_entries(definition).len(),
        plan_switch_inputs(planner, definition, switch, state, n, plan).error is None,
    ensures
        ({
            let inputs = plan_switch_inputs(planner, definition, switch, state, n, plan);
            &&& inputs.found.len() == n
            &&& forall|k: int|
                0 <= k < n ==> computes(
                    planner,
                    #[trigger] inputs.found[k],
                    switch_entries(definition)[k].dep,
                    entry_state(switch, switch_entries(definition)[k], state),
                )
        }),
    decreases n,
{
    let inputs = plan_switch_inputs(planner, definition, switch, state, n, plan);
    if n > 0 {
        let m = (n - 1) as nat;
        let before = plan_switch_inputs(planner, definition, switch, state, m, plan);
        lemma_switch_read(planner, definition, switch, state, m, plan);
        let entry = switch_entries(definition)[n - 1];
        let restricted = entry_state(switch, entry, state);
        planned_stages_compute_the_member(planner, entry.dep, restricted, before.plan);
        assert forall|k: int| 0 <= k < n implies computes(
            planner,
            #[trigger] inputs.found[k],
            switch_entries(definition)[k].dep,
            entry_state(switch, switch_entries(definition)[k], state),
        ) by {
            if k < m {
                assert(inputs.found[k] == before.found[k]);
            }
        }
    }
}

/// The stage of a member that switches on another member reads one stage for each dependency of its
/// branches, in order, each planned for the state of the inputs and the values that need it.
pub proof fn switch_stages_read_each_dependency(
    planner: PlannerView,
    member: Rc<MemberSymbol>,
    state: QueryPropertiesView,
    plan: PlanState,
)
    requires
        has_multi_stage(*planned_member(*member, state), false),
        !is_window(*planned_member(*member, state)),
        is_member_switch(*planned_member(*member, state)),
        find_match(
            plan.descriptions,
            full_name(*planned_member(*member, state)),
            planned_state(*member, state, plan.resolved),
        ) is None,
        plan_member(planner, member, state, plan).0 is Ok,
    ensures
        ({
            let target = planned_member(*member, state);
            let definition = case_of(*target)->0->CaseSwitch_0;
            let entries = switch_entries(*definition);
            let below = input_state(
                planner,
                *target,
                planned_state(*member, state, plan.resolved),
            );
            let inputs = plan_member(planner, member, state, plan).0->Ok_0.input;
            &&& inputs.len() == entries.len()
            &&& forall|k: int|
                0 <= k < entries.len() ==> computes(
                    planner,
                    #[trigger] inputs[k],
                    entries[k].dep,
                    entry_state(definition.switch->Member_0, entries[k], below),
                )
        }),
{
    let target = planned_member(inner(member), state);
    let definition = case_of(inner(target))->0->CaseSwitch_0;
    let switch = inner(definition).switch->Member_0;
    let target_state = planned_state(inner(member), state, plan.resolved);
    let below = input_state(planner, inner(target), target_state);
    let begun = PlanState { resolved: resolved_with(inner(target), plan.resolved), ..plan };
    let n = switch_entries(inner(definition)).len();
    let inputs = plan_switch_inputs(planner, inner(definition), switch, below, n, begun);
    assert(inputs == plan_inputs(planner, target, below, begun));
    lemma_switch_read(planner, inner(definition), switch, below, n, begun);
}

// ---------------------------------------------------------------------------------------------
// Windows
// ---------------------------------------------------------------------------------------------

/// The window of a measure has the bounds of the definition, and none where it has no window.
pub proof fn windows_have_the_bounds_of_the_definition(measure: MeasureSymbol)
    ensures
        measure.rolling_window is Some ==> window_of(measure) == *measure.rolling_window->0,
        measure.rolling_window is None ==> window_of(measure).trailing is None && window_of(
            measure,
        ).leading is None && window_of(measure).offset is None && window_of(measure).rolling_type
            is None && window_of(measure).granularity is None,
{
}

/// Whether a window is that of a measure: without bounds for a running total, from the start of the
/// period for a window to the date, else with the bounds of the measure, at the end of each step
/// unless it says otherwise.
pub open spec fn is_window_of(window: RollingWindowTypeView, measure: MeasureSymbol) -> bool {
    let bounds = window_of(measure);
    if measure.running_total {
        window is RunningTotal
    } else if bounds.rolling_type is Some && bounds.rolling_type->0@ == "to_date"@ {
        &&& window matches RollingWindowTypeView::ToDate { granularity }
        &&& bounds.granularity is Some
        &&& granularity == bounds.granularity->0@
    } else {
        &&& window matches RollingWindowTypeView::Regular { trailing, leading, offset }
        &&& trailing == optional_text(bounds.trailing)
        &&& leading == optional_text(bounds.leading)
        &&& offset == if bounds.offset is Some {
            bounds.offset->0@
        } else {
            "end"@
        }
    }
}

/// A window that steps through time takes a stage that reads two: the series of its points, and its
/// input. It is computed for the state of the measure, as grouped as the query. The input is the
/// measure without the window, for the state that the window needs; where the measure is not
/// multi-stage it reads the data, is aggregated further on, and is not grouped if the query is not
/// or if its results do not combine.
pub proof fn windows_roll_their_input_over_a_series(
    planner: PlannerView,
    member: Rc<MemberSymbol>,
    measure: Rc<MeasureSymbol>,
    state: QueryPropertiesView,
    plan: PlanState,
)
    requires
        *member == MemberSymbol::Measure(measure),
        is_window(*member),
        query_time_dimensions(planner.query) is Ok,
        query_time_dimensions(planner.query)->Ok_0.len() > 0,
        plan_window(planner, member, state, plan).0 is Ok,
    ensures
        ({
            let (result, after) = plan_window(planner, member, state, plan);
            let stage = result->Ok_0->0;
            let dimension = finest(query_time_dimensions(planner.query)->Ok_0);
            let base_state = rolling_base_state(*dimension, window_of(*measure), state);
            &&& result->Ok_0 is Some
            &&& base_state is Ok
            &&& after.descriptions.last() == stage
            &&& stage.alias == cte_name((after.next - 1) as nat)
            &&& stage.member.member_symbol == member
            &&& stage.member.is_ungrupped == planner.query.ungrouped
            &&& !stage.member.has_aggregates_on_top
            &&& !stage.member.is_without_member_leaf
            &&& stage.state == state
            &&& stage.member.member_type matches MemberTypeView::Inode(inode) && {
                &&& says_no_more(inode)
                &&& inode.add_group_by.len() == 0
                &&& inode.inode_type matches InodeTypeView::RollingWindow(window) && {
                    &&& *window.time_dimension == MemberSymbol::TimeDimension(dimension)
                    &&& seq![window.base_time_dimension] == base_state->Ok_0.time_dimensions
                    &&& is_window_of(window.rolling_window, *measure)
                }
            }
            &&& stage.input.len() == 2
            &&& stage.input[0].alias == "time_series"@
            &&& after.descriptions.contains(stage.input[0])
            &&& after.descriptions.contains(stage.input[1])
            &&& if measure.multi_stage is None {
                let input = stage.input[1];
                &&& *input.member.member_symbol is Measure
                &&& !is_window(*input.member.member_symbol)
                &&& full_name(*input.member.member_symbol) == full_name(*member)
                &&& input.member.member_type == MemberTypeView::Leaf(LeafView::Measure)
                &&& input.member.is_ungrupped == (planner.query.ungrouped || (
                measure.rolling_window is Some && !measure.additive))
                &&& input.member.has_aggregates_on_top
                &&& !input.member.is_without_member_leaf
                &&& input.state == base_state->Ok_0
                &&& input.input.len() == 0
            } else {
                computes(planner, stage.input[1], unrolled_member(*measure), base_state->Ok_0)
            }
        }),
{
    let (result, after) = plan_window(planner, member, state, plan);
    let stage = result->Ok_0->0;
    let dimension = finest(query_time_dimensions(planner.query)->Ok_0);
    let symbol = Rc::new(MemberSymbol::TimeDimension(dimension));
    let window = window_of(inner(measure));
    let base = unrolled_member(inner(measure));
    assert(is_cumulative(inner(measure)));
    let base_state = rolling_base_state(inner(dimension), window, state)->Ok_0;
    let (series, descriptions) = with_time_series(symbol, state, plan.descriptions);
    let with_series = PlanState { descriptions, ..plan };
    lemma_series(symbol, state, plan.descriptions);
    let k = choose|k: int| 0 <= k < descriptions.len() && descriptions[k] == series->Ok_0;
    if inner(measure).multi_stage is None {
        let n = descriptions.len() as int;
        assert(after.descriptions[k] == stage.input[0]);
        assert(after.descriptions[n] == stage.input[1]);
    } else {
        planning_keeps_plans_sound(planner, base, base_state, with_series);
        planned_stages_compute_the_member(planner, base, base_state, with_series);
        let (input, with_base) = plan_member(planner, base, base_state, with_series);
        assert(with_base.descriptions[k] == descriptions[k]);
        assert(after.descriptions[k] == stage.input[0]);
        let j = choose|j: int|
            0 <= j < with_base.descriptions.len() && with_base.descriptions[j] == input->Ok_0;
        assert(after.descriptions[j] == stage.input[1]);
    }
}

proof fn lemma_series(
    dimension: Rc<MemberSymbol>,
    state: QueryPropertiesView,
    descriptions: Seq<DescriptionView>,
)
    requires
        *dimension is TimeDimension,
    ensures
        ({
            let (series, after) = with_time_series(dimension, state, descriptions);
            &&& series is Ok
            &&& after.contains(series->Ok_0)
            &&& series->Ok_0.alias == "time_series"@
        }),
{
    let (series, after) = with_time_series(dimension, state, descriptions);
    lemma_find_alias(descriptions, "time_series"@);
    if find_alias(descriptions, "time_series"@) is None {
        assert(after[after.len() - 1] == series->Ok_0);
    }
}

/// The series of points of a window, where there is none yet, is a stage that reads no other: over
/// the time dimension, for the state of the measure. Where the query gives no dates, it takes them
/// from the stage that finds the first and the last moment, which is then there.
pub proof fn series_take_their_dates_from_the_query_or_a_stage(
    dimension: Rc<MemberSymbol>,
    state: QueryPropertiesView,
    descriptions: Seq<DescriptionView>,
)
    requires
        *dimension is TimeDimension,
        forall|i: int|
            0 <= i < descriptions.len() ==> (#[trigger] descriptions[i]).alias != "time_series"@,
    ensures
        ({
            let (series, after) = with_time_series(dimension, state, descriptions);
            let has_dates = dimension->TimeDimension_0.date_range is Some;
            &&& series is Ok
            &&& after.last() == series->Ok_0
            &&& series->Ok_0.alias == "time_series"@
            &&& series->Ok_0.state == state
            &&& series->Ok_0.input.len() == 0
            &&& series->Ok_0.member.member_symbol == dimension
            &&& series->Ok_0.member.is_ungrupped
            &&& !series->Ok_0.member.has_aggregates_on_top
            &&& !series->Ok_0.member.is_without_member_leaf
            &&& series->Ok_0.member.member_type matches MemberTypeView::Leaf(
                LeafView::TimeSeries { time_dimension, date_range_cte },
            ) && time_dimension == dimension && date_range_cte == if has_dates {
                None
            } else {
                Some("time_series_get_range"@)
            }
            &&& descriptions.is_prefix_of(after)
            &&& has_dates ==> after.len() == descriptions.len() + 1
            &&& !has_dates ==> exists|i: int|
                0 <= i < after.len() && (#[trigger] after[i]).alias == "time_series_get_range"@
            &&& !has_dates && (forall|i: int|
                0 <= i < descriptions.len() ==> (#[trigger] descriptions[i]).alias
                    != "time_series_get_range"@) ==> {
                let range = after[descriptions.len() as int];
                &&& after.len() == descriptions.len() + 2
                &&& range.alias == "time_series_get_range"@
                &&& range.state == state
                &&& range.input.len() == 0
                &&& range.member.member_symbol == dimension
                &&& range.member.is_ungrupped
                &&& range.member.member_type == MemberTypeView::Leaf(
                    LeafView::TimeSeriesGetRange(dimension),
                )
            }
        }),
{
    let (series, after) = with_time_series(dimension, state, descriptions);
    lemma_find_alias(descriptions, "time_series"@);
    lemma_find_alias(descriptions, "time_series_get_range"@);
    if let Some(stage) = find_alias(descriptions, "time_series"@) {
        let i = choose|i: int| 0 <= i < descriptions.len() && descriptions[i] == stage;
        assert(descriptions[i].alias != "time_series"@);
    }
    match find_alias(descriptions, "time_series_get_range"@) {
        Some(stage) => {
            let i = choose|i: int| 0 <= i < descriptions.len() && descriptions[i] == stage;
            assert(descriptions[i].alias == "time_series_get_range"@);
            assert(after[i] == descriptions[i]);
        },
        None => {
            let n = descriptions.len() as int;
            if inner(inner(dimension)->TimeDimension_0).date_range is None {
                assert(after[n].alias == "time_series_get_range"@);
            }
        },
    }
}

/// A window that nothing steps through, of a measure that is not multi-stage, takes one stage that
/// reads the data: the measure without the window, as grouped as the query, for the state with the
/// date ranges opened.
pub proof fn unstepped_windows_read_the_data(
    planner: PlannerView,
    member: Rc<MemberSymbol>,
    measure: Rc<MeasureSymbol>,
    state: QueryPropertiesView,
    plan: PlanState,
)
    requires
        *member == MemberSymbol::Measure(measure),
        is_window(*member),
        measure.multi_stage is None,
        query_time_dimensions(planner.query) is Ok,
        query_time_dimensions(planner.query)->Ok_0.len() == 0,
        plan_window(planner, member, state, plan).0 is Ok,
    ensures
        ({
            let (result, after) = plan_window(planner, member, state, plan);
            let stage = result->Ok_0->0;
            &&& result->Ok_0 is Some
            &&& after.descriptions == plan.descriptions.push(stage)
            &&& after.next == plan.next + 1
            &&& stage.alias == cte_name(plan.next)
            &&& *stage.member.member_symbol is Measure
            &&& !is_window(*stage.member.member_symbol)
            &&& full_name(*stage.member.member_symbol) == full_name(*member)
            &&& stage.member.member_type == MemberTypeView::Leaf(LeafView::Measure)
            &&& stage.member.is_ungrupped == planner.query.ungrouped
            &&& stage.member.has_aggregates_on_top
            &&& !stage.member.is_without_member_leaf
            &&& stage.state == unstepped_state(window_of(*measure), state)
            &&& stage.input.len() == 0
        }),
{
    assert(is_cumulative(inner(measure)));
}

/// A window is refused, and nothing is planned for it, in four cases: its measure is not
/// multi-stage and refers to a measure; a time dimension of the query is none; time dimensions do
/// not agree; it reaches to the date and has no period. The first three errors come in this order.
/// A member that is no window is left to others.
pub proof fn windows_are_refused_in_order(
    planner: PlannerView,
    member: Rc<MemberSymbol>,
    state: QueryPropertiesView,
    plan: PlanState,
)
    ensures
        ({
            let (result, after) = plan_window(planner, member, state, plan);
            let dimensions = query_time_dimensions(planner.query);
            if !is_window(*member) {
                result == Ok::<Option<DescriptionView>, CubeErrorView>(None) && after == plan
            } else if member->Measure_0.multi_stage is None && exists|i: int|
                0 <= i < dependencies(*member).len() && *#[trigger] dependencies(*member)[i]
                    is Measure {
                result == Err::<Option<DescriptionView>, CubeErrorView>(not_multi_stage(*member))
                    && after == plan
            } else if dimensions is Err {
                result == Err::<Option<DescriptionView>, CubeErrorView>(dimensions->Err_0) && after
                    == plan
            } else if dimensions->Ok_0.len() > 0 && !agree(dimensions->Ok_0) {
                result == Err::<Option<DescriptionView>, CubeErrorView>(not_one_time_dimension())
                    && after == plan
            } else {
                result is Ok ==> result->Ok_0 is Some
            }
        }),
{
    if is_window(inner(member)) {
        let is_measure = |d: Rc<MemberSymbol>| *d is Measure;
        let deps = dependencies(inner(member));
        let children = measure_children(inner(member));
        if exists|i: int| 0 <= i < deps.len() && *#[trigger] deps[i] is Measure {
            let i = choose|i: int| 0 <= i < deps.len() && inner(#[trigger] deps[i]) is Measure;
            deps.lemma_filter_contains(is_measure, i);
        }
        if children.len() > 0 {
            deps.lemma_filter_pred(is_measure, 0);
            deps.lemma_filter_contains_rev(is_measure, children[0]);
            let i = choose|i: int| 0 <= i < deps.len() && deps[i] == children[0];
            assert(inner(deps[i]) is Measure);
        }
    }
}

// ---------------------------------------------------------------------------------------------
// Queries
// ---------------------------------------------------------------------------------------------

/// Whether a reference is one to a stage: by its name, for its member, with its columns.
pub open spec fn refers_to(
    reference: MultiStageSubqueryRefView,
    stage: DescriptionView,
) -> bool {
    &&& reference.name == stage.alias
    &&& reference.symbols.len() == 1
    &&& reference.symbols[0] == stage.member.member_symbol
    &&& reference.schema.dimensions == stage.state.dimensions
    &&& reference.schema.time_dimensions == stage.state.time_dimensions
    &&& reference.schema.measures.len() == if *stage.member.member_symbol is Measure {
        1nat
    } else {
        0nat
    }
    &&& *stage.member.member_symbol is Measure ==> reference.schema.measures[0]
        == stage.member.member_symbol
}

/// Whether a stage computes a dimension.
pub open spec fn computes_dimension(stage: DescriptionView) -> bool {
    &&& stage.member.member_type is Inode
    &&& stage.member.member_type->Inode_0.inode_type is Dimension
}

/// Whether a stage is planned and, unless it computes a dimension, referred to.
pub open spec fn is_planned_and_read(
    planned: QueryPlan,
    stage: DescriptionView,
) -> bool {
    &&& planned.plan.descriptions.contains(stage)
    &&& computes_dimension(stage) || exists|k: int|
        0 <= k < planned.references.len() && refers_to(#[trigger] planned.references[k], stage)
}

/// Whether a member has a stage for the state of the query that is planned and read.
pub open spec fn is_served(
    planner: PlannerView,
    planned: QueryPlan,
    member: Rc<MemberSymbol>,
) -> bool {
    exists|stage: DescriptionView| #[trigger]
        is_planned_and_read(planned, stage) && computes(
            planner,
            stage,
            member,
            root_state(planner),
        )
}

/// Whether a reference is one to a stage of the plan that computes no dimension.
pub open spec fn is_justified(
    planned: QueryPlan,
    reference: MultiStageSubqueryRefView,
) -> bool {
    exists|i: int|
        0 <= i < planned.plan.descriptions.len() && refers_to(
            reference,
            #[trigger] planned.plan.descriptions[i],
        ) && !computes_dimension(planned.plan.descriptions[i])
}

proof fn lemma_members_served(planner: PlannerView, next: nat, n: nat)
    requires
        plan_members(planner, next, n).error is None,
    ensures
        ({
            let planned = plan_members(planner, next, n);
            &&& planned.references.len() <= n
            &&& forall|i: int|
                0 <= i < n ==> is_served(
                    planner,
                    planned,
                    #[trigger] multi_stage_members(planner.query)[i],
                )
            &&& forall|k: int|
                0 <= k < planned.references.len() ==> is_justified(
                    planned,
                    #[trigger] planned.references[k],
                )
        }),
    decreases n,
{
    let planned = plan_members(planner, next, n);
    let members = multi_stage_members(planner.query);
    if n > 0 {
        let m = (n - 1) as nat;
        let before = plan_members(planner, next, m);
        lemma_members_served(planner, next, m);
        let root = root_state(planner);
        planning_keeps_plans_sound(planner, members[n - 1], root, before.plan);
        planned_stages_compute_the_member(planner, members[n - 1], root, before.plan);
        let stage = plan_member(planner, members[n - 1], root, before.plan).0->Ok_0;
        assert(computes(planner, stage, members[n - 1], root));
        let count = before.references.len() as int;
        assert forall|i: int| 0 <= i < n implies is_served(
            planner,
            planned,
            #[trigger] members[i],
        ) by {
            if i < m {
                assert(is_served(planner, before, members[i]));
                let other = choose|other: DescriptionView| #[trigger]
                    is_planned_and_read(before, other) && computes(
                        planner,
                        other,
                        members[i],
                        root,
                    );
                let j = choose|j: int|
                    0 <= j < before.plan.descriptions.len() && before.plan.descriptions[j] == other;
                assert(planned.plan.descriptions[j] == other);
                if !computes_dimension(other) {
                    let k = choose|k: int|
                        0 <= k < before.references.len() && refers_to(
                            #[trigger] before.references[k],
                            other,
                        );
                    assert(planned.references[k] == before.references[k]);
                }
                assert(is_planned_and_read(planned, other));
            } else {
                if !computes_dimension(stage) {
                    assert(refers_to(planned.references[count], stage));
                }
                assert(is_planned_and_read(planned, stage));
            }
        }
        assert forall|k: int| 0 <= k < planned.references.len() implies is_justified(
            planned,
            #[trigger] planned.references[k],
        ) by {
            if k < count {
                assert(planned.references[k] == before.references[k]);
                assert(is_justified(before, before.references[k]));
                let i = choose|i: int|
                    0 <= i < before.plan.descriptions.len() && refers_to(
                        before.references[k],
                        #[trigger] before.plan.descriptions[i],
                    ) && !computes_dimension(before.plan.descriptions[i]);
                assert(planned.plan.descriptions[i] == before.plan.descriptions[i]);
            } else {
                let i = choose|i: int|
                    0 <= i < planned.plan.descriptions.len() && planned.plan.descriptions[i]
                        == stage;
                assert(refers_to(planned.references[k], planned.plan.descriptions[i]));
            }
        }
    }
}

/// A query that is planned has, for each of its members that take more than one stage, a stage that
/// computes it for the state of the query, and a reference to that stage, unless it computes a
/// dimension. It has no other references.
pub proof fn queries_read_the_stages_of_their_members(planner: PlannerView, next: nat)
    requires
        plan_query(planner, next).error is None,
    ensures
        ({
            let planned = plan_query(planner, next);
            let members = multi_stage_members(planner.query);
            &&& planned.references.len() <= members.len()
            &&& forall|i: int|
                0 <= i < members.len() ==> is_served(planner, planned, #[trigger] members[i])
            &&& forall|k: int|
                0 <= k < planned.references.len() ==> is_justified(
                    planned,
                    #[trigger] planned.references[k],
                )
        }),
{
    lemma_members_served(planner, next, multi_stage_members(planner.query).len());
}

/// A window is planned unless it is refused: if its time dimensions agree, or there are none, it
/// fails only where it reaches to the date and has no period, and then nothing is planned, or where
/// the planning of a multi-stage input fails.
pub proof fn windows_are_planned_unless_refused(
    planner: PlannerView,
    member: Rc<MemberSymbol>,
    measure: Rc<MeasureSymbol>,
    state: QueryPropertiesView,
    plan: PlanState,
)
    requires
        *member == MemberSymbol::Measure(measure),
        is_window(*member),
        measure.multi_stage is Some || forall|i: int|
            0 <= i < dependencies(*member).len() ==> !(*#[trigger] dependencies(*member)[i]
                is Measure),
        query_time_dimensions(planner.query) is Ok,
        agree(query_time_dimensions(planner.query)->Ok_0),
    ensures
        ({
            let (result, after) = plan_window(planner, member, state, plan);
            let dimensions = query_time_dimensions(planner.query)->Ok_0;
            let lacks_period = is_to_date(window_of(*measure)) && window_of(*measure).granularity
                is None;
            if dimensions.len() > 0 && lacks_period {
                result == Err::<Option<DescriptionView>, CubeErrorView>(granularity_required())
                    && after == plan
            } else if measure.multi_stage is None {
                result is Ok
            } else if dimensions.len() == 0 {
                result is Ok == plan_member(
                    planner,
                    unrolled_member(*measure),
                    unstepped_state(window_of(*measure), state),
                    plan,
                ).0 is Ok
            } else {
                let base_state = rolling_base_state(
                    *finest(dimensions),
                    window_of(*measure),
                    state,
                );
                let (_, descriptions) = with_time_series(
                    Rc::new(MemberSymbol::TimeDimension(finest(dimensions))),
                    state,
                    plan.descriptions,
                );
                &&& base_state is Ok
                &&& result is Ok == plan_member(
                    planner,
                    unrolled_member(*measure),
                    base_state->Ok_0,
                    PlanState { descriptions, ..plan },
                ).0 is Ok
            }
        }),
{
    let is_measure = |d: Rc<MemberSymbol>| *d is Measure;
    let deps = dependencies(inner(member));
    let children = measure_children(inner(member));
    if inner(measure).multi_stage is None && children.len() > 0 {
        deps.lemma_filter_pred(is_measure, 0);
        deps.lemma_filter_contains_rev(is_measure, children[0]);
        let i = choose|i: int| 0 <= i < deps.len() && deps[i] == children[0];
        assert(inner(deps[i]) is Measure);
    }
    let dimensions = query_time_dimensions(planner.query)->Ok_0;
    if dimensions.len() > 0 {
        window_inputs_replace_date_ranges(inner(finest(dimensions)), window_of(inner(measure)), state);
    }
}

/// A series of points that is there is used again, and nothing is added.
pub proof fn series_are_used_again(
    dimension: Rc<MemberSymbol>,
    state: QueryPropertiesView,
    descriptions: Seq<DescriptionView>,
    i: int,
)
    requires
        0 <= i < descriptions.len(),
        descriptions[i].alias == "time_series"@,
    ensures
        ({
            let (series, after) = with_time_series(dimension, state, descriptions);
            &&& after == descriptions
            &&& series is Ok
            &&& descriptions.contains(series->Ok_0)
            &&& series->Ok_0.alias == "time_series"@
        }),
{
    lemma_find_alias(descriptions, "time_series"@);
}

/// A range of dates that is there is used again; else it is put behind all stages.
pub proof fn ranges_are_used_again(
    dimension: Rc<MemberSymbol>,
    state: QueryPropertiesView,
    descriptions: Seq<DescriptionView>,
)
    ensures
        ({
            let (range, after) = with_get_range(dimension, state, descriptions);
            let is_there = exists|i: int|
                0 <= i < descriptions.len() && (#[trigger] descriptions[i]).alias
                    == "time_series_get_range"@;
            &&& range.alias == "time_series_get_range"@
            &&& after.contains(range)
            &&& is_there ==> after == descriptions
            &&& !is_there ==> after == descriptions.push(range) && range.state == state
                && range.member.member_symbol == dimension && range.input.len() == 0
                && range.member.member_type == MemberTypeView::Leaf(
                LeafView::TimeSeriesGetRange(dimension),
            )
        }),
{
    let (range, after) = with_get_range(dimension, state, descriptions);
    lemma_find_alias(descriptions, "time_series_get_range"@);
    match find_alias(descriptions, "time_series_get_range"@) {
        Some(stage) => {
            let i = choose|i: int| 0 <= i < descriptions.len() && descriptions[i] == stage;
            assert(descriptions[i].alias == "time_series_get_range"@);
        },
        None => {
            assert(after[after.len() - 1] == range);
        },
    }
}

/// Planning a query begins with no stages and no dimensions taken up, and with the number that is
/// given.
pub proof fn plans_begin_with_nothing(planner: PlannerView, next: nat)
    ensures
        plan_members(planner, next, 0).plan.descriptions.len() == 0,
        plan_members(planner, next, 0).plan.resolved == Set::<Seq<char>>::empty(),
        plan_members(planner, next, 0).plan.next == next,
        plan_members(planner, next, 0).references.len() == 0,
        plan_members(planner, next, 0).error is None,
{
}

/// One more member of a query is planned behind those before it, for the state of the query. Its
/// stage is referred to behind the others, unless it computes a dimension. An error ends planning,
/// and keeps the references before it.
pub proof fn members_of_a_query_are_planned_in_order(planner: PlannerView, next: nat, n: nat)
    requires
        plan_members(planner, next, n).error is None,
    ensures
        ({
            let before = plan_members(planner, next, n);
            let after = plan_members(planner, next, n + 1);
            let (result, plan) = plan_member(
                planner,
                multi_stage_members(planner.query)[n as int],
                root_state(planner),
                before.plan,
            );
            &&& after.plan == plan
            &&& before.references.is_prefix_of(after.references)
            &&& result is Err ==> after.error == Some(result->Err_0) && after.references
                == before.references
            &&& result is Ok ==> after.error is None && after.references.len()
                == before.references.len() + if computes_dimension(result->Ok_0) {
                0int
            } else {
                1
            }
            &&& result is Ok && !computes_dimension(result->Ok_0) ==> refers_to(
                after.references.last(),
                result->Ok_0,
            )
        }),
{
}

} // verus!
