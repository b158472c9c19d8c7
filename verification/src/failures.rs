//! When planning fails.

use crate::error::CubeErrorView;
use crate::filter::FilterView;
use crate::plan::PlanState;
use crate::plan::PlannerView;
use crate::plan::as_time_dimensions;
use crate::plan::entry_state;
use crate::plan::finest;
use crate::plan::granularity_required;
use crate::plan::input_state;
use crate::plan::lemma_dependency_weight;
use crate::plan::lemma_planned_member_weight;
use crate::plan::lemma_switch_entry_weight;
use crate::plan::lemma_switch_weight;
use crate::plan::lemma_unrolled_weight;
use crate::plan::multi_stage_members;
use crate::plan::not_multi_stage;
use crate::plan::not_one_time_dimension;
use crate::plan::plan_dependencies;
use crate::plan::plan_inputs;
use crate::plan::plan_member;
use crate::plan::plan_members;
use crate::plan::plan_query;
use crate::plan::plan_switch_inputs;
use crate::plan::plan_window;
use crate::plan::planned_member;
use crate::plan::planned_state;
use crate::plan::query_time_dimensions;
use crate::plan::resolved_with;
use crate::plan::rolling_base_state;
use crate::plan::root_state;
use crate::plan::switch_weight;
use crate::plan::unrolled_member;
use crate::plan::unstepped_state;
use crate::plan::weight;
use crate::plan::window_of;
use crate::plan::with_time_series;
use crate::query_properties::QueryPropertiesView;
use crate::static_filter::admitted_branches;
use crate::static_filter::admitted_case;
use crate::static_filter::statically_filtered;
use crate::switch::SwitchUse;
use crate::switch::branch_uses;
use crate::switch::else_uses;
use crate::switch::switch_entries;
use crate::switch::switch_uses;
use crate::switch::with_uses;
use crate::symbol::Case;
use crate::symbol::CaseSwitchDefinition;
use crate::symbol::CaseSwitchItem;
use crate::symbol::MemberSymbol;
use crate::symbol::SwitchBranches;
use crate::symbol::branch_dependencies;
use crate::symbol::case_dependencies;
use crate::symbol::case_of;
use crate::symbol::dependencies;
use crate::symbol::full_name;
use crate::symbol::height;
use crate::symbol::inner;
use crate::symbol::is_cumulative;
use crate::symbol::lemma_dependencies_lie_below;
use crate::symbol::not_a_time_dimension;
use crate::symbol::optional_sql_dependencies;
use crate::symbol::reference;
use crate::symbol::resolved;
use crate::symbol::switch_item_dependencies;
use std::rc::Rc;
use vstd::prelude::*;

verus! {

/// Whether a member is a cumulative measure, or its definition leads to one.
pub open spec fn has_windows(member: MemberSymbol) -> bool
    decreases height(member),
{
    proof {
        lemma_dependencies_lie_below(member);
    }
    (member is Measure && is_cumulative(*member->Measure_0)) || exists|i: int|
        0 <= i < dependencies(member).len() && has_windows(*#[trigger] dependencies(member)[i])
}

/// Whether an error is one of those that rolling windows give: a measure over measures that is not
/// multi-stage, time dimensions that do not agree or are none, or a missing period.
pub open spec fn is_window_error(error: CubeErrorView) -> bool {
    ||| error == not_one_time_dimension()
    ||| error == granularity_required()
    ||| exists|member: MemberSymbol| error == #[trigger] not_multi_stage(member)
    ||| exists|member: MemberSymbol| error == #[trigger] not_a_time_dimension(member)
}

proof fn lemma_dependency_windows(member: MemberSymbol, dep: Rc<MemberSymbol>)
    requires
        dependencies(member).contains(dep),
        has_windows(*dep),
    ensures
        has_windows(member),
{
    let i = choose|i: int| 0 <= i < dependencies(member).len() && dependencies(member)[i] == dep;
    assert(has_windows(inner(dependencies(member)[i])));
}

proof fn lemma_resolved_windows(member: MemberSymbol)
    ensures
        has_windows(resolved(member)) ==> has_windows(member),
    decreases height(member),
{
    lemma_dependencies_lie_below(member);
    if let Some(next) = reference(member) {
        lemma_resolved_windows(inner(next));
        assert(dependencies(member)[0] == next);
        if has_windows(inner(next)) {
            lemma_dependency_windows(member, next);
        }
    }
}

proof fn lemma_admitted_branches(
    branches: SwitchBranches,
    filters: Seq<FilterView>,
    switch: Seq<char>,
    dep: Rc<MemberSymbol>,
)
    requires
        branch_dependencies(admitted_branches(branches, filters, switch)).contains(dep),
    ensures
        branch_dependencies(branches).contains(dep),
    decreases branches,
{
    if let SwitchBranches::Branch(first, rest) = branches {
        let kept = admitted_branches(branches, filters, switch);
        let others = admitted_branches(inner(rest), filters, switch);
        let firsts = first.sql.dependencies@;
        if kept == others {
            lemma_admitted_branches(inner(rest), filters, switch, dep);
            lemma_contains_add(firsts, branch_dependencies(inner(rest)), dep);
        } else {
            lemma_contains_add(firsts, branch_dependencies(others), dep);
            if branch_dependencies(others).contains(dep) {
                lemma_admitted_branches(inner(rest), filters, switch, dep);
            }
            lemma_contains_add(firsts, branch_dependencies(inner(rest)), dep);
        }
    }
}

proof fn lemma_contains_add(
    a: Seq<Rc<MemberSymbol>>,
    b: Seq<Rc<MemberSymbol>>,
    dep: Rc<MemberSymbol>,
)
    ensures
        (a + b).contains(dep) == (a.contains(dep) || b.contains(dep)),
{
    let all = a + b;
    if a.contains(dep) {
        let i = choose|i: int| 0 <= i < a.len() && a[i] == dep;
        assert(all[i] == dep);
    }
    if b.contains(dep) {
        let i = choose|i: int| 0 <= i < b.len() && b[i] == dep;
        assert(all[a.len() + i] == dep);
    }
    if all.contains(dep) {
        let i = choose|i: int| 0 <= i < all.len() && all[i] == dep;
        if i < a.len() {
            assert(a[i] == dep);
        } else {
            assert(b[i - a.len()] == dep);
        }
    }
}

proof fn lemma_admitted_case(case: Option<Case>, filters: Seq<FilterView>, dep: Rc<MemberSymbol>)
    requires
        case_dependencies(admitted_case(case, filters)).contains(dep),
    ensures
        case_dependencies(case).contains(dep),
{
    if let Some(Case::CaseSwitch(definition)) = case {
        if let CaseSwitchItem::Member(member) = inner(definition).switch {
            let name = full_name(inner(member));
            let items = inner(inner(definition).items);
            let kept = admitted_branches(items, filters, name);
            let after = admitted_case(case, filters)->0->CaseSwitch_0;
            let switch = switch_item_dependencies(inner(definition).switch);
            let before_else = optional_sql_dependencies(inner(definition).else_sql);
            let after_else = optional_sql_dependencies(inner(after).else_sql);
            lemma_contains_add(switch + branch_dependencies(kept), after_else, dep);
            lemma_contains_add(switch, branch_dependencies(kept), dep);
            lemma_contains_add(switch + branch_dependencies(items), before_else, dep);
            lemma_contains_add(switch, branch_dependencies(items), dep);
            if branch_dependencies(kept).contains(dep) {
                lemma_admitted_branches(items, filters, name, dep);
            }
        }
    }
}

proof fn lemma_filtered_windows(member: MemberSymbol, filters: Seq<FilterView>)
    ensures
        has_windows(statically_filtered(member, filters)) ==> has_windows(member),
{
    let after = statically_filtered(member, filters);
    if has_windows(after) && !(after is Measure && is_cumulative(inner(after->Measure_0))) {
        let i = choose|i: int|
            0 <= i < dependencies(after).len() && has_windows(
                inner(#[trigger] dependencies(after)[i]),
            );
        let dep = dependencies(after)[i];
        assert(dependencies(after).contains(dep));
        match member {
            MemberSymbol::Measure(m) => {
                let own = inner(inner(m).sql).dependencies@;
                lemma_contains_add(own, case_dependencies(case_of(after)), dep);
                lemma_contains_add(own, case_dependencies(case_of(member)), dep);
                if case_dependencies(case_of(after)).contains(dep) {
                    lemma_admitted_case(inner(m).case, filters, dep);
                }
            },
            MemberSymbol::Dimension(d) => {
                let own = inner(inner(d).sql).dependencies@;
                lemma_contains_add(own, case_dependencies(case_of(after)), dep);
                lemma_contains_add(own, case_dependencies(case_of(member)), dep);
                if case_dependencies(case_of(after)).contains(dep) {
                    lemma_admitted_case(inner(d).case, filters, dep);
                }
            },
            _ => {},
        }
        lemma_dependency_windows(member, dep);
    }
}

/// Whether a branch of a switch leads to a cumulative measure.
pub open spec fn use_has_windows(uses: Seq<SwitchUse>) -> bool {
    exists|k: int| 0 <= k < uses.len() && has_windows(*#[trigger] uses[k].dep)
}

proof fn lemma_entry_windows(uses: Seq<SwitchUse>, i: int)
    requires
        0 <= i < with_uses(Seq::empty(), uses).len(),
        has_windows(*with_uses(Seq::empty(), uses)[i].dep),
    ensures
        use_has_windows(uses),
    decreases uses.len(),
{
    if uses.len() > 0 {
        let before = uses.drop_last();
        let used = uses.last();
        let rest = with_uses(Seq::empty(), before);
        if i < rest.len() {
            assert(with_uses(Seq::empty(), uses)[i].dep == rest[i].dep);
            lemma_entry_windows(before, i);
            let k = choose|k: int|
                0 <= k < before.len() && has_windows(inner(#[trigger] before[k].dep));
            assert(has_windows(inner(uses[k].dep)));
        } else {
            lemma_resolved_windows(inner(used.dep));
            assert(has_windows(inner(uses[uses.len() - 1].dep)));
        }
    }
}

proof fn lemma_branch_use(branches: SwitchBranches, k: int)
    requires
        0 <= k < branch_uses(branches).len(),
    ensures
        branch_dependencies(branches).contains(branch_uses(branches)[k].dep),
    decreases branches,
{
    if let SwitchBranches::Branch(first, rest) = branches {
        let firsts = first.sql.dependencies@;
        let dep = branch_uses(branches)[k].dep;
        if k < firsts.len() {
            assert(firsts[k] == dep);
        } else {
            lemma_branch_use(inner(rest), k - firsts.len());
        }
        lemma_contains_add(firsts, branch_dependencies(inner(rest)), dep);
    }
}

proof fn lemma_use_windows(member: MemberSymbol, definition: Rc<CaseSwitchDefinition>)
    requires
        case_of(member) == Some(Case::CaseSwitch(definition)),
        use_has_windows(switch_uses(*definition)),
    ensures
        has_windows(member),
{
    let uses = switch_uses(inner(definition));
    let k = choose|k: int| 0 <= k < uses.len() && has_windows(inner(#[trigger] uses[k].dep));
    let dep = uses[k].dep;
    let items = inner(inner(definition).items);
    let switch = switch_item_dependencies(inner(definition).switch);
    let else_deps = optional_sql_dependencies(inner(definition).else_sql);
    if k < branch_uses(items).len() {
        lemma_branch_use(items, k);
    } else {
        assert(else_uses(inner(definition))[k - branch_uses(items).len()].dep == dep);
        assert(else_deps[k - branch_uses(items).len()] == dep);
    }
    lemma_contains_add(switch + branch_dependencies(items), else_deps, dep);
    lemma_contains_add(switch, branch_dependencies(items), dep);
    assert(case_dependencies(case_of(member)).contains(dep));
    let case = case_dependencies(case_of(member));
    match member {
        MemberSymbol::Measure(m) => {
            lemma_contains_add(inner(inner(m).sql).dependencies@, case, dep);
        },
        MemberSymbol::Dimension(d) => {
            lemma_contains_add(inner(inner(d).sql).dependencies@, case, dep);
        },
        _ => {},
    }
    lemma_dependency_windows(member, dep);
}

/// Planning a member fails only where its definition leads to a cumulative measure, and only with
/// an error that rolling windows give. This rests on the other steps being total in this library:
/// building states, ruling out case branches, adding filters and time shifts, replacing date ranges
/// and changing granularities always succeed.
pub proof fn planning_fails_only_for_windows(
    planner: PlannerView,
    member: Rc<MemberSymbol>,
    state: QueryPropertiesView,
    plan: PlanState,
)
    ensures
        plan_member(planner, member, state, plan).0 is Err ==> has_windows(*member)
            && is_window_error(plan_member(planner, member, state, plan).0->Err_0),
    decreases weight(*member), 4nat, 0nat,
{
    lemma_planned_member_weight(inner(member), state);
    let target = planned_member(inner(member), state);
    let target_state = planned_state(inner(member), state, plan.resolved);
    lemma_resolved_windows(inner(member));
    lemma_filtered_windows(resolved(inner(member)), state.dimensions_filters);
    lemma_window(planner, target, target_state, plan);
    let after = plan_window(planner, target, target_state, plan).1;
    lemma_inputs(
        planner,
        target,
        input_state(planner, inner(target), target_state),
        PlanState { resolved: resolved_with(inner(target), after.resolved), ..after },
    );
}

proof fn lemma_time_dimensions_error(members: Seq<Rc<MemberSymbol>>)
    ensures
        as_time_dimensions(members) is Err ==> is_window_error(as_time_dimensions(members)->Err_0),
    decreases members.len(),
{
    if members.len() > 0 {
        lemma_time_dimensions_error(members.drop_last());
        if as_time_dimensions(members.drop_last()) is Ok && as_time_dimensions(members) is Err {
            assert(as_time_dimensions(members)->Err_0 == not_a_time_dimension(
                inner(members.last()),
            ));
        }
    }
}

proof fn lemma_window(
    planner: PlannerView,
    member: Rc<MemberSymbol>,
    state: QueryPropertiesView,
    plan: PlanState,
)
    ensures
        plan_window(planner, member, state, plan).0 is Err ==> has_windows(*member)
            && is_window_error(plan_window(planner, member, state, plan).0->Err_0),
    decreases weight(*member), 3nat, 0nat,
{
    if let MemberSymbol::Measure(measure) = inner(member) {
        if is_cumulative(inner(measure)) {
            lemma_unrolled_weight(measure);
            assert(is_window_error(not_multi_stage(inner(member))));
            lemma_time_dimensions_error(planner.query.time_dimensions);
            let base = unrolled_member(inner(measure));
            let window = window_of(inner(measure));
            if let Ok(dimensions) = query_time_dimensions(planner.query) {
                if dimensions.len() == 0 {
                    planning_fails_only_for_windows(
                        planner,
                        base,
                        unstepped_state(window, state),
                        plan,
                    );
                } else {
                    let dimension = finest(dimensions);
                    let symbol = Rc::new(MemberSymbol::TimeDimension(dimension));
                    let descriptions = with_time_series(symbol, state, plan.descriptions).1;
                    if let Ok(base_state) = rolling_base_state(inner(dimension), window, state) {
                        planning_fails_only_for_windows(
                            planner,
                            base,
                            base_state,
                            PlanState { descriptions, ..plan },
                        );
                    }
                }
            }
        }
    }
}

proof fn lemma_inputs(
    planner: PlannerView,
    member: Rc<MemberSymbol>,
    state: QueryPropertiesView,
    plan: PlanState,
)
    ensures
        plan_inputs(planner, member, state, plan).error is Some ==> has_windows(*member)
            && is_window_error(plan_inputs(planner, member, state, plan).error->0),
    decreases weight(*member), 3nat, 0nat,
{
    match case_of(inner(member)) {
        Some(Case::CaseSwitch(definition)) => match definition.switch {
            CaseSwitchItem::Member(switch) => {
                lemma_switch_weight(inner(member), definition);
                lemma_switch_inputs(
                    planner,
                    inner(definition),
                    switch,
                    state,
                    switch_entries(inner(definition)).len(),
                    plan,
                );
                if use_has_windows(switch_uses(inner(definition))) {
                    lemma_use_windows(inner(member), definition);
                }
            },
            CaseSwitchItem::Sql(_) => {
                lemma_dependency_inputs(
                    planner,
                    member,
                    state,
                    dependencies(inner(member)).len(),
                    plan,
                );
            },
        },
        _ => {
            lemma_dependency_inputs(
                planner,
                member,
                state,
                dependencies(inner(member)).len(),
                plan,
            );
        },
    }
}

proof fn lemma_switch_inputs(
    planner: PlannerView,
    definition: CaseSwitchDefinition,
    switch: Rc<MemberSymbol>,
    state: QueryPropertiesView,
    n: nat,
    plan: PlanState,
)
    requires
        n <= switch_entries(definition).len(),
    ensures
        ({
            let inputs = plan_switch_inputs(planner, definition, switch, state, n, plan);
            inputs.error is Some ==> use_has_windows(switch_uses(definition)) && is_window_error(
                inputs.error->0,
            )
        }),
    decreases switch_weight(definition), 1nat, n,
{
    if n > 0 {
        lemma_switch_inputs(planner, definition, switch, state, (n - 1) as nat, plan);
        let before = plan_switch_inputs(
            planner,
            definition,
            switch,
            state,
            (n - 1) as nat,
            plan,
        );
        lemma_switch_entry_weight(definition, n - 1);
        let entry = switch_entries(definition)[n - 1];
        planning_fails_only_for_windows(
            planner,
            entry.dep,
            entry_state(switch, entry, state),
            before.plan,
        );
        if has_windows(inner(entry.dep)) {
            lemma_entry_windows(switch_uses(definition), n - 1);
        }
    }
}

proof fn lemma_dependency_inputs(
    planner: PlannerView,
    member: Rc<MemberSymbol>,
    state: QueryPropertiesView,
    n: nat,
    plan: PlanState,
)
    requires
        n <= dependencies(*member).len(),
    ensures
        ({
            let inputs = plan_dependencies(planner, member, state, n, plan);
            inputs.error is Some ==> has_windows(*member) && is_window_error(inputs.error->0)
        }),
    decreases weight(*member), 1nat, n,
{
    if n > 0 {
        lemma_dependency_inputs(planner, member, state, (n - 1) as nat, plan);
        let before = plan_dependencies(planner, member, state, (n - 1) as nat, plan);
        let dep = dependencies(inner(member))[n - 1];
        lemma_dependency_weight(inner(member), n - 1);
        planning_fails_only_for_windows(
            planner,
            Rc::new(resolved(inner(dep))),
            state,
            before.plan,
        );
        lemma_resolved_windows(inner(dep));
        if has_windows(inner(dep)) {
            lemma_dependency_windows(inner(member), dep);
        }
    }
}

proof fn lemma_members(planner: PlannerView, next: nat, n: nat)
    requires
        n <= multi_stage_members(planner.query).len(),
    ensures
        plan_members(planner, next, n).error is Some ==> is_window_error(
            plan_members(planner, next, n).error->0,
        ) && exists|i: int|
            0 <= i < n && has_windows(*#[trigger] multi_stage_members(planner.query)[i]),
    decreases n,
{
    if n > 0 {
        lemma_members(planner, next, (n - 1) as nat);
        let before = plan_members(planner, next, (n - 1) as nat);
        planning_fails_only_for_windows(
            planner,
            multi_stage_members(planner.query)[n - 1],
            root_state(planner),
            before.plan,
        );
    }
}

/// A query is planned unless one of its members leads to a cumulative measure; if planning fails
/// then, it fails with an error that rolling windows give. As for a single member, this rests on
/// all other steps being total in this library; so are listing the members that a query uses and
/// telling which of them take more than one stage.
pub proof fn queries_without_windows_are_planned(planner: PlannerView, next: nat)
    ensures
        plan_query(planner, next).error is Some ==> is_window_error(
            plan_query(planner, next).error->0,
        ) && exists|i: int|
            0 <= i < multi_stage_members(planner.query).len() && has_windows(
                *#[trigger] multi_stage_members(planner.query)[i],
            ),
{
    lemma_members(planner, next, multi_stage_members(planner.query).len());
}

} // verus!
