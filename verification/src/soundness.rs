//! What holds of every plan.

use crate::cte::MultiStageSubqueryRefView;
use crate::cte::cte_name;
use crate::cte::cte_names_are_distinct;
use crate::plan::Inputs;
use crate::plan::PlanState;
use crate::plan::PlannerView;
use crate::plan::agree;
use crate::plan::entry_state;
use crate::plan::find_alias;
use crate::plan::find_match;
use crate::plan::finest;
use crate::plan::get_range_stage;
use crate::plan::has_inputs;
use crate::plan::input_state;
use crate::plan::is_input;
use crate::plan::lemma_dependency_weight;
use crate::plan::lemma_planned_member_weight;
use crate::plan::lemma_switch_entry_weight;
use crate::plan::lemma_switch_weight;
use crate::plan::lemma_unrolled_weight;
use crate::plan::measure_children;
use crate::plan::multi_stage_members;
use crate::plan::plan_default_inputs;
use crate::plan::plan_dependencies;
use crate::plan::plan_inputs;
use crate::plan::plan_member;
use crate::plan::plan_members;
use crate::plan::plan_query;
use crate::plan::plan_switch_inputs;
use crate::plan::plan_window;
use crate::plan::planned_member;
use crate::plan::planned_state;
use crate::plan::query_time_dimensions;
use crate::plan::references_to;
use crate::plan::resolved_with;
use crate::plan::rolling_base_state;
use crate::plan::root_state;
use crate::plan::switch_weight;
use crate::plan::unrolled_member;
use crate::plan::unstepped_state;
use crate::plan::weight;
use crate::plan::window_base;
use crate::plan::window_of;
use crate::plan::with_time_series;
use crate::query_properties::QueryPropertiesView;
use crate::query_properties::is_unresolved;
use crate::stage::DescriptionView;
use crate::switch::switch_entries;
use crate::symbol::Case;
use crate::symbol::CaseSwitchDefinition;
use crate::symbol::CaseSwitchItem;
use crate::symbol::MeasureSymbol;
use crate::symbol::MemberSymbol;
use crate::symbol::case_of;
use crate::symbol::dependencies;
use crate::symbol::full_name;
use crate::symbol::has_multi_stage;
use crate::symbol::inner;
use crate::symbol::is_cumulative;
use crate::symbol::lemma_resolved_height;
use crate::symbol::multi_stage_of;
use crate::symbol::reference;
use crate::symbol::resolved;
use std::rc::Rc;
use vstd::prelude::*;

verus! {

/// Whether a name was given to a stage: one of two fixed ones, or one with a number that was given
/// out.
pub open spec fn is_given_name(alias: Seq<char>, next: nat) -> bool {
    ||| alias == "time_series"@
    ||| alias == "time_series_get_range"@
    ||| exists|k: nat| k < next && alias == #[trigger] cte_name(k)
}

/// Whether the names of all stages were given to them.
pub open spec fn have_given_names(plan: PlanState) -> bool {
    forall|i: int|
        0 <= i < plan.descriptions.len() ==> is_given_name(
            (#[trigger] plan.descriptions[i]).alias,
            plan.next,
        )
}

/// Whether no two stages have the same name.
pub open spec fn have_distinct_names(descriptions: Seq<DescriptionView>) -> bool {
    forall|i: int, j: int|
        0 <= i < j < descriptions.len() ==> (#[trigger] descriptions[i]).alias != (
        #[trigger] descriptions[j]).alias
}

/// Whether no stage has a name whose number is still to be given out.
pub open spec fn leave_names_free(plan: PlanState) -> bool {
    forall|i: int, k: nat|
        0 <= i < plan.descriptions.len() && plan.next <= k ==> (
        #[trigger] plan.descriptions[i]).alias != #[trigger] cte_name(k)
}

/// Whether no two stages have the same name, nor one that a later stage will be given.
pub open spec fn are_named_apart(plan: PlanState) -> bool {
    have_distinct_names(plan.descriptions) && leave_names_free(plan)
}

/// Whether at most one stage has this name.
pub open spec fn is_there_once(descriptions: Seq<DescriptionView>, alias: Seq<char>) -> bool {
    forall|i: int, j: int|
        0 <= i < j < descriptions.len() ==> (#[trigger] descriptions[i]).alias != alias || (
        #[trigger] descriptions[j]).alias != alias
}

/// Whether the dimension that a stage computes, if it computes one, was taken up.
pub open spec fn is_taken_up(stage: DescriptionView, names: Set<Seq<char>>) -> bool {
    stage.is_multi_stage_dimension() ==> names.contains(
        full_name(resolved(*stage.member.member_symbol)),
    )
}

/// Whether all dimensions that have stages were taken up.
pub open spec fn have_dimensions_taken_up(plan: PlanState) -> bool {
    forall|i: int|
        0 <= i < plan.descriptions.len() ==> is_taken_up(
            #[trigger] plan.descriptions[i],
            plan.resolved,
        )
}

/// Whether a stage stands among the first `n`.
pub open spec fn stands_before(
    descriptions: Seq<DescriptionView>,
    n: int,
    stage: DescriptionView,
) -> bool {
    exists|j: int| 0 <= j < n && #[trigger] descriptions[j] == stage
}

/// Whether each stage comes after those it reads.
pub open spec fn inputs_come_first(descriptions: Seq<DescriptionView>) -> bool {
    forall|i: int, k: int|
        0 <= i < descriptions.len() && 0 <= k < descriptions[i].input.len() ==> stands_before(
            descriptions,
            i,
            #[trigger] descriptions[i].input[k],
        )
}

/// What holds of the plan of a query: its stages have names of their own that were given to them,
/// come after those they read, and compute only dimensions that were taken up.
pub open spec fn is_sound(plan: PlanState) -> bool {
    &&& have_given_names(plan)
    &&& are_named_apart(plan)
    &&& inputs_come_first(plan.descriptions)
    &&& have_dimensions_taken_up(plan)
}

/// Whether a plan has all that another one has, in the same places.
pub open spec fn extends(before: PlanState, after: PlanState) -> bool {
    &&& before.descriptions.is_prefix_of(after.descriptions)
    &&& before.next <= after.next
    &&& before.resolved.subset_of(after.resolved)
}

/// Whether planning that begins with one plan may end in another one. The latter has all that the
/// former has, and each thing that plans are expected to keep, if the former has it.
pub open spec fn develops(before: PlanState, after: PlanState) -> bool {
    &&& extends(before, after)
    &&& inputs_come_first(before.descriptions) ==> inputs_come_first(after.descriptions)
    &&& are_named_apart(before) ==> are_named_apart(after)
    &&& have_given_names(before) ==> have_given_names(after)
    &&& have_dimensions_taken_up(before) ==> have_dimensions_taken_up(after)
    &&& is_there_once(before.descriptions, "time_series"@) ==> is_there_once(
        after.descriptions,
        "time_series"@,
    )
    &&& is_there_once(before.descriptions, "time_series_get_range"@) ==> is_there_once(
        after.descriptions,
        "time_series_get_range"@,
    )
}

/// Whether all stages are in the plan.
pub open spec fn all_planned(stages: Seq<DescriptionView>, plan: PlanState) -> bool {
    forall|k: int|
        0 <= k < stages.len() ==> plan.descriptions.contains(#[trigger] stages[k])
}

pub proof fn lemma_extends_trans(a: PlanState, b: PlanState, c: PlanState)
    requires
        extends(a, b),
        extends(b, c),
    ensures
        extends(a, c),
{
    assert(a.descriptions == b.descriptions.take(a.descriptions.len() as int));
    assert(a.descriptions == c.descriptions.take(a.descriptions.len() as int)) by {
        assert forall|i: int| 0 <= i < a.descriptions.len() implies a.descriptions[i]
            == c.descriptions[i] by {
            assert(a.descriptions[i] == b.descriptions[i]);
            assert(b.descriptions[i] == c.descriptions[i]);
        }
    }
}

proof fn lemma_develops_trans(a: PlanState, b: PlanState, c: PlanState)
    requires
        develops(a, b),
        develops(b, c),
    ensures
        develops(a, c),
{
    lemma_extends_trans(a, b, c);
}

proof fn lemma_all_planned_extends(stages: Seq<DescriptionView>, a: PlanState, b: PlanState)
    requires
        all_planned(stages, a),
        extends(a, b),
    ensures
        all_planned(stages, b),
{
    assert forall|k: int| 0 <= k < stages.len() implies b.descriptions.contains(
        #[trigger] stages[k],
    ) by {
        assert(a.descriptions.contains(stages[k]));
        let j = choose|j: int| 0 <= j < a.descriptions.len() && a.descriptions[j] == stages[k];
        assert(b.descriptions[j] == stages[k]);
    }
}

pub proof fn lemma_find_match(
    descriptions: Seq<DescriptionView>,
    member: Seq<char>,
    state: QueryPropertiesView,
)
    ensures
        match find_match(descriptions, member, state) {
            Some(stage) => descriptions.contains(stage) && stage.is_match(member, state),
            None => forall|i: int|
                0 <= i < descriptions.len() ==> !(#[trigger] descriptions[i]).is_match(
                    member,
                    state,
                ),
        },
    decreases descriptions.len(),
{
    if descriptions.len() > 0 {
        if descriptions.first().is_match(member, state) {
            assert(descriptions[0] == descriptions.first());
        } else {
            let rest = descriptions.drop_first();
            lemma_find_match(rest, member, state);
            match find_match(rest, member, state) {
                Some(stage) => {
                    let j = choose|j: int| 0 <= j < rest.len() && rest[j] == stage;
                    assert(descriptions[j + 1] == stage);
                },
                None => {
                    assert forall|i: int| 0 <= i < descriptions.len() implies !(
                    #[trigger] descriptions[i]).is_match(member, state) by {
                        if i > 0 {
                            assert(rest[i - 1] == descriptions[i]);
                        }
                    }
                },
            }
        }
    }
}

/// The first stage that computes the member for the state is the one that is found.
proof fn lemma_find_first(
    descriptions: Seq<DescriptionView>,
    member: Seq<char>,
    state: QueryPropertiesView,
    i: int,
)
    requires
        0 <= i < descriptions.len(),
        descriptions[i].is_match(member, state),
        forall|j: int|
            0 <= j < i ==> !(#[trigger] descriptions[j]).is_match(member, state),
    ensures
        find_match(descriptions, member, state) == Some(descriptions[i]),
    decreases descriptions.len(),
{
    if i > 0 {
        let rest = descriptions.drop_first();
        assert(!descriptions[0].is_match(member, state));
        assert(rest[i - 1] == descriptions[i]);
        assert forall|j: int| 0 <= j < i - 1 implies !(#[trigger] rest[j]).is_match(
            member,
            state,
        ) by {
            assert(rest[j] == descriptions[j + 1]);
        }
        lemma_find_first(rest, member, state, i - 1);
    }
}

/// What is found for a state depends on its key alone.
proof fn lemma_find_by_key(
    descriptions: Seq<DescriptionView>,
    member: Seq<char>,
    a: QueryPropertiesView,
    b: QueryPropertiesView,
)
    requires
        a.key() == b.key(),
    ensures
        find_match(descriptions, member, a) == find_match(descriptions, member, b),
    decreases descriptions.len(),
{
    if descriptions.len() > 0 {
        lemma_find_by_key(descriptions.drop_first(), member, a, b);
    }
}

pub proof fn lemma_find_alias(descriptions: Seq<DescriptionView>, alias: Seq<char>)
    ensures
        match find_alias(descriptions, alias) {
            Some(stage) => descriptions.contains(stage) && stage.alias == alias,
            None => forall|i: int|
                0 <= i < descriptions.len() ==> (#[trigger] descriptions[i]).alias != alias,
        },
    decreases descriptions.len(),
{
    if descriptions.len() > 0 {
        if descriptions.first().alias == alias {
            assert(descriptions[0] == descriptions.first());
        } else {
            let rest = descriptions.drop_first();
            lemma_find_alias(rest, alias);
            match find_alias(rest, alias) {
                Some(stage) => {
                    let j = choose|j: int| 0 <= j < rest.len() && rest[j] == stage;
                    assert(descriptions[j + 1] == stage);
                },
                None => {
                    assert forall|i: int| 0 <= i < descriptions.len() implies (
                    #[trigger] descriptions[i]).alias != alias by {
                        if i > 0 {
                            assert(rest[i - 1] == descriptions[i]);
                        }
                    }
                },
            }
        }
    }
}

/// The fixed names are none with a number, and not the same.
proof fn lemma_fixed_names(k: nat)
    ensures
        cte_name(k) != "time_series"@,
        cte_name(k) != "time_series_get_range"@,
        "time_series"@ != "time_series_get_range"@,
{
    reveal_strlit("cte_");
    reveal_strlit("time_series");
    reveal_strlit("time_series_get_range");
    assert(cte_name(k)[0] == 'c');
    assert("time_series"@[0] == 't');
    assert("time_series_get_range"@[0] == 't');
    assert("time_series"@.len() != "time_series_get_range"@.len());
}

/// Whether no stage has this name.
pub open spec fn is_unused(descriptions: Seq<DescriptionView>, alias: Seq<char>) -> bool {
    forall|i: int| 0 <= i < descriptions.len() ==> (#[trigger] descriptions[i]).alias != alias
}

proof fn lemma_push(before: PlanState, after: PlanState, stage: DescriptionView)
    requires
        before.next <= after.next,
        before.resolved.subset_of(after.resolved),
        after.descriptions == before.descriptions.push(stage),
        is_given_name(stage.alias, after.next),
        are_named_apart(before) ==> is_unused(before.descriptions, stage.alias),
        stage.alias == "time_series"@ || stage.alias == "time_series_get_range"@ ==> is_unused(
            before.descriptions,
            stage.alias,
        ),
        forall|k: nat| after.next <= k ==> stage.alias != #[trigger] cte_name(k),
        all_planned(stage.input, before),
        is_taken_up(stage, after.resolved),
    ensures
        develops(before, after),
        after.descriptions.contains(stage),
{
    let old_stages = before.descriptions;
    let new_stages = after.descriptions;
    assert(new_stages[new_stages.len() - 1] == stage);
    assert forall|i: int| 0 <= i < old_stages.len() implies #[trigger] new_stages[i]
        == old_stages[i] by {}
    if have_given_names(before) {
        assert forall|i: int| 0 <= i < new_stages.len() implies is_given_name(
            (#[trigger] new_stages[i]).alias,
            after.next,
        ) by {
            if i < old_stages.len() {
                assert(is_given_name(old_stages[i].alias, before.next));
            }
        }
    }
    if are_named_apart(before) {
        assert forall|i: int, j: int| 0 <= i < j < new_stages.len() implies (
        #[trigger] new_stages[i]).alias != (#[trigger] new_stages[j]).alias by {
            assert(old_stages[i].alias != stage.alias);
            if j < old_stages.len() {
                assert(old_stages[i].alias != old_stages[j].alias);
            }
        }
        assert forall|i: int, k: nat| 0 <= i < new_stages.len() && after.next <= k implies (
        #[trigger] new_stages[i]).alias != #[trigger] cte_name(k) by {
            if i < old_stages.len() {
                assert(old_stages[i].alias != cte_name(k));
            }
        }
    }
    lemma_push_once(old_stages, stage, "time_series"@);
    lemma_push_once(old_stages, stage, "time_series_get_range"@);
    if have_dimensions_taken_up(before) {
        assert forall|i: int| 0 <= i < new_stages.len() implies is_taken_up(
            #[trigger] new_stages[i],
            after.resolved,
        ) by {
            if i < old_stages.len() {
                assert(is_taken_up(old_stages[i], before.resolved));
            }
        }
    }
    if inputs_come_first(old_stages) {
        assert forall|i: int, k: int|
            0 <= i < new_stages.len() && 0 <= k < new_stages[i].input.len() implies stands_before(
            new_stages,
            i,
            #[trigger] new_stages[i].input[k],
        ) by {
            let input = new_stages[i].input[k];
            if i < old_stages.len() {
                assert(stands_before(old_stages, i, old_stages[i].input[k]));
                let j = choose|j: int| 0 <= j < i && #[trigger] old_stages[j] == input;
                assert(new_stages[j] == input);
            } else {
                assert(old_stages.contains(stage.input[k]));
                let j = choose|j: int| 0 <= j < old_stages.len() && old_stages[j] == input;
                assert(new_stages[j] == input);
            }
        }
    }
}

proof fn lemma_push_once(
    descriptions: Seq<DescriptionView>,
    stage: DescriptionView,
    alias: Seq<char>,
)
    requires
        stage.alias == alias ==> is_unused(descriptions, alias),
    ensures
        is_there_once(descriptions, alias) ==> is_there_once(descriptions.push(stage), alias),
{
    let all = descriptions.push(stage);
    if is_there_once(descriptions, alias) {
        assert forall|i: int, j: int| 0 <= i < j < all.len() implies (#[trigger] all[i]).alias
            != alias || (#[trigger] all[j]).alias != alias by {
            assert(all[i] == descriptions[i]);
            if j < descriptions.len() {
                assert(all[j] == descriptions[j]);
            }
        }
    }
}

/// A stage with the next number.
proof fn lemma_push_numbered(plan: PlanState, stage: DescriptionView)
    requires
        stage.alias == cte_name(plan.next),
        all_planned(stage.input, plan),
        is_taken_up(stage, plan.resolved),
    ensures
        develops(plan, plan.named().push(stage)),
        plan.named().push(stage).descriptions.contains(stage),
{
    lemma_fixed_names(plan.next);
    assert(is_given_name(stage.alias, plan.next + 1));
    assert forall|k: nat| plan.next + 1 <= k implies stage.alias != #[trigger] cte_name(k) by {
        if stage.alias == cte_name(k) {
            cte_names_are_distinct(k, plan.next);
        }
    }
    lemma_push(plan, plan.named().push(stage), stage);
}

/// A stage with a fixed name that is not there yet.
proof fn lemma_push_fixed(before: PlanState, after: PlanState, stage: DescriptionView)
    requires
        after == before.push(stage),
        stage.alias == "time_series"@ || stage.alias == "time_series_get_range"@,
        is_unused(before.descriptions, stage.alias),
        stage.input.len() == 0,
        !stage.is_multi_stage_dimension(),
    ensures
        develops(before, after),
        after.descriptions.contains(stage),
{
    assert forall|k: nat| after.next <= k implies stage.alias != #[trigger] cte_name(k) by {
        lemma_fixed_names(k);
    }
    lemma_push(before, after, stage);
}

proof fn lemma_time_series(
    dimension: Rc<MemberSymbol>,
    state: QueryPropertiesView,
    plan: PlanState,
)
    ensures
        ({
            let (series, descriptions) = with_time_series(dimension, state, plan.descriptions);
            &&& develops(plan, PlanState { descriptions, ..plan })
            &&& series is Ok ==> descriptions.contains(series->Ok_0)
        }),
{
    let (series, descriptions) = with_time_series(dimension, state, plan.descriptions);
    let after = PlanState { descriptions, ..plan };
    lemma_fixed_names(0);
    lemma_find_alias(plan.descriptions, "time_series"@);
    lemma_find_alias(plan.descriptions, "time_series_get_range"@);
    if find_alias(plan.descriptions, "time_series"@) is None && inner(dimension) is TimeDimension {
        let stage = series->Ok_0;
        if inner(inner(dimension)->TimeDimension_0).date_range is Some || find_alias(
            plan.descriptions,
            "time_series_get_range"@,
        ) is Some {
            lemma_push_fixed(plan, after, stage);
        } else {
            let range_stage = get_range_stage(dimension, state);
            let ranged = plan.push(range_stage);
            lemma_push_fixed(plan, ranged, range_stage);
            assert(is_unused(ranged.descriptions, stage.alias));
            lemma_push_fixed(ranged, after, stage);
            lemma_develops_trans(plan, ranged, after);
        }
    }
}

/// Planning a member takes nothing away from a plan, whatever the plan, and ends in a stage that is
/// part of it. Where inputs come first, they still do. Where names are apart, and none of them is
/// still to be given out, this stays so. Where names were given to their stages, or dimensions were
/// taken up, those of new stages are too. A series of points that is there once is not added again,
/// nor is its range. So a sound plan stays sound.
pub proof fn planning_keeps_plans_sound(
    planner: PlannerView,
    member: Rc<MemberSymbol>,
    state: QueryPropertiesView,
    plan: PlanState,
)
    ensures
        ({
            let (result, after) = plan_member(planner, member, state, plan);
            &&& extends(plan, after)
            &&& result is Ok ==> after.descriptions.contains(result->Ok_0)
            &&& inputs_come_first(plan.descriptions) ==> inputs_come_first(after.descriptions)
            &&& are_named_apart(plan) ==> are_named_apart(after)
            &&& have_given_names(plan) ==> have_given_names(after)
            &&& have_dimensions_taken_up(plan) ==> have_dimensions_taken_up(after)
            &&& is_there_once(plan.descriptions, "time_series"@) ==> is_there_once(
                after.descriptions,
                "time_series"@,
            )
            &&& is_there_once(plan.descriptions, "time_series_get_range"@) ==> is_there_once(
                after.descriptions,
                "time_series_get_range"@,
            )
            &&& is_sound(plan) ==> is_sound(after)
        }),
{
    lemma_member(planner, member, state, plan);
}

proof fn lemma_member(
    planner: PlannerView,
    member: Rc<MemberSymbol>,
    state: QueryPropertiesView,
    plan: PlanState,
)
    ensures
        ({
            let (result, after) = plan_member(planner, member, state, plan);
            &&& develops(plan, after)
            &&& result is Ok ==> after.descriptions.contains(result->Ok_0)
        }),
    decreases weight(*member), 4nat, 0nat,
{
    lemma_planned_member_weight(inner(member), state);
    let target = planned_member(inner(member), state);
    let target_state = planned_state(inner(member), state, plan.resolved);
    lemma_find_match(plan.descriptions, full_name(inner(target)), target_state);
    if find_match(
        plan.descriptions,
        full_name(inner(target)),
        target_state,
    ) is None {
        lemma_window(planner, target, target_state, plan);
        let (window, after) = plan_window(planner, target, target_state, plan);
        if window is Ok && window->Ok_0 is None {
            if !has_multi_stage(inner(target), false) {
                let stage = plan_member(planner, member, state, plan).0->Ok_0;
                lemma_push_numbered(after, stage);
                lemma_develops_trans(plan, after, after.named().push(stage));
            } else {
                let begun = PlanState {
                    resolved: resolved_with(inner(target), after.resolved),
                    ..after
                };
                assert(develops(after, begun));
                lemma_inputs(
                    planner,
                    target,
                    input_state(planner, inner(target), target_state),
                    begun,
                );
                let inputs = plan_inputs(
                    planner,
                    target,
                    input_state(planner, inner(target), target_state),
                    begun,
                );
                lemma_develops_trans(plan, after, begun);
                lemma_develops_trans(plan, begun, inputs.plan);
                if inputs.error is None {
                    let stage = plan_member(planner, member, state, plan).0->Ok_0;
                    lemma_push_numbered(inputs.plan, stage);
                    lemma_develops_trans(plan, inputs.plan, inputs.plan.named().push(stage));
                }
            }
        }
    }
}

proof fn lemma_window(
    planner: PlannerView,
    member: Rc<MemberSymbol>,
    state: QueryPropertiesView,
    plan: PlanState,
)
    ensures
        ({
            let (result, after) = plan_window(planner, member, state, plan);
            &&& develops(plan, after)
            &&& result is Ok && result->Ok_0 is Some ==> after.descriptions.contains(
                result->Ok_0->0,
            )
        }),
    decreases weight(*member), 3nat, 0nat,
{
    if let MemberSymbol::Measure(measure) = inner(member) {
        if is_cumulative(inner(measure)) && (inner(measure).multi_stage is Some
            || measure_children(inner(member)).len() == 0) {
            lemma_unrolled_weight(measure);
            let (result, after) = plan_window(planner, member, state, plan);
            let base = unrolled_member(inner(measure));
            let window = window_of(inner(measure));
            match query_time_dimensions(planner.query) {
                Ok(dimensions) => if dimensions.len() == 0 {
                    if inner(measure).multi_stage is None {
                        lemma_push_numbered(plan, result->Ok_0->0);
                    } else {
                        lemma_member(
                            planner,
                            base,
                            unstepped_state(window, state),
                            plan,
                        );
                    }
                } else if agree(dimensions) {
                    lemma_stepped_window(planner, member, measure, state, plan);
                },
                Err(_) => {},
            }
        }
    }
}

/// As [`lemma_window`], for a window that steps through time.
#[verifier::rlimit(60)]
proof fn lemma_stepped_window(
    planner: PlannerView,
    member: Rc<MemberSymbol>,
    measure: Rc<MeasureSymbol>,
    state: QueryPropertiesView,
    plan: PlanState,
)
    requires
        *member == MemberSymbol::Measure(measure),
        is_cumulative(*measure),
        measure.multi_stage is Some || measure_children(*member).len() == 0,
        query_time_dimensions(planner.query) is Ok,
        query_time_dimensions(planner.query)->Ok_0.len() > 0,
        agree(query_time_dimensions(planner.query)->Ok_0),
    ensures
        ({
            let (result, after) = plan_window(planner, member, state, plan);
            &&& develops(plan, after)
            &&& result is Ok && result->Ok_0 is Some ==> after.descriptions.contains(
                result->Ok_0->0,
            )
        }),
    decreases weight(*member), 2nat, 0nat,
{
    lemma_unrolled_weight(measure);
    let (result, after) = plan_window(planner, member, state, plan);
    let base = unrolled_member(inner(measure));
    let window = window_of(inner(measure));
    let dimension = finest(query_time_dimensions(planner.query)->Ok_0);
    let symbol = Rc::new(MemberSymbol::TimeDimension(dimension));
    match rolling_base_state(inner(dimension), window, state) {
        Ok(base_state) => {
            lemma_time_series(symbol, state, plan);
            let (series, descriptions) = with_time_series(symbol, state, plan.descriptions);
            let with_series = PlanState { descriptions, ..plan };
            let single = seq![series->Ok_0];
            assert(all_planned(single, with_series));
            if inner(measure).multi_stage is None {
                let input = window_base(
                    planner,
                    base,
                    base_state,
                    inner(measure).rolling_window is Some && !inner(measure).additive,
                    cte_name(with_series.next),
                );
                let with_base = with_series.named().push(input);
                lemma_push_numbered(with_series, input);
                lemma_window_inputs(single, with_series, with_base, input);
                lemma_develops_trans(plan, with_series, with_base);
                lemma_push_numbered(with_base, result->Ok_0->0);
                lemma_develops_trans(plan, with_base, after);
            } else {
                lemma_member(planner, base, base_state, with_series);
                let (input, with_base) = plan_member(planner, base, base_state, with_series);
                lemma_develops_trans(plan, with_series, with_base);
                if input is Ok {
                    lemma_window_inputs(single, with_series, with_base, input->Ok_0);
                    lemma_push_numbered(with_base, result->Ok_0->0);
                    lemma_develops_trans(plan, with_base, after);
                }
            }
        },
        Err(_) => {},
    }
}

proof fn lemma_window_inputs(
    series: Seq<DescriptionView>,
    before: PlanState,
    after: PlanState,
    input: DescriptionView,
)
    requires
        series.len() == 1,
        all_planned(series, before),
        extends(before, after),
        after.descriptions.contains(input),
    ensures
        all_planned(seq![series[0], input], after),
{
    lemma_all_planned_extends(series, before, after);
    assert(after.descriptions.contains(series[0]));
}

pub proof fn lemma_inputs(
    planner: PlannerView,
    member: Rc<MemberSymbol>,
    state: QueryPropertiesView,
    plan: PlanState,
)
    ensures
        are_found(plan, plan_inputs(planner, member, state, plan)),
    decreases weight(*member), 3nat, 0nat,
{
    match case_of(inner(member)) {
        Some(Case::CaseSwitch(definition)) => match definition.switch {
            CaseSwitchItem::Member(switch) => {
                lemma_switch_weight(inner(member), definition);
                lemma_switch_inputs(
                    planner,
                    inner(definition),
                    switch,
                    state,
                    switch_entries(inner(definition)).len(),
                    plan,
                );
            },
            CaseSwitchItem::Sql(_) => {
                lemma_default_inputs(planner, member, state, plan);
            },
        },
        _ => {
            lemma_default_inputs(planner, member, state, plan);
        },
    }
}

/// Whether planning may end with these inputs, and they are part of the plan.
pub open spec fn are_found(before: PlanState, inputs: Inputs) -> bool {
    &&& develops(before, inputs.plan)
    &&& all_planned(inputs.found, inputs.plan)
}

proof fn lemma_found_push(
    plan: PlanState,
    before: Inputs,
    after: PlanState,
    stage: DescriptionView,
)
    requires
        are_found(plan, before),
        develops(before.plan, after),
        after.descriptions.contains(stage),
    ensures
        develops(plan, after),
        all_planned(before.found, after),
        all_planned(before.found.push(stage), after),
{
    lemma_develops_trans(plan, before.plan, after);
    lemma_all_planned_extends(before.found, before.plan, after);
    assert forall|k: int| 0 <= k < before.found.push(stage).len() implies after.descriptions.contains(
        #[trigger] before.found.push(stage)[k],
    ) by {
        if k < before.found.len() {
            assert(before.found.push(stage)[k] == before.found[k]);
        }
    }
}

proof fn lemma_switch_inputs(
    planner: PlannerView,
    definition: CaseSwitchDefinition,
    switch: Rc<MemberSymbol>,
    state: QueryPropertiesView,
    n: nat,
    plan: PlanState,
)
    requires
        n <= switch_entries(definition).len(),
    ensures
        are_found(plan, plan_switch_inputs(planner, definition, switch, state, n, plan)),
    decreases switch_weight(definition), 1nat, n,
{
    if n > 0 {
        lemma_switch_inputs(planner, definition, switch, state, (n - 1) as nat, plan);
        let before = plan_switch_inputs(
            planner,
            definition,
            switch,
            state,
            (n - 1) as nat,
            plan,
        );
        if before.error is None {
            lemma_switch_entry_weight(definition, n - 1);
            let entry = switch_entries(definition)[n - 1];
            let restricted = entry_state(switch, entry, state);
            lemma_member(planner, entry.dep, restricted, before.plan);
            let (result, after) = plan_member(planner, entry.dep, restricted, before.plan);
            lemma_develops_trans(plan, before.plan, after);
            lemma_all_planned_extends(before.found, before.plan, after);
            if result is Ok {
                lemma_found_push(plan, before, after, result->Ok_0);
            }
        }
    }
}

proof fn lemma_dependency_inputs(
    planner: PlannerView,
    member: Rc<MemberSymbol>,
    state: QueryPropertiesView,
    n: nat,
    plan: PlanState,
)
    requires
        n <= dependencies(*member).len(),
    ensures
        are_found(plan, plan_dependencies(planner, member, state, n, plan)),
    decreases weight(*member), 1nat, n,
{
    if n > 0 {
        lemma_dependency_inputs(planner, member, state, (n - 1) as nat, plan);
        let before = plan_dependencies(planner, member, state, (n - 1) as nat, plan);
        let dep = Rc::new(
            resolved(inner(dependencies(inner(member))[n - 1])),
        );
        if before.error is None && is_input(inner(dep)) {
            lemma_dependency_weight(inner(member), n - 1);
            lemma_member(planner, dep, state, before.plan);
            let (result, after) = plan_member(planner, dep, state, before.plan);
            lemma_develops_trans(plan, before.plan, after);
            lemma_all_planned_extends(before.found, before.plan, after);
            if result is Ok {
                lemma_found_push(plan, before, after, result->Ok_0);
            }
        }
    }
}

proof fn lemma_default_inputs(
    planner: PlannerView,
    member: Rc<MemberSymbol>,
    state: QueryPropertiesView,
    plan: PlanState,
)
    ensures
        are_found(plan, plan_default_inputs(planner, member, state, plan)),
    decreases weight(*member), 2nat, 0nat,
{
    let n = dependencies(inner(member)).len();
    lemma_dependency_inputs(planner, member, state, n, plan);
    let inputs = plan_dependencies(planner, member, state, n, plan);
    if inputs.error is None && !has_inputs(inner(member)) {
        let found = plan_default_inputs(planner, member, state, plan).found;
        let stage = found.last();
        lemma_push_numbered(inputs.plan, stage);
        lemma_found_push(plan, inputs, inputs.plan.named().push(stage), stage);
    }
}

/// Whether each reference names a stage of the plan, with its columns.
pub open spec fn references_name_stages(
    references: Seq<MultiStageSubqueryRefView>,
    plan: PlanState,
) -> bool {
    forall|k: int|
        0 <= k < references.len() ==> exists|i: int|
            0 <= i < plan.descriptions.len() && references_to(#[trigger] plan.descriptions[i])
                == seq![#[trigger] references[k]]
}

proof fn lemma_members_sound(planner: PlannerView, next: nat, n: nat)
    ensures
        ({
            let planned = plan_members(planner, next, n);
            &&& is_sound(planned.plan)
            &&& is_there_once(planned.plan.descriptions, "time_series"@)
            &&& is_there_once(planned.plan.descriptions, "time_series_get_range"@)
            &&& next <= planned.plan.next
            &&& references_name_stages(planned.references, planned.plan)
        }),
    decreases n,
{
    let planned = plan_members(planner, next, n);
    if n > 0 {
        let before = plan_members(planner, next, (n - 1) as nat);
        lemma_members_sound(planner, next, (n - 1) as nat);
        if before.error is None {
            let member = multi_stage_members(planner.query)[n - 1];
            planning_keeps_plans_sound(planner, member, root_state(planner), before.plan);
            let (result, after) = plan_member(planner, member, root_state(planner), before.plan);
            assert forall|k: int| 0 <= k < planned.references.len() implies exists|i: int|
                0 <= i < after.descriptions.len() && references_to(
                    #[trigger] after.descriptions[i],
                ) == seq![#[trigger] planned.references[k]] by {
                if k < before.references.len() {
                    assert(planned.references[k] == before.references[k]);
                    let i = choose|i: int|
                        0 <= i < before.plan.descriptions.len() && references_to(
                            #[trigger] before.plan.descriptions[i],
                        ) == seq![before.references[k]];
                    assert(after.descriptions[i] == before.plan.descriptions[i]);
                } else {
                    let i = choose|i: int|
                        0 <= i < after.descriptions.len() && after.descriptions[i] == result->Ok_0;
                    assert(references_to(after.descriptions[i]) == seq![planned.references[k]]);
                }
            }
        }
    }
}

/// The plan of a query is sound: its stages have names of their own, come after those they read,
/// and compute only dimensions that were taken up. Each reference of the query names one of them.
pub proof fn plans_of_queries_are_sound(planner: PlannerView, next: nat)
    ensures
        is_sound(plan_query(planner, next).plan),
        next <= plan_query(planner, next).plan.next,
        references_name_stages(
            plan_query(planner, next).references,
            plan_query(planner, next).plan,
        ),
{
    lemma_members_sound(planner, next, multi_stage_members(planner.query).len());
}

/// The plan of a query has one series of points at most, and one range at most.
pub proof fn time_series_is_planned_once(planner: PlannerView, next: nat)
    ensures
        is_there_once(plan_query(planner, next).plan.descriptions, "time_series"@),
        is_there_once(plan_query(planner, next).plan.descriptions, "time_series_get_range"@),
{
    lemma_members_sound(planner, next, multi_stage_members(planner.query).len());
}

/// Whether a member is a cumulative measure in a query without time dimensions. Its stage is that
/// of the measure without the window, for a state of its own.
pub open spec fn is_unstepped_window(planner: PlannerView, member: MemberSymbol) -> bool {
    &&& member matches MemberSymbol::Measure(measure)
    &&& is_cumulative(*measure)
    &&& query_time_dimensions(planner.query) is Ok
    &&& query_time_dimensions(planner.query)->Ok_0.len() == 0
}

/// The state of the stage that is planned for a member and a state.
pub open spec fn stage_state(
    planner: PlannerView,
    member: MemberSymbol,
    state: QueryPropertiesView,
) -> QueryPropertiesView {
    if is_unstepped_window(planner, member) {
        unstepped_state(window_of(*member->Measure_0), state)
    } else {
        state
    }
}

/// A member that was planned for a state is planned: doing it again changes nothing, and gives a
/// stage of the member for the state, or for the one that its stage was planned for. It is the same
/// stage where the first time found it or planned no other, where the member takes no more than one
/// stage, and in general where no other stage that was planned on the way computes a member of that
/// name for one of these states.
///
/// It is otherwise with a cumulative measure that is not multi-stage, in a query without time
/// dimensions, if the window changes the state by opening date ranges: no stage is looked for under
/// the changed state. And it is otherwise with a dimension that is planned for another state once
/// more dimensions have been taken up.
pub proof fn planning_again_changes_nothing(
    planner: PlannerView,
    member: Rc<MemberSymbol>,
    state: QueryPropertiesView,
    plan: PlanState,
)
    requires
        plan_member(planner, member, state, plan).0 is Ok,
        ({
            let target = planned_member(*member, state);
            let target_state = planned_state(*member, state, plan.resolved);
            &&& is_unstepped_window(planner, *target) && multi_stage_of(*target) is None
                && find_match(plan.descriptions, full_name(*target), target_state) is None
                ==> stage_state(planner, *target, target_state).key() == target_state.key()
            &&& planned_state(
                *member,
                state,
                plan_member(planner, member, state, plan).1.resolved,
            ).key() == target_state.key()
        }),
    ensures
        ({
            let (result, after) = plan_member(planner, member, state, plan);
            let (again, last) = plan_member(planner, member, state, after);
            let target = planned_member(*member, state);
            let name = full_name(*target);
            let target_state = planned_state(*member, state, plan.resolved);
            let own_state = stage_state(planner, *target, target_state);
            &&& last == after
            &&& again is Ok
            &&& again->Ok_0.is_match(name, target_state) || again->Ok_0.is_match(name, own_state)
            &&& find_match(plan.descriptions, name, target_state) is Some ==> again == result
            &&& after.descriptions.len() <= plan.descriptions.len() + 1 ==> again == result
            &&& !has_multi_stage(*target, false) ==> again == result
            &&& find_match(after.descriptions.drop_last(), name, target_state) is None
                && find_match(after.descriptions.drop_last(), name, own_state) is None ==> again
                == result
        }),
{
    let target = planned_member(inner(member), state);
    let target_state = planned_state(inner(member), state, plan.resolved);
    let name = full_name(inner(target));
    if is_unstepped_window(planner, inner(target)) && find_match(
        plan.descriptions,
        name,
        target_state,
    ) is None {
        if multi_stage_of(inner(target)) is None {
            lemma_plain_window_again(planner, member, state, plan);
        } else {
            lemma_multi_stage_window_again(planner, member, state, plan);
        }
    } else {
        lemma_again(planner, member, state, plan);
    }
}

/// Planning again, for all but windows that nothing steps through and that were not planned before.
proof fn lemma_again(
    planner: PlannerView,
    member: Rc<MemberSymbol>,
    state: QueryPropertiesView,
    plan: PlanState,
)
    requires
        plan_member(planner, member, state, plan).0 is Ok,
        !is_unstepped_window(planner, *planned_member(*member, state)) || find_match(
            plan.descriptions,
            full_name(*planned_member(*member, state)),
            planned_state(*member, state, plan.resolved),
        ) is Some,
        planned_state(
            *member,
            state,
            plan_member(planner, member, state, plan).1.resolved,
        ).key() == planned_state(*member, state, plan.resolved).key(),
    ensures
        ({
            let (result, after) = plan_member(planner, member, state, plan);
            let (again, last) = plan_member(planner, member, state, after);
            let name = full_name(*planned_member(*member, state));
            let target_state = planned_state(*member, state, plan.resolved);
            &&& last == after
            &&& again is Ok
            &&& again->Ok_0.is_match(name, target_state)
            &&& find_match(plan.descriptions, name, target_state) is Some ==> again == result
            &&& after.descriptions.len() <= plan.descriptions.len() + 1 ==> again == result
            &&& !has_multi_stage(*planned_member(*member, state), false) ==> again == result
            &&& find_match(after.descriptions.drop_last(), name, target_state) is None ==> again
                == result
            &&& after.descriptions.len() > plan.descriptions.len() ==> after.descriptions.last()
                == result->Ok_0
        }),
{
    let (result, after) = plan_member(planner, member, state, plan);
    let target = planned_member(inner(member), state);
    let name = full_name(inner(target));
    let before_state = planned_state(inner(member), state, plan.resolved);
    let after_state = planned_state(inner(member), state, after.resolved);
    lemma_member(planner, member, state, plan);
    lemma_find_match(plan.descriptions, name, before_state);
    lemma_find_match(after.descriptions, name, after_state);
    lemma_find_by_key(after.descriptions, name, before_state, after_state);
    let (window, _) = plan_window(planner, target, before_state, plan);
    if find_match(plan.descriptions, name, before_state) is Some {
        let i = choose|i: int|
            0 <= i < after.descriptions.len() && after.descriptions[i] == result->Ok_0;
        assert(after.descriptions[i].is_match(name, after_state));
    } else {
        let i = after.descriptions.len() - 1;
        let others = after.descriptions.drop_last();
        if window is Ok && window->Ok_0 is Some {
            assert(after.descriptions[i] == window->Ok_0->0);
        }
        assert(after.descriptions[i] == result->Ok_0);
        assert(after.descriptions[i].is_match(name, after_state));
        if !has_multi_stage(inner(target), false) {
            assert(others == plan.descriptions);
        }
        if after.descriptions.len() <= plan.descriptions.len() + 1 {
            if after.descriptions.len() == plan.descriptions.len() {
                assert(after.descriptions == plan.descriptions);
                assert(!plan.descriptions[i].is_match(name, before_state));
            }
            assert(others == plan.descriptions);
        }
        lemma_find_match(others, name, before_state);
        if find_match(others, name, before_state) is None {
            lemma_find_last(after.descriptions, name, before_state);
        }
    }
}

/// A stage that is the only one to compute the member for the state is found at the end.
proof fn lemma_find_last(
    descriptions: Seq<DescriptionView>,
    member: Seq<char>,
    state: QueryPropertiesView,
)
    requires
        descriptions.len() > 0,
        descriptions.last().is_match(member, state),
        find_match(descriptions.drop_last(), member, state) is None,
    ensures
        find_match(descriptions, member, state) == Some(descriptions.last()),
{
    let i = descriptions.len() - 1;
    let others = descriptions.drop_last();
    lemma_find_match(others, member, state);
    assert forall|j: int| 0 <= j < i implies !(#[trigger] descriptions[j]).is_match(
        member,
        state,
    ) by {
        assert(others[j] == descriptions[j]);
    }
    lemma_find_first(descriptions, member, state, i);
}

proof fn lemma_plain_window_again(
    planner: PlannerView,
    member: Rc<MemberSymbol>,
    state: QueryPropertiesView,
    plan: PlanState,
)
    requires
        plan_member(planner, member, state, plan).0 is Ok,
        is_unstepped_window(planner, *planned_member(*member, state)),
        multi_stage_of(*planned_member(*member, state)) is None,
        find_match(plan.descriptions, full_name(*planned_member(*member, state)), state) is None,
        stage_state(planner, *planned_member(*member, state), state).key() == state.key(),
    ensures
        ({
            let (result, after) = plan_member(planner, member, state, plan);
            &&& plan_member(planner, member, state, after) == (result, after)
            &&& result->Ok_0.is_match(full_name(*planned_member(*member, state)), state)
        }),
{
    let (result, after) = plan_member(planner, member, state, plan);
    let target = planned_member(inner(member), state);
    let name = full_name(inner(target));
    assert(after.descriptions.drop_last() == plan.descriptions);
    assert(after.descriptions.last() == result->Ok_0);
    assert(result->Ok_0.state == stage_state(planner, inner(target), state));
    lemma_find_last(after.descriptions, name, state);
}

proof fn lemma_multi_stage_window_again(
    planner: PlannerView,
    member: Rc<MemberSymbol>,
    state: QueryPropertiesView,
    plan: PlanState,
)
    requires
        plan_member(planner, member, state, plan).0 is Ok,
        is_unstepped_window(planner, *planned_member(*member, state)),
        multi_stage_of(*planned_member(*member, state)) is Some,
        find_match(plan.descriptions, full_name(*planned_member(*member, state)), state) is None,
    ensures
        ({
            let (result, after) = plan_member(planner, member, state, plan);
            let (again, last) = plan_member(planner, member, state, after);
            let name = full_name(*planned_member(*member, state));
            let own_state = stage_state(planner, *planned_member(*member, state), state);
            &&& last == after
            &&& again is Ok
            &&& again->Ok_0.is_match(name, state) || again->Ok_0.is_match(name, own_state)
            &&& after.descriptions.len() <= plan.descriptions.len() + 1 ==> again == result
            &&& find_match(after.descriptions.drop_last(), name, state) is None && find_match(
                after.descriptions.drop_last(),
                name,
                own_state,
            ) is None ==> again == result
        }),
{
    let (result, after) = plan_member(planner, member, state, plan);
    let target = planned_member(inner(member), state);
    let name = full_name(inner(target));
    let measure = inner(target)->Measure_0;
    let base = unrolled_member(inner(measure));
    let opened = unstepped_state(window_of(inner(measure)), state);
    lemma_unrolled_target(inner(member), state, opened);
    assert(plan_member(planner, base, opened, plan) == (result, after));
    lemma_member(planner, base, opened, plan);
    lemma_again(planner, base, opened, plan);
    lemma_find_match(after.descriptions, name, state);
    let found = find_match(after.descriptions, name, state);
    if found is Some {
        let others = after.descriptions.drop_last();
        if after.descriptions.len() == plan.descriptions.len() {
            assert(after.descriptions == plan.descriptions);
        } else if after.descriptions.len() == plan.descriptions.len() + 1 {
            assert(others == plan.descriptions);
        }
        if after.descriptions.len() > plan.descriptions.len() {
            if find_match(others, name, state) is None {
                lemma_found_at_end(after.descriptions, name, state);
            }
        }
    }
}

/// What is found where none of the stages before the last is, is the last.
proof fn lemma_found_at_end(
    descriptions: Seq<DescriptionView>,
    member: Seq<char>,
    state: QueryPropertiesView,
)
    requires
        descriptions.len() > 0,
        find_match(descriptions, member, state) is Some,
        find_match(descriptions.drop_last(), member, state) is None,
    ensures
        find_match(descriptions, member, state) == Some(descriptions.last()),
{
    let others = descriptions.drop_last();
    lemma_find_match(descriptions, member, state);
    lemma_find_match(others, member, state);
    let found = find_match(descriptions, member, state)->0;
    let j = choose|j: int| 0 <= j < descriptions.len() && descriptions[j] == found;
    if j < others.len() {
        assert(others[j] == found);
    }
}

/// A measure without its window is planned under the name of the measure, and has no window.
pub proof fn lemma_unrolled_target(
    member: MemberSymbol,
    state: QueryPropertiesView,
    other: QueryPropertiesView,
)
    requires
        *planned_member(member, state) is Measure,
    ensures
        ({
            let target = planned_member(member, state);
            let base = planned_member(*unrolled_member(*target->Measure_0), other);
            &&& *base is Measure
            &&& !is_cumulative(*base->Measure_0)
            &&& full_name(*base) == full_name(*target)
        }),
{
    let target = planned_member(member, state);
    let base = unrolled_member(inner(inner(target)->Measure_0));
    lemma_resolved_height(member);
    assert(reference(inner(target)) is None);
    assert(reference(inner(base)) is None);
    assert(resolved(inner(base)) == inner(base));
}

/// A member that takes more than one stage and is no measure is taken up when it is planned, unless
/// a stage for it is there.
pub proof fn planned_dimensions_are_taken_up(
    planner: PlannerView,
    member: Rc<MemberSymbol>,
    state: QueryPropertiesView,
    plan: PlanState,
)
    requires
        !(*planned_member(*member, state) is Measure),
        has_multi_stage(*planned_member(*member, state), false),
        find_match(
            plan.descriptions,
            full_name(*planned_member(*member, state)),
            planned_state(*member, state, plan.resolved),
        ) is None,
    ensures
        plan_member(planner, member, state, plan).1.resolved.contains(
            full_name(resolved(*planned_member(*member, state))),
        ),
{
    let target = planned_member(inner(member), state);
    let target_state = planned_state(inner(member), state, plan.resolved);
    let begun = PlanState { resolved: resolved_with(inner(target), plan.resolved), ..plan };
    lemma_inputs(planner, target, input_state(planner, inner(target), target_state), begun);
    assert(begun.resolved.contains(full_name(resolved(inner(target)))));
}

/// A stage that computes a member for a state is used wherever the member is needed for that
/// state: nothing is planned then. If there are several, the first is used.
pub proof fn stages_are_used_again(
    planner: PlannerView,
    member: Rc<MemberSymbol>,
    state: QueryPropertiesView,
    plan: PlanState,
    i: int,
)
    requires
        0 <= i < plan.descriptions.len(),
        plan.descriptions[i].is_match(
            full_name(*planned_member(*member, state)),
            planned_state(*member, state, plan.resolved),
        ),
    ensures
        plan_member(planner, member, state, plan).0 is Ok,
        plan_member(planner, member, state, plan).0->Ok_0.is_match(
            full_name(*planned_member(*member, state)),
            planned_state(*member, state, plan.resolved),
        ),
        plan_member(planner, member, state, plan).1 == plan,
        (forall|j: int|
            0 <= j < i ==> !(#[trigger] plan.descriptions[j]).is_match(
                full_name(*planned_member(*member, state)),
                planned_state(*member, state, plan.resolved),
            )) ==> plan_member(planner, member, state, plan).0->Ok_0 == plan.descriptions[i],
{
    if forall|j: int|
        0 <= j < i ==> !(#[trigger] plan.descriptions[j]).is_match(
            full_name(inner(planned_member(inner(member), state))),
            planned_state(inner(member), state, plan.resolved),
        ) {
        lemma_find_first(
            plan.descriptions,
            full_name(inner(planned_member(inner(member), state))),
            planned_state(inner(member), state, plan.resolved),
            i,
        );
    }
    lemma_find_match(
        plan.descriptions,
        full_name(inner(planned_member(inner(member), state))),
        planned_state(inner(member), state, plan.resolved),
    );
}

/// A dimension is planned for a state without dimensions that take more than one stage and were not
/// taken up.
pub proof fn dimensions_wait_for_no_other(
    member: MemberSymbol,
    state: QueryPropertiesView,
    names: Set<Seq<char>>,
    i: int,
)
    requires
        *planned_member(member, state) is Dimension,
        0 <= i < planned_state(member, state, names).dimensions.len(),
    ensures
        !is_unresolved(names, planned_state(member, state, names).dimensions[i]),
{
    state.dimensions.lemma_filter_pred(|d: Rc<MemberSymbol>| !is_unresolved(names, d), i);
}

} // verus!
