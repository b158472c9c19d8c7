//! Laws of members: names, references, stages, cases and units of time.

use crate::error::CubeErrorCauseType;
use crate::error::CubeErrorView;
use crate::filter::FilterView;
use crate::filter::admits;
use crate::granularity::Granularity;
use crate::granularity::TimeGranularity;
use crate::granularity::common_unit_is_coarsest;
use crate::granularity::common_unit_with_part;
use crate::granularity::granularity_name;
use crate::granularity::interval_unit;
use crate::granularity::made_of;
use crate::granularity::min_granularity;
use crate::granularity::optional_interval_unit;
use crate::plan::agree;
use crate::plan::as_time_dimensions;
use crate::plan::base_granularity;
use crate::plan::finest;
use crate::plan::granularity_required;
use crate::plan::measure_children;
use crate::plan::not_multi_stage;
use crate::plan::not_one_time_dimension;
use crate::plan::query_time_dimensions;
use crate::plan::time_dimensions_among;
use crate::plan::window_key;
use crate::query_properties::QueryPropertiesView;
use crate::static_filter::admitted_branches;
use crate::static_filter::admitted_case;
use crate::static_filter::else_admitted;
use crate::static_filter::statically_filtered;
use crate::switch::SwitchUse;
use crate::switch::branch_uses;
use crate::switch::else_uses;
use crate::switch::else_values;
use crate::switch::switch_entries;
use crate::switch::switch_uses;
use crate::switch::uses_of;
use crate::switch::with_uses;
use crate::symbol::Case;
use crate::symbol::CaseSwitchBranch;
use crate::symbol::CaseSwitchDefinition;
use crate::symbol::CaseSwitchItem;
use crate::symbol::DimensionSymbol;
use crate::symbol::MeasureSymbol;
use crate::symbol::MemberSymbol;
use crate::symbol::RollingWindow;
use crate::symbol::SwitchBranches;
use crate::symbol::TimeDimensionSymbol;
use crate::symbol::branch_dependencies;
use crate::symbol::branch_list;
use crate::symbol::case_dependencies;
use crate::symbol::case_of;
use crate::symbol::cube_name;
use crate::symbol::dependencies;
use crate::symbol::full_name;
use crate::symbol::full_names;
use crate::symbol::has_multi_stage;
use crate::symbol::inner;
use crate::symbol::lemma_resolved_height;
use crate::symbol::not_a_time_dimension;
use crate::symbol::optional_sql_dependencies;
use crate::symbol::reference;
use crate::symbol::resolved;
use crate::symbol::resolved_granularity;
use crate::symbol::short_name;
use crate::symbol::switch_item_dependencies;
use crate::symbol::unrolled;
use crate::text::joined;
use crate::text::occurs_in;
use crate::text::texts;
use std::rc::Rc;
use vstd::prelude::*;

verus! {

// ---------------------------------------------------------------------------------------------
// Names
// ---------------------------------------------------------------------------------------------

/// A measure and a dimension are known by the cube and the name, with a dot between them; an
/// expression of the query by a prefix before that; a time dimension by its base, and behind it by
/// its granularity if it has one.
pub proof fn names_tell_members_apart(member: MemberSymbol)
    ensures
        match member {
            MemberSymbol::Measure(m) => full_name(member) == m.cube_name@.push('.') + m.name@,
            MemberSymbol::Dimension(d) => full_name(member) == d.cube_name@.push('.') + d.name@,
            MemberSymbol::MemberExpression(e) => full_name(member) == "expr:"@ + (
            e.cube_name@.push('.') + e.name@),
            MemberSymbol::TimeDimension(t) => {
                &&& full_name(*t.base_symbol).is_prefix_of(full_name(member))
                &&& t.granularity is None ==> full_name(member) == full_name(*t.base_symbol)
                &&& t.granularity is Some ==> full_name(member) == full_name(*t.base_symbol).push(
                    '_',
                ) + t.granularity->0.spec_name()
            },
        },
{
    reveal_strlit(".");
    reveal_strlit("_");
    match member {
        MemberSymbol::Measure(m) => {
            assert(full_name(member) == m.cube_name@.push('.') + m.name@);
        },
        MemberSymbol::Dimension(d) => {
            assert(full_name(member) == d.cube_name@.push('.') + d.name@);
        },
        MemberSymbol::MemberExpression(e) => {
            assert(e.cube_name@ + "."@ + e.name@ == e.cube_name@.push('.') + e.name@);
        },
        MemberSymbol::TimeDimension(t) => {
            let base = full_name(inner(inner(t).base_symbol));
            if inner(t).granularity is Some {
                let name = inner(t).granularity->0.spec_name();
                assert(full_name(member) == base.push('_') + name);
            }
        },
    }
}

// ---------------------------------------------------------------------------------------------
// References
// ---------------------------------------------------------------------------------------------

/// What a member refers to, if it is nothing but another name: the first member of its expression.
pub open spec fn is_another_name_for(member: MemberSymbol, target: MemberSymbol) -> bool {
    match member {
        MemberSymbol::Measure(m) => m.is_reference && m.sql.dependencies@.len() > 0
            && *m.sql.dependencies@[0] == target,
        MemberSymbol::Dimension(d) => d.is_reference && d.sql.dependencies@.len() > 0
            && *d.sql.dependencies@[0] == target,
        _ => false,
    }
}

/// A member that is another name for a second one resolves to what the second one resolves to; a
/// member that is no other name resolves to itself. What a member resolves to is no other name.
pub proof fn references_resolve_to_what_they_name(member: MemberSymbol, target: MemberSymbol)
    ensures
        is_another_name_for(member, target) ==> resolved(member) == resolved(target),
        (forall|other: MemberSymbol| !is_another_name_for(member, other)) ==> resolved(member)
            == member,
        !is_another_name_for(resolved(member), target),
{
    lemma_resolved_height(member);
    if forall|other: MemberSymbol| !is_another_name_for(member, other) {
        match reference(member) {
            Some(next) => {
                assert(is_another_name_for(member, inner(next)));
            },
            None => {},
        }
    }
    if is_another_name_for(resolved(member), target) {
        assert(reference(resolved(member)) is Some);
    }
}

// ---------------------------------------------------------------------------------------------
// More than one stage
// ---------------------------------------------------------------------------------------------

/// A member takes more than one stage if it has multi-stage properties, if it is a measure with a
/// window or a running total, unless these are to be ignored, or if a member of its definition
/// does; and only then.
pub proof fn members_that_take_more_than_one_stage(member: MemberSymbol, ignore_cumulative: bool)
    ensures
        has_multi_stage(member, ignore_cumulative) == ({
            ||| member matches MemberSymbol::Measure(m) && (m.multi_stage is Some || (
            !ignore_cumulative && (m.rolling_window is Some || m.running_total)))
            ||| member matches MemberSymbol::Dimension(d) && d.multi_stage is Some
            ||| exists|i: int|
                0 <= i < dependencies(member).len() && has_multi_stage(
                    *#[trigger] dependencies(member)[i],
                    ignore_cumulative,
                )
        }),
{
}

/// The members of a definition are those of its expression and of its case: of the switch, of every
/// branch and of the else branch.
pub proof fn definitions_refer_to_expression_and_case(member: MemberSymbol, dep: Rc<MemberSymbol>)
    ensures
        dependencies(member).contains(dep) == ({
            ||| member matches MemberSymbol::Measure(m) && m.sql.dependencies@.contains(dep)
            ||| member matches MemberSymbol::Dimension(d) && d.sql.dependencies@.contains(dep)
            ||| member matches MemberSymbol::MemberExpression(e) && e.sql.dependencies@.contains(
                dep,
            )
            ||| member matches MemberSymbol::TimeDimension(t) && t.base_symbol == dep
            ||| case_refers_to(case_of(member), dep)
        }),
{
    match member {
        MemberSymbol::Measure(m) => {
            lemma_case(inner(m).case, dep);
            lemma_add_contains(
                inner(inner(m).sql).dependencies@,
                case_dependencies(inner(m).case),
                dep,
            );
        },
        MemberSymbol::Dimension(d) => {
            lemma_case(inner(d).case, dep);
            lemma_add_contains(
                inner(inner(d).sql).dependencies@,
                case_dependencies(inner(d).case),
                dep,
            );
        },
        MemberSymbol::TimeDimension(t) => {
            let single = seq![inner(t).base_symbol];
            assert(single[0] == inner(t).base_symbol);
            if single.contains(dep) {
                let i = choose|i: int| 0 <= i < single.len() && single[i] == dep;
                assert(i == 0);
            }
        },
        _ => {},
    }
}

/// Whether a case refers to a member.
pub open spec fn case_refers_to(case: Option<Case>, dep: Rc<MemberSymbol>) -> bool {
    match case {
        Some(Case::Case(definition)) => definition.dependencies@.contains(dep),
        Some(Case::CaseSwitch(definition)) => {
            ||| definition.switch matches CaseSwitchItem::Sql(sql) && sql.dependencies@.contains(dep)
            ||| definition.switch matches CaseSwitchItem::Member(switch) && switch == dep
            ||| exists|i: int|
                0 <= i < branch_list(*definition.items).len() && (#[trigger] branch_list(
                    *definition.items,
                )[i]).sql.dependencies@.contains(dep)
            ||| definition.else_sql is Some && (definition.else_sql->0).dependencies@.contains(dep)
        },
        None => false,
    }
}

proof fn lemma_add_contains(a: Seq<Rc<MemberSymbol>>, b: Seq<Rc<MemberSymbol>>, dep: Rc<MemberSymbol>)
    ensures
        (a + b).contains(dep) == (a.contains(dep) || b.contains(dep)),
{
    let all = a + b;
    if a.contains(dep) {
        let i = choose|i: int| 0 <= i < a.len() && a[i] == dep;
        assert(all[i] == dep);
    }
    if b.contains(dep) {
        let i = choose|i: int| 0 <= i < b.len() && b[i] == dep;
        assert(all[a.len() + i] == dep);
    }
    if all.contains(dep) {
        let i = choose|i: int| 0 <= i < all.len() && all[i] == dep;
        if i < a.len() {
            assert(a[i] == dep);
        } else {
            assert(b[i - a.len()] == dep);
        }
    }
}

proof fn lemma_branches(branches: SwitchBranches, dep: Rc<MemberSymbol>)
    ensures
        branch_dependencies(branches).contains(dep) == exists|i: int|
            0 <= i < branch_list(branches).len() && (#[trigger] branch_list(
                branches,
            )[i]).sql.dependencies@.contains(dep),
    decreases branches,
{
    let list = branch_list(branches);
    if let SwitchBranches::Branch(first, rest) = branches {
        let others = branch_list(inner(rest));
        assert(list[0] == first);
        assert forall|i: int| 0 <= i < others.len() implies #[trigger] others[i] == list[i + 1] by {}
        lemma_branches(inner(rest), dep);
        lemma_add_contains(
            first.sql.dependencies@,
            branch_dependencies(inner(rest)),
            dep,
        );
        if exists|i: int|
            0 <= i < others.len() && (#[trigger] others[i]).sql.dependencies@.contains(dep) {
            let i = choose|i: int|
                0 <= i < others.len() && (#[trigger] others[i]).sql.dependencies@.contains(dep);
            assert(list[i + 1].sql.dependencies@.contains(dep));
        }
        if exists|i: int|
            0 <= i < list.len() && (#[trigger] list[i]).sql.dependencies@.contains(dep) {
            let i = choose|i: int|
                0 <= i < list.len() && (#[trigger] list[i]).sql.dependencies@.contains(dep);
            if i > 0 {
                assert(others[i - 1].sql.dependencies@.contains(dep));
            }
        }
    }
}

proof fn lemma_case(case: Option<Case>, dep: Rc<MemberSymbol>)
    ensures
        case_dependencies(case).contains(dep) == case_refers_to(case, dep),
{
    if let Some(Case::CaseSwitch(definition)) = case {
        let items = inner(inner(definition).items);
        let switch = switch_item_dependencies(inner(definition).switch);
        let branches = branch_dependencies(items);
        let others = optional_sql_dependencies(inner(definition).else_sql);
        lemma_branches(items, dep);
        lemma_add_contains(switch + branches, others, dep);
        lemma_add_contains(switch, branches, dep);
        if let CaseSwitchItem::Member(member) = inner(definition).switch {
            assert(switch[0] == member);
            if switch.contains(dep) {
                let i = choose|i: int| 0 <= i < switch.len() && switch[i] == dep;
                assert(i == 0);
            }
        }
    }
}

/// A measure without its window is the same measure in all else.
pub proof fn unrolling_drops_the_window_only(measure: MeasureSymbol)
    ensures
        unrolled(measure).rolling_window is None,
        !unrolled(measure).running_total,
        unrolled(measure).cube_name == measure.cube_name,
        unrolled(measure).name == measure.name,
        unrolled(measure).kind == measure.kind,
        unrolled(measure).sql == measure.sql,
        unrolled(measure).is_reference == measure.is_reference,
        unrolled(measure).case == measure.case,
        unrolled(measure).additive == measure.additive,
        unrolled(measure).multi_stage == measure.multi_stage,
{
}

// ---------------------------------------------------------------------------------------------
// Case branches that filters rule out
// ---------------------------------------------------------------------------------------------

proof fn lemma_admitted_list(branches: SwitchBranches, filters: Seq<FilterView>, switch: Seq<char>)
    ensures
        branch_list(admitted_branches(branches, filters, switch)) == branch_list(branches).filter(
            |b: Rc<CaseSwitchBranch>| admits(filters, switch, b.value@),
        ),
    decreases branches,
{
    let keep = |b: Rc<CaseSwitchBranch>| admits(filters, switch, b.value@);
    reveal(Seq::filter);
    if let SwitchBranches::Branch(first, rest) = branches {
        lemma_admitted_list(inner(rest), filters, switch);
        let others = branch_list(inner(rest));
        others.lemma_filter_prepend(first, keep);
    } else {
        assert(branch_list(branches).filter(keep) =~= Seq::empty());
    }
}

/// Whether ruling out branches has made one case of another: a switch on a member keeps, in order,
/// exactly the branches whose value the filters admit, and its else branch if they admit a value
/// that reaches it or those are not known. Other cases stay.
pub open spec fn is_pruned(
    before: Option<Case>,
    after: Option<Case>,
    filters: Seq<FilterView>,
) -> bool {
    if before is Some && before->0 is CaseSwitch && before->0->CaseSwitch_0.switch is Member {
        let old_case = before->0->CaseSwitch_0;
        let name = full_name(*old_case.switch->Member_0);
        &&& after is Some
        &&& after->0 is CaseSwitch
        &&& after->0->CaseSwitch_0.switch == old_case.switch
        &&& after->0->CaseSwitch_0.else_values == old_case.else_values
        &&& branch_list(*after->0->CaseSwitch_0.items) == branch_list(*old_case.items).filter(
            |b: Rc<CaseSwitchBranch>| admits(filters, name, b.value@),
        )
        &&& after->0->CaseSwitch_0.else_sql == if old_case.else_values is None || exists|i: int|
            0 <= i < (old_case.else_values->0)@.len() && admits(
                filters,
                name,
                (#[trigger] (old_case.else_values->0)@[i])@,
            ) {
            old_case.else_sql
        } else {
            None
        }
    } else {
        after == before
    }
}

proof fn lemma_pruned(case: Option<Case>, filters: Seq<FilterView>)
    ensures
        is_pruned(case, admitted_case(case, filters), filters),
{
    if let Some(Case::CaseSwitch(definition)) = case {
        if let CaseSwitchItem::Member(member) = inner(definition).switch {
            let name = full_name(inner(member));
            lemma_admitted_list(inner(inner(definition).items), filters, name);
            if let Some(values) = inner(definition).else_values {
                let list = inner(values)@;
                assert forall|i: int| 0 <= i < list.len() implies texts(list)[i]
                    == (#[trigger] list[i])@ by {}
                if exists|i: int| 0 <= i < list.len() && admits(filters, name, (#[trigger] list[i])@) {
                    let i = choose|i: int|
                        0 <= i < list.len() && admits(filters, name, (#[trigger] list[i])@);
                    assert(admits(filters, name, texts(list)[i]));
                }
                if else_admitted(inner(definition), filters, name) {
                    let i = choose|i: int|
                        0 <= i < list.len() && admits(
                            filters,
                            name,
                            #[trigger] texts(list)[i],
                        );
                    assert(admits(filters, name, list[i]@));
                }
            }
        }
    }
}

/// Filters change nothing of a member but its case, and there only what they rule out.
pub proof fn filters_prune_cases_only(member: MemberSymbol, filters: Seq<FilterView>)
    ensures
        ({
            let after = statically_filtered(member, filters);
            match (member, after) {
                (MemberSymbol::Measure(old_measure), MemberSymbol::Measure(measure)) => {
                    &&& *measure == (MeasureSymbol { case: measure.case, ..*old_measure })
                    &&& is_pruned(old_measure.case, measure.case, filters)
                },
                (MemberSymbol::Dimension(old_dimension), MemberSymbol::Dimension(dimension)) => {
                    &&& *dimension == (DimensionSymbol {
                        case: dimension.case,
                        ..*old_dimension
                    })
                    &&& is_pruned(old_dimension.case, dimension.case, filters)
                },
                (MemberSymbol::Measure(_), _) => false,
                (MemberSymbol::Dimension(_), _) => false,
                _ => after == member,
            }
        }),
{
    lemma_pruned(case_of(member), filters);
}

// ---------------------------------------------------------------------------------------------
// What branches use
// ---------------------------------------------------------------------------------------------

/// Whether a branch of a switch, or its else branch, uses a member for these values.
pub open spec fn branch_needs(
    definition: CaseSwitchDefinition,
    dep: Rc<MemberSymbol>,
    values: Option<Seq<Seq<char>>>,
) -> bool {
    ||| exists|i: int|
        0 <= i < branch_list(*definition.items).len() && (#[trigger] branch_list(
            *definition.items,
        )[i]).sql.dependencies@.contains(dep) && values == Some(
            seq![branch_list(*definition.items)[i].value@],
        )
    ||| {
        &&& definition.else_sql is Some
        &&& (definition.else_sql->0).dependencies@.contains(dep)
        &&& definition.else_values is None ==> values is None
        &&& definition.else_values is Some ==> values == Some(
            (definition.else_values->0)@.map_values(|v: String| v@),
        )
    }
}

proof fn lemma_branch_uses(branches: SwitchBranches, used: SwitchUse)
    ensures
        branch_uses(branches).contains(used) == exists|i: int|
            0 <= i < branch_list(branches).len() && (#[trigger] branch_list(
                branches,
            )[i]).sql.dependencies@.contains(used.dep) && used.values == Some(
                seq![branch_list(branches)[i].value@],
            ),
    decreases branches,
{
    let list = branch_list(branches);
    let uses = branch_uses(branches);
    if let SwitchBranches::Branch(first, rest) = branches {
        let others = branch_list(inner(rest));
        let own = uses_of(first.sql.dependencies@, Some(seq![first.value@]));
        let later = branch_uses(inner(rest));
        assert(list[0] == first);
        assert forall|i: int| 0 <= i < others.len() implies #[trigger] others[i] == list[i + 1] by {}
        lemma_branch_uses(inner(rest), used);
        lemma_uses_of(first.sql.dependencies@, Some(seq![first.value@]), used);
        if later.contains(used) {
            let k = choose|k: int| 0 <= k < later.len() && later[k] == used;
            assert(uses[own.len() + k] == used);
            let i = choose|i: int|
                0 <= i < others.len() && (#[trigger] others[i]).sql.dependencies@.contains(used.dep)
                    && used.values == Some(seq![others[i].value@]);
            assert(list[i + 1].sql.dependencies@.contains(used.dep));
        }
        if own.contains(used) {
            let k = choose|k: int| 0 <= k < own.len() && own[k] == used;
            assert(uses[k] == used);
            assert(list[0].sql.dependencies@.contains(used.dep));
        }
        if uses.contains(used) {
            let k = choose|k: int| 0 <= k < uses.len() && uses[k] == used;
            if k < own.len() {
                assert(own[k] == used);
            } else {
                assert(later[k - own.len()] == used);
            }
        }
        if exists|i: int|
            0 <= i < list.len() && (#[trigger] list[i]).sql.dependencies@.contains(used.dep)
                && used.values == Some(seq![list[i].value@]) {
            let i = choose|i: int|
                0 <= i < list.len() && (#[trigger] list[i]).sql.dependencies@.contains(used.dep)
                    && used.values == Some(seq![list[i].value@]);
            if i > 0 {
                assert(others[i - 1].sql.dependencies@.contains(used.dep));
            }
        }
    }
}

proof fn lemma_uses_of(
    deps: Seq<Rc<MemberSymbol>>,
    values: Option<Seq<Seq<char>>>,
    used: SwitchUse,
)
    ensures
        uses_of(deps, values).contains(used) == (deps.contains(used.dep)
            && used.values == values),
{
    let uses = uses_of(deps, values);
    if uses.contains(used) {
        let k = choose|k: int| 0 <= k < uses.len() && uses[k] == used;
        assert(deps[k] == used.dep);
    }
    if deps.contains(used.dep) && used.values == values {
        let k = choose|k: int| 0 <= k < deps.len() && deps[k] == used.dep;
        assert(uses[k] == used);
    }
}

/// A switch uses a member for values exactly where a branch needs it for them: a branch for its own
/// value, the else branch for the values that reach it, or for all where those are not known.
pub proof fn switches_use_what_branches_need(definition: CaseSwitchDefinition, used: SwitchUse)
    ensures
        switch_uses(definition).contains(used) == branch_needs(definition, used.dep, used.values),
{
    let first = branch_uses(inner(definition.items));
    let second = else_uses(definition);
    let all = switch_uses(definition);
    lemma_branch_uses(inner(definition.items), used);
    if let Some(sql) = definition.else_sql {
        lemma_uses_of(sql.dependencies@, else_values(definition), used);
        if let Some(values) = definition.else_values {
            assert(texts(inner(values)@) == inner(values)@.map_values(
                |v: String| v@,
            ));
        }
    }
    if first.contains(used) {
        let k = choose|k: int| 0 <= k < first.len() && first[k] == used;
        assert(all[k] == used);
    }
    if second.contains(used) {
        let k = choose|k: int| 0 <= k < second.len() && second[k] == used;
        assert(all[first.len() + k] == used);
    }
    if all.contains(used) {
        let k = choose|k: int| 0 <= k < all.len() && all[k] == used;
        if k < first.len() {
            assert(first[k] == used);
        } else {
            assert(second[k - first.len()] == used);
        }
    }
}

/// Each dependency of a switch that is planned is one that a branch uses, at the end of its
/// references.
pub proof fn switches_plan_what_branches_use(definition: CaseSwitchDefinition, i: int)
    requires
        0 <= i < switch_entries(definition).len(),
    ensures
        exists|k: int|
            0 <= k < switch_uses(definition).len() && *switch_entries(definition)[i].dep
                == resolved(*(#[trigger] switch_uses(definition)[k]).dep),
{
    lemma_entry_of_use(switch_uses(definition), i);
}

proof fn lemma_entry_of_use(uses: Seq<SwitchUse>, i: int)
    requires
        0 <= i < with_uses(Seq::empty(), uses).len(),
    ensures
        exists|k: int|
            0 <= k < uses.len() && *with_uses(Seq::empty(), uses)[i].dep == resolved(
                *(#[trigger] uses[k]).dep,
            ),
    decreases uses.len(),
{
    let entries = with_uses(Seq::empty(), uses);
    if uses.len() > 0 {
        let before = uses.drop_last();
        let rest = with_uses(Seq::empty(), before);
        if i < rest.len() {
            assert(entries[i].dep == rest[i].dep);
            lemma_entry_of_use(before, i);
            let k = choose|k: int|
                0 <= k < before.len() && inner(rest[i].dep) == resolved(
                    inner((#[trigger] before[k]).dep),
                );
            assert(uses[k] == before[k]);
        } else {
            assert(inner(entries[i].dep) == resolved(inner(uses[uses.len() - 1].dep)));
        }
    }
}

// ---------------------------------------------------------------------------------------------
// Units of time
// ---------------------------------------------------------------------------------------------

/// The length of a unit in seconds, if it has a fixed one; else none.
pub open spec fn seconds(unit: Granularity) -> nat {
    match unit {
        Granularity::Second => 1,
        Granularity::Minute => 60,
        Granularity::Hour => 3600,
        Granularity::Day => 86400,
        Granularity::Week => 604800,
        _ => 0,
    }
}

/// The length of a unit in months, if it is made of months; else none.
pub open spec fn months(unit: Granularity) -> nat {
    match unit {
        Granularity::Month => 1,
        Granularity::Quarter => 3,
        Granularity::Year => 12,
        _ => 0,
    }
}

/// A unit is made of another one if the length of the latter divides its length: in seconds, or in
/// months. Months begin with days, so units of months are made of what days are made of. Nothing
/// else is made of another unit.
pub proof fn units_are_made_of_units_that_divide_them(coarse: Granularity, fine: Granularity)
    ensures
        made_of(coarse, fine) == (if months(coarse) > 0 {
            if months(fine) > 0 {
                months(coarse) % months(fine) == 0
            } else {
                86400nat % seconds(fine) == 0
            }
        } else {
            seconds(fine) > 0 && seconds(coarse) % seconds(fine) == 0
        }),
{
    reveal_with_fuel(made_of, 8);
}

/// The unit of an interval is one that its text names, and no smaller one is named.
pub proof fn intervals_have_the_smallest_unit_they_name(interval: Seq<char>, unit: Granularity)
    ensures
        interval_unit(interval) is Some ==> occurs_in(
            granularity_name(interval_unit(interval)->0),
            interval,
        ),
        occurs_in(granularity_name(unit), interval) ==> interval_unit(interval) is Some && size(
            interval_unit(interval)->0,
        ) <= size(unit),
{
}

/// The size of a unit among all units.
pub open spec fn size(unit: Granularity) -> nat {
    if months(unit) > 0 {
        604800 + months(unit)
    } else {
        seconds(unit)
    }
}

/// The input of a window is grouped by the coarsest unit that fits: any unit that the steps of the
/// window and both its sides are made of, it is made of too.
pub proof fn window_inputs_are_no_finer_than_needed(
    dimension: TimeDimensionSymbol,
    window: RollingWindow,
    unit: Granularity,
)
    requires
        optional_interval_unit(window.trailing) is Some ==> made_of(
            optional_interval_unit(window.trailing)->0,
            unit,
        ),
        optional_interval_unit(window.leading) is Some ==> made_of(
            optional_interval_unit(window.leading)->0,
            unit,
        ),
        resolved_granularity(dimension) is Some ==> made_of(
            resolved_granularity(dimension)->0,
            unit,
        ),
    ensures
        base_granularity(dimension, window) is Some ==> made_of(
            base_granularity(dimension, window)->0,
            unit,
        ),
        base_granularity(dimension, window) is None == (optional_interval_unit(window.trailing)
            is None && optional_interval_unit(window.leading) is None && resolved_granularity(
            dimension,
        ) is None),
{
    let trailing = optional_interval_unit(window.trailing);
    let leading = optional_interval_unit(window.leading);
    let sides = min_granularity(trailing, leading);
    let step = resolved_granularity(dimension);
    if trailing is Some && leading is Some {
        common_unit_is_coarsest(trailing->0, leading->0, unit);
    }
    if sides is Some && step is Some {
        common_unit_is_coarsest(sides->0, step->0, unit);
    }
}

// ---------------------------------------------------------------------------------------------
// Time dimensions of a query
// ---------------------------------------------------------------------------------------------

proof fn lemma_as_time_dimensions(members: Seq<Rc<MemberSymbol>>)
    ensures
        as_time_dimensions(members) is Ok == (forall|i: int|
            0 <= i < members.len() ==> *#[trigger] members[i] is TimeDimension),
        as_time_dimensions(members) is Ok ==> {
            &&& as_time_dimensions(members)->Ok_0.len() == members.len()
            &&& forall|i: int|
                0 <= i < members.len() ==> MemberSymbol::TimeDimension(
                    #[trigger] as_time_dimensions(members)->Ok_0[i],
                ) == *members[i]
        },
    decreases members.len(),
{
    if members.len() > 0 {
        let before = members.drop_last();
        lemma_as_time_dimensions(before);
        assert forall|i: int| 0 <= i < before.len() implies #[trigger] members[i] == before[i] by {}
        assert(members[members.len() - 1] == members.last());
        if forall|i: int| 0 <= i < members.len() ==> *#[trigger] members[i] is TimeDimension {
            assert forall|i: int| 0 <= i < before.len() implies *#[trigger] before[i]
                is TimeDimension by {
                assert(inner(members[i]) is TimeDimension);
            }
        }
        if as_time_dimensions(members) is Ok {
            assert forall|i: int| 0 <= i < members.len() implies *#[trigger] members[i]
                is TimeDimension by {
                if i < before.len() {
                    assert(inner(before[i]) is TimeDimension);
                }
            }
        }
    }
}

proof fn lemma_time_dimensions_among(members: Seq<Rc<MemberSymbol>>, t: Rc<TimeDimensionSymbol>)
    ensures
        time_dimensions_among(members).contains(t) == exists|i: int|
            0 <= i < members.len() && resolved(*#[trigger] members[i])
                == MemberSymbol::TimeDimension(t),
    decreases members.len(),
{
    if members.len() > 0 {
        let before = members.drop_last();
        let rest = time_dimensions_among(before);
        let all = time_dimensions_among(members);
        lemma_time_dimensions_among(before, t);
        assert forall|i: int| 0 <= i < before.len() implies #[trigger] members[i] == before[i] by {}
        assert(members[members.len() - 1] == members.last());
        if rest.contains(t) {
            let k = choose|k: int| 0 <= k < rest.len() && rest[k] == t;
            assert(all[k] == t);
            let i = choose|i: int|
                0 <= i < before.len() && resolved(inner(#[trigger] before[i]))
                    == MemberSymbol::TimeDimension(t);
            assert(resolved(inner(members[i])) == MemberSymbol::TimeDimension(t));
        }
        if resolved(inner(members.last())) == MemberSymbol::TimeDimension(t) {
            assert(all[all.len() - 1] == t);
        }
        if all.contains(t) && !rest.contains(t) {
            let k = choose|k: int| 0 <= k < all.len() && all[k] == t;
            if k < rest.len() {
                assert(rest[k] == t);
            }
            assert(resolved(inner(members[members.len() - 1])) == MemberSymbol::TimeDimension(t));
        }
        if exists|i: int|
            0 <= i < members.len() && resolved(*#[trigger] members[i])
                == MemberSymbol::TimeDimension(t) {
            let i = choose|i: int|
                0 <= i < members.len() && resolved(inner(#[trigger] members[i]))
                    == MemberSymbol::TimeDimension(t);
            if i < before.len() {
                assert(resolved(inner(before[i])) == MemberSymbol::TimeDimension(t));
            }
        }
    }
}

/// A window sees the time dimensions of the query, all of them, and the time dimensions that its
/// dimensions are or refer to. It sees none only where one of the former is no time dimension.
pub proof fn windows_see_all_time_dimensions(
    query: QueryPropertiesView,
    t: Rc<TimeDimensionSymbol>,
)
    ensures
        query_time_dimensions(query) is Ok == (forall|i: int|
            0 <= i < query.time_dimensions.len() ==> *#[trigger] query.time_dimensions[i]
                is TimeDimension),
        query_time_dimensions(query) is Ok ==> query_time_dimensions(query)->Ok_0.contains(t) == (
        query.time_dimensions.contains(Rc::new(MemberSymbol::TimeDimension(t))) || exists|i: int|
            0 <= i < query.dimensions.len() && resolved(*#[trigger] query.dimensions[i])
                == MemberSymbol::TimeDimension(t)),
{
    lemma_as_time_dimensions(query.time_dimensions);
    lemma_time_dimensions_among(query.dimensions, t);
    let symbol = Rc::new(MemberSymbol::TimeDimension(t));
    if query_time_dimensions(query) is Ok {
        let a = as_time_dimensions(query.time_dimensions)->Ok_0;
        let b = time_dimensions_among(query.dimensions);
        let all = a + b;
        if query.time_dimensions.contains(symbol) {
            let i = choose|i: int|
                0 <= i < query.time_dimensions.len() && query.time_dimensions[i] == symbol;
            assert(MemberSymbol::TimeDimension(a[i]) == inner(query.time_dimensions[i]));
            assert(all[i] == t);
        }
        if b.contains(t) {
            let k = choose|k: int| 0 <= k < b.len() && b[k] == t;
            assert(all[a.len() + k] == t);
        }
        if all.contains(t) {
            let k = choose|k: int| 0 <= k < all.len() && all[k] == t;
            if k < a.len() {
                assert(MemberSymbol::TimeDimension(a[k]) == inner(query.time_dimensions[k]));
                assert(query.time_dimensions[k] == symbol);
            } else {
                assert(b[k - a.len()] == t);
            }
        }
    }
}

/// The time dimension by which a window steps is one of those it sees.
pub proof fn windows_step_by_one_of_their_time_dimensions(
    dimensions: Seq<Rc<TimeDimensionSymbol>>,
)
    requires
        dimensions.len() > 0,
    ensures
        dimensions.contains(finest(dimensions)),
    decreases dimensions.len(),
{
    if dimensions.len() > 1 {
        let before = dimensions.drop_last();
        windows_step_by_one_of_their_time_dimensions(before);
        let i = choose|i: int| 0 <= i < before.len() && before[i] == finest(before);
        assert(dimensions[i] == finest(before));
        assert(dimensions[dimensions.len() - 1] == dimensions.last());
    }
}

/// Whether two time dimensions are of the same cube and name, over the same dates.
pub open spec fn is_same_but_for_granularity(a: TimeDimensionSymbol, b: TimeDimensionSymbol) -> bool {
    &&& cube_name(*a.base_symbol) == cube_name(*b.base_symbol)
    &&& short_name(*a.base_symbol) == short_name(*b.base_symbol)
    &&& match (a.date_range, b.date_range) {
        (Some((a_from, a_to)), Some((b_from, b_to))) => a_from@ == b_from@ && a_to@ == b_to@,
        (None, None) => true,
        _ => false,
    }
}

/// The time dimensions of a window agree if any two of them are the same but for the granularity.
pub proof fn time_dimensions_agree_in_all_but_granularity(dimensions: Seq<Rc<TimeDimensionSymbol>>)
    ensures
        agree(dimensions) == forall|i: int, j: int|
            0 <= i < dimensions.len() && 0 <= j < dimensions.len() ==> is_same_but_for_granularity(
                *#[trigger] dimensions[i],
                *#[trigger] dimensions[j],
            ),
{
    assert forall|i: int, j: int|
        0 <= i < dimensions.len() && 0 <= j < dimensions.len() implies (
    window_key(*#[trigger] dimensions[i]) == window_key(
        *#[trigger] dimensions[j],
    )) == is_same_but_for_granularity(inner(dimensions[i]), inner(dimensions[j])) by {}
    if forall|i: int, j: int|
        0 <= i < dimensions.len() && 0 <= j < dimensions.len() ==> is_same_but_for_granularity(
            *#[trigger] dimensions[i],
            *#[trigger] dimensions[j],
        ) {
        assert(agree(dimensions));
    }
}

// ---------------------------------------------------------------------------------------------
// Errors
// ---------------------------------------------------------------------------------------------

proof fn lemma_occurs(before: Seq<char>, pattern: Seq<char>, after: Seq<char>)
    ensures
        occurs_in(pattern, before + pattern + after),
{
    let text = before + pattern + after;
    let i = before.len() as int;
    assert(text.subrange(i, i + pattern.len()) == pattern);
}

proof fn lemma_occurs_within(pattern: Seq<char>, middle: Seq<char>, before: Seq<char>, after: Seq<char>)
    requires
        occurs_in(pattern, middle),
    ensures
        occurs_in(pattern, before + middle + after),
{
    let i = choose|i: int|
        0 <= i <= middle.len() - pattern.len() && #[trigger] middle.subrange(i, i + pattern.len())
            == pattern;
    let text = before + middle + after;
    assert(text.subrange(before.len() + i, before.len() + i + pattern.len()) == middle.subrange(
        i,
        i + pattern.len(),
    ));
}

proof fn lemma_part_occurs(parts: Seq<Seq<char>>, separator: Seq<char>, k: int)
    requires
        0 <= k < parts.len(),
    ensures
        occurs_in(parts[k], joined(parts, separator)),
    decreases parts.len(),
{
    let none = Seq::<char>::empty();
    if parts.len() == 1 {
        assert(none + parts[0] + none == parts[0]);
        lemma_occurs(none, parts[0], none);
    } else if k == parts.len() - 1 {
        let before = joined(parts.drop_last(), separator) + separator;
        assert(before + parts[k] + none == joined(parts, separator));
        lemma_occurs(before, parts[k], none);
    } else {
        let rest = joined(parts.drop_last(), separator);
        assert(parts.drop_last()[k] == parts[k]);
        lemma_part_occurs(parts.drop_last(), separator, k);
        let after = separator + parts.last();
        assert(none + rest + after == joined(parts, separator));
        lemma_occurs_within(parts[k], rest, none, after);
    }
}

/// The error of a rolling measure over measures is one of the data model. It names the measure, and
/// every measure that its definition refers to.
pub proof fn errors_name_the_measures(member: MemberSymbol, i: int)
    requires
        0 <= i < dependencies(member).len(),
        *dependencies(member)[i] is Measure,
    ensures
        not_multi_stage(member).cause == CubeErrorCauseType::User,
        occurs_in(full_name(member), not_multi_stage(member).message),
        occurs_in(full_name(*dependencies(member)[i]), not_multi_stage(member).message),
        measure_children(member).len() > 0,
{
    let is_measure = |d: Rc<MemberSymbol>| *d is Measure;
    let dep = dependencies(member)[i];
    let children = measure_children(member);
    dependencies(member).lemma_filter_contains(is_measure, i);
    let k = choose|k: int| 0 <= k < children.len() && children[k] == dep;
    let names = full_names(children);
    assert(names[k] == full_name(inner(dep)));
    lemma_part_occurs(names, ", "@, k);
    let name = full_name(member);
    let list = joined(names, ", "@);
    let message = not_multi_stage(member).message;
    let before = "Measure "@ + name + " references another measures ("@;
    let after = "). In this case, "@ + name + " must have multi_stage: true defined"@;
    assert(message == before + list + after);
    lemma_occurs_within(names[k], list, before, after);
    let rest = " references another measures ("@ + list + after;
    assert(message == "Measure "@ + name + rest);
    lemma_occurs("Measure "@, name, rest);
}

// ---------------------------------------------------------------------------------------------
// Steps of a window
// ---------------------------------------------------------------------------------------------

/// The unit of a granularity is itself, or the one that a granularity of the data model is built
/// from.
pub proof fn granularities_resolve_to_their_unit(dimension: TimeDimensionSymbol)
    ensures
        resolved_granularity(dimension) == match dimension.granularity {
            Some(TimeGranularity::Predefined(unit)) => Some(unit),
            Some(TimeGranularity::Custom { resolved, .. }) => Some(resolved),
            None => None,
        },
{
}

/// One more time dimension changes the step of a window only if it has a granularity that is not
/// made of that of the step, or if the step has none; then the window steps by it.
pub proof fn time_dimensions_are_held_against_the_step(
    dimensions: Seq<Rc<TimeDimensionSymbol>>,
    more: Rc<TimeDimensionSymbol>,
)
    requires
        dimensions.len() > 0,
    ensures
        finest(dimensions.push(more)) == ({
            let step = resolved_granularity(*finest(dimensions));
            let other = resolved_granularity(*more);
            if other is None || (step is Some && made_of(other->0, step->0)) {
                finest(dimensions)
            } else {
                more
            }
        }),
        finest(seq![more]) == more,
{
    assert(dimensions.push(more).drop_last() == dimensions);
    let step = resolved_granularity(inner(finest(dimensions)));
    let other = resolved_granularity(inner(more));
    if step is Some && other is Some {
        common_unit_is_coarsest(step->0, other->0, step->0);
        if made_of(other->0, step->0) {
            common_unit_with_part(other->0, step->0);
        }
    }
}

/// If a time dimension of the query is none, the error names the first such.
pub proof fn errors_name_the_first_other_member(members: Seq<Rc<MemberSymbol>>, i: int)
    requires
        0 <= i < members.len(),
        !(*members[i] is TimeDimension),
        forall|j: int| 0 <= j < i ==> *#[trigger] members[j] is TimeDimension,
    ensures
        as_time_dimensions(members) == Err::<Seq<Rc<TimeDimensionSymbol>>, CubeErrorView>(
            not_a_time_dimension(*members[i]),
        ),
        not_a_time_dimension(*members[i]).cause == CubeErrorCauseType::Internal,
        occurs_in(full_name(*members[i]), not_a_time_dimension(*members[i]).message),
    decreases members.len(),
{
    let none = Seq::<char>::empty();
    let name = full_name(inner(members[i]));
    assert(none + name + " is not a time dimension"@ == not_a_time_dimension(
        inner(members[i]),
    ).message);
    lemma_occurs(none, name, " is not a time dimension"@);
    let before = members.drop_last();
    assert forall|j: int| 0 <= j < before.len() implies #[trigger] members[j] == before[j] by {}
    if i < before.len() {
        assert forall|j: int| 0 <= j < i implies *#[trigger] before[j] is TimeDimension by {
            assert(inner(members[j]) is TimeDimension);
        }
        errors_name_the_first_other_member(before, i);
    } else {
        lemma_as_time_dimensions(before);
        assert forall|j: int| 0 <= j < before.len() implies *#[trigger] before[j]
            is TimeDimension by {
            assert(inner(members[j]) is TimeDimension);
        }
    }
}

// ---------------------------------------------------------------------------------------------
// Order of dependencies
// ---------------------------------------------------------------------------------------------

/// One more use leaves the dependencies of a switch in their places, and puts a new one behind
/// them.
pub proof fn dependencies_stand_in_order_of_first_use(uses: Seq<SwitchUse>, used: SwitchUse)
    ensures
        ({
            let before = with_uses(Seq::empty(), uses);
            let after = with_uses(Seq::empty(), uses.push(used));
            &&& before.len() <= after.len() <= before.len() + 1
            &&& forall|i: int|
                0 <= i < before.len() ==> (#[trigger] after[i]).dep == before[i].dep
            &&& after.len() > before.len() ==> *after[before.len() as int].dep == resolved(*used.dep)
        }),
{
    assert(uses.push(used).drop_last() == uses);
}

/// A window that reaches to the date without a period is an error of the data model. Time
/// dimensions that do not agree are not, and nor is a member that is no time dimension. No two of
/// these errors are the same.
pub proof fn errors_tell_the_data_model_from_the_planner(member: MemberSymbol)
    ensures
        granularity_required().cause == CubeErrorCauseType::User,
        granularity_required().message == "Granularity required for to_date rolling window"@,
        not_one_time_dimension().cause == CubeErrorCauseType::Internal,
        not_one_time_dimension().message
            == "Rolling window requires one time dimension and equal date ranges"@,
        not_a_time_dimension(member).cause == CubeErrorCauseType::Internal,
        not_one_time_dimension() != not_a_time_dimension(member),
        granularity_required() != not_multi_stage(member),
{
    let text = " is not a time dimension"@;
    let message = not_a_time_dimension(member).message;
    reveal_strlit(" is not a time dimension");
    reveal_strlit("Rolling window requires one time dimension and equal date ranges");
    assert(message.last() == text.last());
    reveal_strlit("Granularity required for to_date rolling window");
    reveal_strlit(" must have multi_stage: true defined");
    assert(not_multi_stage(member).message.last() == " must have multi_stage: true defined"@.last());
}

} // verus!
