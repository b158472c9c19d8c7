//! Case branches that filters rule out.

use crate::filter::admits;
use crate::filter::filter_views;
use crate::filter::filters_admit;
use crate::filter::FilterItem;
use crate::filter::FilterView;
use crate::symbol::branch_heights;
use crate::symbol::case_height;
use crate::symbol::full_name;
use crate::symbol::height;
use crate::symbol::inner;
use crate::symbol::Case;
use crate::symbol::CaseSwitchDefinition;
use crate::symbol::CaseSwitchItem;
use crate::symbol::DimensionSymbol;
use crate::symbol::MeasureSymbol;
use crate::symbol::MemberSymbol;
use crate::symbol::SwitchBranches;
use crate::text::texts;
use std::rc::Rc;
use vstd::prelude::*;

verus! {

/// The branches whose value the filters admit for the switch.
pub open spec fn admitted_branches(
    branches: SwitchBranches,
    filters: Seq<FilterView>,
    switch: Seq<char>,
) -> SwitchBranches
    decreases branches,
{
    match branches {
        SwitchBranches::Empty => SwitchBranches::Empty,
        SwitchBranches::Branch(first, rest) => {
            let others = admitted_branches(*rest, filters, switch);
            if admits(filters, switch, first.value@) {
                SwitchBranches::Branch(first, Rc::new(others))
            } else {
                others
            }
        },
    }
}

/// Whether the filters admit a value that reaches the else branch. All values may where they are
/// not known.
pub open spec fn else_admitted(
    definition: CaseSwitchDefinition,
    filters: Seq<FilterView>,
    switch: Seq<char>,
) -> bool {
    match definition.else_values {
        Some(values) => exists|i: int|
            0 <= i < values@.len() && admits(filters, switch, #[trigger] texts(values@)[i]),
        None => true,
    }
}

/// A case without the branches that the filters rule out.
pub open spec fn admitted_case(case: Option<Case>, filters: Seq<FilterView>) -> Option<Case> {
    match case {
        Some(Case::CaseSwitch(definition)) => match definition.switch {
            CaseSwitchItem::Member(member) => Some(
                Case::CaseSwitch(
                    Rc::new(
                        CaseSwitchDefinition {
                            items: Rc::new(
                                admitted_branches(
                                    *definition.items,
                                    filters,
                                    full_name(*member),
                                ),
                            ),
                            else_sql: if else_admitted(*definition, filters, full_name(*member)) {
                                definition.else_sql
                            } else {
                                None
                            },
                            ..*definition
                        },
                    ),
                ),
            ),
            CaseSwitchItem::Sql(_) => case,
        },
        _ => case,
    }
}

/// A member without the case branches that the filters rule out.
pub open spec fn statically_filtered(
    member: MemberSymbol,
    filters: Seq<FilterView>,
) -> MemberSymbol {
    match member {
        MemberSymbol::Measure(m) => MemberSymbol::Measure(
            Rc::new(MeasureSymbol { case: admitted_case(m.case, filters), ..*m }),
        ),
        MemberSymbol::Dimension(d) => MemberSymbol::Dimension(
            Rc::new(DimensionSymbol { case: admitted_case(d.case, filters), ..*d }),
        ),
        _ => member,
    }
}

proof fn lemma_admitted_branches_height(
    branches: SwitchBranches,
    filters: Seq<FilterView>,
    switch: Seq<char>,
)
    ensures
        branch_heights(admitted_branches(branches, filters, switch)) <= branch_heights(branches),
    decreases branches,
{
    if let SwitchBranches::Branch(first, rest) = branches {
        lemma_admitted_branches_height(inner(rest), filters, switch);
    }
}

proof fn lemma_admitted_case_height(case: Option<Case>, filters: Seq<FilterView>)
    ensures
        case_height(admitted_case(case, filters)) <= case_height(case),
{
    if let Some(Case::CaseSwitch(definition)) = case {
        if let CaseSwitchItem::Member(member) = inner(definition).switch {
            lemma_admitted_branches_height(
                inner(inner(definition).items),
                filters,
                full_name(inner(member)),
            );
        }
    }
}

/// Filtering a member leaves no more below it.
pub proof fn lemma_statically_filtered_height(member: MemberSymbol, filters: Seq<FilterView>)
    ensures
        height(statically_filtered(member, filters)) <= height(member),
{
    match member {
        MemberSymbol::Measure(m) => lemma_admitted_case_height(inner(m).case, filters),
        MemberSymbol::Dimension(d) => lemma_admitted_case_height(inner(d).case, filters),
        _ => {},
    }
}

fn keep_admitted_branches(
    branches: &Rc<SwitchBranches>,
    filters: &Vec<FilterItem>,
    switch: &String,
) -> (result: Rc<SwitchBranches>)
    ensures
        *result == admitted_branches(**branches, filter_views(filters@), switch@),
    decreases **branches,
{
    match &**branches {
        SwitchBranches::Empty => branches.clone(),
        SwitchBranches::Branch(first, rest) => {
            let others: Rc<SwitchBranches> = keep_admitted_branches(rest, filters, switch);
            if filters_admit(filters, switch, &first.value) {
                Rc::new(SwitchBranches::Branch(first.clone(), others))
            } else {
                others
            }
        },
    }
}

fn is_else_admitted(
    definition: &CaseSwitchDefinition,
    filters: &Vec<FilterItem>,
    switch: &String,
) -> (result: bool)
    ensures
        result == else_admitted(*definition, filter_views(filters@), switch@),
{
    match &definition.else_values {
        Some(values) => {
            let mut i: usize = 0;
            while i < values.len()
                invariant
                    i <= values@.len(),
                    definition.else_values == Some(*values),
                    forall|j: int|
                        0 <= j < i ==> !admits(
                            filter_views(filters@),
                            switch@,
                            #[trigger] texts(values@)[j],
                        ),
                decreases values@.len() - i,
            {
                if filters_admit(filters, switch, &values[i]) {
                    assert(admits(
                        filter_views(filters@),
                        switch@,
                        texts((definition.else_values->0)@)[i as int],
                    ));
                    return true;
                }
                i += 1;
            }
            false
        },
        None => true,
    }
}

fn keep_admitted_case(case: &Option<Case>, filters: &Vec<FilterItem>) -> (result: Option<Case>)
    ensures
        result == admitted_case(*case, filter_views(filters@)),
{
    match case {
        Some(Case::CaseSwitch(definition)) => match &definition.switch {
            CaseSwitchItem::Member(member) => {
                let switch: String = member.full_name();
                let else_sql = if is_else_admitted(definition, filters, &switch) {
                    match &definition.else_sql {
                        Some(sql) => Some(sql.clone()),
                        None => None,
                    }
                } else {
                    None
                };
                let admitted: CaseSwitchDefinition = CaseSwitchDefinition {
                    switch: definition.switch.clone(),
                    items: keep_admitted_branches(&definition.items, filters, &switch),
                    else_sql,
                    else_values: match &definition.else_values {
                        Some(values) => Some(values.clone()),
                        None => None,
                    },
                };
                Some(Case::CaseSwitch(Rc::new(admitted)))
            },
            CaseSwitchItem::Sql(_) => Some(Case::CaseSwitch(definition.clone())),
        },
        Some(Case::Case(definition)) => Some(Case::Case(definition.clone())),
        None => None,
    }
}

/// The member without the case branches that the filters rule out.
pub fn apply_static_filter_to_symbol(
    member: &Rc<MemberSymbol>,
    filters: &Vec<FilterItem>,
) -> (result:
    Rc<MemberSymbol>)
    ensures
        *result == statically_filtered(**member, filter_views(filters@)),
{
    match &**member {
        MemberSymbol::Measure(m) => Rc::new(
            MemberSymbol::Measure(
                Rc::new(
                    MeasureSymbol {
                        cube_name: m.cube_name.clone(),
                        name: m.name.clone(),
                        kind: m.kind,
                        sql: m.sql.clone(),
                        is_reference: m.is_reference,
                        case: keep_admitted_case(&m.case, filters),
                        rolling_window: match &m.rolling_window {
                            Some(window) => Some(window.clone()),
                            None => None,
                        },
                        running_total: m.running_total,
                        additive: m.additive,
                        multi_stage: match &m.multi_stage {
                            Some(multi_stage) => Some(multi_stage.clone()),
                            None => None,
                        },
                    },
                ),
            ),
        ),
        MemberSymbol::Dimension(d) => Rc::new(
            MemberSymbol::Dimension(
                Rc::new(
                    DimensionSymbol {
                        cube_name: d.cube_name.clone(),
                        name: d.name.clone(),
                        sql: d.sql.clone(),
                        is_reference: d.is_reference,
                        case: keep_admitted_case(&d.case, filters),
                        multi_stage: match &d.multi_stage {
                            Some(multi_stage) => Some(multi_stage.clone()),
                            None => None,
                        },
                    },
                ),
            ),
        ),
        _ => member.clone(),
    }
}

} // verus!
