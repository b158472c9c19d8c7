//! The members of the data model, as planning sees them.
//!
//! A [`MemberSymbol`] is immutable and shared. It holds what its definition says and the symbols
//! that the definition refers to.

use crate::error::internal_error;
use crate::error::CubeError;
use crate::error::CubeErrorView;
use crate::filter::FilterItem;
use crate::granularity::Granularity;
use crate::granularity::TimeGranularity;
use crate::text::dotted;
use std::rc::Rc;
use vstd::prelude::*;

verus! {

/// A compiled SQL expression, by the members that it refers to, in the order of the text.
#[derive(Debug)]
pub struct SqlCall {
    pub dependencies: Vec<Rc<MemberSymbol>>,
}

/// How a measure is computed.
#[derive(Clone, Copy, Debug, PartialEq, Eq, Structural)]
pub enum MeasureKind {
    /// A count of rows.
    Count,
    /// An aggregate of an expression over rows.
    Aggregated,
    /// An expression over other measures.
    Calculated,
    /// The position among the other groups.
    Rank,
}

/// The window of a rolling measure.
#[derive(Debug)]
pub struct RollingWindow {
    pub trailing: Option<String>,
    pub leading: Option<String>,
    pub offset: Option<String>,
    pub rolling_type: Option<String>,
    pub granularity: Option<String>,
}

/// A shift of one time dimension.
#[derive(Debug)]
pub struct DimensionTimeShift {
    pub dimension: Rc<MemberSymbol>,
    pub interval: String,
}

/// The shift of time at which a measure is computed.
#[derive(Debug)]
pub enum MeasureTimeShifts {
    /// All time dimensions by one interval.
    Common(String),
    /// All time dimensions by the shift that the calendar calls so.
    Named(String),
    /// Each dimension by its own interval.
    Dimensions(Rc<Vec<DimensionTimeShift>>),
}

/// What the filters of a multi-stage member start from.
#[derive(Clone, Copy, Debug, PartialEq, Eq, Structural)]
pub enum MultiStageFilterMode {
    /// The filters of the query.
    Fixed,
    /// The filters of the stage that reads the member.
    Relative,
}

/// A filter directive: how the inputs of a multi-stage member are filtered.
#[derive(Debug)]
pub struct MultiStageFilter {
    pub mode: MultiStageFilterMode,
    /// Members whose filters do not reach the inputs.
    pub exclude: Option<Vec<Rc<MemberSymbol>>>,
    /// Members whose filters alone reach the inputs.
    pub keep_only: Option<Vec<Rc<MemberSymbol>>>,
    pub include_dimension: Vec<FilterItem>,
    pub include_time_dimension: Vec<FilterItem>,
    pub include_measure: Vec<FilterItem>,
}

/// What makes a member a multi-stage member.
#[derive(Debug)]
pub struct MultiStageProperties {
    pub reduce_by: Option<Rc<Vec<Rc<MemberSymbol>>>>,
    pub add_group_by: Option<Rc<Vec<Rc<MemberSymbol>>>>,
    pub group_by: Option<Rc<Vec<Rc<MemberSymbol>>>>,
    pub time_shift: Option<MeasureTimeShifts>,
    pub filter: Option<Rc<MultiStageFilter>>,
}

/// A list of case conditions, by the members that they and their results refer to.
#[derive(Debug)]
pub struct CaseDefinition {
    pub dependencies: Vec<Rc<MemberSymbol>>,
}

/// What a switch looks at.
#[derive(Debug)]
pub enum CaseSwitchItem {
    Sql(Rc<SqlCall>),
    Member(Rc<MemberSymbol>),
}

/// One branch of a switch: the result for one value.
#[derive(Debug)]
pub struct CaseSwitchBranch {
    pub value: String,
    pub sql: Rc<SqlCall>,
}

/// The branches of a switch, first to last.
#[derive(Debug)]
pub enum SwitchBranches {
    Empty,
    Branch(Rc<CaseSwitchBranch>, Rc<SwitchBranches>),
}

/// A result that depends on the value of a switch.
#[derive(Debug)]
pub struct CaseSwitchDefinition {
    pub switch: CaseSwitchItem,
    pub items: Rc<SwitchBranches>,
    pub else_sql: Option<Rc<SqlCall>>,
    /// The values that reach the else branch, where all values of the switch are known.
    pub else_values: Option<Rc<Vec<String>>>,
}

/// The case expression of a member.
#[derive(Debug)]
pub enum Case {
    Case(Rc<CaseDefinition>),
    CaseSwitch(Rc<CaseSwitchDefinition>),
}

#[derive(Debug)]
pub struct MeasureSymbol {
    pub cube_name: String,
    pub name: String,
    pub kind: MeasureKind,
    pub sql: Rc<SqlCall>,
    /// Whether the expression is nothing but another member.
    pub is_reference: bool,
    pub case: Option<Case>,
    pub rolling_window: Option<Rc<RollingWindow>>,
    pub running_total: bool,
    /// Whether results for parts combine to the result for the whole.
    pub additive: bool,
    pub multi_stage: Option<Rc<MultiStageProperties>>,
}

#[derive(Debug)]
pub struct DimensionSymbol {
    pub cube_name: String,
    pub name: String,
    pub sql: Rc<SqlCall>,
    /// Whether the expression is nothing but another member.
    pub is_reference: bool,
    pub case: Option<Case>,
    pub multi_stage: Option<Rc<MultiStageProperties>>,
}

/// A dimension of time at a granularity.
#[derive(Debug)]
pub struct TimeDimensionSymbol {
    pub base_symbol: Rc<MemberSymbol>,
    pub granularity: Option<TimeGranularity>,
    /// The first and the last moment that the query asks for.
    pub date_range: Option<(String, String)>,
}

/// An expression of the query itself.
#[derive(Debug)]
pub struct MemberExpressionSymbol {
    pub cube_name: String,
    pub name: String,
    pub sql: Rc<SqlCall>,
}

#[derive(Debug)]
pub enum MemberSymbol {
    Measure(Rc<MeasureSymbol>),
    Dimension(Rc<DimensionSymbol>),
    TimeDimension(Rc<TimeDimensionSymbol>),
    MemberExpression(Rc<MemberExpressionSymbol>),
}

/// The value behind a shared pointer.
#[verifier::inline]
pub open spec fn inner<T>(shared: Rc<T>) -> T {
    *shared
}

// ---------------------------------------------------------------------------------------------
// Names
// ---------------------------------------------------------------------------------------------

pub open spec fn cube_name(member: MemberSymbol) -> Seq<char>
    decreases member,
{
    match member {
        MemberSymbol::Measure(m) => m.cube_name@,
        MemberSymbol::Dimension(d) => d.cube_name@,
        MemberSymbol::TimeDimension(t) => cube_name(*t.base_symbol),
        MemberSymbol::MemberExpression(e) => e.cube_name@,
    }
}

pub open spec fn short_name(member: MemberSymbol) -> Seq<char>
    decreases member,
{
    match member {
        MemberSymbol::Measure(m) => m.name@,
        MemberSymbol::Dimension(d) => d.name@,
        MemberSymbol::TimeDimension(t) => short_name(*t.base_symbol),
        MemberSymbol::MemberExpression(e) => e.name@,
    }
}

/// The name by which the plan knows a member. A time dimension is known by its base and its
/// granularity, an expression of the query by a prefix.
pub open spec fn full_name(member: MemberSymbol) -> Seq<char>
    decreases member,
{
    match member {
        MemberSymbol::Measure(m) => m.cube_name@ + "."@ + m.name@,
        MemberSymbol::Dimension(d) => d.cube_name@ + "."@ + d.name@,
        MemberSymbol::TimeDimension(t) => match t.granularity {
            Some(g) => full_name(*t.base_symbol) + "_"@ + g.spec_name(),
            None => full_name(*t.base_symbol),
        },
        MemberSymbol::MemberExpression(e) => "expr:"@ + (e.cube_name@ + "."@ + e.name@),
    }
}

/// The full names of members.
pub open spec fn full_names(members: Seq<Rc<MemberSymbol>>) -> Seq<Seq<char>> {
    members.map_values(|m: Rc<MemberSymbol>| full_name(*m))
}

// ---------------------------------------------------------------------------------------------
// What a definition refers to
// ---------------------------------------------------------------------------------------------

pub open spec fn branch_dependencies(branches: SwitchBranches) -> Seq<Rc<MemberSymbol>>
    decreases branches,
{
    match branches {
        SwitchBranches::Empty => Seq::empty(),
        SwitchBranches::Branch(first, rest) => first.sql.dependencies@ + branch_dependencies(*rest),
    }
}

pub open spec fn switch_item_dependencies(switch: CaseSwitchItem) -> Seq<Rc<MemberSymbol>> {
    match switch {
        CaseSwitchItem::Sql(sql) => sql.dependencies@,
        CaseSwitchItem::Member(member) => seq![member],
    }
}

pub open spec fn optional_sql_dependencies(sql: Option<Rc<SqlCall>>) -> Seq<Rc<MemberSymbol>> {
    match sql {
        Some(sql) => sql.dependencies@,
        None => Seq::empty(),
    }
}

pub open spec fn case_dependencies(case: Option<Case>) -> Seq<Rc<MemberSymbol>> {
    match case {
        None => Seq::empty(),
        Some(Case::Case(definition)) => definition.dependencies@,
        Some(Case::CaseSwitch(definition)) => switch_item_dependencies(definition.switch)
            + branch_dependencies(*definition.items) + optional_sql_dependencies(
            definition.else_sql,
        ),
    }
}

/// The members that the definition of a member refers to.
pub open spec fn dependencies(member: MemberSymbol) -> Seq<Rc<MemberSymbol>> {
    match member {
        MemberSymbol::Measure(m) => m.sql.dependencies@ + case_dependencies(m.case),
        MemberSymbol::Dimension(d) => d.sql.dependencies@ + case_dependencies(d.case),
        MemberSymbol::TimeDimension(t) => seq![t.base_symbol],
        MemberSymbol::MemberExpression(e) => e.sql.dependencies@,
    }
}

/// The case expression of a member.
pub open spec fn case_of(member: MemberSymbol) -> Option<Case> {
    match member {
        MemberSymbol::Measure(m) => m.case,
        MemberSymbol::Dimension(d) => d.case,
        _ => None,
    }
}

/// The member that a member is another name for.
pub open spec fn reference(member: MemberSymbol) -> Option<Rc<MemberSymbol>> {
    match member {
        MemberSymbol::Measure(m) => if m.is_reference && m.sql.dependencies@.len() > 0 {
            Some(m.sql.dependencies@[0])
        } else {
            None
        },
        MemberSymbol::Dimension(d) => if d.is_reference && d.sql.dependencies@.len() > 0 {
            Some(d.sql.dependencies@[0])
        } else {
            None
        },
        _ => None,
    }
}

/// The number of definitions below a member, counted once for each way to reach them, and itself.
pub open spec fn height(member: MemberSymbol) -> nat
    decreases member,
{
    match member {
        MemberSymbol::Measure(m) => 1 + heights(m.sql.dependencies@) + case_height(m.case),
        MemberSymbol::Dimension(d) => 1 + heights(d.sql.dependencies@) + case_height(d.case),
        MemberSymbol::TimeDimension(t) => 1 + height(*t.base_symbol),
        MemberSymbol::MemberExpression(e) => 1 + heights(e.sql.dependencies@),
    }
}

pub open spec fn heights(members: Seq<Rc<MemberSymbol>>) -> nat
    decreases members,
{
    if members.len() == 0 {
        0
    } else {
        heights(members.drop_last()) + height(*members.last())
    }
}

pub open spec fn branch_heights(branches: SwitchBranches) -> nat
    decreases branches,
{
    match branches {
        SwitchBranches::Empty => 0,
        SwitchBranches::Branch(first, rest) => heights(first.sql.dependencies@) + branch_heights(
            *rest,
        ),
    }
}

pub open spec fn case_height(case: Option<Case>) -> nat
    decreases case,
{
    match case {
        None => 0,
        Some(Case::Case(definition)) => heights(definition.dependencies@),
        Some(Case::CaseSwitch(definition)) => {
            let switch_height = match definition.switch {
                CaseSwitchItem::Sql(sql) => heights(sql.dependencies@),
                CaseSwitchItem::Member(member) => height(*member),
            };
            let else_height = match definition.else_sql {
                Some(sql) => heights(sql.dependencies@),
                None => 0,
            };
            switch_height + branch_heights(*definition.items) + else_height
        },
    }
}

pub proof fn lemma_heights_add(a: Seq<Rc<MemberSymbol>>, b: Seq<Rc<MemberSymbol>>)
    ensures
        heights(a + b) == heights(a) + heights(b),
    decreases b.len(),
{
    if b.len() == 0 {
        assert(a + b =~= a);
    } else {
        lemma_heights_add(a, b.drop_last());
        assert((a + b).drop_last() =~= a + b.drop_last());
        assert((a + b).last() == b.last());
    }
}

pub proof fn lemma_height_of_element(members: Seq<Rc<MemberSymbol>>, i: int)
    requires
        0 <= i < members.len(),
    ensures
        height(*members[i]) <= heights(members),
    decreases members.len(),
{
    if i < members.len() - 1 {
        lemma_height_of_element(members.drop_last(), i);
        assert(members.drop_last()[i] == members[i]);
    }
}

proof fn lemma_heights_single(member: Rc<MemberSymbol>)
    ensures
        heights(seq![member]) == height(*member),
{
    assert(seq![member].drop_last() =~= Seq::<Rc<MemberSymbol>>::empty());
    assert(seq![member].last() == member);
    assert(heights(seq![member].drop_last()) == 0);
}

pub proof fn lemma_branch_heights(branches: SwitchBranches)
    ensures
        heights(branch_dependencies(branches)) == branch_heights(branches),
    decreases branches,
{
    match branches {
        SwitchBranches::Empty => {},
        SwitchBranches::Branch(first, rest) => {
            lemma_branch_heights(inner(rest));
            lemma_heights_add(first.sql.dependencies@, branch_dependencies(inner(rest)));
        },
    }
}

proof fn lemma_case_height(case: Option<Case>)
    ensures
        heights(case_dependencies(case)) == case_height(case),
{
    if let Some(Case::CaseSwitch(definition)) = case {
        let switch = switch_item_dependencies(inner(definition).switch);
        let branches = branch_dependencies(inner(inner(definition).items));
        let other = optional_sql_dependencies(inner(definition).else_sql);
        if let CaseSwitchItem::Member(member) = inner(definition).switch {
            lemma_heights_single(member);
        }
        lemma_branch_heights(inner(inner(definition).items));
        lemma_heights_add(switch, branches);
        lemma_heights_add(switch + branches, other);
    }
}

/// What a definition refers to lies below it.
pub proof fn lemma_dependencies_lie_below(member: MemberSymbol)
    ensures
        heights(dependencies(member)) < height(member),
        forall|i: int|
            0 <= i < dependencies(member).len() ==> height(*#[trigger] dependencies(member)[i])
                < height(member),
        reference(member) is Some ==> height(*reference(member)->0) < height(member),
{
    match member {
        MemberSymbol::Measure(m) => {
            lemma_case_height(inner(m).case);
            lemma_heights_add(m.sql.dependencies@, case_dependencies(inner(m).case));
            if m.sql.dependencies@.len() > 0 {
                lemma_height_of_element(m.sql.dependencies@, 0);
            }
        },
        MemberSymbol::Dimension(d) => {
            lemma_case_height(inner(d).case);
            lemma_heights_add(d.sql.dependencies@, case_dependencies(inner(d).case));
            if d.sql.dependencies@.len() > 0 {
                lemma_height_of_element(d.sql.dependencies@, 0);
            }
        },
        MemberSymbol::TimeDimension(t) => {
            lemma_heights_single(inner(t).base_symbol);
        },
        MemberSymbol::MemberExpression(e) => {},
    }
    assert forall|i: int| 0 <= i < dependencies(member).len() implies height(
        *#[trigger] dependencies(member)[i],
    ) < height(member) by {
        lemma_height_of_element(dependencies(member), i);
    }
}

/// The member that a chain of references ends in.
pub open spec fn resolved(member: MemberSymbol) -> MemberSymbol
    decreases height(member),
{
    match reference(member) {
        Some(next) => {
            proof {
                lemma_dependencies_lie_below(member);
            }
            resolved(*next)
        },
        None => member,
    }
}

pub proof fn lemma_resolved_height(member: MemberSymbol)
    ensures
        height(resolved(member)) <= height(member),
        resolved(member) != member ==> height(resolved(member)) < height(member),
        reference(resolved(member)) is None,
    decreases height(member),
{
    lemma_dependencies_lie_below(member);
    if let Some(next) = reference(member) {
        lemma_resolved_height(inner(next));
    }
}

// ---------------------------------------------------------------------------------------------
// Multi-stage members
// ---------------------------------------------------------------------------------------------

/// Whether a measure accumulates over time.
pub open spec fn is_cumulative(measure: MeasureSymbol) -> bool {
    measure.rolling_window is Some || measure.running_total
}

/// Whether the definition of a member itself asks for more than one stage.
pub open spec fn is_multi_stage_itself(member: MemberSymbol, ignore_cumulative: bool) -> bool {
    match member {
        MemberSymbol::Measure(m) => m.multi_stage is Some || (!ignore_cumulative && is_cumulative(
            *m,
        )),
        MemberSymbol::Dimension(d) => d.multi_stage is Some,
        _ => false,
    }
}

/// Whether a member, or one that its definition leads to, asks for more than one stage.
pub open spec fn has_multi_stage(member: MemberSymbol, ignore_cumulative: bool) -> bool
    decreases height(member),
{
    proof {
        lemma_dependencies_lie_below(member);
    }
    is_multi_stage_itself(member, ignore_cumulative) || exists|i: int|
        0 <= i < dependencies(member).len() && has_multi_stage(
            *#[trigger] dependencies(member)[i],
            ignore_cumulative,
        )
}

/// The multi-stage properties of a member.
pub open spec fn multi_stage_of(member: MemberSymbol) -> Option<Rc<MultiStageProperties>> {
    match member {
        MemberSymbol::Measure(m) => m.multi_stage,
        MemberSymbol::Dimension(d) => d.multi_stage,
        _ => None,
    }
}

/// A measure without its window: what each point of the window is computed from.
pub open spec fn unrolled(measure: MeasureSymbol) -> MeasureSymbol {
    MeasureSymbol { rolling_window: None, running_total: false, ..measure }
}

/// A time dimension at another granularity.
pub open spec fn with_granularity(
    dimension: TimeDimensionSymbol,
    granularity: Option<Granularity>,
) -> TimeDimensionSymbol {
    TimeDimensionSymbol {
        granularity: match granularity {
            Some(g) => Some(TimeGranularity::Predefined(g)),
            None => None,
        },
        ..dimension
    }
}

pub open spec fn resolved_granularity(dimension: TimeDimensionSymbol) -> Option<Granularity> {
    match dimension.granularity {
        Some(g) => Some(g.spec_resolved()),
        None => None,
    }
}

pub open spec fn not_a_time_dimension(member: MemberSymbol) -> CubeErrorView {
    internal_error(full_name(member) + " is not a time dimension"@)
}

// ---------------------------------------------------------------------------------------------
// Reading symbols
// ---------------------------------------------------------------------------------------------

impl Clone for MeasureTimeShifts {
    fn clone(&self) -> (copy: Self)
        ensures
            copy == *self,
    {
        match self {
            MeasureTimeShifts::Common(interval) => MeasureTimeShifts::Common(interval.clone()),
            MeasureTimeShifts::Named(name) => MeasureTimeShifts::Named(name.clone()),
            MeasureTimeShifts::Dimensions(shifts) => MeasureTimeShifts::Dimensions(shifts.clone()),
        }
    }
}

impl Clone for Case {
    fn clone(&self) -> (copy: Self)
        ensures
            copy == *self,
    {
        match self {
            Case::Case(definition) => Case::Case(definition.clone()),
            Case::CaseSwitch(definition) => Case::CaseSwitch(definition.clone()),
        }
    }
}

impl Clone for CaseSwitchItem {
    fn clone(&self) -> (copy: Self)
        ensures
            copy == *self,
    {
        match self {
            CaseSwitchItem::Sql(sql) => CaseSwitchItem::Sql(sql.clone()),
            CaseSwitchItem::Member(member) => CaseSwitchItem::Member(member.clone()),
        }
    }
}

/// Adds shared values to the end of a list.
pub fn append_shared<T>(list: &mut Vec<Rc<T>>, more: &Vec<Rc<T>>)
    ensures
        final(list)@ == old(list)@ + more@,
{
    let mut i: usize = 0;
    while i < more.len()
        invariant
            i <= more@.len(),
            list@ == old(list)@ + more@.take(i as int),
        decreases more@.len() - i,
    {
        list.push(more[i].clone());
        assert(more@.take(i + 1) =~= more@.take(i as int).push(more@[i as int]));
        i += 1;
    }
    assert(more@.take(i as int) =~= more@);
}

impl SwitchBranches {
    /// The branches of a switch from a list.
    pub fn from_list(mut branches: Vec<Rc<CaseSwitchBranch>>) -> (result: Rc<SwitchBranches>)
        ensures
            branch_list(*result) == branches@,
    {
        let ghost all = branches@;
        let mut result: Rc<SwitchBranches> = Rc::new(SwitchBranches::Empty);
        assert(all.skip(branches@.len() as int) =~= branch_list(*result));
        loop
            invariant
                branches@.len() <= all.len(),
                branches@ == all.take(branches@.len() as int),
                branch_list(*result) == all.skip(branches@.len() as int),
            ensures
                branch_list(*result) == all,
            decreases branches@.len(),
        {
            let ghost before = branches@;
            match branches.pop() {
                Some(last) => {
                    let ghost rest = inner(result);
                    result = Rc::new(SwitchBranches::Branch(last, result));
                    assert(last == all[before.len() - 1]);
                    assert(branches@ =~= all.take(branches@.len() as int));
                    assert(all.skip(branches@.len() as int) =~= seq![last] + branch_list(rest));
                },
                None => {
                    assert(all.skip(0) =~= all);
                    break;
                },
            }
        }
        result
    }

    fn append_dependencies(&self, list: &mut Vec<Rc<MemberSymbol>>)
        ensures
            final(list)@ == old(list)@ + branch_dependencies(*self),
        decreases self,
    {
        match self {
            SwitchBranches::Empty => {
                assert(old(list)@ + branch_dependencies(*self) =~= old(list)@);
            },
            SwitchBranches::Branch(first, rest) => {
                append_shared(list, &first.sql.dependencies);
                rest.append_dependencies(list);
                assert(list@ =~= old(list)@ + branch_dependencies(*self));
            },
        }
    }
}

/// The branches of a switch as a list.
pub open spec fn branch_list(branches: SwitchBranches) -> Seq<Rc<CaseSwitchBranch>>
    decreases branches,
{
    match branches {
        SwitchBranches::Empty => Seq::empty(),
        SwitchBranches::Branch(first, rest) => seq![first] + branch_list(*rest),
    }
}

impl Case {
    /// The dimension that the case switches on.
    pub fn case_switch_dimension(&self) -> (dimension: Option<Rc<MemberSymbol>>)
        ensures
            dimension == case_switch_dimension(Some(*self)),
    {
        match self {
            Case::Case(_) => None,
            Case::CaseSwitch(definition) => match &definition.switch {
                CaseSwitchItem::Member(member) => Some(member.clone()),
                CaseSwitchItem::Sql(_) => None,
            },
        }
    }

    fn append_dependencies(&self, list: &mut Vec<Rc<MemberSymbol>>)
        ensures
            final(list)@ == old(list)@ + case_dependencies(Some(*self)),
    {
        match self {
            Case::Case(definition) => append_shared(list, &definition.dependencies),
            Case::CaseSwitch(definition) => {
                match &definition.switch {
                    CaseSwitchItem::Sql(sql) => append_shared(list, &sql.dependencies),
                    CaseSwitchItem::Member(member) => list.push(member.clone()),
                }
                definition.items.append_dependencies(list);
                if let Some(sql) = &definition.else_sql {
                    append_shared(list, &sql.dependencies);
                }
                assert(list@ =~= old(list)@ + case_dependencies(Some(*self)));
            },
        }
    }
}

/// The dimension that a case switches on.
pub open spec fn case_switch_dimension(case: Option<Case>) -> Option<Rc<MemberSymbol>> {
    match case {
        Some(Case::CaseSwitch(definition)) => match definition.switch {
            CaseSwitchItem::Member(member) => Some(member),
            CaseSwitchItem::Sql(_) => None,
        },
        _ => None,
    }
}

impl MeasureSymbol {
    pub fn is_cumulative(&self) -> (result: bool)
        ensures
            result == is_cumulative(*self),
    {
        self.rolling_window.is_some() || self.running_total
    }

    /// The measure without its window.
    pub fn new_unrolling(&self) -> (result: Rc<MeasureSymbol>)
        ensures
            *result == unrolled(*self),
    {
        Rc::new(
            MeasureSymbol {
                cube_name: self.cube_name.clone(),
                name: self.name.clone(),
                kind: self.kind,
                sql: self.sql.clone(),
                is_reference: self.is_reference,
                case: match &self.case {
                    Some(case) => Some(case.clone()),
                    None => None,
                },
                rolling_window: None,
                running_total: false,
                additive: self.additive,
                multi_stage: match &self.multi_stage {
                    Some(multi_stage) => Some(multi_stage.clone()),
                    None => None,
                },
            },
        )
    }
}

impl TimeDimensionSymbol {
    pub fn resolved_granularity(&self) -> (result: Option<Granularity>)
        ensures
            result == resolved_granularity(*self),
    {
        match &self.granularity {
            Some(g) => Some(g.resolved()),
            None => None,
        }
    }

    /// The same dimension at another granularity.
    pub fn change_granularity(&self, granularity: Option<Granularity>) -> (result: Rc<
        TimeDimensionSymbol,
    >)
        ensures
            *result == with_granularity(*self, granularity),
    {
        Rc::new(
            TimeDimensionSymbol {
                base_symbol: self.base_symbol.clone(),
                granularity: match granularity {
                    Some(g) => Some(TimeGranularity::Predefined(g)),
                    None => None,
                },
                date_range: match &self.date_range {
                    Some((from, to)) => Some((from.clone(), to.clone())),
                    None => None,
                },
            },
        )
    }
}

impl MemberSymbol {
    pub fn cube_name(&self) -> (name: String)
        ensures
            name@ == cube_name(*self),
        decreases self,
    {
        match self {
            MemberSymbol::Measure(m) => m.cube_name.clone(),
            MemberSymbol::Dimension(d) => d.cube_name.clone(),
            MemberSymbol::TimeDimension(t) => t.base_symbol.cube_name(),
            MemberSymbol::MemberExpression(e) => e.cube_name.clone(),
        }
    }

    pub fn name(&self) -> (name: String)
        ensures
            name@ == short_name(*self),
        decreases self,
    {
        match self {
            MemberSymbol::Measure(m) => m.name.clone(),
            MemberSymbol::Dimension(d) => d.name.clone(),
            MemberSymbol::TimeDimension(t) => t.base_symbol.name(),
            MemberSymbol::MemberExpression(e) => e.name.clone(),
        }
    }

    pub fn full_name(&self) -> (name: String)
        ensures
            name@ == full_name(*self),
        decreases self,
    {
        match self {
            MemberSymbol::Measure(m) => dotted(&m.cube_name, &m.name),
            MemberSymbol::Dimension(d) => dotted(&d.cube_name, &d.name),
            MemberSymbol::TimeDimension(t) => match &t.granularity {
                Some(g) => t.base_symbol.full_name().concat("_").concat(g.name()),
                None => t.base_symbol.full_name(),
            },
            MemberSymbol::MemberExpression(e) => {
                "expr:".to_string().concat(dotted(&e.cube_name, &e.name).as_str())
            },
        }
    }

    pub fn is_measure(&self) -> (result: bool)
        ensures
            result == (*self is Measure),
    {
        match self {
            MemberSymbol::Measure(_) => true,
            _ => false,
        }
    }

    pub fn is_dimension(&self) -> (result: bool)
        ensures
            result == (*self is Dimension),
    {
        match self {
            MemberSymbol::Dimension(_) => true,
            _ => false,
        }
    }

    /// The member as a time dimension.
    pub fn as_time_dimension(&self) -> (result: Result<Rc<TimeDimensionSymbol>, CubeError>)
        ensures
            match (result, *self) {
                (Ok(dimension), MemberSymbol::TimeDimension(t)) => dimension == t,
                (Err(error), _) => !(*self is TimeDimension) && error@ == not_a_time_dimension(
                    *self,
                ),
                _ => false,
            },
    {
        match self {
            MemberSymbol::TimeDimension(t) => Ok(t.clone()),
            _ => Err(
                CubeError::internal(self.full_name().concat(" is not a time dimension")),
            ),
        }
    }

    pub fn case(&self) -> (result: Option<&Case>)
        ensures
            match result {
                Some(case) => case_of(*self) == Some(*case),
                None => case_of(*self) is None,
            },
    {
        match self {
            MemberSymbol::Measure(m) => match &m.case {
                Some(case) => Some(case),
                None => None,
            },
            MemberSymbol::Dimension(d) => match &d.case {
                Some(case) => Some(case),
                None => None,
            },
            _ => None,
        }
    }

    /// The members that the definition refers to.
    pub fn get_dependencies(&self) -> (list: Vec<Rc<MemberSymbol>>)
        ensures
            list@ == dependencies(*self),
    {
        let mut list: Vec<Rc<MemberSymbol>> = Vec::new();
        match self {
            MemberSymbol::Measure(m) => {
                append_shared(&mut list, &m.sql.dependencies);
                if let Some(case) = &m.case {
                    case.append_dependencies(&mut list);
                }
            },
            MemberSymbol::Dimension(d) => {
                append_shared(&mut list, &d.sql.dependencies);
                if let Some(case) = &d.case {
                    case.append_dependencies(&mut list);
                }
            },
            MemberSymbol::TimeDimension(t) => {
                list.push(t.base_symbol.clone());
            },
            MemberSymbol::MemberExpression(e) => {
                append_shared(&mut list, &e.sql.dependencies);
            },
        }
        assert(list@ =~= dependencies(*self));
        list
    }

    /// The member that this one is another name for.
    pub fn reference_member(&self) -> (result: Option<Rc<MemberSymbol>>)
        ensures
            result == reference(*self),
    {
        match self {
            MemberSymbol::Measure(m) => if m.is_reference && m.sql.dependencies.len() > 0 {
                Some(m.sql.dependencies[0].clone())
            } else {
                None
            },
            MemberSymbol::Dimension(d) => if d.is_reference && d.sql.dependencies.len() > 0 {
                Some(d.sql.dependencies[0].clone())
            } else {
                None
            },
            _ => None,
        }
    }
}

/// The member that a chain of references ends in.
pub fn resolve_reference_chain(member: &Rc<MemberSymbol>) -> (result: Rc<MemberSymbol>)
    ensures
        *result == resolved(**member),
{
    let mut current: Rc<MemberSymbol> = member.clone();
    loop
        invariant
            resolved(*current) == resolved(**member),
        ensures
            *current == resolved(**member),
        decreases height(*current),
    {
        proof {
            lemma_dependencies_lie_below(inner(current));
        }
        match current.reference_member() {
            Some(next) => {
                current = next;
            },
            None => {
                break;
            },
        }
    }
    current
}

/// Whether a member, or one that its definition leads to, asks for more than one stage.
pub fn has_multi_stage_members(member: &Rc<MemberSymbol>, ignore_cumulative: bool) -> (result: bool)
    ensures
        result == has_multi_stage(**member, ignore_cumulative),
    decreases height(**member),
{
    let itself: bool = match &**member {
        MemberSymbol::Measure(m) => m.multi_stage.is_some() || (!ignore_cumulative
            && m.is_cumulative()),
        MemberSymbol::Dimension(d) => d.multi_stage.is_some(),
        _ => false,
    };
    if itself {
        return true;
    }
    let list: Vec<Rc<MemberSymbol>> = member.get_dependencies();
    let mut i: usize = 0;
    while i < list.len()
        invariant
            i <= list@.len(),
            list@ == dependencies(**member),
            !is_multi_stage_itself(**member, ignore_cumulative),
            forall|j: int|
                0 <= j < i ==> !has_multi_stage(
                    *#[trigger] dependencies(**member)[j],
                    ignore_cumulative,
                ),
        decreases list@.len() - i,
    {
        proof {
            lemma_dependencies_lie_below(inner(*member));
            assert(height(*dependencies(**member)[i as int]) < height(**member));
        }
        if has_multi_stage_members(&list[i], ignore_cumulative) {
            assert(has_multi_stage(*dependencies(**member)[i as int], ignore_cumulative));
            return true;
        }
        i += 1;
    }
    false
}

} // verus!
