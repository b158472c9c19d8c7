//! The stages of a plan.

use crate::query_properties::copy_members;
use crate::query_properties::QueryProperties;
use crate::query_properties::QueryPropertiesView;
use crate::query_properties::QueryTools;
use crate::filter::optional_text;
use crate::symbol::full_name;
use crate::symbol::MeasureTimeShifts;
use crate::symbol::MemberSymbol;
use std::rc::Rc;
use vstd::prelude::*;

verus! {

// ---------------------------------------------------------------------------------------------
// What a stage computes
// ---------------------------------------------------------------------------------------------

/// A series of points in time.
pub struct TimeSeriesDescription {
    pub time_dimension: Rc<MemberSymbol>,
    /// The stage that finds the first and the last point, where the query does not give them.
    pub date_range_cte: Option<String>,
}

/// What a stage computes that reads no other stage.
pub enum MultiStageLeafMemberType {
    /// The member itself, from the data.
    Measure,
    TimeSeries(Rc<TimeSeriesDescription>),
    /// The first and the last moment of a time dimension.
    TimeSeriesGetRange(Rc<MemberSymbol>),
}

/// The extent of a window.
pub enum RollingWindowType {
    Regular { trailing: Option<String>, leading: Option<String>, offset: String },
    ToDate { granularity: String },
    RunningTotal,
}

/// How a stage rolls its input over time.
pub struct RollingWindowDescription {
    pub time_dimension: Rc<MemberSymbol>,
    /// The time dimension of the input.
    pub base_time_dimension: Rc<MemberSymbol>,
    pub rolling_window: RollingWindowType,
}

/// How a stage computes its member from the stages it reads.
pub enum MultiStageInodeMemberType {
    Rank,
    Aggregate,
    Calculate,
    Dimension,
    RollingWindow(RollingWindowDescription),
}

/// What a stage computes from the stages it reads.
pub struct MultiStageInodeMember {
    pub inode_type: MultiStageInodeMemberType,
    pub reduce_by: Vec<Rc<MemberSymbol>>,
    pub add_group_by: Vec<Rc<MemberSymbol>>,
    pub group_by: Option<Vec<Rc<MemberSymbol>>>,
    pub time_shift: Option<MeasureTimeShifts>,
}

pub enum MultiStageMemberType {
    Inode(MultiStageInodeMember),
    Leaf(MultiStageLeafMemberType),
}

/// What a stage computes.
pub struct MultiStageMember {
    pub member_type: MultiStageMemberType,
    pub member_symbol: Rc<MemberSymbol>,
    pub is_ungrupped: bool,
    /// Whether the result is aggregated further on.
    pub has_aggregates_on_top: bool,
    /// Whether the stage only brings the dimensions, without the member.
    pub is_without_member_leaf: bool,
}

/// A stage: what it computes, for which rows and groups, from which other stages, and its name.
pub struct MultiStageQueryDescription {
    pub member: MultiStageMember,
    pub state: Rc<QueryProperties>,
    pub input: Vec<Rc<MultiStageQueryDescription>>,
    pub alias: String,
}

/// The columns of a stage.
pub struct LogicalSchema {
    pub time_dimensions: Vec<Rc<MemberSymbol>>,
    pub dimensions: Vec<Rc<MemberSymbol>>,
    pub measures: Vec<Rc<MemberSymbol>>,
}

// ---------------------------------------------------------------------------------------------
// Content
// ---------------------------------------------------------------------------------------------

/// The content of a [`MultiStageLeafMemberType`].
pub enum LeafView {
    Measure,
    TimeSeries { time_dimension: Rc<MemberSymbol>, date_range_cte: Option<Seq<char>> },
    TimeSeriesGetRange(Rc<MemberSymbol>),
}

/// The content of a [`RollingWindowType`].
pub enum RollingWindowTypeView {
    Regular { trailing: Option<Seq<char>>, leading: Option<Seq<char>>, offset: Seq<char> },
    ToDate { granularity: Seq<char> },
    RunningTotal,
}

/// The content of a [`RollingWindowDescription`].
pub struct RollingWindowView {
    pub time_dimension: Rc<MemberSymbol>,
    pub base_time_dimension: Rc<MemberSymbol>,
    pub rolling_window: RollingWindowTypeView,
}

/// The content of a [`MultiStageInodeMemberType`].
pub enum InodeTypeView {
    Rank,
    Aggregate,
    Calculate,
    Dimension,
    RollingWindow(RollingWindowView),
}

/// The content of a [`MultiStageInodeMember`].
#[verifier::ext_equal]
pub struct InodeView {
    pub inode_type: InodeTypeView,
    pub reduce_by: Seq<Rc<MemberSymbol>>,
    pub add_group_by: Seq<Rc<MemberSymbol>>,
    pub group_by: Option<Seq<Rc<MemberSymbol>>>,
    pub time_shift: Option<MeasureTimeShifts>,
}

/// The content of a [`MultiStageMemberType`].
pub enum MemberTypeView {
    Inode(InodeView),
    Leaf(LeafView),
}

/// The content of a [`MultiStageMember`].
pub struct StageMemberView {
    pub member_type: MemberTypeView,
    pub member_symbol: Rc<MemberSymbol>,
    pub is_ungrupped: bool,
    pub has_aggregates_on_top: bool,
    pub is_without_member_leaf: bool,
}

/// The content of a [`MultiStageQueryDescription`].
pub struct DescriptionView {
    pub member: StageMemberView,
    pub state: QueryPropertiesView,
    pub input: Seq<DescriptionView>,
    pub alias: Seq<char>,
}

/// The content of a [`LogicalSchema`].
#[verifier::ext_equal]
pub struct LogicalSchemaView {
    pub time_dimensions: Seq<Rc<MemberSymbol>>,
    pub dimensions: Seq<Rc<MemberSymbol>>,
    pub measures: Seq<Rc<MemberSymbol>>,
}

impl View for MultiStageLeafMemberType {
    type V = LeafView;

    open spec fn view(&self) -> LeafView {
        match self {
            MultiStageLeafMemberType::Measure => LeafView::Measure,
            MultiStageLeafMemberType::TimeSeries(description) => LeafView::TimeSeries {
                time_dimension: description.time_dimension,
                date_range_cte: optional_text(description.date_range_cte),
            },
            MultiStageLeafMemberType::TimeSeriesGetRange(dimension) => {
                LeafView::TimeSeriesGetRange(*dimension)
            },
        }
    }
}

impl View for RollingWindowType {
    type V = RollingWindowTypeView;

    open spec fn view(&self) -> RollingWindowTypeView {
        match self {
            RollingWindowType::Regular { trailing, leading, offset } => {
                RollingWindowTypeView::Regular {
                    trailing: optional_text(*trailing),
                    leading: optional_text(*leading),
                    offset: offset@,
                }
            },
            RollingWindowType::ToDate { granularity } => RollingWindowTypeView::ToDate {
                granularity: granularity@,
            },
            RollingWindowType::RunningTotal => RollingWindowTypeView::RunningTotal,
        }
    }
}

impl View for RollingWindowDescription {
    type V = RollingWindowView;

    open spec fn view(&self) -> RollingWindowView {
        RollingWindowView {
            time_dimension: self.time_dimension,
            base_time_dimension: self.base_time_dimension,
            rolling_window: self.rolling_window@,
        }
    }
}

impl View for MultiStageInodeMemberType {
    type V = InodeTypeView;

    open spec fn view(&self) -> InodeTypeView {
        match self {
            MultiStageInodeMemberType::Rank => InodeTypeView::Rank,
            MultiStageInodeMemberType::Aggregate => InodeTypeView::Aggregate,
            MultiStageInodeMemberType::Calculate => InodeTypeView::Calculate,
            MultiStageInodeMemberType::Dimension => InodeTypeView::Dimension,
            MultiStageInodeMemberType::RollingWindow(window) => InodeTypeView::RollingWindow(
                window@,
            ),
        }
    }
}

pub open spec fn optional_list(list: Option<Vec<Rc<MemberSymbol>>>) -> Option<
    Seq<Rc<MemberSymbol>>,
> {
    match list {
        Some(list) => Some(list@),
        None => None,
    }
}

impl View for MultiStageInodeMember {
    type V = InodeView;

    open spec fn view(&self) -> InodeView {
        InodeView {
            inode_type: self.inode_type@,
            reduce_by: self.reduce_by@,
            add_group_by: self.add_group_by@,
            group_by: optional_list(self.group_by),
            time_shift: self.time_shift,
        }
    }
}

impl View for MultiStageMember {
    type V = StageMemberView;

    open spec fn view(&self) -> StageMemberView {
        StageMemberView {
            member_type: match self.member_type {
                MultiStageMemberType::Inode(inode) => MemberTypeView::Inode(inode@),
                MultiStageMemberType::Leaf(leaf) => MemberTypeView::Leaf(leaf@),
            },
            member_symbol: self.member_symbol,
            is_ungrupped: self.is_ungrupped,
            has_aggregates_on_top: self.has_aggregates_on_top,
            is_without_member_leaf: self.is_without_member_leaf,
        }
    }
}

pub open spec fn description_view(description: MultiStageQueryDescription) -> DescriptionView
    decreases description,
{
    DescriptionView {
        member: description.member@,
        state: description.state@,
        input: Seq::new(
            description.input@.len(),
            |i: int|
                if 0 <= i < description.input@.len() {
                    description_view(*description.input@[i])
                } else {
                    arbitrary()
                },
        ),
        alias: description.alias@,
    }
}

impl View for MultiStageQueryDescription {
    type V = DescriptionView;

    open spec fn view(&self) -> DescriptionView {
        description_view(*self)
    }
}

/// The content of descriptions.
pub open spec fn description_views(descriptions: Seq<Rc<MultiStageQueryDescription>>) -> Seq<
    DescriptionView,
> {
    descriptions.map_values(|d: Rc<MultiStageQueryDescription>| d@)
}

impl View for LogicalSchema {
    type V = LogicalSchemaView;

    open spec fn view(&self) -> LogicalSchemaView {
        LogicalSchemaView {
            time_dimensions: self.time_dimensions@,
            dimensions: self.dimensions@,
            measures: self.measures@,
        }
    }
}

// ---------------------------------------------------------------------------------------------
// Reading descriptions
// ---------------------------------------------------------------------------------------------

impl DescriptionView {
    /// Whether the stage computes a dimension.
    pub open spec fn is_multi_stage_dimension(self) -> bool {
        self.member.member_type matches MemberTypeView::Inode(inode)
            && inode.inode_type is Dimension
    }

    /// Whether the stage computes the member of this name for this state.
    pub open spec fn is_match(self, member: Seq<char>, state: QueryPropertiesView) -> bool {
        full_name(*self.member.member_symbol) == member && self.state.key() == state.key()
    }

    /// The columns of the stage: those that its rows are grouped by, and its measure.
    pub open spec fn schema(self) -> LogicalSchemaView {
        LogicalSchemaView {
            time_dimensions: self.state.time_dimensions,
            dimensions: self.state.dimensions,
            measures: if *self.member.member_symbol is Measure {
                seq![self.member.member_symbol]
            } else {
                Seq::empty()
            },
        }
    }
}

impl MultiStageMember {
    pub fn new(
        member_type: MultiStageMemberType,
        member_symbol: Rc<MemberSymbol>,
        is_ungrupped: bool,
        has_aggregates_on_top: bool,
    ) -> (member: Self)
        ensures
            member == (MultiStageMember {
                member_type,
                member_symbol,
                is_ungrupped,
                has_aggregates_on_top,
                is_without_member_leaf: false,
            }),
    {
        MultiStageMember {
            member_type,
            member_symbol,
            is_ungrupped,
            has_aggregates_on_top,
            is_without_member_leaf: false,
        }
    }

    pub fn new_without_member_leaf(
        member_type: MultiStageMemberType,
        member_symbol: Rc<MemberSymbol>,
        is_ungrupped: bool,
        has_aggregates_on_top: bool,
    ) -> (member: Self)
        ensures
            member == (MultiStageMember {
                member_type,
                member_symbol,
                is_ungrupped,
                has_aggregates_on_top,
                is_without_member_leaf: true,
            }),
    {
        MultiStageMember {
            member_type,
            member_symbol,
            is_ungrupped,
            has_aggregates_on_top,
            is_without_member_leaf: true,
        }
    }
}

impl MultiStageQueryDescription {
    pub fn new(
        member: MultiStageMember,
        state: Rc<QueryProperties>,
        input: Vec<Rc<MultiStageQueryDescription>>,
        alias: String,
    ) -> (description: Rc<Self>)
        ensures
            description@ == (DescriptionView {
                member: member@,
                state: state@,
                input: description_views(input@),
                alias: alias@,
            }),
    {
        let description: Rc<MultiStageQueryDescription> = Rc::new(
            MultiStageQueryDescription { member, state, input, alias },
        );
        assert(description@.input =~= description_views(input@));
        description
    }

    /// Whether the stage computes a dimension.
    pub fn is_multi_stage_dimension(&self) -> (result: bool)
        ensures
            result == self@.is_multi_stage_dimension(),
    {
        match &self.member.member_type {
            MultiStageMemberType::Inode(inode) => match &inode.inode_type {
                MultiStageInodeMemberType::Dimension => true,
                _ => false,
            },
            MultiStageMemberType::Leaf(_) => false,
        }
    }

    /// Whether the stage computes the member for the state.
    pub fn is_match_member_and_state(&self, member: &MemberSymbol, state: &QueryProperties) -> (result:
        bool)
        ensures
            result == self@.is_match(full_name(*member), state@),
    {
        self.member.member_symbol.full_name() == member.full_name() && self.state.same_state(state)
    }

    /// The columns of the stage.
    pub fn schema(&self) -> (schema: LogicalSchema)
        ensures
            schema@ == self@.schema(),
    {
        let mut measures: Vec<Rc<MemberSymbol>> = Vec::new();
        if self.member.member_symbol.is_measure() {
            measures.push(self.member.member_symbol.clone());
        }
        let schema: LogicalSchema = LogicalSchema {
            time_dimensions: copy_members(&self.state.time_dimensions),
            dimensions: copy_members(&self.state.dimensions),
            measures,
        };
        assert(schema@.measures =~= self@.schema().measures);
        schema
    }
}

/// The request to turn one stage into a query.
pub struct MultiStageMemberQueryPlanner {
    pub query_tools: Rc<QueryTools>,
    pub query_properties: Rc<QueryProperties>,
    pub description: Rc<MultiStageQueryDescription>,
}

/// The content of a [`MultiStageMemberQueryPlanner`].
pub struct MemberQueryPlannerView {
    pub query_tools: Rc<QueryTools>,
    pub query: QueryPropertiesView,
    pub description: DescriptionView,
}

impl View for MultiStageMemberQueryPlanner {
    type V = MemberQueryPlannerView;

    open spec fn view(&self) -> MemberQueryPlannerView {
        MemberQueryPlannerView {
            query_tools: self.query_tools,
            query: self.query_properties@,
            description: self.description@,
        }
    }
}

impl MultiStageMemberQueryPlanner {
    pub fn new(
        query_tools: Rc<QueryTools>,
        query_properties: Rc<QueryProperties>,
        description: Rc<MultiStageQueryDescription>,
    ) -> (planner: Self)
        ensures
            planner == (MultiStageMemberQueryPlanner { query_tools, query_properties, description }),
    {
        MultiStageMemberQueryPlanner { query_tools, query_properties, description }
    }
}

} // verus!
