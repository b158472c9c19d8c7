use multi_stage_planner::cte::CteState;
use multi_stage_planner::error::CubeError;
use multi_stage_planner::error::CubeErrorCauseType;
use multi_stage_planner::filter::BaseFilter;
use multi_stage_planner::filter::BaseSegment;
use multi_stage_planner::filter::FilterItem;
use multi_stage_planner::filter::FilterOperator;
use multi_stage_planner::filter::FilterType;
use multi_stage_planner::planner::MultiStageQueryPlanner;
use multi_stage_planner::query_properties::QueryProperties;
use multi_stage_planner::query_properties::QueryTools;
use multi_stage_planner::query_properties::ResolvedDimensions;
use multi_stage_planner::stage::MultiStageInodeMemberType;
use multi_stage_planner::stage::MultiStageLeafMemberType;
use multi_stage_planner::stage::MultiStageMemberType;
use multi_stage_planner::stage::MultiStageQueryDescription;
use multi_stage_planner::symbol::Case;
use multi_stage_planner::symbol::CaseSwitchBranch;
use multi_stage_planner::symbol::CaseSwitchDefinition;
use multi_stage_planner::symbol::CaseSwitchItem;
use multi_stage_planner::symbol::DimensionSymbol;
use multi_stage_planner::symbol::MeasureKind;
use multi_stage_planner::symbol::MeasureSymbol;
use multi_stage_planner::symbol::MeasureTimeShifts;
use multi_stage_planner::symbol::MemberExpressionSymbol;
use multi_stage_planner::symbol::MemberSymbol;
use multi_stage_planner::symbol::MultiStageFilter;
use multi_stage_planner::symbol::MultiStageFilterMode;
use multi_stage_planner::symbol::MultiStageProperties;
use multi_stage_planner::symbol::SqlCall;
use multi_stage_planner::symbol::SwitchBranches;
use std::rc::Rc;

type Member = Rc<MemberSymbol>;
type Stage = Rc<MultiStageQueryDescription>;

fn sql(dependencies: Vec<Member>) -> Rc<SqlCall> {
    Rc::new(SqlCall { dependencies })
}

fn bare_dimension(name: &str) -> DimensionSymbol {
    DimensionSymbol {
        cube_name: "orders".to_string(),
        name: name.to_string(),
        sql: sql(vec![]),
        is_reference: false,
        case: None,
        multi_stage: None,
    }
}

fn dimension(name: &str) -> Member {
    Rc::new(MemberSymbol::Dimension(Rc::new(bare_dimension(name))))
}

fn multi_stage_dimension(name: &str, dependencies: Vec<Member>, add_group_by: Vec<Member>) -> Member {
    let mut symbol = bare_dimension(name);
    symbol.sql = sql(dependencies);
    let mut properties = no_properties();
    properties.add_group_by = Some(Rc::new(add_group_by));
    symbol.multi_stage = Some(Rc::new(properties));
    Rc::new(MemberSymbol::Dimension(Rc::new(symbol)))
}

fn bare_measure(name: &str, kind: MeasureKind, dependencies: Vec<Member>) -> MeasureSymbol {
    MeasureSymbol {
        cube_name: "orders".to_string(),
        name: name.to_string(),
        kind,
        sql: sql(dependencies),
        is_reference: false,
        case: None,
        rolling_window: None,
        running_total: false,
        additive: true,
        multi_stage: None,
    }
}

fn measure_of(symbol: MeasureSymbol) -> Member {
    Rc::new(MemberSymbol::Measure(Rc::new(symbol)))
}

fn measure(name: &str) -> Member {
    measure_of(bare_measure(name, MeasureKind::Aggregated, vec![]))
}

fn no_properties() -> MultiStageProperties {
    MultiStageProperties {
        reduce_by: None,
        add_group_by: None,
        group_by: None,
        time_shift: None,
        filter: None,
    }
}

fn multi_stage(name: &str, kind: MeasureKind, dependencies: Vec<Member>) -> Member {
    with_properties(name, kind, dependencies, no_properties())
}

fn with_properties(
    name: &str,
    kind: MeasureKind,
    dependencies: Vec<Member>,
    properties: MultiStageProperties,
) -> Member {
    let mut symbol = bare_measure(name, kind, dependencies);
    symbol.multi_stage = Some(Rc::new(properties));
    measure_of(symbol)
}

fn no_directive(mode: MultiStageFilterMode) -> MultiStageFilter {
    MultiStageFilter {
        mode,
        exclude: None,
        keep_only: None,
        include_dimension: vec![],
        include_time_dimension: vec![],
        include_measure: vec![],
    }
}

fn with_directive(name: &str, dependencies: Vec<Member>, filter: MultiStageFilter) -> Member {
    let mut properties = no_properties();
    properties.filter = Some(Rc::new(filter));
    with_properties(name, MeasureKind::Aggregated, dependencies, properties)
}

fn equals(member: &Member, values: &[&str]) -> FilterItem {
    FilterItem::Item(BaseFilter::new(
        member.clone(),
        FilterType::Dimension,
        FilterOperator::Equal,
        values.iter().map(|v| Some(v.to_string())).collect(),
    ))
}

fn segment(name: &str) -> FilterItem {
    FilterItem::Segment(Rc::new(BaseSegment { full_name: name.to_string() }))
}

fn tools() -> Rc<QueryTools> {
    Rc::new(QueryTools { timezone: "UTC".to_string() })
}

fn query(measures: Vec<Member>, dimensions: Vec<Member>) -> QueryProperties {
    QueryProperties {
        query_tools: tools(),
        measures,
        dimensions,
        time_dimensions: vec![],
        dimensions_filters: vec![],
        time_dimensions_filters: vec![],
        measures_filters: vec![],
        segments: vec![],
        time_shifts: vec![],
        order_by: vec![],
        ungrouped: false,
    }
}

fn planner(properties: QueryProperties) -> MultiStageQueryPlanner {
    match MultiStageQueryPlanner::try_new(tools(), Rc::new(properties)) {
        Ok(planner) => planner,
        Err(error) => panic!("{}", error.message),
    }
}

fn plan(properties: QueryProperties) -> (Vec<Stage>, Vec<String>) {
    let mut cte_state: CteState<Stage> = CteState::new();
    planner(properties)
        .plan_queries(&mut cte_state, |request| Ok(request.description.clone()))
        .unwrap();
    let names = cte_state.subquery_refs().iter().map(|r| r.name.clone()).collect();
    (cte_state.members().clone(), names)
}

fn aliases(stages: &[Stage]) -> Vec<String> {
    stages.iter().map(|s| s.alias.clone()).collect()
}

fn input_aliases(stage: &Stage) -> Vec<String> {
    aliases(&stage.input)
}

fn names(members: &[Member]) -> Vec<String> {
    members.iter().map(|m| m.full_name()).collect()
}

fn describe(filter: &FilterItem) -> String {
    match filter {
        FilterItem::Item(item) => format!(
            "{} {:?} {:?}",
            item.member.full_name(),
            item.filter_operator,
            item.values.iter().map(|v| v.clone().unwrap_or("null".to_string())).collect::<Vec<_>>()
        ),
        FilterItem::Segment(segment) => segment.full_name.clone(),
        FilterItem::Group(group) => format!("{:?} of {}", group.operator, group.items.len()),
    }
}

fn described(filters: &[FilterItem]) -> Vec<String> {
    filters.iter().map(describe).collect()
}

fn switch_measure(
    name: &str,
    switch: CaseSwitchItem,
    branches: Vec<(&str, Vec<Member>)>,
    else_sql: Option<Vec<Member>>,
    else_values: Option<Vec<&str>>,
) -> Member {
    let items = branches
        .into_iter()
        .map(|(value, deps)| {
            Rc::new(CaseSwitchBranch { value: value.to_string(), sql: sql(deps) })
        })
        .collect();
    let mut symbol = bare_measure(name, MeasureKind::Calculated, vec![]);
    symbol.case = Some(Case::CaseSwitch(Rc::new(CaseSwitchDefinition {
        switch,
        items: SwitchBranches::from_list(items),
        else_sql: else_sql.map(sql),
        else_values: else_values
            .map(|values| Rc::new(values.into_iter().map(|v| v.to_string()).collect())),
    })));
    symbol.multi_stage = Some(Rc::new(no_properties()));
    measure_of(symbol)
}

#[test]
fn plain_query_has_no_stages() {
    let mut cte_state: CteState<Stage> = CteState::new();
    let planner = planner(query(vec![measure("total")], vec![dimension("status")]));
    planner
        .plan_queries(&mut cte_state, |request| Ok(request.description.clone()))
        .unwrap();
    assert_eq!(cte_state.members().len(), 0);
    assert_eq!(cte_state.subquery_refs().len(), 0);
    assert_eq!(cte_state.next_cte_name(), "cte_0");
}

#[test]
fn calculated_measure_reads_a_leaf() {
    let total = measure("total");
    let ratio = multi_stage("ratio", MeasureKind::Calculated, vec![total]);
    let (stages, references) = plan(query(vec![ratio], vec![dimension("status")]));
    assert_eq!(aliases(&stages), vec!["cte_0", "cte_1"]);
    assert_eq!(references, vec!["cte_1"]);
    assert!(matches!(
        stages[0].member.member_type,
        MultiStageMemberType::Leaf(MultiStageLeafMemberType::Measure)
    ));
    assert_eq!(stages[0].member.member_symbol.full_name(), "orders.total");
    assert!(!stages[0].member.is_ungrupped);
    assert!(!stages[0].member.has_aggregates_on_top);
    assert!(!stages[0].member.is_without_member_leaf);
    assert_eq!(stages[0].input.len(), 0);
    match &stages[1].member.member_type {
        MultiStageMemberType::Inode(inode) => {
            assert!(matches!(inode.inode_type, MultiStageInodeMemberType::Calculate));
        }
        _ => panic!("an inner stage is expected"),
    }
    assert!(stages[1].member.is_ungrupped);
    assert_eq!(input_aliases(&stages[1]), vec!["cte_0"]);
    assert_eq!(names(&stages[1].state.dimensions), vec!["orders.status"]);
}

#[test]
fn reference_has_the_columns_of_its_stage() {
    let ratio = multi_stage("ratio", MeasureKind::Calculated, vec![measure("total")]);
    let mut cte_state: CteState<Stage> = CteState::new();
    planner(query(vec![ratio], vec![dimension("status")]))
        .plan_queries(&mut cte_state, |request| Ok(request.description.clone()))
        .unwrap();
    let reference = &cte_state.subquery_refs()[0];
    assert_eq!(reference.name, "cte_1");
    assert_eq!(names(&reference.symbols), vec!["orders.ratio"]);
    assert_eq!(names(&reference.schema.dimensions), vec!["orders.status"]);
    assert_eq!(reference.schema.time_dimensions.len(), 0);
    assert_eq!(names(&reference.schema.measures), vec!["orders.ratio"]);
}

#[test]
fn rank_without_dependencies_reads_the_dimensions() {
    let rank = multi_stage("rank", MeasureKind::Rank, vec![]);
    let (stages, references) = plan(query(vec![rank], vec![dimension("status")]));
    assert_eq!(aliases(&stages), vec!["cte_0", "cte_1"]);
    assert_eq!(references, vec!["cte_1"]);
    assert!(stages[0].member.is_without_member_leaf);
    assert_eq!(stages[0].member.member_symbol.full_name(), "orders.rank");
    assert_eq!(input_aliases(&stages[1]), vec!["cte_0"]);
    assert!(stages[1].member.is_ungrupped);
    match &stages[1].member.member_type {
        MultiStageMemberType::Inode(inode) => {
            assert!(matches!(inode.inode_type, MultiStageInodeMemberType::Rank));
        }
        _ => panic!("an inner stage is expected"),
    }
}

#[test]
fn aggregate_is_ungrouped_as_the_query_is() {
    for ungrouped in [false, true] {
        let sum = multi_stage("sum", MeasureKind::Aggregated, vec![measure("total")]);
        let mut properties = query(vec![sum], vec![]);
        properties.ungrouped = ungrouped;
        let (stages, _) = plan(properties);
        assert_eq!(stages[0].member.is_ungrupped, ungrouped);
        assert_eq!(stages[1].member.is_ungrupped, ungrouped);
        assert!(!stages[1].state.ungrouped);
        match &stages[1].member.member_type {
            MultiStageMemberType::Inode(inode) => {
                assert!(matches!(inode.inode_type, MultiStageInodeMemberType::Aggregate));
            }
            _ => panic!("an inner stage is expected"),
        }
    }
}

#[test]
fn shared_dependency_is_planned_once() {
    let total = measure("total");
    let a = multi_stage("a", MeasureKind::Calculated, vec![total.clone()]);
    let b = multi_stage("b", MeasureKind::Calculated, vec![total, a.clone()]);
    let (stages, references) = plan(query(vec![a, b], vec![]));
    assert_eq!(aliases(&stages), vec!["cte_0", "cte_1", "cte_2"]);
    assert_eq!(input_aliases(&stages[2]), vec!["cte_0", "cte_1"]);
    assert_eq!(references, vec!["cte_1", "cte_2"]);
}

#[test]
fn planning_again_returns_the_same_stage() {
    let ratio = multi_stage("ratio", MeasureKind::Calculated, vec![measure("total")]);
    let planner = planner(query(vec![ratio.clone()], vec![]));
    let mut cte_state: CteState<Stage> = CteState::new();
    let mut stages = vec![];
    let mut resolved = ResolvedDimensions::new();
    let state = planner.root_state().clone();
    let first = planner
        .make_queries_descriptions(
            ratio.clone(),
            state.clone(),
            &mut stages,
            &mut resolved,
            &mut cte_state,
        );
    let again =
        planner.make_queries_descriptions(ratio, state, &mut stages, &mut resolved, &mut cte_state);
    assert_eq!(stages.len(), 2);
    assert!(matches!((first, again), (Ok(a), Ok(b)) if Rc::ptr_eq(&a, &b)));
    assert_eq!(cte_state.next_cte_name(), "cte_2");
}

#[test]
fn plain_measure_planned_again_is_the_same_stage() {
    let total = measure("total");
    let planner = planner(query(vec![total.clone()], vec![dimension("status")]));
    let mut cte_state: CteState<Stage> = CteState::new();
    let mut stages = vec![];
    let mut resolved = ResolvedDimensions::new();
    let state = planner.root_state().clone();
    let first = planner.make_queries_descriptions(
        total.clone(),
        state.clone(),
        &mut stages,
        &mut resolved,
        &mut cte_state,
    );
    let again =
        planner.make_queries_descriptions(total, state, &mut stages, &mut resolved, &mut cte_state);
    assert_eq!(aliases(&stages), vec!["cte_0"]);
    assert!(matches!((first, again), (Ok(a), Ok(b)) if Rc::ptr_eq(&a, &b)));
}

#[test]
fn planning_keeps_the_stages_of_any_plan() {
    // Two stages of one name, as no plan of a query has them.
    let planner = planner(query(vec![], vec![]));
    let state = planner.root_state().clone();
    let mut stages = vec![];
    for name in ["a", "b"] {
        let mut cte_state: CteState<Stage> = CteState::new();
        let added = planner.add_rolling_window_base(
            measure(name),
            state.clone(),
            false,
            &mut stages,
            &mut cte_state,
        );
        assert!(added.is_ok());
    }
    let before = stages.clone();
    let mut cte_state: CteState<Stage> = CteState::new();
    let mut resolved = ResolvedDimensions::new();
    let planned = planner.make_queries_descriptions(
        measure("c"),
        state,
        &mut stages,
        &mut resolved,
        &mut cte_state,
    );
    assert_eq!(aliases(&stages), vec!["cte_0", "cte_0", "cte_0"]);
    assert!(before.iter().zip(stages.iter()).all(|(a, b)| Rc::ptr_eq(a, b)));
    assert!(matches!(planned, Ok(stage) if Rc::ptr_eq(&stage, &stages[2])));
}

#[test]
fn references_are_resolved() {
    let total = measure("total");
    let mut alias = bare_measure("alias", MeasureKind::Calculated, vec![total]);
    alias.is_reference = true;
    let ratio = multi_stage("ratio", MeasureKind::Calculated, vec![measure_of(alias)]);
    let (stages, _) = plan(query(vec![ratio], vec![]));
    assert_eq!(stages[0].member.member_symbol.full_name(), "orders.total");
}

#[test]
fn added_dimensions_reach_the_inputs() {
    let mut properties = no_properties();
    properties.add_group_by = Some(Rc::new(vec![dimension("id"), dimension("status")]));
    properties.reduce_by = Some(Rc::new(vec![dimension("city")]));
    properties.group_by = Some(Rc::new(vec![dimension("status")]));
    let sum =
        with_properties("sum", MeasureKind::Aggregated, vec![measure("total")], properties);
    let (stages, _) = plan(query(vec![sum], vec![dimension("status")]));
    assert_eq!(names(&stages[0].state.dimensions), vec!["orders.status", "orders.id"]);
    assert_eq!(names(&stages[1].state.dimensions), vec!["orders.status"]);
    match &stages[1].member.member_type {
        MultiStageMemberType::Inode(inode) => {
            assert_eq!(names(&inode.add_group_by), vec!["orders.id", "orders.status"]);
            assert_eq!(names(&inode.reduce_by), vec!["orders.city"]);
            assert_eq!(names(inode.group_by.as_ref().unwrap()), vec!["orders.status"]);
        }
        _ => panic!("an inner stage is expected"),
    }
}

#[test]
fn time_shift_reaches_the_inputs() {
    let mut properties = no_properties();
    properties.time_shift = Some(MeasureTimeShifts::Common("1 year".to_string()));
    let prior =
        with_properties("prior", MeasureKind::Aggregated, vec![measure("total")], properties);
    let (stages, _) = plan(query(vec![prior], vec![]));
    assert_eq!(stages[0].state.time_shifts.len(), 1);
    assert!(matches!(&stages[0].state.time_shifts[0],
        MeasureTimeShifts::Common(interval) if interval == "1 year"));
    assert_eq!(stages[1].state.time_shifts.len(), 0);
}

#[test]
fn conditions_on_the_member_do_not_reach_its_inputs() {
    let status = dimension("status");
    let level = multi_stage_dimension("level", vec![measure("total")], vec![dimension("id")]);
    let mut properties = query(vec![], vec![level.clone()]);
    properties.dimensions_filters = vec![equals(&level, &["high"]), equals(&status, &["new"])];
    let (stages, references) = plan(properties);
    assert_eq!(aliases(&stages), vec!["cte_0", "cte_1"]);
    assert_eq!(references.len(), 0);
    assert_eq!(
        described(&stages[0].state.dimensions_filters),
        vec!["orders.status Equal [\"new\"]"]
    );
    assert_eq!(stages[1].state.dimensions_filters.len(), 2);
    assert!(stages[1].is_multi_stage_dimension());
}

#[test]
fn measure_filters_and_order_do_not_reach_stages() {
    let total = measure("total");
    let ratio = multi_stage("ratio", MeasureKind::Calculated, vec![total.clone()]);
    let mut properties = query(vec![ratio], vec![dimension("status")]);
    properties.measures_filters = vec![equals(&total, &["1"])];
    properties.segments = vec![segment("orders.completed")];
    properties.time_shifts = vec![MeasureTimeShifts::Named("prior".to_string())];
    let (stages, _) = plan(properties);
    for stage in &stages {
        assert_eq!(stage.state.measures_filters.len(), 0);
        assert_eq!(stage.state.order_by.len(), 0);
        assert_eq!(stage.state.measures.len(), 0);
        assert_eq!(stage.state.time_shifts.len(), 0);
        assert_eq!(described(&stage.state.segments), vec!["orders.completed"]);
    }
}

#[test]
fn member_of_a_filter_is_planned() {
    let ratio = multi_stage("ratio", MeasureKind::Calculated, vec![measure("total")]);
    let mut properties = query(vec![], vec![]);
    properties.measures_filters = vec![equals(&ratio, &["1"])];
    let (stages, references) = plan(properties);
    assert_eq!(aliases(&stages), vec!["cte_0", "cte_1"]);
    assert_eq!(references, vec!["cte_1"]);
}

#[test]
fn directive_excludes_filters_of_members() {
    let status = dimension("status");
    let city = dimension("city");
    let mut filter = no_directive(MultiStageFilterMode::Relative);
    filter.exclude = Some(vec![status.clone()]);
    let sum = with_directive("sum", vec![measure("total")], filter);
    let mut properties = query(vec![sum], vec![]);
    properties.dimensions_filters = vec![equals(&status, &["new"]), equals(&city, &["Rome"])];
    let (stages, _) = plan(properties);
    assert_eq!(
        described(&stages[0].state.dimensions_filters),
        vec!["orders.city Equal [\"Rome\"]"]
    );
    assert_eq!(stages[1].state.dimensions_filters.len(), 2);
}

#[test]
fn directive_keeps_only_filters_of_members() {
    let status = dimension("status");
    let city = dimension("city");
    let mut filter = no_directive(MultiStageFilterMode::Relative);
    filter.keep_only = Some(vec![status.clone()]);
    let sum = with_directive("sum", vec![measure("total")], filter);
    let mut properties = query(vec![sum], vec![]);
    properties.dimensions_filters = vec![equals(&status, &["new"]), equals(&city, &["Rome"])];
    properties.segments = vec![segment("orders.completed")];
    let (stages, _) = plan(properties);
    assert_eq!(
        described(&stages[0].state.dimensions_filters),
        vec!["orders.status Equal [\"new\"]"]
    );
    assert_eq!(stages[0].state.segments.len(), 0);
}

#[test]
fn directive_reaches_segments_by_expression() {
    let listed = Rc::new(MemberSymbol::MemberExpression(Rc::new(MemberExpressionSymbol {
        cube_name: "orders".to_string(),
        name: "completed".to_string(),
        sql: sql(vec![]),
    })));
    assert_eq!(listed.full_name(), "expr:orders.completed");
    let mut filter = no_directive(MultiStageFilterMode::Relative);
    filter.exclude = Some(vec![listed]);
    let sum = with_directive("sum", vec![measure("total")], filter);
    let mut properties = query(vec![sum], vec![]);
    properties.segments = vec![segment("orders.completed"), segment("orders.recent")];
    let (stages, _) = plan(properties);
    assert_eq!(described(&stages[0].state.segments), vec!["orders.recent"]);
    assert_eq!(stages[1].state.segments.len(), 2);
}

#[test]
fn directive_adds_what_it_excludes() {
    let status = dimension("status");
    let total = measure("total");
    let mut filter = no_directive(MultiStageFilterMode::Relative);
    filter.exclude = Some(vec![status.clone()]);
    filter.include_dimension = vec![equals(&status, &["paid"])];
    filter.include_time_dimension = vec![equals(&dimension("created"), &["today"])];
    filter.include_measure = vec![equals(&total, &["5"])];
    let sum = with_directive("sum", vec![total], filter);
    let mut properties = query(vec![sum], vec![]);
    properties.dimensions_filters = vec![equals(&status, &["new"])];
    let (stages, _) = plan(properties);
    assert_eq!(
        described(&stages[0].state.dimensions_filters),
        vec!["orders.status Equal [\"paid\"]"]
    );
    assert_eq!(
        described(&stages[0].state.time_dimensions_filters),
        vec!["orders.created Equal [\"today\"]"]
    );
    assert_eq!(
        described(&stages[0].state.measures_filters),
        vec!["orders.total Equal [\"5\"]"]
    );
}

#[test]
fn fixed_mode_starts_from_the_query() {
    for (mode, expected) in [
        (MultiStageFilterMode::Fixed, vec!["orders.status Equal [\"new\"]"]),
        (MultiStageFilterMode::Relative, vec![]),
    ] {
        let status = dimension("status");
        let below = with_directive("below", vec![measure("total")], no_directive(mode));
        let mut filter = no_directive(MultiStageFilterMode::Relative);
        filter.exclude = Some(vec![status.clone()]);
        let above = with_directive("above", vec![below], filter);
        let mut properties = query(vec![above], vec![]);
        properties.dimensions_filters = vec![equals(&status, &["new"])];
        let (stages, _) = plan(properties);
        assert_eq!(aliases(&stages), vec!["cte_0", "cte_1", "cte_2"]);
        assert_eq!(described(&stages[0].state.dimensions_filters), expected);
        assert_eq!(stages[1].state.dimensions_filters.len(), 0);
    }
}

#[test]
fn multi_stage_dimension_is_no_input_of_a_measure() {
    let level = multi_stage_dimension("level", vec![measure("total")], vec![dimension("id")]);
    let sum =
        multi_stage("sum", MeasureKind::Aggregated, vec![level.clone(), measure("amount")]);
    let (stages, references) = plan(query(vec![sum], vec![]));
    assert_eq!(aliases(&stages), vec!["cte_0", "cte_1", "cte_2", "cte_3"]);
    assert!(stages[1].is_multi_stage_dimension());
    assert_eq!(names(&stages[0].state.dimensions), vec!["orders.id"]);
    assert_eq!(input_aliases(&stages[3]), vec!["cte_2"]);
    assert_eq!(references, vec!["cte_3"]);
}

#[test]
fn multi_stage_dimension_is_an_input_of_a_dimension() {
    let level = multi_stage_dimension("level", vec![measure("total")], vec![]);
    let band = multi_stage_dimension("band", vec![level], vec![]);
    let (stages, references) = plan(query(vec![], vec![band]));
    assert_eq!(aliases(&stages), vec!["cte_0", "cte_1", "cte_2"]);
    assert_eq!(input_aliases(&stages[2]), vec!["cte_1"]);
    assert_eq!(references.len(), 0);
}

#[test]
fn dimensions_that_are_not_planned_yet_are_left_out() {
    let level = multi_stage_dimension("level", vec![measure("total")], vec![]);
    let band = multi_stage_dimension("band", vec![measure("amount")], vec![]);
    let (stages, _) = plan(query(vec![], vec![level, band, dimension("status")]));
    assert_eq!(aliases(&stages), vec!["cte_0", "cte_1", "cte_2", "cte_3"]);
    assert_eq!(names(&stages[1].state.dimensions), vec!["orders.status"]);
    assert_eq!(
        names(&stages[3].state.dimensions),
        vec!["orders.level", "orders.status"]
    );
}

#[test]
fn dimension_is_taken_up_with_its_stage() {
    let level = multi_stage_dimension("level", vec![measure("total")], vec![]);
    let planner = planner(query(vec![], vec![level.clone()]));
    let mut resolved = ResolvedDimensions::new();
    assert!(!resolved.contains(&"orders.level".to_string()));
    let inode = planner.create_multi_stage_inode_member(level, &mut resolved);
    assert!(resolved.contains(&"orders.level".to_string()));
    match inode {
        Ok((inode, is_ungrupped)) => {
            assert!(matches!(inode.inode_type, MultiStageInodeMemberType::Dimension));
            assert!(!is_ungrupped);
        }
        Err(error) => panic!("{}", error.message),
    }
}

#[test]
fn switch_plans_each_dependency_for_its_values() {
    let currency = dimension("currency");
    let usd = measure("usd");
    let eur = measure("eur");
    let price = switch_measure(
        "price",
        CaseSwitchItem::Member(currency.clone()),
        vec![
            ("USD", vec![usd.clone()]),
            ("EUR", vec![eur]),
            ("CAD", vec![usd.clone()]),
            ("USD", vec![usd]),
        ],
        None,
        None,
    );
    let (stages, references) = plan(query(vec![price], vec![]));
    assert_eq!(aliases(&stages), vec!["cte_0", "cte_1", "cte_2"]);
    assert_eq!(references, vec!["cte_2"]);
    assert_eq!(stages[0].member.member_symbol.full_name(), "orders.usd");
    assert_eq!(
        described(&stages[0].state.dimensions_filters),
        vec!["orders.currency Equal [\"USD\", \"CAD\"]"]
    );
    assert_eq!(
        described(&stages[1].state.dimensions_filters),
        vec!["orders.currency Equal [\"EUR\"]"]
    );
    assert_eq!(names(&stages[0].state.dimensions), vec!["orders.currency"]);
    assert_eq!(names(&stages[2].state.dimensions).len(), 0);
    assert_eq!(input_aliases(&stages[2]), vec!["cte_0", "cte_1"]);
}

#[test]
fn open_else_takes_all_values() {
    let usd = measure("usd");
    let price = switch_measure(
        "price",
        CaseSwitchItem::Member(dimension("currency")),
        vec![("USD", vec![usd.clone()]), ("EUR", vec![measure("eur")])],
        Some(vec![usd]),
        None,
    );
    let (stages, _) = plan(query(vec![price], vec![]));
    assert_eq!(stages[0].state.dimensions_filters.len(), 0);
    assert_eq!(stages[1].state.dimensions_filters.len(), 1);
}

#[test]
fn closed_else_takes_the_other_values() {
    let usd = measure("usd");
    let price = switch_measure(
        "price",
        CaseSwitchItem::Member(dimension("currency")),
        vec![("USD", vec![usd.clone()]), ("EUR", vec![measure("eur")])],
        Some(vec![usd, measure("other")]),
        Some(vec!["CAD", "USD"]),
    );
    let (stages, _) = plan(query(vec![price], vec![]));
    assert_eq!(
        described(&stages[0].state.dimensions_filters),
        vec!["orders.currency Equal [\"USD\", \"CAD\"]"]
    );
    assert_eq!(stages[2].member.member_symbol.full_name(), "orders.other");
    assert_eq!(
        described(&stages[2].state.dimensions_filters),
        vec!["orders.currency Equal [\"CAD\", \"USD\"]"]
    );
}

#[test]
fn else_without_values_sets_no_filter() {
    let price = switch_measure(
        "price",
        CaseSwitchItem::Member(dimension("currency")),
        vec![("USD", vec![measure("usd")])],
        Some(vec![measure("other")]),
        Some(vec![]),
    );
    let planner = planner(query(vec![price.clone()], vec![]));
    let mut cte_state: CteState<Stage> = CteState::new();
    let mut result = vec![];
    let mut stages = vec![];
    let mut resolved = ResolvedDimensions::new();
    let state = planner.root_state().clone();
    planner
        .make_childs(price, state, &mut result, &mut stages, &mut resolved, &mut cte_state)
        .unwrap();
    assert_eq!(input_names(&result), vec!["orders.usd", "orders.other"]);
    assert_eq!(stages[1].state.dimensions_filters.len(), 0);
}

fn input_names(stages: &[Stage]) -> Vec<String> {
    stages.iter().map(|s| s.member.member_symbol.full_name()).collect()
}

#[test]
fn switch_on_an_expression_plans_by_dependencies() {
    let price = switch_measure(
        "price",
        CaseSwitchItem::Sql(sql(vec![dimension("currency")])),
        vec![("USD", vec![measure("usd")]), ("EUR", vec![measure("eur")])],
        None,
        None,
    );
    let (stages, _) = plan(query(vec![price], vec![]));
    assert_eq!(aliases(&stages), vec!["cte_0", "cte_1", "cte_2"]);
    assert_eq!(stages[0].state.dimensions_filters.len(), 0);
    assert_eq!(stages[0].state.dimensions.len(), 0);
}

#[test]
fn filters_prune_branches_even_in_fixed_mode() {
    let currency = dimension("currency");
    let mut symbol = bare_measure("price", MeasureKind::Calculated, vec![]);
    symbol.case = Some(Case::CaseSwitch(Rc::new(CaseSwitchDefinition {
        switch: CaseSwitchItem::Member(currency.clone()),
        items: SwitchBranches::from_list(vec![
            Rc::new(CaseSwitchBranch { value: "USD".to_string(), sql: sql(vec![measure("usd")]) }),
            Rc::new(CaseSwitchBranch { value: "EUR".to_string(), sql: sql(vec![measure("eur")]) }),
        ]),
        else_sql: None,
        else_values: None,
    })));
    let mut properties = no_properties();
    properties.filter = Some(Rc::new(no_directive(MultiStageFilterMode::Fixed)));
    symbol.multi_stage = Some(Rc::new(properties));
    let mut filter = no_directive(MultiStageFilterMode::Relative);
    filter.include_dimension = vec![equals(&currency, &["EUR"])];
    let above = with_directive("above", vec![measure_of(symbol)], filter);
    let (stages, _) = plan(query(vec![above], vec![]));
    assert_eq!(input_names(&stages), vec!["orders.eur", "orders.price", "orders.above"]);
    // The filter that pruned the branch is not part of the state that fixed mode starts from.
    assert_eq!(
        described(&stages[0].state.dimensions_filters),
        vec!["orders.currency Equal [\"EUR\"]"]
    );
    assert_eq!(described(&stages[1].state.dimensions_filters).len(), 1);
}

#[test]
fn stages_have_names_of_their_own_and_follow_their_inputs() {
    let level = multi_stage_dimension("level", vec![measure("total")], vec![dimension("id")]);
    let a = multi_stage("a", MeasureKind::Calculated, vec![measure("total"), level.clone()]);
    let b = multi_stage("b", MeasureKind::Rank, vec![a.clone(), measure("amount")]);
    let (stages, references) = plan(query(vec![b, a], vec![level, dimension("status")]));
    for i in 0..stages.len() {
        for j in 0..i {
            assert_ne!(stages[i].alias, stages[j].alias);
        }
        for input in &stages[i].input {
            assert!(stages[..i].iter().any(|s| Rc::ptr_eq(s, input)));
        }
    }
    for reference in references {
        assert!(stages.iter().any(|s| s.alias == reference));
    }
}

#[test]
fn error_of_a_stage_ends_the_plan() {
    let a = multi_stage("a", MeasureKind::Calculated, vec![measure("total")]);
    let mut cte_state: CteState<String> = CteState::new();
    let result = planner(query(vec![a], vec![])).plan_queries(&mut cte_state, |request| {
        if request.description.alias == "cte_1" {
            Err(CubeError::internal("no query".to_string()))
        } else {
            Ok(request.description.alias.clone())
        }
    });
    let error = result.unwrap_err();
    assert_eq!(error.cause, CubeErrorCauseType::Internal);
    assert_eq!(error.message, "no query");
    assert_eq!(cte_state.members(), &vec!["cte_0".to_string()]);
    assert_eq!(cte_state.subquery_refs().len(), 1);
}

#[test]
fn requests_carry_the_query() {
    let a = multi_stage("a", MeasureKind::Calculated, vec![measure("total")]);
    let properties = Rc::new(query(vec![a], vec![]));
    let tools = tools();
    let planner = match MultiStageQueryPlanner::try_new(tools.clone(), properties.clone()) {
        Ok(planner) => planner,
        Err(error) => panic!("{}", error.message),
    };
    let mut cte_state: CteState<bool> = CteState::new();
    planner
        .plan_queries(&mut cte_state, |request| {
            Ok(Rc::ptr_eq(&request.query_tools, &tools)
                && Rc::ptr_eq(&request.query_properties, &properties))
        })
        .unwrap();
    assert_eq!(cte_state.members(), &vec![true, true]);
}

#[test]
fn names_go_on_where_another_plan_ended() {
    let a = multi_stage("a", MeasureKind::Calculated, vec![measure("total")]);
    let mut cte_state: CteState<Stage> = CteState::new();
    for _ in 0..6 {
        planner(query(vec![a.clone()], vec![]))
            .plan_queries(&mut cte_state, |request| Ok(request.description.clone()))
            .unwrap();
    }
    let all = aliases(cte_state.members());
    assert_eq!(all.len(), 12);
    assert_eq!(all[1], "cte_1");
    assert_eq!(all[9], "cte_9");
    assert_eq!(all[10], "cte_10");
    assert_eq!(all[11], "cte_11");
}
