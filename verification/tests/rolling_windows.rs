use multi_stage_planner::cte::CteState;
use multi_stage_planner::error::CubeError;
use multi_stage_planner::error::CubeErrorCauseType;
use multi_stage_planner::filter::BaseFilter;
use multi_stage_planner::filter::FilterItem;
use multi_stage_planner::filter::FilterOperator;
use multi_stage_planner::filter::FilterType;
use multi_stage_planner::granularity::Granularity;
use multi_stage_planner::granularity::GranularityHelper;
use multi_stage_planner::granularity::TimeGranularity;
use multi_stage_planner::planner::MultiStageQueryPlanner;
use multi_stage_planner::query_properties::QueryProperties;
use multi_stage_planner::query_properties::QueryTools;
use multi_stage_planner::query_properties::ResolvedDimensions;
use multi_stage_planner::stage::MultiStageInodeMemberType;
use multi_stage_planner::stage::MultiStageLeafMemberType;
use multi_stage_planner::stage::MultiStageMemberType;
use multi_stage_planner::stage::MultiStageQueryDescription;
use multi_stage_planner::stage::RollingWindowType;
use multi_stage_planner::symbol::DimensionSymbol;
use multi_stage_planner::symbol::MeasureKind;
use multi_stage_planner::symbol::MeasureSymbol;
use multi_stage_planner::symbol::MemberSymbol;
use multi_stage_planner::symbol::MultiStageFilter;
use multi_stage_planner::symbol::MultiStageFilterMode;
use multi_stage_planner::symbol::MultiStageProperties;
use multi_stage_planner::symbol::RollingWindow;
use multi_stage_planner::symbol::SqlCall;
use multi_stage_planner::symbol::TimeDimensionSymbol;
use multi_stage_planner::window::have_one_key;
use std::rc::Rc;

type Member = Rc<MemberSymbol>;
type Stage = Rc<MultiStageQueryDescription>;

fn sql(dependencies: Vec<Member>) -> Rc<SqlCall> {
    Rc::new(SqlCall { dependencies })
}

fn dimension_over(name: &str, dependencies: Vec<Member>) -> Member {
    let is_reference = dependencies.len() > 0;
    Rc::new(MemberSymbol::Dimension(Rc::new(DimensionSymbol {
        cube_name: "orders".to_string(),
        name: name.to_string(),
        sql: sql(dependencies),
        is_reference,
        case: None,
        multi_stage: None,
    })))
}

fn dimension(name: &str) -> Member {
    dimension_over(name, vec![])
}

fn time_symbol(
    name: &str,
    granularity: Option<Granularity>,
    range: Option<(&str, &str)>,
) -> Rc<TimeDimensionSymbol> {
    Rc::new(TimeDimensionSymbol {
        base_symbol: dimension(name),
        granularity: granularity.map(TimeGranularity::Predefined),
        date_range: range.map(|(from, to)| (from.to_string(), to.to_string())),
    })
}

fn time(name: &str, granularity: Option<Granularity>, range: Option<(&str, &str)>) -> Member {
    Rc::new(MemberSymbol::TimeDimension(time_symbol(name, granularity, range)))
}

fn bare_measure(name: &str, dependencies: Vec<Member>) -> MeasureSymbol {
    MeasureSymbol {
        cube_name: "orders".to_string(),
        name: name.to_string(),
        kind: MeasureKind::Aggregated,
        sql: sql(dependencies),
        is_reference: false,
        case: None,
        rolling_window: None,
        running_total: false,
        additive: true,
        multi_stage: None,
    }
}

fn measure_of(symbol: MeasureSymbol) -> Member {
    Rc::new(MemberSymbol::Measure(Rc::new(symbol)))
}

fn window(trailing: Option<&str>, leading: Option<&str>) -> RollingWindow {
    RollingWindow {
        trailing: trailing.map(|t| t.to_string()),
        leading: leading.map(|t| t.to_string()),
        offset: None,
        rolling_type: None,
        granularity: None,
    }
}

fn to_date(granularity: Option<&str>) -> RollingWindow {
    RollingWindow {
        trailing: None,
        leading: None,
        offset: None,
        rolling_type: Some("to_date".to_string()),
        granularity: granularity.map(|g| g.to_string()),
    }
}

fn rolling(name: &str, window: RollingWindow) -> Member {
    let mut symbol = bare_measure(name, vec![]);
    symbol.rolling_window = Some(Rc::new(window));
    measure_of(symbol)
}

fn date_range(name: &str) -> FilterItem {
    FilterItem::Item(BaseFilter::new(
        dimension(name),
        FilterType::Dimension,
        FilterOperator::InDateRange,
        vec![Some("2024-01-01".to_string()), Some("2024-12-31".to_string())],
    ))
}

fn tools() -> Rc<QueryTools> {
    Rc::new(QueryTools { timezone: "UTC".to_string() })
}

fn query(measures: Vec<Member>, time_dimensions: Vec<Member>) -> QueryProperties {
    QueryProperties {
        query_tools: tools(),
        measures,
        dimensions: vec![],
        time_dimensions,
        dimensions_filters: vec![],
        time_dimensions_filters: vec![],
        measures_filters: vec![],
        segments: vec![],
        time_shifts: vec![],
        order_by: vec![],
        ungrouped: false,
    }
}

fn planner(properties: QueryProperties) -> MultiStageQueryPlanner {
    match MultiStageQueryPlanner::try_new(tools(), Rc::new(properties)) {
        Ok(planner) => planner,
        Err(error) => panic!("{}", error.message),
    }
}

fn plan(properties: QueryProperties) -> Vec<Stage> {
    let mut cte_state: CteState<Stage> = CteState::new();
    planner(properties)
        .plan_queries(&mut cte_state, |request| Ok(request.description.clone()))
        .unwrap();
    cte_state.members().clone()
}

fn plan_error(properties: QueryProperties) -> CubeError {
    let mut cte_state: CteState<Stage> = CteState::new();
    let error = planner(properties)
        .plan_queries(&mut cte_state, |request| Ok(request.description.clone()))
        .unwrap_err();
    assert_eq!(cte_state.members().len(), 0);
    error
}

fn aliases(stages: &[Stage]) -> Vec<String> {
    stages.iter().map(|s| s.alias.clone()).collect()
}

fn names(members: &[Member]) -> Vec<String> {
    members.iter().map(|m| m.full_name()).collect()
}

fn item(filter: &FilterItem) -> (FilterOperator, Vec<String>) {
    match filter {
        FilterItem::Item(item) => (
            item.filter_operator,
            item.values.iter().map(|v| v.clone().unwrap_or("null".to_string())).collect(),
        ),
        _ => panic!("a condition is expected"),
    }
}

fn rolled(stage: &Stage) -> (&Member, &Member, &RollingWindowType) {
    match &stage.member.member_type {
        MultiStageMemberType::Inode(inode) => match &inode.inode_type {
            MultiStageInodeMemberType::RollingWindow(window) => {
                (&window.time_dimension, &window.base_time_dimension, &window.rolling_window)
            }
            _ => panic!("a window is expected"),
        },
        _ => panic!("a window is expected"),
    }
}

fn year() -> Option<(&'static str, &'static str)> {
    Some(("2024-01-01", "2024-12-31"))
}

#[test]
fn regular_window_rolls_a_base_over_a_series() {
    let sum = rolling("sum", window(Some("3 day"), None));
    let mut properties =
        query(vec![sum], vec![time("created", Some(Granularity::Month), year())]);
    properties.time_dimensions_filters = vec![date_range("created")];
    let stages = plan(properties);
    assert_eq!(aliases(&stages), vec!["time_series", "cte_0", "cte_1"]);

    match &stages[0].member.member_type {
        MultiStageMemberType::Leaf(MultiStageLeafMemberType::TimeSeries(series)) => {
            assert_eq!(series.time_dimension.full_name(), "orders.created_month");
            assert_eq!(series.date_range_cte, None);
        }
        _ => panic!("a series is expected"),
    }
    assert!(stages[0].member.is_ungrupped);
    assert_eq!(
        item(&stages[0].state.time_dimensions_filters[0]).0,
        FilterOperator::InDateRange
    );

    assert_eq!(stages[1].member.member_symbol.full_name(), "orders.sum");
    assert!(!stages[1].member.is_ungrupped);
    assert!(stages[1].member.has_aggregates_on_top);
    assert_eq!(names(&stages[1].state.time_dimensions), vec!["orders.created_day"]);
    assert_eq!(
        item(&stages[1].state.time_dimensions_filters[0]),
        (
            FilterOperator::RegularRollingWindowDateRange,
            vec![
                "2024-01-01".to_string(),
                "2024-12-31".to_string(),
                "3 day".to_string(),
                "null".to_string()
            ]
        )
    );

    assert_eq!(aliases(&stages[2].input), vec!["time_series", "cte_0"]);
    assert!(!stages[2].member.has_aggregates_on_top);
    assert_eq!(names(&stages[2].state.time_dimensions), vec!["orders.created_month"]);
    let (step, base, kind) = rolled(&stages[2]);
    assert_eq!(step.full_name(), "orders.created_month");
    assert_eq!(base.full_name(), "orders.created_day");
    match kind {
        RollingWindowType::Regular { trailing, leading, offset } => {
            assert_eq!(trailing.as_deref(), Some("3 day"));
            assert_eq!(leading.as_deref(), None);
            assert_eq!(offset, "end");
        }
        _ => panic!("a regular window is expected"),
    }
}

#[test]
fn offset_of_a_window_is_kept() {
    let mut frame = window(Some("1 month"), Some("1 month"));
    frame.offset = Some("start".to_string());
    let stages = plan(query(
        vec![rolling("sum", frame)],
        vec![time("created", Some(Granularity::Day), year())],
    ));
    match rolled(&stages[2]).2 {
        RollingWindowType::Regular { offset, .. } => assert_eq!(offset, "start"),
        _ => panic!("a regular window is expected"),
    }
}

#[test]
fn missing_date_range_is_looked_up() {
    let stages = plan(query(
        vec![rolling("sum", window(Some("1 month"), None))],
        vec![time("created", Some(Granularity::Day), None)],
    ));
    assert_eq!(
        aliases(&stages),
        vec!["time_series_get_range", "time_series", "cte_0", "cte_1"]
    );
    assert!(matches!(
        stages[0].member.member_type,
        MultiStageMemberType::Leaf(MultiStageLeafMemberType::TimeSeriesGetRange(_))
    ));
    match &stages[1].member.member_type {
        MultiStageMemberType::Leaf(MultiStageLeafMemberType::TimeSeries(series)) => {
            assert_eq!(series.date_range_cte.as_deref(), Some("time_series_get_range"));
        }
        _ => panic!("a series is expected"),
    }
    assert_eq!(aliases(&stages[3].input), vec!["time_series", "cte_0"]);
}

#[test]
fn windows_share_one_series() {
    let stages = plan(query(
        vec![
            rolling("a", window(Some("1 month"), None)),
            rolling("b", window(Some("1 week"), None)),
        ],
        vec![time("created", Some(Granularity::Day), None)],
    ));
    assert_eq!(
        aliases(&stages),
        vec!["time_series_get_range", "time_series", "cte_0", "cte_1", "cte_2", "cte_3"]
    );
    assert!(Rc::ptr_eq(&stages[3].input[0], &stages[5].input[0]));
}

#[test]
fn running_total_has_no_bounds() {
    let mut symbol = bare_measure("total", vec![]);
    symbol.running_total = true;
    let stages = plan(query(
        vec![measure_of(symbol)],
        vec![time("created", Some(Granularity::Day), year())],
    ));
    assert_eq!(aliases(&stages), vec!["time_series", "cte_0", "cte_1"]);
    assert!(matches!(rolled(&stages[2]).2, RollingWindowType::RunningTotal));
}

#[test]
fn window_to_date_starts_with_the_period() {
    let mut properties = query(
        vec![rolling("sum", to_date(Some("quarter")))],
        vec![time("created", Some(Granularity::Month), year())],
    );
    properties.time_dimensions_filters = vec![date_range("created"), date_range("shipped")];
    let stages = plan(properties);
    match rolled(&stages[2]).2 {
        RollingWindowType::ToDate { granularity } => assert_eq!(granularity, "quarter"),
        _ => panic!("a window to the date is expected"),
    }
    assert_eq!(
        item(&stages[1].state.time_dimensions_filters[0]),
        (
            FilterOperator::ToDateRollingWindowDateRange,
            vec!["2024-01-01".to_string(), "2024-12-31".to_string(), "quarter".to_string()]
        )
    );
    assert_eq!(
        item(&stages[1].state.time_dimensions_filters[1]).0,
        FilterOperator::InDateRange
    );
}

#[test]
fn window_to_date_needs_a_granularity() {
    let error = plan_error(query(
        vec![rolling("sum", to_date(None))],
        vec![time("created", Some(Granularity::Month), year())],
    ));
    assert_eq!(error.cause, CubeErrorCauseType::User);
    assert_eq!(error.message, "Granularity required for to_date rolling window");
}

#[test]
fn rolling_measure_over_measures_has_to_be_multi_stage() {
    let dependencies = vec![
        measure_of(bare_measure("a", vec![])),
        dimension("status"),
        measure_of(bare_measure("b", vec![])),
    ];
    let mut symbol = bare_measure("sum", dependencies);
    symbol.rolling_window = Some(Rc::new(window(Some("1 day"), None)));
    let error = plan_error(query(
        vec![measure_of(symbol)],
        vec![time("created", Some(Granularity::Day), year())],
    ));
    assert_eq!(error.cause, CubeErrorCauseType::User);
    assert_eq!(
        error.message,
        "Measure orders.sum references another measures (orders.a, orders.b). In this case, \
         orders.sum must have multi_stage: true defined"
    );
}

#[test]
fn multi_stage_window_plans_its_base() {
    let mut symbol = bare_measure("sum", vec![measure_of(bare_measure("a", vec![]))]);
    symbol.rolling_window = Some(Rc::new(window(Some("1 day"), None)));
    symbol.multi_stage = Some(Rc::new(MultiStageProperties {
        reduce_by: None,
        add_group_by: None,
        group_by: None,
        time_shift: None,
        filter: None,
    }));
    let stages = plan(query(
        vec![measure_of(symbol)],
        vec![time("created", Some(Granularity::Month), year())],
    ));
    assert_eq!(aliases(&stages), vec!["time_series", "cte_0", "cte_1", "cte_2"]);
    assert_eq!(stages[1].member.member_symbol.full_name(), "orders.a");
    assert_eq!(names(&stages[1].state.time_dimensions), vec!["orders.created_day"]);
    assert_eq!(stages[2].member.member_symbol.full_name(), "orders.sum");
    assert_eq!(aliases(&stages[2].input), vec!["cte_0"]);
    assert_eq!(aliases(&stages[3].input), vec!["time_series", "cte_1"]);
}

#[test]
fn fixed_mode_below_a_window_drops_its_date_range() {
    for (mode, operator) in [
        (MultiStageFilterMode::Fixed, FilterOperator::InDateRange),
        (MultiStageFilterMode::Relative, FilterOperator::RegularRollingWindowDateRange),
    ] {
        let mut symbol = bare_measure("sum", vec![measure_of(bare_measure("a", vec![]))]);
        symbol.rolling_window = Some(Rc::new(window(Some("1 day"), None)));
        symbol.multi_stage = Some(Rc::new(MultiStageProperties {
            reduce_by: None,
            add_group_by: None,
            group_by: None,
            time_shift: None,
            filter: Some(Rc::new(MultiStageFilter {
                mode,
                exclude: None,
                keep_only: None,
                include_dimension: vec![],
                include_time_dimension: vec![],
                include_measure: vec![],
            })),
        }));
        let mut properties = query(
            vec![measure_of(symbol)],
            vec![time("created", Some(Granularity::Month), year())],
        );
        properties.time_dimensions_filters = vec![date_range("created")];
        let stages = plan(properties);
        assert_eq!(item(&stages[1].state.time_dimensions_filters[0]).0, operator);
    }
}

#[test]
fn base_that_is_not_additive_is_not_grouped() {
    let mut symbol = bare_measure("distinct", vec![]);
    symbol.rolling_window = Some(Rc::new(window(Some("1 day"), None)));
    symbol.additive = false;
    let stages = plan(query(
        vec![measure_of(symbol)],
        vec![time("created", Some(Granularity::Day), year())],
    ));
    assert!(stages[1].member.is_ungrupped);
    assert!(!stages[2].member.is_ungrupped);
}

#[test]
fn time_dimensions_have_to_agree() {
    let sum = rolling("sum", window(Some("1 day"), None));
    for other in [
        time("shipped", Some(Granularity::Day), year()),
        time("created", Some(Granularity::Day), None),
    ] {
        let error = plan_error(query(
            vec![sum.clone()],
            vec![time("created", Some(Granularity::Day), year()), other],
        ));
        assert_eq!(error.cause, CubeErrorCauseType::Internal);
        assert_eq!(
            error.message,
            "Rolling window requires one time dimension and equal date ranges"
        );
    }
}

#[test]
fn one_dimension_at_two_granularities_agrees() {
    let sum = rolling("sum", window(None, None));
    let stages = plan(query(
        vec![sum],
        vec![
            time("created", Some(Granularity::Month), year()),
            time("created", Some(Granularity::Week), year()),
        ],
    ));
    let (step, base, _) = rolled(&stages[2]);
    assert_eq!(step.full_name(), "orders.created_week");
    assert_eq!(base.full_name(), "orders.created_week");
    assert_eq!(names(&stages[1].state.time_dimensions), vec!["orders.created_week"]);
}

#[test]
fn time_dimension_among_dimensions_counts() {
    let sum = rolling("sum", window(Some("1 day"), None));
    let alias = dimension_over("alias", vec![time("created", Some(Granularity::Month), year())]);
    let mut properties = query(vec![sum], vec![]);
    properties.dimensions = vec![alias, dimension("status")];
    let stages = plan(properties);
    assert_eq!(aliases(&stages), vec!["time_series", "cte_0", "cte_1"]);
    assert_eq!(names(&stages[1].state.dimensions), vec!["orders.status"]);
    assert_eq!(names(&stages[1].state.time_dimensions), vec!["orders.created_day"]);
}

#[test]
fn other_members_are_no_time_dimensions() {
    let sum = rolling("sum", window(Some("1 day"), None));
    let error = plan_error(query(vec![sum], vec![dimension("status")]));
    assert_eq!(error.cause, CubeErrorCauseType::Internal);
    assert_eq!(error.message, "orders.status is not a time dimension");
}

#[test]
fn window_without_time_dimension_takes_one_stage() {
    let expected: [(Option<&str>, Option<&str>, Option<(FilterOperator, Vec<String>)>); 4] = [
        (
            Some("unbounded"),
            None,
            Some((FilterOperator::BeforeOrOnDate, vec!["2024-12-31".to_string()])),
        ),
        (
            None,
            Some("unbounded"),
            Some((FilterOperator::AfterOrOnDate, vec!["2024-01-01".to_string()])),
        ),
        (Some("unbounded"), Some("unbounded"), None),
        (
            Some("1 day"),
            None,
            Some((
                FilterOperator::InDateRange,
                vec!["2024-01-01".to_string(), "2024-12-31".to_string()],
            )),
        ),
    ];
    for (trailing, leading, filter) in expected {
        let mut properties = query(vec![rolling("sum", window(trailing, leading))], vec![]);
        properties.time_dimensions_filters = vec![date_range("created")];
        let stages = plan(properties);
        assert_eq!(aliases(&stages), vec!["cte_0"]);
        assert!(stages[0].member.has_aggregates_on_top);
        assert_eq!(stages[0].state.time_dimensions_filters.first().map(item), filter);
    }
}

/// Plans a measure twice in a query without time dimensions, and returns the stages and whether both
/// times gave the same one.
fn plan_twice(measure: Member) -> (Vec<Stage>, bool) {
    let mut properties = query(vec![measure.clone()], vec![]);
    properties.time_dimensions_filters = vec![date_range("created")];
    let planner = planner(properties);
    let mut cte_state: CteState<Stage> = CteState::new();
    let mut stages = vec![];
    let mut resolved = ResolvedDimensions::new();
    let mut results = vec![];
    for _ in 0..2 {
        let result = planner.make_queries_descriptions(
            measure.clone(),
            planner.root_state().clone(),
            &mut stages,
            &mut resolved,
            &mut cte_state,
        );
        match result {
            Ok(stage) => results.push(stage),
            Err(error) => panic!("{}", error.message),
        }
    }
    (stages, Rc::ptr_eq(&results[0], &results[1]))
}

#[test]
fn window_without_time_dimension_is_planned_once_if_it_is_bounded() {
    let (stages, is_same) = plan_twice(rolling("sum", window(Some("1 day"), None)));
    assert_eq!(aliases(&stages), vec!["cte_0"]);
    assert!(is_same);
}

#[test]
fn window_that_opens_a_date_range_is_planned_again() {
    let (stages, is_same) = plan_twice(rolling("sum", window(Some("unbounded"), None)));
    assert_eq!(aliases(&stages), vec!["cte_0", "cte_1"]);
    assert!(!is_same);
}

#[test]
fn multi_stage_window_that_opens_a_date_range_is_planned_once() {
    let mut symbol = bare_measure("sum", vec![measure_of(bare_measure("a", vec![]))]);
    symbol.rolling_window = Some(Rc::new(window(Some("unbounded"), None)));
    symbol.multi_stage = Some(Rc::new(MultiStageProperties {
        reduce_by: None,
        add_group_by: None,
        group_by: None,
        time_shift: None,
        filter: None,
    }));
    let (stages, is_same) = plan_twice(measure_of(symbol));
    assert_eq!(aliases(&stages), vec!["cte_0", "cte_1"]);
    assert!(is_same);
    assert_eq!(
        item(&stages[1].state.time_dimensions_filters[0]).0,
        FilterOperator::BeforeOrOnDate
    );
}

#[test]
fn base_state_needs_a_time_dimension() {
    let planner = planner(query(vec![], vec![]));
    let state = planner.root_state().clone();
    let result =
        planner.make_rolling_base_state(dimension("status"), &window(None, None), state.clone());
    assert!(matches!(result, Err(error) if error.message == "orders.status is not a time dimension"));
    let mut stages = vec![];
    let series = planner.add_time_series(dimension("status"), state, &mut stages);
    assert!(matches!(series, Err(error) if error.message == "orders.status is not a time dimension"));
    assert_eq!(stages.len(), 0);
}

#[test]
fn dimensions_are_told_apart_by_their_keys() {
    let month = time_symbol("created", Some(Granularity::Month), year());
    let day = time_symbol("created", Some(Granularity::Day), year());
    let open = time_symbol("created", Some(Granularity::Day), None);
    assert!(have_one_key(&vec![month.clone(), day.clone()]));
    assert!(have_one_key(&vec![open.clone()]));
    assert!(!have_one_key(&vec![month.clone(), open.clone(), day.clone()]));
    let finest = GranularityHelper::find_dimension_with_min_granularity(&vec![
        month.clone(),
        day.clone(),
        month,
    ]);
    assert!(Rc::ptr_eq(&finest, &day));
}

#[test]
fn dimension_without_granularity_sets_no_bound() {
    let plain = time_symbol("created", None, year());
    let day = time_symbol("created", Some(Granularity::Day), year());
    let finest =
        GranularityHelper::find_dimension_with_min_granularity(&vec![plain.clone(), day.clone()]);
    assert!(Rc::ptr_eq(&finest, &day));
    let finest =
        GranularityHelper::find_dimension_with_min_granularity(&vec![day.clone(), plain]);
    assert!(Rc::ptr_eq(&finest, &day));
}
