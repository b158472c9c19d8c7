use multi_stage_planner::directive::apply_filter_directive_to_state;
use multi_stage_planner::directive::filter_directive_match_names;
use multi_stage_planner::directive::multi_stage_filter_directive;
use multi_stage_planner::filter::filters_admit;
use multi_stage_planner::filter::filters_mention;
use multi_stage_planner::filter::BaseFilter;
use multi_stage_planner::filter::BaseSegment;
use multi_stage_planner::filter::FilterGroup;
use multi_stage_planner::filter::FilterGroupOperator;
use multi_stage_planner::filter::FilterItem;
use multi_stage_planner::filter::FilterOperator;
use multi_stage_planner::filter::FilterType;
use multi_stage_planner::query_properties::QueryProperties;
use multi_stage_planner::query_properties::QueryTools;
use multi_stage_planner::static_filter::apply_static_filter_to_symbol;
use multi_stage_planner::switch::switch_dependencies;
use multi_stage_planner::symbol::has_multi_stage_members;
use multi_stage_planner::symbol::resolve_reference_chain;
use multi_stage_planner::symbol::Case;
use multi_stage_planner::symbol::CaseSwitchBranch;
use multi_stage_planner::symbol::CaseSwitchDefinition;
use multi_stage_planner::symbol::CaseSwitchItem;
use multi_stage_planner::symbol::DimensionSymbol;
use multi_stage_planner::symbol::MemberExpressionSymbol;
use multi_stage_planner::symbol::MemberSymbol;
use multi_stage_planner::symbol::MultiStageFilter;
use multi_stage_planner::symbol::MultiStageFilterMode;
use multi_stage_planner::symbol::MultiStageProperties;
use multi_stage_planner::symbol::SqlCall;
use multi_stage_planner::symbol::SwitchBranches;
use std::rc::Rc;

type Member = Rc<MemberSymbol>;

fn sql(dependencies: Vec<Member>) -> Rc<SqlCall> {
    Rc::new(SqlCall { dependencies })
}

fn bare(name: &str) -> DimensionSymbol {
    DimensionSymbol {
        cube_name: "orders".to_string(),
        name: name.to_string(),
        sql: sql(vec![]),
        is_reference: false,
        case: None,
        multi_stage: None,
    }
}

fn dimension(name: &str) -> Member {
    Rc::new(MemberSymbol::Dimension(Rc::new(bare(name))))
}

fn reference_to(name: &str, target: Member) -> Member {
    let mut symbol = bare(name);
    symbol.sql = sql(vec![target]);
    symbol.is_reference = true;
    Rc::new(MemberSymbol::Dimension(Rc::new(symbol)))
}

fn expression(name: &str) -> Member {
    Rc::new(MemberSymbol::MemberExpression(Rc::new(MemberExpressionSymbol {
        cube_name: "orders".to_string(),
        name: name.to_string(),
        sql: sql(vec![]),
    })))
}

fn condition(member: &str, operator: FilterOperator, values: &[&str]) -> FilterItem {
    FilterItem::Item(BaseFilter::new(
        dimension(member),
        FilterType::Dimension,
        operator,
        values.iter().map(|v| Some(v.to_string())).collect(),
    ))
}

fn segment(name: &str) -> FilterItem {
    FilterItem::Segment(Rc::new(BaseSegment { full_name: name.to_string() }))
}

fn group(operator: FilterGroupOperator, items: Vec<FilterItem>) -> FilterItem {
    FilterItem::Group(Rc::new(FilterGroup { operator, items }))
}

fn state(filters: Vec<FilterItem>) -> QueryProperties {
    QueryProperties {
        query_tools: Rc::new(QueryTools { timezone: "UTC".to_string() }),
        measures: vec![],
        dimensions: vec![],
        time_dimensions: vec![],
        dimensions_filters: filters,
        time_dimensions_filters: vec![],
        measures_filters: vec![],
        segments: vec![],
        time_shifts: vec![],
        order_by: vec![],
        ungrouped: false,
    }
}

fn names(members: &[Member]) -> Vec<String> {
    members.iter().map(|m| m.full_name()).collect()
}

fn switch(branches: Vec<(&str, Member)>, else_member: Option<Member>) -> CaseSwitchDefinition {
    CaseSwitchDefinition {
        switch: CaseSwitchItem::Member(dimension("currency")),
        items: SwitchBranches::from_list(
            branches
                .into_iter()
                .map(|(value, member)| {
                    Rc::new(CaseSwitchBranch { value: value.to_string(), sql: sql(vec![member]) })
                })
                .collect(),
        ),
        else_sql: else_member.map(|member| sql(vec![member])),
        else_values: None,
    }
}

#[test]
fn directive_matches_expressions_with_and_without_prefix() {
    assert_eq!(filter_directive_match_names(&dimension("status")), vec!["orders.status"]);
    assert_eq!(
        filter_directive_match_names(&expression("completed")),
        vec!["expr:orders.completed", "orders.completed"]
    );
}

#[test]
fn directive_of_a_member() {
    let mut symbol = bare("level");
    symbol.multi_stage = Some(Rc::new(MultiStageProperties {
        reduce_by: None,
        add_group_by: None,
        group_by: None,
        time_shift: None,
        filter: Some(Rc::new(MultiStageFilter {
            mode: MultiStageFilterMode::Fixed,
            exclude: None,
            keep_only: None,
            include_dimension: vec![],
            include_time_dimension: vec![],
            include_measure: vec![],
        })),
    }));
    let level = Rc::new(MemberSymbol::Dimension(Rc::new(symbol)));
    assert!(multi_stage_filter_directive(&level).is_some());
    assert!(multi_stage_filter_directive(&dimension("status")).is_none());
    assert!(multi_stage_filter_directive(&expression("completed")).is_none());
}

#[test]
fn directive_excludes_before_it_keeps_and_adds_last() {
    let mut properties = state(vec![
        condition("a", FilterOperator::Equal, &["1"]),
        condition("b", FilterOperator::Equal, &["1"]),
        condition("c", FilterOperator::Equal, &["1"]),
    ]);
    let filter = MultiStageFilter {
        mode: MultiStageFilterMode::Relative,
        exclude: Some(vec![dimension("a")]),
        keep_only: Some(vec![dimension("a"), dimension("b")]),
        include_dimension: vec![condition("a", FilterOperator::NotEqual, &["2"])],
        include_time_dimension: vec![],
        include_measure: vec![],
    };
    apply_filter_directive_to_state(&filter, &mut properties);
    assert_eq!(properties.dimensions_filters.len(), 2);
    assert!(filters_mention(&properties.dimensions_filters, &"orders.b".to_string()));
    assert!(filters_mention(&properties.dimensions_filters, &"orders.a".to_string()));
    assert!(!filters_mention(&properties.dimensions_filters, &"orders.c".to_string()));
    assert!(matches!(&properties.dimensions_filters[1],
        FilterItem::Item(item) if item.filter_operator == FilterOperator::NotEqual));
}

#[test]
fn excluding_reaches_into_groups() {
    let mut properties = state(vec![
        group(
            FilterGroupOperator::Or,
            vec![
                condition("a", FilterOperator::Equal, &["1"]),
                condition("b", FilterOperator::Equal, &["1"]),
            ],
        ),
        group(FilterGroupOperator::And, vec![condition("a", FilterOperator::Equal, &["1"])]),
    ]);
    assert!(properties.has_filters_for_member(&"orders.a".to_string()));
    properties.remove_filter_for_member(&"orders.a".to_string());
    assert!(!properties.has_filters_for_member(&"orders.a".to_string()));
    assert!(properties.has_filters_for_member(&"orders.b".to_string()));
    assert_eq!(properties.dimensions_filters.len(), 1);
}

#[test]
fn segments_are_excluded_and_kept_by_name() {
    let mut properties = state(vec![]);
    properties.segments = vec![segment("orders.a"), segment("orders.b")];
    properties.remove_filters_for_members(vec!["orders.a".to_string()]);
    assert_eq!(properties.segments.len(), 1);
    properties.keep_only_filters_for_members(vec!["orders.a".to_string()]);
    assert_eq!(properties.segments.len(), 0);
}

#[test]
fn added_dimensions_stand_once() {
    let mut properties = state(vec![]);
    properties.dimensions = vec![dimension("a")];
    properties.add_dimensions(&vec![dimension("b"), dimension("a"), dimension("b")]);
    assert_eq!(names(&properties.dimensions), vec!["orders.a", "orders.b"]);
}

#[test]
fn states_are_the_same_by_content() {
    let a = state(vec![condition("a", FilterOperator::Equal, &["1"])]);
    let b = state(vec![condition("a", FilterOperator::Equal, &["1"])]);
    let c = state(vec![condition("a", FilterOperator::Equal, &["2"])]);
    assert!(a.same_state(&b));
    assert!(a.same_state(&a.clone()));
    assert!(!a.same_state(&c));
}

#[test]
fn used_members_are_listed_once() {
    let mut properties = state(vec![group(
        FilterGroupOperator::Or,
        vec![
            condition("a", FilterOperator::Equal, &["1"]),
            condition("b", FilterOperator::Equal, &["1"]),
        ],
    )]);
    properties.dimensions = vec![dimension("b"), dimension("c")];
    assert_eq!(
        names(&properties.all_used_symbols()),
        vec!["orders.b", "orders.c", "orders.a"]
    );
}

#[test]
fn filters_admit_what_they_do_not_rule_out() {
    let member = "orders.a".to_string();
    let one = "1".to_string();
    let two = "2".to_string();
    let equal = vec![condition("a", FilterOperator::Equal, &["1"])];
    assert!(filters_admit(&equal, &member, &one));
    assert!(!filters_admit(&equal, &member, &two));
    let unequal = vec![condition("a", FilterOperator::NotEqual, &["1"])];
    assert!(!filters_admit(&unequal, &member, &one));
    assert!(filters_admit(&unequal, &member, &two));
    let either = vec![group(
        FilterGroupOperator::Or,
        vec![
            condition("a", FilterOperator::Equal, &["1"]),
            condition("b", FilterOperator::Equal, &["1"]),
        ],
    )];
    assert!(filters_admit(&either, &member, &two));
}

#[test]
fn references_end_in_a_member() {
    let target = dimension("target");
    let outer = reference_to("outer", reference_to("inner", target));
    assert_eq!(resolve_reference_chain(&outer).full_name(), "orders.target");
}

#[test]
fn member_over_a_multi_stage_member_takes_stages() {
    let mut symbol = bare("level");
    symbol.multi_stage = Some(Rc::new(MultiStageProperties {
        reduce_by: None,
        add_group_by: None,
        group_by: None,
        time_shift: None,
        filter: None,
    }));
    let level = Rc::new(MemberSymbol::Dimension(Rc::new(symbol)));
    let mut over = bare("over");
    over.sql = sql(vec![dimension("status"), level]);
    let over = Rc::new(MemberSymbol::Dimension(Rc::new(over)));
    assert!(has_multi_stage_members(&over, false));
    assert!(!has_multi_stage_members(&dimension("status"), false));
}

#[test]
fn static_filter_drops_branches() {
    let mut symbol = bare("price");
    symbol.case = Some(Case::CaseSwitch(Rc::new(switch(
        vec![("USD", dimension("usd")), ("EUR", dimension("eur"))],
        None,
    ))));
    let price = Rc::new(MemberSymbol::Dimension(Rc::new(symbol)));
    let filters = vec![condition("currency", FilterOperator::Equal, &["EUR"])];
    let pruned = apply_static_filter_to_symbol(&price, &filters);
    assert_eq!(names(&pruned.get_dependencies()), vec!["orders.currency", "orders.eur"]);
    let whole = apply_static_filter_to_symbol(&price, &vec![]);
    assert_eq!(names(&whole.get_dependencies()).len(), 3);
}

#[test]
fn switch_dependencies_stand_in_order_of_first_use() {
    let usd = dimension("usd");
    let alias = reference_to("alias", usd.clone());
    let mut definition = switch(
        vec![("EUR", dimension("eur")), ("USD", usd.clone()), ("CAD", alias), ("USD", usd)],
        Some(dimension("eur")),
    );
    let deps = switch_dependencies(&definition);
    assert_eq!(deps.len(), 2);
    assert_eq!(deps[0].0.full_name(), "orders.eur");
    assert_eq!(deps[0].1, None);
    assert_eq!(deps[1].0.full_name(), "orders.usd");
    assert_eq!(deps[1].1, Some(vec!["USD".to_string(), "CAD".to_string()]));

    definition.else_values = Some(Rc::new(vec!["GBP".to_string(), "EUR".to_string()]));
    let deps = switch_dependencies(&definition);
    assert_eq!(deps[0].1, Some(vec!["EUR".to_string(), "GBP".to_string()]));
}

#[test]
fn unrestricted_dependency_stays_unrestricted() {
    let eur = dimension("eur");
    let mut definition = switch(vec![("EUR", eur.clone())], None);
    definition.else_sql = Some(sql(vec![eur.clone(), eur]));
    let deps = switch_dependencies(&definition);
    assert_eq!(deps.len(), 1);
    assert_eq!(deps[0].1, None);
}
