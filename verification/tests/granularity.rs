use multi_stage_planner::granularity::Granularity;
use multi_stage_planner::granularity::GranularityHelper;
use multi_stage_planner::granularity::TimeGranularity;

fn unit(interval: &str) -> Option<Granularity> {
    GranularityHelper::granularity_from_interval(&Some(interval.to_string()))
}

#[test]
fn interval_names_its_unit() {
    assert_eq!(unit("10 second"), Some(Granularity::Second));
    assert_eq!(unit("3 minutes"), Some(Granularity::Minute));
    assert_eq!(unit("1 hour"), Some(Granularity::Hour));
    assert_eq!(unit("1 day"), Some(Granularity::Day));
    assert_eq!(unit("2 weeks"), Some(Granularity::Week));
    assert_eq!(unit("3 month"), Some(Granularity::Month));
    assert_eq!(unit("1 quarter"), Some(Granularity::Quarter));
    assert_eq!(unit("1 year"), Some(Granularity::Year));
}

#[test]
fn smallest_unit_of_an_interval_counts() {
    assert_eq!(unit("1 year 2 day"), Some(Granularity::Day));
    assert_eq!(unit("1 month 1 hour"), Some(Granularity::Hour));
}

#[test]
fn unbounded_interval_has_no_unit() {
    assert_eq!(unit("unbounded"), None);
    assert_eq!(unit(""), None);
    assert_eq!(GranularityHelper::granularity_from_interval(&None), None);
}

#[test]
fn smallest_granularity_is_one_that_both_are_made_of() {
    let min = GranularityHelper::min_granularity;
    let day = Some(Granularity::Day);
    let week = Some(Granularity::Week);
    let month = Some(Granularity::Month);
    let year = Some(Granularity::Year);
    assert_eq!(min(day, month), day);
    assert_eq!(min(year, month), month);
    assert_eq!(min(week, month), day);
    assert_eq!(min(year, week), day);
    assert_eq!(min(week, week), week);
    assert_eq!(min(Some(Granularity::Quarter), year), Some(Granularity::Quarter));
    assert_eq!(min(Some(Granularity::Second), year), Some(Granularity::Second));
    assert_eq!(min(Some(Granularity::Minute), Some(Granularity::Hour)), Some(Granularity::Minute));
}

#[test]
fn absent_granularity_sets_no_bound() {
    let month = Some(Granularity::Month);
    assert_eq!(GranularityHelper::min_granularity(None, month), month);
    assert_eq!(GranularityHelper::min_granularity(month, None), month);
    assert_eq!(GranularityHelper::min_granularity(None, None), None);
}

#[test]
fn granularities_have_names() {
    assert_eq!(TimeGranularity::Predefined(Granularity::Quarter).name(), "quarter");
    let fiscal = TimeGranularity::Custom {
        name: "fiscal_year".to_string(),
        resolved: Granularity::Month,
    };
    assert_eq!(fiscal.name(), "fiscal_year");
    assert_eq!(fiscal.resolved(), Granularity::Month);
}
