//! Granularities of time.

use crate::text::contains;
use crate::text::occurs_in;
use vstd::prelude::*;

verus! {

/// A calendar unit by which time is grouped.
#[derive(Clone, Copy, Debug, PartialEq, Eq, Structural)]
pub enum Granularity {
    Second,
    Minute,
    Hour,
    Day,
    Week,
    Month,
    Quarter,
    Year,
}

/// The granularity of a time dimension: a calendar unit, or one that the data model defines, with
/// the calendar unit that it is built from.
#[derive(Debug)]
pub enum TimeGranularity {
    Predefined(Granularity),
    Custom { name: String, resolved: Granularity },
}

/// How far a unit is from the second, counted in steps of division; weeks divide into days.
pub open spec fn depth(g: Granularity) -> nat {
    match g {
        Granularity::Second => 0,
        Granularity::Minute => 1,
        Granularity::Hour => 2,
        Granularity::Day => 3,
        Granularity::Week => 4,
        Granularity::Month => 4,
        Granularity::Quarter => 5,
        Granularity::Year => 6,
    }
}

/// The unit that `g` divides into.
pub open spec fn divides_into(g: Granularity) -> Granularity {
    match g {
        Granularity::Second => Granularity::Second,
        Granularity::Minute => Granularity::Second,
        Granularity::Hour => Granularity::Minute,
        Granularity::Day => Granularity::Hour,
        Granularity::Week => Granularity::Day,
        Granularity::Month => Granularity::Day,
        Granularity::Quarter => Granularity::Month,
        Granularity::Year => Granularity::Quarter,
    }
}

/// Whether every period of `coarse` is made of whole periods of `fine`.
pub open spec fn made_of(coarse: Granularity, fine: Granularity) -> bool
    decreases depth(coarse),
{
    coarse == fine || (coarse != Granularity::Second && made_of(divides_into(coarse), fine))
}

/// The coarsest unit that both are made of.
pub open spec fn common_unit(a: Granularity, b: Granularity) -> Granularity
    decreases depth(a) + depth(b),
{
    if a == b {
        a
    } else if depth(a) < depth(b) {
        common_unit(a, divides_into(b))
    } else if depth(b) < depth(a) {
        common_unit(divides_into(a), b)
    } else {
        common_unit(divides_into(a), divides_into(b))
    }
}

/// The coarsest unit that both are made of; no granularity sets no bound.
pub open spec fn min_granularity(a: Option<Granularity>, b: Option<Granularity>) -> Option<
    Granularity,
> {
    match (a, b) {
        (None, _) => b,
        (_, None) => a,
        (Some(a), Some(b)) => Some(common_unit(a, b)),
    }
}

/// The finest unit that an interval text names.
pub open spec fn interval_unit(interval: Seq<char>) -> Option<Granularity> {
    if occurs_in("second"@, interval) {
        Some(Granularity::Second)
    } else if occurs_in("minute"@, interval) {
        Some(Granularity::Minute)
    } else if occurs_in("hour"@, interval) {
        Some(Granularity::Hour)
    } else if occurs_in("day"@, interval) {
        Some(Granularity::Day)
    } else if occurs_in("week"@, interval) {
        Some(Granularity::Week)
    } else if occurs_in("month"@, interval) {
        Some(Granularity::Month)
    } else if occurs_in("quarter"@, interval) {
        Some(Granularity::Quarter)
    } else if occurs_in("year"@, interval) {
        Some(Granularity::Year)
    } else {
        None
    }
}

pub open spec fn optional_interval_unit(interval: Option<String>) -> Option<Granularity> {
    match interval {
        Some(interval) => interval_unit(interval@),
        None => None,
    }
}

/// The name by which queries refer to a unit.
pub open spec fn granularity_name(g: Granularity) -> Seq<char> {
    match g {
        Granularity::Second => "second"@,
        Granularity::Minute => "minute"@,
        Granularity::Hour => "hour"@,
        Granularity::Day => "day"@,
        Granularity::Week => "week"@,
        Granularity::Month => "month"@,
        Granularity::Quarter => "quarter"@,
        Granularity::Year => "year"@,
    }
}

impl Granularity {
    pub fn name(&self) -> (name: &'static str)
        ensures
            name@ == granularity_name(*self),
    {
        match self {
            Granularity::Second => "second",
            Granularity::Minute => "minute",
            Granularity::Hour => "hour",
            Granularity::Day => "day",
            Granularity::Week => "week",
            Granularity::Month => "month",
            Granularity::Quarter => "quarter",
            Granularity::Year => "year",
        }
    }
}

impl TimeGranularity {
    pub open spec fn spec_name(&self) -> Seq<char> {
        match self {
            TimeGranularity::Predefined(g) => granularity_name(*g),
            TimeGranularity::Custom { name, .. } => name@,
        }
    }

    pub open spec fn spec_resolved(&self) -> Granularity {
        match self {
            TimeGranularity::Predefined(g) => *g,
            TimeGranularity::Custom { resolved, .. } => *resolved,
        }
    }

    pub fn name(&self) -> (name: &str)
        ensures
            name@ == self.spec_name(),
    {
        match self {
            TimeGranularity::Predefined(g) => g.name(),
            TimeGranularity::Custom { name, .. } => name.as_str(),
        }
    }

    pub fn resolved(&self) -> (g: Granularity)
        ensures
            g == self.spec_resolved(),
    {
        match self {
            TimeGranularity::Predefined(g) => *g,
            TimeGranularity::Custom { resolved, .. } => *resolved,
        }
    }
}

impl Clone for TimeGranularity {
    fn clone(&self) -> (copy: Self)
        ensures
            copy == *self,
    {
        match self {
            TimeGranularity::Predefined(g) => TimeGranularity::Predefined(*g),
            TimeGranularity::Custom { name, resolved } => TimeGranularity::Custom {
                name: name.clone(),
                resolved: *resolved,
            },
        }
    }
}

/// Arithmetic of granularities.
pub struct GranularityHelper {}

impl GranularityHelper {
    fn common(a: Granularity, b: Granularity) -> (unit: Granularity)
        ensures
            unit == common_unit(a, b),
    {
        proof {
            reveal_with_fuel(common_unit, 8);
        }
        match (a, b) {
            (Granularity::Second, _) => Granularity::Second,
            (_, Granularity::Second) => Granularity::Second,
            (Granularity::Minute, _) => Granularity::Minute,
            (_, Granularity::Minute) => Granularity::Minute,
            (Granularity::Hour, _) => Granularity::Hour,
            (_, Granularity::Hour) => Granularity::Hour,
            (Granularity::Day, _) => Granularity::Day,
            (_, Granularity::Day) => Granularity::Day,
            (Granularity::Week, Granularity::Week) => Granularity::Week,
            (Granularity::Week, _) => Granularity::Day,
            (_, Granularity::Week) => Granularity::Day,
            (Granularity::Month, _) => Granularity::Month,
            (_, Granularity::Month) => Granularity::Month,
            (Granularity::Quarter, _) => Granularity::Quarter,
            (_, Granularity::Quarter) => Granularity::Quarter,
            (Granularity::Year, Granularity::Year) => Granularity::Year,
        }
    }

    /// The coarsest unit that both granularities are made of; an absent one sets no bound.
    pub fn min_granularity(a: Option<Granularity>, b: Option<Granularity>) -> (result: Option<
        Granularity,
    >)
        ensures
            result == min_granularity(a, b),
    {
        match (a, b) {
            (None, _) => b,
            (_, None) => a,
            (Some(a), Some(b)) => Some(Self::common(a, b)),
        }
    }

    /// The finest unit that an interval such as `"3 month"` names.
    pub fn granularity_from_interval(interval: &Option<String>) -> (result: Option<Granularity>)
        ensures
            result == optional_interval_unit(*interval),
    {
        let interval: &str = match interval {
            Some(interval) => interval.as_str(),
            None => return None,
        };
        if contains(interval, "second") {
            Some(Granularity::Second)
        } else if contains(interval, "minute") {
            Some(Granularity::Minute)
        } else if contains(interval, "hour") {
            Some(Granularity::Hour)
        } else if contains(interval, "day") {
            Some(Granularity::Day)
        } else if contains(interval, "week") {
            Some(Granularity::Week)
        } else if contains(interval, "month") {
            Some(Granularity::Month)
        } else if contains(interval, "quarter") {
            Some(Granularity::Quarter)
        } else if contains(interval, "year") {
            Some(Granularity::Year)
        } else {
            None
        }
    }
}

/// Both units are made of their common unit, and the common unit is made of every other unit that
/// both are made of: it is the coarsest.
pub proof fn common_unit_is_coarsest(a: Granularity, b: Granularity, g: Granularity)
    ensures
        made_of(a, common_unit(a, b)),
        made_of(b, common_unit(a, b)),
        made_of(a, g) && made_of(b, g) ==> made_of(common_unit(a, b), g),
    decreases depth(a) + depth(b),
{
    reveal_with_fuel(made_of, 2);
    if a != b {
        if depth(a) < depth(b) {
            common_unit_is_coarsest(a, divides_into(b), g);
        } else if depth(b) < depth(a) {
            common_unit_is_coarsest(divides_into(a), b, g);
        } else {
            common_unit_is_coarsest(divides_into(a), divides_into(b), g);
        }
        if made_of(a, g) && made_of(b, g) {
            made_of_is_no_deeper(a, g);
            made_of_is_no_deeper(b, g);
        }
    }
}

/// A unit is made only of units that are no deeper, and of one as deep only if it is the same.
proof fn made_of_is_no_deeper(coarse: Granularity, fine: Granularity)
    requires
        made_of(coarse, fine),
    ensures
        depth(fine) <= depth(coarse),
        depth(fine) == depth(coarse) ==> fine == coarse,
    decreases depth(coarse),
{
    if coarse != fine {
        made_of_is_no_deeper(divides_into(coarse), fine);
    }
}

/// What a unit is made of is made of all that this is made of.
pub proof fn made_of_is_transitive(a: Granularity, b: Granularity, c: Granularity)
    requires
        made_of(a, b),
        made_of(b, c),
    ensures
        made_of(a, c),
    decreases depth(a),
{
    if a != b {
        made_of_is_transitive(divides_into(a), b, c);
    }
}

/// The common unit of a unit and one that it is made of is the latter.
pub proof fn common_unit_with_part(coarse: Granularity, fine: Granularity)
    requires
        made_of(coarse, fine),
    ensures
        common_unit(coarse, fine) == fine,
        common_unit(fine, coarse) == fine,
{
    common_unit_is_coarsest(coarse, fine, fine);
    common_unit_is_coarsest(fine, coarse, fine);
    made_of_is_no_deeper(fine, common_unit(coarse, fine));
    made_of_is_no_deeper(common_unit(coarse, fine), fine);
    made_of_is_no_deeper(fine, common_unit(fine, coarse));
    made_of_is_no_deeper(common_unit(fine, coarse), fine);
}

} // verus!
