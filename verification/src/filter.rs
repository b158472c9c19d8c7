//! Filters.

use crate::symbol::full_name;
use crate::symbol::MemberSymbol;
use std::rc::Rc;
use vstd::prelude::*;

verus! {

/// What a filter applies to.
#[derive(Clone, Copy, Debug, PartialEq, Eq, Structural)]
pub enum FilterType {
    Dimension,
    Measure,
}

/// How a filter compares.
#[derive(Clone, Copy, Debug, PartialEq, Eq, Structural)]
pub enum FilterOperator {
    Equal,
    NotEqual,
    Contains,
    NotContains,
    StartsWith,
    EndsWith,
    Gt,
    Gte,
    Lt,
    Lte,
    IsSet,
    IsNotSet,
    InDateRange,
    NotInDateRange,
    BeforeDate,
    BeforeOrOnDate,
    AfterDate,
    AfterOrOnDate,
    /// A date range that the intervals of a rolling window widen.
    RegularRollingWindowDateRange,
    /// A date range that reaches back to the start of a period.
    ToDateRollingWindowDateRange,
}

/// How the items of a group combine.
#[derive(Clone, Copy, Debug, PartialEq, Eq, Structural)]
pub enum FilterGroupOperator {
    And,
    Or,
}

/// A condition on one member.
#[derive(Debug)]
pub struct BaseFilter {
    pub member: Rc<MemberSymbol>,
    pub filter_type: FilterType,
    pub filter_operator: FilterOperator,
    pub values: Vec<Option<String>>,
}

/// A condition that the data model names.
#[derive(Debug)]
pub struct BaseSegment {
    pub full_name: String,
}

#[derive(Debug)]
pub struct FilterGroup {
    pub operator: FilterGroupOperator,
    pub items: Vec<FilterItem>,
}

#[derive(Debug)]
pub enum FilterItem {
    Group(Rc<FilterGroup>),
    Item(Rc<BaseFilter>),
    Segment(Rc<BaseSegment>),
}

// ---------------------------------------------------------------------------------------------
// The content of filters
// ---------------------------------------------------------------------------------------------

/// The content of a [`BaseFilter`].
#[verifier::ext_equal]
pub struct BaseFilterView {
    pub member: Rc<MemberSymbol>,
    pub filter_type: FilterType,
    pub filter_operator: FilterOperator,
    pub values: Seq<Option<Seq<char>>>,
}

/// The content of a [`FilterItem`].
pub enum FilterView {
    Group { operator: FilterGroupOperator, items: Seq<FilterView> },
    Item(BaseFilterView),
    Segment(Seq<char>),
}

pub open spec fn optional_text(value: Option<String>) -> Option<Seq<char>> {
    match value {
        Some(value) => Some(value@),
        None => None,
    }
}

pub open spec fn optional_texts(values: Seq<Option<String>>) -> Seq<Option<Seq<char>>> {
    values.map_values(|v: Option<String>| optional_text(v))
}

impl View for BaseFilter {
    type V = BaseFilterView;

    open spec fn view(&self) -> BaseFilterView {
        BaseFilterView {
            member: self.member,
            filter_type: self.filter_type,
            filter_operator: self.filter_operator,
            values: optional_texts(self.values@),
        }
    }
}

pub open spec fn filter_view(filter: FilterItem) -> FilterView
    decreases filter,
{
    match filter {
        FilterItem::Group(group) => FilterView::Group {
            operator: group.operator,
            items: Seq::new(
                group.items@.len(),
                |i: int|
                    if 0 <= i < group.items@.len() {
                        filter_view(group.items@[i])
                    } else {
                        arbitrary()
                    },
            ),
        },
        FilterItem::Item(item) => FilterView::Item(item@),
        FilterItem::Segment(segment) => FilterView::Segment(segment.full_name@),
    }
}

pub open spec fn filter_views(filters: Seq<FilterItem>) -> Seq<FilterView> {
    filters.map_values(|f: FilterItem| filter_view(f))
}

impl View for FilterItem {
    type V = FilterView;

    open spec fn view(&self) -> FilterView {
        filter_view(*self)
    }
}

pub proof fn lemma_group_view(group: Rc<FilterGroup>)
    ensures
        filter_view(FilterItem::Group(group)) == (FilterView::Group {
            operator: group.operator,
            items: filter_views(group.items@),
        }),
{
    assert(filter_view(FilterItem::Group(group))->items =~= filter_views(group.items@));
}

pub proof fn lemma_filter_views_push(filters: Seq<FilterItem>, filter: FilterItem)
    ensures
        filter_views(filters.push(filter)) == filter_views(filters).push(filter_view(filter)),
{
    assert(filter_views(filters.push(filter)) =~= filter_views(filters).push(filter_view(filter)));
}

pub proof fn lemma_filter_views_take(filters: Seq<FilterItem>, n: int)
    requires
        0 <= n < filters.len(),
    ensures
        filter_views(filters).take(n + 1) == filter_views(filters).take(n).push(
            filter_view(filters[n]),
        ),
{
    assert(filter_views(filters).take(n + 1) =~= filter_views(filters).take(n).push(
        filter_view(filters[n]),
    ));
}

/// The name of the member that a condition is on.
pub open spec fn filtered_member(filter: BaseFilterView) -> Seq<char> {
    full_name(*filter.member)
}

// ---------------------------------------------------------------------------------------------
// Building and copying
// ---------------------------------------------------------------------------------------------

impl Clone for FilterItem {
    fn clone(&self) -> (copy: Self)
        ensures
            copy == *self,
    {
        match self {
            FilterItem::Group(group) => FilterItem::Group(group.clone()),
            FilterItem::Item(item) => FilterItem::Item(item.clone()),
            FilterItem::Segment(segment) => FilterItem::Segment(segment.clone()),
        }
    }
}

/// Adds filters to the end of a list.
pub fn append_filters(list: &mut Vec<FilterItem>, more: &Vec<FilterItem>)
    ensures
        final(list)@ == old(list)@ + more@,
{
    let mut i: usize = 0;
    while i < more.len()
        invariant
            i <= more@.len(),
            list@ == old(list)@ + more@.take(i as int),
        decreases more@.len() - i,
    {
        list.push(more[i].clone());
        assert(more@.take(i + 1) =~= more@.take(i as int).push(more@[i as int]));
        i += 1;
    }
    assert(more@.take(i as int) =~= more@);
}

pub fn copy_filters(filters: &Vec<FilterItem>) -> (copy: Vec<FilterItem>)
    ensures
        copy@ == filters@,
{
    let mut copy: Vec<FilterItem> = Vec::new();
    append_filters(&mut copy, filters);
    assert(copy@ =~= filters@);
    copy
}

/// Adds values to the end of a list.
pub fn append_values(list: &mut Vec<Option<String>>, more: &Vec<Option<String>>)
    ensures
        optional_texts(final(list)@) == optional_texts(old(list)@) + optional_texts(more@),
{
    let mut i: usize = 0;
    assert(optional_texts(more@).take(0) =~= Seq::<Option<Seq<char>>>::empty());
    while i < more.len()
        invariant
            i <= more@.len(),
            optional_texts(list@) == optional_texts(old(list)@) + optional_texts(more@).take(
                i as int,
            ),
        decreases more@.len() - i,
    {
        let ghost before = list@;
        let value: Option<String> = more[i].clone();
        list.push(value);
        assert(optional_texts(list@) =~= optional_texts(before).push(optional_text(value)));
        assert(optional_texts(more@).take(i + 1) =~= optional_texts(more@).take(i as int).push(
            optional_text(more@[i as int]),
        ));
        i += 1;
    }
    assert(optional_texts(more@).take(i as int) =~= optional_texts(more@));
}

impl BaseFilter {
    pub fn new(
        member: Rc<MemberSymbol>,
        filter_type: FilterType,
        filter_operator: FilterOperator,
        values: Vec<Option<String>>,
    ) -> (filter: Rc<BaseFilter>)
        ensures
            filter@ == (BaseFilterView {
                member,
                filter_type,
                filter_operator,
                values: optional_texts(values@),
            }),
    {
        Rc::new(BaseFilter { member, filter_type, filter_operator, values })
    }

    /// The name of the member that the condition is on.
    pub fn member_name(&self) -> (name: String)
        ensures
            name@ == filtered_member(self@),
    {
        self.member.full_name()
    }

    /// Whether one of the values is the given text.
    fn has_value(&self, text: &String) -> (found: bool)
        ensures
            found == self@.values.contains(Some(text@)),
    {
        let mut i: usize = 0;
        while i < self.values.len()
            invariant
                i <= self.values@.len(),
                forall|j: int| 0 <= j < i ==> self@.values[j] != Some(text@),
            decreases self.values@.len() - i,
        {
            if let Some(value) = &self.values[i] {
                if *value == *text {
                    assert(self@.values[i as int] == Some(text@));
                    return true;
                }
            }
            i += 1;
        }
        false
    }
}

// ---------------------------------------------------------------------------------------------
// Reading
// ---------------------------------------------------------------------------------------------

/// Whether a filter holds a condition on the member, at any depth.
pub open spec fn item_mentions(filter: FilterView, member: Seq<char>) -> bool
    decreases filter,
{
    match filter {
        FilterView::Group { items, .. } => exists|i: int|
            0 <= i < items.len() && item_mentions(#[trigger] items[i], member),
        FilterView::Item(item) => filtered_member(item) == member,
        FilterView::Segment(_) => false,
    }
}

/// Whether filters hold a condition on the member, at any depth.
pub open spec fn mentions(filters: Seq<FilterView>, member: Seq<char>) -> bool {
    exists|i: int| 0 <= i < filters.len() && item_mentions(#[trigger] filters[i], member)
}

/// Whether a row on which the member has the value can pass the filter: the filter does not rule
/// the value out by a condition of equality.
pub open spec fn item_admits(filter: FilterView, member: Seq<char>, value: Seq<char>) -> bool
    decreases filter,
{
    match filter {
        FilterView::Group { operator: FilterGroupOperator::And, items } => forall|i: int|
            0 <= i < items.len() ==> item_admits(#[trigger] items[i], member, value),
        FilterView::Group { operator: FilterGroupOperator::Or, items } => items.len() == 0
            || exists|i: int|
            0 <= i < items.len() && item_admits(#[trigger] items[i], member, value),
        FilterView::Item(item) => if filtered_member(item) != member {
            true
        } else if item.filter_operator == FilterOperator::Equal {
            item.values.contains(Some(value))
        } else if item.filter_operator == FilterOperator::NotEqual {
            !item.values.contains(Some(value))
        } else {
            true
        },
        FilterView::Segment(_) => true,
    }
}

/// Whether a row on which the member has the value can pass all filters.
pub open spec fn admits(filters: Seq<FilterView>, member: Seq<char>, value: Seq<char>) -> bool {
    forall|i: int| 0 <= i < filters.len() ==> item_admits(#[trigger] filters[i], member, value)
}

proof fn lemma_group_mentions(group: Rc<FilterGroup>, member: Seq<char>)
    ensures
        item_mentions(filter_view(FilterItem::Group(group)), member) == mentions(
            filter_views(group.items@),
            member,
        ),
{
    lemma_group_view(group);
    let view = filter_view(FilterItem::Group(group));
    let items = filter_views(group.items@);
    assert(view->items == items);
    assert(item_mentions(view, member) == exists|i: int|
        0 <= i < items.len() && item_mentions(#[trigger] items[i], member));
}

proof fn lemma_group_admits(group: Rc<FilterGroup>, member: Seq<char>, value: Seq<char>)
    ensures
        item_admits(filter_view(FilterItem::Group(group)), member, value) == (
        match group.operator {
            FilterGroupOperator::And => admits(filter_views(group.items@), member, value),
            FilterGroupOperator::Or => group.items@.len() == 0 || exists|i: int|
                0 <= i < group.items@.len() && item_admits(
                    #[trigger] filter_views(group.items@)[i],
                    member,
                    value,
                ),
        }),
{
    lemma_group_view(group);
    let view = filter_view(FilterItem::Group(group));
    let items = filter_views(group.items@);
    assert(view->items == items);
    assert(items.len() == group.items@.len());
}

/// Whether the filters hold a condition on the member.
pub fn filters_mention(filters: &Vec<FilterItem>, member: &String) -> (found: bool)
    ensures
        found == mentions(filter_views(filters@), member@),
    decreases filters, 0nat,
{
    let mut i: usize = 0;
    while i < filters.len()
        invariant
            i <= filters@.len(),
            forall|j: int|
                0 <= j < i ==> !item_mentions(#[trigger] filter_views(filters@)[j], member@),
        decreases filters@.len() - i,
    {
        let found: bool = filter_mentions(&filters[i], member);
        assert(found == item_mentions(filter_views(filters@)[i as int], member@));
        if found {
            return true;
        }
        i += 1;
    }
    false
}

fn filter_mentions(filter: &FilterItem, member: &String) -> (found: bool)
    ensures
        found == item_mentions(filter_view(*filter), member@),
    decreases *filter, 1nat,
{
    match filter {
        FilterItem::Group(group) => {
            proof {
                lemma_group_mentions(*group, member@);
            }
            filters_mention(&group.items, member)
        },
        FilterItem::Item(item) => item.member_name() == *member,
        FilterItem::Segment(_) => false,
    }
}

/// Whether a row on which the member has the value can pass all filters.
pub fn filters_admit(filters: &Vec<FilterItem>, member: &String, value: &String) -> (result: bool)
    ensures
        result == admits(filter_views(filters@), member@, value@),
    decreases filters, 0nat,
{
    let mut i: usize = 0;
    while i < filters.len()
        invariant
            i <= filters@.len(),
            forall|j: int|
                0 <= j < i ==> item_admits(
                    #[trigger] filter_views(filters@)[j],
                    member@,
                    value@,
                ),
        decreases filters@.len() - i,
    {
        let admitted: bool = filter_admits(&filters[i], member, value);
        assert(admitted == item_admits(filter_views(filters@)[i as int], member@, value@));
        if !admitted {
            return false;
        }
        i += 1;
    }
    true
}

/// Whether a row on which the member has the value can pass one of the filters.
fn some_filter_admits(filters: &Vec<FilterItem>, member: &String, value: &String) -> (result: bool)
    ensures
        result == exists|i: int|
            0 <= i < filters@.len() && item_admits(
                #[trigger] filter_views(filters@)[i],
                member@,
                value@,
            ),
    decreases filters, 0nat,
{
    let mut i: usize = 0;
    while i < filters.len()
        invariant
            i <= filters@.len(),
            forall|j: int|
                0 <= j < i ==> !item_admits(
                    #[trigger] filter_views(filters@)[j],
                    member@,
                    value@,
                ),
        decreases filters@.len() - i,
    {
        let admitted: bool = filter_admits(&filters[i], member, value);
        assert(admitted == item_admits(filter_views(filters@)[i as int], member@, value@));
        if admitted {
            return true;
        }
        i += 1;
    }
    false
}

fn filter_admits(filter: &FilterItem, member: &String, value: &String) -> (result: bool)
    ensures
        result == item_admits(filter_view(*filter), member@, value@),
    decreases *filter, 1nat,
{
    match filter {
        FilterItem::Group(group) => {
            proof {
                lemma_group_admits(*group, member@, value@);
            }
            let result: bool = match group.operator {
                FilterGroupOperator::And => filters_admit(&group.items, member, value),
                FilterGroupOperator::Or => group.items.len() == 0 || some_filter_admits(
                    &group.items,
                    member,
                    value,
                ),
            };
            result
        },
        FilterItem::Item(item) => if item.member_name() == *member {
            match item.filter_operator {
                FilterOperator::Equal => item.has_value(value),
                FilterOperator::NotEqual => !item.has_value(value),
                _ => true,
            }
        } else {
            true
        },
        FilterItem::Segment(_) => true,
    }
}

// ---------------------------------------------------------------------------------------------
// Comparing
// ---------------------------------------------------------------------------------------------

/// What two filters have in common that mean the same: the name of the member stands for the
/// member.
pub enum FilterKey {
    Group { operator: FilterGroupOperator, items: Seq<FilterKey> },
    Item {
        member: Seq<char>,
        filter_type: FilterType,
        filter_operator: FilterOperator,
        values: Seq<Option<Seq<char>>>,
    },
    Segment(Seq<char>),
}

pub open spec fn filter_key(filter: FilterView) -> FilterKey
    decreases filter,
{
    match filter {
        FilterView::Group { operator, items } => FilterKey::Group {
            operator,
            items: Seq::new(
                items.len(),
                |i: int|
                    if 0 <= i < items.len() {
                        filter_key(items[i])
                    } else {
                        arbitrary()
                    },
            ),
        },
        FilterView::Item(item) => FilterKey::Item {
            member: filtered_member(item),
            filter_type: item.filter_type,
            filter_operator: item.filter_operator,
            values: item.values,
        },
        FilterView::Segment(name) => FilterKey::Segment(name),
    }
}

pub open spec fn filter_keys(filters: Seq<FilterView>) -> Seq<FilterKey> {
    filters.map_values(|f: FilterView| filter_key(f))
}

proof fn lemma_group_key(group: Rc<FilterGroup>)
    ensures
        filter_key(filter_view(FilterItem::Group(group))) == (FilterKey::Group {
            operator: group.operator,
            items: filter_keys(filter_views(group.items@)),
        }),
{
    lemma_group_view(group);
    assert(filter_key(filter_view(FilterItem::Group(group)))->Group_items =~= filter_keys(
        filter_views(group.items@),
    ));
}

fn same_values(a: &Vec<Option<String>>, b: &Vec<Option<String>>) -> (result: bool)
    ensures
        result == (optional_texts(a@) == optional_texts(b@)),
{
    if a.len() != b.len() {
        assert(optional_texts(a@).len() != optional_texts(b@).len());
        return false;
    }
    let mut i: usize = 0;
    while i < a.len()
        invariant
            i <= a@.len(),
            a@.len() == b@.len(),
            forall|j: int| 0 <= j < i ==> optional_texts(a@)[j] == optional_texts(b@)[j],
        decreases a@.len() - i,
    {
        let same: bool = match (&a[i], &b[i]) {
            (Some(x), Some(y)) => *x == *y,
            (None, None) => true,
            _ => false,
        };
        assert(same == (optional_texts(a@)[i as int] == optional_texts(b@)[i as int]));
        if !same {
            return false;
        }
        i += 1;
    }
    assert(optional_texts(a@) =~= optional_texts(b@));
    true
}

fn same_filter(a: &FilterItem, b: &FilterItem) -> (result: bool)
    ensures
        result == (filter_key(filter_view(*a)) == filter_key(filter_view(*b))),
    decreases *a, 1nat,
{
    match (a, b) {
        (FilterItem::Group(x), FilterItem::Group(y)) => {
            proof {
                lemma_group_key(*x);
                lemma_group_key(*y);
            }
            x.operator == y.operator && same_filters(&x.items, &y.items)
        },
        (FilterItem::Item(x), FilterItem::Item(y)) => {
            x.filter_type == y.filter_type && x.filter_operator == y.filter_operator
                && x.member_name() == y.member_name() && same_values(&x.values, &y.values)
        },
        (FilterItem::Segment(x), FilterItem::Segment(y)) => x.full_name == y.full_name,
        _ => false,
    }
}

/// Whether two lists of filters mean the same, filter by filter.
pub fn same_filters(a: &Vec<FilterItem>, b: &Vec<FilterItem>) -> (result: bool)
    ensures
        result == (filter_keys(filter_views(a@)) == filter_keys(filter_views(b@))),
    decreases a, 0nat,
{
    let ghost a_keys = filter_keys(filter_views(a@));
    let ghost b_keys = filter_keys(filter_views(b@));
    if a.len() != b.len() {
        assert(a_keys.len() != b_keys.len());
        return false;
    }
    let mut i: usize = 0;
    while i < a.len()
        invariant
            i <= a@.len(),
            a@.len() == b@.len(),
            a_keys == filter_keys(filter_views(a@)),
            b_keys == filter_keys(filter_views(b@)),
            forall|j: int| 0 <= j < i ==> a_keys[j] == b_keys[j],
        decreases a@.len() - i,
    {
        let same: bool = same_filter(&a[i], &b[i]);
        assert(same == (a_keys[i as int] == b_keys[i as int]));
        if !same {
            return false;
        }
        i += 1;
    }
    assert(a_keys =~= b_keys);
    true
}

} // verus!
