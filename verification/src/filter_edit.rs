//! Changes of filters.

use crate::filter::filter_view;
use crate::filter::filter_views;
use crate::filter::filtered_member;
use crate::filter::lemma_filter_views_push;
use crate::filter::lemma_filter_views_take;
use crate::filter::lemma_group_view;
use crate::filter::optional_texts;
use crate::filter::append_values;
use crate::filter::BaseFilter;
use crate::filter::BaseFilterView;
use crate::filter::FilterGroup;
use crate::filter::FilterItem;
use crate::filter::FilterOperator;
use crate::filter::FilterView;
use crate::text::contains_text;
use crate::text::texts;
use std::rc::Rc;
use vstd::prelude::*;

verus! {

/// A change that reaches every condition of a list of filters, at any depth.
pub enum FilterEdit {
    /// Conditions on these members, and segments of these names, are dropped.
    Exclude(Vec<String>),
    /// Conditions on other members, and segments of other names, are dropped.
    KeepOnly(Vec<String>),
    /// A date range on the member gets another operator and more values.
    ReplaceDateRange {
        member_name: String,
        filter_operator: FilterOperator,
        additional_values: Vec<Option<String>>,
    },
    /// A date range on the member loses its start, its end or both.
    OpenDateRange { member_name: String, open_start: bool, open_end: bool },
}

/// The content of a [`FilterEdit`].
pub enum FilterEditView {
    Exclude(Seq<Seq<char>>),
    KeepOnly(Seq<Seq<char>>),
    ReplaceDateRange {
        member_name: Seq<char>,
        filter_operator: FilterOperator,
        additional_values: Seq<Option<Seq<char>>>,
    },
    OpenDateRange { member_name: Seq<char>, open_start: bool, open_end: bool },
}

impl View for FilterEdit {
    type V = FilterEditView;

    open spec fn view(&self) -> FilterEditView {
        match self {
            FilterEdit::Exclude(names) => FilterEditView::Exclude(texts(names@)),
            FilterEdit::KeepOnly(names) => FilterEditView::KeepOnly(texts(names@)),
            FilterEdit::ReplaceDateRange { member_name, filter_operator, additional_values } => {
                FilterEditView::ReplaceDateRange {
                    member_name: member_name@,
                    filter_operator: *filter_operator,
                    additional_values: optional_texts(additional_values@),
                }
            },
            FilterEdit::OpenDateRange { member_name, open_start, open_end } => {
                FilterEditView::OpenDateRange {
                    member_name: member_name@,
                    open_start: *open_start,
                    open_end: *open_end,
                }
            },
        }
    }
}

pub open spec fn first_value(values: Seq<Option<Seq<char>>>) -> Seq<Option<Seq<char>>> {
    if values.len() > 0 {
        seq![values.first()]
    } else {
        values
    }
}

pub open spec fn last_value(values: Seq<Option<Seq<char>>>) -> Seq<Option<Seq<char>>> {
    if values.len() > 0 {
        seq![values.last()]
    } else {
        values
    }
}

/// Whether a condition bounds the member to a range of dates.
pub open spec fn is_date_range_on(item: BaseFilterView, member: Seq<char>) -> bool {
    filtered_member(item) == member && item.filter_operator == FilterOperator::InDateRange
}

/// What becomes of one condition.
pub open spec fn edited_item(edit: FilterEditView, item: BaseFilterView) -> Option<
    BaseFilterView,
> {
    match edit {
        FilterEditView::Exclude(names) => if names.contains(filtered_member(item)) {
            None
        } else {
            Some(item)
        },
        FilterEditView::KeepOnly(names) => if names.contains(filtered_member(item)) {
            Some(item)
        } else {
            None
        },
        FilterEditView::ReplaceDateRange { member_name, filter_operator, additional_values } => {
            if is_date_range_on(item, member_name) {
                Some(
                    BaseFilterView {
                        filter_operator,
                        values: item.values + additional_values,
                        ..item
                    },
                )
            } else {
                Some(item)
            }
        },
        FilterEditView::OpenDateRange { member_name, open_start, open_end } => {
            if !is_date_range_on(item, member_name) || (!open_start && !open_end) {
                Some(item)
            } else if open_start && open_end {
                None
            } else if open_start {
                Some(
                    BaseFilterView {
                        filter_operator: FilterOperator::BeforeOrOnDate,
                        values: last_value(item.values),
                        ..item
                    },
                )
            } else {
                Some(
                    BaseFilterView {
                        filter_operator: FilterOperator::AfterOrOnDate,
                        values: first_value(item.values),
                        ..item
                    },
                )
            }
        },
    }
}

/// Whether a segment stays.
pub open spec fn keeps_segment(edit: FilterEditView, name: Seq<char>) -> bool {
    match edit {
        FilterEditView::Exclude(names) => !names.contains(name),
        FilterEditView::KeepOnly(names) => names.contains(name),
        _ => true,
    }
}

/// What becomes of one filter. A group of which nothing is left goes with its items.
pub open spec fn edited_filter(edit: FilterEditView, filter: FilterView) -> Option<FilterView>
    decreases filter,
{
    match filter {
        FilterView::Group { operator, items } => {
            let rest = edited(edit, items);
            if rest.len() == 0 {
                None
            } else {
                Some(FilterView::Group { operator, items: rest })
            }
        },
        FilterView::Item(item) => match edited_item(edit, item) {
            Some(item) => Some(FilterView::Item(item)),
            None => None,
        },
        FilterView::Segment(name) => if keeps_segment(edit, name) {
            Some(filter)
        } else {
            None
        },
    }
}

/// What becomes of a list of filters.
pub open spec fn edited(edit: FilterEditView, filters: Seq<FilterView>) -> Seq<FilterView>
    decreases filters,
{
    if filters.len() == 0 {
        Seq::empty()
    } else {
        let rest = edited(edit, filters.drop_last());
        match edited_filter(edit, filters.last()) {
            Some(filter) => rest.push(filter),
            None => rest,
        }
    }
}

impl FilterEdit {
    fn is_date_range(item: &Rc<BaseFilter>, member_name: &String) -> (result: bool)
        ensures
            result == is_date_range_on(item@, member_name@),
    {
        match item.filter_operator {
            FilterOperator::InDateRange => item.member_name() == *member_name,
            _ => false,
        }
    }

    fn one_value(item: &Rc<BaseFilter>, operator: FilterOperator, last: bool) -> (result: Rc<
        BaseFilter,
    >)
        ensures
            result@ == (BaseFilterView {
                filter_operator: operator,
                values: if last {
                    last_value(item@.values)
                } else {
                    first_value(item@.values)
                },
                ..item@
            }),
    {
        let mut values: Vec<Option<String>> = Vec::new();
        if item.values.len() > 0 {
            let at: usize = if last {
                item.values.len() - 1
            } else {
                0
            };
            let value: Option<String> = item.values[at].clone();
            values.push(value);
            assert(optional_texts(values@) =~= seq![item@.values[at as int]]);
        } else {
            assert(optional_texts(values@) =~= item@.values);
        }
        BaseFilter::new(item.member.clone(), item.filter_type, operator, values)
    }

    /// What becomes of one condition.
    fn apply_to_item(&self, item: &Rc<BaseFilter>) -> (result: Option<Rc<BaseFilter>>)
        ensures
            match result {
                Some(changed) => edited_item(self@, item@) == Some(changed@),
                None => edited_item(self@, item@) is None,
            },
    {
        match self {
            FilterEdit::Exclude(names) => if contains_text(names, &item.member_name()) {
                None
            } else {
                Some(item.clone())
            },
            FilterEdit::KeepOnly(names) => if contains_text(names, &item.member_name()) {
                Some(item.clone())
            } else {
                None
            },
            FilterEdit::ReplaceDateRange { member_name, filter_operator, additional_values } => {
                if Self::is_date_range(item, member_name) {
                    let mut values: Vec<Option<String>> = Vec::new();
                    append_values(&mut values, &item.values);
                    append_values(&mut values, additional_values);
                    assert(optional_texts(values@) =~= item@.values + optional_texts(
                        additional_values@,
                    ));
                    Some(
                        BaseFilter::new(
                            item.member.clone(),
                            item.filter_type,
                            *filter_operator,
                            values,
                        ),
                    )
                } else {
                    Some(item.clone())
                }
            },
            FilterEdit::OpenDateRange { member_name, open_start, open_end } => {
                if (!*open_start && !*open_end) || !Self::is_date_range(item, member_name) {
                    Some(item.clone())
                } else if *open_start && *open_end {
                    None
                } else if *open_start {
                    Some(Self::one_value(item, FilterOperator::BeforeOrOnDate, true))
                } else {
                    Some(Self::one_value(item, FilterOperator::AfterOrOnDate, false))
                }
            },
        }
    }

    fn keeps(&self, segment: &String) -> (result: bool)
        ensures
            result == keeps_segment(self@, segment@),
    {
        match self {
            FilterEdit::Exclude(names) => !contains_text(names, segment),
            FilterEdit::KeepOnly(names) => contains_text(names, segment),
            _ => true,
        }
    }

    fn apply_to_filter(&self, filter: &FilterItem) -> (result: Option<FilterItem>)
        ensures
            match result {
                Some(changed) => edited_filter(self@, filter_view(*filter)) == Some(
                    filter_view(changed),
                ),
                None => edited_filter(self@, filter_view(*filter)) is None,
            },
        decreases *filter, 1nat,
    {
        match filter {
            FilterItem::Group(group) => {
                let items: Vec<FilterItem> = self.apply(&group.items);
                proof {
                    lemma_group_view(*group);
                    assert(filter_views(items@).len() == items@.len());
                }
                if items.len() == 0 {
                    None
                } else {
                    let changed: Rc<FilterGroup> = Rc::new(
                        FilterGroup { operator: group.operator, items },
                    );
                    proof {
                        lemma_group_view(changed);
                    }
                    Some(FilterItem::Group(changed))
                }
            },
            FilterItem::Item(item) => match self.apply_to_item(item) {
                Some(item) => Some(FilterItem::Item(item)),
                None => None,
            },
            FilterItem::Segment(segment) => if self.keeps(&segment.full_name) {
                Some(filter.clone())
            } else {
                None
            },
        }
    }

    /// What becomes of a list of filters.
    pub fn apply(&self, filters: &Vec<FilterItem>) -> (result: Vec<FilterItem>)
        ensures
            filter_views(result@) == edited(self@, filter_views(filters@)),
        decreases filters, 0nat,
    {
        let mut result: Vec<FilterItem> = Vec::new();
        let mut i: usize = 0;
        assert(filter_views(filters@).take(0) =~= Seq::<FilterView>::empty());
        assert(filter_views(result@) =~= Seq::<FilterView>::empty());
        while i < filters.len()
            invariant
                i <= filters@.len(),
                filter_views(result@) == edited(self@, filter_views(filters@).take(i as int)),
            decreases filters@.len() - i,
        {
            proof {
                lemma_filter_views_take(filters@, i as int);
                let next = filter_views(filters@).take(i + 1);
                assert(next.drop_last() =~= filter_views(filters@).take(i as int));
            }
            if let Some(changed) = self.apply_to_filter(&filters[i]) {
                proof {
                    lemma_filter_views_push(result@, changed);
                }
                result.push(changed);
            }
            i += 1;
        }
        assert(filter_views(filters@).take(i as int) =~= filter_views(filters@));
        result
    }
}

} // verus!
