//! Laws of filters: what a change leaves as it is, and what a filter can rule out.

use crate::filter::BaseFilterView;
use crate::filter::FilterGroupOperator;
use crate::filter::FilterOperator;
use crate::filter::FilterView;
use crate::filter::admits;
use crate::filter::filter_key;
use crate::filter::filter_keys;
use crate::filter::item_admits;
use crate::filter::item_mentions;
use crate::filter::mentions;
use crate::filter_edit::FilterEditView;
use crate::filter_edit::edited;
use crate::filter_edit::edited_filter;
use crate::filter_edit::edited_item;
use crate::filter_edit::keeps_segment;
use crate::symbol::full_name;
use crate::symbol::inner;
use vstd::prelude::*;

verus! {

// ---------------------------------------------------------------------------------------------
// Conditions
// ---------------------------------------------------------------------------------------------

/// What filters are made of.
pub enum Leaf {
    Condition(BaseFilterView),
    Segment(Seq<char>),
}

/// A condition or a segment, with the operators of the groups around it, outermost first.
pub struct PlacedLeaf {
    pub above: Seq<FilterGroupOperator>,
    pub leaf: Leaf,
}

/// The conditions and segments of a filter, in order.
pub open spec fn item_leaves(filter: FilterView, above: Seq<FilterGroupOperator>) -> Seq<PlacedLeaf>
    decreases filter,
{
    match filter {
        FilterView::Group { operator, items } => leaves_below(items, above.push(operator)),
        FilterView::Item(item) => seq![PlacedLeaf { above, leaf: Leaf::Condition(item) }],
        FilterView::Segment(name) => seq![PlacedLeaf { above, leaf: Leaf::Segment(name) }],
    }
}

/// The conditions and segments of filters that stand in groups, in order.
pub open spec fn leaves_below(
    filters: Seq<FilterView>,
    above: Seq<FilterGroupOperator>,
) -> Seq<PlacedLeaf>
    decreases filters,
{
    if filters.len() == 0 {
        Seq::empty()
    } else {
        leaves_below(filters.drop_last(), above) + item_leaves(filters.last(), above)
    }
}

/// The conditions and segments of filters, in order.
pub open spec fn leaves(filters: Seq<FilterView>) -> Seq<PlacedLeaf> {
    leaves_below(filters, Seq::empty())
}

/// The name of the member that a condition is on, or of a segment.
pub open spec fn leaf_name(placed: PlacedLeaf) -> Seq<char> {
    match placed.leaf {
        Leaf::Condition(item) => full_name(*item.member),
        Leaf::Segment(name) => name,
    }
}

/// Whether a condition bounds the member of this name to a range of dates.
pub open spec fn is_range(placed: PlacedLeaf, member: Seq<char>) -> bool {
    &&& placed.leaf matches Leaf::Condition(item)
    &&& item.filter_operator == FilterOperator::InDateRange
    &&& full_name(*item.member) == member
}

spec fn edited_leaf(edit: FilterEditView, placed: PlacedLeaf) -> Option<PlacedLeaf> {
    match placed.leaf {
        Leaf::Condition(item) => match edited_item(edit, item) {
            Some(item) => Some(PlacedLeaf { leaf: Leaf::Condition(item), ..placed }),
            None => None,
        },
        Leaf::Segment(name) => if keeps_segment(edit, name) {
            Some(placed)
        } else {
            None
        },
    }
}

spec fn edited_leaves(edit: FilterEditView, all: Seq<PlacedLeaf>) -> Seq<PlacedLeaf>
    decreases all.len(),
{
    if all.len() == 0 {
        Seq::empty()
    } else {
        let rest = edited_leaves(edit, all.drop_last());
        match edited_leaf(edit, all.last()) {
            Some(placed) => rest.push(placed),
            None => rest,
        }
    }
}

proof fn lemma_edited_leaves_add(edit: FilterEditView, a: Seq<PlacedLeaf>, b: Seq<PlacedLeaf>)
    ensures
        edited_leaves(edit, a + b) == edited_leaves(edit, a) + edited_leaves(edit, b),
    decreases b.len(),
{
    if b.len() == 0 {
        assert(a + b == a);
    } else {
        assert((a + b).drop_last() == a + b.drop_last());
        lemma_edited_leaves_add(edit, a, b.drop_last());
        let all = edited_leaves(edit, a) + edited_leaves(edit, b);
        assert(edited_leaves(edit, a + b) == all);
    }
}

proof fn lemma_leaves_push(
    filters: Seq<FilterView>,
    filter: FilterView,
    above: Seq<FilterGroupOperator>,
)
    ensures
        leaves_below(filters.push(filter), above) == leaves_below(filters, above) + item_leaves(
            filter,
            above,
        ),
{
    assert(filters.push(filter).drop_last() == filters);
}

pub proof fn lemma_leaves_add(
    a: Seq<FilterView>,
    b: Seq<FilterView>,
    above: Seq<FilterGroupOperator>,
)
    ensures
        leaves_below(a + b, above) == leaves_below(a, above) + leaves_below(b, above),
    decreases b.len(),
{
    if b.len() == 0 {
        assert(a + b == a);
        assert(leaves_below(a, above) + leaves_below(b, above) == leaves_below(a, above));
    } else {
        assert((a + b).drop_last() == a + b.drop_last());
        lemma_leaves_add(a, b.drop_last(), above);
        assert(leaves_below(a + b, above) == leaves_below(a, above) + leaves_below(b, above));
    }
}

proof fn lemma_item_leaves_edited(
    edit: FilterEditView,
    filter: FilterView,
    above: Seq<FilterGroupOperator>,
)
    ensures
        (match edited_filter(edit, filter) {
            Some(rest) => item_leaves(rest, above),
            None => Seq::empty(),
        }) == edited_leaves(edit, item_leaves(filter, above)),
    decreases filter,
{
    match filter {
        FilterView::Group { operator, items } => {
            lemma_leaves_edited(edit, items, above.push(operator));
        },
        _ => {
            let single = item_leaves(filter, above);
            assert(single.drop_last() == Seq::<PlacedLeaf>::empty());
            assert(edited_leaves(edit, single.drop_last()) == Seq::<PlacedLeaf>::empty());
        },
    }
}

proof fn lemma_leaves_edited(
    edit: FilterEditView,
    filters: Seq<FilterView>,
    above: Seq<FilterGroupOperator>,
)
    ensures
        leaves_below(edited(edit, filters), above) == edited_leaves(
            edit,
            leaves_below(filters, above),
        ),
    decreases filters,
{
    if filters.len() > 0 {
        let before = filters.drop_last();
        lemma_leaves_edited(edit, before, above);
        lemma_item_leaves_edited(edit, filters.last(), above);
        lemma_edited_leaves_add(
            edit,
            leaves_below(before, above),
            item_leaves(filters.last(), above),
        );
        match edited_filter(edit, filters.last()) {
            Some(rest) => {
                lemma_leaves_push(edited(edit, before), rest, above);
            },
            None => {},
        }
    }
}

/// Whether a condition is on the member of this name.
pub open spec fn is_condition_on(placed: PlacedLeaf, member: Seq<char>) -> bool {
    placed.leaf matches Leaf::Condition(item) && full_name(*item.member) == member
}

/// Whether one of the conditions is on the member of this name.
pub open spec fn has_condition_on(all: Seq<PlacedLeaf>, member: Seq<char>) -> bool {
    exists|i: int| 0 <= i < all.len() && is_condition_on(#[trigger] all[i], member)
}

pub proof fn lemma_condition_add(a: Seq<PlacedLeaf>, b: Seq<PlacedLeaf>, member: Seq<char>)
    ensures
        has_condition_on(a + b, member) == (has_condition_on(a, member) || has_condition_on(
            b,
            member,
        )),
{
    let all = a + b;
    if has_condition_on(a, member) {
        let i = choose|i: int| 0 <= i < a.len() && is_condition_on(#[trigger] a[i], member);
        assert(is_condition_on(all[i], member));
    }
    if has_condition_on(b, member) {
        let i = choose|i: int| 0 <= i < b.len() && is_condition_on(#[trigger] b[i], member);
        assert(is_condition_on(all[a.len() + i], member));
    }
    if has_condition_on(all, member) {
        let i = choose|i: int| 0 <= i < all.len() && is_condition_on(#[trigger] all[i], member);
        if i < a.len() {
            assert(is_condition_on(a[i], member));
        } else {
            assert(is_condition_on(b[i - a.len()], member));
        }
    }
}

proof fn lemma_item_mentioned(
    filter: FilterView,
    above: Seq<FilterGroupOperator>,
    member: Seq<char>,
)
    ensures
        item_mentions(filter, member) == has_condition_on(item_leaves(filter, above), member),
    decreases filter,
{
    match filter {
        FilterView::Group { operator, items } => {
            lemma_mentioned(items, above.push(operator), member);
            assert(item_mentions(filter, member) == exists|i: int|
                0 <= i < items.len() && item_mentions(#[trigger] items[i], member));
        },
        FilterView::Item(item) => {
            let single = item_leaves(filter, above);
            assert(is_condition_on(single[0], member) == (full_name(inner(item.member)) == member));
        },
        FilterView::Segment(name) => {},
    }
}

proof fn lemma_mentioned(
    filters: Seq<FilterView>,
    above: Seq<FilterGroupOperator>,
    member: Seq<char>,
)
    ensures
        mentions(filters, member) == has_condition_on(leaves_below(filters, above), member),
    decreases filters,
{
    if filters.len() > 0 {
        let before = filters.drop_last();
        let last = filters.last();
        lemma_mentioned(before, above, member);
        lemma_item_mentioned(last, above, member);
        lemma_condition_add(leaves_below(before, above), item_leaves(last, above), member);
        assert(filters[filters.len() - 1] == last);
        assert forall|i: int| 0 <= i < before.len() implies #[trigger] filters[i] == before[i] by {}
        if mentions(before, member) {
            let i = choose|i: int|
                0 <= i < before.len() && item_mentions(#[trigger] before[i], member);
            assert(item_mentions(filters[i], member));
        }
        if item_mentions(last, member) {
            assert(item_mentions(filters[filters.len() - 1], member));
        }
        if mentions(filters, member) {
            let i = choose|i: int|
                0 <= i < filters.len() && item_mentions(#[trigger] filters[i], member);
            if i < before.len() {
                assert(item_mentions(before[i], member));
            }
        }
    }
}

/// Filters mention exactly the members that their conditions are on, at any depth.
pub proof fn filters_mention_the_members_of_conditions(filters: Seq<FilterView>, member: Seq<char>)
    ensures
        mentions(filters, member) == has_condition_on(leaves(filters), member),
{
    lemma_mentioned(filters, Seq::empty(), member);
}

// ---------------------------------------------------------------------------------------------
// Exclusion
// ---------------------------------------------------------------------------------------------

proof fn lemma_excluded_leaves(names: Seq<Seq<char>>, all: Seq<PlacedLeaf>)
    ensures
        edited_leaves(FilterEditView::Exclude(names), all) == all.filter(
            |l: PlacedLeaf| !names.contains(leaf_name(l)),
        ),
    decreases all.len(),
{
    reveal(Seq::filter);
    if all.len() > 0 {
        lemma_excluded_leaves(names, all.drop_last());
    }
}

proof fn lemma_kept_leaves(names: Seq<Seq<char>>, all: Seq<PlacedLeaf>)
    ensures
        edited_leaves(FilterEditView::KeepOnly(names), all) == all.filter(
            |l: PlacedLeaf| names.contains(leaf_name(l)),
        ),
    decreases all.len(),
{
    reveal(Seq::filter);
    if all.len() > 0 {
        lemma_kept_leaves(names, all.drop_last());
    }
}

/// Excluding names leaves all conditions and segments of other names: the same ones, in the same
/// order, under the same operators. No others are left.
pub proof fn excluding_leaves_other_conditions_alone(
    names: Seq<Seq<char>>,
    filters: Seq<FilterView>,
)
    ensures
        leaves(edited(FilterEditView::Exclude(names), filters)) == leaves(filters).filter(
            |l: PlacedLeaf| !names.contains(leaf_name(l)),
        ),
{
    lemma_leaves_edited(FilterEditView::Exclude(names), filters, Seq::empty());
    lemma_excluded_leaves(names, leaves(filters));
}

/// Keeping only names leaves all conditions and segments of these names: the same ones, in the same
/// order, under the same operators. No others are left.
pub proof fn keeping_leaves_named_conditions_alone(
    names: Seq<Seq<char>>,
    filters: Seq<FilterView>,
)
    ensures
        leaves(edited(FilterEditView::KeepOnly(names), filters)) == leaves(filters).filter(
            |l: PlacedLeaf| names.contains(leaf_name(l)),
        ),
{
    lemma_leaves_edited(FilterEditView::KeepOnly(names), filters, Seq::empty());
    lemma_kept_leaves(names, leaves(filters));
}

/// Whether a filter holds a group of nothing.
pub open spec fn has_empty_group(filter: FilterView) -> bool
    decreases filter,
{
    match filter {
        FilterView::Group { items, .. } => items.len() == 0 || exists|i: int|
            0 <= i < items.len() && has_empty_group(#[trigger] items[i]),
        _ => false,
    }
}

/// Whether a filter is made of these names only, at any depth.
pub open spec fn is_named(filter: FilterView, names: spec_fn(Seq<char>) -> bool) -> bool
    decreases filter,
{
    match filter {
        FilterView::Group { items, .. } => forall|i: int|
            0 <= i < items.len() ==> is_named(#[trigger] items[i], names),
        FilterView::Item(item) => names(full_name(*item.member)),
        FilterView::Segment(name) => names(name),
    }
}

/// Whether a change spares the conditions and segments of a name.
pub open spec fn spares(edit: FilterEditView, name: Seq<char>) -> bool {
    match edit {
        FilterEditView::Exclude(names) => !names.contains(name),
        FilterEditView::KeepOnly(names) => names.contains(name),
        FilterEditView::ReplaceDateRange { member_name, .. } => name != member_name,
        FilterEditView::OpenDateRange { member_name, .. } => name != member_name,
    }
}

pub proof fn lemma_spared_list(edit: FilterEditView, filters: Seq<FilterView>)
    requires
        forall|i: int|
            0 <= i < filters.len() ==> !has_empty_group(#[trigger] filters[i]) && is_named(
                filters[i],
                |name: Seq<char>| spares(edit, name),
            ),
    ensures
        edited(edit, filters) == filters,
    decreases filters,
{
    if filters.len() > 0 {
        let before = filters.drop_last();
        let last = filters.last();
        assert(last == filters[filters.len() - 1]);
        assert forall|i: int| 0 <= i < before.len() implies !has_empty_group(
            #[trigger] before[i],
        ) && is_named(before[i], |name: Seq<char>| spares(edit, name)) by {
            assert(before[i] == filters[i]);
        }
        lemma_spared_list(edit, before);
        spared_filters_stay(edit, last);
        assert(before.push(last) == filters);
    }
}

/// A filter all of whose conditions and segments a change spares is left as it is.
pub proof fn spared_filters_stay(edit: FilterEditView, filter: FilterView)
    requires
        !has_empty_group(filter),
        is_named(filter, |name: Seq<char>| spares(edit, name)),
    ensures
        edited_filter(edit, filter) == Some(filter),
        edited(edit, seq![filter]) == seq![filter],
    decreases filter,
{
    match filter {
        FilterView::Group { operator, items } => {
            assert forall|i: int| 0 <= i < items.len() implies !has_empty_group(
                #[trigger] items[i],
            ) && is_named(items[i], |name: Seq<char>| spares(edit, name)) by {
                assert(has_empty_group(filter) == (items.len() == 0 || exists|i: int|
                    0 <= i < items.len() && has_empty_group(#[trigger] items[i])));
            }
            lemma_spared_list(edit, items);
        },
        _ => {},
    }
    let single = seq![filter];
    assert(single.drop_last() == Seq::<FilterView>::empty());
    assert(edited(edit, single.drop_last()) == Seq::<FilterView>::empty());
    assert(edited(edit, single) == single);
}

/// A change reaches each filter of a list by itself.
pub proof fn changes_reach_filters_one_by_one(
    edit: FilterEditView,
    a: Seq<FilterView>,
    b: Seq<FilterView>,
)
    ensures
        edited(edit, a + b) == edited(edit, a) + edited(edit, b),
    decreases b.len(),
{
    if b.len() == 0 {
        assert(a + b == a);
        assert(edited(edit, a) + edited(edit, b) == edited(edit, a));
    } else {
        assert((a + b).drop_last() == a + b.drop_last());
        changes_reach_filters_one_by_one(edit, a, b.drop_last());
        assert(edited(edit, a + b) == edited(edit, a) + edited(edit, b));
    }
}

/// A group of which something is left stays one group with its operator, over what is left of its
/// items. A group of which nothing is left goes.
pub proof fn groups_keep_their_operator(
    edit: FilterEditView,
    operator: FilterGroupOperator,
    items: Seq<FilterView>,
)
    ensures
        ({
            let rest = edited_filter(edit, FilterView::Group { operator, items });
            &&& rest is None == (edited(edit, items).len() == 0)
            &&& rest is Some ==> rest->0 == (FilterView::Group {
                operator,
                items: edited(edit, items),
            })
        }),
{
}

// ---------------------------------------------------------------------------------------------
// Date ranges
// ---------------------------------------------------------------------------------------------

/// Whether a condition has become another one on the same member, in the same place.
pub open spec fn becomes(
    before: PlacedLeaf,
    after: PlacedLeaf,
    operator: FilterOperator,
    values: Seq<Option<Seq<char>>>,
) -> bool {
    &&& after.above == before.above
    &&& before.leaf matches Leaf::Condition(old_item)
    &&& after.leaf matches Leaf::Condition(new_item)
    &&& new_item.member == old_item.member
    &&& new_item.filter_type == old_item.filter_type
    &&& new_item.filter_operator == operator
    &&& new_item.values == values
}

/// The values of a condition.
pub open spec fn leaf_values(placed: PlacedLeaf) -> Seq<Option<Seq<char>>> {
    match placed.leaf {
        Leaf::Condition(item) => item.values,
        Leaf::Segment(_) => Seq::empty(),
    }
}

proof fn lemma_replaced_leaves(
    member: Seq<char>,
    operator: FilterOperator,
    more: Seq<Option<Seq<char>>>,
    all: Seq<PlacedLeaf>,
)
    ensures
        ({
            let edit = FilterEditView::ReplaceDateRange {
                member_name: member,
                filter_operator: operator,
                additional_values: more,
            };
            let after = edited_leaves(edit, all);
            &&& after.len() == all.len()
            &&& forall|i: int|
                0 <= i < all.len() ==> if is_range(all[i], member) {
                    becomes(all[i], #[trigger] after[i], operator, leaf_values(all[i]) + more)
                } else {
                    after[i] == all[i]
                }
        }),
    decreases all.len(),
{
    if all.len() > 0 {
        lemma_replaced_leaves(member, operator, more, all.drop_last());
    }
}

/// Replacing a date range gives every date range on the member the operator and, behind its own
/// values, the additional ones. All else stays, in its place.
pub proof fn replacing_changes_date_ranges_only(
    member: Seq<char>,
    operator: FilterOperator,
    more: Seq<Option<Seq<char>>>,
    filters: Seq<FilterView>,
)
    ensures
        ({
            let before = leaves(filters);
            let after = leaves(
                edited(
                    FilterEditView::ReplaceDateRange {
                        member_name: member,
                        filter_operator: operator,
                        additional_values: more,
                    },
                    filters,
                ),
            );
            &&& after.len() == before.len()
            &&& forall|i: int|
                0 <= i < before.len() ==> if is_range(before[i], member) {
                    becomes(
                        before[i],
                        #[trigger] after[i],
                        operator,
                        leaf_values(before[i]) + more,
                    )
                } else {
                    after[i] == before[i]
                }
        }),
{
    lemma_leaves_edited(
        FilterEditView::ReplaceDateRange {
            member_name: member,
            filter_operator: operator,
            additional_values: more,
        },
        filters,
        Seq::empty(),
    );
    lemma_replaced_leaves(member, operator, more, leaves(filters));
}

/// Whether a condition has lost one end of its date range: it reaches to the last of its dates, or
/// from the first.
pub open spec fn has_opened(before: PlacedLeaf, after: PlacedLeaf, at_start: bool) -> bool {
    let dates = leaf_values(before);
    becomes(
        before,
        after,
        if at_start {
            FilterOperator::BeforeOrOnDate
        } else {
            FilterOperator::AfterOrOnDate
        },
        if dates.len() == 0 {
            dates
        } else if at_start {
            seq![dates[dates.len() - 1]]
        } else {
            seq![dates[0]]
        },
    )
}

proof fn lemma_opened_leaves(
    member: Seq<char>,
    open_start: bool,
    open_end: bool,
    all: Seq<PlacedLeaf>,
)
    ensures
        ({
            let after = edited_leaves(
                FilterEditView::OpenDateRange { member_name: member, open_start, open_end },
                all,
            );
            &&& open_start && open_end ==> after == all.filter(
                |l: PlacedLeaf| !is_range(l, member),
            )
            &&& !(open_start && open_end) ==> after.len() == all.len()
            &&& !(open_start && open_end) ==> forall|i: int|
                0 <= i < all.len() ==> if is_range(all[i], member) && (open_start || open_end) {
                    has_opened(all[i], #[trigger] after[i], open_start)
                } else {
                    after[i] == all[i]
                }
        }),
    decreases all.len(),
{
    reveal(Seq::filter);
    if all.len() > 0 {
        lemma_opened_leaves(member, open_start, open_end, all.drop_last());
    }
}

/// Opening a date range at one end leaves the other end of every date range on the member; opening
/// it at both ends drops them. All else stays, in its place.
pub proof fn opening_changes_date_ranges_only(
    member: Seq<char>,
    open_start: bool,
    open_end: bool,
    filters: Seq<FilterView>,
)
    ensures
        ({
            let before = leaves(filters);
            let after = leaves(
                edited(
                    FilterEditView::OpenDateRange { member_name: member, open_start, open_end },
                    filters,
                ),
            );
            &&& open_start && open_end ==> after == before.filter(
                |l: PlacedLeaf| !is_range(l, member),
            )
            &&& !(open_start && open_end) ==> after.len() == before.len()
            &&& !(open_start && open_end) ==> forall|i: int|
                0 <= i < before.len() ==> if is_range(before[i], member) && (open_start
                    || open_end) {
                    has_opened(before[i], #[trigger] after[i], open_start)
                } else {
                    after[i] == before[i]
                }
        }),
{
    lemma_leaves_edited(
        FilterEditView::OpenDateRange { member_name: member, open_start, open_end },
        filters,
        Seq::empty(),
    );
    lemma_opened_leaves(member, open_start, open_end, leaves(filters));
}

// ---------------------------------------------------------------------------------------------
// Sameness
// ---------------------------------------------------------------------------------------------

/// Whether two filters say the same: groups with the same operator over the same items, conditions
/// of the same kind on members of the same name with the same values, segments of the same name.
pub open spec fn say_the_same(a: FilterView, b: FilterView) -> bool
    decreases a,
{
    match (a, b) {
        (
            FilterView::Group { operator: a_operator, items: a_items },
            FilterView::Group { operator: b_operator, items: b_items },
        ) => {
            &&& a_operator == b_operator
            &&& a_items.len() == b_items.len()
            &&& forall|i: int|
                0 <= i < a_items.len() ==> say_the_same(#[trigger] a_items[i], b_items[i])
        },
        (FilterView::Item(a), FilterView::Item(b)) => {
            &&& full_name(*a.member) == full_name(*b.member)
            &&& a.filter_type == b.filter_type
            &&& a.filter_operator == b.filter_operator
            &&& a.values == b.values
        },
        (FilterView::Segment(a), FilterView::Segment(b)) => a == b,
        _ => false,
    }
}

/// Whether two lists of filters say the same, one by one.
pub open spec fn all_say_the_same(a: Seq<FilterView>, b: Seq<FilterView>) -> bool {
    &&& a.len() == b.len()
    &&& forall|i: int| 0 <= i < a.len() ==> say_the_same(#[trigger] a[i], b[i])
}

/// Filters are taken for the same if and only if they say the same.
pub proof fn filter_keys_tell_filters_apart(a: FilterView, b: FilterView)
    ensures
        (filter_key(a) == filter_key(b)) == say_the_same(a, b),
    decreases a,
{
    match (a, b) {
        (
            FilterView::Group { operator: a_operator, items: a_items },
            FilterView::Group { operator: b_operator, items: b_items },
        ) => {
            let a_keys = filter_key(a)->Group_items;
            let b_keys = filter_key(b)->Group_items;
            assert(a_keys.len() == a_items.len() && b_keys.len() == b_items.len());
            assert forall|i: int| 0 <= i < a_items.len() && i < b_items.len() implies (a_keys[i]
                == b_keys[i]) == say_the_same(#[trigger] a_items[i], b_items[i]) by {
                filter_keys_tell_filters_apart(a_items[i], b_items[i]);
            }
            if say_the_same(a, b) {
                assert forall|i: int| 0 <= i < a_keys.len() implies a_keys[i] == b_keys[i] by {
                    assert(say_the_same(a_items[i], b_items[i]));
                }
                assert(a_keys == b_keys);
            }
            if filter_key(a) == filter_key(b) {
                assert forall|i: int| 0 <= i < a_items.len() implies say_the_same(
                    #[trigger] a_items[i],
                    b_items[i],
                ) by {
                    assert(a_keys[i] == b_keys[i]);
                }
            }
        },
        _ => {},
    }
}

/// Lists of filters are taken for the same if and only if they say the same.
pub proof fn filter_keys_tell_lists_apart(a: Seq<FilterView>, b: Seq<FilterView>)
    ensures
        (filter_keys(a) == filter_keys(b)) == all_say_the_same(a, b),
{
    let a_keys = filter_keys(a);
    let b_keys = filter_keys(b);
    assert(a_keys.len() == a.len() && b_keys.len() == b.len());
    assert forall|i: int| 0 <= i < a.len() && i < b.len() implies (a_keys[i] == b_keys[i])
        == say_the_same(#[trigger] a[i], b[i]) by {
        filter_keys_tell_filters_apart(a[i], b[i]);
    }
    if all_say_the_same(a, b) {
        assert forall|i: int| 0 <= i < a_keys.len() implies a_keys[i] == b_keys[i] by {
            assert(say_the_same(a[i], b[i]));
        }
        assert(a_keys == b_keys);
    }
    if a_keys == b_keys {
        assert forall|i: int| 0 <= i < a.len() implies say_the_same(#[trigger] a[i], b[i]) by {
            assert(a_keys[i] == b_keys[i]);
        }
    }
}

// ---------------------------------------------------------------------------------------------
// What filters rule out
// ---------------------------------------------------------------------------------------------

/// Whether a row passes a filter, if this is what it makes of conditions and segments.
pub open spec fn row_passes(filter: FilterView, row: spec_fn(Leaf) -> bool) -> bool
    decreases filter,
{
    match filter {
        FilterView::Group { operator: FilterGroupOperator::And, items } => forall|i: int|
            0 <= i < items.len() ==> row_passes(#[trigger] items[i], row),
        FilterView::Group { operator: FilterGroupOperator::Or, items } => exists|i: int|
            0 <= i < items.len() && row_passes(#[trigger] items[i], row),
        FilterView::Item(item) => row(Leaf::Condition(item)),
        FilterView::Segment(name) => row(Leaf::Segment(name)),
    }
}

/// Whether a row can have this value for the member of this name: it meets conditions of equality
/// on the member accordingly.
pub open spec fn can_have(row: spec_fn(Leaf) -> bool, member: Seq<char>, value: Seq<char>) -> bool {
    forall|item: BaseFilterView|
        full_name(*item.member) == member && #[trigger] row(Leaf::Condition(item)) ==> {
            &&& item.filter_operator == FilterOperator::Equal ==> item.values.contains(Some(value))
            &&& item.filter_operator == FilterOperator::NotEqual ==> !item.values.contains(
                Some(value),
            )
        }
}

proof fn lemma_row_admitted(
    filter: FilterView,
    row: spec_fn(Leaf) -> bool,
    member: Seq<char>,
    value: Seq<char>,
)
    requires
        can_have(row, member, value),
        row_passes(filter, row),
    ensures
        item_admits(filter, member, value),
    decreases filter,
{
    match filter {
        FilterView::Group { operator: FilterGroupOperator::And, items } => {
            assert forall|i: int| 0 <= i < items.len() implies item_admits(
                #[trigger] items[i],
                member,
                value,
            ) by {
                assert(row_passes(items[i], row));
                lemma_row_admitted(items[i], row, member, value);
            }
        },
        FilterView::Group { operator: FilterGroupOperator::Or, items } => {
            let i = choose|i: int| 0 <= i < items.len() && row_passes(#[trigger] items[i], row);
            lemma_row_admitted(items[i], row, member, value);
            assert(item_admits(items[i], member, value));
        },
        FilterView::Item(item) => {
            assert(row(Leaf::Condition(item)));
        },
        FilterView::Segment(_) => {},
    }
}

/// A value of a member is not ruled out if a row with the value can pass all filters.
pub proof fn values_of_passing_rows_are_admitted(
    filters: Seq<FilterView>,
    row: spec_fn(Leaf) -> bool,
    member: Seq<char>,
    value: Seq<char>,
)
    requires
        can_have(row, member, value),
        forall|i: int| 0 <= i < filters.len() ==> row_passes(#[trigger] filters[i], row),
    ensures
        admits(filters, member, value),
{
    assert forall|i: int| 0 <= i < filters.len() implies item_admits(
        #[trigger] filters[i],
        member,
        value,
    ) by {
        lemma_row_admitted(filters[i], row, member, value);
    }
}

/// A value is ruled out by a condition that the member equals others, or does not equal it.
pub proof fn conditions_of_equality_rule_values_out(
    filters: Seq<FilterView>,
    i: int,
    value: Seq<char>,
)
    requires
        0 <= i < filters.len(),
        filters[i] is Item,
        ({
            let item = filters[i]->Item_0;
            ||| item.filter_operator == FilterOperator::Equal && !item.values.contains(Some(value))
            ||| item.filter_operator == FilterOperator::NotEqual && item.values.contains(Some(value))
        }),
    ensures
        !admits(filters, full_name(*filters[i]->Item_0.member), value),
{
    assert(!item_admits(filters[i], full_name(inner(filters[i]->Item_0.member)), value));
}

/// Whether two changes are of the same kind, by lists of the same names.
pub open spec fn names_alike(a: FilterEditView, b: FilterEditView) -> bool {
    match (a, b) {
        (FilterEditView::Exclude(a), FilterEditView::Exclude(b)) => forall|name: Seq<char>|
            #[trigger] a.contains(name) == b.contains(name),
        (FilterEditView::KeepOnly(a), FilterEditView::KeepOnly(b)) => forall|name: Seq<char>|
            #[trigger] a.contains(name) == b.contains(name),
        _ => false,
    }
}

proof fn lemma_edited_filter_alike(a: FilterEditView, b: FilterEditView, filter: FilterView)
    requires
        names_alike(a, b),
    ensures
        edited_filter(a, filter) == edited_filter(b, filter),
    decreases filter,
{
    match filter {
        FilterView::Group { operator, items } => {
            names_alone_decide(a, b, items);
        },
        _ => {},
    }
}

/// What is left after names are excluded, or kept only, depends on the names alone, not on their
/// order or how often they are listed.
pub proof fn names_alone_decide(a: FilterEditView, b: FilterEditView, filters: Seq<FilterView>)
    requires
        names_alike(a, b),
    ensures
        edited(a, filters) == edited(b, filters),
    decreases filters,
{
    if filters.len() > 0 {
        names_alone_decide(a, b, filters.drop_last());
        lemma_edited_filter_alike(a, b, filters.last());
    }
}

/// A group without filters, whatever its operator, rules no value out.
pub proof fn empty_groups_rule_nothing_out(
    operator: FilterGroupOperator,
    member: Seq<char>,
    value: Seq<char>,
)
    ensures
        item_admits(FilterView::Group { operator, items: Seq::empty() }, member, value),
{
}

/// A disjunction of filters rules a value out only if each of them does, a conjunction if one of
/// them does.
pub proof fn groups_rule_out_by_their_operator(
    items: Seq<FilterView>,
    member: Seq<char>,
    value: Seq<char>,
    i: int,
)
    requires
        0 <= i < items.len(),
    ensures
        item_admits(items[i], member, value) ==> item_admits(
            FilterView::Group { operator: FilterGroupOperator::Or, items },
            member,
            value,
        ),
        !item_admits(items[i], member, value) ==> !item_admits(
            FilterView::Group { operator: FilterGroupOperator::And, items },
            member,
            value,
        ),
        (forall|k: int| 0 <= k < items.len() ==> !item_admits(#[trigger] items[k], member, value))
            ==> !item_admits(
            FilterView::Group { operator: FilterGroupOperator::Or, items },
            member,
            value,
        ),
        (forall|k: int| 0 <= k < items.len() ==> item_admits(#[trigger] items[k], member, value))
            ==> item_admits(
            FilterView::Group { operator: FilterGroupOperator::And, items },
            member,
            value,
        ),
{
    let all = FilterView::Group { operator: FilterGroupOperator::And, items };
    assert(item_admits(all, member, value) == admits(items, member, value)) by {
        assert(all->items == items);
        if item_admits(all, member, value) {
            assert forall|k: int| 0 <= k < items.len() implies item_admits(
                #[trigger] items[k],
                member,
                value,
            ) by {
                assert(item_admits(all->items[k], member, value));
            }
        }
    }
}

} // verus!
