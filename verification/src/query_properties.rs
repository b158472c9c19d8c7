//! What a query, or one stage of it, asks for.

use crate::filter::append_filters;
use crate::filter::copy_filters;
use crate::filter::filter_keys;
use crate::filter::filter_view;
use crate::filter::filter_views;
use crate::filter::filters_mention;
use crate::filter::lemma_group_view;
use crate::filter::mentions;
use crate::filter::optional_text;
use crate::filter::optional_texts;
use crate::filter::same_filters;
use crate::filter::FilterItem;
use crate::filter::FilterKey;
use crate::filter::FilterOperator;
use crate::filter::FilterView;
use crate::filter_edit::edited;
use crate::filter_edit::FilterEdit;
use crate::filter_edit::FilterEditView;
use crate::symbol::append_shared;
use crate::symbol::full_name;
use crate::symbol::full_names;
use crate::symbol::has_multi_stage;
use crate::symbol::has_multi_stage_members;
use crate::symbol::resolve_reference_chain;
use crate::symbol::resolved;
use crate::symbol::DimensionTimeShift;
use crate::symbol::MeasureTimeShifts;
use crate::symbol::MemberSymbol;
use crate::text::texts;
use std::rc::Rc;
use vstd::hash_set::StringHashSet;
use vstd::prelude::*;

verus! {

/// What all parts of one request share.
#[derive(Debug)]
pub struct QueryTools {
    pub timezone: String,
}

#[derive(Debug)]
pub struct OrderByItem {
    pub member: Rc<MemberSymbol>,
    pub desc: bool,
}

/// What a query, or one stage of it, asks for.
#[derive(Debug)]
pub struct QueryProperties {
    pub query_tools: Rc<QueryTools>,
    pub measures: Vec<Rc<MemberSymbol>>,
    pub dimensions: Vec<Rc<MemberSymbol>>,
    pub time_dimensions: Vec<Rc<MemberSymbol>>,
    pub dimensions_filters: Vec<FilterItem>,
    pub time_dimensions_filters: Vec<FilterItem>,
    pub measures_filters: Vec<FilterItem>,
    pub segments: Vec<FilterItem>,
    /// The shifts of time to apply, one after another.
    pub time_shifts: Vec<MeasureTimeShifts>,
    pub order_by: Vec<OrderByItem>,
    /// Whether rows are returned as they are, without grouping.
    pub ungrouped: bool,
}

/// The content of [`QueryProperties`].
#[verifier::ext_equal]
pub struct QueryPropertiesView {
    pub query_tools: Rc<QueryTools>,
    pub measures: Seq<Rc<MemberSymbol>>,
    pub dimensions: Seq<Rc<MemberSymbol>>,
    pub time_dimensions: Seq<Rc<MemberSymbol>>,
    pub dimensions_filters: Seq<FilterView>,
    pub time_dimensions_filters: Seq<FilterView>,
    pub measures_filters: Seq<FilterView>,
    pub segments: Seq<FilterView>,
    pub time_shifts: Seq<MeasureTimeShifts>,
    pub order_by: Seq<OrderByItem>,
    pub ungrouped: bool,
}

impl View for QueryProperties {
    type V = QueryPropertiesView;

    open spec fn view(&self) -> QueryPropertiesView {
        QueryPropertiesView {
            query_tools: self.query_tools,
            measures: self.measures@,
            dimensions: self.dimensions@,
            time_dimensions: self.time_dimensions@,
            dimensions_filters: filter_views(self.dimensions_filters@),
            time_dimensions_filters: filter_views(self.time_dimensions_filters@),
            measures_filters: filter_views(self.measures_filters@),
            segments: filter_views(self.segments@),
            time_shifts: self.time_shifts@,
            order_by: self.order_by@,
            ungrouped: self.ungrouped,
        }
    }
}

// ---------------------------------------------------------------------------------------------
// Members
// ---------------------------------------------------------------------------------------------

/// The members without those whose name occurs earlier.
pub open spec fn unique_by_name(members: Seq<Rc<MemberSymbol>>) -> Seq<Rc<MemberSymbol>>
    decreases members.len(),
{
    if members.len() == 0 {
        Seq::empty()
    } else {
        let rest = unique_by_name(members.drop_last());
        if full_names(rest).contains(full_name(*members.last())) {
            rest
        } else {
            rest.push(members.last())
        }
    }
}

/// The members that a filter has conditions on.
pub open spec fn item_members(filter: FilterView) -> Seq<Rc<MemberSymbol>>
    decreases filter,
{
    match filter {
        FilterView::Group { items, .. } => filter_members(items),
        FilterView::Item(item) => seq![item.member],
        FilterView::Segment(_) => Seq::empty(),
    }
}

/// The members that filters have conditions on.
pub open spec fn filter_members(filters: Seq<FilterView>) -> Seq<Rc<MemberSymbol>>
    decreases filters,
{
    if filters.len() == 0 {
        Seq::empty()
    } else {
        filter_members(filters.drop_last()) + item_members(filters.last())
    }
}

/// Whether a dimension takes more than one stage and has not been planned yet.
pub open spec fn is_unresolved(
    resolved_names: Set<Seq<char>>,
    dimension: Rc<MemberSymbol>,
) -> bool {
    has_multi_stage(*dimension, false) && !resolved_names.contains(full_name(resolved(*dimension)))
}

// ---------------------------------------------------------------------------------------------
// States
// ---------------------------------------------------------------------------------------------

/// What two time shifts have in common that mean the same.
pub enum TimeShiftKey {
    Common(Seq<char>),
    Named(Seq<char>),
    Dimensions(Seq<(Seq<char>, Seq<char>)>),
}

pub open spec fn time_shift_key(shift: MeasureTimeShifts) -> TimeShiftKey {
    match shift {
        MeasureTimeShifts::Common(interval) => TimeShiftKey::Common(interval@),
        MeasureTimeShifts::Named(name) => TimeShiftKey::Named(name@),
        MeasureTimeShifts::Dimensions(shifts) => TimeShiftKey::Dimensions(
            shifts@.map_values(
                |s: DimensionTimeShift| (full_name(*s.dimension), s.interval@),
            ),
        ),
    }
}

pub open spec fn time_shift_keys(shifts: Seq<MeasureTimeShifts>) -> Seq<TimeShiftKey> {
    shifts.map_values(|s: MeasureTimeShifts| time_shift_key(s))
}

/// What decides which rows a stage reads and how it groups them.
pub struct StateKey {
    pub dimensions: Seq<Seq<char>>,
    pub time_dimensions: Seq<Seq<char>>,
    pub dimensions_filters: Seq<FilterKey>,
    pub time_dimensions_filters: Seq<FilterKey>,
    pub measures_filters: Seq<FilterKey>,
    pub segments: Seq<FilterKey>,
    pub time_shifts: Seq<TimeShiftKey>,
}

impl QueryPropertiesView {
    pub open spec fn key(self) -> StateKey {
        StateKey {
            dimensions: full_names(self.dimensions),
            time_dimensions: full_names(self.time_dimensions),
            dimensions_filters: filter_keys(self.dimensions_filters),
            time_dimensions_filters: filter_keys(self.time_dimensions_filters),
            measures_filters: filter_keys(self.measures_filters),
            segments: filter_keys(self.segments),
            time_shifts: time_shift_keys(self.time_shifts),
        }
    }

    /// The members that the query uses, by any of its parts, each once.
    pub open spec fn used_symbols(self) -> Seq<Rc<MemberSymbol>> {
        unique_by_name(
            self.dimensions + self.time_dimensions + self.measures + filter_members(
                self.dimensions_filters,
            ) + filter_members(self.time_dimensions_filters) + filter_members(
                self.measures_filters,
            ),
        )
    }

    /// Whether a filter has a condition on the member.
    pub open spec fn has_filters_for(self, member: Seq<char>) -> bool {
        mentions(self.dimensions_filters, member) || mentions(self.time_dimensions_filters, member)
            || mentions(self.measures_filters, member)
    }

    /// The state with a change made to all its filters.
    pub open spec fn filters_edited(self, edit: FilterEditView) -> Self {
        QueryPropertiesView {
            dimensions_filters: edited(edit, self.dimensions_filters),
            time_dimensions_filters: edited(edit, self.time_dimensions_filters),
            measures_filters: edited(edit, self.measures_filters),
            ..self
        }
    }

    /// The state with a change made to all its filters and segments.
    pub open spec fn filters_and_segments_edited(self, edit: FilterEditView) -> Self {
        QueryPropertiesView {
            segments: edited(edit, self.segments),
            ..self.filters_edited(edit)
        }
    }

    /// The state without conditions on the member.
    pub open spec fn without_filters_for(self, member: Seq<char>) -> Self {
        self.filters_edited(FilterEditView::Exclude(seq![member]))
    }

    /// The state with a change made to the filters on time.
    pub open spec fn time_filters_edited(self, edit: FilterEditView) -> Self {
        QueryPropertiesView {
            time_dimensions_filters: edited(edit, self.time_dimensions_filters),
            ..self
        }
    }

    /// The state with more dimensions; none is there twice.
    pub open spec fn with_dimensions_added(self, more: Seq<Rc<MemberSymbol>>) -> Self {
        QueryPropertiesView { dimensions: unique_by_name(self.dimensions + more), ..self }
    }

    /// The state without the dimensions that take more than one stage, except those planned.
    pub open spec fn without_unresolved(self, resolved_names: Set<Seq<char>>) -> Self {
        QueryPropertiesView {
            dimensions: self.dimensions.filter(
                |d: Rc<MemberSymbol>| !is_unresolved(resolved_names, d),
            ),
            ..self
        }
    }
}

// ---------------------------------------------------------------------------------------------
// Names of dimensions
// ---------------------------------------------------------------------------------------------

/// The names of the multi-stage dimensions that planning has taken up.
pub struct ResolvedDimensions {
    names: StringHashSet,
}

impl View for ResolvedDimensions {
    type V = Set<Seq<char>>;

    closed spec fn view(&self) -> Set<Seq<char>> {
        self.names@
    }
}

impl ResolvedDimensions {
    pub fn new() -> (result: Self)
        ensures
            result@ == Set::<Seq<char>>::empty(),
    {
        ResolvedDimensions { names: StringHashSet::new() }
    }

    pub fn insert(&mut self, name: String)
        ensures
            final(self)@ == old(self)@.insert(name@),
    {
        self.names.insert(name);
    }

    pub fn contains(&self, name: &String) -> (found: bool)
        ensures
            found == self@.contains(name@),
    {
        self.names.contains(name.as_str())
    }
}

// ---------------------------------------------------------------------------------------------
// Lists of members
// ---------------------------------------------------------------------------------------------

pub fn copy_members(members: &Vec<Rc<MemberSymbol>>) -> (copy: Vec<Rc<MemberSymbol>>)
    ensures
        copy@ == members@,
{
    let mut copy: Vec<Rc<MemberSymbol>> = Vec::new();
    append_shared(&mut copy, members);
    assert(copy@ =~= members@);
    copy
}

/// Whether one of the members has the name.
fn has_member_named(members: &Vec<Rc<MemberSymbol>>, name: &String) -> (found: bool)
    ensures
        found == full_names(members@).contains(name@),
{
    let mut i: usize = 0;
    while i < members.len()
        invariant
            i <= members@.len(),
            forall|j: int| 0 <= j < i ==> full_names(members@)[j] != name@,
        decreases members@.len() - i,
    {
        if members[i].full_name() == *name {
            assert(full_names(members@)[i as int] == name@);
            return true;
        }
        i += 1;
    }
    false
}

/// The members without those whose name occurs earlier.
pub fn unique_members(members: &Vec<Rc<MemberSymbol>>) -> (result: Vec<Rc<MemberSymbol>>)
    ensures
        result@ == unique_by_name(members@),
{
    let mut result: Vec<Rc<MemberSymbol>> = Vec::new();
    let mut i: usize = 0;
    assert(members@.take(0) =~= Seq::empty());
    while i < members.len()
        invariant
            i <= members@.len(),
            result@ == unique_by_name(members@.take(i as int)),
        decreases members@.len() - i,
    {
        assert(members@.take(i + 1).drop_last() =~= members@.take(i as int));
        if !has_member_named(&result, &members[i].full_name()) {
            result.push(members[i].clone());
        }
        i += 1;
    }
    assert(members@.take(i as int) =~= members@);
    result
}

fn same_names(a: &Vec<Rc<MemberSymbol>>, b: &Vec<Rc<MemberSymbol>>) -> (result: bool)
    ensures
        result == (full_names(a@) == full_names(b@)),
{
    if a.len() != b.len() {
        assert(full_names(a@).len() != full_names(b@).len());
        return false;
    }
    let mut i: usize = 0;
    while i < a.len()
        invariant
            i <= a@.len(),
            a@.len() == b@.len(),
            forall|j: int| 0 <= j < i ==> full_names(a@)[j] == full_names(b@)[j],
        decreases a@.len() - i,
    {
        let same: bool = a[i].full_name() == b[i].full_name();
        assert(same == (full_names(a@)[i as int] == full_names(b@)[i as int]));
        if !same {
            return false;
        }
        i += 1;
    }
    assert(full_names(a@) =~= full_names(b@));
    true
}

fn append_filter_members(list: &mut Vec<Rc<MemberSymbol>>, filters: &Vec<FilterItem>)
    ensures
        final(list)@ == old(list)@ + filter_members(filter_views(filters@)),
    decreases filters, 0nat,
{
    let mut i: usize = 0;
    assert(filter_views(filters@).take(0) =~= Seq::<FilterView>::empty());
    assert(list@ =~= old(list)@ + filter_members(filter_views(filters@).take(0)));
    while i < filters.len()
        invariant
            i <= filters@.len(),
            list@ == old(list)@ + filter_members(filter_views(filters@).take(i as int)),
        decreases filters@.len() - i,
    {
        let ghost before = list@;
        append_item_members(list, &filters[i]);
        proof {
            let next = filter_views(filters@).take(i + 1);
            assert(next.drop_last() =~= filter_views(filters@).take(i as int));
            assert(next.last() == filter_view(filters@[i as int]));
            assert(list@ =~= old(list)@ + filter_members(next));
        }
        i += 1;
    }
    assert(filter_views(filters@).take(i as int) =~= filter_views(filters@));
}

fn append_item_members(list: &mut Vec<Rc<MemberSymbol>>, filter: &FilterItem)
    ensures
        final(list)@ == old(list)@ + item_members(filter_view(*filter)),
    decreases *filter, 1nat,
{
    match filter {
        FilterItem::Group(group) => {
            proof {
                lemma_group_view(*group);
            }
            append_filter_members(list, &group.items);
        },
        FilterItem::Item(item) => {
            list.push(item.member.clone());
        },
        FilterItem::Segment(_) => {},
    }
    assert(list@ =~= old(list)@ + item_members(filter_view(*filter)));
}

// ---------------------------------------------------------------------------------------------
// Time shifts and order
// ---------------------------------------------------------------------------------------------

fn same_dimension_shifts(a: &Vec<DimensionTimeShift>, b: &Vec<DimensionTimeShift>) -> (result: bool)
    ensures
        result == (a@.map_values(|s: DimensionTimeShift| (full_name(*s.dimension), s.interval@))
            == b@.map_values(|s: DimensionTimeShift| (full_name(*s.dimension), s.interval@))),
{
    let ghost a_keys = a@.map_values(
        |s: DimensionTimeShift| (full_name(*s.dimension), s.interval@),
    );
    let ghost b_keys = b@.map_values(
        |s: DimensionTimeShift| (full_name(*s.dimension), s.interval@),
    );
    if a.len() != b.len() {
        assert(a_keys.len() != b_keys.len());
        return false;
    }
    let mut i: usize = 0;
    while i < a.len()
        invariant
            i <= a@.len(),
            a@.len() == b@.len(),
            a_keys == a@.map_values(
                |s: DimensionTimeShift| (full_name(*s.dimension), s.interval@),
            ),
            b_keys == b@.map_values(
                |s: DimensionTimeShift| (full_name(*s.dimension), s.interval@),
            ),
            forall|j: int| 0 <= j < i ==> a_keys[j] == b_keys[j],
        decreases a@.len() - i,
    {
        let same: bool = a[i].dimension.full_name() == b[i].dimension.full_name() && a[i].interval
            == b[i].interval;
        assert(same == (a_keys[i as int] == b_keys[i as int]));
        if !same {
            return false;
        }
        i += 1;
    }
    assert(a_keys =~= b_keys);
    true
}

fn same_time_shifts(a: &Vec<MeasureTimeShifts>, b: &Vec<MeasureTimeShifts>) -> (result: bool)
    ensures
        result == (time_shift_keys(a@) == time_shift_keys(b@)),
{
    if a.len() != b.len() {
        assert(time_shift_keys(a@).len() != time_shift_keys(b@).len());
        return false;
    }
    let mut i: usize = 0;
    while i < a.len()
        invariant
            i <= a@.len(),
            a@.len() == b@.len(),
            forall|j: int| 0 <= j < i ==> time_shift_keys(a@)[j] == time_shift_keys(b@)[j],
        decreases a@.len() - i,
    {
        let same: bool = match (&a[i], &b[i]) {
            (MeasureTimeShifts::Common(x), MeasureTimeShifts::Common(y)) => *x == *y,
            (MeasureTimeShifts::Named(x), MeasureTimeShifts::Named(y)) => *x == *y,
            (MeasureTimeShifts::Dimensions(x), MeasureTimeShifts::Dimensions(y)) => {
                same_dimension_shifts(x, y)
            },
            _ => false,
        };
        assert(same == (time_shift_keys(a@)[i as int] == time_shift_keys(b@)[i as int]));
        if !same {
            return false;
        }
        i += 1;
    }
    assert(time_shift_keys(a@) =~= time_shift_keys(b@));
    true
}

fn copy_time_shifts(shifts: &Vec<MeasureTimeShifts>) -> (copy: Vec<MeasureTimeShifts>)
    ensures
        copy@ == shifts@,
{
    let mut copy: Vec<MeasureTimeShifts> = Vec::new();
    let mut i: usize = 0;
    while i < shifts.len()
        invariant
            i <= shifts@.len(),
            copy@ == shifts@.take(i as int),
        decreases shifts@.len() - i,
    {
        copy.push(shifts[i].clone());
        assert(shifts@.take(i + 1) =~= shifts@.take(i as int).push(shifts@[i as int]));
        i += 1;
    }
    assert(shifts@.take(i as int) =~= shifts@);
    copy
}

fn copy_order(order: &Vec<OrderByItem>) -> (copy: Vec<OrderByItem>)
    ensures
        copy@ == order@,
{
    let mut copy: Vec<OrderByItem> = Vec::new();
    let mut i: usize = 0;
    while i < order.len()
        invariant
            i <= order@.len(),
            copy@ == order@.take(i as int),
        decreases order@.len() - i,
    {
        copy.push(OrderByItem { member: order[i].member.clone(), desc: order[i].desc });
        assert(order@.take(i + 1) =~= order@.take(i as int).push(order@[i as int]));
        i += 1;
    }
    assert(order@.take(i as int) =~= order@);
    copy
}

// ---------------------------------------------------------------------------------------------
// Operations
// ---------------------------------------------------------------------------------------------

impl Clone for QueryProperties {
    fn clone(&self) -> (copy: Self)
        ensures
            copy@ == self@,
    {
        QueryProperties {
            query_tools: self.query_tools.clone(),
            measures: copy_members(&self.measures),
            dimensions: copy_members(&self.dimensions),
            time_dimensions: copy_members(&self.time_dimensions),
            dimensions_filters: copy_filters(&self.dimensions_filters),
            time_dimensions_filters: copy_filters(&self.time_dimensions_filters),
            measures_filters: copy_filters(&self.measures_filters),
            segments: copy_filters(&self.segments),
            time_shifts: copy_time_shifts(&self.time_shifts),
            order_by: copy_order(&self.order_by),
            ungrouped: self.ungrouped,
        }
    }
}

impl QueryProperties {
    /// The members that the query uses, each once.
    pub fn all_used_symbols(&self) -> (result: Vec<Rc<MemberSymbol>>)
        ensures
            result@ == self@.used_symbols(),
    {
        let mut members: Vec<Rc<MemberSymbol>> = copy_members(&self.dimensions);
        append_shared(&mut members, &self.time_dimensions);
        append_shared(&mut members, &self.measures);
        append_filter_members(&mut members, &self.dimensions_filters);
        append_filter_members(&mut members, &self.time_dimensions_filters);
        append_filter_members(&mut members, &self.measures_filters);
        unique_members(&members)
    }

    /// Whether a filter has a condition on the member.
    pub fn has_filters_for_member(&self, member: &String) -> (found: bool)
        ensures
            found == self@.has_filters_for(member@),
    {
        filters_mention(&self.dimensions_filters, member) || filters_mention(
            &self.time_dimensions_filters,
            member,
        ) || filters_mention(&self.measures_filters, member)
    }

    fn edit_filters(&mut self, edit: &FilterEdit)
        ensures
            final(self)@ == old(self)@.filters_edited(edit@),
    {
        self.dimensions_filters = edit.apply(&self.dimensions_filters);
        self.time_dimensions_filters = edit.apply(&self.time_dimensions_filters);
        self.measures_filters = edit.apply(&self.measures_filters);
    }

    /// Drops the conditions on the member.
    pub fn remove_filter_for_member(&mut self, member: &String)
        ensures
            final(self)@ == old(self)@.without_filters_for(member@),
    {
        let mut names: Vec<String> = Vec::new();
        names.push(member.clone());
        assert(texts(names@) =~= seq![member@]);
        self.edit_filters(&FilterEdit::Exclude(names));
    }

    /// Drops the conditions on the members and the segments of these names.
    pub fn remove_filters_for_members(&mut self, names: Vec<String>)
        ensures
            final(self)@ == old(self)@.filters_and_segments_edited(
                FilterEditView::Exclude(texts(names@)),
            ),
    {
        let edit: FilterEdit = FilterEdit::Exclude(names);
        self.edit_filters(&edit);
        self.segments = edit.apply(&self.segments);
    }

    /// Drops all conditions but those on the members and the segments of these names.
    pub fn keep_only_filters_for_members(&mut self, names: Vec<String>)
        ensures
            final(self)@ == old(self)@.filters_and_segments_edited(
                FilterEditView::KeepOnly(texts(names@)),
            ),
    {
        let edit: FilterEdit = FilterEdit::KeepOnly(names);
        self.edit_filters(&edit);
        self.segments = edit.apply(&self.segments);
    }

    pub fn add_dimension_filter(&mut self, filter: FilterItem)
        ensures
            final(self)@ == (QueryPropertiesView {
                dimensions_filters: old(self)@.dimensions_filters.push(filter@),
                ..old(self)@
            }),
    {
        self.dimensions_filters.push(filter);
        assert(self@.dimensions_filters =~= old(self)@.dimensions_filters.push(filter@));
    }

    pub fn add_dimension_filters(&mut self, filters: &Vec<FilterItem>)
        ensures
            final(self)@ == (QueryPropertiesView {
                dimensions_filters: old(self)@.dimensions_filters + filter_views(filters@),
                ..old(self)@
            }),
    {
        append_filters(&mut self.dimensions_filters, filters);
        assert(self@.dimensions_filters =~= old(self)@.dimensions_filters + filter_views(filters@));
    }

    pub fn add_time_dimension_filters(&mut self, filters: &Vec<FilterItem>)
        ensures
            final(self)@ == (QueryPropertiesView {
                time_dimensions_filters: old(self)@.time_dimensions_filters + filter_views(
                    filters@,
                ),
                ..old(self)@
            }),
    {
        append_filters(&mut self.time_dimensions_filters, filters);
        assert(self@.time_dimensions_filters =~= old(self)@.time_dimensions_filters + filter_views(
            filters@,
        ));
    }

    pub fn add_measure_filters(&mut self, filters: &Vec<FilterItem>)
        ensures
            final(self)@ == (QueryPropertiesView {
                measures_filters: old(self)@.measures_filters + filter_views(filters@),
                ..old(self)@
            }),
    {
        append_filters(&mut self.measures_filters, filters);
        assert(self@.measures_filters =~= old(self)@.measures_filters + filter_views(filters@));
    }

    /// Adds dimensions; none is there twice afterwards.
    pub fn add_dimensions(&mut self, more: &Vec<Rc<MemberSymbol>>)
        ensures
            final(self)@ == old(self)@.with_dimensions_added(more@),
    {
        let mut members: Vec<Rc<MemberSymbol>> = copy_members(&self.dimensions);
        append_shared(&mut members, more);
        self.dimensions = unique_members(&members);
    }

    /// Adds a shift of time to those that are applied already.
    pub fn add_time_shifts(&mut self, shift: MeasureTimeShifts)
        ensures
            final(self)@ == (QueryPropertiesView {
                time_shifts: old(self)@.time_shifts.push(shift),
                ..old(self)@
            }),
    {
        self.time_shifts.push(shift);
    }

    pub fn set_dimensions(&mut self, dimensions: Vec<Rc<MemberSymbol>>)
        ensures
            final(self)@ == (QueryPropertiesView { dimensions: dimensions@, ..old(self)@ }),
    {
        self.dimensions = dimensions;
    }

    pub fn set_time_dimensions(&mut self, dimensions: Vec<Rc<MemberSymbol>>)
        ensures
            final(self)@ == (QueryPropertiesView { time_dimensions: dimensions@, ..old(self)@ }),
    {
        self.time_dimensions = dimensions;
    }

    /// Drops the dimensions that take more than one stage, except those planned already.
    pub fn remove_multistage_dimensions(&mut self, resolved_names: &ResolvedDimensions)
        ensures
            final(self)@ == old(self)@.without_unresolved(resolved_names@),
    {
        let ghost keep = |d: Rc<MemberSymbol>| !is_unresolved(resolved_names@, d);
        let mut kept: Vec<Rc<MemberSymbol>> = Vec::new();
        let mut i: usize = 0;
        proof {
            reveal(Seq::filter);
        }
        assert(self.dimensions@.take(0) =~= Seq::empty());
        while i < self.dimensions.len()
            invariant
                i <= self.dimensions@.len(),
                keep == (|d: Rc<MemberSymbol>| !is_unresolved(resolved_names@, d)),
                kept@ == self.dimensions@.take(i as int).filter(keep),
                self@ == old(self)@,
            decreases self.dimensions@.len() - i,
        {
            let dimension: &Rc<MemberSymbol> = &self.dimensions[i];
            proof {
                reveal(Seq::filter);
                assert(self.dimensions@.take(i + 1).drop_last() =~= self.dimensions@.take(i as int));
            }
            if !has_multi_stage_members(dimension, false) || resolved_names.contains(
                &resolve_reference_chain(dimension).full_name(),
            ) {
                kept.push(dimension.clone());
            }
            i += 1;
        }
        assert(self.dimensions@.take(i as int) =~= self.dimensions@);
        self.dimensions = kept;
    }

    /// Turns the date range on the member into one that the window's intervals widen.
    pub fn replace_regular_date_range_filter(
        &mut self,
        member: &String,
        trailing: Option<String>,
        leading: Option<String>,
    )
        ensures
            final(self)@ == old(self)@.time_filters_edited(
                FilterEditView::ReplaceDateRange {
                    member_name: member@,
                    filter_operator: FilterOperator::RegularRollingWindowDateRange,
                    additional_values: seq![optional_text(trailing), optional_text(leading)],
                },
            ),
    {
        let mut additional_values: Vec<Option<String>> = Vec::new();
        additional_values.push(trailing);
        additional_values.push(leading);
        assert(optional_texts(additional_values@) =~= seq![
            optional_text(trailing),
            optional_text(leading),
        ]);
        let edit: FilterEdit = FilterEdit::ReplaceDateRange {
            member_name: member.clone(),
            filter_operator: FilterOperator::RegularRollingWindowDateRange,
            additional_values,
        };
        self.time_dimensions_filters = edit.apply(&self.time_dimensions_filters);
    }

    /// Turns the date range on the member into one that starts with the period.
    pub fn replace_to_date_date_range_filter(&mut self, member: &String, granularity: &String)
        ensures
            final(self)@ == old(self)@.time_filters_edited(
                FilterEditView::ReplaceDateRange {
                    member_name: member@,
                    filter_operator: FilterOperator::ToDateRollingWindowDateRange,
                    additional_values: seq![Some(granularity@)],
                },
            ),
    {
        let mut additional_values: Vec<Option<String>> = Vec::new();
        additional_values.push(Some(granularity.clone()));
        assert(optional_texts(additional_values@) =~= seq![Some(granularity@)]);
        let edit: FilterEdit = FilterEdit::ReplaceDateRange {
            member_name: member.clone(),
            filter_operator: FilterOperator::ToDateRollingWindowDateRange,
            additional_values,
        };
        self.time_dimensions_filters = edit.apply(&self.time_dimensions_filters);
    }

    /// Opens the date range on the member where the window has no bound.
    pub fn replace_date_range_for_rolling_window_without_granularity(
        &mut self,
        member: &String,
        trailing: &Option<String>,
        leading: &Option<String>,
    )
        ensures
            final(self)@ == old(self)@.time_filters_edited(
                FilterEditView::OpenDateRange {
                    member_name: member@,
                    open_start: is_unbounded(*trailing),
                    open_end: is_unbounded(*leading),
                },
            ),
    {
        let edit: FilterEdit = FilterEdit::OpenDateRange {
            member_name: member.clone(),
            open_start: has_no_bound(trailing),
            open_end: has_no_bound(leading),
        };
        self.time_dimensions_filters = edit.apply(&self.time_dimensions_filters);
    }

    /// Whether two states read the same rows and group them alike.
    pub fn same_state(&self, other: &QueryProperties) -> (result: bool)
        ensures
            result == (self@.key() == other@.key()),
    {
        same_names(&self.dimensions, &other.dimensions) && same_names(
            &self.time_dimensions,
            &other.time_dimensions,
        ) && same_filters(&self.dimensions_filters, &other.dimensions_filters) && same_filters(
            &self.time_dimensions_filters,
            &other.time_dimensions_filters,
        ) && same_filters(&self.measures_filters, &other.measures_filters) && same_filters(
            &self.segments,
            &other.segments,
        ) && same_time_shifts(&self.time_shifts, &other.time_shifts)
    }
}

/// Whether a side of a window reaches without end.
pub open spec fn is_unbounded(interval: Option<String>) -> bool {
    interval is Some && interval->0@ == "unbounded"@
}

fn has_no_bound(interval: &Option<String>) -> (result: bool)
    ensures
        result == is_unbounded(*interval),
{
    match interval {
        Some(interval) => *interval == "unbounded".to_string(),
        None => false,
    }
}

} // verus!
