//! What the branches of a switch depend on.

use crate::symbol::branch_heights;
use crate::symbol::case_height;
use crate::symbol::full_name;
use crate::symbol::height;
use crate::symbol::heights;
use crate::symbol::inner;
use crate::symbol::lemma_height_of_element;
use crate::symbol::lemma_resolved_height;
use crate::symbol::resolve_reference_chain;
use crate::symbol::resolved;
use crate::symbol::Case;
use crate::symbol::CaseSwitchDefinition;
use crate::symbol::MemberSymbol;
use crate::symbol::SwitchBranches;
use crate::text::contains_text;
use crate::text::texts;
use indexmap::IndexMap;
use std::rc::Rc;
use vstd::prelude::*;

verus! {

/// A member that branches of a switch depend on, with the values of those branches. No values
/// stand for all: a branch depends on it whose values are not known.
pub struct SwitchEntry {
    pub dep: Rc<MemberSymbol>,
    pub values: Option<Seq<Seq<char>>>,
}

/// One use of a member in a branch, with the values of the branch.
pub struct SwitchUse {
    pub dep: Rc<MemberSymbol>,
    pub values: Option<Seq<Seq<char>>>,
}

/// The uses of members in one branch.
pub open spec fn uses_of(deps: Seq<Rc<MemberSymbol>>, values: Option<Seq<Seq<char>>>) -> Seq<
    SwitchUse,
> {
    deps.map_values(|dep: Rc<MemberSymbol>| SwitchUse { dep, values })
}

/// The uses of members in branches.
pub open spec fn branch_uses(branches: SwitchBranches) -> Seq<SwitchUse>
    decreases branches,
{
    match branches {
        SwitchBranches::Empty => Seq::empty(),
        SwitchBranches::Branch(first, rest) => uses_of(
            first.sql.dependencies@,
            Some(seq![first.value@]),
        ) + branch_uses(*rest),
    }
}

pub open spec fn else_values(definition: CaseSwitchDefinition) -> Option<Seq<Seq<char>>> {
    match definition.else_values {
        Some(values) => Some(texts(values@)),
        None => None,
    }
}

/// The uses of members in the else branch.
pub open spec fn else_uses(definition: CaseSwitchDefinition) -> Seq<SwitchUse> {
    match definition.else_sql {
        Some(sql) => uses_of(sql.dependencies@, else_values(definition)),
        None => Seq::empty(),
    }
}

/// The uses of members in a switch, branch by branch.
pub open spec fn switch_uses(definition: CaseSwitchDefinition) -> Seq<SwitchUse> {
    branch_uses(*definition.items) + else_uses(definition)
}

/// The values, with those of `more` that are not there yet.
pub open spec fn with_values(values: Seq<Seq<char>>, more: Seq<Seq<char>>) -> Seq<Seq<char>>
    decreases more.len(),
{
    if more.len() == 0 {
        values
    } else {
        let rest = with_values(values, more.drop_last());
        if rest.contains(more.last()) {
            rest
        } else {
            rest.push(more.last())
        }
    }
}

/// The values for which a member is needed that two uses need.
pub open spec fn merged(
    values: Option<Seq<Seq<char>>>,
    more: Option<Seq<Seq<char>>>,
) -> Option<Seq<Seq<char>>> {
    match (values, more) {
        (Some(values), Some(more)) => Some(with_values(values, more)),
        _ => None,
    }
}

/// Whether one of the entries is for the member of this name.
pub open spec fn has_entry(entries: Seq<SwitchEntry>, name: Seq<char>) -> bool {
    exists|i: int| 0 <= i < entries.len() && full_name(*#[trigger] entries[i].dep) == name
}

/// An entry with one more use of its member.
pub open spec fn entry_with_use(
    entry: SwitchEntry,
    name: Seq<char>,
    used: SwitchUse,
) -> SwitchEntry {
    if full_name(*entry.dep) == name {
        SwitchEntry { values: merged(entry.values, used.values), ..entry }
    } else {
        entry
    }
}

/// The entries with one more use.
pub open spec fn with_use(entries: Seq<SwitchEntry>, used: SwitchUse) -> Seq<SwitchEntry> {
    let dep = Rc::new(resolved(*used.dep));
    let name = full_name(*dep);
    if has_entry(entries, name) {
        entries.map_values(|e: SwitchEntry| entry_with_use(e, name, used))
    } else {
        entries.push(SwitchEntry { dep, values: merged(Some(Seq::empty()), used.values) })
    }
}

/// The entries with more uses, one after another.
pub open spec fn with_uses(entries: Seq<SwitchEntry>, uses: Seq<SwitchUse>) -> Seq<SwitchEntry>
    decreases uses.len(),
{
    if uses.len() == 0 {
        entries
    } else {
        with_use(with_uses(entries, uses.drop_last()), uses.last())
    }
}

/// What the branches of a switch depend on: one entry for each member that is used, in the order
/// of the first use.
pub open spec fn switch_entries(definition: CaseSwitchDefinition) -> Seq<SwitchEntry> {
    with_uses(Seq::empty(), switch_uses(definition))
}

/// How deep the definitions under a switch go.
pub open spec fn switch_height(definition: CaseSwitchDefinition) -> nat {
    case_height(Some(Case::CaseSwitch(Rc::new(definition))))
}

/// Whether no two entries are for one name.
pub open spec fn distinct_names(entries: Seq<SwitchEntry>) -> bool {
    forall|i: int, j: int|
        0 <= i < j < entries.len() ==> full_name(*#[trigger] entries[i].dep) != full_name(
            *#[trigger] entries[j].dep,
        )
}

proof fn lemma_uses_height(deps: Seq<Rc<MemberSymbol>>, values: Option<Seq<Seq<char>>>, i: int)
    requires
        0 <= i < deps.len(),
    ensures
        height(*uses_of(deps, values)[i].dep) <= heights(deps),
{
    lemma_height_of_element(deps, i);
}

proof fn lemma_branch_uses_height(branches: SwitchBranches, i: int)
    requires
        0 <= i < branch_uses(branches).len(),
    ensures
        height(*branch_uses(branches)[i].dep) <= branch_heights(branches),
    decreases branches,
{
    if let SwitchBranches::Branch(first, rest) = branches {
        let values = Some(seq![first.value@]);
        let firsts = uses_of(first.sql.dependencies@, values);
        if i < firsts.len() {
            lemma_uses_height(first.sql.dependencies@, values, i);
        } else {
            lemma_branch_uses_height(inner(rest), i - firsts.len());
        }
    }
}

proof fn lemma_entries_height(uses: Seq<SwitchUse>, bound: nat, i: int)
    requires
        forall|k: int| 0 <= k < uses.len() ==> height(*#[trigger] uses[k].dep) <= bound,
        0 <= i < with_uses(Seq::empty(), uses).len(),
    ensures
        height(*with_uses(Seq::empty(), uses)[i].dep) <= bound,
    decreases uses.len(),
{
    if uses.len() > 0 {
        let before = with_uses(Seq::empty(), uses.drop_last());
        assert forall|k: int| 0 <= k < uses.drop_last().len() implies height(
            *#[trigger] uses.drop_last()[k].dep,
        ) <= bound by {
            assert(uses.drop_last()[k] == uses[k]);
        }
        if i < before.len() {
            lemma_entries_height(uses.drop_last(), bound, i);
        } else {
            assert(height(*uses[uses.len() - 1].dep) <= bound);
            lemma_resolved_height(inner(uses.last().dep));
        }
    }
}

/// What the branches of a switch depend on lies no higher than the switch.
pub proof fn lemma_switch_entries_lie_below(definition: CaseSwitchDefinition, i: int)
    requires
        0 <= i < switch_entries(definition).len(),
    ensures
        height(*switch_entries(definition)[i].dep) <= switch_height(definition),
{
    let uses = switch_uses(definition);
    let branches = branch_uses(inner(definition.items));
    assert forall|k: int| 0 <= k < uses.len() implies height(*#[trigger] uses[k].dep)
        <= switch_height(definition) by {
        if k < branches.len() {
            lemma_branch_uses_height(inner(definition.items), k);
        } else {
            match definition.else_sql {
                Some(sql) => {
                    lemma_uses_height(
                        sql.dependencies@,
                        else_values(definition),
                        k - branches.len(),
                    );
                },
                None => {},
            }
        }
    }
    lemma_entries_height(uses, switch_height(definition), i);
}

proof fn lemma_with_uses_add(
    entries: Seq<SwitchEntry>,
    first: Seq<SwitchUse>,
    second: Seq<SwitchUse>,
)
    ensures
        with_uses(entries, first + second) == with_uses(with_uses(entries, first), second),
    decreases second.len(),
{
    if second.len() == 0 {
        assert(first + second == first);
    } else {
        assert((first + second).drop_last() == first + second.drop_last());
        lemma_with_uses_add(entries, first, second.drop_last());
    }
}

/// One more use keeps names apart.
pub proof fn lemma_with_use_distinct(entries: Seq<SwitchEntry>, used: SwitchUse)
    requires
        distinct_names(entries),
    ensures
        distinct_names(with_use(entries, used)),
{
    let name = full_name(resolved(inner(used.dep)));
    let after = with_use(entries, used);
    assert forall|i: int, j: int| 0 <= i < j < after.len() implies full_name(
        *#[trigger] after[i].dep,
    ) != full_name(*#[trigger] after[j].dep) by {
        assert(i < entries.len() ==> after[i].dep == entries[i].dep);
        assert(j < entries.len() ==> after[j].dep == entries[j].dep);
        if j == entries.len() {
            assert(!has_entry(entries, name));
            assert(full_name(*entries[i].dep) != name);
        }
    }
}

/// A member with the values of a switch for which it is needed.
pub open spec fn entry_view(entry: (Rc<MemberSymbol>, Option<Vec<String>>)) -> SwitchEntry {
    SwitchEntry { dep: entry.0, values: optional_texts(entry.1) }
}

pub open spec fn entry_views(entries: Seq<(Rc<MemberSymbol>, Option<Vec<String>>)>) -> Seq<
    SwitchEntry,
> {
    entries.map_values(|e: (Rc<MemberSymbol>, Option<Vec<String>>)| entry_view(e))
}

pub open spec fn optional_texts(values: Option<Vec<String>>) -> Option<Seq<Seq<char>>> {
    match values {
        Some(values) => Some(texts(values@)),
        None => None,
    }
}

/// `indexmap::IndexMap`.
#[verifier::external_type_specification]
#[verifier::external_body]
#[verifier::reject_recursive_types(K)]
#[verifier::reject_recursive_types(V)]
#[verifier::reject_recursive_types(S)]
pub struct ExIndexMap<K, V, S>(indexmap::IndexMap<K, V, S>);

/// The keys and values of a map, in its order.
pub uninterp spec fn map_entries(
    map: IndexMap<String, (Rc<MemberSymbol>, Option<Vec<String>>)>,
) -> Seq<(String, (Rc<MemberSymbol>, Option<Vec<String>>))>;

/// `indexmap::IndexMap::new`: a map that holds nothing.
#[verifier::external_body]
fn new_map() -> (map: IndexMap<String, (Rc<MemberSymbol>, Option<Vec<String>>)>)
    ensures
        map_entries(map).len() == 0,
{
    IndexMap::new()
}

/// `indexmap::IndexMap::entry` with `Entry::or_insert`: access to the value under the key. Where
/// the map has none, the default is put in under the key, behind all others.
#[verifier::external_body]
fn entry_or_insert<'a>(
    map: &'a mut IndexMap<String, (Rc<MemberSymbol>, Option<Vec<String>>)>,
    key: String,
    default: (Rc<MemberSymbol>, Option<Vec<String>>),
) -> (value: &'a mut (Rc<MemberSymbol>, Option<Vec<String>>))
    ensures
        forall|i: int|
            0 <= i < map_entries(*old(map)).len() && (#[trigger] map_entries(*old(map))[i]).0@
                == key@ ==> *value == map_entries(*old(map))[i].1 && map_entries(*final(map))
                == map_entries(*old(map)).update(
                i,
                (map_entries(*old(map))[i].0, *final(value)),
            ),
        (forall|i: int|
            0 <= i < map_entries(*old(map)).len() ==> (#[trigger] map_entries(*old(map))[i]).0@
                != key@) ==> *value == default && map_entries(*final(map)) == map_entries(
            *old(map),
        ).push((key, *final(value))),
{
    map.entry(key).or_insert(default)
}

/// `indexmap::IndexMap::into_iter`: the keys and values, in the order of the map.
#[verifier::external_body]
fn into_entries(map: IndexMap<String, (Rc<MemberSymbol>, Option<Vec<String>>)>) -> (entries: Vec<
    (String, (Rc<MemberSymbol>, Option<Vec<String>>)),
>)
    ensures
        entries@ == map_entries(map),
{
    map.into_iter().collect()
}

/// What a map of members says.
spec fn map_view(entries: Seq<(String, (Rc<MemberSymbol>, Option<Vec<String>>))>) -> Seq<
    SwitchEntry,
> {
    entries.map_values(|e: (String, (Rc<MemberSymbol>, Option<Vec<String>>))| entry_view(e.1))
}

/// Whether each member stands under its own name, and each name once.
spec fn is_keyed(entries: Seq<(String, (Rc<MemberSymbol>, Option<Vec<String>>))>) -> bool {
    &&& forall|i: int|
        0 <= i < entries.len() ==> (#[trigger] entries[i]).0@ == full_name(*entries[i].1.0)
    &&& distinct_names(map_view(entries))
}

/// Adds the values that are not there yet.
fn add_values(values: &mut Vec<String>, more: Vec<String>)
    ensures
        texts(final(values)@) == with_values(texts(old(values)@), texts(more@)),
{
    let mut i: usize = 0;
    assert(texts(more@).take(0) == Seq::<Seq<char>>::empty());
    while i < more.len()
        invariant
            i <= more@.len(),
            texts(values@) == with_values(texts(old(values)@), texts(more@).take(i as int)),
        decreases more@.len() - i,
    {
        let ghost taken = texts(more@).take(i + 1);
        assert(taken.drop_last() == texts(more@).take(i as int));
        assert(taken.last() == more@[i as int]@);
        if !contains_text(values, &more[i]) {
            let ghost before = values@;
            values.push(more[i].clone());
            assert(texts(values@) == texts(before).push(more@[i as int]@));
        }
        i += 1;
    }
    assert(texts(more@).take(i as int) == texts(more@));
}

/// Records one use of a member.
fn record(
    deps: &mut IndexMap<String, (Rc<MemberSymbol>, Option<Vec<String>>)>,
    dep: &Rc<MemberSymbol>,
    branch_values: Option<Vec<String>>,
)
    requires
        is_keyed(map_entries(*old(deps))),
    ensures
        is_keyed(map_entries(*final(deps))),
        map_view(map_entries(*final(deps))) == with_use(
            map_view(map_entries(*old(deps))),
            SwitchUse { dep: *dep, values: optional_texts(branch_values) },
        ),
{
    let target = resolve_reference_chain(dep);
    let name = target.full_name();
    let ghost before = map_entries(*deps);
    let ghost used = SwitchUse { dep: *dep, values: optional_texts(branch_values) };
    let ghost text = name@;
    let entry = entry_or_insert(deps, name, (target.clone(), Some(Vec::new())));
    assert(texts(Seq::empty()) == Seq::<Seq<char>>::empty());
    match (&mut entry.1, branch_values) {
        (None, _) => {},
        (Some(values), Some(branch)) => {
            add_values(values, branch);
        },
        (slot, None) => {
            *slot = None;
        },
    }
    proof {
        let after = map_entries(*deps);
        if has_entry(map_view(before), text) {
            let i = choose|i: int|
                0 <= i < before.len() && full_name(*#[trigger] map_view(before)[i].dep) == text;
            assert(before[i].0@ == text);
            assert forall|j: int| 0 <= j < before.len() && j != i implies full_name(
                *#[trigger] map_view(before)[j].dep,
            ) != text by {
                assert(map_view(before)[i].dep == before[i].1.0);
            }
            assert(map_view(after) == with_use(map_view(before), used));
        } else {
            assert forall|j: int| 0 <= j < before.len() implies (#[trigger] before[j]).0@
                != text by {
                assert(full_name(*map_view(before)[j].dep) != text);
            }
            assert(map_view(after) == with_use(map_view(before), used));
        }
        lemma_with_use_distinct(map_view(before), used);
    }
}

/// Records the uses of members in one branch.
fn record_all(
    deps: &mut IndexMap<String, (Rc<MemberSymbol>, Option<Vec<String>>)>,
    members: &Vec<Rc<MemberSymbol>>,
    branch_values: &Option<Vec<String>>,
)
    requires
        is_keyed(map_entries(*old(deps))),
    ensures
        is_keyed(map_entries(*final(deps))),
        map_view(map_entries(*final(deps))) == with_uses(
            map_view(map_entries(*old(deps))),
            uses_of(members@, optional_texts(*branch_values)),
        ),
{
    let ghost uses = uses_of(members@, optional_texts(*branch_values));
    let mut i: usize = 0;
    assert(uses.take(0) == Seq::<SwitchUse>::empty());
    while i < members.len()
        invariant
            i <= members@.len(),
            uses == uses_of(members@, optional_texts(*branch_values)),
            is_keyed(map_entries(*deps)),
            map_view(map_entries(*deps)) == with_uses(
                map_view(map_entries(*old(deps))),
                uses.take(i as int),
            ),
        decreases members@.len() - i,
    {
        assert(uses.take(i + 1).drop_last() == uses.take(i as int));
        let values = copy_values(branch_values);
        record(deps, &members[i], values);
        i += 1;
    }
    assert(uses.take(i as int) == uses);
}

/// Records the uses of members in all branches with a value.
fn record_branches(
    deps: &mut IndexMap<String, (Rc<MemberSymbol>, Option<Vec<String>>)>,
    branches: &Rc<SwitchBranches>,
)
    requires
        is_keyed(map_entries(*old(deps))),
    ensures
        is_keyed(map_entries(*final(deps))),
        map_view(map_entries(*final(deps))) == with_uses(
            map_view(map_entries(*old(deps))),
            branch_uses(**branches),
        ),
    decreases **branches,
{
    match &**branches {
        SwitchBranches::Empty => {},
        SwitchBranches::Branch(first, rest) => {
            let mut value: Vec<String> = Vec::new();
            value.push(first.value.clone());
            assert(texts(value@) == seq![first.value@]);
            let values = Some(value);
            let ghost before = map_view(map_entries(*deps));
            record_all(deps, &first.sql.dependencies, &values);
            record_branches(deps, rest);
            proof {
                lemma_with_uses_add(
                    before,
                    uses_of(first.sql.dependencies@, Some(seq![first.value@])),
                    branch_uses(inner(*rest)),
                );
            }
        },
    }
}

/// A copy of the values of a branch.
fn copy_values(values: &Option<Vec<String>>) -> (copy: Option<Vec<String>>)
    ensures
        optional_texts(copy) == optional_texts(*values),
{
    match values {
        Some(values) => {
            let mut copy: Vec<String> = Vec::new();
            add_all(&mut copy, values);
            Some(copy)
        },
        None => None,
    }
}

fn add_all(copy: &mut Vec<String>, values: &Vec<String>)
    requires
        old(copy)@.len() == 0,
    ensures
        texts(final(copy)@) == texts(values@),
{
    let mut i: usize = 0;
    while i < values.len()
        invariant
            i <= values@.len(),
            texts(copy@) == texts(values@).take(i as int),
        decreases values@.len() - i,
    {
        let ghost before = copy@;
        copy.push(values[i].clone());
        assert(texts(copy@) == texts(before).push(values@[i as int]@));
        assert(texts(values@).take(i + 1) == texts(values@).take(i as int).push(values@[i as int]@));
        i += 1;
    }
    assert(texts(values@).take(i as int) == texts(values@));
}

/// Collects, for each member that branches depend on, the values of those branches. No values
/// mark a member that a branch for all other values depends on: it is needed for every row.
pub fn switch_dependencies(case: &CaseSwitchDefinition) -> (deps: Vec<
    (Rc<MemberSymbol>, Option<Vec<String>>),
>)
    ensures
        entry_views(deps@) == switch_entries(*case),
{
    let mut deps = new_map();
    assert(map_view(map_entries(deps)) == Seq::<SwitchEntry>::empty());
    record_branches(&mut deps, &case.items);
    if let Some(else_sql) = &case.else_sql {
        let values = match &case.else_values {
            Some(values) => {
                let mut copy: Vec<String> = Vec::new();
                add_all(&mut copy, values);
                Some(copy)
            },
            None => None,
        };
        record_all(&mut deps, &else_sql.dependencies, &values);
    }
    proof {
        lemma_with_uses_add(Seq::empty(), branch_uses(inner(case.items)), else_uses(*case));
    }
    let entries = into_entries(deps);
    without_keys(entries)
}

/// The values of a map.
fn without_keys(entries: Vec<(String, (Rc<MemberSymbol>, Option<Vec<String>>))>) -> (values: Vec<
    (Rc<MemberSymbol>, Option<Vec<String>>),
>)
    ensures
        entry_views(values@) == map_view(entries@),
{
    let mut values: Vec<(Rc<MemberSymbol>, Option<Vec<String>>)> = Vec::new();
    let mut i: usize = 0;
    while i < entries.len()
        invariant
            i <= entries@.len(),
            values@.len() == i,
            forall|j: int| 0 <= j < i ==> entry_view(#[trigger] values@[j]) == map_view(entries@)[j],
        decreases entries@.len() - i,
    {
        let entry = &entries[i].1;
        values.push((entry.0.clone(), copy_values(&entry.1)));
        i += 1;
    }
    values
}

} // verus!
