//! The common table expressions of a plan.

use crate::stage::LogicalSchema;
use crate::stage::LogicalSchemaView;
use crate::symbol::MemberSymbol;
use std::rc::Rc;
use vstd::prelude::*;

verus! {

// ---------------------------------------------------------------------------------------------
// Names
// ---------------------------------------------------------------------------------------------

/// The digit that stands for a number below ten.
pub open spec fn digit(n: nat) -> char {
    if n == 0 {
        '0'
    } else if n == 1 {
        '1'
    } else if n == 2 {
        '2'
    } else if n == 3 {
        '3'
    } else if n == 4 {
        '4'
    } else if n == 5 {
        '5'
    } else if n == 6 {
        '6'
    } else if n == 7 {
        '7'
    } else if n == 8 {
        '8'
    } else {
        '9'
    }
}

/// A number in decimal digits.
pub open spec fn decimal(n: nat) -> Seq<char>
    decreases n,
{
    if n < 10 {
        seq![digit(n)]
    } else {
        decimal(n / 10).push(digit(n % 10))
    }
}

/// The name of the common table expression with the number.
pub open spec fn cte_name(n: nat) -> Seq<char> {
    "cte_"@ + decimal(n)
}

proof fn lemma_decimal_is_injective(a: nat, b: nat)
    requires
        decimal(a) == decimal(b),
    ensures
        a == b,
    decreases a,
{
    assert(decimal(a).len() >= 1);
    assert(decimal(b).len() >= 1);
    assert(decimal(a).last() == decimal(b).last());
    assert(decimal(a).last() == digit(a % 10));
    assert(decimal(b).last() == digit(b % 10));
    if a >= 10 && b >= 10 {
        assert(decimal(a / 10) =~= decimal(a).drop_last());
        assert(decimal(b / 10) =~= decimal(b).drop_last());
        lemma_decimal_is_injective(a / 10, b / 10);
    } else if a >= 10 {
        assert(decimal(a / 10).len() >= 1);
        assert(decimal(a).len() >= 2);
    } else if b >= 10 {
        assert(decimal(b / 10).len() >= 1);
        assert(decimal(b).len() >= 2);
    }
}

/// Two numbers never share a name.
pub proof fn cte_names_are_distinct(a: nat, b: nat)
    requires
        cte_name(a) == cte_name(b),
    ensures
        a == b,
{
    assert(cte_name(a).skip("cte_"@.len() as int) =~= decimal(a));
    assert(cte_name(b).skip("cte_"@.len() as int) =~= decimal(b));
    lemma_decimal_is_injective(a, b);
}

/// A count, by its decimal digits; the last digit comes first. It has no largest value.
enum Digits {
    First(u8),
    More(u8, Rc<Digits>),
}

spec fn value(digits: Digits) -> nat
    decreases digits,
{
    match digits {
        Digits::First(d) => d as nat,
        Digits::More(d, rest) => d as nat + 10 * value(*rest),
    }
}

/// No digit is above nine, and the first is not zero where there are more.
spec fn is_normal(digits: Digits) -> bool
    decreases digits,
{
    match digits {
        Digits::First(d) => d < 10,
        Digits::More(d, rest) => d < 10 && is_normal(*rest) && value(*rest) > 0,
    }
}

fn digit_text(d: u8) -> (text: &'static str)
    requires
        d < 10,
    ensures
        text@ == seq![digit(d as nat)],
{
    proof {
        reveal_strlit("0");
        reveal_strlit("1");
        reveal_strlit("2");
        reveal_strlit("3");
        reveal_strlit("4");
        reveal_strlit("5");
        reveal_strlit("6");
        reveal_strlit("7");
        reveal_strlit("8");
        reveal_strlit("9");
    }
    let text: &'static str = match d {
        0 => "0",
        1 => "1",
        2 => "2",
        3 => "3",
        4 => "4",
        5 => "5",
        6 => "6",
        7 => "7",
        8 => "8",
        _ => "9",
    };
    assert(text@ =~= seq![digit(d as nat)]);
    text
}

fn append_decimal(text: &mut String, digits: &Rc<Digits>)
    requires
        is_normal(**digits),
    ensures
        final(text)@ == old(text)@ + decimal(value(**digits)),
    decreases **digits,
{
    match &**digits {
        Digits::First(d) => {
            text.append(digit_text(*d));
        },
        Digits::More(d, rest) => {
            append_decimal(text, rest);
            text.append(digit_text(*d));
            assert(value(**digits) / 10 == value(**rest));
            assert(value(**digits) % 10 == *d as nat);
            assert(text@ =~= old(text)@ + decimal(value(**digits)));
        },
    }
}

fn successor(digits: &Rc<Digits>) -> (result: Rc<Digits>)
    requires
        is_normal(**digits),
    ensures
        is_normal(*result),
        value(*result) == value(**digits) + 1,
    decreases **digits,
{
    match &**digits {
        Digits::First(d) => {
            if *d < 9 {
                Rc::new(Digits::First(*d + 1))
            } else {
                let one: Rc<Digits> = Rc::new(Digits::First(1));
                assert(is_normal(*one) && value(*one) == 1);
                Rc::new(Digits::More(0, one))
            }
        },
        Digits::More(d, rest) => {
            if *d < 9 {
                Rc::new(Digits::More(*d + 1, rest.clone()))
            } else {
                Rc::new(Digits::More(0, successor(rest)))
            }
        },
    }
}

/// The number of the next common table expression.
struct CteCounter {
    digits: Rc<Digits>,
}

impl CteCounter {
    #[verifier::type_invariant]
    spec fn inv(self) -> bool {
        is_normal(*self.digits)
    }

    spec fn count(self) -> nat {
        value(*self.digits)
    }

    fn new() -> (counter: Self)
        ensures
            counter.count() == 0,
    {
        CteCounter { digits: Rc::new(Digits::First(0)) }
    }

    fn next_name(&mut self) -> (name: String)
        ensures
            name@ == cte_name(old(self).count()),
            final(self).count() == old(self).count() + 1,
    {
        proof {
            use_type_invariant(&*self);
        }
        let mut name: String = "cte_".to_string();
        append_decimal(&mut name, &self.digits);
        let next: Rc<Digits> = successor(&self.digits);
        self.digits = next;
        name
    }
}

// ---------------------------------------------------------------------------------------------
// State
// ---------------------------------------------------------------------------------------------

/// A reference from the final query to the result of a chain of stages.
pub struct MultiStageSubqueryRef {
    pub name: String,
    pub symbols: Vec<Rc<MemberSymbol>>,
    pub schema: LogicalSchema,
}

/// The content of a [`MultiStageSubqueryRef`].
#[verifier::ext_equal]
pub struct MultiStageSubqueryRefView {
    pub name: Seq<char>,
    pub symbols: Seq<Rc<MemberSymbol>>,
    pub schema: LogicalSchemaView,
}

impl View for MultiStageSubqueryRef {
    type V = MultiStageSubqueryRefView;

    open spec fn view(&self) -> MultiStageSubqueryRefView {
        MultiStageSubqueryRefView {
            name: self.name@,
            symbols: self.symbols@,
            schema: self.schema@,
        }
    }
}

pub open spec fn subquery_ref_views(refs: Seq<Rc<MultiStageSubqueryRef>>) -> Seq<
    MultiStageSubqueryRefView,
> {
    refs.map_values(|r: Rc<MultiStageSubqueryRef>| r@)
}

/// The common table expressions that a plan holds so far. `M` is what a planned stage is turned
/// into.
pub struct CteState<M> {
    counter: CteCounter,
    members: Vec<M>,
    subquery_refs: Vec<Rc<MultiStageSubqueryRef>>,
}

/// The content of a [`CteState`].
#[verifier::ext_equal]
pub struct CteStateView<M> {
    /// The number that the next name is made of.
    pub next: nat,
    pub members: Seq<M>,
    pub subquery_refs: Seq<MultiStageSubqueryRefView>,
}

impl<M> View for CteState<M> {
    type V = CteStateView<M>;

    closed spec fn view(&self) -> CteStateView<M> {
        CteStateView {
            next: self.counter.count(),
            members: self.members@,
            subquery_refs: subquery_ref_views(self.subquery_refs@),
        }
    }
}

impl<M> CteState<M> {
    pub fn new() -> (state: Self)
        ensures
            state@.next == 0,
            state@.members == Seq::<M>::empty(),
            state@.subquery_refs == Seq::<MultiStageSubqueryRefView>::empty(),
    {
        let state: CteState<M> = CteState {
            counter: CteCounter::new(),
            members: Vec::new(),
            subquery_refs: Vec::new(),
        };
        assert(state@.subquery_refs =~= Seq::<MultiStageSubqueryRefView>::empty());
        state
    }

    /// A name that was not given out before.
    pub fn next_cte_name(&mut self) -> (name: String)
        ensures
            name@ == cte_name(old(self)@.next),
            final(self)@ == (CteStateView { next: old(self)@.next + 1, ..old(self)@ }),
    {
        self.counter.next_name()
    }

    pub fn add_member(&mut self, member: M)
        ensures
            final(self)@ == (CteStateView { members: old(self)@.members.push(member), ..old(self)@
            }),
    {
        self.members.push(member);
    }

    pub fn add_subquery_ref(&mut self, subquery_ref: Rc<MultiStageSubqueryRef>)
        ensures
            final(self)@ == (CteStateView {
                subquery_refs: old(self)@.subquery_refs.push(subquery_ref@),
                ..old(self)@
            }),
    {
        self.subquery_refs.push(subquery_ref);
        assert(self@.subquery_refs =~= old(self)@.subquery_refs.push(subquery_ref@));
    }

    /// The members added so far.
    pub fn members(&self) -> (members: &Vec<M>)
        ensures
            members@ == self@.members,
    {
        &self.members
    }

    /// The references added so far.
    pub fn subquery_refs(&self) -> (refs: &Vec<Rc<MultiStageSubqueryRef>>)
        ensures
            subquery_ref_views(refs@) == self@.subquery_refs,
    {
        &self.subquery_refs
    }
}

} // verus!
