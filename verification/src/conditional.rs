//! The conditional builder: a chain of `when` / `then` calls that `otherwise`
//! folds into one conditional expression.
//!
//! A chain is in one of three states, each a type of its own: [`When`] holds
//! a predicate that waits for its result, [`WhenThen`] holds one complete
//! branch, and [`WhenThenThen`] holds the branches of a longer chain. Only a
//! chain with a complete branch can end, and it ends in the same kind of
//! node whatever the number of its branches.

use vstd::prelude::*;
use crate::expr::{branches_view, lemma_conditional_view, Expr, ExprView};

verus! {

/// Model of a chain that holds a predicate and waits for its result.
pub ghost struct WhenView {
    pub predicate: ExprView,
}

/// Model of a chain that holds one complete branch.
pub ghost struct WhenThenView {
    pub predicate: ExprView,
    pub result: ExprView,
}

/// Model of a longer chain: the complete branches in the order of their
/// declaration, and the predicate that still waits for its result, if there
/// is one.
pub ghost struct ChainView {
    pub branches: Seq<(ExprView, ExprView)>,
    pub pending: Option<ExprView>,
}

/// The chain that `when` opens on `predicate`.
pub open spec fn spec_when(predicate: ExprView) -> WhenView {
    WhenView { predicate }
}

impl WhenView {
    /// The chain after `then`.
    pub open spec fn spec_then(self, result: ExprView) -> WhenThenView {
        WhenThenView { predicate: self.predicate, result }
    }

    pub open spec fn well_formed(self) -> bool {
        self.predicate.well_formed()
    }
}

impl WhenThenView {
    /// The chain after `when`.
    pub open spec fn spec_when(self, predicate: ExprView) -> ChainView {
        ChainView { branches: seq![(self.predicate, self.result)], pending: Some(predicate) }
    }

    /// The expression that `otherwise` ends the chain in.
    pub open spec fn spec_otherwise(self, fallback: ExprView) -> ExprView {
        ExprView::conditional(seq![(self.predicate, self.result)], fallback)
    }

    pub open spec fn well_formed(self) -> bool {
        self.predicate.well_formed() && self.result.well_formed()
    }
}

impl ChainView {
    /// No predicate waits for its result: the chain can take `when` and
    /// `otherwise`, and cannot take `then`.
    pub open spec fn complete(self) -> bool {
        self.pending is None
    }

    /// The chain after `when`.
    pub open spec fn spec_when(self, predicate: ExprView) -> ChainView
        recommends
            self.complete(),
    {
        ChainView { branches: self.branches, pending: Some(predicate) }
    }

    /// The chain after `then`.
    pub open spec fn spec_then(self, result: ExprView) -> ChainView
        recommends
            !self.complete(),
    {
        ChainView { branches: self.branches.push((self.pending->0, result)), pending: None }
    }

    /// The expression that `otherwise` ends the chain in.
    pub open spec fn spec_otherwise(self, fallback: ExprView) -> ExprView
        recommends
            self.complete(),
    {
        ExprView::conditional(self.branches, fallback)
    }

    /// The chain has a branch, and all that it holds is well formed.
    pub open spec fn well_formed(self) -> bool {
        &&& self.branches.len() >= 1
        &&& forall|i: int|
            0 <= i < self.branches.len() ==> (#[trigger] self.branches[i]).0.well_formed()
                && self.branches[i].1.well_formed()
        &&& self.pending matches Some(predicate) ==> predicate.well_formed()
    }
}

/// A chain that holds a predicate and waits for its result.
#[derive(Debug)]
pub struct When {
    predicate: Expr,
}

/// A chain that holds one complete branch.
#[derive(Debug)]
pub struct WhenThen {
    predicate: Expr,
    result: Expr,
}

/// A chain with more than one declared branch.
#[derive(Debug)]
pub struct WhenThenThen {
    branches: Vec<(Expr, Expr)>,
    pending: Option<Expr>,
}

impl View for When {
    type V = WhenView;

    closed spec fn view(&self) -> WhenView {
        WhenView { predicate: self.predicate@ }
    }
}

impl View for WhenThen {
    type V = WhenThenView;

    closed spec fn view(&self) -> WhenThenView {
        WhenThenView { predicate: self.predicate@, result: self.result@ }
    }
}

impl View for WhenThenThen {
    type V = ChainView;

    closed spec fn view(&self) -> ChainView {
        ChainView {
            branches: branches_view(self.branches@),
            pending: match self.pending {
                Some(predicate) => Some(predicate@),
                None => None,
            },
        }
    }
}

/// A copy of a branch list.
fn clone_branches(branches: &Vec<(Expr, Expr)>) -> (copy: Vec<(Expr, Expr)>)
    ensures
        branches_view(copy@) == branches_view(branches@),
        copy@.len() == branches@.len(),
{
    let mut copy: Vec<(Expr, Expr)> = Vec::new();
    let mut i: usize = 0;
    while i < branches.len()
        invariant
            i <= branches.len(),
            copy@.len() == i,
            forall|j: int|
                0 <= j < i ==> (#[trigger] copy@[j]).0@ == branches@[j].0@ && copy@[j].1@
                    == branches@[j].1@,
        decreases branches.len() - i,
    {
        let predicate = branches[i].0.clone();
        let result = branches[i].1.clone();
        copy.push((predicate, result));
        i += 1;
    }
    copy
}

/// Opens a chain on `predicate`.
pub fn when(predicate: &Expr) -> (chain: When)
    ensures
        chain@ == spec_when(predicate@),
        predicate@.well_formed() ==> chain@.well_formed(),
{
    When { predicate: predicate.clone() }
}

impl Clone for When {
    fn clone(&self) -> (copy: Self)
        ensures
            copy@ == self@,
    {
        When { predicate: self.predicate.clone() }
    }
}

impl When {
    /// Gives the predicate its result: the chain's first branch.
    pub fn then(&self, expr: &Expr) -> (chain: WhenThen)
        ensures
            chain@ == self@.spec_then(expr@),
            self@.well_formed() && expr@.well_formed() ==> chain@.well_formed(),
    {
        WhenThen { predicate: self.predicate.clone(), result: expr.clone() }
    }
}

impl Clone for WhenThen {
    fn clone(&self) -> (copy: Self)
        ensures
            copy@ == self@,
    {
        WhenThen { predicate: self.predicate.clone(), result: self.result.clone() }
    }
}

impl WhenThen {
    /// Opens a second branch on `predicate`.
    pub fn when(&self, predicate: &Expr) -> (chain: WhenThenThen)
        ensures
            chain@ == self@.spec_when(predicate@),
            self@.well_formed() && predicate@.well_formed() ==> chain@.well_formed(),
    {
        let mut branches: Vec<(Expr, Expr)> = Vec::new();
        branches.push((self.predicate.clone(), self.result.clone()));
        let chain = WhenThenThen { branches, pending: Some(predicate.clone()) };
        assert(chain@.branches =~= self@.spec_when(predicate@).branches);
        chain
    }

    /// Ends the chain: a conditional with the one branch and `expr` as its
    /// fallback.
    pub fn otherwise(&self, expr: &Expr) -> (e: Expr)
        ensures
            e@ == self@.spec_otherwise(expr@),
            self@.well_formed() && expr@.well_formed() ==> e@.well_formed(),
    {
        let mut branches: Vec<(Expr, Expr)> = Vec::new();
        branches.push((self.predicate.clone(), self.result.clone()));
        let fallback = Box::new(expr.clone());
        proof {
            lemma_conditional_view(branches, fallback);
            assert(branches_view(branches@) =~= seq![(self@.predicate, self@.result)]);
        }
        Expr::Conditional { branches, otherwise: fallback }
    }
}

impl Clone for WhenThenThen {
    fn clone(&self) -> (copy: Self)
        ensures
            copy@ == self@,
    {
        proof {
            use_type_invariant(self);
        }
        let pending = match &self.pending {
            Some(predicate) => Some(predicate.clone()),
            None => None,
        };
        WhenThenThen { branches: clone_branches(&self.branches), pending }
    }
}

impl WhenThenThen {
    #[verifier::type_invariant]
    spec fn has_branch(self) -> bool {
        self.branches@.len() >= 1
    }

    /// Whether the last declared predicate still waits for its result.
    pub fn has_pending_predicate(&self) -> (pending: bool)
        ensures
            pending == !self@.complete(),
    {
        self.pending.is_some()
    }

    /// Opens a further branch on `predicate`.
    pub fn when(&self, predicate: &Expr) -> (chain: WhenThenThen)
        requires
            self@.complete(),
        ensures
            chain@ == self@.spec_when(predicate@),
            chain@.branches.len() >= 1,
            self@.well_formed() && predicate@.well_formed() ==> chain@.well_formed(),
    {
        proof {
            use_type_invariant(self);
        }
        WhenThenThen { branches: clone_branches(&self.branches), pending: Some(predicate.clone()) }
    }

    /// Gives the pending predicate its result, which completes a branch.
    pub fn then(&self, expr: &Expr) -> (chain: WhenThenThen)
        requires
            !self@.complete(),
        ensures
            chain@ == self@.spec_then(expr@),
            chain@.branches.len() >= 2,
            self@.well_formed() && expr@.well_formed() ==> chain@.well_formed(),
    {
        proof {
            use_type_invariant(self);
        }
        let mut branches = clone_branches(&self.branches);
        let predicate = self.pending.as_ref().unwrap().clone();
        branches.push((predicate, expr.clone()));
        let chain = WhenThenThen { branches, pending: None };
        assert(chain@.branches =~= self@.spec_then(expr@).branches);
        chain
    }

    /// Ends the chain: a conditional with every declared branch, in the
    /// order of declaration, and `expr` as its fallback.
    pub fn otherwise(&self, expr: &Expr) -> (e: Expr)
        requires
            self@.complete(),
        ensures
            e@ == self@.spec_otherwise(expr@),
            e@->branches.len() >= 1,
            self@.well_formed() && expr@.well_formed() ==> e@.well_formed(),
    {
        proof {
            use_type_invariant(self);
        }
        let branches = clone_branches(&self.branches);
        let fallback = Box::new(expr.clone());
        proof {
            lemma_conditional_view(branches, fallback);
        }
        Expr::Conditional { branches, otherwise: fallback }
    }
}

/// The chain after each pair of `rest` was declared on `chain`, by `when` and
/// `then`, in the order of the sequence.
pub open spec fn declare_all(chain: ChainView, rest: Seq<(ExprView, ExprView)>) -> ChainView
    decreases rest.len(),
{
    if rest.len() == 0 {
        chain
    } else {
        declare_all(chain.spec_when(rest[0].0).spec_then(rest[0].1), rest.drop_first())
    }
}

/// The expression that a whole chain of calls ends in: `when` and `then` for
/// the first branch, `when` and `then` again for each of the others, in their
/// order, then `otherwise`.
pub open spec fn chain_result(
    first: (ExprView, ExprView),
    others: Seq<(ExprView, ExprView)>,
    fallback: ExprView,
) -> ExprView {
    let head = spec_when(first.0).spec_then(first.1);
    if others.len() == 0 {
        head.spec_otherwise(fallback)
    } else {
        declare_all(
            head.spec_when(others[0].0).spec_then(others[0].1),
            others.drop_first(),
        ).spec_otherwise(fallback)
    }
}

/// Declaring further branches on a complete chain appends them, in their
/// order, to those that it holds.
pub proof fn lemma_declare_all_appends(chain: ChainView, rest: Seq<(ExprView, ExprView)>)
    requires
        chain.complete(),
    ensures
        declare_all(chain, rest) == (ChainView {
            branches: chain.branches + rest,
            pending: None,
        }),
    decreases rest.len(),
{
    if rest.len() > 0 {
        let next = chain.spec_when(rest[0].0).spec_then(rest[0].1);
        lemma_declare_all_appends(next, rest.drop_first());
        assert(next.branches + rest.drop_first() =~= chain.branches + rest);
    }
}

/// A chain of any length ends in one conditional node that holds the branches
/// exactly as declared: none is moved, merged or dropped, also where two
/// predicates are equal.
pub proof fn lemma_chain_keeps_declaration_order(
    first: (ExprView, ExprView),
    others: Seq<(ExprView, ExprView)>,
    fallback: ExprView,
)
    ensures
        chain_result(first, others, fallback) == ExprView::conditional(
            seq![first] + others,
            fallback,
        ),
{
    if others.len() > 0 {
        let head = spec_when(first.0).spec_then(first.1);
        let second = head.spec_when(others[0].0).spec_then(others[0].1);
        lemma_declare_all_appends(second, others.drop_first());
        assert(second.branches + others.drop_first() =~= seq![first] + others);
    }
}

/// Two declared branches come out in the order of their declaration, and
/// declared the other way round they come out the other way round.
pub proof fn lemma_two_branches_in_order(
    predicate_a: ExprView,
    result_a: ExprView,
    predicate_b: ExprView,
    result_b: ExprView,
    fallback: ExprView,
)
    ensures
        spec_when(predicate_a).spec_then(result_a).spec_when(predicate_b).spec_then(
            result_b,
        ).spec_otherwise(fallback) == ExprView::conditional(
            seq![(predicate_a, result_a), (predicate_b, result_b)],
            fallback,
        ),
        spec_when(predicate_b).spec_then(result_b).spec_when(predicate_a).spec_then(
            result_a,
        ).spec_otherwise(fallback) == ExprView::conditional(
            seq![(predicate_b, result_b), (predicate_a, result_a)],
            fallback,
        ),
{
    assert(seq![(predicate_a, result_a)].push((predicate_b, result_b)) =~= seq![
        (predicate_a, result_a),
        (predicate_b, result_b),
    ]);
    assert(seq![(predicate_b, result_b)].push((predicate_a, result_a)) =~= seq![
        (predicate_b, result_b),
        (predicate_a, result_a),
    ]);
}

/// A chain with one branch ends in the node that a longer chain ends in: a
/// conditional whose branch list has one entry.
pub proof fn lemma_single_branch(predicate: ExprView, result: ExprView, fallback: ExprView)
    ensures
        spec_when(predicate).spec_then(result).spec_otherwise(fallback) == ExprView::conditional(
            seq![(predicate, result)],
            fallback,
        ),
        spec_when(predicate).spec_then(result).spec_otherwise(fallback) == chain_result(
            (predicate, result),
            Seq::empty(),
            fallback,
        ),
{
}

/// What a chain ends in depends on nothing but the expressions handed to it:
/// chains declared with equal branches and equal fallbacks end in equal trees.
pub proof fn lemma_chain_is_deterministic(
    first_a: (ExprView, ExprView),
    others_a: Seq<(ExprView, ExprView)>,
    fallback_a: ExprView,
    first_b: (ExprView, ExprView),
    others_b: Seq<(ExprView, ExprView)>,
    fallback_b: ExprView,
)
    requires
        first_a == first_b,
        others_a =~= others_b,
        fallback_a == fallback_b,
    ensures
        chain_result(first_a, others_a, fallback_a) == chain_result(first_b, others_b, fallback_b),
{
}

/// A chain ends in a well-formed expression where every expression handed
/// to it is well formed.
pub proof fn lemma_chain_result_well_formed(
    first: (ExprView, ExprView),
    others: Seq<(ExprView, ExprView)>,
    fallback: ExprView,
)
    requires
        first.0.well_formed(),
        first.1.well_formed(),
        forall|i: int|
            0 <= i < others.len() ==> (#[trigger] others[i]).0.well_formed()
                && others[i].1.well_formed(),
        fallback.well_formed(),
    ensures
        chain_result(first, others, fallback).well_formed(),
{
    lemma_chain_keeps_declaration_order(first, others, fallback);
    let branches = seq![first] + others;
    assert forall|i: int| 0 <= i < branches.len() implies (#[trigger] branches[i]).0.well_formed()
        && branches[i].1.well_formed() by {
        if i > 0 {
            assert(branches[i] == others[i - 1]);
        }
    }
}

} // verus!
