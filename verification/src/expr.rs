//! The expression tree, its mathematical model and the leaf constructors.

use vstd::prelude::*;

verus! {

/// Model of a typed scalar constant.
pub ghost enum ScalarView {
    Null,
    Boolean(bool),
    Utf8(Seq<char>),
    /// A binary64 number, as its bit pattern.
    Float64(u64),
}

/// Model of an expression tree: the value that the contracts speak of.
pub ghost enum ExprView {
    ColumnRef(Seq<char>),
    ColumnSet(Seq<Seq<char>>),
    Literal(ScalarView),
    Conditional { branches: Seq<(ExprView, ExprView)>, otherwise: Box<ExprView> },
    Count,
    First,
    Last,
}

impl ExprView {
    /// A conditional with one branch list and a fallback.
    pub open spec fn conditional(branches: Seq<(ExprView, ExprView)>, otherwise: ExprView) -> ExprView {
        ExprView::Conditional { branches, otherwise: Box::new(otherwise) }
    }

    /// Every conditional in the tree has at least one branch.
    pub open spec fn well_formed(self) -> bool
        decreases self,
    {
        match self {
            ExprView::Conditional { branches, otherwise } => {
                &&& branches.len() >= 1
                &&& forall|i: int|
                    0 <= i < branches.len() ==> (#[trigger] branches[i]).0.well_formed()
                        && branches[i].1.well_formed()
                &&& otherwise.well_formed()
            },
            _ => true,
        }
    }
}

/// A typed scalar constant.
#[derive(Debug, PartialEq, Eq)]
pub enum Scalar {
    /// The engine's null marker.
    Null,
    Boolean(bool),
    Utf8(String),
    /// A binary64 number, held by its bit pattern.
    Float64(u64),
}

impl View for Scalar {
    type V = ScalarView;

    open spec fn view(&self) -> ScalarView {
        match self {
            Scalar::Null => ScalarView::Null,
            Scalar::Boolean(b) => ScalarView::Boolean(*b),
            Scalar::Utf8(s) => ScalarView::Utf8(s@),
            Scalar::Float64(bits) => ScalarView::Float64(*bits),
        }
    }
}

impl Clone for Scalar {
    fn clone(&self) -> (copy: Self)
        ensures
            copy == *self,
    {
        match self {
            Scalar::Null => Scalar::Null,
            Scalar::Boolean(b) => Scalar::Boolean(*b),
            Scalar::Utf8(s) => Scalar::Utf8(s.clone()),
            Scalar::Float64(bits) => Scalar::Float64(*bits),
        }
    }
}

/// An immutable expression tree.
#[derive(Debug, PartialEq, Eq)]
pub enum Expr {
    /// One column, named verbatim.
    ColumnRef(String),
    /// A group of columns, named verbatim and in order.
    ColumnSet(Vec<String>),
    Literal(Scalar),
    /// Branches in declaration order, then the fallback.
    Conditional { branches: Vec<(Expr, Expr)>, otherwise: Box<Expr> },
    Count,
    First,
    Last,
}

/// The names that a list of strings spells.
pub open spec fn names_view(names: Seq<String>) -> Seq<Seq<char>> {
    Seq::new(names.len(), |i: int| names[i]@)
}

impl Expr {
    /// The tree that this expression stands for.
    pub open spec fn model(self) -> ExprView
        decreases self,
    {
        match self {
            Expr::ColumnRef(name) => ExprView::ColumnRef(name@),
            Expr::ColumnSet(names) => ExprView::ColumnSet(names_view(names@)),
            Expr::Literal(value) => ExprView::Literal(value@),
            Expr::Conditional { branches, otherwise } => ExprView::Conditional {
                branches: Seq::new(
                    branches@.len(),
                    |i: int|
                        if 0 <= i < branches@.len() {
                            (branches@[i].0.model(), branches@[i].1.model())
                        } else {
                            arbitrary()
                        },
                ),
                otherwise: Box::new((*otherwise).model()),
            },
            Expr::Count => ExprView::Count,
            Expr::First => ExprView::First,
            Expr::Last => ExprView::Last,
        }
    }
}

impl View for Expr {
    type V = ExprView;

    open spec fn view(&self) -> ExprView {
        self.model()
    }
}

/// The branch list that a vector of predicate/result pairs stands for.
pub open spec fn branches_view(branches: Seq<(Expr, Expr)>) -> Seq<(ExprView, ExprView)> {
    Seq::new(branches.len(), |i: int| (branches[i].0@, branches[i].1@))
}

/// The model of a conditional is the model of its parts.
pub proof fn lemma_conditional_view(branches: Vec<(Expr, Expr)>, otherwise: Box<Expr>)
    ensures
        (Expr::Conditional { branches, otherwise })@ == ExprView::conditional(
            branches_view(branches@),
            (*otherwise)@,
        ),
{
    let e = Expr::Conditional { branches, otherwise };
    assert(e@->branches =~= branches_view(branches@));
}

/// A copy of a list of names.
fn clone_names(names: &Vec<String>) -> (copy: Vec<String>)
    ensures
        names_view(copy@) == names_view(names@),
{
    let mut copy: Vec<String> = Vec::new();
    let mut i: usize = 0;
    while i < names.len()
        invariant
            i <= names.len(),
            copy@.len() == i,
            forall|j: int| 0 <= j < i ==> copy@[j]@ == names@[j]@,
        decreases names.len() - i,
    {
        copy.push(names[i].clone());
        i += 1;
    }
    copy
}

impl Clone for Expr {
    fn clone(&self) -> (copy: Self)
        ensures
            copy@ == self@,
        decreases self,
    {
        match self {
            Expr::ColumnRef(name) => Expr::ColumnRef(name.clone()),
            Expr::ColumnSet(names) => Expr::ColumnSet(clone_names(names)),
            Expr::Literal(value) => Expr::Literal(value.clone()),
            Expr::Conditional { branches, otherwise } => {
                let mut copied: Vec<(Expr, Expr)> = Vec::new();
                let mut i: usize = 0;
                while i < branches.len()
                    invariant
                        i <= branches.len(),
                        copied@.len() == i,
                        self is Conditional,
                        self->branches == *branches,
                        forall|j: int|
                            0 <= j < i ==> (#[trigger] copied@[j]).0@ == branches@[j].0@
                                && copied@[j].1@ == branches@[j].1@,
                    decreases branches.len() - i,
                {
                    let predicate = branches[i].0.clone();
                    let result = branches[i].1.clone();
                    copied.push((predicate, result));
                    i += 1;
                }
                let fallback = Box::new((**otherwise).clone());
                proof {
                    lemma_conditional_view(copied, fallback);
                    lemma_conditional_view(*branches, *otherwise);
                    assert(branches_view(copied@) =~= branches_view(branches@));
                }
                Expr::Conditional { branches: copied, otherwise: fallback }
            },
            Expr::Count => Expr::Count,
            Expr::First => Expr::First,
            Expr::Last => Expr::Last,
        }
    }
}

/// A reference to the column called `name`. The name is kept verbatim: a
/// wildcard or a pattern is the engine's to interpret.
pub fn col(name: String) -> (e: Expr)
    ensures
        e@ == ExprView::ColumnRef(name@),
{
    Expr::ColumnRef(name)
}

/// A selection of the columns called `names`, verbatim and in the given order.
pub fn cols(names: Vec<String>) -> (e: Expr)
    ensures
        e@ == ExprView::ColumnSet(names_view(names@)),
{
    Expr::ColumnSet(names)
}

/// The number of rows in the context.
pub fn count() -> (e: Expr)
    ensures
        e@ == ExprView::Count,
{
    Expr::Count
}

/// The first column of the context.
pub fn first() -> (e: Expr)
    ensures
        e@ == ExprView::First,
{
    Expr::First
}

/// The last column of the context.
pub fn last() -> (e: Expr)
    ensures
        e@ == ExprView::Last,
{
    Expr::Last
}

impl Expr {
    /// Whether every conditional in the tree has at least one branch.
    pub fn is_well_formed(&self) -> (ok: bool)
        ensures
            ok == self@.well_formed(),
        decreases self,
    {
        match self {
            Expr::Conditional { branches, otherwise } => {
                proof {
                    lemma_conditional_view(*branches, *otherwise);
                }
                if branches.len() == 0 {
                    return false;
                }
                let mut i: usize = 0;
                while i < branches.len()
                    invariant
                        i <= branches.len(),
                        self is Conditional,
                        self->branches == *branches,
                        self@ == ExprView::conditional(branches_view(branches@), (**otherwise)@),
                        forall|j: int|
                            0 <= j < i ==> (#[trigger] branches_view(branches@)[j]).0.well_formed()
                                && branches_view(branches@)[j].1.well_formed(),
                    decreases branches.len() - i,
                {
                    let predicate_ok = branches[i].0.is_well_formed();
                    let result_ok = branches[i].1.is_well_formed();
                    if !predicate_ok || !result_ok {
                        assert(!(branches_view(branches@)[i as int].0.well_formed()
                            && branches_view(branches@)[i as int].1.well_formed()));
                        return false;
                    }
                    i += 1;
                }
                (**otherwise).is_well_formed()
            },
            _ => true,
        }
    }
}

/// A column reference and a column set are nodes of different shapes,
/// whatever their names: `"*"`, a pattern and a list are told apart by the
/// node, not by looking into the names.
pub proof fn lemma_column_shapes_differ(name: Seq<char>, names: Seq<Seq<char>>)
    ensures
        ExprView::ColumnRef(name) != ExprView::ColumnSet(names),
{
}

/// A column node holds its names verbatim: two nodes are equal only where
/// the names are, character by character and in the same order.
pub proof fn lemma_column_names_verbatim(
    a: Seq<char>,
    b: Seq<char>,
    first: Seq<Seq<char>>,
    second: Seq<Seq<char>>,
)
    ensures
        ExprView::ColumnRef(a) == ExprView::ColumnRef(b) <==> a == b,
        ExprView::ColumnSet(first) == ExprView::ColumnSet(second) <==> first == second,
        ExprView::ColumnRef(a)->ColumnRef_0 == a,
        ExprView::ColumnSet(first)->ColumnSet_0 == first,
{
}

} // verus!
