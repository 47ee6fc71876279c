//! What the bundler reads of a module's syntax tree: its top-level
//! statements, and of each the expressions in which a `require` call is
//! recognised.

use vstd::prelude::*;

verus! {

/// One argument of a call.
#[derive(Debug, Clone, PartialEq, Eq)]
pub enum Arg {
    /// A string literal, with its text.
    StringLiteral(String),
    /// Anything else.
    Other,
}

/// An expression that stands as the initializer of a variable declarator or
/// as the whole of an expression statement.
#[derive(Debug, Clone, PartialEq, Eq)]
pub enum Expr {
    /// A call. `callee` is the name of the target where the target is a plain
    /// identifier.
    Call { callee: Option<String>, arguments: Vec<Arg> },
    /// Anything else.
    Other,
}

/// A top-level statement.
#[derive(Debug, Clone, PartialEq, Eq)]
pub enum Stmt {
    /// A variable declaration: the initializer of each declarator, in order.
    VariableDeclaration(Vec<Option<Expr>>),
    /// An expression statement.
    ExpressionStatement(Expr),
    /// Anything else.
    Other,
}

/// What an argument is, as a value of specifications.
pub enum ArgView {
    StringLiteral(Seq<char>),
    Other,
}

/// What an expression is, as a value of specifications.
pub enum ExprView {
    Call { callee: Option<Seq<char>>, arguments: Seq<ArgView> },
    Other,
}

/// What a statement is, as a value of specifications.
pub enum StmtView {
    VariableDeclaration(Seq<Option<ExprView>>),
    ExpressionStatement(ExprView),
    Other,
}

impl View for Arg {
    type V = ArgView;

    open spec fn view(&self) -> ArgView {
        match self {
            Arg::StringLiteral(s) => ArgView::StringLiteral(s@),
            Arg::Other => ArgView::Other,
        }
    }
}

/// The views of a call's arguments.
pub open spec fn arguments_view(arguments: Seq<Arg>) -> Seq<ArgView> {
    Seq::new(arguments.len(), |i: int| arguments[i]@)
}

/// The view of an optional name.
pub open spec fn name_view(name: Option<String>) -> Option<Seq<char>> {
    match name {
        Some(s) => Some(s@),
        None => None,
    }
}

impl View for Expr {
    type V = ExprView;

    open spec fn view(&self) -> ExprView {
        match self {
            Expr::Call { callee, arguments } => ExprView::Call {
                callee: name_view(*callee),
                arguments: arguments_view(arguments@),
            },
            Expr::Other => ExprView::Other,
        }
    }
}

/// The view of an optional expression.
pub open spec fn slot_view(slot: Option<Expr>) -> Option<ExprView> {
    match slot {
        Some(e) => Some(e@),
        None => None,
    }
}

/// The views of a declaration's initializers.
pub open spec fn slots_view(slots: Seq<Option<Expr>>) -> Seq<Option<ExprView>> {
    Seq::new(slots.len(), |i: int| slot_view(slots[i]))
}

impl View for Stmt {
    type V = StmtView;

    open spec fn view(&self) -> StmtView {
        match self {
            Stmt::VariableDeclaration(slots) => StmtView::VariableDeclaration(
                slots_view(slots@),
            ),
            Stmt::ExpressionStatement(e) => StmtView::ExpressionStatement(e@),
            Stmt::Other => StmtView::Other,
        }
    }
}

/// The views of a module's top-level statements.
pub open spec fn body_view(body: Seq<Stmt>) -> Seq<StmtView> {
    Seq::new(body.len(), |i: int| body[i]@)
}

impl Arg {
    /// A copy of this argument.
    pub fn duplicate(&self) -> (r: Arg)
        ensures
            r@ == self@,
    {
        match self {
            Arg::StringLiteral(s) => Arg::StringLiteral(s.clone()),
            Arg::Other => Arg::Other,
        }
    }
}

impl Expr {
    /// A copy of this expression.
    pub fn duplicate(&self) -> (r: Expr)
        ensures
            r@ == self@,
    {
        match self {
            Expr::Call { callee, arguments } => {
                let name = match callee {
                    Some(s) => Some(s.clone()),
                    None => None,
                };
                let mut copied: Vec<Arg> = Vec::new();
                let mut i: usize = 0;
                while i < arguments.len()
                    invariant
                        0 <= i <= arguments@.len(),
                        copied@.len() == i,
                        forall|j: int| 0 <= j < i ==> (#[trigger] copied@[j])@ == arguments@[j]@,
                    decreases arguments@.len() - i,
                {
                    let a = arguments[i].duplicate();
                    copied.push(a);
                    i += 1;
                }
                assert(arguments_view(copied@) =~= arguments_view(arguments@));
                Expr::Call { callee: name, arguments: copied }
            },
            Expr::Other => Expr::Other,
        }
    }
}

} // verus!
