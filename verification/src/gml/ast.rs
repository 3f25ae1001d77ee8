//! The syntax tree. Names and literals are kept as spans of the source.
//!
//! Each node type has a counterpart over sequences, which contracts speak of:
//! an [`Expr`] stands for the [`ExprTree`] that `tree` gives.

use vstd::prelude::*;

verus! {

/// A range of bytes of the source, with the line and column of its start.
#[derive(Debug, Clone, Copy, PartialEq, Eq, Structural)]
pub struct Span {
    pub start: u32,
    pub end: u32,
    pub line: u32,
    pub column: u32,
}

impl Default for Span {
    fn default() -> (span: Self)
        ensures
            span == (Span { start: 0, end: 0, line: 0, column: 0 }),
    {
        Span { start: 0, end: 0, line: 0, column: 0 }
    }
}

impl Span {
    /// The span from the start of this one to the end of another.
    pub open spec fn joined(self, end: Span) -> Span {
        Span { start: self.start, end: end.end, line: self.line, column: self.column }
    }

    /// Returns the span from the start of this one to the end of another.
    pub fn through(self, end: Span) -> (span: Span)
        ensures
            span == self.joined(end),
    {
        Span { start: self.start, end: end.end, line: self.line, column: self.column }
    }
}

/// A parsed code unit.
#[derive(Debug, PartialEq)]
pub struct Program {
    pub statements: Vec<Stmt>,
    pub token_count: usize,
}

/// A statement.
#[derive(Debug, PartialEq)]
pub struct Stmt {
    pub kind: StmtKind,
    pub span: Span,
}

/// What a statement does.
#[derive(Debug, PartialEq)]
pub enum StmtKind {
    Empty,
    Block(Vec<Stmt>),
    Var { global: bool, declarations: Vec<VarDecl> },
    If { condition: Expr, then_branch: Box<Stmt>, else_branch: Option<Box<Stmt>> },
    While { condition: Expr, body: Box<Stmt> },
    DoUntil { body: Box<Stmt>, condition: Expr },
    For {
        initializer: Option<Box<Stmt>>,
        condition: Option<Expr>,
        step: Option<Expr>,
        body: Box<Stmt>,
    },
    Repeat { count: Expr, body: Box<Stmt> },
    With { target: Expr, body: Box<Stmt> },
    Switch { value: Expr, body: Box<Stmt> },
    Case(Expr),
    Default,
    Return(Option<Expr>),
    Exit,
    Break,
    Continue,
    Enum { name: Span, members: Vec<EnumMember> },
    Expr(Expr),
}

/// One variable of a `var` or `globalvar` statement.
#[derive(Debug, PartialEq)]
pub struct VarDecl {
    pub name: Span,
    pub value: Option<Expr>,
    pub span: Span,
}

/// One member of an `enum` statement.
#[derive(Debug, PartialEq)]
pub struct EnumMember {
    pub name: Span,
    pub value: Option<Expr>,
    pub span: Span,
}

/// An expression.
#[derive(Debug, PartialEq)]
pub struct Expr {
    pub kind: ExprKind,
    pub span: Span,
}

/// What an expression computes.
#[derive(Debug, PartialEq)]
pub enum ExprKind {
    Identifier,
    Number,
    String,
    Group(Box<Expr>),
    Array(Vec<Expr>),
    Unary { op: UnaryOp, value: Box<Expr> },
    Binary { op: BinaryOp, left: Box<Expr>, right: Box<Expr> },
    Conditional { condition: Box<Expr>, then_value: Box<Expr>, else_value: Box<Expr> },
    Assign { op: AssignOp, target: Box<Expr>, value: Box<Expr> },
    Call { callee: Box<Expr>, arguments: Vec<Expr> },
    Index { target: Box<Expr>, accessor: Accessor, indices: Vec<Expr> },
    Member { target: Box<Expr>, name: Span },
    Postfix { op: PostfixOp, target: Box<Expr> },
}

/// How an index reaches its target.
#[derive(Debug, Clone, Copy, PartialEq, Eq, Structural)]
pub enum Accessor {
    Array,
    ArrayDirect,
    DsMap,
    Grid,
    List,
    Int8,
    Int16,
    Int32,
    Int64,
    UInt8,
    UInt16,
    UInt32,
    Float32,
    Float64,
}

/// An operator before its operand.
#[derive(Debug, Clone, Copy, PartialEq, Eq, Structural)]
pub enum UnaryOp {
    Positive,
    Negative,
    Not,
    BitNot,
    PreIncrement,
    PreDecrement,
}

/// An operator behind its operand.
#[derive(Debug, Clone, Copy, PartialEq, Eq, Structural)]
pub enum PostfixOp {
    Increment,
    Decrement,
}

/// An operator between two operands.
#[derive(Debug, Clone, Copy, PartialEq, Eq, Structural)]
pub enum BinaryOp {
    LogicalOr,
    LogicalAnd,
    LogicalXor,
    Equal,
    NotEqual,
    Less,
    LessEqual,
    Greater,
    GreaterEqual,
    BitOr,
    BitAnd,
    BitXor,
    ShiftLeft,
    ShiftRight,
    Add,
    Subtract,
    Multiply,
    Divide,
    IntegerDivide,
    Modulo,
}

/// An assignment operator.
#[derive(Debug, Clone, Copy, PartialEq, Eq, Structural)]
pub enum AssignOp {
    Assign,
    Add,
    Subtract,
    Multiply,
    Divide,
    Modulo,
    BitOr,
    BitAnd,
    BitXor,
}

/// The counterpart of a [`Program`].
pub struct ProgramTree {
    pub statements: Seq<StmtTree>,
    pub token_count: nat,
}

/// The counterpart of a [`Stmt`].
pub struct StmtTree {
    pub form: StmtForm,
    pub span: Span,
}

/// The counterpart of a [`StmtKind`].
pub enum StmtForm {
    Empty,
    Block(Seq<StmtTree>),
    Var { global: bool, declarations: Seq<VarTree> },
    If { condition: ExprTree, then_branch: Box<StmtTree>, else_branch: Option<Box<StmtTree>> },
    While { condition: ExprTree, body: Box<StmtTree> },
    DoUntil { body: Box<StmtTree>, condition: ExprTree },
    For {
        initializer: Option<Box<StmtTree>>,
        condition: Option<ExprTree>,
        step: Option<ExprTree>,
        body: Box<StmtTree>,
    },
    Repeat { count: ExprTree, body: Box<StmtTree> },
    With { target: ExprTree, body: Box<StmtTree> },
    Switch { value: ExprTree, body: Box<StmtTree> },
    Case(ExprTree),
    Default,
    Return(Option<ExprTree>),
    Exit,
    Break,
    Continue,
    Enum { name: Span, members: Seq<VarTree> },
    Expr(ExprTree),
}

/// The counterpart of a [`VarDecl`] and of an [`EnumMember`].
pub struct VarTree {
    pub name: Span,
    pub value: Option<ExprTree>,
    pub span: Span,
}

/// The counterpart of an [`Expr`].
pub struct ExprTree {
    pub form: ExprForm,
    pub span: Span,
}

/// The counterpart of an [`ExprKind`].
pub enum ExprForm {
    Identifier,
    Number,
    String,
    Group(Box<ExprTree>),
    Array(Seq<ExprTree>),
    Unary { op: UnaryOp, value: Box<ExprTree> },
    Binary { op: BinaryOp, left: Box<ExprTree>, right: Box<ExprTree> },
    Conditional { condition: Box<ExprTree>, then_value: Box<ExprTree>, else_value: Box<ExprTree> },
    Assign { op: AssignOp, target: Box<ExprTree>, value: Box<ExprTree> },
    Call { callee: Box<ExprTree>, arguments: Seq<ExprTree> },
    Index { target: Box<ExprTree>, accessor: Accessor, indices: Seq<ExprTree> },
    Member { target: Box<ExprTree>, name: Span },
    Postfix { op: PostfixOp, target: Box<ExprTree> },
}

impl Expr {
    /// The tree that the expression stands for.
    pub open spec fn tree(self) -> ExprTree
        decreases self,
    {
        ExprTree { form: self.kind.form(), span: self.span }
    }
}

impl ExprKind {
    /// The counterpart over sequences.
    pub open spec fn form(self) -> ExprForm
        decreases self,
    {
        match self {
            ExprKind::Identifier => ExprForm::Identifier,
            ExprKind::Number => ExprForm::Number,
            ExprKind::String => ExprForm::String,
            ExprKind::Group(value) => ExprForm::Group(Box::new(value.tree())),
            ExprKind::Array(values) => ExprForm::Array(expr_trees(values@)),
            ExprKind::Unary { op, value } => ExprForm::Unary { op, value: Box::new(value.tree()) },
            ExprKind::Binary { op, left, right } => ExprForm::Binary {
                op,
                left: Box::new(left.tree()),
                right: Box::new(right.tree()),
            },
            ExprKind::Conditional { condition, then_value, else_value } => ExprForm::Conditional {
                condition: Box::new(condition.tree()),
                then_value: Box::new(then_value.tree()),
                else_value: Box::new(else_value.tree()),
            },
            ExprKind::Assign { op, target, value } => ExprForm::Assign {
                op,
                target: Box::new(target.tree()),
                value: Box::new(value.tree()),
            },
            ExprKind::Call { callee, arguments } => ExprForm::Call {
                callee: Box::new(callee.tree()),
                arguments: expr_trees(arguments@),
            },
            ExprKind::Index { target, accessor, indices } => ExprForm::Index {
                target: Box::new(target.tree()),
                accessor,
                indices: expr_trees(indices@),
            },
            ExprKind::Member { target, name } => ExprForm::Member {
                target: Box::new(target.tree()),
                name,
            },
            ExprKind::Postfix { op, target } => ExprForm::Postfix {
                op,
                target: Box::new(target.tree()),
            },
        }
    }
}

/// The trees of a list of expressions.
pub open spec fn expr_trees(values: Seq<Expr>) -> Seq<ExprTree>
    decreases values,
{
    if values.len() == 0 {
        seq![]
    } else {
        expr_trees(values.drop_last()).push(values.last().tree())
    }
}

/// The tree of an optional expression.
pub open spec fn optional_tree(value: Option<Expr>) -> Option<ExprTree> {
    match value {
        None => None,
        Some(value) => Some(value.tree()),
    }
}

impl VarDecl {
    /// The tree that the declaration stands for.
    pub open spec fn tree(self) -> VarTree {
        VarTree { name: self.name, value: optional_tree(self.value), span: self.span }
    }
}

impl EnumMember {
    /// The tree that the member stands for.
    pub open spec fn tree(self) -> VarTree {
        VarTree { name: self.name, value: optional_tree(self.value), span: self.span }
    }
}

impl Stmt {
    /// The tree that the statement stands for.
    pub open spec fn tree(self) -> StmtTree
        decreases self,
    {
        StmtTree { form: self.kind.form(), span: self.span }
    }
}

impl StmtKind {
    /// The counterpart over sequences.
    pub open spec fn form(self) -> StmtForm
        decreases self,
    {
        match self {
            StmtKind::Empty => StmtForm::Empty,
            StmtKind::Block(statements) => StmtForm::Block(stmt_trees(statements@)),
            StmtKind::Var { global, declarations } => StmtForm::Var {
                global,
                declarations: declarations@.map_values(|declaration: VarDecl| declaration.tree()),
            },
            StmtKind::If { condition, then_branch, else_branch } => StmtForm::If {
                condition: condition.tree(),
                then_branch: Box::new(then_branch.tree()),
                else_branch: match else_branch {
                    None => None,
                    Some(branch) => Some(Box::new(branch.tree())),
                },
            },
            StmtKind::While { condition, body } => StmtForm::While {
                condition: condition.tree(),
                body: Box::new(body.tree()),
            },
            StmtKind::DoUntil { body, condition } => StmtForm::DoUntil {
                body: Box::new(body.tree()),
                condition: condition.tree(),
            },
            StmtKind::For { initializer, condition, step, body } => StmtForm::For {
                initializer: match initializer {
                    None => None,
                    Some(initializer) => Some(Box::new(initializer.tree())),
                },
                condition: optional_tree(condition),
                step: optional_tree(step),
                body: Box::new(body.tree()),
            },
            StmtKind::Repeat { count, body } => StmtForm::Repeat {
                count: count.tree(),
                body: Box::new(body.tree()),
            },
            StmtKind::With { target, body } => StmtForm::With {
                target: target.tree(),
                body: Box::new(body.tree()),
            },
            StmtKind::Switch { value, body } => StmtForm::Switch {
                value: value.tree(),
                body: Box::new(body.tree()),
            },
            StmtKind::Case(value) => StmtForm::Case(value.tree()),
            StmtKind::Default => StmtForm::Default,
            StmtKind::Return(value) => StmtForm::Return(optional_tree(value)),
            StmtKind::Exit => StmtForm::Exit,
            StmtKind::Break => StmtForm::Break,
            StmtKind::Continue => StmtForm::Continue,
            StmtKind::Enum { name, members } => StmtForm::Enum {
                name,
                members: members@.map_values(|member: EnumMember| member.tree()),
            },
            StmtKind::Expr(value) => StmtForm::Expr(value.tree()),
        }
    }
}

/// The trees of a list of statements.
pub open spec fn stmt_trees(statements: Seq<Stmt>) -> Seq<StmtTree>
    decreases statements,
{
    if statements.len() == 0 {
        seq![]
    } else {
        stmt_trees(statements.drop_last()).push(statements.last().tree())
    }
}

impl Program {
    /// The tree that the program stands for.
    pub open spec fn tree(self) -> ProgramTree {
        ProgramTree {
            statements: stmt_trees(self.statements@),
            token_count: self.token_count as nat,
        }
    }
}

/// Appending an expression appends its tree.
pub proof fn lemma_expr_trees_push(values: Seq<Expr>, value: Expr)
    ensures
        expr_trees(values.push(value)) == expr_trees(values).push(value.tree()),
{
    assert(values.push(value).drop_last() =~= values);
}

/// A list of expressions has a tree for each of them.
pub proof fn lemma_expr_trees(values: Seq<Expr>)
    ensures
        expr_trees(values).len() == values.len(),
        forall|k: int|
            0 <= k < values.len() ==> (#[trigger] expr_trees(values)[k]) == values[k].tree(),
    decreases values.len(),
{
    if values.len() > 0 {
        lemma_expr_trees(values.drop_last());
    }
}

/// Appending a statement appends its tree.
pub proof fn lemma_stmt_trees_push(statements: Seq<Stmt>, statement: Stmt)
    ensures
        stmt_trees(statements.push(statement)) == stmt_trees(statements).push(statement.tree()),
{
    assert(statements.push(statement).drop_last() =~= statements);
}

/// A list of statements has a tree for each of them.
pub proof fn lemma_stmt_trees(statements: Seq<Stmt>)
    ensures
        stmt_trees(statements).len() == statements.len(),
        forall|k: int|
            0 <= k < statements.len() ==> (#[trigger] stmt_trees(statements)[k])
                == statements[k].tree(),
    decreases statements.len(),
{
    if statements.len() > 0 {
        lemma_stmt_trees(statements.drop_last());
    }
}

} // verus!
