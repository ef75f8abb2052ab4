//! The abstract syntax tree shared by the parser and the interpreter, the
//! runtime values it evaluates to, and the two error taxonomies.
//!
//! Each executable type has a ghost counterpart (`SpecExpr`, `SpecStmt`, ...)
//! in which owned byte vectors become `Seq<u8>`; the `model` functions map an
//! executable tree to that mathematical form, and every contract in the crate
//! speaks about models, never about heap representation.

use vstd::prelude::*;

verus! {

// ===================== Errors =====================

/// A parse failure. `pos` is the byte offset at which the grammar could not
/// consume the input; everything before `pos` on the failing alternative had
/// matched, everything from `pos` on is the residual, unconsumed input.
#[derive(Debug, Clone, Copy, PartialEq, Eq, Structural)]
pub struct ParseError {
    pub pos: usize,
}

/// An evaluation failure. Any such error aborts the whole evaluation; none is
/// recovered from.
#[derive(Debug, Clone, Copy, PartialEq, Eq, Structural)]
pub enum RunError {
    /// A call named a function that the program never defined.
    UndefinedFunction,
    /// An identifier was read that is not bound in the current frame.
    UndefinedVariable,
    /// An operator was applied to operands of the wrong or mismatched variants.
    TypeMismatch,
    /// A call supplied a number of arguments different from the number of
    /// declared parameters.
    ArityMismatch,
    /// Division by zero.
    DivisionByZero,
    /// Exponentiation by a negative exponent.
    NegativeExponent,
    /// An arithmetic result does not fit in a 32-bit signed integer.
    NumberOverflow,
    /// The call depth exceeded the evaluation fuel; unbounded recursion is
    /// reported rather than allowed to exhaust the host stack.
    RecursionLimit,
}

// ===================== Runtime values =====================

/// A runtime value: the closed set of things an expression can evaluate to.
/// Values are immutable once produced. Language strings are byte strings
/// (the grammar only admits alphanumeric bytes and spaces inside quotes).
#[derive(Debug, Clone, PartialEq, Eq)]
pub enum Value {
    Number(i32),
    Bool(bool),
    Str(Vec<u8>),
}

/// The mathematical form of a `Value`.
pub enum SpecValue {
    Number(i32),
    Bool(bool),
    Str(Seq<u8>),
}

/// A fresh byte vector with the same contents.
pub fn copy_bytes(s: &Vec<u8>) -> (r: Vec<u8>)
    ensures
        r@ == s@,
{
    let mut copy: Vec<u8> = Vec::new();
    let mut i: usize = 0;
    while i < s.len()
        invariant
            i <= s.len(),
            copy@ == s@.subrange(0, i as int),
        decreases s.len() - i,
    {
        copy.push(s[i]);
        assert(copy@ == s@.subrange(0, i + 1 as int));
        i = i + 1;
    }
    assert(copy@ == s@);
    copy
}

impl Value {
    pub open spec fn model(&self) -> SpecValue {
        match self {
            Value::Number(n) => SpecValue::Number(*n),
            Value::Bool(b) => SpecValue::Bool(*b),
            Value::Str(s) => SpecValue::Str(s@),
        }
    }

    /// A copy of the value, equal in model to the original.
    pub fn duplicate(&self) -> (r: Value)
        ensures
            r.model() == self.model(),
    {
        match self {
            Value::Number(n) => Value::Number(*n),
            Value::Bool(b) => Value::Bool(*b),
            Value::Str(s) => Value::Str(copy_bytes(s)),
        }
    }
}

// ===================== Operators =====================

/// Arithmetic operators, in the precedence tower `^` over `*` `/` over `+` `-`.
#[derive(Debug, Clone, Copy, PartialEq, Eq, Structural)]
pub enum MathOp {
    Add,
    Sub,
    Mul,
    Div,
    Exp,
}

/// Relational and equality operators; they bind looser than all arithmetic.
#[derive(Debug, Clone, Copy, PartialEq, Eq, Structural)]
pub enum CmpOp {
    Gte,
    Lte,
    Lt,
    Gt,
    Eq,
    Neq,
}

// ===================== Executable syntax tree =====================

/// An expression. Arity is fixed per variant at construction time: a binary
/// operator node always carries exactly two operands, and an if-expression
/// always carries its mandatory else block.
#[derive(Debug, PartialEq)]
pub enum Expr {
    Number { value: i32 },
    Boolean { value: bool },
    StringLiteral { value: Vec<u8> },
    Identifier { name: Vec<u8> },
    Math { op: MathOp, lhs: Box<Expr>, rhs: Box<Expr> },
    Comparison { op: CmpOp, lhs: Box<Expr>, rhs: Box<Expr> },
    FunctionCall { name: Vec<u8>, args: ExprList },
    IfExpression { then_arm: Box<Arm>, elif_arms: ArmList, else_block: StmtList },
}

/// One `if` or `else if` arm: a condition and the block it guards.
#[derive(Debug, PartialEq)]
pub struct Arm {
    pub cond: Expr,
    pub block: StmtList,
}

/// A statement: a variable definition or a function return.
#[derive(Debug, PartialEq)]
pub enum Stmt {
    VariableDefine { name: Vec<u8>, value: Expr },
    FunctionReturn { value: Expr },
}

/// A list of actual arguments.
#[derive(Debug, PartialEq)]
pub enum ExprList {
    Nil,
    Cons(Box<Expr>, Box<ExprList>),
}

/// A list of statements.
#[derive(Debug, PartialEq)]
pub enum StmtList {
    Nil,
    Cons(Box<Stmt>, Box<StmtList>),
}

/// A list of `else if` arms.
#[derive(Debug, PartialEq)]
pub enum ArmList {
    Nil,
    Cons(Box<Arm>, Box<ArmList>),
}

/// A list of declared parameter names.
#[derive(Debug, PartialEq)]
pub enum ParamList {
    Nil,
    Cons(Vec<u8>, Box<ParamList>),
}

/// A function definition: name, declared parameters, body statements.
#[derive(Debug, PartialEq)]
pub struct FunctionDef {
    pub name: Vec<u8>,
    pub params: ParamList,
    pub body: StmtList,
}

/// One top-level program item.
#[derive(Debug, PartialEq)]
pub enum Item {
    Function(FunctionDef),
    Statement(Stmt),
    Expression(Expr),
}

/// A list of top-level items.
#[derive(Debug, PartialEq)]
pub enum ItemList {
    Nil,
    Cons(Item, Box<ItemList>),
}

/// A whole program: the root of every parse.
#[derive(Debug, PartialEq)]
pub enum Node {
    Program { items: ItemList },
}

// ===================== Ghost syntax tree =====================

/// Ghost counterpart of `Expr`.
pub enum SpecExpr {
    Number { value: i32 },
    Boolean { value: bool },
    StringLiteral { value: Seq<u8> },
    Identifier { name: Seq<u8> },
    Math { op: MathOp, lhs: Box<SpecExpr>, rhs: Box<SpecExpr> },
    Comparison { op: CmpOp, lhs: Box<SpecExpr>, rhs: Box<SpecExpr> },
    FunctionCall { name: Seq<u8>, args: SpecExprList },
    IfExpression { then_arm: Box<SpecArm>, elif_arms: SpecArmList, else_block: SpecStmtList },
}

/// Ghost counterpart of `Arm`.
pub struct SpecArm {
    pub cond: SpecExpr,
    pub block: SpecStmtList,
}

/// Ghost counterpart of `Stmt`.
pub enum SpecStmt {
    VariableDefine { name: Seq<u8>, value: SpecExpr },
    FunctionReturn { value: SpecExpr },
}

/// Ghost counterpart of `ExprList`.
pub enum SpecExprList {
    Nil,
    Cons(Box<SpecExpr>, Box<SpecExprList>),
}

/// Ghost counterpart of `StmtList`.
pub enum SpecStmtList {
    Nil,
    Cons(Box<SpecStmt>, Box<SpecStmtList>),
}

/// Ghost counterpart of `ArmList`.
pub enum SpecArmList {
    Nil,
    Cons(Box<SpecArm>, Box<SpecArmList>),
}

/// Ghost counterpart of `Item`: parameter names become a sequence of byte
/// sequences.
pub enum SpecItem {
    Function { name: Seq<u8>, params: Seq<Seq<u8>>, body: SpecStmtList },
    Statement(SpecStmt),
    Expression(SpecExpr),
}

/// Ghost counterpart of `ItemList`.
pub enum SpecItemList {
    Nil,
    Cons(Box<SpecItem>, Box<SpecItemList>),
}

// ===================== Models =====================

impl Expr {
    pub open spec fn model(&self) -> SpecExpr
        decreases self,
    {
        match self {
            Expr::Number { value } => SpecExpr::Number { value: *value },
            Expr::Boolean { value } => SpecExpr::Boolean { value: *value },
            Expr::StringLiteral { value } => SpecExpr::StringLiteral { value: value@ },
            Expr::Identifier { name } => SpecExpr::Identifier { name: name@ },
            Expr::Math { op, lhs, rhs } => SpecExpr::Math {
                op: *op,
                lhs: Box::new(lhs.model()),
                rhs: Box::new(rhs.model()),
            },
            Expr::Comparison { op, lhs, rhs } => SpecExpr::Comparison {
                op: *op,
                lhs: Box::new(lhs.model()),
                rhs: Box::new(rhs.model()),
            },
            Expr::FunctionCall { name, args } => SpecExpr::FunctionCall {
                name: name@,
                args: args.model(),
            },
            Expr::IfExpression { then_arm, elif_arms, else_block } => SpecExpr::IfExpression {
                then_arm: Box::new(then_arm.model()),
                elif_arms: elif_arms.model(),
                else_block: else_block.model(),
            },
        }
    }
}

impl Arm {
    pub open spec fn model(&self) -> SpecArm
        decreases self,
    {
        SpecArm { cond: self.cond.model(), block: self.block.model() }
    }
}

impl Stmt {
    pub open spec fn model(&self) -> SpecStmt
        decreases self,
    {
        match self {
            Stmt::VariableDefine { name, value } => SpecStmt::VariableDefine {
                name: name@,
                value: value.model(),
            },
            Stmt::FunctionReturn { value } => SpecStmt::FunctionReturn { value: value.model() },
        }
    }
}

impl ExprList {
    pub open spec fn model(&self) -> SpecExprList
        decreases self,
    {
        match self {
            ExprList::Nil => SpecExprList::Nil,
            ExprList::Cons(e, rest) => SpecExprList::Cons(
                Box::new(e.model()),
                Box::new(rest.model()),
            ),
        }
    }
}

impl StmtList {
    pub open spec fn model(&self) -> SpecStmtList
        decreases self,
    {
        match self {
            StmtList::Nil => SpecStmtList::Nil,
            StmtList::Cons(s, rest) => SpecStmtList::Cons(
                Box::new(s.model()),
                Box::new(rest.model()),
            ),
        }
    }
}

impl ArmList {
    pub open spec fn model(&self) -> SpecArmList
        decreases self,
    {
        match self {
            ArmList::Nil => SpecArmList::Nil,
            ArmList::Cons(a, rest) => SpecArmList::Cons(
                Box::new(a.model()),
                Box::new(rest.model()),
            ),
        }
    }
}

impl ParamList {
    /// Parameter names in declaration order.
    pub open spec fn model(&self) -> Seq<Seq<u8>>
        decreases self,
    {
        match self {
            ParamList::Nil => Seq::empty(),
            ParamList::Cons(name, rest) => seq![name@] + rest.model(),
        }
    }
}

impl Item {
    pub open spec fn model(&self) -> SpecItem
        decreases self,
    {
        match self {
            Item::Function(f) => SpecItem::Function {
                name: f.name@,
                params: f.params.model(),
                body: f.body.model(),
            },
            Item::Statement(s) => SpecItem::Statement(s.model()),
            Item::Expression(e) => SpecItem::Expression(e.model()),
        }
    }
}

impl ItemList {
    pub open spec fn model(&self) -> SpecItemList
        decreases self,
    {
        match self {
            ItemList::Nil => SpecItemList::Nil,
            ItemList::Cons(i, rest) => SpecItemList::Cons(
                Box::new(i.model()),
                Box::new(rest.model()),
            ),
        }
    }
}

impl Node {
    pub open spec fn model(&self) -> SpecItemList {
        match self {
            Node::Program { items } => items.model(),
        }
    }
}

// ===================== Deep copies =====================
//
// The interpreter registers function bodies in its table without consuming
// the program node it was handed, so the syntax tree can be copied; each copy
// is equal in model to its original.

impl Expr {
    /// A copy of the expression, equal in model to the original.
    pub fn duplicate(&self) -> (r: Expr)
        ensures
            r.model() == self.model(),
        decreases self,
    {
        match self {
            Expr::Number { value } => Expr::Number { value: *value },
            Expr::Boolean { value } => Expr::Boolean { value: *value },
            Expr::StringLiteral { value } => Expr::StringLiteral { value: copy_bytes(value) },
            Expr::Identifier { name } => Expr::Identifier { name: copy_bytes(name) },
            Expr::Math { op, lhs, rhs } => Expr::Math {
                op: *op,
                lhs: Box::new(lhs.duplicate()),
                rhs: Box::new(rhs.duplicate()),
            },
            Expr::Comparison { op, lhs, rhs } => Expr::Comparison {
                op: *op,
                lhs: Box::new(lhs.duplicate()),
                rhs: Box::new(rhs.duplicate()),
            },
            Expr::FunctionCall { name, args } => Expr::FunctionCall {
                name: copy_bytes(name),
                args: args.duplicate(),
            },
            Expr::IfExpression { then_arm, elif_arms, else_block } => Expr::IfExpression {
                then_arm: Box::new(then_arm.duplicate()),
                elif_arms: elif_arms.duplicate(),
                else_block: else_block.duplicate(),
            },
        }
    }
}

impl Arm {
    /// A copy of the arm, equal in model to the original.
    pub fn duplicate(&self) -> (r: Arm)
        ensures
            r.model() == self.model(),
        decreases self,
    {
        Arm { cond: self.cond.duplicate(), block: self.block.duplicate() }
    }
}

impl Stmt {
    /// A copy of the statement, equal in model to the original.
    pub fn duplicate(&self) -> (r: Stmt)
        ensures
            r.model() == self.model(),
        decreases self,
    {
        match self {
            Stmt::VariableDefine { name, value } => Stmt::VariableDefine {
                name: copy_bytes(name),
                value: value.duplicate(),
            },
            Stmt::FunctionReturn { value } => Stmt::FunctionReturn { value: value.duplicate() },
        }
    }
}

impl ExprList {
    /// A copy of the list, equal in model to the original.
    pub fn duplicate(&self) -> (r: ExprList)
        ensures
            r.model() == self.model(),
        decreases self,
    {
        match self {
            ExprList::Nil => ExprList::Nil,
            ExprList::Cons(e, rest) => ExprList::Cons(
                Box::new(e.duplicate()),
                Box::new(rest.duplicate()),
            ),
        }
    }
}

impl StmtList {
    /// A copy of the list, equal in model to the original.
    pub fn duplicate(&self) -> (r: StmtList)
        ensures
            r.model() == self.model(),
        decreases self,
    {
        match self {
            StmtList::Nil => StmtList::Nil,
            StmtList::Cons(s, rest) => StmtList::Cons(
                Box::new(s.duplicate()),
                Box::new(rest.duplicate()),
            ),
        }
    }
}

impl ArmList {
    /// A copy of the list, equal in model to the original.
    pub fn duplicate(&self) -> (r: ArmList)
        ensures
            r.model() == self.model(),
        decreases self,
    {
        match self {
            ArmList::Nil => ArmList::Nil,
            ArmList::Cons(a, rest) => ArmList::Cons(
                Box::new(a.duplicate()),
                Box::new(rest.duplicate()),
            ),
        }
    }
}

impl ParamList {
    /// A copy of the list, equal in model to the original.
    pub fn duplicate(&self) -> (r: ParamList)
        ensures
            r.model() == self.model(),
        decreases self,
    {
        match self {
            ParamList::Nil => ParamList::Nil,
            ParamList::Cons(name, rest) => ParamList::Cons(
                copy_bytes(name),
                Box::new(rest.duplicate()),
            ),
        }
    }
}

impl FunctionDef {
    /// The function's table entry in mathematical form: its declared
    /// parameters and its body.
    pub open spec fn model(&self) -> SpecFunc {
        SpecFunc { params: self.params.model(), body: self.body.model() }
    }

    /// A copy of the definition, equal in model to the original.
    pub fn duplicate(&self) -> (r: FunctionDef)
        ensures
            r.model() == self.model(),
            r.name@ == self.name@,
    {
        FunctionDef {
            name: copy_bytes(&self.name),
            params: self.params.duplicate(),
            body: self.body.duplicate(),
        }
    }
}

/// What the function table remembers about one function: its declared
/// parameter names and its body, in mathematical form.
pub struct SpecFunc {
    pub params: Seq<Seq<u8>>,
    pub body: SpecStmtList,
}

} // verus!
