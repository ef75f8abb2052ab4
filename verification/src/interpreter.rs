//! The tree-walking interpreter: a mathematical big-step semantics for the
//! language, and a `Runtime` that executes a parsed program against it.
//!
//! Scoping rule: each function call evaluates its body in one fresh frame
//! holding only the bound parameters; a variable lookup consults the current
//! frame only — there is no fallback to an enclosing or calling frame. A
//! frame comes into being when a call starts evaluating its body and is gone
//! when the call completes.
//!
//! Because a program may recurse without bound, evaluation carries fuel: one
//! unit is spent per function call. Exhausting it is reported as
//! `RunError::RecursionLimit`. `Runtime::run` supplies the largest possible
//! fuel, so in practice the host stack, not the fuel, is the limit of
//! recursion depth — as in any direct recursive evaluator, a deeply recursive
//! program is a fatal resource exhaustion, not a recoverable state.

use crate::ast::Arm;
use crate::ast::ArmList;
use crate::ast::CmpOp;
use crate::ast::Expr;
use crate::ast::ExprList;
use crate::ast::FunctionDef;
use crate::ast::Item;
use crate::ast::ItemList;
use crate::ast::MathOp;
use crate::ast::Node;
use crate::ast::ParamList;
use crate::ast::RunError;
use crate::ast::SpecArm;
use crate::ast::SpecArmList;
use crate::ast::SpecExpr;
use crate::ast::SpecExprList;
use crate::ast::SpecFunc;
use crate::ast::SpecItem;
use crate::ast::SpecItemList;
use crate::ast::SpecStmt;
use crate::ast::SpecStmtList;
use crate::ast::Stmt;
use crate::ast::StmtList;
use crate::ast::copy_bytes;
use crate::ast::SpecValue;
use crate::ast::Value;
use vstd::arithmetic::power::pow;
use vstd::prelude::*;

verus! {

// ===================== Spec-level semantics =====================

/// The name under which a bare top-level statement or expression is
/// registered, and the function `run` invokes: `main`.
pub open spec fn main_name() -> Seq<u8> {
    seq![109u8, 97u8, 105u8, 110u8]
}

/// Arithmetic on two numbers. Every result that does not fit in `i32` is an
/// error, never a wrapped or clamped number: division truncates toward zero,
/// division by zero and negative exponents are reported, and `+ - * ^` report
/// overflow.
pub open spec fn spec_math(op: MathOp, a: i32, b: i32) -> Result<i32, RunError> {
    match op {
        MathOp::Add => match a.checked_add(b) {
            Some(v) => Ok(v),
            None => Err(RunError::NumberOverflow),
        },
        MathOp::Sub => match a.checked_sub(b) {
            Some(v) => Ok(v),
            None => Err(RunError::NumberOverflow),
        },
        MathOp::Mul => match a.checked_mul(b) {
            Some(v) => Ok(v),
            None => Err(RunError::NumberOverflow),
        },
        MathOp::Div => if b == 0 {
            Err(RunError::DivisionByZero)
        } else {
            match a.checked_div(b) {
                Some(v) => Ok(v),
                None => Err(RunError::NumberOverflow),
            }
        },
        MathOp::Exp => if b < 0 {
            Err(RunError::NegativeExponent)
        } else if i32::MIN <= pow(a as int, b as nat) <= i32::MAX {
            Ok(pow(a as int, b as nat) as i32)
        } else {
            Err(RunError::NumberOverflow)
        },
    }
}

/// Comparison of two values. Ordering operators require two numbers;
/// equality operators accept any two values of the same variant; operands of
/// mismatched variants are a type error.
pub open spec fn spec_cmp(op: CmpOp, x: SpecValue, y: SpecValue) -> Result<bool, RunError> {
    match op {
        CmpOp::Gte => match (x, y) {
            (SpecValue::Number(a), SpecValue::Number(b)) => Ok(a >= b),
            _ => Err(RunError::TypeMismatch),
        },
        CmpOp::Lte => match (x, y) {
            (SpecValue::Number(a), SpecValue::Number(b)) => Ok(a <= b),
            _ => Err(RunError::TypeMismatch),
        },
        CmpOp::Lt => match (x, y) {
            (SpecValue::Number(a), SpecValue::Number(b)) => Ok(a < b),
            _ => Err(RunError::TypeMismatch),
        },
        CmpOp::Gt => match (x, y) {
            (SpecValue::Number(a), SpecValue::Number(b)) => Ok(a > b),
            _ => Err(RunError::TypeMismatch),
        },
        CmpOp::Eq => spec_value_eq(x, y),
        CmpOp::Neq => match spec_value_eq(x, y) {
            Ok(b) => Ok(!b),
            Err(e) => Err(e),
        },
    }
}

/// Equality of two values of the same variant; mismatched variants are a
/// type error.
pub open spec fn spec_value_eq(x: SpecValue, y: SpecValue) -> Result<bool, RunError> {
    match (x, y) {
        (SpecValue::Number(a), SpecValue::Number(b)) => Ok(a == b),
        (SpecValue::Bool(a), SpecValue::Bool(b)) => Ok(a == b),
        (SpecValue::Str(a), SpecValue::Str(b)) => Ok(a == b),
        _ => Err(RunError::TypeMismatch),
    }
}

/// The outcome of evaluating an expression or a statement in a frame:
/// a value together with the frame as the evaluation left it, an early
/// return propagating toward the enclosing call, or an error aborting
/// everything.
pub enum StepRes {
    Val { env: Map<Seq<u8>, SpecValue>, v: SpecValue },
    Ret { v: SpecValue },
    Fail { e: RunError },
}

/// The outcome of evaluating an argument list: the values in order, an early
/// return, or an error.
pub enum ArgsRes {
    Val { env: Map<Seq<u8>, SpecValue>, vals: Seq<SpecValue> },
    Ret { v: SpecValue },
    Fail { e: RunError },
}

/// The outcome of trying one conditional arm: taken (with the block's
/// outcome, or the error the condition raised), or skipped because the
/// condition was false.
pub enum ArmRes {
    Taken { r: StepRes },
    Skip { env: Map<Seq<u8>, SpecValue> },
}

/// One frame from declared parameter names and argument values, bound
/// positionally in order; a repeated name keeps the later binding.
pub open spec fn spec_bind_from(
    env: Map<Seq<u8>, SpecValue>,
    params: Seq<Seq<u8>>,
    vals: Seq<SpecValue>,
) -> Map<Seq<u8>, SpecValue>
    decreases params.len(),
{
    if params.len() == 0 {
        env
    } else {
        spec_bind_from(
            env.insert(params[0], vals[0]),
            params.subrange(1, params.len() as int),
            vals.subrange(1, vals.len() as int),
        )
    }
}

/// Big-step evaluation of one expression in the frame `env`.
pub open spec fn spec_eval_expr(
    t: Map<Seq<u8>, SpecFunc>,
    env: Map<Seq<u8>, SpecValue>,
    e: SpecExpr,
    fuel: nat,
) -> StepRes
    decreases fuel, e,
{
    match e {
        SpecExpr::Number { value } => StepRes::Val { env, v: SpecValue::Number(value) },
        SpecExpr::Boolean { value } => StepRes::Val { env, v: SpecValue::Bool(value) },
        SpecExpr::StringLiteral { value } => StepRes::Val { env, v: SpecValue::Str(value) },
        SpecExpr::Identifier { name } => if env.contains_key(name) {
            StepRes::Val { env, v: env[name] }
        } else {
            StepRes::Fail { e: RunError::UndefinedVariable }
        },
        SpecExpr::Math { op, lhs, rhs } => match spec_eval_expr(t, env, *lhs, fuel) {
            StepRes::Val { env: env1, v: v1 } => match spec_eval_expr(t, env1, *rhs, fuel) {
                StepRes::Val { env: env2, v: v2 } => match (v1, v2) {
                    (SpecValue::Number(a), SpecValue::Number(b)) => match spec_math(op, a, b) {
                        Ok(n) => StepRes::Val { env: env2, v: SpecValue::Number(n) },
                        Err(er) => StepRes::Fail { e: er },
                    },
                    _ => StepRes::Fail { e: RunError::TypeMismatch },
                },
                other => other,
            },
            other => other,
        },
        SpecExpr::Comparison { op, lhs, rhs } => match spec_eval_expr(t, env, *lhs, fuel) {
            StepRes::Val { env: env1, v: v1 } => match spec_eval_expr(t, env1, *rhs, fuel) {
                StepRes::Val { env: env2, v: v2 } => match spec_cmp(op, v1, v2) {
                    Ok(b) => StepRes::Val { env: env2, v: SpecValue::Bool(b) },
                    Err(er) => StepRes::Fail { e: er },
                },
                other => other,
            },
            other => other,
        },
        SpecExpr::FunctionCall { name, args } => if !t.contains_key(name) {
            StepRes::Fail { e: RunError::UndefinedFunction }
        } else {
            match spec_eval_args(t, env, args, fuel) {
                ArgsRes::Val { env: env1, vals } => {
                    let f = t[name];
                    if f.params.len() != vals.len() {
                        StepRes::Fail { e: RunError::ArityMismatch }
                    } else if fuel == 0 {
                        StepRes::Fail { e: RunError::RecursionLimit }
                    } else {
                        match spec_eval_stmts(
                            t,
                            spec_bind_from(Map::empty(), f.params, vals),
                            f.body,
                            (fuel - 1) as nat,
                        ) {
                            StepRes::Val { .. } => StepRes::Val {
                                env: env1,
                                v: SpecValue::Bool(false),
                            },
                            StepRes::Ret { v } => StepRes::Val { env: env1, v },
                            err => err,
                        }
                    }
                },
                ArgsRes::Ret { v } => StepRes::Ret { v },
                ArgsRes::Fail { e } => StepRes::Fail { e },
            }
        },
        SpecExpr::IfExpression { then_arm, elif_arms, else_block } => match spec_eval_arm(
            t,
            env,
            *then_arm,
            fuel,
        ) {
            ArmRes::Taken { r } => r,
            ArmRes::Skip { env: env1 } => match spec_eval_arms(t, env1, elif_arms, fuel) {
                ArmRes::Taken { r } => r,
                ArmRes::Skip { env: env2 } => spec_eval_stmts(t, env2, else_block, fuel),
            },
        },
    }
}

/// Evaluation of actual arguments, left to right, threading the caller's
/// frame through each.
pub open spec fn spec_eval_args(
    t: Map<Seq<u8>, SpecFunc>,
    env: Map<Seq<u8>, SpecValue>,
    args: SpecExprList,
    fuel: nat,
) -> ArgsRes
    decreases fuel, args,
{
    match args {
        SpecExprList::Nil => ArgsRes::Val { env, vals: Seq::empty() },
        SpecExprList::Cons(e, rest) => match spec_eval_expr(t, env, *e, fuel) {
            StepRes::Val { env: env1, v } => match spec_eval_args(t, env1, *rest, fuel) {
                ArgsRes::Val { env: env2, vals } => ArgsRes::Val {
                    env: env2,
                    vals: seq![v] + vals,
                },
                other => other,
            },
            StepRes::Ret { v } => ArgsRes::Ret { v },
            StepRes::Fail { e } => ArgsRes::Fail { e },
        },
    }
}

/// One conditional arm: evaluate its condition, then its block if the
/// condition held. A non-boolean condition is a type error.
pub open spec fn spec_eval_arm(
    t: Map<Seq<u8>, SpecFunc>,
    env: Map<Seq<u8>, SpecValue>,
    a: SpecArm,
    fuel: nat,
) -> ArmRes
    decreases fuel, a,
{
    match spec_eval_expr(t, env, a.cond, fuel) {
        StepRes::Val { env: env1, v } => match v {
            SpecValue::Bool(b) => if b {
                ArmRes::Taken { r: spec_eval_stmts(t, env1, a.block, fuel) }
            } else {
                ArmRes::Skip { env: env1 }
            },
            _ => ArmRes::Taken { r: StepRes::Fail { e: RunError::TypeMismatch } },
        },
        other => ArmRes::Taken { r: other },
    }
}

/// The `else if` arms in source order: the first whose condition holds is
/// taken.
pub open spec fn spec_eval_arms(
    t: Map<Seq<u8>, SpecFunc>,
    env: Map<Seq<u8>, SpecValue>,
    arms: SpecArmList,
    fuel: nat,
) -> ArmRes
    decreases fuel, arms,
{
    match arms {
        SpecArmList::Nil => ArmRes::Skip { env },
        SpecArmList::Cons(a, rest) => match spec_eval_arm(t, env, *a, fuel) {
            ArmRes::Taken { r } => ArmRes::Taken { r },
            ArmRes::Skip { env: env1 } => spec_eval_arms(t, env1, *rest, fuel),
        },
    }
}

/// One statement. A variable definition binds in the current frame,
/// overwriting any prior binding of the name, and yields the bound value; a
/// return statement turns its expression's value into an early return.
pub open spec fn spec_eval_stmt(
    t: Map<Seq<u8>, SpecFunc>,
    env: Map<Seq<u8>, SpecValue>,
    s: SpecStmt,
    fuel: nat,
) -> StepRes
    decreases fuel, s,
{
    match s {
        SpecStmt::VariableDefine { name, value } => match spec_eval_expr(t, env, value, fuel) {
            StepRes::Val { env: env1, v } => StepRes::Val { env: env1.insert(name, v), v },
            other => other,
        },
        SpecStmt::FunctionReturn { value } => match spec_eval_expr(t, env, value, fuel) {
            StepRes::Val { env: env1, v } => StepRes::Ret { v },
            other => other,
        },
    }
}

/// A statement block, in order. An early return or an error stops the walk
/// at once; otherwise the block's value is the last statement's value, and
/// an empty block is `Bool(false)`.
pub open spec fn spec_eval_stmts(
    t: Map<Seq<u8>, SpecFunc>,
    env: Map<Seq<u8>, SpecValue>,
    ss: SpecStmtList,
    fuel: nat,
) -> StepRes
    decreases fuel, ss,
{
    match ss {
        SpecStmtList::Nil => StepRes::Val { env, v: SpecValue::Bool(false) },
        SpecStmtList::Cons(s, rest) => match spec_eval_stmt(t, env, *s, fuel) {
            StepRes::Val { env: env1, v } => match *rest {
                SpecStmtList::Nil => StepRes::Val { env: env1, v },
                SpecStmtList::Cons(..) => spec_eval_stmts(t, env1, *rest, fuel),
            },
            other => other,
        },
    }
}

/// Registration of one top-level item into the function table. A function
/// definition is registered under its declared name; a bare statement or
/// expression becomes the body of a synthetic `main`, an expression wrapped
/// in a return. A later registration of the same name replaces the earlier.
pub open spec fn spec_load_item(t: Map<Seq<u8>, SpecFunc>, i: SpecItem) -> Map<
    Seq<u8>,
    SpecFunc,
> {
    match i {
        SpecItem::Function { name, params, body } => t.insert(name, SpecFunc { params, body }),
        SpecItem::Statement(s) => t.insert(
            main_name(),
            SpecFunc {
                params: Seq::empty(),
                body: SpecStmtList::Cons(Box::new(s), Box::new(SpecStmtList::Nil)),
            },
        ),
        SpecItem::Expression(e) => t.insert(
            main_name(),
            SpecFunc {
                params: Seq::empty(),
                body: SpecStmtList::Cons(
                    Box::new(SpecStmt::FunctionReturn { value: e }),
                    Box::new(SpecStmtList::Nil),
                ),
            },
        ),
    }
}

/// The discovery pass: every top-level item registered in order.
pub open spec fn spec_load_from(t: Map<Seq<u8>, SpecFunc>, items: SpecItemList) -> Map<
    Seq<u8>,
    SpecFunc,
>
    decreases items,
{
    match items {
        SpecItemList::Nil => t,
        SpecItemList::Cons(i, rest) => spec_load_from(spec_load_item(t, *i), *rest),
    }
}

/// What running a loaded program yields: `main` called with no arguments.
/// `Err(UndefinedFunction)` exactly when no `main` is registered;
/// `Err(ArityMismatch)` when `main` declares parameters; otherwise `main`'s
/// body is evaluated in an empty frame, a body that completes without a
/// return yielding `Bool(false)`.
pub open spec fn spec_run(t: Map<Seq<u8>, SpecFunc>, fuel: nat) -> Result<SpecValue, RunError> {
    if !t.contains_key(main_name()) {
        Err(RunError::UndefinedFunction)
    } else if t[main_name()].params.len() != 0 {
        Err(RunError::ArityMismatch)
    } else if fuel == 0 {
        Err(RunError::RecursionLimit)
    } else {
        match spec_eval_stmts(t, Map::empty(), t[main_name()].body, (fuel - 1) as nat) {
            StepRes::Val { .. } => Ok(SpecValue::Bool(false)),
            StepRes::Ret { v } => Ok(v),
            StepRes::Fail { e } => Err(e),
        }
    }
}

// ===================== Frames and the function table =====================

/// The mathematical content of one variable frame: later bindings of a name
/// overwrite earlier ones.
spec fn frame_model(f: Seq<(Vec<u8>, Value)>) -> Map<Seq<u8>, SpecValue>
    decreases f.len(),
{
    if f.len() == 0 {
        Map::empty()
    } else {
        frame_model(f.drop_last()).insert(f.last().0@, f.last().1.model())
    }
}

/// The mathematical content of the function table: later registrations of a
/// name overwrite earlier ones.
spec fn table_model(t: Seq<(Vec<u8>, FunctionDef)>) -> Map<Seq<u8>, SpecFunc>
    decreases t.len(),
{
    if t.len() == 0 {
        Map::empty()
    } else {
        table_model(t.drop_last()).insert(t.last().0@, t.last().1.model())
    }
}

/// Byte-for-byte equality of two names.
fn bytes_eq(a: &Vec<u8>, b: &Vec<u8>) -> (r: bool)
    ensures
        r == (a@ == b@),
{
    if a.len() != b.len() {
        return false;
    }
    let mut i: usize = 0;
    while i < a.len()
        invariant
            i <= a.len(),
            a@.len() == b@.len(),
            forall|j: int| 0 <= j < i ==> a@[j] == b@[j],
        decreases a.len() - i,
    {
        if a[i] != b[i] {
            return false;
        }
        i = i + 1;
    }
    proof {
        assert(a@ =~= b@);
    }
    true
}

/// Lookup among the first `k` bindings of a frame, the latest binding of the
/// name winning.
fn frame_get_upto(f: &Vec<(Vec<u8>, Value)>, name: &Vec<u8>, k: usize) -> (r: Option<Value>)
    requires
        k <= f@.len(),
    ensures
        match r {
            Some(v) => frame_model(f@.subrange(0, k as int)).contains_key(name@) && v.model()
                == frame_model(f@.subrange(0, k as int))[name@],
            None => !frame_model(f@.subrange(0, k as int)).contains_key(name@),
        },
    decreases k,
{
    if k == 0 {
        assert(f@.subrange(0, 0) =~= Seq::<(Vec<u8>, Value)>::empty());
        None
    } else {
        let i = k - 1;
        proof {
            assert(f@.subrange(0, k as int).drop_last() =~= f@.subrange(0, i as int));
            assert(f@.subrange(0, k as int).last() == f@[i as int]);
        }
        if bytes_eq(&f[i].0, name) {
            Some(f[i].1.duplicate())
        } else {
            frame_get_upto(f, name, i)
        }
    }
}

/// Lookup of a name in a frame.
fn frame_get(f: &Vec<(Vec<u8>, Value)>, name: &Vec<u8>) -> (r: Option<Value>)
    ensures
        match r {
            Some(v) => frame_model(f@).contains_key(name@) && v.model() == frame_model(f@)[name@],
            None => !frame_model(f@).contains_key(name@),
        },
{
    let k = f.len();
    proof {
        assert(f@.subrange(0, k as int) =~= f@);
    }
    frame_get_upto(f, name, k)
}

/// Lookup among the first `k` registrations of the table, the latest
/// registration of the name winning.
fn table_get_upto<'a>(t: &'a Vec<(Vec<u8>, FunctionDef)>, name: &Vec<u8>, k: usize) -> (r: Option<
    &'a FunctionDef,
>)
    requires
        k <= t@.len(),
    ensures
        match r {
            Some(f) => table_model(t@.subrange(0, k as int)).contains_key(name@) && f.model()
                == table_model(t@.subrange(0, k as int))[name@],
            None => !table_model(t@.subrange(0, k as int)).contains_key(name@),
        },
    decreases k,
{
    if k == 0 {
        assert(t@.subrange(0, 0) =~= Seq::<(Vec<u8>, FunctionDef)>::empty());
        None
    } else {
        let i = k - 1;
        proof {
            assert(t@.subrange(0, k as int).drop_last() =~= t@.subrange(0, i as int));
            assert(t@.subrange(0, k as int).last() == t@[i as int]);
        }
        if bytes_eq(&t[i].0, name) {
            Some(&t[i].1)
        } else {
            table_get_upto(t, name, i)
        }
    }
}

/// Lookup of a function by name.
fn table_get<'a>(t: &'a Vec<(Vec<u8>, FunctionDef)>, name: &Vec<u8>) -> (r: Option<
    &'a FunctionDef,
>)
    ensures
        match r {
            Some(f) => table_model(t@).contains_key(name@) && f.model() == table_model(t@)[name@],
            None => !table_model(t@).contains_key(name@),
        },
{
    let k = t.len();
    proof {
        assert(t@.subrange(0, k as int) =~= t@);
    }
    table_get_upto(t, name, k)
}

// ===================== Executable arithmetic =====================

/// `a` to the power `b`, or the overflow error when any step leaves `i32`.
fn pow_i32(a: i32, b: u32) -> (r: Result<i32, RunError>)
    ensures
        r == if i32::MIN <= pow(a as int, b as nat) <= i32::MAX {
            Ok::<i32, RunError>(pow(a as int, b as nat) as i32)
        } else {
            Err::<i32, RunError>(RunError::NumberOverflow)
        },
    decreases b,
{
    if b == 0 {
        proof {
            vstd::arithmetic::power::lemma_pow0(a as int);
        }
        Ok(1)
    } else {
        let prev = pow_i32(a, b - 1);
        proof {
            reveal(pow);
            assert(pow(a as int, b as nat) == a as int * pow(a as int, (b - 1) as nat));
        }
        match prev {
            Ok(p) => {
                proof {
                    lemma_i32_product_fits_i64(a as int, p as int);
                }
                let m: i64 = (a as i64) * (p as i64);
                proof {
                    assert(m as int == pow(a as int, b as nat));
                }
                if m < -0x8000_0000i64 || m > 0x7fff_ffffi64 {
                    Err(RunError::NumberOverflow)
                } else {
                    Ok(m as i32)
                }
            },
            Err(e) => {
                proof {
                    let p = pow(a as int, (b - 1) as nat);
                    let q = pow(a as int, b as nat);
                    assert(p < -0x8000_0000 || p > 0x7fff_ffff);
                    if a == 0 {
                        vstd::arithmetic::power::lemma0_pow((b - 1) as nat);
                        assert(false);
                    } else if a == 1 {
                        vstd::arithmetic::power::lemma1_pow((b - 1) as nat);
                        assert(false);
                    } else if a == -1 {
                        lemma_pow_neg_one((b - 1) as nat);
                        assert(false);
                    } else {
                        assert(a as int <= -2 || a as int >= 2);
                        lemma_large_factor_stays_large(a as int, p);
                        assert(q < -0x8000_0000 || q > 0x7fff_ffff);
                    }
                }
                Err(e)
            },
        }
    }
}

/// The product of two values in `i32` range fits in `i64`.
proof fn lemma_i32_product_fits_i64(p: int, a: int) by (nonlinear_arith)
    requires
        -0x8000_0000 <= p <= 0x7fff_ffff,
        -0x8000_0000 <= a <= 0x7fff_ffff,
    ensures
        -0x8000_0000_0000_0000 <= p * a < 0x8000_0000_0000_0000,
{
}

/// Multiplying a value already outside `i32` range by a factor of magnitude
/// at least two keeps it outside `i32` range.
proof fn lemma_large_factor_stays_large(a: int, p: int) by (nonlinear_arith)
    requires
        a <= -2 || a >= 2,
        p < -0x8000_0000 || p > 0x7fff_ffff,
    ensures
        a * p < -0x8000_0000 || a * p > 0x7fff_ffff,
{
}

/// `-1` to any power is `1` or `-1`.
proof fn lemma_pow_neg_one(e: nat)
    ensures
        pow(-1, e) == 1 || pow(-1, e) == -1,
    decreases e,
{
    reveal(pow);
    if e > 0 {
        lemma_pow_neg_one((e - 1) as nat);
    }
}

/// One arithmetic operator applied to two numbers.
fn eval_math(op: MathOp, a: i32, b: i32) -> (r: Result<i32, RunError>)
    ensures
        r == spec_math(op, a, b),
{
    match op {
        MathOp::Add => match a.checked_add(b) {
            Some(v) => Ok(v),
            None => Err(RunError::NumberOverflow),
        },
        MathOp::Sub => match a.checked_sub(b) {
            Some(v) => Ok(v),
            None => Err(RunError::NumberOverflow),
        },
        MathOp::Mul => match a.checked_mul(b) {
            Some(v) => Ok(v),
            None => Err(RunError::NumberOverflow),
        },
        MathOp::Div => if b == 0 {
            Err(RunError::DivisionByZero)
        } else {
            match a.checked_div(b) {
                Some(v) => Ok(v),
                None => Err(RunError::NumberOverflow),
            }
        },
        MathOp::Exp => if b < 0 {
            Err(RunError::NegativeExponent)
        } else {
            pow_i32(a, b as u32)
        },
    }
}

/// One comparison operator applied to two values.
fn eval_cmp(op: CmpOp, x: &Value, y: &Value) -> (r: Result<bool, RunError>)
    ensures
        r == spec_cmp(op, x.model(), y.model()),
{
    match op {
        CmpOp::Gte => match (x, y) {
            (Value::Number(a), Value::Number(b)) => Ok(*a >= *b),
            _ => Err(RunError::TypeMismatch),
        },
        CmpOp::Lte => match (x, y) {
            (Value::Number(a), Value::Number(b)) => Ok(*a <= *b),
            _ => Err(RunError::TypeMismatch),
        },
        CmpOp::Lt => match (x, y) {
            (Value::Number(a), Value::Number(b)) => Ok(*a < *b),
            _ => Err(RunError::TypeMismatch),
        },
        CmpOp::Gt => match (x, y) {
            (Value::Number(a), Value::Number(b)) => Ok(*a > *b),
            _ => Err(RunError::TypeMismatch),
        },
        CmpOp::Eq => value_eq(x, y),
        CmpOp::Neq => match value_eq(x, y) {
            Ok(b) => Ok(!b),
            Err(e) => Err(e),
        },
    }
}

/// Equality of two values of the same variant.
fn value_eq(x: &Value, y: &Value) -> (r: Result<bool, RunError>)
    ensures
        r == spec_value_eq(x.model(), y.model()),
{
    match (x, y) {
        (Value::Number(a), Value::Number(b)) => Ok(*a == *b),
        (Value::Bool(a), Value::Bool(b)) => Ok(*a == *b),
        (Value::Str(a), Value::Str(b)) => Ok(bytes_eq(a, b)),
        _ => Err(RunError::TypeMismatch),
    }
}

// ===================== Executable evaluation =====================

/// How one expression or statement came out: a proper value, or an early
/// return on its way to the enclosing call boundary.
enum Flow {
    Val(Value),
    Ret(Value),
}

/// How an argument list came out: all values collected, or an early return.
enum ArgStep {
    Done,
    Ret(Value),
}

/// How one conditional arm came out: taken (with its block's outcome), or
/// skipped because its condition was false.
enum ArmOut {
    Taken(Result<Flow, RunError>),
    Skip,
}

/// The models of a sequence of values, in order.
spec fn vals_model(vs: Seq<Value>) -> Seq<SpecValue>
    decreases vs.len(),
{
    if vs.len() == 0 {
        Seq::empty()
    } else {
        vals_model(vs.drop_last()).push(vs.last().model())
    }
}

/// The executable outcome `r`, with `env_after` the model of the frame it
/// left behind, agrees with the semantic outcome `sr`.
spec fn flow_matches(
    r: Result<Flow, RunError>,
    env_after: Map<Seq<u8>, SpecValue>,
    sr: StepRes,
) -> bool {
    match sr {
        StepRes::Val { env, v } => r matches Ok(Flow::Val(x)) && x.model() == v && env_after
            == env,
        StepRes::Ret { v } => r matches Ok(Flow::Ret(x)) && x.model() == v,
        StepRes::Fail { e } => r == Err::<Flow, RunError>(e),
    }
}

/// The current (top) frame of the stack, as a map.
spec fn top_model(stack: Seq<Vec<(Vec<u8>, Value)>>) -> Map<Seq<u8>, SpecValue> {
    frame_model(stack.last()@)
}

/// All frames but the top one are exactly as they were.
spec fn lower_frames_kept(
    stack: Seq<Vec<(Vec<u8>, Value)>>,
    old_stack: Seq<Vec<(Vec<u8>, Value)>>,
) -> bool {
    &&& stack.len() == old_stack.len()
    &&& forall|i: int| 0 <= i < stack.len() - 1 ==> stack[i] == old_stack[i]
}

/// Binding of a new name in the top frame.
fn top_insert(stack: &mut Vec<Vec<(Vec<u8>, Value)>>, name: Vec<u8>, v: Value)
    requires
        old(stack)@.len() >= 1,
    ensures
        lower_frames_kept(final(stack)@, old(stack)@),
        top_model(final(stack)@) == top_model(old(stack)@).insert(name@, v.model()),
{
    let ghost old_stack = stack@;
    let mut f = stack.pop().unwrap();
    f.push((name, v));
    proof {
        assert(f@.drop_last() =~= old_stack.last()@);
    }
    stack.push(f);
}

/// Lookup of a name in the top frame.
fn top_get(stack: &Vec<Vec<(Vec<u8>, Value)>>, name: &Vec<u8>) -> (r: Option<Value>)
    requires
        stack@.len() >= 1,
    ensures
        match r {
            Some(v) => top_model(stack@).contains_key(name@) && v.model() == top_model(
                stack@,
            )[name@],
            None => !top_model(stack@).contains_key(name@),
        },
{
    frame_get(&stack[stack.len() - 1], name)
}

/// Whether the declared parameter list has exactly `n` names.
fn params_count_is(params: &ParamList, n: usize) -> (r: bool)
    ensures
        r == (params.model().len() == n),
    decreases params,
{
    match params {
        ParamList::Nil => n == 0,
        ParamList::Cons(_, rest) => if n == 0 {
            false
        } else {
            params_count_is(rest, n - 1)
        },
    }
}

/// The fresh frame of a call: parameters bound positionally to the argument
/// values, in order.
fn bind_args(
    params: &ParamList,
    vals: &Vec<Value>,
    idx: usize,
    frame: &mut Vec<(Vec<u8>, Value)>,
)
    requires
        idx <= vals@.len(),
        params.model().len() == vals@.len() - idx,
    ensures
        frame_model(final(frame)@) == spec_bind_from(
            frame_model(old(frame)@),
            params.model(),
            vals_model(vals@).subrange(idx as int, vals@.len() as int),
        ),
    decreases params,
{
    proof {
        lemma_vals_model_len(vals@);
    }
    match params {
        ParamList::Nil => {
            proof {
                assert(vals_model(vals@).subrange(idx as int, vals@.len() as int) =~= Seq::empty());
            }
        },
        ParamList::Cons(name, rest) => {
            let ghost frame0 = frame@;
            let n = vals.len();
            proof {
                assert(params.model().len() >= 1);
                assert(idx < n);
                lemma_vals_model_index(vals@, idx as int);
            }
            frame.push((copy_bytes(name), vals[idx].duplicate()));
            proof {
                assert(frame@.drop_last() =~= frame0);
            }
            bind_args(rest, vals, idx + 1, frame);
            proof {
                let pm = params.model();
                let tail = vals_model(vals@).subrange(idx as int, vals@.len() as int);
                assert(pm[0] == name@);
                assert(pm.subrange(1, pm.len() as int) =~= rest.model());
                assert(tail[0] == vals_model(vals@)[idx as int]);
                assert(tail.subrange(1, tail.len() as int) =~= vals_model(vals@).subrange(
                    idx + 1,
                    vals@.len() as int,
                ));
            }
        },
    }
}

/// The executable outcome of an argument list agrees with the semantic one:
/// on success the collected values extend what was already collected.
spec fn args_match(
    r: Result<ArgStep, RunError>,
    env_after: Map<Seq<u8>, SpecValue>,
    out_after: Seq<Value>,
    out_before: Seq<Value>,
    ar: ArgsRes,
) -> bool {
    match ar {
        ArgsRes::Val { env, vals } => r matches Ok(ArgStep::Done) && env_after == env
            && vals_model(out_after) == vals_model(out_before) + vals,
        ArgsRes::Ret { v } => r matches Ok(ArgStep::Ret(x)) && x.model() == v,
        ArgsRes::Fail { e } => r == Err::<ArgStep, RunError>(e),
    }
}

/// The executable outcome of one conditional arm agrees with the semantic
/// one.
spec fn arm_match(r: ArmOut, env_after: Map<Seq<u8>, SpecValue>, ar: ArmRes) -> bool {
    match ar {
        ArmRes::Taken { r: sr } => r matches ArmOut::Taken(rr) && flow_matches(rr, env_after, sr),
        ArmRes::Skip { env } => r matches ArmOut::Skip && env_after == env,
    }
}

/// Evaluation of one expression against the top frame of the stack. Frames
/// below the top are left untouched; the returned flow and the top frame
/// afterwards are exactly what the semantics prescribes.
fn eval_expr(
    t: &Vec<(Vec<u8>, FunctionDef)>,
    stack: &mut Vec<Vec<(Vec<u8>, Value)>>,
    e: &Expr,
    fuel: u64,
) -> (r: Result<Flow, RunError>)
    requires
        old(stack)@.len() >= 1,
    ensures
        lower_frames_kept(final(stack)@, old(stack)@),
        flow_matches(
            r,
            top_model(final(stack)@),
            spec_eval_expr(table_model(t@), top_model(old(stack)@), e.model(), fuel as nat),
        ),
    decreases fuel, e,
{
    match e {
        Expr::Number { value } => Ok(Flow::Val(Value::Number(*value))),
        Expr::Boolean { value } => Ok(Flow::Val(Value::Bool(*value))),
        Expr::StringLiteral { value } => Ok(Flow::Val(Value::Str(copy_bytes(value)))),
        Expr::Identifier { name } => match top_get(stack, name) {
            Some(v) => Ok(Flow::Val(v)),
            None => Err(RunError::UndefinedVariable),
        },
        Expr::Math { op, lhs, rhs } => match eval_expr(t, stack, lhs, fuel) {
            Ok(Flow::Val(v1)) => match eval_expr(t, stack, rhs, fuel) {
                Ok(Flow::Val(v2)) => match (&v1, &v2) {
                    (Value::Number(a), Value::Number(b)) => match eval_math(*op, *a, *b) {
                        Ok(nv) => Ok(Flow::Val(Value::Number(nv))),
                        Err(er) => Err(er),
                    },
                    _ => Err(RunError::TypeMismatch),
                },
                other => other,
            },
            other => other,
        },
        Expr::Comparison { op, lhs, rhs } => match eval_expr(t, stack, lhs, fuel) {
            Ok(Flow::Val(v1)) => match eval_expr(t, stack, rhs, fuel) {
                Ok(Flow::Val(v2)) => match eval_cmp(*op, &v1, &v2) {
                    Ok(b) => Ok(Flow::Val(Value::Bool(b))),
                    Err(er) => Err(er),
                },
                other => other,
            },
            other => other,
        },
        Expr::FunctionCall { name, args } => match table_get(t, name) {
            None => Err(RunError::UndefinedFunction),
            Some(f) => {
                let mut vals: Vec<Value> = Vec::new();
                match eval_args(t, stack, args, fuel, &mut vals) {
                    Ok(ArgStep::Done) => {
                        proof {
                            lemma_vals_model_len(vals@);
                        }
                        if !params_count_is(&f.params, vals.len()) {
                            Err(RunError::ArityMismatch)
                        } else if fuel == 0 {
                            Err(RunError::RecursionLimit)
                        } else {
                            let ghost callers = stack@;
                            let mut frame: Vec<(Vec<u8>, Value)> = Vec::new();
                            proof {
                                assert(vals_model(vals@).subrange(0, vals@.len() as int)
                                    =~= vals_model(vals@));
                                assert(Seq::empty() + vals_model(vals@) =~= vals_model(vals@));
                            }
                            bind_args(&f.params, &vals, 0, &mut frame);
                            stack.push(frame);
                            let rr = eval_stmts(t, stack, &f.body, fuel - 1);
                            let _ = stack.pop();
                            proof {
                                assert(stack@ =~= callers);
                            }
                            match rr {
                                Ok(Flow::Val(_)) => Ok(Flow::Val(Value::Bool(false))),
                                Ok(Flow::Ret(v)) => Ok(Flow::Val(v)),
                                Err(er) => Err(er),
                            }
                        }
                    },
                    Ok(ArgStep::Ret(v)) => Ok(Flow::Ret(v)),
                    Err(er) => Err(er),
                }
            },
        },
        Expr::IfExpression { then_arm, elif_arms, else_block } => match eval_arm(
            t,
            stack,
            then_arm,
            fuel,
        ) {
            ArmOut::Taken(r) => r,
            ArmOut::Skip => match eval_arms(t, stack, elif_arms, fuel) {
                ArmOut::Taken(r) => r,
                ArmOut::Skip => eval_stmts(t, stack, else_block, fuel),
            },
        },
    }
}

/// Evaluation of actual arguments left to right, collecting their values
/// into `out`.
fn eval_args(
    t: &Vec<(Vec<u8>, FunctionDef)>,
    stack: &mut Vec<Vec<(Vec<u8>, Value)>>,
    args: &ExprList,
    fuel: u64,
    out: &mut Vec<Value>,
) -> (r: Result<ArgStep, RunError>)
    requires
        old(stack)@.len() >= 1,
    ensures
        lower_frames_kept(final(stack)@, old(stack)@),
        args_match(
            r,
            top_model(final(stack)@),
            final(out)@,
            old(out)@,
            spec_eval_args(table_model(t@), top_model(old(stack)@), args.model(), fuel as nat),
        ),
    decreases fuel, args,
{
    match args {
        ExprList::Nil => {
            proof {
                assert(vals_model(out@) + Seq::<SpecValue>::empty() =~= vals_model(out@));
            }
            Ok(ArgStep::Done)
        },
        ExprList::Cons(e, rest) => match eval_expr(t, stack, e, fuel) {
            Ok(Flow::Val(v)) => {
                let ghost out0 = out@;
                let ghost vm = v.model();
                out.push(v);
                proof {
                    assert(out@.drop_last() =~= out0);
                }
                let ghost env1 = top_model(stack@);
                let r2 = eval_args(t, stack, rest, fuel, out);
                proof {
                    let ar = spec_eval_args(table_model(t@), env1, rest.model(), fuel as nat);
                    if let ArgsRes::Val { env, vals } = ar {
                        assert(vals_model(out0).push(vm) =~= vals_model(out0) + seq![vm]);
                        assert((vals_model(out0) + seq![vm]) + vals =~= vals_model(out0) + (
                        seq![vm] + vals));
                    }
                }
                r2
            },
            Ok(Flow::Ret(v)) => Ok(ArgStep::Ret(v)),
            Err(er) => Err(er),
        },
    }
}

/// One conditional arm: its condition, then its block when the condition
/// held.
fn eval_arm(
    t: &Vec<(Vec<u8>, FunctionDef)>,
    stack: &mut Vec<Vec<(Vec<u8>, Value)>>,
    a: &Arm,
    fuel: u64,
) -> (r: ArmOut)
    requires
        old(stack)@.len() >= 1,
    ensures
        lower_frames_kept(final(stack)@, old(stack)@),
        arm_match(
            r,
            top_model(final(stack)@),
            spec_eval_arm(table_model(t@), top_model(old(stack)@), a.model(), fuel as nat),
        ),
    decreases fuel, a,
{
    match eval_expr(t, stack, &a.cond, fuel) {
        Ok(Flow::Val(v)) => match &v {
            Value::Bool(bv) => if *bv {
                ArmOut::Taken(eval_stmts(t, stack, &a.block, fuel))
            } else {
                ArmOut::Skip
            },
            _ => ArmOut::Taken(Err(RunError::TypeMismatch)),
        },
        Ok(Flow::Ret(v)) => ArmOut::Taken(Ok(Flow::Ret(v))),
        Err(er) => ArmOut::Taken(Err(er)),
    }
}

/// The `else if` arms in source order.
fn eval_arms(
    t: &Vec<(Vec<u8>, FunctionDef)>,
    stack: &mut Vec<Vec<(Vec<u8>, Value)>>,
    arms: &ArmList,
    fuel: u64,
) -> (r: ArmOut)
    requires
        old(stack)@.len() >= 1,
    ensures
        lower_frames_kept(final(stack)@, old(stack)@),
        arm_match(
            r,
            top_model(final(stack)@),
            spec_eval_arms(table_model(t@), top_model(old(stack)@), arms.model(), fuel as nat),
        ),
    decreases fuel, arms,
{
    match arms {
        ArmList::Nil => ArmOut::Skip,
        ArmList::Cons(a, rest) => match eval_arm(t, stack, a, fuel) {
            ArmOut::Taken(r) => ArmOut::Taken(r),
            ArmOut::Skip => eval_arms(t, stack, rest, fuel),
        },
    }
}

/// One statement: a variable definition binds in the top frame and yields
/// the bound value; a return statement turns its value into an early return.
fn eval_stmt(
    t: &Vec<(Vec<u8>, FunctionDef)>,
    stack: &mut Vec<Vec<(Vec<u8>, Value)>>,
    s: &Stmt,
    fuel: u64,
) -> (r: Result<Flow, RunError>)
    requires
        old(stack)@.len() >= 1,
    ensures
        lower_frames_kept(final(stack)@, old(stack)@),
        flow_matches(
            r,
            top_model(final(stack)@),
            spec_eval_stmt(table_model(t@), top_model(old(stack)@), s.model(), fuel as nat),
        ),
    decreases fuel, s,
{
    match s {
        Stmt::VariableDefine { name, value } => match eval_expr(t, stack, value, fuel) {
            Ok(Flow::Val(v)) => {
                let v2 = v.duplicate();
                top_insert(stack, copy_bytes(name), v);
                Ok(Flow::Val(v2))
            },
            other => other,
        },
        Stmt::FunctionReturn { value } => match eval_expr(t, stack, value, fuel) {
            Ok(Flow::Val(v)) => Ok(Flow::Ret(v)),
            other => other,
        },
    }
}

/// A statement block, in order; its value is the last statement's value, and
/// an empty block is `Bool(false)`.
fn eval_stmts(
    t: &Vec<(Vec<u8>, FunctionDef)>,
    stack: &mut Vec<Vec<(Vec<u8>, Value)>>,
    ss: &StmtList,
    fuel: u64,
) -> (r: Result<Flow, RunError>)
    requires
        old(stack)@.len() >= 1,
    ensures
        lower_frames_kept(final(stack)@, old(stack)@),
        flow_matches(
            r,
            top_model(final(stack)@),
            spec_eval_stmts(table_model(t@), top_model(old(stack)@), ss.model(), fuel as nat),
        ),
    decreases fuel, ss,
{
    let ghost sr = spec_eval_stmts(table_model(t@), top_model(stack@), ss.model(), fuel as nat);
    match ss {
        StmtList::Nil => {
            proof {
                assert(sr == (StepRes::Val { env: top_model(stack@), v: SpecValue::Bool(false) }));
            }
            Ok(Flow::Val(Value::Bool(false)))
        },
        StmtList::Cons(s, rest) => {
            let ghost s0 = spec_eval_stmt(table_model(t@), top_model(stack@), s.model(), fuel as nat);
            let r1 = eval_stmt(t, stack, s, fuel);
            match r1 {
                Ok(Flow::Val(v)) => {
                    proof {
                        assert(s0 matches StepRes::Val { env, v: vv } && env == top_model(stack@) && vv == v.model());
                    }
                    match &**rest {
                        StmtList::Nil => {
                            proof {
                                assert(rest.model() is Nil);
                                assert(sr matches StepRes::Val { env, v: vv } && env == top_model(stack@) && vv == v.model());
                            }
                            Ok(Flow::Val(v))
                        },
                        StmtList::Cons(..) => eval_stmts(t, stack, rest, fuel),
                    }
                },
                other => other,
            }
        },
    }
}

// ===================== The runtime =====================

/// The name `main` as a byte vector.
fn main_name_vec() -> (r: Vec<u8>)
    ensures
        r@ == main_name(),
{
    let mut v: Vec<u8> = Vec::new();
    v.push(109);
    v.push(97);
    v.push(105);
    v.push(110);
    proof {
        assert(v@ =~= main_name());
    }
    v
}

/// Registration of one top-level item.
fn load_item(t: &mut Vec<(Vec<u8>, FunctionDef)>, i: &Item)
    ensures
        table_model(final(t)@) == spec_load_item(table_model(old(t)@), i.model()),
{
    let ghost t0 = t@;
    match i {
        Item::Function(f) => {
            t.push((copy_bytes(&f.name), f.duplicate()));
            proof {
                assert(t@.drop_last() =~= t0);
                assert(table_model(t@) == table_model(t0).insert(f.name@, f.model()));
            }
        },
        Item::Statement(s) => {
            let body = StmtList::Cons(Box::new(s.duplicate()), Box::new(StmtList::Nil));
            let fd = FunctionDef { name: main_name_vec(), params: ParamList::Nil, body };
            let ghost fdm = fd.model();
            proof {
                assert(fdm.params =~= Seq::<Seq<u8>>::empty());
                assert(fdm.body == SpecStmtList::Cons(
                    Box::new(s.model()),
                    Box::new(SpecStmtList::Nil),
                ));
            }
            t.push((main_name_vec(), fd));
            proof {
                assert(t@.drop_last() =~= t0);
                assert(table_model(t@) == table_model(t0).insert(main_name(), fdm));
            }
        },
        Item::Expression(e) => {
            let dup = e.duplicate();
            let st = Stmt::FunctionReturn { value: dup };
            proof {
                assert(st.model() == (SpecStmt::FunctionReturn { value: e.model() }));
            }
            let body = StmtList::Cons(Box::new(st), Box::new(StmtList::Nil));
            let fd = FunctionDef { name: main_name_vec(), params: ParamList::Nil, body };
            let ghost fdm = fd.model();
            proof {
                assert(fdm.params =~= Seq::<Seq<u8>>::empty());
                assert(fdm.body == SpecStmtList::Cons(
                    Box::new(SpecStmt::FunctionReturn { value: e.model() }),
                    Box::new(SpecStmtList::Nil),
                ));
            }
            t.push((main_name_vec(), fd));
            proof {
                assert(t@.drop_last() =~= t0);
                assert(table_model(t@) == table_model(t0).insert(main_name(), fdm));
            }
        },
    }
}

/// Registration of every top-level item, in order.
fn load_items(t: &mut Vec<(Vec<u8>, FunctionDef)>, items: &ItemList)
    ensures
        table_model(final(t)@) == spec_load_from(table_model(old(t)@), items.model()),
    decreases items,
{
    match items {
        ItemList::Nil => {},
        ItemList::Cons(i, rest) => {
            load_item(t, i);
            load_items(t, rest);
        },
    }
}

/// The executable result agrees with the semantic one.
pub open spec fn result_matches(r: Result<Value, RunError>, sr: Result<SpecValue, RunError>) -> bool {
    match sr {
        Ok(v) => r matches Ok(x) && x.model() == v,
        Err(e) => r == Err::<Value, RunError>(e),
    }
}

/// The interpreter state: a table of user-defined functions, filled once by
/// the discovery pass, and the call stack of variable frames. Each call's
/// frame is pushed when the call starts evaluating its body and popped when
/// the call completes, so outside of `run` the stack is empty.
pub struct Runtime {
    functions: Vec<(Vec<u8>, FunctionDef)>,
    stack: Vec<Vec<(Vec<u8>, Value)>>,
}

impl Runtime {
    /// The function table, as a map from function name to what was registered
    /// under that name.
    pub closed spec fn table(&self) -> Map<Seq<u8>, SpecFunc> {
        table_model(self.functions@)
    }

    /// A runtime with an empty function table and no live frames.
    pub fn new() -> (r: Runtime)
        ensures
            r.table() == Map::<Seq<u8>, SpecFunc>::empty(),
    {
        Runtime { functions: Vec::new(), stack: Vec::new() }
    }

    /// The discovery pass: registers every top-level item of the program
    /// into the function table, in order.
    pub fn load(&mut self, node: &Node)
        ensures
            final(self).table() == spec_load_from(old(self).table(), node.model()),
    {
        match node {
            Node::Program { items } => load_items(&mut self.functions, items),
        }
    }

    /// Invokes `main` with no arguments, spending at most `fuel` nested
    /// calls.
    pub fn run_with_fuel(&mut self, fuel: u64) -> (r: Result<Value, RunError>)
        ensures
            final(self).table() == old(self).table(),
            result_matches(r, spec_run(old(self).table(), fuel as nat)),
    {
        let mn = main_name_vec();
        match table_get(&self.functions, &mn) {
            None => Err(RunError::UndefinedFunction),
            Some(f) => {
                if !params_count_is(&f.params, 0) {
                    Err(RunError::ArityMismatch)
                } else if fuel == 0 {
                    Err(RunError::RecursionLimit)
                } else {
                    self.stack.push(Vec::new());
                    proof {
                        assert(top_model(self.stack@) =~= Map::<Seq<u8>, SpecValue>::empty());
                    }
                    let rr = eval_stmts(&self.functions, &mut self.stack, &f.body, fuel - 1);
                    let _ = self.stack.pop();
                    match rr {
                        Ok(Flow::Val(_)) => Ok(Value::Bool(false)),
                        Ok(Flow::Ret(v)) => Ok(v),
                        Err(er) => Err(er),
                    }
                }
            },
        }
    }

    /// Invokes the function named `main` with no arguments and yields its
    /// value: `Err(UndefinedFunction)` exactly when no `main` was loaded.
    pub fn run(&mut self) -> (r: Result<Value, RunError>)
        ensures
            final(self).table() == old(self).table(),
            result_matches(r, spec_run(old(self).table(), u64::MAX as nat)),
    {
        self.run_with_fuel(u64::MAX)
    }
}

/// Loads the program into a fresh runtime, then runs its `main`.
pub fn start_interpreter(node: &Node) -> (r: Result<Value, RunError>)
    ensures
        result_matches(
            r,
            spec_run(
                spec_load_from(Map::empty(), node.model()),
                u64::MAX as nat,
            ),
        ),
{
    let mut runtime = Runtime::new();
    runtime.load(node);
    runtime.run()
}

// ===================== Laws =====================

/// Law (early return): once a statement evaluates to an early return, the
/// statements after it in the same block are dead — the block's outcome is
/// that return, whatever follows it.
pub proof fn lemma_early_return(
    t: Map<Seq<u8>, SpecFunc>,
    env: Map<Seq<u8>, SpecValue>,
    s: SpecStmt,
    rest1: SpecStmtList,
    rest2: SpecStmtList,
    fuel: nat,
)
    requires
        spec_eval_stmt(t, env, s, fuel) is Ret,
    ensures
        spec_eval_stmts(t, env, SpecStmtList::Cons(Box::new(s), Box::new(rest1)), fuel)
            == spec_eval_stmt(t, env, s, fuel),
        spec_eval_stmts(t, env, SpecStmtList::Cons(Box::new(s), Box::new(rest1)), fuel)
            == spec_eval_stmts(t, env, SpecStmtList::Cons(Box::new(s), Box::new(rest2)), fuel),
{
}

/// The domain of a frame built by binding: exactly the names already bound
/// plus the parameter names.
proof fn lemma_bind_from_dom(
    env: Map<Seq<u8>, SpecValue>,
    params: Seq<Seq<u8>>,
    vals: Seq<SpecValue>,
    x: Seq<u8>,
)
    requires
        params.len() <= vals.len(),
    ensures
        spec_bind_from(env, params, vals).contains_key(x) <==> (env.contains_key(x)
            || params.contains(x)),
    decreases params.len(),
{
    if params.len() == 0 {
        if params.contains(x) {
            let i = choose|i: int| 0 <= i < params.len() && params[i] == x;
            assert(false);
        }
    } else {
        let params1 = params.subrange(1, params.len() as int);
        let vals1 = vals.subrange(1, vals.len() as int);
        lemma_bind_from_dom(env.insert(params[0], vals[0]), params1, vals1, x);
        if params.contains(x) {
            let i = choose|i: int| 0 <= i < params.len() && params[i] == x;
            if i > 0 {
                assert(params1[i - 1] == x);
                assert(params1.contains(x));
            }
        }
        if params1.contains(x) {
            let i = choose|i: int| 0 <= i < params1.len() && params1[i] == x;
            assert(params[i + 1] == x);
            assert(params.contains(x));
        }
    }
}

/// Law (frame isolation, callee side): the frame a call's body starts from
/// holds exactly the declared parameters — a name that is not a parameter is
/// unbound in it, whatever the caller's frame holds.
pub proof fn lemma_callee_frame_only_params(
    params: Seq<Seq<u8>>,
    vals: Seq<SpecValue>,
    x: Seq<u8>,
)
    requires
        params.len() <= vals.len(),
        !params.contains(x),
    ensures
        !spec_bind_from(Map::empty(), params, vals).contains_key(x),
{
    lemma_bind_from_dom(Map::empty(), params, vals, x);
}

/// Law (frame isolation): a function call evaluates its body in a fresh
/// frame built from its declared parameters and the argument values alone —
/// never in the caller's frame — and when the call yields a value, the
/// caller's frame afterwards is exactly what argument evaluation left:
/// every binding made inside the callee is gone.
pub proof fn lemma_frame_isolation(
    t: Map<Seq<u8>, SpecFunc>,
    env: Map<Seq<u8>, SpecValue>,
    name: Seq<u8>,
    args: SpecExprList,
    fuel: nat,
)
    requires
        t.contains_key(name),
        fuel > 0,
        spec_eval_args(t, env, args, fuel) is Val,
        t[name].params.len() == spec_eval_args(t, env, args, fuel)->Val_vals.len(),
    ensures
        spec_eval_expr(t, env, SpecExpr::FunctionCall { name, args }, fuel) == ({
            let env1 = spec_eval_args(t, env, args, fuel)->Val_env;
            let vals = spec_eval_args(t, env, args, fuel)->Val_vals;
            let callee_env = spec_bind_from(Map::empty(), t[name].params, vals);
            match spec_eval_stmts(t, callee_env, t[name].body, (fuel - 1) as nat) {
                StepRes::Val { .. } => StepRes::Val { env: env1, v: SpecValue::Bool(false) },
                StepRes::Ret { v } => StepRes::Val { env: env1, v },
                err => err,
            }
        }),
{
}

/// `vals_model` keeps length.
proof fn lemma_vals_model_len(vs: Seq<Value>)
    ensures
        vals_model(vs).len() == vs.len(),
    decreases vs.len(),
{
    if vs.len() > 0 {
        lemma_vals_model_len(vs.drop_last());
    }
}

/// `vals_model` is pointwise `model`.
proof fn lemma_vals_model_index(vs: Seq<Value>, i: int)
    requires
        0 <= i < vs.len(),
    ensures
        vals_model(vs).len() == vs.len(),
        vals_model(vs)[i] == vs[i].model(),
    decreases vs.len(),
{
    lemma_vals_model_len(vs);
    if i < vs.len() - 1 {
        assert(vs.drop_last()[i] == vs[i]);
        lemma_vals_model_index(vs.drop_last(), i);
    }
}

} // verus!
