//! Tree-walking evaluation: executes a parsed program.
//!
//! The evaluator keeps one function table — names mapped to the `print`
//! builtin or to user definitions, unique keys, the last definition for a
//! name winning — and, per active call, one frame of variable bindings.
//! Execution begins at the function named `main`, called with no arguments;
//! `print` appends its one argument's text to the run's output.
//!
//! The whole execution is specified by the `spec_eval_…` functions, a
//! big-step semantics over the AST images. They are total, so the machine's
//! finiteness is made explicit: every run carries a step budget, spent one
//! unit per loop iteration, and a call-depth budget, spent one unit per
//! function call. Exhausting either is the fatal resource error
//! [`RuntimeError::StackOverflow`], the explicit form of a host stack or
//! time limit; the budgets are large enough that ordinary programs never
//! meet them. Arithmetic on the language's integers wraps in 64-bit two's
//! complement, except that division and remainder by zero are the fatal
//! error [`RuntimeError::DivisionByZero`].

use vstd::prelude::*;

use crate::ast::{BinOp, Expr, FuncDef, Program, SpecExpr, SpecFuncDef, SpecStmt, Stmt};
use crate::ast::{expr_view, exprs_view, funcdef_view, program_view, stmt_view, stmts_view};
use crate::scanner::str_eq_str;

verus! {

broadcast use vstd::seq_lib::group_seq_properties;

/// A value of the language: an integer, a string, a boolean, or the unit
/// value an expressionless function call yields.
#[derive(Debug, PartialEq, Eq)]
pub enum Value {
    Int(i64),
    Str(std::string::String),
    Bool(bool),
    Unit,
}

/// The mathematical image of a [`Value`].
pub enum SpecValue {
    Int(i64),
    Str(Seq<char>),
    Bool(bool),
    Unit,
}

/// The image of a value.
pub open spec fn value_view(v: Value) -> SpecValue {
    match v {
        Value::Int(x) => SpecValue::Int(x),
        Value::Str(s) => SpecValue::Str(s@),
        Value::Bool(b) => SpecValue::Bool(b),
        Value::Unit => SpecValue::Unit,
    }
}

/// One entry of the function table: the native `print`, or a user
/// definition.
#[derive(Debug)]
pub enum FuncEntry {
    Print,
    User(FuncDef),
}

/// The mathematical image of a [`FuncEntry`].
pub enum SpecFuncEntry {
    Print,
    User(SpecFuncDef),
}

/// The image of a function-table entry.
pub open spec fn fentry_view(e: FuncEntry) -> SpecFuncEntry {
    match e {
        FuncEntry::Print => SpecFuncEntry::Print,
        FuncEntry::User(f) => SpecFuncEntry::User(funcdef_view(f)),
    }
}

/// How a statement sequence ended: fell through, left a loop, or left the
/// function with a result.
#[derive(Debug)]
pub enum Flow {
    Normal,
    Broke,
    Returned(Value),
}

/// The mathematical image of a [`Flow`].
pub enum SpecFlow {
    Normal,
    Broke,
    Returned(SpecValue),
}

/// The image of a flow.
pub open spec fn flow_view(f: Flow) -> SpecFlow {
    match f {
        Flow::Normal => SpecFlow::Normal,
        Flow::Broke => SpecFlow::Broke,
        Flow::Returned(v) => SpecFlow::Returned(value_view(v)),
    }
}

/// The fatal errors of evaluation. Every one aborts the whole run; there is
/// no recovery.
#[derive(Clone, Copy, Debug, PartialEq, Eq, Structural)]
pub enum RuntimeError {
    /// An identifier is not bound in the current frame.
    UndefinedVariable,
    /// A call names no registered function.
    UndefinedFunction,
    /// A call's argument count differs from the parameter count.
    ArityMismatch,
    /// An operator met operands of incompatible kinds.
    TypeMismatch,
    /// `/` or `%` with a zero right operand.
    DivisionByZero,
    /// `break` with no enclosing loop.
    LoopControlError,
    /// No function named `main` is defined.
    EntryPointMissing,
    /// The call-depth or step budget ran out: the explicit form of
    /// exhausting the host's capacity.
    StackOverflow,
}

/// The image of a variable frame: names paired with values, in binding
/// order.
pub type SpecFrame = Seq<(Seq<char>, SpecValue)>;

/// The image of the function table.
pub type SpecTable = Seq<(Seq<char>, SpecFuncEntry)>;

/// The image of the run's output: one entry per `print` call.
pub type SpecOut = Seq<Seq<char>>;

/// The first binding of a key in an association sequence.
pub open spec fn spec_lookup<V>(es: Seq<(Seq<char>, V)>, k: Seq<char>) -> Option<V>
    decreases es.len(),
{
    if es.len() == 0 {
        None
    } else if es[0].0 == k {
        Some(es[0].1)
    } else {
        spec_lookup(es.drop_first(), k)
    }
}

/// Binding a key in an association sequence: the first binding of the key
/// is replaced, or, absent one, the pair is appended. Keys stay unique.
pub open spec fn spec_set<V>(es: Seq<(Seq<char>, V)>, k: Seq<char>, v: V) -> Seq<(Seq<char>, V)>
    decreases es.len(),
{
    if es.len() == 0 {
        seq![(k, v)]
    } else if es[0].0 == k {
        seq![(k, v)] + es.drop_first()
    } else {
        seq![es[0]] + spec_set(es.drop_first(), k, v)
    }
}

/// The image of an executable frame.
pub open spec fn frame_view(fr: Seq<(std::string::String, Value)>) -> SpecFrame {
    fr.map_values(|p: (std::string::String, Value)| (p.0@, value_view(p.1)))
}

/// The image of the executable function table.
pub open spec fn table_view(ft: Seq<(std::string::String, FuncEntry)>) -> SpecTable {
    ft.map_values(|p: (std::string::String, FuncEntry)| (p.0@, fentry_view(p.1)))
}

/// The image of the executable output.
pub open spec fn out_view(out: Seq<std::string::String>) -> SpecOut {
    out.map_values(|s: std::string::String| s@)
}

/// The smaller of two step counts.
pub open spec fn cap_steps(a: nat, b: nat) -> nat {
    if a <= b {
        a
    } else {
        b
    }
}

/// The character of one decimal digit.
pub open spec fn digit_char_of(d: nat) -> char {
    if d == 0 {
        '0'
    } else if d == 1 {
        '1'
    } else if d == 2 {
        '2'
    } else if d == 3 {
        '3'
    } else if d == 4 {
        '4'
    } else if d == 5 {
        '5'
    } else if d == 6 {
        '6'
    } else if d == 7 {
        '7'
    } else if d == 8 {
        '8'
    } else {
        '9'
    }
}

/// The decimal digits of a natural number, most significant first.
pub open spec fn spec_nat_text(n: nat) -> Seq<char>
    decreases n,
{
    if n < 10 {
        seq![digit_char_of(n)]
    } else {
        spec_nat_text(n / 10).push(digit_char_of(n % 10))
    }
}

/// The decimal text of a 64-bit integer, with a leading minus sign when
/// negative.
pub open spec fn spec_i64_text(v: i64) -> Seq<char> {
    if v >= 0 {
        spec_nat_text(v as nat)
    } else {
        seq!['-'] + spec_nat_text((-(v as int)) as nat)
    }
}

/// What `print` writes for a value: an integer's decimal text, a string's
/// content, `true` or `false`, or `()` for the unit value.
pub open spec fn spec_value_text(v: SpecValue) -> Seq<char> {
    match v {
        SpecValue::Int(x) => spec_i64_text(x),
        SpecValue::Str(s) => s,
        SpecValue::Bool(b) => if b {
            "true"@
        } else {
            "false"@
        },
        SpecValue::Unit => "()"@,
    }
}

/// What a binary operator yields on two values. Arithmetic asks for two
/// integers and wraps in two's complement; `/` and `%` with a zero right
/// operand fail with [`RuntimeError::DivisionByZero`]; equality compares
/// values of one kind structurally; ordering compares integers; everything
/// else is a [`RuntimeError::TypeMismatch`].
pub open spec fn spec_binop(op: BinOp, a: SpecValue, b: SpecValue) -> Result<
    SpecValue,
    RuntimeError,
> {
    match op {
        BinOp::Add => match (a, b) {
            (SpecValue::Int(x), SpecValue::Int(y)) => Ok(
                SpecValue::Int(vstd::wrapping::i64_specs::wrapping_add(x, y)),
            ),
            _ => Err(RuntimeError::TypeMismatch),
        },
        BinOp::Sub => match (a, b) {
            (SpecValue::Int(x), SpecValue::Int(y)) => Ok(
                SpecValue::Int(vstd::wrapping::i64_specs::wrapping_sub(x, y)),
            ),
            _ => Err(RuntimeError::TypeMismatch),
        },
        BinOp::Mul => match (a, b) {
            (SpecValue::Int(x), SpecValue::Int(y)) => Ok(
                SpecValue::Int(vstd::wrapping::i64_specs::wrapping_mul(x, y)),
            ),
            _ => Err(RuntimeError::TypeMismatch),
        },
        BinOp::Div => match (a, b) {
            (SpecValue::Int(x), SpecValue::Int(y)) => {
                if y == 0 {
                    Err(RuntimeError::DivisionByZero)
                } else {
                    match x.checked_div(y) {
                        Some(q) => Ok(SpecValue::Int(q)),
                        None => Ok(SpecValue::Int(i64::MIN)),
                    }
                }
            },
            _ => Err(RuntimeError::TypeMismatch),
        },
        BinOp::Mod => match (a, b) {
            (SpecValue::Int(x), SpecValue::Int(y)) => {
                if y == 0 {
                    Err(RuntimeError::DivisionByZero)
                } else {
                    match x.checked_rem(y) {
                        Some(q) => Ok(SpecValue::Int(q)),
                        None => Ok(SpecValue::Int(0)),
                    }
                }
            },
            _ => Err(RuntimeError::TypeMismatch),
        },
        BinOp::Eq => spec_equality(a, b, true),
        BinOp::Ne => spec_equality(a, b, false),
        BinOp::Lt => match (a, b) {
            (SpecValue::Int(x), SpecValue::Int(y)) => Ok(SpecValue::Bool(x < y)),
            _ => Err(RuntimeError::TypeMismatch),
        },
        BinOp::Le => match (a, b) {
            (SpecValue::Int(x), SpecValue::Int(y)) => Ok(SpecValue::Bool(x <= y)),
            _ => Err(RuntimeError::TypeMismatch),
        },
        BinOp::Gt => match (a, b) {
            (SpecValue::Int(x), SpecValue::Int(y)) => Ok(SpecValue::Bool(x > y)),
            _ => Err(RuntimeError::TypeMismatch),
        },
        BinOp::Ge => match (a, b) {
            (SpecValue::Int(x), SpecValue::Int(y)) => Ok(SpecValue::Bool(x >= y)),
            _ => Err(RuntimeError::TypeMismatch),
        },
    }
}

/// Structural equality of two values of one kind; values of different kinds
/// do not compare.
pub open spec fn spec_equality(a: SpecValue, b: SpecValue, want_eq: bool) -> Result<
    SpecValue,
    RuntimeError,
> {
    match (a, b) {
        (SpecValue::Int(x), SpecValue::Int(y)) => Ok(SpecValue::Bool((x == y) == want_eq)),
        (SpecValue::Str(x), SpecValue::Str(y)) => Ok(SpecValue::Bool((x == y) == want_eq)),
        (SpecValue::Bool(x), SpecValue::Bool(y)) => Ok(SpecValue::Bool((x == y) == want_eq)),
        (SpecValue::Unit, SpecValue::Unit) => Ok(SpecValue::Bool(want_eq)),
        _ => Err(RuntimeError::TypeMismatch),
    }
}

/// A positive structural size of an expression: the measure the evaluation
/// functions recurse on.
pub open spec fn expr_size(e: SpecExpr) -> nat
    decreases e,
{
    match e {
        SpecExpr::Int(_) => 1,
        SpecExpr::Str(_) => 1,
        SpecExpr::Bool(_) => 1,
        SpecExpr::Var(_) => 1,
        SpecExpr::Binary(_, l, r) => 1 + expr_size(*l) + expr_size(*r),
        SpecExpr::Call(_, args) => 1 + exprs_size(args),
    }
}

/// The joint size of a sequence of expressions.
pub open spec fn exprs_size(es: Seq<SpecExpr>) -> nat
    decreases es,
{
    if es.len() == 0 {
        1
    } else {
        1 + expr_size(es[0]) + exprs_size(es.drop_first())
    }
}

/// A positive structural size of a statement.
pub open spec fn stmt_size(s: SpecStmt) -> nat
    decreases s,
{
    match s {
        SpecStmt::Expr(e) => 1 + expr_size(e),
        SpecStmt::Assign(_, e) => 1 + expr_size(e),
        SpecStmt::If(c, t, els) => 1 + expr_size(c) + stmts_size(t) + stmts_size(els),
        SpecStmt::While(c, b) => 1 + expr_size(c) + stmts_size(b),
        SpecStmt::Break => 1,
        SpecStmt::Return(oe) => match oe {
            Some(e) => 1 + expr_size(e),
            None => 1,
        },
    }
}

/// The joint size of a sequence of statements.
pub open spec fn stmts_size(ss: Seq<SpecStmt>) -> nat
    decreases ss,
{
    if ss.len() == 0 {
        1
    } else {
        1 + stmt_size(ss[0]) + stmts_size(ss.drop_first())
    }
}

/// A positive structural size of a function-table entry.
pub open spec fn entry_size(e: SpecFuncEntry) -> nat {
    match e {
        SpecFuncEntry::Print => 1,
        SpecFuncEntry::User(fd) => 1 + stmts_size(fd.body),
    }
}

/// Evaluating one expression: the output it prints, the steps left, and its
/// value or the fatal error.
pub open spec fn spec_eval_expr(
    ft: SpecTable,
    fr: SpecFrame,
    e: SpecExpr,
    steps: nat,
    depth: nat,
) -> (SpecOut, nat, Result<SpecValue, RuntimeError>)
    decreases steps, depth, expr_size(e), 1int,
{
    match e {
        SpecExpr::Int(v) => (Seq::empty(), steps, Ok(SpecValue::Int(v))),
        SpecExpr::Str(s) => (Seq::empty(), steps, Ok(SpecValue::Str(s))),
        SpecExpr::Bool(b) => (Seq::empty(), steps, Ok(SpecValue::Bool(b))),
        SpecExpr::Var(x) => match spec_lookup(fr, x) {
            Some(v) => (Seq::empty(), steps, Ok(v)),
            None => (Seq::empty(), steps, Err(RuntimeError::UndefinedVariable)),
        },
        SpecExpr::Binary(op, l, r) => {
            let (o1, s1, r1) = spec_eval_expr(ft, fr, *l, steps, depth);
            match r1 {
                Err(er) => (o1, cap_steps(s1, steps), Err(er)),
                Ok(v1) => {
                    let (o2, s2, r2) = spec_eval_expr(ft, fr, *r, cap_steps(s1, steps), depth);
                    match r2 {
                        Err(er) => (o1 + o2, cap_steps(s2, steps), Err(er)),
                        Ok(v2) => (o1 + o2, cap_steps(s2, steps), spec_binop(op, v1, v2)),
                    }
                },
            }
        },
        SpecExpr::Call(f, args) => match spec_lookup(ft, f) {
            None => (Seq::empty(), steps, Err(RuntimeError::UndefinedFunction)),
            Some(entry) => {
                let (o1, s1, r1) = spec_eval_exprs(ft, fr, args, steps, depth);
                match r1 {
                    Err(er) => (o1, cap_steps(s1, steps), Err(er)),
                    Ok(vs) => {
                        if depth == 0 {
                            (o1, cap_steps(s1, steps), Err(RuntimeError::StackOverflow))
                        } else {
                            let (o2, s2, r2) = spec_call(
                                ft,
                                entry,
                                vs,
                                cap_steps(s1, steps),
                                (depth - 1) as nat,
                            );
                            (o1 + o2, cap_steps(s2, steps), r2)
                        }
                    },
                }
            },
        },
    }
}

/// Evaluating an argument list left to right.
pub open spec fn spec_eval_exprs(
    ft: SpecTable,
    fr: SpecFrame,
    es: Seq<SpecExpr>,
    steps: nat,
    depth: nat,
) -> (SpecOut, nat, Result<Seq<SpecValue>, RuntimeError>)
    decreases steps, depth, exprs_size(es), 0int,
{
    if es.len() == 0 {
        (Seq::empty(), steps, Ok(Seq::empty()))
    } else {
        let (o1, s1, r1) = spec_eval_expr(ft, fr, es[0], steps, depth);
        match r1 {
            Err(er) => (o1, cap_steps(s1, steps), Err(er)),
            Ok(v) => {
                let (o2, s2, r2) = spec_eval_exprs(
                    ft,
                    fr,
                    es.drop_first(),
                    cap_steps(s1, steps),
                    depth,
                );
                match r2 {
                    Err(er) => (o1 + o2, cap_steps(s2, steps), Err(er)),
                    Ok(vs) => (o1 + o2, cap_steps(s2, steps), Ok(seq![v] + vs)),
                }
            },
        }
    }
}

/// The bindings of a fresh call frame: parameters bound positionally, left
/// to right.
pub open spec fn spec_bind(params: Seq<Seq<char>>, args: Seq<SpecValue>) -> SpecFrame
    decreases params.len(),
{
    if params.len() == 0 || args.len() == 0 {
        Seq::empty()
    } else {
        spec_set(spec_bind(params.drop_last(), args.drop_last()), params.last(), args.last())
    }
}

/// Calling a resolved function on evaluated arguments: `print` writes its
/// one argument's text and yields unit; a user function binds a fresh frame
/// and runs its body, yielding its returned value or unit. A body that ends
/// by leaving a loop that does not exist fails with
/// [`RuntimeError::LoopControlError`].
pub open spec fn spec_call(
    ft: SpecTable,
    entry: SpecFuncEntry,
    args: Seq<SpecValue>,
    steps: nat,
    depth: nat,
) -> (SpecOut, nat, Result<SpecValue, RuntimeError>)
    decreases steps, depth, entry_size(entry), 3int,
{
    match entry {
        SpecFuncEntry::Print => {
            if args.len() == 1 {
                (seq![spec_value_text(args[0])], steps, Ok(SpecValue::Unit))
            } else {
                (Seq::empty(), steps, Err(RuntimeError::ArityMismatch))
            }
        },
        SpecFuncEntry::User(fd) => {
            if args.len() != fd.params.len() {
                (Seq::empty(), steps, Err(RuntimeError::ArityMismatch))
            } else {
                let (o, s2, r) = spec_eval_stmts(ft, spec_bind(fd.params, args), fd.body, steps, depth);
                match r {
                    Err(er) => (o, s2, Err(er)),
                    Ok((flow, _fr)) => match flow {
                        SpecFlow::Normal => (o, s2, Ok(SpecValue::Unit)),
                        SpecFlow::Returned(v) => (o, s2, Ok(v)),
                        SpecFlow::Broke => (o, s2, Err(RuntimeError::LoopControlError)),
                    },
                }
            }
        },
    }
}

/// Running a statement sequence top to bottom, stopping at the first break,
/// return or fatal error.
pub open spec fn spec_eval_stmts(
    ft: SpecTable,
    fr: SpecFrame,
    ss: Seq<SpecStmt>,
    steps: nat,
    depth: nat,
) -> (SpecOut, nat, Result<(SpecFlow, SpecFrame), RuntimeError>)
    decreases steps, depth, stmts_size(ss), 2int,
{
    if ss.len() == 0 {
        (Seq::empty(), steps, Ok((SpecFlow::Normal, fr)))
    } else {
        let (o1, s1, r1) = spec_eval_stmt(ft, fr, ss[0], steps, depth);
        match r1 {
            Err(er) => (o1, cap_steps(s1, steps), Err(er)),
            Ok((flow, fr1)) => match flow {
                SpecFlow::Normal => {
                    let (o2, s2, r2) = spec_eval_stmts(
                        ft,
                        fr1,
                        ss.drop_first(),
                        cap_steps(s1, steps),
                        depth,
                    );
                    (o1 + o2, cap_steps(s2, steps), r2)
                },
                SpecFlow::Broke => (o1, cap_steps(s1, steps), Ok((SpecFlow::Broke, fr1))),
                SpecFlow::Returned(v) => (
                    o1,
                    cap_steps(s1, steps),
                    Ok((SpecFlow::Returned(v), fr1)),
                ),
            },
        }
    }
}

/// Running one statement. A condition must reduce to a boolean; `break` and
/// `return` unwind as flows; an assignment binds in the current frame.
pub open spec fn spec_eval_stmt(
    ft: SpecTable,
    fr: SpecFrame,
    s: SpecStmt,
    steps: nat,
    depth: nat,
) -> (SpecOut, nat, Result<(SpecFlow, SpecFrame), RuntimeError>)
    decreases steps, depth, stmt_size(s), 1int,
{
    match s {
        SpecStmt::Expr(e) => {
            let (o, s2, r) = spec_eval_expr(ft, fr, e, steps, depth);
            match r {
                Err(er) => (o, cap_steps(s2, steps), Err(er)),
                Ok(_) => (o, cap_steps(s2, steps), Ok((SpecFlow::Normal, fr))),
            }
        },
        SpecStmt::Assign(x, e) => {
            let (o, s2, r) = spec_eval_expr(ft, fr, e, steps, depth);
            match r {
                Err(er) => (o, cap_steps(s2, steps), Err(er)),
                Ok(v) => (o, cap_steps(s2, steps), Ok((SpecFlow::Normal, spec_set(fr, x, v)))),
            }
        },
        SpecStmt::If(c, t, els) => {
            let (o1, s1, r1) = spec_eval_expr(ft, fr, c, steps, depth);
            match r1 {
                Err(er) => (o1, cap_steps(s1, steps), Err(er)),
                Ok(v) => {
                    if v == SpecValue::Bool(true) {
                        let (o2, s2, r2) = spec_eval_stmts(ft, fr, t, cap_steps(s1, steps), depth);
                        (o1 + o2, cap_steps(s2, steps), r2)
                    } else if v == SpecValue::Bool(false) {
                        let (o2, s2, r2) = spec_eval_stmts(
                            ft,
                            fr,
                            els,
                            cap_steps(s1, steps),
                            depth,
                        );
                        (o1 + o2, cap_steps(s2, steps), r2)
                    } else {
                        (o1, cap_steps(s1, steps), Err(RuntimeError::TypeMismatch))
                    }
                },
            }
        },
        SpecStmt::While(_, _) => spec_eval_while(ft, fr, s, steps, depth),
        SpecStmt::Break => (Seq::empty(), steps, Ok((SpecFlow::Broke, fr))),
        SpecStmt::Return(oe) => match oe {
            None => (Seq::empty(), steps, Ok((SpecFlow::Returned(SpecValue::Unit), fr))),
            Some(e) => {
                let (o, s2, r) = spec_eval_expr(ft, fr, e, steps, depth);
                match r {
                    Err(er) => (o, cap_steps(s2, steps), Err(er)),
                    Ok(v) => (o, cap_steps(s2, steps), Ok((SpecFlow::Returned(v), fr))),
                }
            },
        },
    }
}

/// Running a while loop: evaluate the condition; when true, run the body and
/// repeat, one step of budget per iteration; when false, fall through. A
/// break in the body ends the loop; a return passes through it.
pub open spec fn spec_eval_while(
    ft: SpecTable,
    fr: SpecFrame,
    w: SpecStmt,
    steps: nat,
    depth: nat,
) -> (SpecOut, nat, Result<(SpecFlow, SpecFrame), RuntimeError>)
    decreases steps, depth, stmt_size(w), 0int,
{
    match w {
        SpecStmt::While(c, body) => {
            let (o1, s1, r1) = spec_eval_expr(ft, fr, c, steps, depth);
            match r1 {
                Err(er) => (o1, cap_steps(s1, steps), Err(er)),
                Ok(v) => {
                    if v == SpecValue::Bool(false) {
                        (o1, cap_steps(s1, steps), Ok((SpecFlow::Normal, fr)))
                    } else if v != SpecValue::Bool(true) {
                        (o1, cap_steps(s1, steps), Err(RuntimeError::TypeMismatch))
                    } else {
                        let (o2, s2, r2) = spec_eval_stmts(
                            ft,
                            fr,
                            body,
                            cap_steps(s1, steps),
                            depth,
                        );
                        match r2 {
                            Err(er) => (o1 + o2, cap_steps(s2, steps), Err(er)),
                            Ok((flow, fr2)) => match flow {
                                SpecFlow::Broke => (
                                    o1 + o2,
                                    cap_steps(s2, steps),
                                    Ok((SpecFlow::Normal, fr2)),
                                ),
                                SpecFlow::Returned(rv) => (
                                    o1 + o2,
                                    cap_steps(s2, steps),
                                    Ok((SpecFlow::Returned(rv), fr2)),
                                ),
                                SpecFlow::Normal => {
                                    let sc = cap_steps(s2, steps);
                                    if sc == 0 {
                                        (o1 + o2, 0, Err(RuntimeError::StackOverflow))
                                    } else {
                                        let (o3, s3, r3) = spec_eval_while(
                                            ft,
                                            fr2,
                                            w,
                                            (sc - 1) as nat,
                                            depth,
                                        );
                                        (o1 + o2 + o3, cap_steps(s3, steps), r3)
                                    }
                                },
                            },
                        }
                    }
                },
            }
        },
        _ => (Seq::empty(), steps, Ok((SpecFlow::Normal, fr))),
    }
}

/// Registering a program's definitions, in source order: the last definition
/// for a name wins.
pub open spec fn spec_register(ft: SpecTable, prog: Seq<SpecFuncDef>) -> SpecTable
    decreases prog.len(),
{
    if prog.len() == 0 {
        ft
    } else {
        spec_register(
            spec_set(ft, prog[0].name, SpecFuncEntry::User(prog[0])),
            prog.drop_first(),
        )
    }
}

/// A whole run: register the definitions, then call `main` with no
/// arguments. The output written before a fatal error is kept beside it.
pub open spec fn spec_apply(
    ft0: SpecTable,
    prog: Seq<SpecFuncDef>,
    steps: nat,
    depth: nat,
) -> (SpecOut, Option<RuntimeError>) {
    let ft = spec_register(ft0, prog);
    match spec_lookup(ft, "main"@) {
        None => (Seq::empty(), Some(RuntimeError::EntryPointMissing)),
        Some(entry) => {
            let (o, _s, r) = spec_call(ft, entry, Seq::empty(), steps, depth);
            match r {
                Ok(_) => (o, None),
                Err(e) => (o, Some(e)),
            }
        },
    }
}

/// The step budget of a run: one unit per loop iteration.
pub const MAX_STEPS: u64 = 10000000;

/// The call-depth budget of a run: one unit per function call.
pub const MAX_DEPTH: u64 = 500;

/// The images of a sequence of values.
pub open spec fn values_view(vs: Seq<Value>) -> Seq<SpecValue> {
    vs.map_values(|v: Value| value_view(v))
}

/// Evaluation never gains steps back.
proof fn lemma_expr_steps(ft: SpecTable, fr: SpecFrame, e: SpecExpr, steps: nat, depth: nat)
    ensures
        spec_eval_expr(ft, fr, e, steps, depth).1 <= steps,
{
}

/// Evaluation never gains steps back.
proof fn lemma_exprs_steps(ft: SpecTable, fr: SpecFrame, es: Seq<SpecExpr>, steps: nat, depth: nat)
    ensures
        spec_eval_exprs(ft, fr, es, steps, depth).1 <= steps,
{
}

/// Evaluation never gains steps back.
proof fn lemma_stmts_steps(ft: SpecTable, fr: SpecFrame, ss: Seq<SpecStmt>, steps: nat, depth: nat)
    ensures
        spec_eval_stmts(ft, fr, ss, steps, depth).1 <= steps,
{
}

/// Evaluation never gains steps back.
proof fn lemma_stmt_steps(ft: SpecTable, fr: SpecFrame, s: SpecStmt, steps: nat, depth: nat)
    ensures
        spec_eval_stmt(ft, fr, s, steps, depth).1 <= steps,
{
}

/// Evaluation never gains steps back.
proof fn lemma_while_steps(ft: SpecTable, fr: SpecFrame, w: SpecStmt, steps: nat, depth: nat)
    ensures
        spec_eval_while(ft, fr, w, steps, depth).1 <= steps,
{
}

/// Evaluation never gains steps back.
proof fn lemma_call_steps(
    ft: SpecTable,
    entry: SpecFuncEntry,
    args: Seq<SpecValue>,
    steps: nat,
    depth: nat,
)
    ensures
        spec_call(ft, entry, args, steps, depth).1 <= steps,
    decreases steps, depth, entry_size(entry), 3int,
{
    match entry {
        SpecFuncEntry::Print => {},
        SpecFuncEntry::User(fd) => {
            if args.len() == fd.params.len() {
                lemma_stmts_steps(ft, spec_bind(fd.params, args), fd.body, steps, depth);
            }
        },
    }
}

/// Each statement weighs less than its whole sequence.
proof fn lemma_stmts_size_index(ss: Seq<SpecStmt>, i: int)
    requires
        0 <= i < ss.len(),
    ensures
        stmt_size(ss[i]) < stmts_size(ss),
    decreases i,
{
    if i > 0 {
        lemma_stmts_size_index(ss.drop_first(), i - 1);
    }
}

/// Each expression weighs less than its whole sequence.
proof fn lemma_exprs_size_index(es: Seq<SpecExpr>, i: int)
    requires
        0 <= i < es.len(),
    ensures
        expr_size(es[i]) < exprs_size(es),
    decreases i,
{
    if i > 0 {
        lemma_exprs_size_index(es.drop_first(), i - 1);
    }
}

/// Binding a key at its first occurrence replaces that pair.
proof fn lemma_spec_set_update<V>(es: Seq<(Seq<char>, V)>, k: Seq<char>, v: V, i: int)
    requires
        0 <= i < es.len(),
        es[i].0 == k,
        forall|j: int| 0 <= j < i ==> es[j].0 != k,
    ensures
        spec_set(es, k, v) == es.update(i, (k, v)),
    decreases i,
{
    if i == 0 {
        assert(spec_set(es, k, v) =~= es.update(0, (k, v)));
    } else {
        lemma_spec_set_update(es.drop_first(), k, v, i - 1);
        assert(seq![es[0]] + es.drop_first().update(i - 1, (k, v)) =~= es.update(i, (k, v)));
    }
}

/// Binding a key that is absent appends the pair.
proof fn lemma_spec_set_append<V>(es: Seq<(Seq<char>, V)>, k: Seq<char>, v: V)
    requires
        forall|j: int| 0 <= j < es.len() ==> es[j].0 != k,
    ensures
        spec_set(es, k, v) == es.push((k, v)),
    decreases es.len(),
{
    if es.len() == 0 {
        assert(spec_set(es, k, v) =~= es.push((k, v)));
    } else {
        lemma_spec_set_append(es.drop_first(), k, v);
        assert(seq![es[0]] + es.drop_first().push((k, v)) =~= es.push((k, v)));
    }
}

/// Relies on `String::push`: appends the given character to the end of the
/// string.
pub assume_specification[ std::string::String::push ](s: &mut std::string::String, c: char)
    ensures
        final(s)@ == old(s)@.push(c),
;

/// The decimal text of a natural number: exactly [`spec_nat_text`].
fn u64_text(n: u64) -> (s: std::string::String)
    ensures
        s@ == spec_nat_text(n as nat),
{
    let mut digits: Vec<char> = Vec::new();
    let mut m = n;
    let mut out = std::string::String::new();
    if n < 10 {
        out.push(digit_char(n));
        proof {
            assert(Seq::<char>::empty().push(digit_char_of(n as nat)) =~= seq![
                digit_char_of(n as nat),
            ]);
        }
        return out;
    }
    while m >= 10
        invariant
            spec_nat_text(n as nat) == spec_nat_text(m as nat) + digits@.reverse(),
        decreases m,
    {
        let d = m % 10;
        proof {
            assert(digits@.push(digit_char_of((m % 10) as nat)).reverse() =~= seq![
                digit_char_of((m % 10) as nat),
            ] + digits@.reverse());
            assert(spec_nat_text((m / 10) as nat).push(digit_char_of((m % 10) as nat)) + digits@.reverse()
                =~= spec_nat_text((m / 10) as nat) + (digits@.push(
                digit_char_of((m % 10) as nat),
            )).reverse());
        }
        digits.push(digit_char(d));
        m = m / 10;
    }
    out.push(digit_char(m));
    proof {
        assert(Seq::<char>::empty().push(digit_char_of(m as nat)) =~= spec_nat_text(m as nat));
    }
    let mut i = digits.len();
    while i > 0
        invariant
            i <= digits@.len(),
            out@ == spec_nat_text(m as nat) + digits@.skip(i as int).reverse(),
        decreases i,
    {
        i = i - 1;
        proof {
            assert(digits@.skip(i as int).drop_first() =~= digits@.skip(i as int + 1));
            assert(digits@.skip(i as int).reverse() =~= digits@.skip(i as int + 1).reverse().push(
                digits@[i as int],
            ));
        }
        out.push(digits[i]);
    }
    proof {
        assert(digits@.skip(0) =~= digits@);
        assert(spec_nat_text(n as nat) == spec_nat_text(m as nat) + digits@.reverse());
    }
    out
}

/// The character of one decimal digit.
fn digit_char(d: u64) -> (c: char)
    ensures
        c == digit_char_of((d % 10) as nat),
{
    let r = d % 10;
    if r == 0 {
        '0'
    } else if r == 1 {
        '1'
    } else if r == 2 {
        '2'
    } else if r == 3 {
        '3'
    } else if r == 4 {
        '4'
    } else if r == 5 {
        '5'
    } else if r == 6 {
        '6'
    } else if r == 7 {
        '7'
    } else if r == 8 {
        '8'
    } else {
        '9'
    }
}

/// The decimal text of a 64-bit integer: exactly [`spec_i64_text`].
fn i64_text(v: i64) -> (s: std::string::String)
    ensures
        s@ == spec_i64_text(v),
{
    if v >= 0 {
        u64_text(v as u64)
    } else {
        let m: u64 = if v == i64::MIN {
            9223372036854775808u64
        } else {
            (-v) as u64
        };
        proof {
            assert(m as nat == (-(v as int)) as nat);
        }
        let mut out = std::string::String::new();
        out.push('-');
        let digits = u64_text(m);
        out.append(digits.as_str());
        proof {
            assert(Seq::<char>::empty().push('-') =~= seq!['-']);
        }
        out
    }
}

/// The text `print` writes for a value: exactly [`spec_value_text`].
fn value_text(v: &Value) -> (s: std::string::String)
    ensures
        s@ == spec_value_text(value_view(*v)),
{
    match v {
        Value::Int(x) => i64_text(*x),
        Value::Str(s) => s.clone(),
        Value::Bool(b) => {
            if *b {
                "true".to_owned()
            } else {
                "false".to_owned()
            }
        },
        Value::Unit => "()".to_owned(),
    }
}

/// A structural copy of a value.
fn value_clone(v: &Value) -> (r: Value)
    ensures
        value_view(r) == value_view(*v),
{
    match v {
        Value::Int(x) => Value::Int(*x),
        Value::Str(s) => Value::Str(s.clone()),
        Value::Bool(b) => Value::Bool(*b),
        Value::Unit => Value::Unit,
    }
}

/// The first value bound to a name in a frame: exactly [`spec_lookup`].
fn frame_get(fr: &Vec<(std::string::String, Value)>, name: &str) -> (r: Option<Value>)
    ensures
        match spec_lookup(frame_view(fr@), name@) {
            Some(v) => r matches Some(x) && value_view(x) == v,
            None => r is None,
        },
{
    let ghost full = frame_view(fr@);
    let mut i: usize = 0;
    while i < fr.len()
        invariant
            i <= fr@.len(),
            full == frame_view(fr@),
            spec_lookup(full, name@) == spec_lookup(full.skip(i as int), name@),
        decreases fr@.len() - i,
    {
        proof {
            assert(full.skip(i as int)[0] == full[i as int]);
            assert(full.skip(i as int).drop_first() =~= full.skip(i as int + 1));
        }
        if str_eq_str(fr[i].0.as_str(), name) {
            return Some(value_clone(&fr[i].1));
        }
        i = i + 1;
    }
    proof {
        assert(full.skip(fr@.len() as int) =~= Seq::<(Seq<char>, SpecValue)>::empty());
    }
    None
}

/// Binds a name in a frame, replacing its first binding or appending a new
/// one: exactly [`spec_set`].
fn frame_set(fr: &mut Vec<(std::string::String, Value)>, name: &std::string::String, v: Value)
    ensures
        frame_view(final(fr)@) == spec_set(frame_view(old(fr)@), name@, value_view(v)),
{
    let ghost full = frame_view(old(fr)@);
    let mut i: usize = 0;
    while i < fr.len()
        invariant
            i <= fr@.len(),
            fr@ == old(fr)@,
            full == frame_view(fr@),
            forall|j: int| 0 <= j < i ==> full[j].0 != name@,
        decreases fr@.len() - i,
    {
        if str_eq_str(fr[i].0.as_str(), name.as_str()) {
            let ghost vv = value_view(v);
            proof {
                lemma_spec_set_update(full, name@, vv, i as int);
            }
            let nk = name.clone();
            fr.remove(i);
            fr.insert(i, (nk, v));
            proof {
                assert(fr@ =~= old(fr)@.update(i as int, fr@[i as int]));
                assert(fr@[i as int].0@ == name@);
                assert(value_view(fr@[i as int].1) == vv);
                assert(frame_view(fr@) =~= full.update(i as int, (name@, vv)));
            }
            return ;
        }
        i = i + 1;
    }
    let ghost vv = value_view(v);
    proof {
        lemma_spec_set_append(full, name@, vv);
    }
    let nk = name.clone();
    fr.push((nk, v));
    proof {
        assert(fr@.last().0@ == name@);
        assert(value_view(fr@.last().1) == vv);
        assert(frame_view(fr@) =~= full.push((name@, vv)));
    }
}

/// One binary operation on two values: exactly [`spec_binop`].
fn eval_binop(op: BinOp, a: &Value, b: &Value) -> (r: Result<Value, RuntimeError>)
    ensures
        match spec_binop(op, value_view(*a), value_view(*b)) {
            Ok(v) => r matches Ok(x) && value_view(x) == v,
            Err(er) => r matches Err(x) && x == er,
        },
{
    match op {
        BinOp::Add => match (a, b) {
            (Value::Int(x), Value::Int(y)) => Ok(Value::Int(x.wrapping_add(*y))),
            _ => Err(RuntimeError::TypeMismatch),
        },
        BinOp::Sub => match (a, b) {
            (Value::Int(x), Value::Int(y)) => Ok(Value::Int(x.wrapping_sub(*y))),
            _ => Err(RuntimeError::TypeMismatch),
        },
        BinOp::Mul => match (a, b) {
            (Value::Int(x), Value::Int(y)) => Ok(Value::Int(x.wrapping_mul(*y))),
            _ => Err(RuntimeError::TypeMismatch),
        },
        BinOp::Div => match (a, b) {
            (Value::Int(x), Value::Int(y)) => {
                if *y == 0 {
                    Err(RuntimeError::DivisionByZero)
                } else {
                    match x.checked_div(*y) {
                        Some(q) => Ok(Value::Int(q)),
                        None => Ok(Value::Int(i64::MIN)),
                    }
                }
            },
            _ => Err(RuntimeError::TypeMismatch),
        },
        BinOp::Mod => match (a, b) {
            (Value::Int(x), Value::Int(y)) => {
                if *y == 0 {
                    Err(RuntimeError::DivisionByZero)
                } else {
                    match x.checked_rem(*y) {
                        Some(q) => Ok(Value::Int(q)),
                        None => Ok(Value::Int(0)),
                    }
                }
            },
            _ => Err(RuntimeError::TypeMismatch),
        },
        BinOp::Eq => eval_equality(a, b, true),
        BinOp::Ne => eval_equality(a, b, false),
        BinOp::Lt => match (a, b) {
            (Value::Int(x), Value::Int(y)) => Ok(Value::Bool(*x < *y)),
            _ => Err(RuntimeError::TypeMismatch),
        },
        BinOp::Le => match (a, b) {
            (Value::Int(x), Value::Int(y)) => Ok(Value::Bool(*x <= *y)),
            _ => Err(RuntimeError::TypeMismatch),
        },
        BinOp::Gt => match (a, b) {
            (Value::Int(x), Value::Int(y)) => Ok(Value::Bool(*x > *y)),
            _ => Err(RuntimeError::TypeMismatch),
        },
        BinOp::Ge => match (a, b) {
            (Value::Int(x), Value::Int(y)) => Ok(Value::Bool(*x >= *y)),
            _ => Err(RuntimeError::TypeMismatch),
        },
    }
}

/// Structural equality of two values of one kind: exactly
/// [`spec_equality`].
fn eval_equality(a: &Value, b: &Value, want_eq: bool) -> (r: Result<Value, RuntimeError>)
    ensures
        match spec_equality(value_view(*a), value_view(*b), want_eq) {
            Ok(v) => r matches Ok(x) && value_view(x) == v,
            Err(er) => r matches Err(x) && x == er,
        },
{
    match (a, b) {
        (Value::Int(x), Value::Int(y)) => Ok(Value::Bool((*x == *y) == want_eq)),
        (Value::Str(x), Value::Str(y)) => Ok(
            Value::Bool(str_eq_str(x.as_str(), y.as_str()) == want_eq),
        ),
        (Value::Bool(x), Value::Bool(y)) => Ok(Value::Bool((*x == *y) == want_eq)),
        (Value::Unit, Value::Unit) => Ok(Value::Bool(want_eq)),
        _ => Err(RuntimeError::TypeMismatch),
    }
}

/// The first entry registered under a name: exactly [`spec_lookup`] on the
/// table.
fn table_get<'a>(ft: &'a Vec<(std::string::String, FuncEntry)>, name: &str) -> (r: Option<
    &'a FuncEntry,
>)
    ensures
        match spec_lookup(table_view(ft@), name@) {
            Some(v) => r matches Some(fe) && fentry_view(*fe) == v,
            None => r is None,
        },
{
    let ghost full = table_view(ft@);
    let mut i: usize = 0;
    while i < ft.len()
        invariant
            i <= ft@.len(),
            full == table_view(ft@),
            spec_lookup(full, name@) == spec_lookup(full.skip(i as int), name@),
        decreases ft@.len() - i,
    {
        proof {
            assert(full.skip(i as int)[0] == full[i as int]);
            assert(full.skip(i as int).drop_first() =~= full.skip(i as int + 1));
        }
        if str_eq_str(ft[i].0.as_str(), name) {
            return Some(&ft[i].1);
        }
        i = i + 1;
    }
    proof {
        assert(full.skip(ft@.len() as int) =~= Seq::<(Seq<char>, SpecFuncEntry)>::empty());
    }
    None
}

/// Evaluates one expression, appending what it prints to `out`: exactly
/// [`spec_eval_expr`].
#[verifier::rlimit(80)]
fn eval_expr(
    ft: &Vec<(std::string::String, FuncEntry)>,
    fr: &Vec<(std::string::String, Value)>,
    e: &Expr,
    out: &mut Vec<std::string::String>,
    steps: u64,
    depth: u64,
) -> (res: (u64, Result<Value, RuntimeError>))
    ensures
        ({
            let (o, s2, r2) = spec_eval_expr(
                table_view(ft@),
                frame_view(fr@),
                expr_view(*e),
                steps as nat,
                depth as nat,
            );
            &&& out_view(final(out)@) == out_view(old(out)@) + o
            &&& res.0 as nat == s2
            &&& (match r2 {
                Ok(v) => res.1 matches Ok(x) && value_view(x) == v,
                Err(er) => res.1 matches Err(x) && x == er,
            })
        }),
    decreases steps, depth, expr_size(expr_view(*e)), 1int,
{
    let ghost t = table_view(ft@);
    let ghost f = frame_view(fr@);
    match e {
        Expr::Int(v) => {
            proof {
                assert(out_view(out@) =~= out_view(out@) + Seq::<Seq<char>>::empty());
            }
            (steps, Ok(Value::Int(*v)))
        },
        Expr::Str(s) => {
            proof {
                assert(out_view(out@) =~= out_view(out@) + Seq::<Seq<char>>::empty());
            }
            (steps, Ok(Value::Str(s.clone())))
        },
        Expr::Bool(b) => {
            proof {
                assert(out_view(out@) =~= out_view(out@) + Seq::<Seq<char>>::empty());
            }
            (steps, Ok(Value::Bool(*b)))
        },
        Expr::Var(x) => {
            proof {
                assert(out_view(out@) =~= out_view(out@) + Seq::<Seq<char>>::empty());
            }
            match frame_get(fr, x.as_str()) {
                Some(v) => (steps, Ok(v)),
                None => (steps, Err(RuntimeError::UndefinedVariable)),
            }
        },
        Expr::Binary(op, l, r) => {
            let (s1, r1) = eval_expr(ft, fr, l, out, steps, depth);
            proof {
                lemma_expr_steps(t, f, expr_view(**l), steps as nat, depth as nat);
            }
            match r1 {
                Err(er) => (s1, Err(er)),
                Ok(v1) => {
                    let (s2, r2) = eval_expr(ft, fr, r, out, s1, depth);
                    proof {
                        lemma_expr_steps(t, f, expr_view(**r), s1 as nat, depth as nat);
                        let o1 = spec_eval_expr(t, f, expr_view(**l), steps as nat, depth as nat).0;
                        let o2 = spec_eval_expr(t, f, expr_view(**r), s1 as nat, depth as nat).0;
                        assert(out_view(old(out)@) + o1 + o2 =~= out_view(old(out)@) + (o1 + o2));
                    }
                    match r2 {
                        Err(er) => (s2, Err(er)),
                        Ok(v2) => (s2, eval_binop(*op, &v1, &v2)),
                    }
                },
            }
        },
        Expr::Call(name, args) => {
            match table_get(ft, name.as_str()) {
                None => {
                    proof {
                        assert(out_view(out@) =~= out_view(out@) + Seq::<Seq<char>>::empty());
                    }
                    (steps, Err(RuntimeError::UndefinedFunction))
                },
                Some(entry) => {
                    let (s1, r1) = eval_exprs(ft, fr, args, out, steps, depth);
                    proof {
                        lemma_exprs_steps(t, f, exprs_view(args@), steps as nat, depth as nat);
                    }
                    match r1 {
                        Err(er) => (s1, Err(er)),
                        Ok(vs) => {
                            if depth == 0 {
                                (s1, Err(RuntimeError::StackOverflow))
                            } else {
                                let (s2, r2) = eval_call(ft, entry, vs, out, s1, depth - 1);
                                proof {
                                    lemma_call_steps(
                                        t,
                                        fentry_view(*entry),
                                        spec_eval_exprs(
                                            t,
                                            f,
                                            exprs_view(args@),
                                            steps as nat,
                                            depth as nat,
                                        ).2->Ok_0,
                                        s1 as nat,
                                        (depth - 1) as nat,
                                    );
                                    let o1 = spec_eval_exprs(
                                        t,
                                        f,
                                        exprs_view(args@),
                                        steps as nat,
                                        depth as nat,
                                    ).0;
                                    let o2 = spec_call(
                                        t,
                                        fentry_view(*entry),
                                        spec_eval_exprs(
                                            t,
                                            f,
                                            exprs_view(args@),
                                            steps as nat,
                                            depth as nat,
                                        ).2->Ok_0,
                                        s1 as nat,
                                        (depth - 1) as nat,
                                    ).0;
                                    assert(out_view(old(out)@) + o1 + o2 =~= out_view(old(out)@) + (
                                    o1 + o2));
                                }
                                (s2, r2)
                            }
                        },
                    }
                },
            }
        },
    }
}

/// Evaluates an argument list left to right: exactly [`spec_eval_exprs`].
#[verifier::rlimit(80)]
fn eval_exprs(
    ft: &Vec<(std::string::String, FuncEntry)>,
    fr: &Vec<(std::string::String, Value)>,
    es: &Vec<Expr>,
    out: &mut Vec<std::string::String>,
    steps: u64,
    depth: u64,
) -> (res: (u64, Result<Vec<Value>, RuntimeError>))
    ensures
        ({
            let (o, s2, r2) = spec_eval_exprs(
                table_view(ft@),
                frame_view(fr@),
                exprs_view(es@),
                steps as nat,
                depth as nat,
            );
            &&& out_view(final(out)@) == out_view(old(out)@) + o
            &&& res.0 as nat == s2
            &&& (match r2 {
                Ok(vs) => res.1 matches Ok(xs) && values_view(xs@) == vs,
                Err(er) => res.1 matches Err(x) && x == er,
            })
        }),
    decreases steps, depth, exprs_size(exprs_view(es@)), 0int,
{
    let ghost t = table_view(ft@);
    let ghost f = frame_view(fr@);
    let ghost es_full = exprs_view(es@);
    proof {
        crate::ast::lemma_exprs_view_index(es@);
    }
    let mut vals: Vec<Value> = Vec::new();
    let mut st: u64 = steps;
    let ghost mut g_acc: Seq<Seq<char>> = Seq::empty();
    let mut i: usize = 0;
    proof {
        assert(es_full.skip(0) =~= es_full);
        assert(out_view(out@) =~= out_view(out@) + Seq::<Seq<char>>::empty());
        assert(values_view(vals@) =~= Seq::<SpecValue>::empty());
    }
    while i < es.len()
        invariant
            i <= es@.len(),
            t == table_view(ft@),
            f == frame_view(fr@),
            es_full == exprs_view(es@),
            es_full.len() == es@.len(),
            forall|j: int| 0 <= j < es@.len() ==> es_full[j] == expr_view(es@[j]),
            st <= steps,
            out_view(out@) == out_view(old(out)@) + g_acc,
            spec_eval_exprs(t, f, es_full, steps as nat, depth as nat) == ({
                let (o, s, r) = spec_eval_exprs(
                    t,
                    f,
                    es_full.skip(i as int),
                    st as nat,
                    depth as nat,
                );
                (
                    g_acc + o,
                    s,
                    match r {
                        Ok(vs) => Ok(values_view(vals@) + vs),
                        Err(er) => Err::<Seq<SpecValue>, RuntimeError>(er),
                    },
                )
            }),
        decreases es@.len() - i,
    {
        proof {
            assert(es_full.skip(i as int)[0] == es_full[i as int]);
            assert(es_full.skip(i as int).drop_first() =~= es_full.skip(i as int + 1));
            lemma_exprs_size_index(es_full, i as int);
        }
        let (s1, r1) = eval_expr(ft, fr, &es[i], out, st, depth);
        proof {
            lemma_expr_steps(t, f, es_full[i as int], st as nat, depth as nat);
        }
        let ghost o1 = spec_eval_expr(t, f, es_full[i as int], st as nat, depth as nat).0;
        match r1 {
            Err(er) => {
                proof {
                    assert(out_view(old(out)@) + g_acc + o1 =~= out_view(old(out)@) + (g_acc + o1));
                }
                return (s1, Err(er));
            },
            Ok(v) => {
                proof {
                    let ghost vv = value_view(v);
                    assert(values_view(vals@.push(v)) =~= values_view(vals@).push(vv));
                    let (o2, s2, r2) = spec_eval_exprs(
                        t,
                        f,
                        es_full.skip(i as int + 1),
                        s1 as nat,
                        depth as nat,
                    );
                    assert(g_acc + (o1 + o2) =~= (g_acc + o1) + o2);
                    if r2 is Ok {
                        assert(values_view(vals@) + (seq![vv] + r2->Ok_0) =~= values_view(
                            vals@.push(v),
                        ) + r2->Ok_0);
                    }
                    g_acc = g_acc + o1;
                }
                vals.push(v);
                st = s1;
                i = i + 1;
            },
        }
    }
    proof {
        assert(es_full.skip(es@.len() as int) =~= Seq::<SpecExpr>::empty());
        assert(g_acc + Seq::<Seq<char>>::empty() =~= g_acc);
        assert(values_view(vals@) + Seq::<SpecValue>::empty() =~= values_view(vals@));
    }
    (st, Ok(vals))
}

/// Calls a resolved function on evaluated arguments: exactly [`spec_call`].
#[verifier::rlimit(80)]
fn eval_call(
    ft: &Vec<(std::string::String, FuncEntry)>,
    entry: &FuncEntry,
    args: Vec<Value>,
    out: &mut Vec<std::string::String>,
    steps: u64,
    depth: u64,
) -> (res: (u64, Result<Value, RuntimeError>))
    ensures
        ({
            let (o, s2, r2) = spec_call(
                table_view(ft@),
                fentry_view(*entry),
                values_view(args@),
                steps as nat,
                depth as nat,
            );
            &&& out_view(final(out)@) == out_view(old(out)@) + o
            &&& res.0 as nat == s2
            &&& (match r2 {
                Ok(v) => res.1 matches Ok(x) && value_view(x) == v,
                Err(er) => res.1 matches Err(x) && x == er,
            })
        }),
    decreases steps, depth, entry_size(fentry_view(*entry)), 3int,
{
    let ghost t = table_view(ft@);
    match entry {
        FuncEntry::Print => {
            if args.len() == 1 {
                let line = value_text(&args[0]);
                proof {
                    assert(out_view(out@.push(line)) =~= out_view(out@) + seq![line@]);
                }
                out.push(line);
                (steps, Ok(Value::Unit))
            } else {
                proof {
                    assert(out_view(out@) =~= out_view(out@) + Seq::<Seq<char>>::empty());
                }
                (steps, Err(RuntimeError::ArityMismatch))
            }
        },
        FuncEntry::User(fd) => {
            if args.len() != fd.params.len() {
                proof {
                    assert(out_view(out@) =~= out_view(out@) + Seq::<Seq<char>>::empty());
                }
                (steps, Err(RuntimeError::ArityMismatch))
            } else {
                let ghost pv = crate::ast::names_view(fd.params@);
                let ghost av = values_view(args@);
                let mut frame: Vec<(std::string::String, Value)> = Vec::new();
                let mut i: usize = 0;
                proof {
                    assert(pv.take(0) =~= Seq::<Seq<char>>::empty());
                    assert(av.take(0) =~= Seq::<SpecValue>::empty());
                    assert(frame_view(frame@) =~= Seq::<(Seq<char>, SpecValue)>::empty());
                }
                while i < fd.params.len()
                    invariant
                        i <= fd.params@.len(),
                        fd.params@.len() == args@.len(),
                        pv == crate::ast::names_view(fd.params@),
                        av == values_view(args@),
                        frame_view(frame@) == spec_bind(pv.take(i as int), av.take(i as int)),
                    decreases fd.params@.len() - i,
                {
                    let v = value_clone(&args[i]);
                    proof {
                        assert(pv.take(i as int + 1).drop_last() =~= pv.take(i as int));
                        assert(av.take(i as int + 1).drop_last() =~= av.take(i as int));
                        assert(pv.take(i as int + 1).last() == pv[i as int]);
                        assert(av.take(i as int + 1).last() == av[i as int]);
                    }
                    frame_set(&mut frame, &fd.params[i], v);
                    i = i + 1;
                }
                proof {
                    assert(pv.take(fd.params@.len() as int) =~= pv);
                    assert(av.take(args@.len() as int) =~= av);
                }
                let (s2, r2) = eval_stmts(ft, &mut frame, &fd.body, out, steps, depth);
                match r2 {
                    Err(er) => (s2, Err(er)),
                    Ok(flow) => match flow {
                        Flow::Normal => (s2, Ok(Value::Unit)),
                        Flow::Returned(v) => (s2, Ok(v)),
                        Flow::Broke => (s2, Err(RuntimeError::LoopControlError)),
                    },
                }
            }
        },
    }
}

/// Runs a statement sequence top to bottom: exactly [`spec_eval_stmts`].
#[verifier::rlimit(80)]
fn eval_stmts(
    ft: &Vec<(std::string::String, FuncEntry)>,
    fr: &mut Vec<(std::string::String, Value)>,
    ss: &Vec<Stmt>,
    out: &mut Vec<std::string::String>,
    steps: u64,
    depth: u64,
) -> (res: (u64, Result<Flow, RuntimeError>))
    ensures
        ({
            let (o, s2, r2) = spec_eval_stmts(
                table_view(ft@),
                frame_view(old(fr)@),
                stmts_view(ss@),
                steps as nat,
                depth as nat,
            );
            &&& out_view(final(out)@) == out_view(old(out)@) + o
            &&& res.0 as nat == s2
            &&& (match r2 {
                Ok((flow, fr2)) => res.1 matches Ok(fl) && flow_view(fl) == flow && frame_view(
                    final(fr)@,
                ) == fr2,
                Err(er) => res.1 matches Err(x) && x == er,
            })
        }),
    decreases steps, depth, stmts_size(stmts_view(ss@)), 2int,
{
    let ghost t = table_view(ft@);
    let ghost f0 = frame_view(old(fr)@);
    let ghost ss_full = stmts_view(ss@);
    proof {
        crate::ast::lemma_stmts_view_index(ss@);
    }
    let mut st: u64 = steps;
    let ghost mut g_acc: Seq<Seq<char>> = Seq::empty();
    let mut i: usize = 0;
    proof {
        assert(ss_full.skip(0) =~= ss_full);
        assert(out_view(out@) =~= out_view(out@) + Seq::<Seq<char>>::empty());
    }
    while i < ss.len()
        invariant
            i <= ss@.len(),
            t == table_view(ft@),
            f0 == frame_view(old(fr)@),
            ss_full == stmts_view(ss@),
            ss_full.len() == ss@.len(),
            forall|j: int| 0 <= j < ss@.len() ==> ss_full[j] == stmt_view(ss@[j]),
            st <= steps,
            out_view(out@) == out_view(old(out)@) + g_acc,
            spec_eval_stmts(t, f0, ss_full, steps as nat, depth as nat) == ({
                let (o, s, r) = spec_eval_stmts(
                    t,
                    frame_view(fr@),
                    ss_full.skip(i as int),
                    st as nat,
                    depth as nat,
                );
                (g_acc + o, s, r)
            }),
        decreases ss@.len() - i,
    {
        proof {
            assert(ss_full.skip(i as int)[0] == ss_full[i as int]);
            assert(ss_full.skip(i as int).drop_first() =~= ss_full.skip(i as int + 1));
            lemma_stmts_size_index(ss_full, i as int);
        }
        let ghost f_cur = frame_view(fr@);
        let (s1, r1) = eval_stmt(ft, fr, &ss[i], out, st, depth);
        proof {
            lemma_stmt_steps(t, f_cur, ss_full[i as int], st as nat, depth as nat);
        }
        let ghost o1 = spec_eval_stmt(t, f_cur, ss_full[i as int], st as nat, depth as nat).0;
        proof {
            assert(out_view(old(out)@) + g_acc + o1 =~= out_view(old(out)@) + (g_acc + o1));
        }
        match r1 {
            Err(er) => {
                return (s1, Err(er));
            },
            Ok(flow) => match flow {
                Flow::Normal => {
                    proof {
                        let (o2, s2, r2) = spec_eval_stmts(
                            t,
                            frame_view(fr@),
                            ss_full.skip(i as int + 1),
                            s1 as nat,
                            depth as nat,
                        );
                        assert(g_acc + (o1 + o2) =~= (g_acc + o1) + o2);
                        g_acc = g_acc + o1;
                    }
                    st = s1;
                    i = i + 1;
                },
                Flow::Broke => {
                    return (s1, Ok(Flow::Broke));
                },
                Flow::Returned(v) => {
                    return (s1, Ok(Flow::Returned(v)));
                },
            },
        }
    }
    proof {
        assert(ss_full.skip(ss@.len() as int) =~= Seq::<SpecStmt>::empty());
        assert(g_acc + Seq::<Seq<char>>::empty() =~= g_acc);
    }
    (st, Ok(Flow::Normal))
}

/// Runs one statement: exactly [`spec_eval_stmt`].
#[verifier::rlimit(80)]
fn eval_stmt(
    ft: &Vec<(std::string::String, FuncEntry)>,
    fr: &mut Vec<(std::string::String, Value)>,
    s: &Stmt,
    out: &mut Vec<std::string::String>,
    steps: u64,
    depth: u64,
) -> (res: (u64, Result<Flow, RuntimeError>))
    ensures
        ({
            let (o, s2, r2) = spec_eval_stmt(
                table_view(ft@),
                frame_view(old(fr)@),
                stmt_view(*s),
                steps as nat,
                depth as nat,
            );
            &&& out_view(final(out)@) == out_view(old(out)@) + o
            &&& res.0 as nat == s2
            &&& (match r2 {
                Ok((flow, fr2)) => res.1 matches Ok(fl) && flow_view(fl) == flow && frame_view(
                    final(fr)@,
                ) == fr2,
                Err(er) => res.1 matches Err(x) && x == er,
            })
        }),
    decreases steps, depth, stmt_size(stmt_view(*s)), 1int,
{
    let ghost t = table_view(ft@);
    let ghost f0 = frame_view(old(fr)@);
    match s {
        Stmt::Expr(e) => {
            let (s1, r1) = eval_expr(ft, fr, e, out, steps, depth);
            proof {
                lemma_expr_steps(t, f0, expr_view(*e), steps as nat, depth as nat);
            }
            match r1 {
                Err(er) => (s1, Err(er)),
                Ok(_) => (s1, Ok(Flow::Normal)),
            }
        },
        Stmt::Assign(x, e) => {
            let (s1, r1) = eval_expr(ft, fr, e, out, steps, depth);
            proof {
                lemma_expr_steps(t, f0, expr_view(*e), steps as nat, depth as nat);
            }
            match r1 {
                Err(er) => (s1, Err(er)),
                Ok(v) => {
                    frame_set(fr, x, v);
                    (s1, Ok(Flow::Normal))
                },
            }
        },
        Stmt::If(c, thn, els) => {
            let (s1, r1) = eval_expr(ft, fr, c, out, steps, depth);
            proof {
                lemma_expr_steps(t, f0, expr_view(*c), steps as nat, depth as nat);
            }
            let ghost o1 = spec_eval_expr(t, f0, expr_view(*c), steps as nat, depth as nat).0;
            match r1 {
                Err(er) => (s1, Err(er)),
                Ok(v) => match v {
                    Value::Bool(b) => {
                        if b {
                            let (s2, r2) = eval_stmts(ft, fr, thn, out, s1, depth);
                            proof {
                                let o2 = spec_eval_stmts(
                                    t,
                                    f0,
                                    stmts_view(thn@),
                                    s1 as nat,
                                    depth as nat,
                                ).0;
                                assert(out_view(old(out)@) + o1 + o2 =~= out_view(old(out)@) + (o1
                                    + o2));
                            }
                            (s2, r2)
                        } else {
                            let (s2, r2) = eval_stmts(ft, fr, els, out, s1, depth);
                            proof {
                                let o2 = spec_eval_stmts(
                                    t,
                                    f0,
                                    stmts_view(els@),
                                    s1 as nat,
                                    depth as nat,
                                ).0;
                                assert(out_view(old(out)@) + o1 + o2 =~= out_view(old(out)@) + (o1
                                    + o2));
                            }
                            (s2, r2)
                        }
                    },
                    _ => (s1, Err(RuntimeError::TypeMismatch)),
                },
            }
        },
        Stmt::While(_, _) => eval_while(ft, fr, s, out, steps, depth),
        Stmt::Break => {
            proof {
                assert(out_view(out@) =~= out_view(out@) + Seq::<Seq<char>>::empty());
            }
            (steps, Ok(Flow::Broke))
        },
        Stmt::Return(oe) => match oe {
            None => {
                proof {
                    assert(out_view(out@) =~= out_view(out@) + Seq::<Seq<char>>::empty());
                }
                (steps, Ok(Flow::Returned(Value::Unit)))
            },
            Some(e) => {
                let (s1, r1) = eval_expr(ft, fr, e, out, steps, depth);
                proof {
                    lemma_expr_steps(t, f0, expr_view(*e), steps as nat, depth as nat);
                }
                match r1 {
                    Err(er) => (s1, Err(er)),
                    Ok(v) => (s1, Ok(Flow::Returned(v))),
                }
            },
        },
    }
}

/// Runs a while statement to its end: exactly [`spec_eval_while`].
#[verifier::rlimit(80)]
fn eval_while(
    ft: &Vec<(std::string::String, FuncEntry)>,
    fr: &mut Vec<(std::string::String, Value)>,
    w: &Stmt,
    out: &mut Vec<std::string::String>,
    steps: u64,
    depth: u64,
) -> (res: (u64, Result<Flow, RuntimeError>))
    ensures
        ({
            let (o, s2, r2) = spec_eval_while(
                table_view(ft@),
                frame_view(old(fr)@),
                stmt_view(*w),
                steps as nat,
                depth as nat,
            );
            &&& out_view(final(out)@) == out_view(old(out)@) + o
            &&& res.0 as nat == s2
            &&& (match r2 {
                Ok((flow, fr2)) => res.1 matches Ok(fl) && flow_view(fl) == flow && frame_view(
                    final(fr)@,
                ) == fr2,
                Err(er) => res.1 matches Err(x) && x == er,
            })
        }),
    decreases steps, depth, stmt_size(stmt_view(*w)), 0int,
{
    let ghost t = table_view(ft@);
    let ghost f0 = frame_view(old(fr)@);
    let ghost wv = stmt_view(*w);
    match w {
        Stmt::While(c, body) => {
            let mut st: u64 = steps;
            let ghost mut g_acc: Seq<Seq<char>> = Seq::empty();
            proof {
                assert(out_view(out@) =~= out_view(out@) + Seq::<Seq<char>>::empty());
            }
            loop
                invariant
                    t == table_view(ft@),
                    f0 == frame_view(old(fr)@),
                    wv == stmt_view(*w),
                    wv == SpecStmt::While(expr_view(*c), stmts_view(body@)),
                    st <= steps,
                    out_view(out@) == out_view(old(out)@) + g_acc,
                    spec_eval_while(t, f0, wv, steps as nat, depth as nat) == ({
                        let (o, s, r) = spec_eval_while(
                            t,
                            frame_view(fr@),
                            wv,
                            st as nat,
                            depth as nat,
                        );
                        (g_acc + o, s, r)
                    }),
                decreases st,
            {
                let ghost f_cur = frame_view(fr@);
                let (s1, r1) = eval_expr(ft, fr, c, out, st, depth);
                proof {
                    lemma_expr_steps(t, f_cur, expr_view(*c), st as nat, depth as nat);
                }
                let ghost o1 = spec_eval_expr(t, f_cur, expr_view(*c), st as nat, depth as nat).0;
                proof {
                    assert(out_view(old(out)@) + g_acc + o1 =~= out_view(old(out)@) + (g_acc + o1));
                }
                match r1 {
                    Err(er) => {
                        return (s1, Err(er));
                    },
                    Ok(v) => match v {
                        Value::Bool(b) => {
                            if !b {
                                return (s1, Ok(Flow::Normal));
                            }
                            let (s2, r2) = eval_stmts(ft, fr, body, out, s1, depth);
                            proof {
                                lemma_stmts_steps(
                                    t,
                                    f_cur,
                                    stmts_view(body@),
                                    s1 as nat,
                                    depth as nat,
                                );
                            }
                            let ghost o2 = spec_eval_stmts(
                                t,
                                f_cur,
                                stmts_view(body@),
                                s1 as nat,
                                depth as nat,
                            ).0;
                            proof {
                                assert(out_view(old(out)@) + (g_acc + o1) + o2 =~= out_view(
                                    old(out)@,
                                ) + (g_acc + (o1 + o2)));
                            }
                            match r2 {
                                Err(er) => {
                                    return (s2, Err(er));
                                },
                                Ok(flow) => match flow {
                                    Flow::Broke => {
                                        return (s2, Ok(Flow::Normal));
                                    },
                                    Flow::Returned(rv) => {
                                        return (s2, Ok(Flow::Returned(rv)));
                                    },
                                    Flow::Normal => {
                                        if s2 == 0 {
                                            return (0, Err(RuntimeError::StackOverflow));
                                        }
                                        proof {
                                            let (o3, s3, r3) = spec_eval_while(
                                                t,
                                                frame_view(fr@),
                                                wv,
                                                (s2 - 1) as nat,
                                                depth as nat,
                                            );
                                            assert(g_acc + (o1 + o2 + o3) =~= (g_acc + (o1 + o2))
                                                + o3);
                                            g_acc = g_acc + (o1 + o2);
                                        }
                                        st = s2 - 1;
                                    },
                                },
                            }
                        },
                        _ => {
                            return (s1, Err(RuntimeError::TypeMismatch));
                        },
                    },
                }
            }
        },
        _ => {
            proof {
                assert(out_view(out@) =~= out_view(out@) + Seq::<Seq<char>>::empty());
            }
            (steps, Ok(Flow::Normal))
        },
    }
}

/// What a whole run produced: the lines `print` wrote, in order, and the
/// fatal error that stopped the run, if one did. Output written before the
/// error is kept.
#[derive(Debug)]
pub struct RunResult {
    pub output: Vec<std::string::String>,
    pub error: Option<RuntimeError>,
}

/// The evaluator: one function table, owned for one program run. It starts
/// with the builtin `print` registered; registering a name again overwrites
/// it, so the table's keys stay unique and the last definition wins.
#[derive(Debug)]
pub struct Evaluator {
    funcs: Vec<(std::string::String, FuncEntry)>,
}

impl Evaluator {
    /// The image of the function table.
    pub closed spec fn entries(&self) -> SpecTable {
        table_view(self.funcs@)
    }

    /// A fresh evaluator: only the builtin `print` is registered.
    pub fn new() -> (e: Evaluator)
        ensures
            e.entries() == seq![("print"@, SpecFuncEntry::Print)],
    {
        let mut funcs: Vec<(std::string::String, FuncEntry)> = Vec::new();
        funcs.push(("print".to_owned(), FuncEntry::Print));
        proof {
            assert(table_view(funcs@) =~= seq![("print"@, SpecFuncEntry::Print)]);
        }
        Evaluator { funcs }
    }

    /// The entry registered under a name, if any.
    pub fn get(&self, key: &str) -> (r: Option<&FuncEntry>)
        ensures
            match spec_lookup(self.entries(), key@) {
                Some(v) => r matches Some(fe) && fentry_view(*fe) == v,
                None => r is None,
            },
    {
        table_get(&self.funcs, key)
    }

    /// Registers an entry under a name, overwriting any earlier one.
    pub fn set(&mut self, key: std::string::String, value: FuncEntry)
        ensures
            final(self).entries() == spec_set(old(self).entries(), key@, fentry_view(value)),
    {
        let ghost full = table_view(self.funcs@);
        let mut i: usize = 0;
        while i < self.funcs.len()
            invariant
                i <= self.funcs@.len(),
                self.funcs@ == old(self).funcs@,
                full == table_view(self.funcs@),
                forall|j: int| 0 <= j < i ==> full[j].0 != key@,
            decreases self.funcs@.len() - i,
        {
            if str_eq_str(self.funcs[i].0.as_str(), key.as_str()) {
                let ghost vv = fentry_view(value);
                proof {
                    lemma_spec_set_update(full, key@, vv, i as int);
                }
                self.funcs.remove(i);
                self.funcs.insert(i, (key, value));
                proof {
                    assert(self.funcs@ =~= old(self).funcs@.update(
                        i as int,
                        self.funcs@[i as int],
                    ));
                    assert(table_view(self.funcs@) =~= full.update(i as int, (key@, vv)));
                }
                return ;
            }
            i = i + 1;
        }
        let ghost vv = fentry_view(value);
        proof {
            lemma_spec_set_append(full, key@, vv);
        }
        self.funcs.push((key, value));
        proof {
            assert(table_view(self.funcs@) =~= full.push((key@, vv)));
        }
    }

    /// Registers one definition under its name.
    fn eval_funcdef(&mut self, f: FuncDef)
        ensures
            final(self).entries() == spec_set(
                old(self).entries(),
                f.name@,
                SpecFuncEntry::User(funcdef_view(f)),
            ),
    {
        let name = f.name.clone();
        self.set(name, FuncEntry::User(f));
    }

    /// Registers a program's definitions, in source order: exactly
    /// [`spec_register`].
    fn eval_program(&mut self, ast: Program)
        ensures
            final(self).entries() == spec_register(old(self).entries(), program_view(ast@)),
    {
        let ghost prog = program_view(ast@);
        proof {
            crate::ast::lemma_funcdefs_view_index(ast@);
        }
        let mut rest = ast;
        while rest.len() > 0
            invariant
                spec_register(old(self).entries(), prog) == spec_register(
                    self.entries(),
                    program_view(rest@),
                ),
            decreases rest@.len(),
        {
            let ghost rv = program_view(rest@);
            proof {
                crate::ast::lemma_funcdefs_view_index(rest@);
                assert(rv[0] == funcdef_view(rest@[0]));
            }
            let f = rest.remove(0);
            proof {
                assert(program_view(rest@) =~= rv.drop_first());
            }
            self.eval_funcdef(f);
        }
        proof {
            assert(program_view(rest@) =~= Seq::<SpecFuncDef>::empty());
        }
    }

    /// Runs a whole program: registers its definitions, then calls `main`
    /// with no arguments — exactly [`spec_apply`] under the budgets
    /// [`MAX_STEPS`] and [`MAX_DEPTH`]. The lines printed before a fatal
    /// error stand beside it in the result.
    pub fn apply(&mut self, ast: Program) -> (r: RunResult)
        ensures
            final(self).entries() == spec_register(old(self).entries(), program_view(ast@)),
            ({
                let (o, err) = spec_apply(
                    old(self).entries(),
                    program_view(ast@),
                    MAX_STEPS as nat,
                    MAX_DEPTH as nat,
                );
                out_view(r.output@) == o && r.error == err
            }),
    {
        self.eval_program(ast);
        let mut out: Vec<std::string::String> = Vec::new();
        proof {
            assert(out_view(out@) =~= Seq::<Seq<char>>::empty());
        }
        match table_get(&self.funcs, "main") {
            None => RunResult { output: out, error: Some(RuntimeError::EntryPointMissing) },
            Some(entry) => {
                let args: Vec<Value> = Vec::new();
                proof {
                    assert(values_view(args@) =~= Seq::<SpecValue>::empty());
                }
                let (_st, res) = eval_call(&self.funcs, entry, args, &mut out, MAX_STEPS, MAX_DEPTH);
                proof {
                    assert(Seq::<Seq<char>>::empty() + spec_call(
                        self.entries(),
                        spec_lookup(self.entries(), "main"@)->Some_0,
                        Seq::empty(),
                        MAX_STEPS as nat,
                        MAX_DEPTH as nat,
                    ).0 =~= spec_call(
                        self.entries(),
                        spec_lookup(self.entries(), "main"@)->Some_0,
                        Seq::empty(),
                        MAX_STEPS as nat,
                        MAX_DEPTH as nat,
                    ).0);
                }
                match res {
                    Ok(_) => RunResult { output: out, error: None },
                    Err(e) => RunResult { output: out, error: Some(e) },
                }
            },
        }
    }
}

} // verus!
