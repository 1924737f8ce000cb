//! The mathematical semantics of the language: a specification-level
//! interpreter over the state model.
//!
//! Every rule of the language — truthiness, operator typing, scope
//! resolution, closure capture, class instantiation and `super` dispatch —
//! is written here as a spec function. The executable evaluator in `interp`
//! is proved to return exactly what these functions say, step for step.
//!
//! Evaluation is bounded by a step budget (`fuel`): every function or
//! constructor call, every loop iteration and every superclass-chain step
//! spends budget, and running out yields the `StepLimit` error. This makes
//! the semantics (and the evaluator) total: every program either finishes,
//! fails with a reported runtime error, or exhausts its budget in finitely
//! many steps.

use vstd::prelude::*;
use crate::ast::{
    exprs_size, expr_size, stmts_size, stmt_size, BinaryOp, Expr, Literal, LogicalOp, Stmt, UnaryOp,
};
use crate::decimal::dec_i64;
use crate::state::{find_field, resolve_bind, BindM, FieldM, StM};
use crate::value::{ClassM, ErrM, FunM, RetM, ValM};

verus! {

/// Truthiness: only the boolean `false` is falsy; every other value
/// (including `0`, the empty string and `nil`) is truthy.
pub open spec fn truthy(v: ValM) -> bool {
    v != ValM::Bool(false)
}

/// Structural equality of the `==` operator: same variant with equal
/// payload for numbers, strings, booleans and `nil`; everything else —
/// including mixed variants — is unequal. There is no implicit coercion.
pub open spec fn val_eq(a: ValM, b: ValM) -> bool {
    match (a, b) {
        (ValM::Number(x), ValM::Number(y)) => x == y,
        (ValM::Str(x), ValM::Str(y)) => x == y,
        (ValM::Bool(x), ValM::Bool(y)) => x == y,
        (ValM::Nil, ValM::Nil) => true,
        _ => false,
    }
}

/// Arithmetic negation, wrapping at the type boundary.
pub open spec fn neg_i64(n: i64) -> i64 {
    if n == i64::MIN {
        i64::MIN
    } else {
        (-n) as i64
    }
}

/// Absolute value of a mathematical integer.
pub open spec fn abs_int(x: int) -> int {
    if x < 0 {
        -x
    } else {
        x
    }
}

/// Division of two numbers (divisor nonzero), truncating toward zero and
/// wrapping at the type boundary (`i64::MIN / -1` yields `i64::MIN`).
pub open spec fn div_i64(a: i64, b: i64) -> i64 {
    let q = abs_int(a as int) / abs_int(b as int);
    if (a < 0) != (b < 0) {
        (-q) as i64
    } else if q == 0x8000_0000_0000_0000 {
        i64::MIN
    } else {
        q as i64
    }
}

/// The result of a binary operator on two evaluated operands.
///
/// Arithmetic needs two numbers (`+` alternatively two strings, which it
/// concatenates); ordering comparisons need two numbers; a wrong operand
/// type is a `TypeError`, and a zero divisor is `DivideByZero` — never a
/// silent default. `==`/`!=` accept any operands and use `val_eq`.
pub open spec fn eval_binop(op: BinaryOp, a: ValM, b: ValM) -> Result<ValM, ErrM> {
    match op {
        BinaryOp::Add => match (a, b) {
            (ValM::Number(x), ValM::Number(y)) => Ok(
                ValM::Number(vstd::wrapping::i64_specs::wrapping_add(x, y)),
            ),
            (ValM::Str(x), ValM::Str(y)) => Ok(ValM::Str(x + y)),
            _ => Err(ErrM::TypeError),
        },
        BinaryOp::Sub => match (a, b) {
            (ValM::Number(x), ValM::Number(y)) => Ok(
                ValM::Number(vstd::wrapping::i64_specs::wrapping_sub(x, y)),
            ),
            _ => Err(ErrM::TypeError),
        },
        BinaryOp::Mul => match (a, b) {
            (ValM::Number(x), ValM::Number(y)) => Ok(
                ValM::Number(vstd::wrapping::i64_specs::wrapping_mul(x, y)),
            ),
            _ => Err(ErrM::TypeError),
        },
        BinaryOp::Div => match (a, b) {
            (ValM::Number(x), ValM::Number(y)) => if y == 0 {
                Err(ErrM::DivideByZero)
            } else {
                Ok(ValM::Number(div_i64(x, y)))
            },
            _ => Err(ErrM::TypeError),
        },
        BinaryOp::Greater => match (a, b) {
            (ValM::Number(x), ValM::Number(y)) => Ok(ValM::Bool(x > y)),
            _ => Err(ErrM::TypeError),
        },
        BinaryOp::GreaterEqual => match (a, b) {
            (ValM::Number(x), ValM::Number(y)) => Ok(ValM::Bool(x >= y)),
            _ => Err(ErrM::TypeError),
        },
        BinaryOp::Less => match (a, b) {
            (ValM::Number(x), ValM::Number(y)) => Ok(ValM::Bool(x < y)),
            _ => Err(ErrM::TypeError),
        },
        BinaryOp::LessEqual => match (a, b) {
            (ValM::Number(x), ValM::Number(y)) => Ok(ValM::Bool(x <= y)),
            _ => Err(ErrM::TypeError),
        },
        BinaryOp::EqualEqual => Ok(ValM::Bool(val_eq(a, b))),
        BinaryOp::BangEqual => Ok(ValM::Bool(!val_eq(a, b))),
    }
}

/// The result of a unary operator.
pub open spec fn eval_unop(op: UnaryOp, v: ValM) -> Result<ValM, ErrM> {
    match op {
        UnaryOp::Neg => match v {
            ValM::Number(n) => Ok(ValM::Number(neg_i64(n))),
            _ => Err(ErrM::TypeError),
        },
        UnaryOp::Not => Ok(ValM::Bool(!truthy(v))),
    }
}

/// The value of a literal.
pub open spec fn lit_val(l: Literal) -> ValM {
    match l {
        Literal::Number(n) => ValM::Number(n),
        Literal::Str(s) => ValM::Str(s@),
        Literal::Bool(b) => ValM::Bool(b),
        Literal::Nil => ValM::Nil,
    }
}

/// How `print` renders a value: numbers in decimal, strings raw, booleans
/// as `true`/`false`, `nil` (and the unassigned marker) as `nil`, and
/// opaque forms for functions, classes and instances.
pub open spec fn fmt_value(v: ValM) -> Seq<char> {
    match v {
        ValM::Number(n) => dec_i64(n),
        ValM::Str(s) => s,
        ValM::Bool(b) => if b {
            "true"@
        } else {
            "false"@
        },
        ValM::Nil => "nil"@,
        ValM::Uninit => "nil"@,
        ValM::Function(_) => "<fn>"@,
        ValM::Classdef(_) => "<class>"@,
        ValM::Instance(_) => "<instance>"@,
    }
}

/// Resolves `name` from frame `env` and requires the result to be a class:
/// an unresolved name is a `NameError`, a non-class value a `TypeError`.
pub open spec fn class_of(st: StM, name: Seq<char>, env: usize) -> Result<ClassM, ErrM> {
    match resolve_bind(st, name, env) {
        Some(i) => match st.binds[i].value {
            ValM::Classdef(c) => Ok(c),
            _ => Err(ErrM::TypeError),
        },
        None => Err(ErrM::NameError(name)),
    }
}

/// Searches instance `inst`'s field table for member `name` along the class
/// chain starting at class `cls`: the cell keyed by the most-derived class
/// wins, then each superclass in turn. Superclass links are found by
/// resolving the class's name from frame `env`. `Ok(None)` means the chain
/// was exhausted without a hit.
pub open spec fn field_chain(
    st: StM,
    inst: usize,
    name: Seq<char>,
    cls: Seq<char>,
    env: usize,
    fuel: nat,
) -> Result<Option<ValM>, ErrM>
    decreases fuel,
{
    match find_field(st.fields, inst, name, cls) {
        Some(i) => Ok(Some(st.fields[i].value)),
        None => match class_of(st, cls, env) {
            Ok(c) => match c.superclass {
                Some(sup) => if fuel == 0 {
                    Err(ErrM::StepLimit)
                } else {
                    field_chain(st, inst, name, sup, env, (fuel - 1) as nat)
                },
                None => Ok(None),
            },
            Err(e) => Err(e),
        },
    }
}

/// Inserts the method declarations of one class level into instance
/// `inst`'s field table, keyed by the owning class `owner`; each method
/// becomes a closure over frame `env`, bound to `inst`, with `owner` as its
/// defining class. Non-function statements are skipped.
pub open spec fn insert_methods(
    st: StM,
    methods: Seq<Stmt>,
    inst: usize,
    owner: Seq<char>,
    env: usize,
) -> StM
    decreases methods.len(),
{
    if methods.len() == 0 {
        st
    } else {
        let st1 = match methods[0] {
            Stmt::Function { name, params, body } => StM {
                fields: st.fields.push(
                    FieldM {
                        inst,
                        name: name@,
                        owner,
                        value: ValM::Function(
                            FunM {
                                params: params.deep_view(),
                                body: body@,
                                frame: env,
                                receiver: Some(inst),
                                class_def: Some(owner),
                            },
                        ),
                    },
                ),
                ..st
            },
            _ => st,
        };
        insert_methods(st1, methods.drop_first(), inst, owner, env)
    }
}

/// A state together with a success-or-error outcome.
#[verifier::ext_equal]
pub struct StOut {
    pub st: StM,
    pub res: Result<(), ErrM>,
}

/// Materializes the methods of the class named `cls` and of its whole
/// superclass chain into instance `inst`'s field table, most-derived level
/// first. Each chain step resolves the class name from frame `env` and
/// spends one unit of budget.
pub open spec fn materialize(st: StM, cls: Seq<char>, inst: usize, env: usize, fuel: nat) -> StOut
    decreases fuel,
{
    match class_of(st, cls, env) {
        Err(e) => StOut { st, res: Err(e) },
        Ok(c) => {
            let st1 = insert_methods(st, c.methods, inst, cls, env);
            match c.superclass {
                None => StOut { st: st1, res: Ok(()) },
                Some(sup) => if fuel == 0 {
                    StOut { st: st1, res: Err(ErrM::StepLimit) }
                } else {
                    materialize(st1, sup, inst, env, (fuel - 1) as nat)
                },
            }
        },
    }
}

/// Pushes one binding per formal parameter into the fresh call frame,
/// left to right. The caller has already checked the two lists are of
/// equal length.
pub open spec fn bind_args(st: StM, params: Seq<Seq<char>>, args: Seq<ValM>, frame: usize) -> StM
    decreases params.len(),
{
    if params.len() == 0 {
        st
    } else {
        let st1 = StM {
            binds: st.binds.push(BindM { name: params[0], frame, value: args[0] }),
            ..st
        };
        bind_args(st1, params.drop_first(), args.drop_first(), frame)
    }
}

/// The `Normal` statement signal.
pub open spec fn normal() -> RetM {
    RetM { exit: false, value: ValM::Nil }
}

/// A state together with an expression outcome.
#[verifier::ext_equal]
pub struct ExprOut {
    pub st: StM,
    pub res: Result<ValM, ErrM>,
}

/// A state together with a statement outcome.
#[verifier::ext_equal]
pub struct StmtOut {
    pub st: StM,
    pub res: Result<RetM, ErrM>,
}

/// A state together with an argument-list outcome.
#[verifier::ext_equal]
pub struct ValsOut {
    pub st: StM,
    pub res: Result<Seq<ValM>, ErrM>,
}

/// Declares a class binding: the class value records its name, its
/// superclass's name, and its unevaluated method declarations.
pub open spec fn class_decl(
    st: StM,
    name: Seq<char>,
    superclass: Option<Seq<char>>,
    methods: Seq<Stmt>,
    env: usize,
) -> StmtOut {
    StmtOut {
        st: StM {
            binds: st.binds.push(
                BindM {
                    name,
                    frame: env,
                    value: ValM::Classdef(ClassM { name, superclass, methods }),
                },
            ),
            ..st
        },
        res: Ok(normal()),
    }
}

/// Evaluates an expression in state `st`, in frame `env`, with receiver
/// `obj` and defining class `cls` as the implicit method context.
pub open spec fn spec_expr(
    st: StM,
    e: Expr,
    env: usize,
    obj: Option<usize>,
    cls: Option<Seq<char>>,
    fuel: nat,
) -> ExprOut
    decreases fuel, expr_size(e),
{
    match e {
        Expr::Literal(l) => ExprOut { st, res: Ok(lit_val(l)) },
        Expr::Variable(x) => match resolve_bind(st, x@, env) {
            Some(i) => ExprOut { st, res: Ok(st.binds[i].value) },
            None => ExprOut { st, res: Err(ErrM::NameError(x@)) },
        },
        Expr::Assign { name, value } => {
            let o = spec_expr(st, *value, env, obj, cls, fuel);
            match o.res {
                Err(er) => ExprOut { st: o.st, res: Err(er) },
                Ok(v) => match resolve_bind(o.st, name@, env) {
                    Some(i) => ExprOut {
                        st: StM {
                            binds: o.st.binds.update(i, BindM { value: v, ..o.st.binds[i] }),
                            ..o.st
                        },
                        res: Ok(v),
                    },
                    None => ExprOut { st: o.st, res: Err(ErrM::NameError(name@)) },
                },
            }
        },
        Expr::Logical { op, left, right } => {
            let o = spec_expr(st, *left, env, obj, cls, fuel);
            match o.res {
                Err(er) => ExprOut { st: o.st, res: Err(er) },
                Ok(v) => match op {
                    LogicalOp::And => if !truthy(v) {
                        ExprOut { st: o.st, res: Ok(v) }
                    } else {
                        spec_expr(o.st, *right, env, obj, cls, fuel)
                    },
                    LogicalOp::Or => if truthy(v) {
                        ExprOut { st: o.st, res: Ok(v) }
                    } else {
                        spec_expr(o.st, *right, env, obj, cls, fuel)
                    },
                },
            }
        },
        Expr::Binary { op, left, right } => {
            let o1 = spec_expr(st, *left, env, obj, cls, fuel);
            match o1.res {
                Err(er) => ExprOut { st: o1.st, res: Err(er) },
                Ok(a) => {
                    let o2 = spec_expr(o1.st, *right, env, obj, cls, fuel);
                    match o2.res {
                        Err(er) => ExprOut { st: o2.st, res: Err(er) },
                        Ok(b) => ExprOut { st: o2.st, res: eval_binop(op, a, b) },
                    }
                },
            }
        },
        Expr::Unary { op, right } => {
            let o = spec_expr(st, *right, env, obj, cls, fuel);
            match o.res {
                Err(er) => ExprOut { st: o.st, res: Err(er) },
                Ok(v) => ExprOut { st: o.st, res: eval_unop(op, v) },
            }
        },
        Expr::Call { callee, arguments } => {
            let o = spec_expr(st, *callee, env, obj, cls, fuel);
            match o.res {
                Err(er) => ExprOut { st: o.st, res: Err(er) },
                Ok(f) => {
                    let ao = spec_exprs(o.st, arguments@, env, obj, cls, fuel);
                    match ao.res {
                        Err(er) => ExprOut { st: ao.st, res: Err(er) },
                        Ok(vs) => match f {
                            ValM::Function(fm) => if fuel == 0 {
                                ExprOut { st: ao.st, res: Err(ErrM::StepLimit) }
                            } else {
                                spec_call(ao.st, fm, vs, (fuel - 1) as nat)
                            },
                            ValM::Classdef(cm) => if fuel == 0 {
                                ExprOut { st: ao.st, res: Err(ErrM::StepLimit) }
                            } else {
                                spec_instantiate(ao.st, cm, vs, env, (fuel - 1) as nat)
                            },
                            _ => ExprOut { st: ao.st, res: Err(ErrM::TypeError) },
                        },
                    }
                },
            }
        },
        Expr::Get { object, name } => {
            let o = spec_expr(st, *object, env, obj, cls, fuel);
            match o.res {
                Err(er) => ExprOut { st: o.st, res: Err(er) },
                Ok(v) => match v {
                    ValM::Instance(i) => match field_chain(
                        o.st,
                        i,
                        name@,
                        o.st.inst_class[i as int],
                        env,
                        fuel,
                    ) {
                        Ok(Some(val)) => ExprOut { st: o.st, res: Ok(val) },
                        Ok(None) => ExprOut { st: o.st, res: Err(ErrM::FieldError(name@)) },
                        Err(er) => ExprOut { st: o.st, res: Err(er) },
                    },
                    _ => ExprOut { st: o.st, res: Err(ErrM::TypeError) },
                },
            }
        },
        Expr::SetField { object, name, value } => {
            let o1 = spec_expr(st, *object, env, obj, cls, fuel);
            match o1.res {
                Err(er) => ExprOut { st: o1.st, res: Err(er) },
                Ok(ov) => {
                    let o2 = spec_expr(o1.st, *value, env, obj, cls, fuel);
                    match o2.res {
                        Err(er) => ExprOut { st: o2.st, res: Err(er) },
                        Ok(v) => match ov {
                            ValM::Instance(i) => ExprOut {
                                st: StM {
                                    fields: o2.st.fields.push(
                                        FieldM {
                                            inst: i,
                                            name: name@,
                                            owner: o2.st.inst_class[i as int],
                                            value: v,
                                        },
                                    ),
                                    ..o2.st
                                },
                                res: Ok(v),
                            },
                            _ => ExprOut { st: o2.st, res: Err(ErrM::TypeError) },
                        },
                    }
                },
            }
        },
        Expr::This => match obj {
            Some(i) => ExprOut { st, res: Ok(ValM::Instance(i)) },
            None => ExprOut { st, res: Err(ErrM::NameError("this"@)) },
        },
        Expr::Super { method } => match cls {
            None => ExprOut { st, res: Err(ErrM::NameError("super"@)) },
            Some(cname) => match class_of(st, cname, env) {
                Err(er) => ExprOut { st, res: Err(er) },
                Ok(c) => match c.superclass {
                    None => ExprOut { st, res: Err(ErrM::TypeError) },
                    Some(sup) => match obj {
                        None => ExprOut { st, res: Err(ErrM::NameError("this"@)) },
                        Some(i) => match field_chain(st, i, method@, sup, env, fuel) {
                            Ok(Some(val)) => ExprOut { st, res: Ok(val) },
                            Ok(None) => ExprOut { st, res: Err(ErrM::FieldError(method@)) },
                            Err(er) => ExprOut { st, res: Err(er) },
                        },
                    },
                },
            },
        },
        Expr::Grouping(inner) => spec_expr(st, *inner, env, obj, cls, fuel),
    }
}

/// Evaluates a list of expressions left to right, threading the state.
pub open spec fn spec_exprs(
    st: StM,
    es: Seq<Expr>,
    env: usize,
    obj: Option<usize>,
    cls: Option<Seq<char>>,
    fuel: nat,
) -> ValsOut
    decreases fuel, exprs_size(es),
{
    if es.len() == 0 {
        ValsOut { st, res: Ok(Seq::empty()) }
    } else {
        let o = spec_expr(st, es[0], env, obj, cls, fuel);
        match o.res {
            Err(er) => ValsOut { st: o.st, res: Err(er) },
            Ok(v) => {
                let rest = spec_exprs(o.st, es.drop_first(), env, obj, cls, fuel);
                match rest.res {
                    Err(er) => ValsOut { st: rest.st, res: Err(er) },
                    Ok(vs) => ValsOut { st: rest.st, res: Ok(seq![v] + vs) },
                }
            },
        }
    }
}

/// Calls a function closure: checks arity, opens a fresh frame whose parent
/// is the frame the closure captured at its definition (lexical scoping),
/// binds the parameters there, and runs the body with the closure's
/// receiver and defining class as context. A `return` value is unwrapped;
/// falling off the end yields `Nil`.
pub open spec fn spec_call(st: StM, fm: FunM, args: Seq<ValM>, fuel: nat) -> ExprOut
    decreases fuel, stmts_size(fm.body) + 1,
{
    if fm.params.len() != args.len() {
        ExprOut {
            st,
            res: Err(
                ErrM::ArityError {
                    expected: fm.params.len() as usize,
                    got: args.len() as usize,
                },
            ),
        }
    } else {
        let frame = st.parents.len() as usize;
        let st1 = StM { parents: st.parents.push(Some(fm.frame)), ..st };
        let st2 = bind_args(st1, fm.params, args, frame);
        let o = spec_stmts(st2, fm.body, frame, fm.receiver, fm.class_def, fuel);
        match o.res {
            Err(er) => ExprOut { st: o.st, res: Err(er) },
            Ok(r) => ExprOut {
                st: o.st,
                res: Ok(
                    if r.exit {
                        r.value
                    } else {
                        ValM::Nil
                    },
                ),
            },
        }
    }
}

/// Instantiates a class: allocates the instance, materializes the method
/// declarations of the class and its whole superclass chain (most-derived
/// level first), then searches the chain for an `init` method. If one
/// exists it is called with the constructor's arguments and its return
/// value is discarded; if none exists the arguments must be empty. The
/// constructor expression always yields the new instance.
pub open spec fn spec_instantiate(
    st: StM,
    cm: ClassM,
    args: Seq<ValM>,
    env: usize,
    fuel: nat,
) -> ExprOut
    decreases fuel, 0nat,
{
    let inst = st.inst_class.len() as usize;
    let st1 = StM { inst_class: st.inst_class.push(cm.name), ..st };
    let st2 = insert_methods(st1, cm.methods, inst, cm.name, env);
    let mo = match cm.superclass {
        None => StOut { st: st2, res: Ok(()) },
        Some(sup) => if fuel == 0 {
            StOut { st: st2, res: Err(ErrM::StepLimit) }
        } else {
            materialize(st2, sup, inst, env, (fuel - 1) as nat)
        },
    };
    match mo.res {
        Err(er) => ExprOut { st: mo.st, res: Err(er) },
        Ok(_) => {
            let st3 = mo.st;
            match field_chain(st3, inst, "init"@, cm.name, env, fuel) {
                Err(er) => ExprOut { st: st3, res: Err(er) },
                Ok(Some(v)) => match v {
                    ValM::Function(fm) => if fuel == 0 {
                        ExprOut { st: st3, res: Err(ErrM::StepLimit) }
                    } else {
                        let co = spec_call(st3, fm, args, (fuel - 1) as nat);
                        match co.res {
                            Err(er) => ExprOut { st: co.st, res: Err(er) },
                            Ok(_) => ExprOut { st: co.st, res: Ok(ValM::Instance(inst)) },
                        }
                    },
                    _ => ExprOut { st: st3, res: Err(ErrM::TypeError) },
                },
                Ok(None) => if args.len() != 0 {
                    ExprOut {
                        st: st3,
                        res: Err(ErrM::ArityError { expected: 0, got: args.len() as usize }),
                    }
                } else {
                    ExprOut { st: st3, res: Ok(ValM::Instance(inst)) }
                },
            }
        },
    }
}

/// Executes one statement.
pub open spec fn spec_stmt(
    st: StM,
    s: Stmt,
    env: usize,
    obj: Option<usize>,
    cls: Option<Seq<char>>,
    fuel: nat,
) -> StmtOut
    decreases fuel, stmt_size(s),
{
    match s {
        Stmt::Expr(e) => {
            let o = spec_expr(st, e, env, obj, cls, fuel);
            match o.res {
                Err(er) => StmtOut { st: o.st, res: Err(er) },
                Ok(_) => StmtOut { st: o.st, res: Ok(normal()) },
            }
        },
        Stmt::Print(e) => {
            let o = spec_expr(st, e, env, obj, cls, fuel);
            match o.res {
                Err(er) => StmtOut { st: o.st, res: Err(er) },
                Ok(v) => StmtOut {
                    st: StM { output: o.st.output.push(fmt_value(v)), ..o.st },
                    res: Ok(normal()),
                },
            }
        },
        Stmt::Var { name, initializer } => match initializer {
            Some(e) => {
                let o = spec_expr(st, e, env, obj, cls, fuel);
                match o.res {
                    Err(er) => StmtOut { st: o.st, res: Err(er) },
                    Ok(v) => StmtOut {
                        st: StM {
                            binds: o.st.binds.push(BindM { name: name@, frame: env, value: v }),
                            ..o.st
                        },
                        res: Ok(normal()),
                    },
                }
            },
            None => StmtOut {
                st: StM {
                    binds: st.binds.push(BindM { name: name@, frame: env, value: ValM::Nil }),
                    ..st
                },
                res: Ok(normal()),
            },
        },
        Stmt::Block(v) => {
            let frame = st.parents.len() as usize;
            let st1 = StM { parents: st.parents.push(Some(env)), ..st };
            spec_stmts(st1, v@, frame, obj, cls, fuel)
        },
        Stmt::If { condition, then_branch, else_branch } => {
            let o = spec_expr(st, condition, env, obj, cls, fuel);
            match o.res {
                Err(er) => StmtOut { st: o.st, res: Err(er) },
                Ok(c) => if truthy(c) {
                    spec_stmt(o.st, *then_branch, env, obj, cls, fuel)
                } else {
                    match else_branch {
                        Some(b) => spec_stmt(o.st, *b, env, obj, cls, fuel),
                        None => StmtOut { st: o.st, res: Ok(normal()) },
                    }
                },
            }
        },
        Stmt::While { condition, body } => {
            let o = spec_expr(st, condition, env, obj, cls, fuel);
            match o.res {
                Err(er) => StmtOut { st: o.st, res: Err(er) },
                Ok(c) => if !truthy(c) {
                    StmtOut { st: o.st, res: Ok(normal()) }
                } else {
                    let bo = spec_stmt(o.st, *body, env, obj, cls, fuel);
                    match bo.res {
                        Err(er) => StmtOut { st: bo.st, res: Err(er) },
                        Ok(r) => if r.exit {
                            bo
                        } else if fuel == 0 {
                            StmtOut { st: bo.st, res: Err(ErrM::StepLimit) }
                        } else {
                            spec_stmt(bo.st, s, env, obj, cls, (fuel - 1) as nat)
                        },
                    }
                },
            }
        },
        Stmt::Function { name, params, body } => {
            let fv = ValM::Function(
                FunM {
                    params: params.deep_view(),
                    body: body@,
                    frame: env,
                    receiver: obj,
                    class_def: cls,
                },
            );
            let st1 = StM {
                binds: st.binds.push(BindM { name: name@, frame: env, value: fv }),
                ..st
            };
            let st2 = match (obj, cls) {
                (Some(i), Some(c)) => StM {
                    fields: st1.fields.push(FieldM { inst: i, name: name@, owner: c, value: fv }),
                    ..st1
                },
                _ => st1,
            };
            StmtOut { st: st2, res: Ok(normal()) }
        },
        Stmt::Return { value } => match value {
            Some(e) => {
                let o = spec_expr(st, e, env, obj, cls, fuel);
                match o.res {
                    Err(er) => StmtOut { st: o.st, res: Err(er) },
                    Ok(v) => StmtOut { st: o.st, res: Ok(RetM { exit: true, value: v }) },
                }
            },
            None => StmtOut { st, res: Ok(RetM { exit: true, value: ValM::Uninit }) },
        },
        Stmt::Class { name, superclass, methods } => match superclass {
            Some(sname) => match resolve_bind(st, sname@, env) {
                None => StmtOut { st, res: Err(ErrM::NameError(sname@)) },
                Some(i) => match st.binds[i].value {
                    ValM::Classdef(_) => class_decl(
                        st,
                        name@,
                        Some(sname@),
                        methods@,
                        env,
                    ),
                    _ => StmtOut { st, res: Err(ErrM::TypeError) },
                },
            },
            None => class_decl(st, name@, None, methods@, env),
        },
    }
}

/// Executes a list of statements in order, stopping as soon as one signals
/// a `return` or fails.
pub open spec fn spec_stmts(
    st: StM,
    ss: Seq<Stmt>,
    env: usize,
    obj: Option<usize>,
    cls: Option<Seq<char>>,
    fuel: nat,
) -> StmtOut
    decreases fuel, stmts_size(ss),
{
    if ss.len() == 0 {
        StmtOut { st, res: Ok(normal()) }
    } else {
        let o = spec_stmt(st, ss[0], env, obj, cls, fuel);
        match o.res {
            Err(er) => o,
            Ok(r) => if r.exit {
                o
            } else {
                spec_stmts(o.st, ss.drop_first(), env, obj, cls, fuel)
            },
        }
    }
}

/// The initial state: one empty global frame.
pub open spec fn init_st() -> StM {
    StM {
        parents: seq![None],
        binds: Seq::empty(),
        inst_class: Seq::empty(),
        fields: Seq::empty(),
        output: Seq::empty(),
    }
}

/// The meaning of a whole program under a step budget: run its statements
/// in the global frame with no receiver and no defining class.
pub open spec fn spec_program(prog: Seq<Stmt>, fuel: nat) -> StmtOut {
    spec_stmts(init_st(), prog, 0, None, None, fuel)
}

} // verus!
