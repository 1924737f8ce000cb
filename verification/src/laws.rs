//! Laws of the evaluation rules, stated and proved over the semantics.

use vstd::prelude::*;
use crate::ast::{exprs_size, expr_size, stmts_size, stmt_size, BinaryOp, Expr, Stmt};
use crate::semantics::{
    class_of, eval_binop, field_chain, materialize, spec_call, spec_expr, spec_exprs,
    spec_instantiate, spec_stmt, spec_stmts, truthy, val_eq, ExprOut,
};
use crate::state::{find_field, FieldM, StM};
use crate::value::{ClassM, ErrM, FunM, ValM};

verus! {

/// The truthiness rule, pinned down: only the boolean `false` is falsy;
/// every other value — the number zero, the empty string, `nil` and the
/// unassigned marker included — is truthy.
pub proof fn lemma_truthiness(v: ValM)
    ensures
        truthy(v) <==> v != ValM::Bool(false),
        truthy(ValM::Number(0)),
        truthy(ValM::Str(Seq::empty())),
        truthy(ValM::Nil),
        truthy(ValM::Uninit),
        !truthy(ValM::Bool(false)),
{
}

/// Arithmetic failures are reported errors, never silent defaults: on a
/// division, a zero divisor under a number is exactly what reports
/// `DivideByZero`; and `-`, `*`, `/` succeed only on two numbers, `+` only
/// on two numbers or two strings, and an ordering comparison only on two
/// numbers — anything else reports `TypeError`.
pub proof fn lemma_arith_errors(op: BinaryOp, a: ValM, b: ValM)
    ensures
        eval_binop(BinaryOp::Div, a, b) == Err::<ValM, ErrM>(ErrM::DivideByZero) <==> (a matches
            ValM::Number(_) && b == ValM::Number(0)),
        (op == BinaryOp::Sub || op == BinaryOp::Mul || op == BinaryOp::Div) ==> (eval_binop(
            op,
            a,
            b,
        ) is Ok <==> (a matches ValM::Number(_) && b matches ValM::Number(n) && (op
            != BinaryOp::Div || n != 0))),
        op == BinaryOp::Add ==> (eval_binop(op, a, b) is Ok <==> ((a matches ValM::Number(_)
            && b matches ValM::Number(_)) || (a matches ValM::Str(_) && b matches ValM::Str(_)))),
        (op == BinaryOp::Greater || op == BinaryOp::GreaterEqual || op == BinaryOp::Less || op
            == BinaryOp::LessEqual) ==> (eval_binop(op, a, b) is Ok <==> (a matches ValM::Number(_)
            && b matches ValM::Number(_))),
        (op == BinaryOp::EqualEqual || op == BinaryOp::BangEqual) ==> eval_binop(op, a, b) is Ok,
{
}

/// Equality compares structurally within one variant and never coerces:
/// values of different variants are never equal, and `!=` is its exact
/// negation.
pub proof fn lemma_equality(a: ValM, b: ValM)
    ensures
        eval_binop(BinaryOp::EqualEqual, a, b) == Ok::<ValM, ErrM>(ValM::Bool(val_eq(a, b))),
        eval_binop(BinaryOp::BangEqual, a, b) == Ok::<ValM, ErrM>(ValM::Bool(!val_eq(a, b))),
        val_eq(a, b) ==> val_eq(b, a),
        (a matches ValM::Number(_) && !(b matches ValM::Number(_))) ==> !val_eq(a, b),
{
}

/// The step budget only cuts evaluation off, it never alters it: the
/// following lemmas say that any outcome other than `StepLimit` is the
/// same under every larger budget. So a program that finishes — normally
/// or with a reported runtime error — has that one meaning, independent of
/// the budget it ran under.
pub proof fn lemma_field_chain_fuel(
    st: StM,
    inst: usize,
    name: Seq<char>,
    cls: Seq<char>,
    env: usize,
    f1: nat,
    f2: nat,
)
    requires
        f1 <= f2,
        !(field_chain(st, inst, name, cls, env, f1) matches Err(ErrM::StepLimit)),
    ensures
        field_chain(st, inst, name, cls, env, f2) == field_chain(st, inst, name, cls, env, f1),
    decreases f1,
{
    if crate::state::find_field(st.fields, inst, name, cls) is None {
        match crate::semantics::class_of(st, cls, env) {
            Ok(c) => {
                match c.superclass {
                    Some(sup) => {
                        lemma_field_chain_fuel(
                            st,
                            inst,
                            name,
                            sup,
                            env,
                            (f1 - 1) as nat,
                            (f2 - 1) as nat,
                        );
                    },
                    None => {},
                }
            },
            Err(_) => {},
        }
    }
}

/// Method materialization under a larger budget: same states, same
/// outcome, unless the smaller budget was the failure.
pub proof fn lemma_materialize_fuel(
    st: StM,
    cls: Seq<char>,
    inst: usize,
    env: usize,
    f1: nat,
    f2: nat,
)
    requires
        f1 <= f2,
        !(materialize(st, cls, inst, env, f1).res matches Err(ErrM::StepLimit)),
    ensures
        materialize(st, cls, inst, env, f2) == materialize(st, cls, inst, env, f1),
    decreases f1,
{
    match crate::semantics::class_of(st, cls, env) {
        Ok(c) => {
            let st1 = crate::semantics::insert_methods(st, c.methods, inst, cls, env);
            match c.superclass {
                Some(sup) => {
                    lemma_materialize_fuel(st1, sup, inst, env, (f1 - 1) as nat, (f2 - 1) as nat);
                },
                None => {},
            }
        },
        Err(_) => {},
    }
}

/// Expression evaluation is budget-independent below the cutoff.
pub proof fn lemma_expr_fuel(
    st: StM,
    e: Expr,
    env: usize,
    obj: Option<usize>,
    cls: Option<Seq<char>>,
    f1: nat,
    f2: nat,
)
    requires
        f1 <= f2,
        !(spec_expr(st, e, env, obj, cls, f1).res matches Err(ErrM::StepLimit)),
    ensures
        spec_expr(st, e, env, obj, cls, f2) == spec_expr(st, e, env, obj, cls, f1),
    decreases f1, expr_size(e),
{
    match e {
        Expr::Literal(_) => {},
        Expr::Variable(_) => {},
        Expr::Assign { name, value } => {
            lemma_expr_fuel(st, *value, env, obj, cls, f1, f2);
        },
        Expr::Logical { op, left, right } => {
            lemma_expr_fuel(st, *left, env, obj, cls, f1, f2);
            let o = spec_expr(st, *left, env, obj, cls, f1);
            match o.res {
                Ok(v) => {
                    let takes_right = match op {
                        crate::ast::LogicalOp::And => truthy(v),
                        crate::ast::LogicalOp::Or => !truthy(v),
                    };
                    if takes_right {
                        lemma_expr_fuel(o.st, *right, env, obj, cls, f1, f2);
                    }
                },
                Err(_) => {},
            }
        },
        Expr::Binary { op, left, right } => {
            lemma_expr_fuel(st, *left, env, obj, cls, f1, f2);
            let o1 = spec_expr(st, *left, env, obj, cls, f1);
            match o1.res {
                Ok(_) => {
                    lemma_expr_fuel(o1.st, *right, env, obj, cls, f1, f2);
                },
                Err(_) => {},
            }
        },
        Expr::Unary { op, right } => {
            lemma_expr_fuel(st, *right, env, obj, cls, f1, f2);
        },
        Expr::Call { callee, arguments } => {
            lemma_expr_fuel(st, *callee, env, obj, cls, f1, f2);
            let o = spec_expr(st, *callee, env, obj, cls, f1);
            match o.res {
                Ok(f) => {
                    lemma_exprs_fuel(o.st, arguments@, env, obj, cls, f1, f2);
                    let ao = spec_exprs(o.st, arguments@, env, obj, cls, f1);
                    match ao.res {
                        Ok(vs) => {
                            if f1 > 0 {
                                match f {
                                    ValM::Function(fm) => {
                                        lemma_call_fuel(
                                            ao.st,
                                            fm,
                                            vs,
                                            (f1 - 1) as nat,
                                            (f2 - 1) as nat,
                                        );
                                    },
                                    ValM::Classdef(cm) => {
                                        lemma_instantiate_fuel(
                                            ao.st,
                                            cm,
                                            vs,
                                            env,
                                            (f1 - 1) as nat,
                                            (f2 - 1) as nat,
                                        );
                                    },
                                    _ => {},
                                }
                            }
                        },
                        Err(_) => {},
                    }
                },
                Err(_) => {},
            }
        },
        Expr::Get { object, name } => {
            lemma_expr_fuel(st, *object, env, obj, cls, f1, f2);
            let o = spec_expr(st, *object, env, obj, cls, f1);
            match o.res {
                Ok(v) => {
                    match v {
                        ValM::Instance(i) => {
                            lemma_field_chain_fuel(
                                o.st,
                                i,
                                name@,
                                o.st.inst_class[i as int],
                                env,
                                f1,
                                f2,
                            );
                        },
                        _ => {},
                    }
                },
                Err(_) => {},
            }
        },
        Expr::SetField { object, name, value } => {
            lemma_expr_fuel(st, *object, env, obj, cls, f1, f2);
            let o1 = spec_expr(st, *object, env, obj, cls, f1);
            match o1.res {
                Ok(_) => {
                    lemma_expr_fuel(o1.st, *value, env, obj, cls, f1, f2);
                },
                Err(_) => {},
            }
        },
        Expr::This => {},
        Expr::Super { method } => {
            match cls {
                Some(cname) => {
                    match crate::semantics::class_of(st, cname, env) {
                        Ok(c) => {
                            match c.superclass {
                                Some(sup) => {
                                    match obj {
                                        Some(i) => {
                                            lemma_field_chain_fuel(
                                                st,
                                                i,
                                                method@,
                                                sup,
                                                env,
                                                f1,
                                                f2,
                                            );
                                        },
                                        None => {},
                                    }
                                },
                                None => {},
                            }
                        },
                        Err(_) => {},
                    }
                },
                None => {},
            }
        },
        Expr::Grouping(inner) => {
            lemma_expr_fuel(st, *inner, env, obj, cls, f1, f2);
        },
    }
}

/// Argument-list evaluation is budget-independent below the cutoff.
pub proof fn lemma_exprs_fuel(
    st: StM,
    es: Seq<Expr>,
    env: usize,
    obj: Option<usize>,
    cls: Option<Seq<char>>,
    f1: nat,
    f2: nat,
)
    requires
        f1 <= f2,
        !(spec_exprs(st, es, env, obj, cls, f1).res matches Err(ErrM::StepLimit)),
    ensures
        spec_exprs(st, es, env, obj, cls, f2) == spec_exprs(st, es, env, obj, cls, f1),
    decreases f1, exprs_size(es),
{
    if es.len() > 0 {
        lemma_expr_fuel(st, es[0], env, obj, cls, f1, f2);
        let o = spec_expr(st, es[0], env, obj, cls, f1);
        match o.res {
            Ok(_) => {
                lemma_exprs_fuel(o.st, es.drop_first(), env, obj, cls, f1, f2);
            },
            Err(_) => {},
        }
    }
}

/// Function calls are budget-independent below the cutoff.
pub proof fn lemma_call_fuel(st: StM, fm: FunM, args: Seq<ValM>, f1: nat, f2: nat)
    requires
        f1 <= f2,
        !(spec_call(st, fm, args, f1).res matches Err(ErrM::StepLimit)),
    ensures
        spec_call(st, fm, args, f2) == spec_call(st, fm, args, f1),
    decreases f1, stmts_size(fm.body) + 1,
{
    if fm.params.len() == args.len() {
        let frame = st.parents.len() as usize;
        let st1 = StM { parents: st.parents.push(Some(fm.frame)), ..st };
        let st2 = crate::semantics::bind_args(st1, fm.params, args, frame);
        lemma_stmts_fuel(st2, fm.body, frame, fm.receiver, fm.class_def, f1, f2);
    }
}

/// Class instantiation is budget-independent below the cutoff.
#[verifier::rlimit(100)]
pub proof fn lemma_instantiate_fuel(
    st: StM,
    cm: ClassM,
    args: Seq<ValM>,
    env: usize,
    f1: nat,
    f2: nat,
)
    requires
        f1 <= f2,
        !(spec_instantiate(st, cm, args, env, f1).res matches Err(ErrM::StepLimit)),
    ensures
        spec_instantiate(st, cm, args, env, f2) == spec_instantiate(st, cm, args, env, f1),
    decreases f1, 0nat,
{
    let inst = st.inst_class.len() as usize;
    let st1 = StM { inst_class: st.inst_class.push(cm.name), ..st };
    let st2 = crate::semantics::insert_methods(st1, cm.methods, inst, cm.name, env);
    match cm.superclass {
        Some(sup) => {
            if f1 > 0 && !(materialize(st2, sup, inst, env, (f1 - 1) as nat).res matches Err(
                ErrM::StepLimit,
            )) {
                lemma_materialize_fuel(st2, sup, inst, env, (f1 - 1) as nat, (f2 - 1) as nat);
            }
        },
        None => {},
    }
    let mo = match cm.superclass {
        None => crate::semantics::StOut { st: st2, res: Ok(()) },
        Some(sup) => if f1 == 0 {
            crate::semantics::StOut { st: st2, res: Err(ErrM::StepLimit) }
        } else {
            materialize(st2, sup, inst, env, (f1 - 1) as nat)
        },
    };
    match mo.res {
        Ok(_) => {
            let st3 = mo.st;
            lemma_field_chain_fuel(st3, inst, "init"@, cm.name, env, f1, f2);
            match field_chain(st3, inst, "init"@, cm.name, env, f1) {
                Ok(Some(v)) => {
                    match v {
                        ValM::Function(fm) => {
                            if f1 > 0 {
                                lemma_call_fuel(st3, fm, args, (f1 - 1) as nat, (f2 - 1) as nat);
                            }
                        },
                        _ => {},
                    }
                },
                _ => {},
            }
        },
        Err(_) => {},
    }
}

/// Statement execution is budget-independent below the cutoff.
pub proof fn lemma_stmt_fuel(
    st: StM,
    s: Stmt,
    env: usize,
    obj: Option<usize>,
    cls: Option<Seq<char>>,
    f1: nat,
    f2: nat,
)
    requires
        f1 <= f2,
        !(spec_stmt(st, s, env, obj, cls, f1).res matches Err(ErrM::StepLimit)),
    ensures
        spec_stmt(st, s, env, obj, cls, f2) == spec_stmt(st, s, env, obj, cls, f1),
    decreases f1, stmt_size(s),
{
    match s {
        Stmt::Expr(e) => {
            lemma_expr_fuel(st, e, env, obj, cls, f1, f2);
        },
        Stmt::Print(e) => {
            lemma_expr_fuel(st, e, env, obj, cls, f1, f2);
        },
        Stmt::Var { name, initializer } => {
            match initializer {
                Some(e) => {
                    lemma_expr_fuel(st, e, env, obj, cls, f1, f2);
                },
                None => {},
            }
        },
        Stmt::Block(v) => {
            let frame = st.parents.len() as usize;
            let st1 = StM { parents: st.parents.push(Some(env)), ..st };
            lemma_stmts_fuel(st1, v@, frame, obj, cls, f1, f2);
        },
        Stmt::If { condition, then_branch, else_branch } => {
            lemma_expr_fuel(st, condition, env, obj, cls, f1, f2);
            let o = spec_expr(st, condition, env, obj, cls, f1);
            match o.res {
                Ok(c) => {
                    if truthy(c) {
                        lemma_stmt_fuel(o.st, *then_branch, env, obj, cls, f1, f2);
                    } else {
                        match else_branch {
                            Some(b) => {
                                lemma_stmt_fuel(o.st, *b, env, obj, cls, f1, f2);
                            },
                            None => {},
                        }
                    }
                },
                Err(_) => {},
            }
        },
        Stmt::While { condition, body } => {
            lemma_expr_fuel(st, condition, env, obj, cls, f1, f2);
            let o = spec_expr(st, condition, env, obj, cls, f1);
            match o.res {
                Ok(c) => {
                    if truthy(c) {
                        lemma_stmt_fuel(o.st, *body, env, obj, cls, f1, f2);
                        let bo = spec_stmt(o.st, *body, env, obj, cls, f1);
                        match bo.res {
                            Ok(r) => {
                                if !r.exit && f1 > 0 {
                                    lemma_stmt_fuel(
                                        bo.st,
                                        s,
                                        env,
                                        obj,
                                        cls,
                                        (f1 - 1) as nat,
                                        (f2 - 1) as nat,
                                    );
                                }
                            },
                            Err(_) => {},
                        }
                    }
                },
                Err(_) => {},
            }
        },
        Stmt::Function { .. } => {},
        Stmt::Return { value } => {
            match value {
                Some(e) => {
                    lemma_expr_fuel(st, e, env, obj, cls, f1, f2);
                },
                None => {},
            }
        },
        Stmt::Class { .. } => {},
    }
}

/// Statement-list execution is budget-independent below the cutoff.
pub proof fn lemma_stmts_fuel(
    st: StM,
    ss: Seq<Stmt>,
    env: usize,
    obj: Option<usize>,
    cls: Option<Seq<char>>,
    f1: nat,
    f2: nat,
)
    requires
        f1 <= f2,
        !(spec_stmts(st, ss, env, obj, cls, f1).res matches Err(ErrM::StepLimit)),
    ensures
        spec_stmts(st, ss, env, obj, cls, f2) == spec_stmts(st, ss, env, obj, cls, f1),
    decreases f1, stmts_size(ss),
{
    if ss.len() > 0 {
        lemma_stmt_fuel(st, ss[0], env, obj, cls, f1, f2);
        let o = spec_stmt(st, ss[0], env, obj, cls, f1);
        match o.res {
            Ok(r) => {
                if !r.exit {
                    lemma_stmts_fuel(o.st, ss.drop_first(), env, obj, cls, f1, f2);
                }
            },
            Err(_) => {},
        }
    }
}

/// A whole program's meaning is budget-independent below the cutoff: if it
/// finishes under some budget, every larger budget yields the same output
/// and the same outcome.
pub proof fn lemma_program_fuel(prog: Seq<Stmt>, f1: nat, f2: nat)
    requires
        f1 <= f2,
        !(crate::semantics::spec_program(prog, f1).res matches Err(ErrM::StepLimit)),
    ensures
        crate::semantics::spec_program(prog, f2) == crate::semantics::spec_program(prog, f1),
{
    lemma_stmts_fuel(crate::semantics::init_st(), prog, 0, None, None, f1, f2);
}


/// `super` dispatches through the class that lexically defined the running
/// method, never through the receiver's dynamic class: evaluating
/// `super.m` with defining class `cname` resolves `cname` to its class,
/// takes that class's recorded superclass, and searches the receiver's
/// member slots from there — the receiver's own class name plays no part
/// in the resolution, and the fetched member is the one the search finds
/// bound as it was installed.
pub proof fn lemma_super_dispatch(
    st: StM,
    method: String,
    env: usize,
    obj: Option<usize>,
    cname: Seq<char>,
    fuel: nat,
)
    ensures
        spec_expr(st, Expr::Super { method }, env, obj, Some(cname), fuel) == (
        match class_of(st, cname, env) {
            Err(er) => ExprOut { st, res: Err(er) },
            Ok(c) => match c.superclass {
                None => ExprOut { st, res: Err(ErrM::TypeError) },
                Some(sup) => match obj {
                    None => ExprOut { st, res: Err(ErrM::NameError("this"@)) },
                    Some(i) => match field_chain(st, i, method@, sup, env, fuel) {
                        Ok(Some(val)) => ExprOut { st, res: Ok(val) },
                        Ok(None) => ExprOut { st, res: Err(ErrM::FieldError(method@)) },
                        Err(er) => ExprOut { st, res: Err(er) },
                    },
                },
            },
        }),
{
}

/// Per-class member keying: a field write through an instance targets the
/// slot keyed by the instance's own most-derived class (as the `SetField`
/// arm of `spec_expr` pushes it), and leaves every slot keyed by another
/// class — in particular one a superclass's method installed — untouched.
pub proof fn lemma_per_class_slots(st: StM, i: usize, name: Seq<char>, other: Seq<char>, v: ValM)
    requires
        other != st.inst_class[i as int],
    ensures
        find_field(
            st.fields.push(
                FieldM { inst: i, name, owner: st.inst_class[i as int], value: v },
            ),
            i,
            name,
            other,
        ) == find_field(st.fields, i, name, other),
{
    let f2 = st.fields.push(FieldM { inst: i, name, owner: st.inst_class[i as int], value: v });
    assert(f2.drop_last() =~= st.fields);
}

} // verus!
