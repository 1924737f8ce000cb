//! The executable evaluator, proved equal to the specification interpreter
//! in `semantics`: every function's contract says that it leaves the state
//! exactly as the corresponding spec function computes it and returns
//! exactly the outcome that function names.
//!
//! Evaluation takes an explicit step budget (`fuel`). Every function call,
//! constructor call, loop iteration and superclass-chain step spends
//! budget; an exhausted budget reports `RuntimeError::StepLimit`. Together
//! with the structural size of the syntax tree this gives every function
//! here a termination measure, so the evaluator provably terminates on
//! every input.

use std::rc::Rc;
use vstd::prelude::*;
use vstd::string::StringExecFns;
use vstd::arithmetic::div_mod::lemma_div_nonincreasing;
use crate::ast::{
    exprs_size, expr_size, lemma_exprs_size_element, lemma_stmts_size_element, stmts_size,
    stmt_size, BinaryOp, Expr, Literal, Stmt, UnaryOp,
};
use crate::decimal::i64_to_decimal;
use crate::semantics::{
    abs_int, bind_args, div_i64, eval_binop, eval_unop, field_chain, fmt_value, insert_methods,
    lit_val, materialize, spec_call, spec_expr, spec_exprs, spec_instantiate, spec_stmt,
    spec_stmts, truthy, val_eq,
};
use crate::state::{
    lemma_find_field_valid, lemma_resolve_bind_valid, lemma_st_wf_output, lemma_st_wf_push_bind,
    lemma_st_wf_push_field, lemma_st_wf_push_frame, lemma_st_wf_push_instance,
    lemma_st_wf_update_bind, obj_wf, st_extends, st_wf, val_wf, BindM, FieldM, Interp,
};
use crate::value::{ret_res_view, val_res_view, ClassM, FunM, Ret, RuntimeError, ValM, Value};

verus! {

/// A value of a primitive variant; such a value is well-formed in every
/// state.
pub open spec fn val_prim(v: ValM) -> bool {
    match v {
        ValM::Number(_) => true,
        ValM::Str(_) => true,
        ValM::Bool(_) => true,
        ValM::Nil => true,
        ValM::Uninit => true,
        _ => false,
    }
}

/// Decides truthiness: only the boolean `false` is falsy.
pub fn is_truthy(v: &Value) -> (r: bool)
    ensures
        r == truthy(v@),
{
    match v {
        Value::Bool(b) => *b,
        _ => true,
    }
}

/// Decides the `==` operator's structural equality.
fn val_eq_exec(a: &Value, b: &Value) -> (r: bool)
    ensures
        r == val_eq(a@, b@),
{
    match (a, b) {
        (Value::Number(x), Value::Number(y)) => *x == *y,
        (Value::Str(x), Value::Str(y)) => *x == *y,
        (Value::Bool(x), Value::Bool(y)) => *x == *y,
        (Value::Nil, Value::Nil) => true,
        _ => false,
    }
}

/// The magnitude of a signed value, as an unsigned one.
fn mag_u64(a: i64) -> (r: u64)
    ensures
        r == abs_int(a as int),
{
    if a >= 0 {
        a as u64
    } else {
        ((-(a + 1)) as u64) + 1
    }
}

/// Division truncating toward zero, wrapping at the type boundary.
fn div_i64_exec(a: i64, b: i64) -> (r: i64)
    requires
        b != 0,
    ensures
        r == div_i64(a, b),
{
    let ma = mag_u64(a);
    let mb = mag_u64(b);
    let q = ma / mb;
    proof {
        lemma_div_nonincreasing(ma as int, mb as int);
    }
    if (a < 0) != (b < 0) {
        if q == 0x8000_0000_0000_0000u64 {
            i64::MIN
        } else {
            -(q as i64)
        }
    } else {
        if q >= 0x8000_0000_0000_0000u64 {
            i64::MIN
        } else {
            q as i64
        }
    }
}

/// Applies a binary operator to two evaluated operands.
fn eval_binop_exec(op: BinaryOp, a: Value, b: Value) -> (r: Result<Value, RuntimeError>)
    ensures
        match (r, eval_binop(op, a@, b@)) {
            (Ok(v), Ok(m)) => v@ == m && val_prim(v@),
            (Err(e), Err(em)) => e@ == em,
            _ => false,
        },
{
    match op {
        BinaryOp::Add => match (a, b) {
            (Value::Number(x), Value::Number(y)) => Ok(Value::Number(x.wrapping_add(y))),
            (Value::Str(x), Value::Str(y)) => Ok(Value::Str(x.concat(y.as_str()))),
            _ => Err(RuntimeError::TypeError),
        },
        BinaryOp::Sub => match (a, b) {
            (Value::Number(x), Value::Number(y)) => Ok(Value::Number(x.wrapping_sub(y))),
            _ => Err(RuntimeError::TypeError),
        },
        BinaryOp::Mul => match (a, b) {
            (Value::Number(x), Value::Number(y)) => Ok(Value::Number(x.wrapping_mul(y))),
            _ => Err(RuntimeError::TypeError),
        },
        BinaryOp::Div => match (a, b) {
            (Value::Number(x), Value::Number(y)) => if y == 0 {
                Err(RuntimeError::DivideByZero)
            } else {
                Ok(Value::Number(div_i64_exec(x, y)))
            },
            _ => Err(RuntimeError::TypeError),
        },
        BinaryOp::Greater => match (a, b) {
            (Value::Number(x), Value::Number(y)) => Ok(Value::Bool(x > y)),
            _ => Err(RuntimeError::TypeError),
        },
        BinaryOp::GreaterEqual => match (a, b) {
            (Value::Number(x), Value::Number(y)) => Ok(Value::Bool(x >= y)),
            _ => Err(RuntimeError::TypeError),
        },
        BinaryOp::Less => match (a, b) {
            (Value::Number(x), Value::Number(y)) => Ok(Value::Bool(x < y)),
            _ => Err(RuntimeError::TypeError),
        },
        BinaryOp::LessEqual => match (a, b) {
            (Value::Number(x), Value::Number(y)) => Ok(Value::Bool(x <= y)),
            _ => Err(RuntimeError::TypeError),
        },
        BinaryOp::EqualEqual => Ok(Value::Bool(val_eq_exec(&a, &b))),
        BinaryOp::BangEqual => Ok(Value::Bool(!val_eq_exec(&a, &b))),
    }
}

/// Applies a unary operator to an evaluated operand.
fn eval_unop_exec(op: UnaryOp, v: Value) -> (r: Result<Value, RuntimeError>)
    ensures
        match (r, eval_unop(op, v@)) {
            (Ok(w), Ok(m)) => w@ == m && val_prim(w@),
            (Err(e), Err(em)) => e@ == em,
            _ => false,
        },
{
    match op {
        UnaryOp::Neg => match v {
            Value::Number(n) => if n == i64::MIN {
                Ok(Value::Number(i64::MIN))
            } else {
                Ok(Value::Number(-n))
            },
            _ => Err(RuntimeError::TypeError),
        },
        UnaryOp::Not => Ok(Value::Bool(!is_truthy(&v))),
    }
}

/// Renders a value the way `print` shows it.
pub fn format_value(v: &Value) -> (r: String)
    ensures
        r@ == fmt_value(v@),
{
    match v {
        Value::Number(n) => i64_to_decimal(*n),
        Value::Str(s) => s.clone(),
        Value::Bool(b) => if *b {
            "true".to_owned()
        } else {
            "false".to_owned()
        },
        Value::Nil => "nil".to_owned(),
        Value::Uninit => "nil".to_owned(),
        Value::Function { .. } => "<fn>".to_owned(),
        Value::Classdef { .. } => "<class>".to_owned(),
        Value::Instance(_) => "<instance>".to_owned(),
    }
}

/// The value of a literal expression.
pub fn traverse_literal(literal: &Literal) -> (r: Value)
    ensures
        r@ == lit_val(*literal),
        val_prim(r@),
{
    match literal {
        Literal::Number(n) => Value::Number(*n),
        Literal::Str(s) => Value::Str(s.clone()),
        Literal::Bool(b) => Value::Bool(*b),
        Literal::Nil => Value::Nil,
    }
}

/// Clones an optional name.
fn clone_opt_string(o: &Option<String>) -> (r: Option<String>)
    ensures
        r.deep_view() == o.deep_view(),
{
    match o {
        Some(s) => Some(s.clone()),
        None => None,
    }
}

/// Searches instance `inst`'s fields for `name` along the class chain
/// starting at class `cls`, as `field_chain` describes.
#[verifier::loop_isolation(false)]
fn field_chain_exec(
    it: &Interp,
    inst: usize,
    name: &String,
    cls: &String,
    env: usize,
    fuel: u64,
) -> (r: Result<Option<Value>, RuntimeError>)
    requires
        st_wf(it@),
        env < it@.parents.len(),
    ensures
        match (r, field_chain(it@, inst, name@, cls@, env, fuel as nat)) {
            (Ok(Some(v)), Ok(Some(m))) => v@ == m && val_wf(it@, v@),
            (Ok(None), Ok(None)) => true,
            (Err(e), Err(em)) => e@ == em,
            _ => false,
        },
{
    let mut cur: String = cls.clone();
    let mut rem: u64 = fuel;
    loop
        invariant
            st_wf(it@),
            env < it@.parents.len(),
            field_chain(it@, inst, name@, cls@, env, fuel as nat) == field_chain(
                it@,
                inst,
                name@,
                cur@,
                env,
                rem as nat,
            ),
        decreases rem,
    {
        if let Some(fi) = it.find_field_in(inst, name, &cur) {
            proof {
                lemma_find_field_valid(it@.fields, inst, name@, cur@);
            }
            let v = it.field_value(fi);
            proof {
                assert(val_wf(it@, it@.fields[fi as int].value));
            }
            return Ok(Some(v));
        }
        match it.resolve(&cur, env) {
            None => {
                return Err(RuntimeError::NameError(cur));
            },
            Some(bi) => {
                proof {
                    lemma_resolve_bind_valid(it@, cur@, env);
                }
                let bv = it.bind_value(bi);
                match bv {
                    Value::Classdef { name: _, superclass, methods: _ } => {
                        match superclass {
                            None => {
                                return Ok(None);
                            },
                            Some(sup) => {
                                if rem == 0 {
                                    return Err(RuntimeError::StepLimit);
                                }
                                rem = rem - 1;
                                cur = sup;
                            },
                        }
                    },
                    _ => {
                        return Err(RuntimeError::TypeError);
                    },
                }
            },
        }
    }
}

/// Inserts one class level's method declarations into instance `inst`'s
/// field table, as `insert_methods` describes.
#[verifier::loop_isolation(false)]
fn insert_methods_exec(it: &mut Interp, methods: &Vec<Stmt>, inst: usize, owner: &String, env: usize)
    requires
        st_wf(old(it)@),
        inst < old(it)@.inst_class.len(),
        env < old(it)@.parents.len(),
    ensures
        final(it)@ == insert_methods(old(it)@, methods@, inst, owner@, env),
        st_wf(final(it)@),
        st_extends(old(it)@, final(it)@),
{
    let ghost target = insert_methods(old(it)@, methods@, inst, owner@, env);
    let mut k: usize = 0;
    proof {
        assert(methods@.skip(0) =~= methods@);
    }
    while k < methods.len()
        invariant
            k <= methods.len(),
            st_wf(it@),
            inst < it@.inst_class.len(),
            env < it@.parents.len(),
            it@.parents == old(it)@.parents,
            it@.inst_class == old(it)@.inst_class,
            target == insert_methods(it@, methods@.skip(k as int), inst, owner@, env),
        decreases methods.len() - k,
    {
        proof {
            assert(methods@.skip(k as int)[0] == methods@[k as int]);
            assert(methods@.skip(k as int).drop_first() =~= methods@.skip(k as int + 1));
        }
        match &methods[k] {
            Stmt::Function { name, params, body } => {
                let fv = Value::Function {
                    params: params.clone(),
                    body: body.clone(),
                    frame: env,
                    receiver: Some(inst),
                    class_def: Some(owner.clone()),
                };
                proof {
                    lemma_st_wf_push_field(
                        it@,
                        FieldM { inst, name: name@, owner: owner@, value: fv@ },
                    );
                }
                it.push_field(inst, name, owner, fv);
            },
            _ => {},
        }
        k = k + 1;
    }
    proof {
        assert(methods@.skip(methods@.len() as int) =~= Seq::<Stmt>::empty());
    }
}

/// Materializes the methods of class `cls0` and its whole superclass chain
/// into instance `inst`'s field table, as `materialize` describes.
#[verifier::loop_isolation(false)]
fn materialize_exec(it: &mut Interp, cls0: String, inst: usize, env: usize, fuel: u64) -> (r:
    Result<(), RuntimeError>)
    requires
        st_wf(old(it)@),
        inst < old(it)@.inst_class.len(),
        env < old(it)@.parents.len(),
    ensures
        ({
            let o = materialize(old(it)@, cls0@, inst, env, fuel as nat);
            &&& final(it)@ == o.st
            &&& match (r, o.res) {
                (Ok(u), Ok(w)) => true,
                (Err(e), Err(em)) => e@ == em,
                _ => false,
            }
        }),
        st_wf(final(it)@),
        st_extends(old(it)@, final(it)@),
{
    let ghost target = materialize(old(it)@, cls0@, inst, env, fuel as nat);
    let mut cur: String = cls0;
    let mut rem: u64 = fuel;
    loop
        invariant
            st_wf(it@),
            inst < it@.inst_class.len(),
            env < it@.parents.len(),
            st_extends(old(it)@, it@),
            target == materialize(it@, cur@, inst, env, rem as nat),
        decreases rem,
    {
        match it.resolve(&cur, env) {
            None => {
                return Err(RuntimeError::NameError(cur));
            },
            Some(bi) => {
                proof {
                    lemma_resolve_bind_valid(it@, cur@, env);
                }
                let bv = it.bind_value(bi);
                match bv {
                    Value::Classdef { name: _, superclass, methods } => {
                        let mref: &Vec<Stmt> = &methods;
                        insert_methods_exec(it, mref, inst, &cur, env);
                        match superclass {
                            None => {
                                return Ok(());
                            },
                            Some(sup) => {
                                if rem == 0 {
                                    return Err(RuntimeError::StepLimit);
                                }
                                rem = rem - 1;
                                cur = sup;
                            },
                        }
                    },
                    _ => {
                        return Err(RuntimeError::TypeError);
                    },
                }
            },
        }
    }
}

/// Evaluates one expression against the interpreter state, in frame `env`,
/// with receiver `obj` and defining class `cur_class` as context.
pub fn traverse_expr(
    it: &mut Interp,
    expr: &Expr,
    env: usize,
    obj: Option<usize>,
    cur_class: &Option<String>,
    fuel: u64,
) -> (r: Result<Value, RuntimeError>)
    requires
        st_wf(old(it)@),
        env < old(it)@.parents.len(),
        obj_wf(old(it)@, obj),
    ensures
        ({
            let o = spec_expr(old(it)@, *expr, env, obj, cur_class.deep_view(), fuel as nat);
            &&& final(it)@ == o.st
            &&& val_res_view(r) == o.res
        }),
        st_wf(final(it)@),
        st_extends(old(it)@, final(it)@),
        (r matches Ok(v) ==> val_wf(final(it)@, v@)),
    decreases fuel, expr_size(*expr),
{
    match expr {
        Expr::Literal(l) => {
            let v = traverse_literal(l);
            Ok(v)
        },
        Expr::Variable(x) => {
            match it.resolve(x, env) {
                Some(i) => {
                    proof {
                        lemma_resolve_bind_valid(it@, x@, env);
                    }
                    let v = it.bind_value(i);
                    proof {
                        assert(val_wf(it@, it@.binds[i as int].value));
                    }
                    Ok(v)
                },
                None => Err(RuntimeError::NameError(x.clone())),
            }
        },
        Expr::Assign { name, value } => {
            let v = match traverse_expr(it, value, env, obj, cur_class, fuel) {
                Ok(v) => v,
                Err(e) => {
                    return Err(e);
                },
            };
            match it.resolve(name, env) {
                Some(i) => {
                    proof {
                        lemma_resolve_bind_valid(it@, name@, env);
                        lemma_st_wf_update_bind(it@, i as int, v@);
                    }
                    let v2 = v.clone();
                    it.set_bind(i, v2);
                    Ok(v)
                },
                None => Err(RuntimeError::NameError(name.clone())),
            }
        },
        Expr::Logical { op, left, right } => {
            let v = match traverse_expr(it, left, env, obj, cur_class, fuel) {
                Ok(v) => v,
                Err(e) => {
                    return Err(e);
                },
            };
            let take_right: bool = match op {
                crate::ast::LogicalOp::And => is_truthy(&v),
                crate::ast::LogicalOp::Or => !is_truthy(&v),
            };
            if take_right {
                traverse_expr(it, right, env, obj, cur_class, fuel)
            } else {
                Ok(v)
            }
        },
        Expr::Binary { op, left, right } => {
            let a = match traverse_expr(it, left, env, obj, cur_class, fuel) {
                Ok(v) => v,
                Err(e) => {
                    return Err(e);
                },
            };
            let b = match traverse_expr(it, right, env, obj, cur_class, fuel) {
                Ok(v) => v,
                Err(e) => {
                    return Err(e);
                },
            };
            eval_binop_exec(*op, a, b)
        },
        Expr::Unary { op, right } => {
            let v = match traverse_expr(it, right, env, obj, cur_class, fuel) {
                Ok(v) => v,
                Err(e) => {
                    return Err(e);
                },
            };
            eval_unop_exec(*op, v)
        },
        Expr::Call { callee, arguments } => {
            let fv = match traverse_expr(it, callee, env, obj, cur_class, fuel) {
                Ok(v) => v,
                Err(e) => {
                    return Err(e);
                },
            };
            proof {
                assert(arguments@.skip(0) =~= arguments@);
                assert(exprs_size(arguments@) < expr_size(*expr));
            }
            let args = match eval_args_from(it, arguments, 0, env, obj, cur_class, fuel) {
                Ok(a) => a,
                Err(e) => {
                    return Err(e);
                },
            };
            match fv {
                Value::Function { params, body, frame, receiver, class_def } => {
                    if fuel == 0 {
                        Err(RuntimeError::StepLimit)
                    } else {
                        call_function(it, params, body, frame, receiver, class_def, args, fuel - 1)
                    }
                },
                Value::Classdef { name, superclass, methods } => {
                    if fuel == 0 {
                        Err(RuntimeError::StepLimit)
                    } else {
                        instantiate_class(it, name, superclass, methods, args, env, fuel - 1)
                    }
                },
                _ => Err(RuntimeError::TypeError),
            }
        },
        Expr::Get { object, name } => {
            let ov = match traverse_expr(it, object, env, obj, cur_class, fuel) {
                Ok(v) => v,
                Err(e) => {
                    return Err(e);
                },
            };
            match ov {
                Value::Instance(i) => {
                    let cname = it.instance_class(i);
                    match field_chain_exec(it, i, name, &cname, env, fuel) {
                        Ok(Some(v)) => Ok(v),
                        Ok(None) => Err(RuntimeError::FieldError(name.clone())),
                        Err(e) => Err(e),
                    }
                },
                _ => Err(RuntimeError::TypeError),
            }
        },
        Expr::SetField { object, name, value } => {
            let ov = match traverse_expr(it, object, env, obj, cur_class, fuel) {
                Ok(v) => v,
                Err(e) => {
                    return Err(e);
                },
            };
            let v = match traverse_expr(it, value, env, obj, cur_class, fuel) {
                Ok(v) => v,
                Err(e) => {
                    return Err(e);
                },
            };
            match ov {
                Value::Instance(i) => {
                    let cname = it.instance_class(i);
                    proof {
                        lemma_st_wf_push_field(
                            it@,
                            FieldM { inst: i, name: name@, owner: cname@, value: v@ },
                        );
                    }
                    let v2 = v.clone();
                    it.push_field(i, name, &cname, v2);
                    Ok(v)
                },
                _ => Err(RuntimeError::TypeError),
            }
        },
        Expr::This => {
            match obj {
                Some(i) => Ok(Value::Instance(i)),
                None => Err(RuntimeError::NameError("this".to_owned())),
            }
        },
        Expr::Super { method } => {
            match cur_class {
                None => Err(RuntimeError::NameError("super".to_owned())),
                Some(cname) => {
                    match it.resolve(cname, env) {
                        None => Err(RuntimeError::NameError(cname.clone())),
                        Some(bi) => {
                            proof {
                                lemma_resolve_bind_valid(it@, cname@, env);
                            }
                            let bv = it.bind_value(bi);
                            match bv {
                                Value::Classdef { name: _, superclass, methods: _ } => {
                                    match superclass {
                                        None => Err(RuntimeError::TypeError),
                                        Some(sup) => {
                                            match obj {
                                                None => Err(
                                                    RuntimeError::NameError("this".to_owned()),
                                                ),
                                                Some(inst) => {
                                                    match field_chain_exec(
                                                        it,
                                                        inst,
                                                        method,
                                                        &sup,
                                                        env,
                                                        fuel,
                                                    ) {
                                                        Ok(Some(v)) => Ok(v),
                                                        Ok(None) => Err(
                                                            RuntimeError::FieldError(
                                                                method.clone(),
                                                            ),
                                                        ),
                                                        Err(e) => Err(e),
                                                    }
                                                },
                                            }
                                        },
                                    }
                                },
                                _ => Err(RuntimeError::TypeError),
                            }
                        },
                    }
                },
            }
        },
        Expr::Grouping(inner) => traverse_expr(it, inner, env, obj, cur_class, fuel),
    }
}

/// Evaluates the argument list `es[i..]` left to right.
fn eval_args_from(
    it: &mut Interp,
    es: &Vec<Expr>,
    i: usize,
    env: usize,
    obj: Option<usize>,
    cur_class: &Option<String>,
    fuel: u64,
) -> (r: Result<Vec<Value>, RuntimeError>)
    requires
        st_wf(old(it)@),
        env < old(it)@.parents.len(),
        obj_wf(old(it)@, obj),
        i <= es.len(),
    ensures
        ({
            let o = spec_exprs(old(it)@, es@.skip(i as int), env, obj, cur_class.deep_view(), fuel as nat);
            &&& final(it)@ == o.st
            &&& match (r, o.res) {
                (Ok(vs), Ok(ws)) => vs.deep_view() == ws,
                (Err(e), Err(em)) => e@ == em,
                _ => false,
            }
        }),
        st_wf(final(it)@),
        st_extends(old(it)@, final(it)@),
        (r matches Ok(vs) ==> forall|j: int|
            0 <= j < vs.deep_view().len() ==> val_wf(final(it)@, #[trigger] vs.deep_view()[j])),
    decreases fuel, exprs_size(es@.skip(i as int)),
{
    if i == es.len() {
        proof {
            assert(es@.skip(i as int) =~= Seq::<Expr>::empty());
        }
        let empty: Vec<Value> = Vec::new();
        proof {
            assert(empty.deep_view() =~= Seq::<ValM>::empty());
        }
        Ok(empty)
    } else {
        proof {
            assert(es@.skip(i as int)[0] == es@[i as int]);
            assert(es@.skip(i as int).drop_first() =~= es@.skip(i as int + 1));
            lemma_exprs_size_element(es@.skip(i as int), 0);
        }
        let v = match traverse_expr(it, &es[i], env, obj, cur_class, fuel) {
            Ok(v) => v,
            Err(e) => {
                return Err(e);
            },
        };
        let ghost st_mid = it@;
        let mut rest = match eval_args_from(it, es, i + 1, env, obj, cur_class, fuel) {
            Ok(a) => a,
            Err(e) => {
                return Err(e);
            },
        };
        let ghost rest0 = rest.deep_view();
        rest.insert(0, v);
        proof {
            assert(rest.deep_view() =~= seq![v@].add(rest0));
        }
        Ok(rest)
    }
}

/// Calls a function closure with already-evaluated arguments, as
/// `spec_call` describes.
#[verifier::loop_isolation(false)]
fn call_function(
    it: &mut Interp,
    params: Rc<Vec<String>>,
    body: Rc<Vec<Stmt>>,
    frame: usize,
    receiver: Option<usize>,
    class_def: Option<String>,
    args: Vec<Value>,
    fuel: u64,
) -> (r: Result<Value, RuntimeError>)
    requires
        st_wf(old(it)@),
        frame < old(it)@.parents.len(),
        obj_wf(old(it)@, receiver),
        forall|j: int|
            0 <= j < args.deep_view().len() ==> val_wf(old(it)@, #[trigger] args.deep_view()[j]),
    ensures
        ({
            let o = spec_call(
                old(it)@,
                FunM {
                    params: params.deep_view(),
                    body: body@,
                    frame,
                    receiver,
                    class_def: class_def.deep_view(),
                },
                args.deep_view(),
                fuel as nat,
            );
            &&& final(it)@ == o.st
            &&& val_res_view(r) == o.res
        }),
        st_wf(final(it)@),
        st_extends(old(it)@, final(it)@),
        (r matches Ok(v) ==> val_wf(final(it)@, v@)),
    decreases fuel, stmts_size(body@) + 1,
{
    let pv: &Vec<String> = &params;
    if pv.len() != args.len() {
        return Err(RuntimeError::ArityError { expected: pv.len(), got: args.len() });
    }
    let new_frame = it.push_frame(frame);
    proof {
        lemma_st_wf_push_frame(old(it)@, frame);
    }
    let ghost st1 = it@;
    let ghost target = bind_args(st1, params.deep_view(), args.deep_view(), new_frame);
    let mut k: usize = 0;
    proof {
        assert(params.deep_view().skip(0) =~= params.deep_view());
        assert(args.deep_view().skip(0) =~= args.deep_view());
    }
    while k < pv.len()
        invariant
            k <= pv.len(),
            pv.len() == args.len(),
            pv == params,
            st_wf(it@),
            new_frame < it@.parents.len(),
            it@.parents == st1.parents,
            it@.inst_class == st1.inst_class,
            st1.inst_class == old(it)@.inst_class,
            forall|j: int|
                0 <= j < args.deep_view().len() ==> val_wf(
                    old(it)@,
                    #[trigger] args.deep_view()[j],
                ),
            target == bind_args(
                it@,
                params.deep_view().skip(k as int),
                args.deep_view().skip(k as int),
                new_frame,
            ),
        decreases pv.len() - k,
    {
        proof {
            assert(params.deep_view().skip(k as int)[0] == params.deep_view()[k as int]);
            assert(args.deep_view().skip(k as int)[0] == args.deep_view()[k as int]);
            assert(params.deep_view().skip(k as int).drop_first() =~= params.deep_view().skip(
                k as int + 1,
            ));
            assert(args.deep_view().skip(k as int).drop_first() =~= args.deep_view().skip(
                k as int + 1,
            ));
            assert(val_wf(old(it)@, args.deep_view()[k as int]));
            crate::state::lemma_val_wf_mono(old(it)@, it@, args.deep_view()[k as int]);
            lemma_st_wf_push_bind(
                it@,
                BindM {
                    name: params.deep_view()[k as int],
                    frame: new_frame,
                    value: args.deep_view()[k as int],
                },
            );
        }
        let av = args[k].clone();
        it.declare(&pv[k], new_frame, av);
        k = k + 1;
    }
    proof {
        assert(params.deep_view().skip(params.deep_view().len() as int) =~= Seq::<
            Seq<char>,
        >::empty());
        assert(args.deep_view().skip(args.deep_view().len() as int) =~= Seq::<ValM>::empty());
        assert(it@ == target);
        assert(body@.skip(0) =~= body@);
    }
    let bv: &Vec<Stmt> = &body;
    let res = run_stmts_from(it, bv, 0, new_frame, receiver, &class_def, fuel);
    match res {
        Err(e) => Err(e),
        Ok(ret) => Ok(
            if ret.exit {
                ret.value
            } else {
                Value::Nil
            },
        ),
    }
}

/// Instantiates a class with already-evaluated constructor arguments, as
/// `spec_instantiate` describes.
#[verifier::rlimit(60)]
fn instantiate_class(
    it: &mut Interp,
    name: String,
    superclass: Option<String>,
    methods: Rc<Vec<Stmt>>,
    args: Vec<Value>,
    env: usize,
    fuel: u64,
) -> (r: Result<Value, RuntimeError>)
    requires
        st_wf(old(it)@),
        env < old(it)@.parents.len(),
        forall|j: int|
            0 <= j < args.deep_view().len() ==> val_wf(old(it)@, #[trigger] args.deep_view()[j]),
    ensures
        ({
            let o = spec_instantiate(
                old(it)@,
                ClassM { name: name@, superclass: superclass.deep_view(), methods: methods@ },
                args.deep_view(),
                env,
                fuel as nat,
            );
            &&& final(it)@ == o.st
            &&& val_res_view(r) == o.res
        }),
        st_wf(final(it)@),
        st_extends(old(it)@, final(it)@),
        (r matches Ok(v) ==> val_wf(final(it)@, v@)),
    decreases fuel, 0nat,
{
    let inst = it.new_instance(&name);
    proof {
        lemma_st_wf_push_instance(old(it)@, name@);
    }
    let mv: &Vec<Stmt> = &methods;
    insert_methods_exec(it, mv, inst, &name, env);
    let mo: Result<(), RuntimeError> = match &superclass {
        None => Ok(()),
        Some(sup) => {
            if fuel == 0 {
                return Err(RuntimeError::StepLimit);
            }
            materialize_exec(it, sup.clone(), inst, env, fuel - 1)
        },
    };
    match mo {
        Err(e) => {
            return Err(e);
        },
        Ok(_) => {},
    }
    let initname: String = "init".to_owned();
    match field_chain_exec(it, inst, &initname, &name, env, fuel) {
        Err(e) => Err(e),
        Ok(Some(v)) => {
            match v {
                Value::Function { params, body, frame, receiver, class_def } => {
                    if fuel == 0 {
                        Err(RuntimeError::StepLimit)
                    } else {
                        match call_function(
                            it,
                            params,
                            body,
                            frame,
                            receiver,
                            class_def,
                            args,
                            fuel - 1,
                        ) {
                            Err(e) => Err(e),
                            Ok(_) => Ok(Value::Instance(inst)),
                        }
                    }
                },
                _ => Err(RuntimeError::TypeError),
            }
        },
        Ok(None) => {
            if args.len() != 0 {
                Err(RuntimeError::ArityError { expected: 0, got: args.len() })
            } else {
                Ok(Value::Instance(inst))
            }
        },
    }
}

/// Executes one statement against the interpreter state.
pub fn traverse_stmt(
    it: &mut Interp,
    stmt: &Stmt,
    env: usize,
    obj: Option<usize>,
    cur_class: &Option<String>,
    fuel: u64,
) -> (r: Result<Ret, RuntimeError>)
    requires
        st_wf(old(it)@),
        env < old(it)@.parents.len(),
        obj_wf(old(it)@, obj),
    ensures
        ({
            let o = spec_stmt(old(it)@, *stmt, env, obj, cur_class.deep_view(), fuel as nat);
            &&& final(it)@ == o.st
            &&& ret_res_view(r) == o.res
        }),
        st_wf(final(it)@),
        st_extends(old(it)@, final(it)@),
        (r matches Ok(ret) ==> val_wf(final(it)@, ret.value@)),
    decreases fuel, stmt_size(*stmt),
{
    match stmt {
        Stmt::Expr(e) => {
            match traverse_expr(it, e, env, obj, cur_class, fuel) {
                Ok(_) => Ok(Ret { exit: false, value: Value::Nil }),
                Err(e) => Err(e),
            }
        },
        Stmt::Print(e) => {
            let v = match traverse_expr(it, e, env, obj, cur_class, fuel) {
                Ok(v) => v,
                Err(e) => {
                    return Err(e);
                },
            };
            let line = format_value(&v);
            proof {
                lemma_st_wf_output(it@, line@);
            }
            it.emit(line);
            Ok(Ret { exit: false, value: Value::Nil })
        },
        Stmt::Var { name, initializer } => {
            let v = match initializer {
                Some(e) => match traverse_expr(it, e, env, obj, cur_class, fuel) {
                    Ok(v) => v,
                    Err(e) => {
                        return Err(e);
                    },
                },
                None => Value::Nil,
            };
            proof {
                lemma_st_wf_push_bind(it@, BindM { name: name@, frame: env, value: v@ });
            }
            it.declare(name, env, v);
            Ok(Ret { exit: false, value: Value::Nil })
        },
        Stmt::Block(stmts) => {
            let frame = it.push_frame(env);
            proof {
                lemma_st_wf_push_frame(old(it)@, env);
                assert(stmts@.skip(0) =~= stmts@);
            }
            run_stmts_from(it, stmts, 0, frame, obj, cur_class, fuel)
        },
        Stmt::If { condition, then_branch, else_branch } => {
            let c = match traverse_expr(it, condition, env, obj, cur_class, fuel) {
                Ok(v) => v,
                Err(e) => {
                    return Err(e);
                },
            };
            if is_truthy(&c) {
                traverse_stmt(it, then_branch, env, obj, cur_class, fuel)
            } else {
                match else_branch {
                    Some(b) => traverse_stmt(it, b, env, obj, cur_class, fuel),
                    None => Ok(Ret { exit: false, value: Value::Nil }),
                }
            }
        },
        Stmt::While { condition, body } => {
            let c = match traverse_expr(it, condition, env, obj, cur_class, fuel) {
                Ok(v) => v,
                Err(e) => {
                    return Err(e);
                },
            };
            if !is_truthy(&c) {
                return Ok(Ret { exit: false, value: Value::Nil });
            }
            let r = match traverse_stmt(it, body, env, obj, cur_class, fuel) {
                Ok(r) => r,
                Err(e) => {
                    return Err(e);
                },
            };
            if r.exit {
                return Ok(r);
            }
            if fuel == 0 {
                return Err(RuntimeError::StepLimit);
            }
            traverse_stmt(it, stmt, env, obj, cur_class, fuel - 1)
        },
        Stmt::Function { name, params, body } => {
            let fv = Value::Function {
                params: params.clone(),
                body: body.clone(),
                frame: env,
                receiver: obj,
                class_def: clone_opt_string(cur_class),
            };
            let fv2 = fv.clone();
            proof {
                lemma_st_wf_push_bind(it@, BindM { name: name@, frame: env, value: fv@ });
            }
            it.declare(name, env, fv);
            match (obj, cur_class) {
                (Some(i), Some(c)) => {
                    proof {
                        lemma_st_wf_push_field(
                            it@,
                            FieldM { inst: i, name: name@, owner: c@, value: fv2@ },
                        );
                    }
                    it.push_field(i, name, c, fv2);
                },
                _ => {},
            }
            Ok(Ret { exit: false, value: Value::Nil })
        },
        Stmt::Return { value } => {
            match value {
                Some(e) => {
                    let v = match traverse_expr(it, e, env, obj, cur_class, fuel) {
                        Ok(v) => v,
                        Err(e) => {
                            return Err(e);
                        },
                    };
                    Ok(Ret { exit: true, value: v })
                },
                None => Ok(Ret { exit: true, value: Value::Uninit }),
            }
        },
        Stmt::Class { name, superclass, methods } => {
            match superclass {
                Some(sname) => {
                    match it.resolve(sname, env) {
                        None => {
                            return Err(RuntimeError::NameError(sname.clone()));
                        },
                        Some(bi) => {
                            proof {
                                lemma_resolve_bind_valid(it@, sname@, env);
                            }
                            let sv = it.bind_value(bi);
                            match sv {
                                Value::Classdef { .. } => {},
                                _ => {
                                    return Err(RuntimeError::TypeError);
                                },
                            }
                        },
                    }
                },
                None => {},
            }
            let cv = Value::Classdef {
                name: name.clone(),
                superclass: clone_opt_string(superclass),
                methods: methods.clone(),
            };
            proof {
                lemma_st_wf_push_bind(it@, BindM { name: name@, frame: env, value: cv@ });
            }
            it.declare(name, env, cv);
            Ok(Ret { exit: false, value: Value::Nil })
        },
    }
}

/// Executes the statements `ss[i..]` in order, stopping at the first
/// `return` signal or error.
fn run_stmts_from(
    it: &mut Interp,
    ss: &Vec<Stmt>,
    i: usize,
    env: usize,
    obj: Option<usize>,
    cur_class: &Option<String>,
    fuel: u64,
) -> (r: Result<Ret, RuntimeError>)
    requires
        st_wf(old(it)@),
        env < old(it)@.parents.len(),
        obj_wf(old(it)@, obj),
        i <= ss.len(),
    ensures
        ({
            let o = spec_stmts(
                old(it)@,
                ss@.skip(i as int),
                env,
                obj,
                cur_class.deep_view(),
                fuel as nat,
            );
            &&& final(it)@ == o.st
            &&& ret_res_view(r) == o.res
        }),
        st_wf(final(it)@),
        st_extends(old(it)@, final(it)@),
        (r matches Ok(ret) ==> val_wf(final(it)@, ret.value@)),
    decreases fuel, stmts_size(ss@.skip(i as int)),
{
    if i == ss.len() {
        proof {
            assert(ss@.skip(i as int) =~= Seq::<Stmt>::empty());
        }
        return Ok(Ret { exit: false, value: Value::Nil });
    }
    proof {
        assert(ss@.skip(i as int)[0] == ss@[i as int]);
        assert(ss@.skip(i as int).drop_first() =~= ss@.skip(i as int + 1));
        lemma_stmts_size_element(ss@.skip(i as int), 0);
    }
    let r = match traverse_stmt(it, &ss[i], env, obj, cur_class, fuel) {
        Ok(r) => r,
        Err(e) => {
            return Err(e);
        },
    };
    if r.exit {
        return Ok(r);
    }
    run_stmts_from(it, ss, i + 1, env, obj, cur_class, fuel)
}

/// Executes a list of statements in order: the body of the program, of a
/// block, or of a called function.
pub fn traverse_statements(
    it: &mut Interp,
    statements: &Vec<Stmt>,
    env: usize,
    obj: Option<usize>,
    cur_class: &Option<String>,
    fuel: u64,
) -> (r: Result<Ret, RuntimeError>)
    requires
        st_wf(old(it)@),
        env < old(it)@.parents.len(),
        obj_wf(old(it)@, obj),
    ensures
        ({
            let o = spec_stmts(
                old(it)@,
                statements@,
                env,
                obj,
                cur_class.deep_view(),
                fuel as nat,
            );
            &&& final(it)@ == o.st
            &&& ret_res_view(r) == o.res
        }),
        st_wf(final(it)@),
        st_extends(old(it)@, final(it)@),
{
    proof {
        assert(statements@.skip(0) =~= statements@);
    }
    run_stmts_from(it, statements, 0, env, obj, cur_class, fuel)
}

impl Interp {
    /// Runs a whole program in the global frame under a step budget. On
    /// success the program ran to completion; the printed lines are in
    /// `output`. On failure evaluation stopped at the reported error, with
    /// the lines printed up to that point in `output`.
    pub fn run(&mut self, program: &Vec<Stmt>, fuel: u64) -> (r: Result<(), RuntimeError>)
        requires
            st_wf(old(self)@),
        ensures
            ({
                let o = spec_stmts(old(self)@, program@, 0, None, None, fuel as nat);
                &&& final(self)@ == o.st
                &&& match (r, o.res) {
                    (Ok(u), Ok(w)) => true,
                    (Err(e), Err(em)) => e@ == em,
                    _ => false,
                }
            }),
            st_wf(final(self)@),
    {
        let none_class: Option<String> = None;
        match traverse_statements(self, program, 0, None, &none_class, fuel) {
            Ok(_) => Ok(()),
            Err(e) => Err(e),
        }
    }
}

} // verus!
