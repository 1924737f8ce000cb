//! Runtime values, the statement signal, and runtime errors, together with
//! their mathematical models.
//!
//! A `Value` is what an expression evaluates to. Functions carry the frame
//! they close over and classes carry their unevaluated method declarations;
//! instances are indices into the interpreter's instance arena, so that every
//! reference to an instance shares its mutable field cells.

use std::rc::Rc;
use vstd::prelude::*;
use crate::ast::Stmt;

verus! {

/// A runtime value of the language.
#[derive(Debug, PartialEq)]
pub enum Value {
    /// A number (a signed 64-bit integer).
    Number(i64),
    /// A string.
    Str(String),
    /// A boolean.
    Bool(bool),
    /// The absence of a value.
    Nil,
    /// The declared-but-unassigned marker, distinct from `Nil`; it is the
    /// result of a bare `return;`.
    Uninit,
    /// A function closure: its formal parameters, its body, the frame it
    /// closes over (captured at definition time), an optional bound
    /// receiver, and the name of the class whose body defined it.
    Function {
        params: Rc<Vec<String>>,
        body: Rc<Vec<Stmt>>,
        frame: usize,
        receiver: Option<usize>,
        class_def: Option<String>,
    },
    /// A class definition: its name, its superclass's name if any, and its
    /// unevaluated method declarations.
    Classdef { name: String, superclass: Option<String>, methods: Rc<Vec<Stmt>> },
    /// A reference to an instance in the interpreter's instance arena.
    Instance(usize),
}

/// Model of a function closure.
#[verifier::ext_equal]
pub struct FunM {
    pub params: Seq<Seq<char>>,
    pub body: Seq<Stmt>,
    pub frame: usize,
    pub receiver: Option<usize>,
    pub class_def: Option<Seq<char>>,
}

/// Model of a class definition.
#[verifier::ext_equal]
pub struct ClassM {
    pub name: Seq<char>,
    pub superclass: Option<Seq<char>>,
    pub methods: Seq<Stmt>,
}

/// Model of a runtime value.
#[verifier::ext_equal]
pub enum ValM {
    Number(i64),
    Str(Seq<char>),
    Bool(bool),
    Nil,
    Uninit,
    Function(FunM),
    Classdef(ClassM),
    Instance(usize),
}

impl View for Value {
    type V = ValM;

    open spec fn view(&self) -> ValM {
        match self {
            Value::Number(n) => ValM::Number(*n),
            Value::Str(s) => ValM::Str(s@),
            Value::Bool(b) => ValM::Bool(*b),
            Value::Nil => ValM::Nil,
            Value::Uninit => ValM::Uninit,
            Value::Function { params, body, frame, receiver, class_def } => ValM::Function(
                FunM {
                    params: params.deep_view(),
                    body: body@,
                    frame: *frame,
                    receiver: *receiver,
                    class_def: class_def.deep_view(),
                },
            ),
            Value::Classdef { name, superclass, methods } => ValM::Classdef(
                ClassM { name: name@, superclass: superclass.deep_view(), methods: methods@ },
            ),
            Value::Instance(i) => ValM::Instance(*i),
        }
    }
}

impl DeepView for Value {
    type V = ValM;

    open spec fn deep_view(&self) -> ValM {
        self.view()
    }
}

impl Clone for Value {
    /// Cloning a value preserves its model; the shared state a value can
    /// refer to (its closure frame, its instance) is shared by the clone.
    fn clone(&self) -> (res: Self)
        ensures
            res@ == self@,
    {
        match self {
            Value::Number(n) => Value::Number(*n),
            Value::Str(s) => Value::Str(s.clone()),
            Value::Bool(b) => Value::Bool(*b),
            Value::Nil => Value::Nil,
            Value::Uninit => Value::Uninit,
            Value::Function { params, body, frame, receiver, class_def } => Value::Function {
                params: params.clone(),
                body: body.clone(),
                frame: *frame,
                receiver: *receiver,
                class_def: class_def.clone(),
            },
            Value::Classdef { name, superclass, methods } => Value::Classdef {
                name: name.clone(),
                superclass: superclass.clone(),
                methods: methods.clone(),
            },
            Value::Instance(i) => Value::Instance(*i),
        }
    }
}

/// A runtime error that aborts evaluation of the current program.
#[derive(Debug, Clone, PartialEq)]
pub enum RuntimeError {
    /// An undeclared name was read, assigned, or used as a superclass, or
    /// `this`/`super` was used where no receiver or defining class exists.
    NameError(String),
    /// A field or method was not found anywhere on an instance's class chain.
    FieldError(String),
    /// An operand or callee had the wrong type for the operation.
    TypeError,
    /// Division by zero.
    DivideByZero,
    /// A call supplied the wrong number of arguments.
    ArityError { expected: usize, got: usize },
    /// The evaluation step budget ran out.
    StepLimit,
}

/// Model of a runtime error.
pub enum ErrM {
    NameError(Seq<char>),
    FieldError(Seq<char>),
    TypeError,
    DivideByZero,
    ArityError { expected: usize, got: usize },
    StepLimit,
}

impl View for RuntimeError {
    type V = ErrM;

    open spec fn view(&self) -> ErrM {
        match self {
            RuntimeError::NameError(s) => ErrM::NameError(s@),
            RuntimeError::FieldError(s) => ErrM::FieldError(s@),
            RuntimeError::TypeError => ErrM::TypeError,
            RuntimeError::DivideByZero => ErrM::DivideByZero,
            RuntimeError::ArityError { expected, got } => ErrM::ArityError {
                expected: *expected,
                got: *got,
            },
            RuntimeError::StepLimit => ErrM::StepLimit,
        }
    }
}

/// The signal produced by executing a statement: whether a `return` is
/// unwinding the current function, and the value it carries.
#[derive(Debug)]
pub struct Ret {
    pub exit: bool,
    pub value: Value,
}

/// Model of the statement signal.
#[verifier::ext_equal]
pub struct RetM {
    pub exit: bool,
    pub value: ValM,
}

impl View for Ret {
    type V = RetM;

    open spec fn view(&self) -> RetM {
        RetM { exit: self.exit, value: self.value@ }
    }
}

/// Model of a statement outcome.
pub open spec fn ret_res_view(r: Result<Ret, RuntimeError>) -> Result<RetM, ErrM> {
    match r {
        Ok(x) => Ok(x@),
        Err(e) => Err(e@),
    }
}

/// Model of an expression outcome.
pub open spec fn val_res_view(r: Result<Value, RuntimeError>) -> Result<ValM, ErrM> {
    match r {
        Ok(x) => Ok(x@),
        Err(e) => Err(e@),
    }
}

} // verus!
