//! Run-time values of the language, and their specification-level mirror.

use vstd::prelude::*;

use crate::ast::{clone_stmt, view_stmt, Stmt, StmtV};

verus! {

/// A run-time value. `Null` doubles as "statement produced no value";
/// `Interrupted` is the distinguished sentinel meaning "a loop was broken
/// out of" and is only ever produced by a `break` statement.
#[derive(Debug, PartialEq)]
pub enum Value {
    Int(i32),
    Bool(bool),
    Interrupted,
    Null,
    Function(Function),
    Builtin(String),
}

/// A user-defined function value: its name, its parameter names, and its
/// body (a block statement).
#[derive(Debug, PartialEq)]
pub struct Function {
    pub name: String,
    pub args: Vec<String>,
    pub body: Box<Stmt>,
}

/// The mathematical value of a run-time value.
pub ghost enum ValueV {
    Int(i32),
    Bool(bool),
    Interrupted,
    Null,
    Function(FunctionV),
    Builtin(Seq<char>),
}

/// The mathematical value of a function value.
pub ghost struct FunctionV {
    pub name: Seq<char>,
    pub args: Seq<Seq<char>>,
    pub body: StmtV,
}

impl View for Function {
    type V = FunctionV;

    open spec fn view(&self) -> FunctionV {
        FunctionV { name: self.name@, args: self.args.deep_view(), body: view_stmt(*self.body) }
    }
}

impl View for Value {
    type V = ValueV;

    open spec fn view(&self) -> ValueV {
        match *self {
            Value::Int(v) => ValueV::Int(v),
            Value::Bool(b) => ValueV::Bool(b),
            Value::Interrupted => ValueV::Interrupted,
            Value::Null => ValueV::Null,
            Value::Function(ref f) => ValueV::Function(f@),
            Value::Builtin(ref s) => ValueV::Builtin(s@),
        }
    }
}

impl DeepView for Value {
    type V = ValueV;

    open spec fn deep_view(&self) -> ValueV {
        self.view()
    }
}

impl DeepView for Function {
    type V = FunctionV;

    open spec fn deep_view(&self) -> FunctionV {
        self.view()
    }
}

impl Value {
    /// Whether this value is `Null`; blocks stop at the first statement
    /// whose value is not.
    pub fn is_null(&self) -> (r: bool)
        ensures
            r == (self@ is Null),
    {
        match self {
            Value::Null => true,
            _ => false,
        }
    }

    /// Whether this value is the `Interrupted` sentinel.
    pub fn is_interrupted(&self) -> (r: bool)
        ensures
            r == (self@ is Interrupted),
    {
        match self {
            Value::Interrupted => true,
            _ => false,
        }
    }

    /// A copy of this value, equal to the original in value.
    pub fn duplicate(&self) -> (r: Value)
        ensures
            r@ == self@,
    {
        match self {
            Value::Int(v) => Value::Int(*v),
            Value::Bool(b) => Value::Bool(*b),
            Value::Interrupted => Value::Interrupted,
            Value::Null => Value::Null,
            Value::Function(f) => Value::Function(f.duplicate()),
            Value::Builtin(s) => Value::Builtin(s.clone()),
        }
    }
}

impl Function {
    /// A copy of this function value, equal to the original in value.
    pub fn duplicate(&self) -> (r: Function)
        ensures
            r@ == self@,
    {
        let mut args: Vec<String> = Vec::new();
        let mut i: usize = 0;
        #[verifier::loop_isolation(false)]
        while i < self.args.len()
            invariant
                i <= self.args.len(),
                args@.len() == i,
                forall|j: int| 0 <= j < i ==> args@[j]@ == self.args@[j]@,
            decreases self.args.len() - i,
        {
            args.push(self.args[i].clone());
            i = i + 1;
        }
        proof {
            assert(args.deep_view() =~= self.args.deep_view());
        }
        Function { name: self.name.clone(), args, body: Box::new(clone_stmt(&self.body)) }
    }
}

} // verus!
