use vstd::prelude::*;
use crate::ast::{stmts_view, strings_view, BlockStatment, Op, SpecStmt};
use crate::ast::copy_strings;

verus! {

/// A runtime value.
#[derive(Debug, PartialEq)]
pub enum Object {
    Integer(i64),
    String(String),
    Boolean(bool),
    Nil,
    /// A value on its way out of a function body.
    Return(Box<Object>),
    /// A function with the environment it was defined in.
    Function { parameters: Vec<String>, body: BlockStatment, env: usize },
}

/// The model of an `Object`.
pub enum SpecValue {
    Int(i64),
    Str(Seq<char>),
    Bool(bool),
    Nil,
    Ret(Box<SpecValue>),
    Func { params: Seq<Seq<char>>, body: Seq<SpecStmt>, env: nat },
}

/// The runtime type of a value, as error messages name it.
#[derive(PartialEq, Eq, Structural, Clone, Copy, Debug)]
pub enum ValueType {
    Integer,
    String,
    Boolean,
    Nil,
    Function,
}

/// What an error message shows of an operand: a boolean by its value,
/// anything else by its type.
#[derive(PartialEq, Eq, Structural, Clone, Copy, Debug)]
pub enum Operand {
    Boolean(bool),
    Type(ValueType),
}

pub open spec fn type_of(v: SpecValue) -> ValueType
    decreases v,
{
    match v {
        SpecValue::Int(_) => ValueType::Integer,
        SpecValue::Str(_) => ValueType::String,
        SpecValue::Bool(_) => ValueType::Boolean,
        SpecValue::Nil => ValueType::Nil,
        SpecValue::Ret(inner) => type_of(*inner),
        SpecValue::Func { .. } => ValueType::Function,
    }
}

pub open spec fn operand_of(v: SpecValue) -> Operand {
    match v {
        SpecValue::Bool(b) => Operand::Boolean(b),
        _ => Operand::Type(type_of(v)),
    }
}

/// Only `Nil` and `false` are falsy.
pub open spec fn truthy(v: SpecValue) -> bool {
    match v {
        SpecValue::Nil => false,
        SpecValue::Bool(b) => b,
        _ => true,
    }
}

pub open spec fn type_text(t: ValueType) -> Seq<char> {
    match t {
        ValueType::Integer => seq!['I', 'N', 'T'],
        ValueType::String => seq!['S', 'T', 'R', 'I', 'N', 'G'],
        ValueType::Boolean => seq!['B', 'O', 'O', 'L', 'E', 'A', 'N'],
        ValueType::Nil => seq!['N', 'I', 'L'],
        ValueType::Function => seq!['F', 'U', 'N', 'C', 'T', 'I', 'O', 'N'],
    }
}

impl ValueType {
    /// The name of the type.
    pub fn text(&self) -> (r: &'static str)
        ensures
            r@ == type_text(*self),
    {
        proof {
            reveal_strlit("INT");
            reveal_strlit("STRING");
            reveal_strlit("BOOLEAN");
            reveal_strlit("NIL");
            reveal_strlit("FUNCTION");
        }
        match self {
            ValueType::Integer => "INT",
            ValueType::String => "STRING",
            ValueType::Boolean => "BOOLEAN",
            ValueType::Nil => "NIL",
            ValueType::Function => "FUNCTION",
        }
    }
}

impl Object {
    pub open spec fn view(&self) -> SpecValue
        decreases self,
    {
        match self {
            Object::Integer(n) => SpecValue::Int(*n),
            Object::String(s) => SpecValue::Str(s@),
            Object::Boolean(b) => SpecValue::Bool(*b),
            Object::Nil => SpecValue::Nil,
            Object::Return(v) => SpecValue::Ret(Box::new(v.view())),
            Object::Function { parameters, body, env } => SpecValue::Func {
                params: strings_view(parameters@),
                body: stmts_view(body.statements@),
                env: *env as nat,
            },
        }
    }

    /// A copy of the value.
    pub fn copy(&self) -> (r: Self)
        ensures
            r@ == self@,
        decreases self,
    {
        match self {
            Object::Integer(n) => Object::Integer(*n),
            Object::String(s) => Object::String(s.clone()),
            Object::Boolean(b) => Object::Boolean(*b),
            Object::Nil => Object::Nil,
            Object::Return(v) => Object::Return(Box::new(v.copy())),
            Object::Function { parameters, body, env } => Object::Function {
                parameters: copy_strings(parameters),
                body: body.copy(),
                env: *env,
            },
        }
    }

    /// The runtime type of the value; a returned value has the type of what it holds.
    pub fn value_type(&self) -> (r: ValueType)
        ensures
            r == type_of(self@),
        decreases self,
    {
        match self {
            Object::Integer(_) => ValueType::Integer,
            Object::String(_) => ValueType::String,
            Object::Boolean(_) => ValueType::Boolean,
            Object::Nil => ValueType::Nil,
            Object::Return(v) => v.value_type(),
            Object::Function { .. } => ValueType::Function,
        }
    }

    /// The name of the value's runtime type.
    pub fn type_info(&self) -> (r: String)
        ensures
            r@ == type_text(type_of(self@)),
    {
        self.value_type().text().to_owned()
    }

    /// What an error message shows of the value.
    pub fn operand(&self) -> (r: Operand)
        ensures
            r == operand_of(self@),
    {
        match self {
            Object::Boolean(b) => Operand::Boolean(*b),
            _ => Operand::Type(self.value_type()),
        }
    }

    /// Whether the value counts as true in a condition.
    pub fn is_truthy(&self) -> (r: bool)
        ensures
            r == truthy(self@),
    {
        match self {
            Object::Nil => false,
            Object::Boolean(b) => *b,
            _ => true,
        }
    }
}

/// An error met while evaluating.
#[derive(Debug, PartialEq)]
pub enum EvalError {
    IdentifierNotFound(String),
    TypeMismatch(ValueType, Op, ValueType),
    UnknownPrefixOperator(Op, Operand),
    UnknownInfixOperator(Operand, Op, Operand),
    NotCallable(ValueType),
    WrongArgumentCount { expected: usize, got: usize },
    DivisionByZero,
    IntegerOverflow,
    CallDepthExceeded,
}

/// The model of an `EvalError`.
pub enum SpecEvalError {
    IdentifierNotFound(Seq<char>),
    TypeMismatch(ValueType, Op, ValueType),
    UnknownPrefixOperator(Op, Operand),
    UnknownInfixOperator(Operand, Op, Operand),
    NotCallable(ValueType),
    WrongArgumentCount { expected: nat, got: nat },
    DivisionByZero,
    IntegerOverflow,
    CallDepthExceeded,
}

impl EvalError {
    pub open spec fn view(&self) -> SpecEvalError {
        match self {
            EvalError::IdentifierNotFound(s) => SpecEvalError::IdentifierNotFound(s@),
            EvalError::TypeMismatch(l, op, r) => SpecEvalError::TypeMismatch(*l, *op, *r),
            EvalError::UnknownPrefixOperator(op, v) => SpecEvalError::UnknownPrefixOperator(*op, *v),
            EvalError::UnknownInfixOperator(l, op, r) => SpecEvalError::UnknownInfixOperator(
                *l,
                *op,
                *r,
            ),
            EvalError::NotCallable(t) => SpecEvalError::NotCallable(*t),
            EvalError::WrongArgumentCount { expected, got } => SpecEvalError::WrongArgumentCount {
                expected: *expected as nat,
                got: *got as nat,
            },
            EvalError::DivisionByZero => SpecEvalError::DivisionByZero,
            EvalError::IntegerOverflow => SpecEvalError::IntegerOverflow,
            EvalError::CallDepthExceeded => SpecEvalError::CallDepthExceeded,
        }
    }
}

} // verus!
