use vstd::prelude::*;
use crate::ast::{
    exprs_view, stmts_view, strings_view, BlockStatment, Expression, Node, Op, SpecExpr, SpecStmt,
    Statement,
};
use crate::ast::copy_strings;
use crate::environment::{lookup, Environment, Scopes, SpecEnv};
use crate::object::{
    operand_of, truthy, type_of, EvalError, Object, Operand, SpecEvalError, SpecValue, ValueType,
};

verus! {

/// How deeply calls may nest before evaluation gives up.
pub const MAX_CALL_DEPTH: usize = 200;

/// An outcome of evaluation, with the environments as they stand after it.
pub type Evaluated<T> = (Result<T, SpecEvalError>, Seq<SpecEnv>);

pub open spec fn int_result(x: int) -> Result<SpecValue, SpecEvalError> {
    if i64::MIN <= x <= i64::MAX {
        Ok(SpecValue::Int(x as i64))
    } else {
        Err(SpecEvalError::IntegerOverflow)
    }
}

pub open spec fn abs(x: int) -> int {
    if x < 0 {
        -x
    } else {
        x
    }
}

/// Division that rounds toward zero.
pub open spec fn trunc_div(a: int, b: int) -> int {
    let q = abs(a) / abs(b);
    if (a < 0) != (b < 0) {
        -q
    } else {
        q
    }
}

pub open spec fn eval_prefix(op: Op, v: SpecValue) -> Result<SpecValue, SpecEvalError> {
    match op {
        Op::Bang => Ok(SpecValue::Bool(!truthy(v))),
        Op::Subtract => match v {
            SpecValue::Int(n) => int_result(-n),
            _ => Err(SpecEvalError::UnknownPrefixOperator(op, operand_of(v))),
        },
        _ => Err(SpecEvalError::UnknownPrefixOperator(op, operand_of(v))),
    }
}

pub open spec fn eval_int_infix(a: i64, op: Op, b: i64) -> Result<SpecValue, SpecEvalError> {
    match op {
        Op::Add => int_result(a + b),
        Op::Subtract => int_result(a - b),
        Op::Multiply => int_result(a * b),
        Op::Divide => if b == 0 {
            Err(SpecEvalError::DivisionByZero)
        } else {
            int_result(trunc_div(a as int, b as int))
        },
        Op::LessThan => Ok(SpecValue::Bool(a < b)),
        Op::GreaterThan => Ok(SpecValue::Bool(a > b)),
        Op::Equals => Ok(SpecValue::Bool(a == b)),
        Op::NotEquals => Ok(SpecValue::Bool(a != b)),
        _ => Err(
            SpecEvalError::UnknownInfixOperator(
                Operand::Type(ValueType::Integer),
                op,
                Operand::Type(ValueType::Integer),
            ),
        ),
    }
}

/// An infix operator applied to two values, dispatched on their types.
pub open spec fn eval_infix(l: SpecValue, op: Op, r: SpecValue) -> Result<SpecValue, SpecEvalError> {
    match (l, r) {
        (SpecValue::Int(a), SpecValue::Int(b)) => eval_int_infix(a, op, b),
        (SpecValue::Bool(a), SpecValue::Bool(b)) => match op {
            Op::Equals => Ok(SpecValue::Bool(a == b)),
            Op::NotEquals => Ok(SpecValue::Bool(a != b)),
            _ => Err(
                SpecEvalError::UnknownInfixOperator(Operand::Boolean(a), op, Operand::Boolean(b)),
            ),
        },
        (SpecValue::Str(a), SpecValue::Str(b)) => match op {
            Op::Add => Ok(SpecValue::Str(a + b)),
            _ => Err(
                SpecEvalError::UnknownInfixOperator(
                    Operand::Type(ValueType::String),
                    op,
                    Operand::Type(ValueType::String),
                ),
            ),
        },
        _ => Err(SpecEvalError::TypeMismatch(type_of(l), op, type_of(r))),
    }
}

/// Each parameter bound to the argument at its position.
pub open spec fn bind_params(params: Seq<Seq<char>>, args: Seq<SpecValue>) -> Seq<
    (Seq<char>, SpecValue),
> {
    Seq::new(params.len(), |i: int| (params[i], args[i]))
}

/// A returned value stops at a call: the caller sees what it holds.
pub open spec fn unwrap_return(v: SpecValue) -> SpecValue {
    match v {
        SpecValue::Ret(inner) => *inner,
        _ => v,
    }
}

/// Binds `name` to `v` in environment `env`.
pub open spec fn define(st: Seq<SpecEnv>, env: nat, name: Seq<char>, v: SpecValue) -> Seq<SpecEnv> {
    if env < st.len() {
        st.update(
            env as int,
            SpecEnv { bindings: st[env as int].bindings.push((name, v)), outer: st[env as int].outer },
        )
    } else {
        st
    }
}

/// The value of `e` in environment `env`, with calls nested at most `fuel` deep.
pub open spec fn eval_expr(fuel: nat, e: SpecExpr, env: nat, st: Seq<SpecEnv>) -> Evaluated<
    SpecValue,
>
    decreases fuel, e, 0nat,
{
    match e {
        SpecExpr::Number(n) => (Ok(SpecValue::Int(n)), st),
        SpecExpr::Str(s) => (Ok(SpecValue::Str(s)), st),
        SpecExpr::Bool(b) => (Ok(SpecValue::Bool(b)), st),
        SpecExpr::Ident(name) => match lookup(st, env as int, name) {
            Some(v) => (Ok(v), st),
            None => (Err(SpecEvalError::IdentifierNotFound(name)), st),
        },
        SpecExpr::Prefix { op, right } => {
            let (r, st1) = eval_expr(fuel, *right, env, st);
            match r {
                Err(x) => (Err(x), st1),
                Ok(v) => (eval_prefix(op, v), st1),
            }
        },
        SpecExpr::Infix { left, op, right } => {
            let (l, st1) = eval_expr(fuel, *left, env, st);
            match l {
                Err(x) => (Err(x), st1),
                Ok(lv) => {
                    let (r, st2) = eval_expr(fuel, *right, env, st1);
                    match r {
                        Err(x) => (Err(x), st2),
                        Ok(rv) => (eval_infix(lv, op, rv), st2),
                    }
                },
            }
        },
        SpecExpr::If { cond, cons, alt } => {
            let (c, st1) = eval_expr(fuel, *cond, env, st);
            match c {
                Err(x) => (Err(x), st1),
                Ok(cv) => if truthy(cv) {
                    eval_stmts(fuel, cons, 0, env, st1, SpecValue::Nil)
                } else {
                    match alt {
                        Some(a) => eval_stmts(fuel, a, 0, env, st1, SpecValue::Nil),
                        None => (Ok(SpecValue::Nil), st1),
                    }
                },
            }
        },
        SpecExpr::Function { params, body } => (Ok(SpecValue::Func { params, body, env }), st),
        SpecExpr::Call { callee, args } => {
            let (c, st1) = eval_expr(fuel, *callee, env, st);
            match c {
                Err(x) => (Err(x), st1),
                Ok(f) => match f {
                    SpecValue::Func { params, body, env: fenv } => {
                        let (a, st2) = eval_args(fuel, args, 0, env, st1);
                        match a {
                            Err(x) => (Err(x), st2),
                            Ok(vals) => if vals.len() != params.len() {
                                (
                                    Err(
                                        SpecEvalError::WrongArgumentCount {
                                            expected: params.len(),
                                            got: vals.len(),
                                        },
                                    ),
                                    st2,
                                )
                            } else if fuel == 0 {
                                (Err(SpecEvalError::CallDepthExceeded), st2)
                            } else {
                                let st3 = st2.push(
                                    SpecEnv { bindings: bind_params(params, vals), outer: Some(fenv) },
                                );
                                let (r, st4) = eval_stmts(
                                    (fuel - 1) as nat,
                                    body,
                                    0,
                                    st2.len(),
                                    st3,
                                    SpecValue::Nil,
                                );
                                match r {
                                    Err(x) => (Err(x), st4),
                                    Ok(v) => (Ok(unwrap_return(v)), st4),
                                }
                            },
                        }
                    },
                    _ => (Err(SpecEvalError::NotCallable(type_of(f))), st1),
                },
            }
        },
    }
}

/// The value of a statement.
pub open spec fn eval_stmt(fuel: nat, s: SpecStmt, env: nat, st: Seq<SpecEnv>) -> Evaluated<
    SpecValue,
>
    decreases fuel, s, 0nat,
{
    match s {
        SpecStmt::Let { name, value } => {
            let (r, st1) = eval_expr(fuel, value, env, st);
            match r {
                Err(x) => (Err(x), st1),
                Ok(v) => (Ok(SpecValue::Nil), define(st1, env, name, v)),
            }
        },
        SpecStmt::Return { value } => {
            let (r, st1) = eval_expr(fuel, value, env, st);
            match r {
                Err(x) => (Err(x), st1),
                Ok(v) => (Ok(SpecValue::Ret(Box::new(v))), st1),
            }
        },
        SpecStmt::Expr { value } => eval_expr(fuel, value, env, st),
    }
}

/// Runs the statements from `i` on; the result is the last one's value (`last`
/// when none is left), or the first returned value, which stops the run.
pub open spec fn eval_stmts(
    fuel: nat,
    stmts: Seq<SpecStmt>,
    i: int,
    env: nat,
    st: Seq<SpecEnv>,
    last: SpecValue,
) -> Evaluated<SpecValue>
    decreases fuel, stmts, stmts.len() - i,
{
    if !(0 <= i < stmts.len()) {
        (Ok(last), st)
    } else {
        let (r, st1) = eval_stmt(fuel, stmts[i], env, st);
        match r {
            Err(x) => (Err(x), st1),
            Ok(v) => if v is Ret {
                (Ok(v), st1)
            } else {
                eval_stmts(fuel, stmts, i + 1, env, st1, v)
            },
        }
    }
}

/// The values of the arguments from `i` on, from left to right.
pub open spec fn eval_args(fuel: nat, args: Seq<SpecExpr>, i: int, env: nat, st: Seq<SpecEnv>) -> Evaluated<
    Seq<SpecValue>,
>
    decreases fuel, args, args.len() - i,
{
    if !(0 <= i < args.len()) {
        (Ok(Seq::empty()), st)
    } else {
        let (r, st1) = eval_expr(fuel, args[i], env, st);
        match r {
            Err(x) => (Err(x), st1),
            Ok(v) => {
                let (rest, st2) = eval_args(fuel, args, i + 1, env, st1);
                match rest {
                    Err(x) => (Err(x), st2),
                    Ok(vs) => (Ok(seq![v] + vs), st2),
                }
            },
        }
    }
}

/// The environments a program starts with: one empty global scope.
pub open spec fn initial_scopes() -> Seq<SpecEnv> {
    seq![SpecEnv { bindings: Seq::empty(), outer: None }]
}

/// The value of a program: its statements run in the global scope; a value
/// returned at top level is shown as what it holds.
pub open spec fn eval_program(stmts: Seq<SpecStmt>) -> Result<SpecValue, SpecEvalError> {
    match eval_stmts(MAX_CALL_DEPTH as nat, stmts, 0, 0, initial_scopes(), SpecValue::Nil).0 {
        Ok(v) => Ok(unwrap_return(v)),
        Err(x) => Err(x),
    }
}

pub open spec fn result_view(r: Result<Object, EvalError>) -> Result<SpecValue, SpecEvalError> {
    match r {
        Ok(v) => Ok(v@),
        Err(x) => Err(x@),
    }
}

pub open spec fn values_view(v: Seq<Object>) -> Seq<SpecValue> {
    v.map_values(|o: Object| o@)
}

pub proof fn lemma_stmts_view_index(s: Seq<Statement>)
    ensures
        stmts_view(s).len() == s.len(),
        forall|i: int| 0 <= i < s.len() ==> #[trigger] stmts_view(s)[i] == s[i]@,
    decreases s.len(),
{
    if s.len() > 0 {
        lemma_stmts_view_index(s.drop_last());
        assert forall|i: int| 0 <= i < s.len() implies #[trigger] stmts_view(s)[i] == s[i]@ by {
            if i < s.len() - 1 {
                assert(s.drop_last()[i] == s[i]);
            }
        }
    }
}

pub proof fn lemma_exprs_view_index(s: Seq<Expression>)
    ensures
        exprs_view(s).len() == s.len(),
        forall|i: int| 0 <= i < s.len() ==> #[trigger] exprs_view(s)[i] == s[i]@,
    decreases s.len(),
{
    if s.len() > 0 {
        lemma_exprs_view_index(s.drop_last());
        assert forall|i: int| 0 <= i < s.len() implies #[trigger] exprs_view(s)[i] == s[i]@ by {
            if i < s.len() - 1 {
                assert(s.drop_last()[i] == s[i]);
            }
        }
    }
}

fn int_value(x: i128) -> (r: Result<Object, EvalError>)
    ensures
        result_view(r) == int_result(x as int),
{
    if x < i64::MIN as i128 || x > i64::MAX as i128 {
        Err(EvalError::IntegerOverflow)
    } else {
        Ok(Object::Integer(x as i64))
    }
}

fn prefix_value(op: Op, v: Object) -> (r: Result<Object, EvalError>)
    ensures
        result_view(r) == eval_prefix(op, v@),
{
    match op {
        Op::Bang => Ok(Object::Boolean(!v.is_truthy())),
        Op::Subtract => match v {
            Object::Integer(n) => int_value(-(n as i128)),
            _ => Err(EvalError::UnknownPrefixOperator(op, v.operand())),
        },
        _ => Err(EvalError::UnknownPrefixOperator(op, v.operand())),
    }
}

fn int_infix_value(a: i64, op: Op, b: i64) -> (r: Result<Object, EvalError>)
    ensures
        result_view(r) == eval_int_infix(a, op, b),
{
    let x = a as i128;
    let y = b as i128;
    match op {
        Op::Add => int_value(x + y),
        Op::Subtract => int_value(x - y),
        Op::Multiply => {
            assert(-0x4000_0000_0000_0000_0000_0000_0000_0000 <= x * y
                <= 0x4000_0000_0000_0000_0000_0000_0000_0000) by (nonlinear_arith)
                requires
                    i64::MIN <= x <= i64::MAX,
                    i64::MIN <= y <= i64::MAX,
            ;
            int_value(x * y)
        },
        Op::Divide => {
            if b == 0 {
                return Err(EvalError::DivisionByZero);
            }
            let ux: i128 = if x < 0 {
                -x
            } else {
                x
            };
            let uy: i128 = if y < 0 {
                -y
            } else {
                y
            };
            let q = ux / uy;
            assert(q == abs(a as int) / abs(b as int));
            assert(0 <= q <= ux) by (nonlinear_arith)
                requires
                    q == ux / uy,
                    ux >= 0,
                    uy >= 1,
            ;
            if (x < 0) != (y < 0) {
                int_value(-q)
            } else {
                int_value(q)
            }
        },
        Op::LessThan => Ok(Object::Boolean(a < b)),
        Op::GreaterThan => Ok(Object::Boolean(a > b)),
        Op::Equals => Ok(Object::Boolean(a == b)),
        Op::NotEquals => Ok(Object::Boolean(a != b)),
        _ => Err(
            EvalError::UnknownInfixOperator(
                Operand::Type(ValueType::Integer),
                op,
                Operand::Type(ValueType::Integer),
            ),
        ),
    }
}

fn infix_value(l: Object, op: Op, r: Object) -> (res: Result<Object, EvalError>)
    ensures
        result_view(res) == eval_infix(l@, op, r@),
{
    match (&l, &r) {
        (Object::Integer(a), Object::Integer(b)) => int_infix_value(*a, op, *b),
        (Object::Boolean(a), Object::Boolean(b)) => match op {
            Op::Equals => Ok(Object::Boolean(*a == *b)),
            Op::NotEquals => Ok(Object::Boolean(*a != *b)),
            _ => Err(EvalError::UnknownInfixOperator(Operand::Boolean(*a), op, Operand::Boolean(*b))),
        },
        (Object::String(a), Object::String(b)) => match op {
            Op::Add => {
                let mut s = a.clone();
                s.append(b.as_str());
                Ok(Object::String(s))
            },
            _ => Err(
                EvalError::UnknownInfixOperator(
                    Operand::Type(ValueType::String),
                    op,
                    Operand::Type(ValueType::String),
                ),
            ),
        },
        _ => Err(EvalError::TypeMismatch(l.value_type(), op, r.value_type())),
    }
}

fn unwrap_return_value(v: Object) -> (r: Object)
    ensures
        r@ == unwrap_return(v@),
{
    match v {
        Object::Return(inner) => *inner,
        other => other,
    }
}

/// The value of `e` in environment `env`, with calls nested at most `fuel` deep.
pub fn eval_expression(e: &Expression, env: usize, scopes: &mut Scopes, fuel: usize) -> (r: Result<
    Object,
    EvalError,
>)
    requires
        env < old(scopes)@.len(),
    ensures
        (result_view(r), final(scopes)@) == eval_expr(fuel as nat, e@, env as nat, old(scopes)@),
        final(scopes)@.len() >= old(scopes)@.len(),
    decreases fuel, e, 0nat,
{
    match e {
        Expression::Number(n) => Ok(Object::Integer(*n)),
        Expression::String(s) => Ok(Object::String(s.clone())),
        Expression::Boolean(b) => Ok(Object::Boolean(*b)),
        Expression::Identifier(name) => match scopes.lookup(env, name) {
            Some(v) => Ok(v),
            None => Err(EvalError::IdentifierNotFound(name.clone())),
        },
        Expression::PrefixExpression { op, right } => {
            let v = eval_expression(right, env, scopes, fuel)?;
            prefix_value(*op, v)
        },
        Expression::InfixExpression { left, op, right } => {
            let l = eval_expression(left, env, scopes, fuel)?;
            let r = eval_expression(right, env, scopes, fuel)?;
            infix_value(l, *op, r)
        },
        Expression::IfExpression { condition, consequence, alternative } => {
            let c = eval_expression(condition, env, scopes, fuel)?;
            if c.is_truthy() {
                eval_block_statement(consequence, env, scopes, fuel)
            } else {
                match alternative {
                    Some(a) => eval_block_statement(a, env, scopes, fuel),
                    None => Ok(Object::Nil),
                }
            }
        },
        Expression::FunctionLiteral { parameters, body } => Ok(
            Object::Function { parameters: copy_strings(parameters), body: body.copy(), env },
        ),
        Expression::CallExpression { function, arguments } => {
            let f = eval_expression(function, env, scopes, fuel)?;
            match f {
                Object::Function { parameters, body, env: fenv } => {
                    let args = eval_arguments(arguments, env, scopes, fuel)?;
                    if args.len() != parameters.len() {
                        return Err(
                            EvalError::WrongArgumentCount {
                                expected: parameters.len(),
                                got: args.len(),
                            },
                        );
                    }
                    if fuel == 0 {
                        return Err(EvalError::CallDepthExceeded);
                    }
                    let frame = bind_arguments(&parameters, args, fenv);
                    let id = scopes.push(frame);
                    let v = eval_block_statement(&body, id, scopes, fuel - 1)?;
                    Ok(unwrap_return_value(v))
                },
                _ => Err(EvalError::NotCallable(f.value_type())),
            }
        },
    }
}

/// A new environment, enclosed by `outer`, that binds each parameter to the
/// argument at its position.
fn bind_arguments(parameters: &Vec<String>, args: Vec<Object>, outer: usize) -> (r: Environment)
    requires
        args@.len() == parameters@.len(),
    ensures
        r@ == (SpecEnv {
            bindings: bind_params(strings_view(parameters@), values_view(args@)),
            outer: Some(outer as nat),
        }),
{
    let ghost pv = strings_view(parameters@);
    let ghost av = values_view(args@);
    let mut frame = Environment::new_enclosed_environment(outer);
    let mut rest = args;
    let mut i: usize = 0;
    while i < parameters.len()
        invariant
            i <= parameters@.len(),
            pv == strings_view(parameters@),
            av.len() == parameters@.len(),
            values_view(rest@) == av.subrange(i as int, av.len() as int),
            frame@.bindings == bind_params(pv.subrange(0, i as int), av.subrange(0, i as int)),
            frame@.outer == Some(outer as nat),
        decreases parameters.len() - i,
    {
        assert(values_view(rest@).len() == rest@.len());
        assert(rest@.len() == parameters@.len() - i);
        let ghost old_rest = rest@;
        let v = rest.remove(0);
        assert(v@ == values_view(old_rest)[0]);
        assert(v@ == av[i as int]);
        frame.set(parameters[i].clone(), v);
        assert(values_view(rest@) =~= values_view(old_rest).subrange(1, old_rest.len() as int));
        assert(values_view(rest@) =~= av.subrange(i + 1, av.len() as int));
        i = i + 1;
        assert(frame@.bindings =~= bind_params(pv.subrange(0, i as int), av.subrange(0, i as int)));
    }
    assert(pv.subrange(0, i as int) =~= pv);
    assert(av.subrange(0, i as int) =~= av);
    frame
}

/// The values of the arguments, from left to right.
fn eval_arguments(args: &Vec<Expression>, env: usize, scopes: &mut Scopes, fuel: usize) -> (r:
    Result<Vec<Object>, EvalError>)
    requires
        env < old(scopes)@.len(),
    ensures
        ({
            let (m, st) = eval_args(fuel as nat, exprs_view(args@), 0, env as nat, old(scopes)@);
            &&& final(scopes)@ == st
            &&& match m {
                Ok(vs) => r matches Ok(x) && values_view(x@) == vs,
                Err(e) => r matches Err(x) && x@ == e,
            }
        }),
        final(scopes)@.len() >= old(scopes)@.len(),
    decreases fuel, args, 0nat,
{
    let ghost av = exprs_view(args@);
    let ghost st0 = scopes@;
    proof {
        lemma_exprs_view_index(args@);
    }
    let mut out: Vec<Object> = Vec::new();
    let mut i: usize = 0;
    while i < args.len()
        invariant
            i <= args@.len(),
            av == exprs_view(args@),
            av.len() == args@.len(),
            forall|j: int| 0 <= j < args@.len() ==> #[trigger] av[j] == args@[j]@,
            env < scopes@.len(),
            scopes@.len() >= st0.len(),
            st0 == old(scopes)@,
            eval_args(fuel as nat, av, 0, env as nat, st0) == match eval_args(
                fuel as nat,
                av,
                i as int,
                env as nat,
                scopes@,
            ) {
                (Ok(rest), s) => (Ok(values_view(out@) + rest), s),
                (Err(x), s) => (Err(x), s),
            },
        decreases args.len() - i,
    {
        let v = eval_expression(&args[i], env, scopes, fuel)?;
        let ghost vv = v@;
        let ghost prev = out@;
        out.push(v);
        proof {
            assert(values_view(out@) =~= values_view(prev).push(vv));
            match eval_args(fuel as nat, av, i + 1, env as nat, scopes@) {
                (Ok(rest), s) => {
                    assert(values_view(out@) + rest =~= values_view(prev) + (seq![vv] + rest));
                },
                (Err(x), s) => {},
            }
        }
        i = i + 1;
    }
    assert(values_view(out@) + Seq::<SpecValue>::empty() =~= values_view(out@));
    Ok(out)
}

/// Runs a block's statements in environment `env`.
pub fn eval_block_statement(b: &BlockStatment, env: usize, scopes: &mut Scopes, fuel: usize) -> (r:
    Result<Object, EvalError>)
    requires
        env < old(scopes)@.len(),
    ensures
        (result_view(r), final(scopes)@) == eval_stmts(
            fuel as nat,
            stmts_view(b.statements@),
            0,
            env as nat,
            old(scopes)@,
            SpecValue::Nil,
        ),
        final(scopes)@.len() >= old(scopes)@.len(),
    decreases fuel, b, 1nat,
{
    eval_statements(&b.statements, env, scopes, fuel)
}

/// Runs statements in order in environment `env`: the result is the last
/// one's value, or the first returned value, which stops the run.
pub fn eval_statements(stmts: &Vec<Statement>, env: usize, scopes: &mut Scopes, fuel: usize) -> (r:
    Result<Object, EvalError>)
    requires
        env < old(scopes)@.len(),
    ensures
        (result_view(r), final(scopes)@) == eval_stmts(
            fuel as nat,
            stmts_view(stmts@),
            0,
            env as nat,
            old(scopes)@,
            SpecValue::Nil,
        ),
        final(scopes)@.len() >= old(scopes)@.len(),
    decreases fuel, stmts, 0nat,
{
    let ghost sv = stmts_view(stmts@);
    let ghost st0 = scopes@;
    proof {
        lemma_stmts_view_index(stmts@);
    }
    let mut last = Object::Nil;
    let mut i: usize = 0;
    while i < stmts.len()
        invariant
            i <= stmts@.len(),
            sv == stmts_view(stmts@),
            sv.len() == stmts@.len(),
            forall|j: int| 0 <= j < stmts@.len() ==> #[trigger] sv[j] == stmts@[j]@,
            env < scopes@.len(),
            scopes@.len() >= st0.len(),
            st0 == old(scopes)@,
            eval_stmts(fuel as nat, sv, 0, env as nat, st0, SpecValue::Nil) == eval_stmts(
                fuel as nat,
                sv,
                i as int,
                env as nat,
                scopes@,
                last@,
            ),
        decreases stmts.len() - i,
    {
        let v = eval_statment(&stmts[i], env, scopes, fuel)?;
        if let Object::Return(_) = v {
            return Ok(v);
        }
        last = v;
        i = i + 1;
    }
    Ok(last)
}

/// The value of one statement in environment `env`.
pub fn eval_statment(s: &Statement, env: usize, scopes: &mut Scopes, fuel: usize) -> (r: Result<
    Object,
    EvalError,
>)
    requires
        env < old(scopes)@.len(),
    ensures
        (result_view(r), final(scopes)@) == eval_stmt(fuel as nat, s@, env as nat, old(scopes)@),
        final(scopes)@.len() >= old(scopes)@.len(),
    decreases fuel, s, 0nat,
{
    match s {
        Statement::Let { name, value } => {
            let v = eval_expression(value, env, scopes, fuel)?;
            scopes.define(env, name.clone(), v);
            Ok(Object::Nil)
        },
        Statement::Return { value } => {
            let v = eval_expression(value, env, scopes, fuel)?;
            Ok(Object::Return(Box::new(v)))
        },
        Statement::StatmentExpression { value } => eval_expression(value, env, scopes, fuel),
    }
}

/// The value of any node in environment `env`. A program's value is its
/// statements' value, with a returned value shown as what it holds.
pub fn eval(node: &Node, env: usize, scopes: &mut Scopes) -> (r: Result<Object, EvalError>)
    requires
        env < old(scopes)@.len(),
    ensures
        final(scopes)@.len() >= old(scopes)@.len(),
        match node {
            Node::Program(p) => {
                let (m, st) = eval_stmts(
                    MAX_CALL_DEPTH as nat,
                    stmts_view(p@),
                    0,
                    env as nat,
                    old(scopes)@,
                    SpecValue::Nil,
                );
                &&& final(scopes)@ == st
                &&& result_view(r) == match m {
                    Ok(v) => Ok(unwrap_return(v)),
                    Err(x) => Err(x),
                }
            },
            Node::Statment(s) => (result_view(r), final(scopes)@) == eval_stmt(
                MAX_CALL_DEPTH as nat,
                s@,
                env as nat,
                old(scopes)@,
            ),
            Node::Expression(e) => (result_view(r), final(scopes)@) == eval_expr(
                MAX_CALL_DEPTH as nat,
                e@,
                env as nat,
                old(scopes)@,
            ),
            Node::BlockStatment(b) => (result_view(r), final(scopes)@) == eval_stmts(
                MAX_CALL_DEPTH as nat,
                stmts_view(b.statements@),
                0,
                env as nat,
                old(scopes)@,
                SpecValue::Nil,
            ),
        },
{
    match node {
        Node::Program(p) => match eval_statements(p, env, scopes, MAX_CALL_DEPTH) {
            Ok(v) => Ok(unwrap_return_value(v)),
            Err(x) => Err(x),
        },
        Node::Statment(s) => eval_statment(s, env, scopes, MAX_CALL_DEPTH),
        Node::Expression(e) => eval_expression(e, env, scopes, MAX_CALL_DEPTH),
        Node::BlockStatment(b) => eval_block_statement(b, env, scopes, MAX_CALL_DEPTH),
    }
}

/// Negating twice gives a value's truthiness: whenever `e` evaluates to `v`,
/// `!!e` evaluates to the boolean `truthy(v)`, with the same effect on the
/// environments.
pub proof fn lemma_double_negation(fuel: nat, e: SpecExpr, env: nat, st: Seq<SpecEnv>)
    requires
        eval_expr(fuel, e, env, st).0 is Ok,
    ensures
        ({
            let (r, st1) = eval_expr(fuel, e, env, st);
            eval_expr(
                fuel,
                SpecExpr::Prefix {
                    op: Op::Bang,
                    right: Box::new(SpecExpr::Prefix { op: Op::Bang, right: Box::new(e) }),
                },
                env,
                st,
            ) == (Ok::<SpecValue, SpecEvalError>(SpecValue::Bool(truthy(r->Ok_0))), st1)
        }),
{
    let inner = SpecExpr::Prefix { op: Op::Bang, right: Box::new(e) };
    assert(eval_expr(fuel, inner, env, st) == (
        Ok::<SpecValue, SpecEvalError>(SpecValue::Bool(!truthy(eval_expr(fuel, e, env, st).0->Ok_0))),
        eval_expr(fuel, e, env, st).1,
    ));
}

/// A returned value ends a block: once statement `i` yields a return signal,
/// the block yields that signal, and no later statement runs.
pub proof fn lemma_return_stops_block(
    fuel: nat,
    stmts: Seq<SpecStmt>,
    i: int,
    env: nat,
    st: Seq<SpecEnv>,
    last: SpecValue,
)
    requires
        0 <= i < stmts.len(),
        eval_stmt(fuel, stmts[i], env, st).0 matches Ok(v) && v is Ret,
    ensures
        eval_stmts(fuel, stmts, i, env, st, last) == eval_stmt(fuel, stmts[i], env, st),
{
}

/// A block runs its statements in order: until one fails or returns, each
/// statement runs in the environments the one before it left, and the block
/// goes on from there.
pub proof fn lemma_block_continues(
    fuel: nat,
    stmts: Seq<SpecStmt>,
    i: int,
    env: nat,
    st: Seq<SpecEnv>,
    last: SpecValue,
)
    requires
        0 <= i < stmts.len(),
        eval_stmt(fuel, stmts[i], env, st).0 matches Ok(v) && !(v is Ret),
    ensures
        eval_stmts(fuel, stmts, i, env, st, last) == eval_stmts(
            fuel,
            stmts,
            i + 1,
            env,
            eval_stmt(fuel, stmts[i], env, st).1,
            eval_stmt(fuel, stmts[i], env, st).0->Ok_0,
        ),
{
}

/// A return signal stops at the call that produced it: when a function body
/// yields a return signal, the call yields the value it holds.
pub proof fn lemma_call_absorbs_return(
    fuel: nat,
    callee: SpecExpr,
    args: Seq<SpecExpr>,
    env: nat,
    st: Seq<SpecEnv>,
)
    requires
        fuel > 0,
        ({
            let (c, st1) = eval_expr(fuel, callee, env, st);
            &&& c matches Ok(f) && f is Func
            &&& eval_args(fuel, args, 0, env, st1).0 matches Ok(vals) && vals.len()
                == c->Ok_0->Func_params.len()
        }),
    ensures
        ({
            let (c, st1) = eval_expr(fuel, callee, env, st);
            let f = c->Ok_0;
            let (a, st2) = eval_args(fuel, args, 0, env, st1);
            let body_env = SpecEnv {
                bindings: bind_params(f->Func_params, a->Ok_0),
                outer: Some(f->Func_env),
            };
            let (r, st4) = eval_stmts(
                (fuel - 1) as nat,
                f->Func_body,
                0,
                st2.len(),
                st2.push(body_env),
                SpecValue::Nil,
            );
            r matches Ok(SpecValue::Ret(inner)) ==> eval_expr(
                fuel,
                SpecExpr::Call { callee: Box::new(callee), args },
                env,
                st,
            ) == (Ok::<SpecValue, SpecEvalError>(*inner), st4)
        }),
{
}

/// Operands of different kinds never combine: the error names both types
/// and the operator.
pub proof fn lemma_type_mismatch(l: SpecValue, op: Op, r: SpecValue)
    requires
        !(l is Int && r is Int),
        !(l is Bool && r is Bool),
        !(l is Str && r is Str),
    ensures
        eval_infix(l, op, r) == Err::<SpecValue, SpecEvalError>(
            SpecEvalError::TypeMismatch(type_of(l), op, type_of(r)),
        ),
{
}

/// Strings support `+` alone, which joins them; any other operator is unknown
/// for them.
pub proof fn lemma_string_operators(a: Seq<char>, op: Op, b: Seq<char>)
    ensures
        op == Op::Add ==> eval_infix(SpecValue::Str(a), op, SpecValue::Str(b)) == Ok::<
            SpecValue,
            SpecEvalError,
        >(SpecValue::Str(a + b)),
        op != Op::Add ==> eval_infix(SpecValue::Str(a), op, SpecValue::Str(b)) == Err::<
            SpecValue,
            SpecEvalError,
        >(
            SpecEvalError::UnknownInfixOperator(
                Operand::Type(ValueType::String),
                op,
                Operand::Type(ValueType::String),
            ),
        ),
{
}

} // verus!
