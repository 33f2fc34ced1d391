use vstd::prelude::*;
use crate::ast::{
    lemma_exprs_view_push, lemma_stmts_view_push, op_text, exprs_view, stmts_view, strings_view,
    Expression, SpecExpr, SpecStmt, Statement,
};
use crate::object::{type_text, EvalError, Object, Operand, SpecEvalError, SpecValue};
use crate::text::{chars_of, string_from};

verus! {

pub open spec fn digit_of(d: nat) -> char {
    seq!['0', '1', '2', '3', '4', '5', '6', '7', '8', '9'][d as int]
}

/// The decimal digits of `n`.
pub open spec fn nat_text(n: nat) -> Seq<char>
    decreases n,
{
    if n < 10 {
        seq![digit_of(n)]
    } else {
        nat_text(n / 10).push(digit_of(n % 10))
    }
}

/// The decimal text of `n`, with a `-` when it is negative.
pub open spec fn int_text(n: int) -> Seq<char> {
    if n < 0 {
        seq!['-'] + nat_text((-n) as nat)
    } else {
        nat_text(n as nat)
    }
}

pub open spec fn bool_text(b: bool) -> Seq<char> {
    if b {
        seq!['t', 'r', 'u', 'e']
    } else {
        seq!['f', 'a', 'l', 's', 'e']
    }
}

/// Names separated by `, `.
pub open spec fn names_text(ps: Seq<Seq<char>>) -> Seq<char>
    decreases ps.len(),
{
    if ps.len() == 0 {
        Seq::empty()
    } else if ps.len() == 1 {
        ps[0]
    } else {
        names_text(ps.drop_last()) + ", "@ + ps.last()
    }
}

/// The source text of an expression.
pub open spec fn expr_text(e: SpecExpr) -> Seq<char>
    decreases e,
{
    match e {
        SpecExpr::Number(n) => int_text(n as int),
        SpecExpr::Str(s) => s,
        SpecExpr::Ident(s) => s,
        SpecExpr::Bool(b) => bool_text(b),
        SpecExpr::Function { params, body } => "fn("@ + names_text(params) + ") { "@ + block_text(
            body,
        ) + " }"@,
        SpecExpr::If { cond, cons, alt } => match alt {
            Some(a) => "if("@ + expr_text(*cond) + ") { "@ + block_text(cons) + " } else {"@
                + block_text(a) + "}"@,
            None => "if("@ + expr_text(*cond) + "){ "@ + block_text(cons) + " }"@,
        },
        SpecExpr::Prefix { op, right } => op_text(op) + expr_text(*right),
        SpecExpr::Infix { left, op, right } => expr_text(*left) + op_text(op) + expr_text(*right),
        SpecExpr::Call { callee, args } => expr_text(*callee) + "("@ + args_text(args) + ")"@,
    }
}

/// Expressions separated by `, `.
pub open spec fn args_text(args: Seq<SpecExpr>) -> Seq<char>
    decreases args,
{
    if args.len() == 0 {
        Seq::empty()
    } else if args.len() == 1 {
        expr_text(args[0])
    } else {
        args_text(args.drop_last()) + ", "@ + expr_text(args.last())
    }
}

/// The source text of a statement.
pub open spec fn stmt_text(s: SpecStmt) -> Seq<char>
    decreases s,
{
    match s {
        SpecStmt::Let { name, value } => "let "@ + name + " = "@ + expr_text(value),
        SpecStmt::Return { value } => "return "@ + expr_text(value),
        SpecStmt::Expr { value } => expr_text(value),
    }
}

/// Statements, one per line.
pub open spec fn block_text(b: Seq<SpecStmt>) -> Seq<char>
    decreases b,
{
    if b.len() == 0 {
        Seq::empty()
    } else if b.len() == 1 {
        stmt_text(b[0])
    } else {
        block_text(b.drop_last()) + "\n"@ + stmt_text(b.last())
    }
}

/// How a value is shown.
pub open spec fn value_text(v: SpecValue) -> Seq<char>
    decreases v,
{
    match v {
        SpecValue::Int(n) => int_text(n as int),
        SpecValue::Str(s) => s,
        SpecValue::Bool(b) => bool_text(b),
        SpecValue::Nil => "null"@,
        SpecValue::Ret(inner) => value_text(*inner),
        SpecValue::Func { params, body, .. } => "fn("@ + names_text(params) + ") { "@ + block_text(
            body,
        ) + " }"@,
    }
}

pub open spec fn operand_text(o: Operand) -> Seq<char> {
    match o {
        Operand::Boolean(b) => bool_text(b),
        Operand::Type(t) => type_text(t),
    }
}

/// The message of an evaluation error.
pub open spec fn error_text(e: SpecEvalError) -> Seq<char> {
    match e {
        SpecEvalError::IdentifierNotFound(name) => "identifier not found: "@ + name,
        SpecEvalError::TypeMismatch(l, op, r) => "type mismatch: "@ + type_text(l) + " "@ + op_text(
            op,
        ) + " "@ + type_text(r),
        SpecEvalError::UnknownPrefixOperator(op, v) => "unknown operator: "@ + op_text(op)
            + operand_text(v),
        SpecEvalError::UnknownInfixOperator(l, op, r) => "unknown operator: "@ + operand_text(l)
            + " "@ + op_text(op) + " "@ + operand_text(r),
        SpecEvalError::NotCallable(t) => "not a function: "@ + type_text(t),
        SpecEvalError::WrongArgumentCount { expected, got } => "wrong number of arguments. got="@
            + nat_text(got) + ", want="@ + nat_text(expected),
        SpecEvalError::DivisionByZero => "division by zero"@,
        SpecEvalError::IntegerOverflow => "integer overflow"@,
        SpecEvalError::CallDepthExceeded => "call depth exceeded"@,
    }
}

/// Appends the characters of `s`.
fn push_text(out: &mut Vec<char>, s: &str)
    ensures
        final(out)@ == old(out)@ + s@,
{
    let mut c = chars_of(s);
    out.append(&mut c);
}

fn digit_char(d: u64) -> (r: char)
    requires
        d < 10,
    ensures
        r == digit_of(d as nat),
{
    let digits: Vec<char> = vec!['0', '1', '2', '3', '4', '5', '6', '7', '8', '9'];
    assert(digits@ =~= seq!['0', '1', '2', '3', '4', '5', '6', '7', '8', '9']);
    digits[d as usize]
}

fn push_nat(out: &mut Vec<char>, n: u64)
    ensures
        final(out)@ == old(out)@ + nat_text(n as nat),
    decreases n,
{
    if n >= 10 {
        push_nat(out, n / 10);
    }
    out.push(digit_char(n % 10));
    assert(final(out)@ =~= old(out)@ + nat_text(n as nat)) by {
        if n >= 10 {
            assert(nat_text(n as nat) == nat_text((n / 10) as nat).push(digit_of((n % 10) as nat)));
        }
    }
}

fn push_int(out: &mut Vec<char>, n: i64)
    ensures
        final(out)@ == old(out)@ + int_text(n as int),
{
    if n < 0 {
        out.push('-');
        let m: u64 = if n == i64::MIN {
            0x8000_0000_0000_0000u64
        } else {
            (-n) as u64
        };
        push_nat(out, m);
        assert(final(out)@ =~= old(out)@ + int_text(n as int));
    } else {
        push_nat(out, n as u64);
    }
}

fn push_bool(out: &mut Vec<char>, b: bool)
    ensures
        final(out)@ == old(out)@ + bool_text(b),
{
    if b {
        out.push('t');
        out.push('r');
        out.push('u');
        out.push('e');
    } else {
        out.push('f');
        out.push('a');
        out.push('l');
        out.push('s');
        out.push('e');
    }
    assert(final(out)@ =~= old(out)@ + bool_text(b));
}

/// The decimal text of an integer.
pub fn int_to_string(n: i64) -> (r: String)
    ensures
        r@ == int_text(n as int),
{
    let mut out: Vec<char> = Vec::new();
    push_int(&mut out, n);
    assert(out@ =~= int_text(n as int));
    string_from(&out)
}

fn push_names(out: &mut Vec<char>, ps: &Vec<String>)
    ensures
        final(out)@ == old(out)@ + names_text(strings_view(ps@)),
{
    let ghost start = out@;
    let ghost pv = strings_view(ps@);
    let mut i: usize = 0;
    while i < ps.len()
        invariant
            i <= ps@.len(),
            pv == strings_view(ps@),
            out@ == start + names_text(pv.subrange(0, i as int)),
        decreases ps.len() - i,
    {
        let ghost before = out@;
        if i > 0 {
            push_text(out, ", ");
        }
        let mut c = chars_of(ps[i].as_str());
        out.append(&mut c);
        proof {
            let sub = pv.subrange(0, i + 1);
            assert(sub.drop_last() =~= pv.subrange(0, i as int));
            if i == 0 {
                assert(out@ =~= start + names_text(sub));
            } else {
                assert(out@ =~= start + names_text(sub));
            }
        }
        i = i + 1;
    }
    assert(pv.subrange(0, i as int) =~= pv);
}

fn push_expr(out: &mut Vec<char>, e: &Expression)
    ensures
        final(out)@ == old(out)@ + expr_text(e@),
    decreases e,
{
    match e {
        Expression::Number(n) => push_int(out, *n),
        Expression::String(s) => {
            let mut c = chars_of(s.as_str());
            out.append(&mut c);
        },
        Expression::Identifier(s) => {
            let mut c = chars_of(s.as_str());
            out.append(&mut c);
        },
        Expression::Boolean(b) => push_bool(out, *b),
        Expression::FunctionLiteral { parameters, body } => {
            push_text(out, "fn(");
            push_names(out, parameters);
            push_text(out, ") { ");
            push_block(out, &body.statements);
            push_text(out, " }");
            assert(final(out)@ =~= old(out)@ + expr_text(e@));
        },
        Expression::IfExpression { condition, consequence, alternative } => {
            push_text(out, "if(");
            push_expr(out, condition);
            match alternative {
                Some(a) => {
                    push_text(out, ") { ");
                    push_block(out, &consequence.statements);
                    push_text(out, " } else {");
                    push_block(out, &a.statements);
                    push_text(out, "}");
                },
                None => {
                    push_text(out, "){ ");
                    push_block(out, &consequence.statements);
                    push_text(out, " }");
                },
            }
            assert(final(out)@ =~= old(out)@ + expr_text(e@));
        },
        Expression::PrefixExpression { op, right } => {
            push_text(out, op.text());
            push_expr(out, right);
            assert(final(out)@ =~= old(out)@ + expr_text(e@));
        },
        Expression::InfixExpression { left, op, right } => {
            push_expr(out, left);
            push_text(out, op.text());
            push_expr(out, right);
            assert(final(out)@ =~= old(out)@ + expr_text(e@));
        },
        Expression::CallExpression { function, arguments } => {
            push_expr(out, function);
            push_text(out, "(");
            push_args(out, arguments);
            push_text(out, ")");
            assert(final(out)@ =~= old(out)@ + expr_text(e@));
        },
    }
}

fn push_args(out: &mut Vec<char>, args: &Vec<Expression>)
    ensures
        final(out)@ == old(out)@ + args_text(exprs_view(args@)),
    decreases args,
{
    let ghost start = out@;
    let mut i: usize = 0;
    while i < args.len()
        invariant
            i <= args@.len(),
            out@ == start + args_text(exprs_view(args@.subrange(0, i as int))),
        decreases args.len() - i,
    {
        if i > 0 {
            push_text(out, ", ");
        }
        push_expr(out, &args[i]);
        proof {
            let sub = args@.subrange(0, i + 1);
            assert(sub =~= args@.subrange(0, i as int).push(args@[i as int]));
            lemma_exprs_view_push(args@.subrange(0, i as int), args@[i as int]);
            let v = exprs_view(sub);
            assert(v.drop_last() =~= exprs_view(args@.subrange(0, i as int)));
            crate::ast::lemma_exprs_view_len(args@.subrange(0, i as int));
            assert(out@ =~= start + args_text(v));
        }
        i = i + 1;
    }
    assert(args@.subrange(0, i as int) =~= args@);
}

fn push_stmt(out: &mut Vec<char>, s: &Statement)
    ensures
        final(out)@ == old(out)@ + stmt_text(s@),
    decreases s,
{
    match s {
        Statement::Let { name, value } => {
            push_text(out, "let ");
            let mut c = chars_of(name.as_str());
            out.append(&mut c);
            push_text(out, " = ");
            push_expr(out, value);
        },
        Statement::Return { value } => {
            push_text(out, "return ");
            push_expr(out, value);
        },
        Statement::StatmentExpression { value } => push_expr(out, value),
    }
    assert(final(out)@ =~= old(out)@ + stmt_text(s@));
}

fn push_block(out: &mut Vec<char>, stmts: &Vec<Statement>)
    ensures
        final(out)@ == old(out)@ + block_text(stmts_view(stmts@)),
    decreases stmts,
{
    let ghost start = out@;
    let mut i: usize = 0;
    while i < stmts.len()
        invariant
            i <= stmts@.len(),
            out@ == start + block_text(stmts_view(stmts@.subrange(0, i as int))),
        decreases stmts.len() - i,
    {
        if i > 0 {
            push_text(out, "\n");
        }
        push_stmt(out, &stmts[i]);
        proof {
            let sub = stmts@.subrange(0, i + 1);
            assert(sub =~= stmts@.subrange(0, i as int).push(stmts@[i as int]));
            lemma_stmts_view_push(stmts@.subrange(0, i as int), stmts@[i as int]);
            let v = stmts_view(sub);
            assert(v.drop_last() =~= stmts_view(stmts@.subrange(0, i as int)));
            crate::evaluator::lemma_stmts_view_index(stmts@.subrange(0, i as int));
            assert(out@ =~= start + block_text(v));
        }
        i = i + 1;
    }
    assert(stmts@.subrange(0, i as int) =~= stmts@);
}

impl Expression {
    /// The source text of the expression.
    pub fn to_text(&self) -> (r: String)
        ensures
            r@ == expr_text(self@),
    {
        let mut out: Vec<char> = Vec::new();
        push_expr(&mut out, self);
        assert(out@ =~= expr_text(self@));
        string_from(&out)
    }
}

impl Object {
    /// How the value is shown: integers in decimal, booleans as `true` or
    /// `false`, nil as `null`, strings as they are, functions as source.
    pub fn inspect(&self) -> (r: String)
        ensures
            r@ == value_text(self@),
    {
        let mut out: Vec<char> = Vec::new();
        self.push_inspect(&mut out);
        assert(out@ =~= value_text(self@));
        string_from(&out)
    }

    fn push_inspect(&self, out: &mut Vec<char>)
        ensures
            final(out)@ == old(out)@ + value_text(self@),
        decreases self,
    {
        match self {
            Object::Integer(n) => push_int(out, *n),
            Object::String(s) => {
                let mut c = chars_of(s.as_str());
                out.append(&mut c);
            },
            Object::Boolean(b) => push_bool(out, *b),
            Object::Nil => push_text(out, "null"),
            Object::Return(v) => v.push_inspect(out),
            Object::Function { parameters, body, .. } => {
                push_text(out, "fn(");
                push_names(out, parameters);
                push_text(out, ") { ");
                push_block(out, &body.statements);
                push_text(out, " }");
                assert(final(out)@ =~= old(out)@ + value_text(self@));
            },
        }
    }
}

fn push_operand(out: &mut Vec<char>, o: Operand)
    ensures
        final(out)@ == old(out)@ + operand_text(o),
{
    match o {
        Operand::Boolean(b) => push_bool(out, b),
        Operand::Type(t) => push_text(out, t.text()),
    }
}

impl EvalError {
    /// The message of the error.
    pub fn message(&self) -> (r: String)
        ensures
            r@ == error_text(self@),
    {
        let mut out: Vec<char> = Vec::new();
        match self {
            EvalError::IdentifierNotFound(name) => {
                push_text(&mut out, "identifier not found: ");
                push_text(&mut out, name.as_str());
            },
            EvalError::TypeMismatch(l, op, r) => {
                push_text(&mut out, "type mismatch: ");
                push_text(&mut out, l.text());
                push_text(&mut out, " ");
                push_text(&mut out, op.text());
                push_text(&mut out, " ");
                push_text(&mut out, r.text());
            },
            EvalError::UnknownPrefixOperator(op, v) => {
                push_text(&mut out, "unknown operator: ");
                push_text(&mut out, op.text());
                push_operand(&mut out, *v);
            },
            EvalError::UnknownInfixOperator(l, op, r) => {
                push_text(&mut out, "unknown operator: ");
                push_operand(&mut out, *l);
                push_text(&mut out, " ");
                push_text(&mut out, op.text());
                push_text(&mut out, " ");
                push_operand(&mut out, *r);
            },
            EvalError::NotCallable(t) => {
                push_text(&mut out, "not a function: ");
                push_text(&mut out, t.text());
            },
            EvalError::WrongArgumentCount { expected, got } => {
                push_text(&mut out, "wrong number of arguments. got=");
                push_nat(&mut out, *got as u64);
                push_text(&mut out, ", want=");
                push_nat(&mut out, *expected as u64);
            },
            EvalError::DivisionByZero => push_text(&mut out, "division by zero"),
            EvalError::IntegerOverflow => push_text(&mut out, "integer overflow"),
            EvalError::CallDepthExceeded => push_text(&mut out, "call depth exceeded"),
        }
        assert(out@ =~= error_text(self@));
        string_from(&out)
    }
}

} // verus!
