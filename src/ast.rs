use vstd::prelude::*;
use crate::token::TokenType;

verus! {

/// Binding strength of an operator, from loosest to tightest.
#[derive(PartialEq, Eq, Structural, Clone, Copy, Debug)]
pub enum Precedence {
    Lowest,
    Equals,
    LessGreater,
    Sum,
    Product,
    Prefix,
    Call,
}

pub open spec fn rank(p: Precedence) -> int {
    match p {
        Precedence::Lowest => 0,
        Precedence::Equals => 1,
        Precedence::LessGreater => 2,
        Precedence::Sum => 3,
        Precedence::Product => 4,
        Precedence::Prefix => 5,
        Precedence::Call => 6,
    }
}

/// The precedence with which a token continues an expression.
pub open spec fn precedence_of(t: TokenType) -> Precedence {
    match t {
        TokenType::EqualEqual | TokenType::BangEqual => Precedence::Equals,
        TokenType::Greater | TokenType::Less => Precedence::LessGreater,
        TokenType::Addition | TokenType::Minus => Precedence::Sum,
        TokenType::Division | TokenType::Star => Precedence::Product,
        TokenType::LeftParen => Precedence::Call,
        _ => Precedence::Lowest,
    }
}

impl Precedence {
    pub fn get_precedence(token_type: &TokenType) -> (r: Self)
        ensures
            r == precedence_of(*token_type),
    {
        match token_type {
            TokenType::EqualEqual | TokenType::BangEqual => Precedence::Equals,
            TokenType::Greater | TokenType::Less => Precedence::LessGreater,
            TokenType::Addition | TokenType::Minus => Precedence::Sum,
            TokenType::Division | TokenType::Star => Precedence::Product,
            TokenType::LeftParen => Precedence::Call,
            _ => Precedence::Lowest,
        }
    }

    /// Does `self` bind more loosely than `other`?
    pub fn is_below(&self, other: &Precedence) -> (r: bool)
        ensures
            r == (rank(*self) < rank(*other)),
    {
        self.level() < other.level()
    }

    fn level(&self) -> (r: u8)
        ensures
            r == rank(*self),
    {
        match self {
            Precedence::Lowest => 0,
            Precedence::Equals => 1,
            Precedence::LessGreater => 2,
            Precedence::Sum => 3,
            Precedence::Product => 4,
            Precedence::Prefix => 5,
            Precedence::Call => 6,
        }
    }
}

/// The operators of the language.
#[derive(PartialEq, Eq, Structural, Clone, Copy, Debug)]
pub enum Op {
    Add,
    Subtract,
    Multiply,
    Divide,
    Bang,
    Equals,
    NotEquals,
    Assign,
    LessThan,
    GreaterThan,
    LessThanOrEquals,
    GreaterThanOrEquals,
    Call,
}

/// The operator that a token stands for, if it stands for one.
pub open spec fn op_of(t: TokenType) -> Option<Op> {
    match t {
        TokenType::Addition => Some(Op::Add),
        TokenType::Minus => Some(Op::Subtract),
        TokenType::Star => Some(Op::Multiply),
        TokenType::Division => Some(Op::Divide),
        TokenType::Bang => Some(Op::Bang),
        TokenType::EqualEqual => Some(Op::Equals),
        TokenType::BangEqual => Some(Op::NotEquals),
        TokenType::Assign => Some(Op::Assign),
        TokenType::Greater => Some(Op::LessThan),
        TokenType::Less => Some(Op::GreaterThan),
        TokenType::GreaterEqual => Some(Op::LessThanOrEquals),
        TokenType::LessEqual => Some(Op::GreaterThanOrEquals),
        TokenType::LeftParen => Some(Op::Call),
        _ => None,
    }
}

/// The source text of an operator.
pub open spec fn op_text(op: Op) -> Seq<char> {
    match op {
        Op::Add => seq!['+'],
        Op::Subtract => seq!['-'],
        Op::Multiply => seq!['*'],
        Op::Divide => seq!['/'],
        Op::Bang => seq!['!'],
        Op::Equals => seq!['=', '='],
        Op::NotEquals => seq!['!', '='],
        Op::Assign => seq!['='],
        Op::LessThan => seq!['<'],
        Op::GreaterThan => seq!['>'],
        Op::LessThanOrEquals => seq!['<', '='],
        Op::GreaterThanOrEquals => seq!['>', '='],
        Op::Call => seq!['(', ')'],
    }
}

impl Op {
    /// The operator of an operator token.
    pub fn token(token_type: &TokenType) -> (r: Self)
        requires
            op_of(*token_type) is Some,
        ensures
            r == op_of(*token_type)->0,
    {
        match token_type {
            TokenType::Addition => Self::Add,
            TokenType::Minus => Self::Subtract,
            TokenType::Star => Self::Multiply,
            TokenType::Division => Self::Divide,
            TokenType::Bang => Self::Bang,
            TokenType::EqualEqual => Self::Equals,
            TokenType::BangEqual => Self::NotEquals,
            TokenType::Assign => Self::Assign,
            TokenType::Greater => Self::LessThan,
            TokenType::Less => Self::GreaterThan,
            TokenType::GreaterEqual => Self::LessThanOrEquals,
            TokenType::LessEqual => Self::GreaterThanOrEquals,
            _ => Self::Call,
        }
    }

    /// The source text of the operator.
    pub fn text(&self) -> (r: &'static str)
        ensures
            r@ == op_text(*self),
    {
        proof {
            reveal_strlit("+");
            reveal_strlit("-");
            reveal_strlit("*");
            reveal_strlit("/");
            reveal_strlit("!");
            reveal_strlit("==");
            reveal_strlit("!=");
            reveal_strlit("=");
            reveal_strlit("<");
            reveal_strlit(">");
            reveal_strlit("<=");
            reveal_strlit(">=");
            reveal_strlit("()");
        }
        match self {
            Op::Add => "+",
            Op::Subtract => "-",
            Op::Multiply => "*",
            Op::Divide => "/",
            Op::Bang => "!",
            Op::Equals => "==",
            Op::NotEquals => "!=",
            Op::Assign => "=",
            Op::LessThan => "<",
            Op::GreaterThan => ">",
            Op::LessThanOrEquals => "<=",
            Op::GreaterThanOrEquals => ">=",
            Op::Call => "()",
        }
    }
}

/// A statement.
#[derive(PartialEq, Debug)]
pub enum Statement {
    Let { name: String, value: Expression },
    Return { value: Expression },
    StatmentExpression { value: Expression },
}

/// The statements between a pair of braces.
#[derive(PartialEq, Debug)]
pub struct BlockStatment {
    pub statements: Vec<Statement>,
}

/// An expression.
#[derive(PartialEq, Debug)]
pub enum Expression {
    Number(i64),
    String(String),
    Identifier(String),
    Boolean(bool),
    FunctionLiteral { parameters: Vec<String>, body: BlockStatment },
    IfExpression {
        condition: Box<Expression>,
        consequence: BlockStatment,
        alternative: Option<BlockStatment>,
    },
    PrefixExpression { op: Op, right: Box<Expression> },
    InfixExpression { left: Box<Expression>, op: Op, right: Box<Expression> },
    CallExpression { function: Box<Expression>, arguments: Vec<Expression> },
}

/// A whole program: its statements in order.
pub type Program = Vec<Statement>;

/// Anything that can be evaluated.
#[derive(PartialEq, Debug)]
pub enum Node {
    Program(Program),
    Statment(Statement),
    Expression(Expression),
    BlockStatment(BlockStatment),
}

/// The model of an `Expression`.
pub enum SpecExpr {
    Number(i64),
    Str(Seq<char>),
    Ident(Seq<char>),
    Bool(bool),
    Function { params: Seq<Seq<char>>, body: Seq<SpecStmt> },
    If { cond: Box<SpecExpr>, cons: Seq<SpecStmt>, alt: Option<Seq<SpecStmt>> },
    Prefix { op: Op, right: Box<SpecExpr> },
    Infix { left: Box<SpecExpr>, op: Op, right: Box<SpecExpr> },
    Call { callee: Box<SpecExpr>, args: Seq<SpecExpr> },
}

/// The model of a `Statement`.
pub enum SpecStmt {
    Let { name: Seq<char>, value: SpecExpr },
    Return { value: SpecExpr },
    Expr { value: SpecExpr },
}

pub open spec fn strings_view(s: Seq<String>) -> Seq<Seq<char>> {
    s.map_values(|x: String| x@)
}

impl Expression {
    pub open spec fn view(&self) -> SpecExpr
        decreases self,
    {
        match self {
            Expression::Number(n) => SpecExpr::Number(*n),
            Expression::String(s) => SpecExpr::Str(s@),
            Expression::Identifier(s) => SpecExpr::Ident(s@),
            Expression::Boolean(b) => SpecExpr::Bool(*b),
            Expression::FunctionLiteral { parameters, body } => SpecExpr::Function {
                params: strings_view(parameters@),
                body: stmts_view(body.statements@),
            },
            Expression::IfExpression { condition, consequence, alternative } => SpecExpr::If {
                cond: Box::new(condition.view()),
                cons: stmts_view(consequence.statements@),
                alt: match alternative {
                    Some(b) => Some(stmts_view(b.statements@)),
                    None => None,
                },
            },
            Expression::PrefixExpression { op, right } => SpecExpr::Prefix {
                op: *op,
                right: Box::new(right.view()),
            },
            Expression::InfixExpression { left, op, right } => SpecExpr::Infix {
                left: Box::new(left.view()),
                op: *op,
                right: Box::new(right.view()),
            },
            Expression::CallExpression { function, arguments } => SpecExpr::Call {
                callee: Box::new(function.view()),
                args: exprs_view(arguments@),
            },
        }
    }
}

impl Statement {
    pub open spec fn view(&self) -> SpecStmt
        decreases self,
    {
        match self {
            Statement::Let { name, value } => SpecStmt::Let { name: name@, value: value.view() },
            Statement::Return { value } => SpecStmt::Return { value: value.view() },
            Statement::StatmentExpression { value } => SpecStmt::Expr { value: value.view() },
        }
    }
}

pub open spec fn exprs_view(s: Seq<Expression>) -> Seq<SpecExpr>
    decreases s,
{
    if s.len() == 0 {
        Seq::empty()
    } else {
        exprs_view(s.drop_last()).push(s.last().view())
    }
}

pub open spec fn stmts_view(s: Seq<Statement>) -> Seq<SpecStmt>
    decreases s,
{
    if s.len() == 0 {
        Seq::empty()
    } else {
        stmts_view(s.drop_last()).push(s.last().view())
    }
}

pub proof fn lemma_exprs_view_push(s: Seq<Expression>, x: Expression)
    ensures
        exprs_view(s.push(x)) == exprs_view(s).push(x@),
{
    assert(s.push(x).drop_last() =~= s);
}

pub proof fn lemma_stmts_view_push(s: Seq<Statement>, x: Statement)
    ensures
        stmts_view(s.push(x)) == stmts_view(s).push(x@),
{
    assert(s.push(x).drop_last() =~= s);
}

pub proof fn lemma_exprs_view_len(s: Seq<Expression>)
    ensures
        exprs_view(s).len() == s.len(),
    decreases s.len(),
{
    if s.len() > 0 {
        lemma_exprs_view_len(s.drop_last());
    }
}

/// A copy of each name, in order.
pub fn copy_strings(v: &Vec<String>) -> (r: Vec<String>)
    ensures
        r@ == v@,
{
    let mut out: Vec<String> = Vec::new();
    let mut i: usize = 0;
    while i < v.len()
        invariant
            i <= v.len(),
            out@ == v@.subrange(0, i as int),
        decreases v.len() - i,
    {
        out.push(v[i].clone());
        i = i + 1;
        assert(out@ =~= v@.subrange(0, i as int));
    }
    assert(out@ =~= v@);
    out
}

/// A copy of each expression, in order.
pub fn copy_expressions(v: &Vec<Expression>) -> (r: Vec<Expression>)
    ensures
        exprs_view(r@) == exprs_view(v@),
    decreases v,
{
    let mut out: Vec<Expression> = Vec::new();
    let mut i: usize = 0;
    while i < v.len()
        invariant
            i <= v.len(),
            exprs_view(out@) == exprs_view(v@.subrange(0, i as int)),
        decreases v.len() - i,
    {
        let e = v[i].copy();
        proof {
            lemma_exprs_view_push(out@, e);
            lemma_exprs_view_push(v@.subrange(0, i as int), v@[i as int]);
            assert(v@.subrange(0, i as int).push(v@[i as int]) =~= v@.subrange(0, i + 1));
        }
        out.push(e);
        i = i + 1;
    }
    assert(v@.subrange(0, v@.len() as int) =~= v@);
    out
}

/// A copy of each statement, in order.
pub fn copy_statements(v: &Vec<Statement>) -> (r: Vec<Statement>)
    ensures
        stmts_view(r@) == stmts_view(v@),
    decreases v,
{
    let mut out: Vec<Statement> = Vec::new();
    let mut i: usize = 0;
    while i < v.len()
        invariant
            i <= v.len(),
            stmts_view(out@) == stmts_view(v@.subrange(0, i as int)),
        decreases v.len() - i,
    {
        let st = v[i].copy();
        proof {
            lemma_stmts_view_push(out@, st);
            lemma_stmts_view_push(v@.subrange(0, i as int), v@[i as int]);
            assert(v@.subrange(0, i as int).push(v@[i as int]) =~= v@.subrange(0, i + 1));
        }
        out.push(st);
        i = i + 1;
    }
    assert(v@.subrange(0, v@.len() as int) =~= v@);
    out
}

impl BlockStatment {
    /// A copy of the block.
    pub fn copy(&self) -> (r: Self)
        ensures
            stmts_view(r.statements@) == stmts_view(self.statements@),
        decreases self,
    {
        BlockStatment { statements: copy_statements(&self.statements) }
    }
}

impl Statement {
    /// A copy of the statement.
    pub fn copy(&self) -> (r: Self)
        ensures
            r@ == self@,
        decreases self,
    {
        match self {
            Statement::Let { name, value } => Statement::Let { name: name.clone(), value: value.copy() },
            Statement::Return { value } => Statement::Return { value: value.copy() },
            Statement::StatmentExpression { value } => Statement::StatmentExpression {
                value: value.copy(),
            },
        }
    }
}

impl Expression {
    /// A copy of the expression.
    pub fn copy(&self) -> (r: Self)
        ensures
            r@ == self@,
        decreases self,
    {
        match self {
            Expression::Number(n) => Expression::Number(*n),
            Expression::String(s) => Expression::String(s.clone()),
            Expression::Identifier(s) => Expression::Identifier(s.clone()),
            Expression::Boolean(b) => Expression::Boolean(*b),
            Expression::FunctionLiteral { parameters, body } => {
                let ps = copy_strings(parameters);
                Expression::FunctionLiteral { parameters: ps, body: body.copy() }
            },
            Expression::IfExpression { condition, consequence, alternative } => {
                let alt = match alternative {
                    Some(b) => Some(b.copy()),
                    None => None,
                };
                Expression::IfExpression {
                    condition: Box::new(condition.copy()),
                    consequence: consequence.copy(),
                    alternative: alt,
                }
            },
            Expression::PrefixExpression { op, right } => Expression::PrefixExpression {
                op: *op,
                right: Box::new(right.copy()),
            },
            Expression::InfixExpression { left, op, right } => Expression::InfixExpression {
                left: Box::new(left.copy()),
                op: *op,
                right: Box::new(right.copy()),
            },
            Expression::CallExpression { function, arguments } => Expression::CallExpression {
                function: Box::new(function.copy()),
                arguments: copy_expressions(arguments),
            },
        }
    }
}

} // verus!
