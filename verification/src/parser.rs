//! Parsing: consumes a finite token sequence with one-token lookahead
//! and produces one top-level statement per call, using recursive
//! descent with precedence climbing for binary expressions.

use vstd::prelude::*;
use crate::lexer::{Operator, SpecToken, Token};

verus! {

/// A function's name and its ordered, fixed-arity parameter list.
#[derive(Debug, PartialEq)]
pub struct Prototype {
    pub name: String,
    pub args: Vec<String>,
}

/// Mathematical image of a `Prototype`.
pub struct SpecProto {
    pub name: Seq<char>,
    pub args: Seq<Seq<char>>,
}

impl DeepView for Prototype {
    type V = SpecProto;

    open spec fn deep_view(&self) -> SpecProto {
        SpecProto { name: self.name@, args: self.args.deep_view() }
    }
}

/// The abstract syntax tree: one node per statement or expression.
/// Each node owns its children; a numeric literal keeps its source text.
#[derive(Debug, PartialEq)]
pub enum ExprAST {
    Number(String),
    Variable(String),
    BinaryOp { op: Operator, lhs: Box<ExprAST>, rhs: Box<ExprAST> },
    Call { callee: String, args: Vec<ExprAST> },
    Prototype(Prototype),
    Function { proto: Prototype, body: Box<ExprAST> },
}

/// Mathematical image of an `ExprAST`.
pub enum SpecExpr {
    Number(Seq<char>),
    Variable(Seq<char>),
    BinaryOp { op: Operator, lhs: Box<SpecExpr>, rhs: Box<SpecExpr> },
    Call { callee: Seq<char>, args: Seq<SpecExpr> },
    Prototype(SpecProto),
    Function { proto: SpecProto, body: Box<SpecExpr> },
}

/// The image of a tree under `deep_view`, child by child.
pub open spec fn view_expr(e: ExprAST) -> SpecExpr
    decreases e,
{
    match e {
        ExprAST::Number(t) => SpecExpr::Number(t@),
        ExprAST::Variable(n) => SpecExpr::Variable(n@),
        ExprAST::BinaryOp { op, lhs, rhs } => SpecExpr::BinaryOp {
            op,
            lhs: Box::new(view_expr(*lhs)),
            rhs: Box::new(view_expr(*rhs)),
        },
        ExprAST::Call { callee, args } => SpecExpr::Call {
            callee: callee@,
            args: view_expr_seq(args@),
        },
        ExprAST::Prototype(p) => SpecExpr::Prototype(p.deep_view()),
        ExprAST::Function { proto, body } => SpecExpr::Function {
            proto: proto.deep_view(),
            body: Box::new(view_expr(*body)),
        },
    }
}

/// The images of a sequence of trees, in order.
pub open spec fn view_expr_seq(s: Seq<ExprAST>) -> Seq<SpecExpr>
    decreases s,
{
    if s.len() == 0 {
        Seq::empty()
    } else {
        seq![view_expr(s[0])] + view_expr_seq(s.drop_first())
    }
}

impl DeepView for ExprAST {
    type V = SpecExpr;

    open spec fn deep_view(&self) -> SpecExpr {
        view_expr(*self)
    }
}

/// `view_expr_seq` is the elementwise image.
pub proof fn lemma_view_expr_seq(s: Seq<ExprAST>)
    ensures
        view_expr_seq(s).len() == s.len(),
        forall|i: int| 0 <= i < s.len() ==> view_expr_seq(s)[i] == view_expr(#[trigger] s[i]),
    decreases s.len(),
{
    if s.len() > 0 {
        lemma_view_expr_seq(s.drop_first());
        assert forall|i: int| 0 <= i < s.len() implies view_expr_seq(s)[i] == view_expr(
            #[trigger] s[i],
        ) by {
            if i > 0 {
                assert(s.drop_first()[i - 1] == s[i]);
            }
        }
    }
}

/// Every way a statement can be malformed; `message` spells each out.
#[derive(Clone, Copy, Debug, PartialEq, Eq, Structural)]
pub enum ParserError {
    EmptyInput,
    ExpectedFunctionName,
    ExpectedOpenParenInPrototype,
    ExpectedCloseParenInPrototype,
    ExpectedCloseParenOrComma,
    ExpectedCloseParen,
    ExpectedExpression,
}

impl ParserError {
    /// The human-readable description of the error.
    pub fn message(&self) -> &'static str {
        match self {
            ParserError::EmptyInput => "Unimplemented",
            ParserError::ExpectedFunctionName => "Expected function name in prototype",
            ParserError::ExpectedOpenParenInPrototype => "Expected '(' in prototype",
            ParserError::ExpectedCloseParenInPrototype => "Expected ')' in prototype",
            ParserError::ExpectedCloseParenOrComma => "Expected ')' or ',' in argument list",
            ParserError::ExpectedCloseParen => "Expected ')'",
            ParserError::ExpectedExpression => "Expected expression",
        }
    }
}

/// A statement that parsed but ended badly: the semicolon was missing,
/// or tokens were left over and have been drained.
#[derive(Debug, PartialEq)]
pub enum ParseWarning {
    MissingSemicolon,
    TrailingTokens(Vec<Token>),
}

/// Mathematical image of a `ParseWarning`.
pub enum SpecParseWarning {
    MissingSemicolon,
    TrailingTokens(Seq<SpecToken>),
}

impl DeepView for ParseWarning {
    type V = SpecParseWarning;

    open spec fn deep_view(&self) -> SpecParseWarning {
        match self {
            ParseWarning::MissingSemicolon => SpecParseWarning::MissingSemicolon,
            ParseWarning::TrailingTokens(v) => SpecParseWarning::TrailingTokens(v.deep_view()),
        }
    }
}

/// The fixed precedence of each operator.
pub open spec fn spec_prec(op: Operator) -> int {
    match op {
        Operator::LessThan => 10,
        Operator::Plus => 20,
        Operator::Minus => 20,
        Operator::Times => 40,
    }
}

/// How many tokens at the head of `toks` are identifiers.
pub open spec fn ident_run(toks: Seq<SpecToken>) -> nat
    decreases toks.len(),
{
    if toks.len() == 0 {
        0
    } else {
        match toks[0] {
            SpecToken::Identifier(_) => 1 + ident_run(toks.drop_first()),
            _ => 0,
        }
    }
}

/// The names of the identifiers at the head of `toks`, in order.
pub open spec fn ident_names(toks: Seq<SpecToken>) -> Seq<Seq<char>>
    decreases toks.len(),
{
    if toks.len() == 0 {
        Seq::empty()
    } else {
        match toks[0] {
            SpecToken::Identifier(nm) => seq![nm] + ident_names(toks.drop_first()),
            _ => Seq::empty(),
        }
    }
}

/// Skipping one more element composes with skipping `k`.
proof fn lemma_skip_succ<T>(s: Seq<T>, k: int)
    requires
        0 <= k < s.len(),
    ensures
        s.skip(k).drop_first() =~= s.skip(k + 1),
{
    assert(s.skip(k).drop_first() =~= s.skip(k + 1));
}

pub proof fn lemma_ident_run(toks: Seq<SpecToken>)
    ensures
        ident_run(toks) <= toks.len(),
        ident_names(toks).len() == ident_run(toks),
    decreases toks.len(),
{
    if toks.len() > 0 {
        lemma_ident_run(toks.drop_first());
    }
}

/// A prototype: a name, `(`, consecutive parameter names, `)`. Returns
/// the prototype and the unconsumed rest, or the missing piece.
pub open spec fn spec_prototype(toks: Seq<SpecToken>) -> Result<
    (SpecProto, Seq<SpecToken>),
    ParserError,
> {
    if toks.len() == 0 {
        Err(ParserError::ExpectedFunctionName)
    } else {
        match toks[0] {
            SpecToken::Identifier(name) => {
                let rest = toks.drop_first();
                if rest.len() > 0 && rest[0] is OpenParenthesis {
                    let rest2 = rest.drop_first();
                    let n = ident_run(rest2);
                    let rest3 = rest2.skip(n as int);
                    if rest3.len() > 0 && rest3[0] is CloseParenthesis {
                        Ok(
                            (
                                SpecProto { name, args: ident_names(rest2) },
                                rest3.drop_first(),
                            ),
                        )
                    } else {
                        Err(ParserError::ExpectedCloseParenInPrototype)
                    }
                } else {
                    Err(ParserError::ExpectedOpenParenInPrototype)
                }
            },
            _ => Err(ParserError::ExpectedFunctionName),
        }
    }
}

/// A primary expression: a number, a variable, a call with a
/// parenthesized argument list, or a parenthesized expression. The
/// `fuel` only bounds recursion depth; above `4 * toks.len() + 1` it
/// does not affect the result.
pub open spec fn spec_primary(toks: Seq<SpecToken>, fuel: nat) -> Result<
    (SpecExpr, Seq<SpecToken>),
    ParserError,
>
    decreases fuel,
{
    if fuel == 0 {
        arbitrary()
    } else if toks.len() == 0 {
        Err(ParserError::ExpectedExpression)
    } else {
        match toks[0] {
            SpecToken::Number(text) => Ok((SpecExpr::Number(text), toks.drop_first())),
            SpecToken::Identifier(name) => {
                let rest = toks.drop_first();
                if rest.len() > 0 && rest[0] is OpenParenthesis {
                    let rest2 = rest.drop_first();
                    if rest2.len() > 0 && rest2[0] is CloseParenthesis {
                        Ok(
                            (
                                SpecExpr::Call { callee: name, args: Seq::empty() },
                                rest2.drop_first(),
                            ),
                        )
                    } else {
                        match spec_args(rest2, (fuel - 1) as nat) {
                            Ok((args, rest3)) => Ok(
                                (SpecExpr::Call { callee: name, args }, rest3.drop_first()),
                            ),
                            Err(e) => Err(e),
                        }
                    }
                } else {
                    Ok((SpecExpr::Variable(name), rest))
                }
            },
            SpecToken::OpenParenthesis => spec_parenthesis(toks.drop_first(), (fuel - 1) as nat),
            _ => Err(ParserError::ExpectedExpression),
        }
    }
}

/// The inside of a parenthesized expression, after the opening
/// parenthesis: an expression that must be followed by `)`.
pub open spec fn spec_parenthesis(toks: Seq<SpecToken>, fuel: nat) -> Result<
    (SpecExpr, Seq<SpecToken>),
    ParserError,
>
    decreases fuel,
{
    if fuel == 0 {
        arbitrary()
    } else {
        match spec_expression(toks, (fuel - 1) as nat) {
            Ok((e, rest)) => if rest.len() > 0 && rest[0] is CloseParenthesis {
                Ok((e, rest.drop_first()))
            } else {
                Err(ParserError::ExpectedCloseParen)
            },
            Err(e) => Err(e),
        }
    }
}

/// A comma-separated argument list of at least one expression, stopped
/// before the closing parenthesis, which stays at the head of the rest.
pub open spec fn spec_args(toks: Seq<SpecToken>, fuel: nat) -> Result<
    (Seq<SpecExpr>, Seq<SpecToken>),
    ParserError,
>
    decreases fuel,
{
    if fuel == 0 {
        arbitrary()
    } else {
        match spec_expression(toks, (fuel - 1) as nat) {
            Ok((e, rest)) => if rest.len() > 0 && rest[0] is CloseParenthesis {
                Ok((seq![e], rest))
            } else if rest.len() > 0 && rest[0] is Comma {
                match spec_args(rest.drop_first(), (fuel - 1) as nat) {
                    Ok((more, rest2)) => Ok((seq![e] + more, rest2)),
                    Err(e2) => Err(e2),
                }
            } else {
                Err(ParserError::ExpectedCloseParenOrComma)
            },
            Err(e) => Err(e),
        }
    }
}

/// Precedence climbing: while an operator of precedence at least
/// `min_prec` follows, absorb it and a right-hand side — extended
/// first by any strictly higher-precedence operators — into `lhs`.
pub open spec fn spec_op_and_rhs(
    min_prec: int,
    lhs: SpecExpr,
    toks: Seq<SpecToken>,
    fuel: nat,
) -> Result<(SpecExpr, Seq<SpecToken>), ParserError>
    decreases fuel,
{
    if fuel == 0 {
        arbitrary()
    } else if toks.len() == 0 {
        Ok((lhs, toks))
    } else {
        match toks[0] {
            SpecToken::Operator(op) => {
                let token_prec = spec_prec(op);
                if token_prec < min_prec {
                    Ok((lhs, toks))
                } else {
                    match spec_primary(toks.drop_first(), (fuel - 1) as nat) {
                        Ok((rhs0, rest)) => {
                            let extended = if rest.len() > 0 {
                                match rest[0] {
                                    SpecToken::Operator(next_op) => if token_prec < spec_prec(
                                        next_op,
                                    ) {
                                        spec_op_and_rhs(
                                            token_prec + 1,
                                            rhs0,
                                            rest,
                                            (fuel - 1) as nat,
                                        )
                                    } else {
                                        Ok((rhs0, rest))
                                    },
                                    _ => Ok((rhs0, rest)),
                                }
                            } else {
                                Ok((rhs0, rest))
                            };
                            match extended {
                                Ok((rhs, rest2)) => spec_op_and_rhs(
                                    min_prec,
                                    SpecExpr::BinaryOp {
                                        op,
                                        lhs: Box::new(lhs),
                                        rhs: Box::new(rhs),
                                    },
                                    rest2,
                                    (fuel - 1) as nat,
                                ),
                                Err(e) => Err(e),
                            }
                        },
                        Err(e) => Err(e),
                    }
                }
            },
            _ => Ok((lhs, toks)),
        }
    }
}

/// An expression: a primary followed by operator-and-right-hand-side
/// climbing from minimum precedence zero.
pub open spec fn spec_expression(toks: Seq<SpecToken>, fuel: nat) -> Result<
    (SpecExpr, Seq<SpecToken>),
    ParserError,
>
    decreases fuel,
{
    if fuel == 0 {
        arbitrary()
    } else {
        match spec_primary(toks, (fuel - 1) as nat) {
            Ok((lhs, rest)) => spec_op_and_rhs(0, lhs, rest, (fuel - 1) as nat),
            Err(e) => Err(e),
        }
    }
}

/// A function definition after its `def`: a prototype and a single
/// expression body.
pub open spec fn spec_definition(toks: Seq<SpecToken>, fuel: nat) -> Result<
    (SpecExpr, Seq<SpecToken>),
    ParserError,
>
    decreases fuel,
{
    if fuel == 0 {
        arbitrary()
    } else {
        match spec_prototype(toks) {
            Ok((proto, rest)) => match spec_expression(rest, (fuel - 1) as nat) {
                Ok((body, rest2)) => Ok(
                    (SpecExpr::Function { proto, body: Box::new(body) }, rest2),
                ),
                Err(e) => Err(e),
            },
            Err(e) => Err(e),
        }
    }
}

/// An external declaration after its `extern`: a bare prototype.
pub open spec fn spec_extern(toks: Seq<SpecToken>) -> Result<
    (SpecExpr, Seq<SpecToken>),
    ParserError,
> {
    match spec_prototype(toks) {
        Ok((proto, rest)) => Ok((SpecExpr::Prototype(proto), rest)),
        Err(e) => Err(e),
    }
}

/// One top-level statement without its terminator: a function
/// definition after `def`, a bare prototype after `extern`, or a bare
/// expression; nothing at all is an error.
pub open spec fn spec_statement(toks: Seq<SpecToken>, fuel: nat) -> Result<
    (SpecExpr, Seq<SpecToken>),
    ParserError,
>
    decreases fuel,
{
    if fuel == 0 {
        arbitrary()
    } else if toks.len() == 0 {
        Err(ParserError::EmptyInput)
    } else if toks[0] is Def {
        spec_definition(toks.drop_first(), (fuel - 1) as nat)
    } else if toks[0] is Extern {
        spec_extern(toks.drop_first())
    } else {
        spec_expression(toks, (fuel - 1) as nat)
    }
}

/// Fuel above which none of the spec parsing functions is cut short on
/// a token sequence of length `n`.
pub open spec fn parse_fuel(n: nat) -> nat {
    4 * n + 4
}

/// One whole statement: the tree, then the terminator rule. A
/// semicolon is consumed; anything else left over is drained into a
/// warning; nothing at all after the tree is the missing-semicolon
/// warning. The third component is what stays unconsumed.
pub open spec fn spec_parse(toks: Seq<SpecToken>) -> Result<
    (SpecExpr, Option<SpecParseWarning>, Seq<SpecToken>),
    ParserError,
> {
    match spec_statement(toks, parse_fuel(toks.len())) {
        Ok((ast, rest)) => if rest.len() > 0 && rest[0] is SemiColon {
            Ok((ast, None, rest.drop_first()))
        } else if rest.len() > 0 {
            Ok((ast, Some(SpecParseWarning::TrailingTokens(rest)), Seq::empty()))
        } else {
            Ok((ast, Some(SpecParseWarning::MissingSemicolon), rest))
        },
        Err(e) => Err(e),
    }
}

/// The parser: a fixed token sequence consumed left to right with
/// one-token lookahead.
pub struct Parser {
    tokens: Vec<Token>,
    pos: usize,
}

impl Parser {
    /// The cursor never passes the end of the tokens.
    pub closed spec fn wf(&self) -> bool {
        self.pos <= self.tokens@.len()
    }

    /// The tokens not yet consumed.
    pub closed spec fn rem(&self) -> Seq<SpecToken> {
        self.tokens.deep_view().skip(self.pos as int)
    }

    pub fn new(tokens: Vec<Token>) -> (p: Parser)
        ensures
            p.wf(),
            p.rem() == tokens.deep_view(),
    {
        let p = Parser { tokens, pos: 0 };
        proof {
            assert(p.rem() =~= p.tokens.deep_view());
        }
        p
    }

    /// The precedence of `op`, from the fixed table.
    fn get_prec(&self, op: Operator) -> (p: u8)
        ensures
            p as int == spec_prec(op),
    {
        match op {
            Operator::LessThan => 10,
            Operator::Plus => 20,
            Operator::Minus => 20,
            Operator::Times => 40,
        }
    }

    /// A primary expression, as `spec_primary` describes it.
    fn parse_primary(&mut self) -> (r: Result<ExprAST, ParserError>)
        requires
            old(self).wf(),
        ensures
            final(self).wf(),
            final(self).tokens.deep_view() == old(self).tokens.deep_view(),
            old(self).pos <= final(self).pos,
            match r {
                Ok(e) => final(self).pos > old(self).pos && forall|f: nat|
                    f >= 4 * old(self).rem().len() + 1 ==> spec_primary(old(self).rem(), f)
                        == Ok::<(SpecExpr, Seq<SpecToken>), ParserError>(
                        (e.deep_view(), final(self).rem()),
                    ),
                Err(err) => forall|f: nat|
                    f >= 4 * old(self).rem().len() + 1 ==> spec_primary(old(self).rem(), f)
                        == Err::<(SpecExpr, Seq<SpecToken>), ParserError>(err),
            },
        decreases self.tokens@.len() - self.pos, 0int,
    {
        let ghost toks0 = self.rem();
        if self.pos >= self.tokens.len() {
            return Err(ParserError::ExpectedExpression);
        }
        let t = &self.tokens[self.pos];
        proof {
            assert(toks0[0] == self.tokens.deep_view()[self.pos as int]);
        }
        match t {
            Token::Number(text) => {
                let e = ExprAST::Number(text.clone());
                self.pos = self.pos + 1;
                proof {
                    assert(self.rem() =~= toks0.drop_first());
                }
                Ok(e)
            },
            Token::Identifier(name) => {
                let callee = name.clone();
                let has_paren = self.pos + 1 < self.tokens.len() && matches!(
                    &self.tokens[self.pos + 1],
                    Token::OpenParenthesis
                );
                if !has_paren {
                    self.pos = self.pos + 1;
                    proof {
                        assert(self.rem() =~= toks0.drop_first());
                        if toks0.drop_first().len() > 0 {
                            assert(toks0.drop_first()[0] == self.tokens.deep_view()[
                                self.pos as int]);
                        }
                    }
                    Ok(ExprAST::Variable(callee))
                } else {
                    self.pos = self.pos + 2;
                    let ghost rest2 = self.rem();
                    proof {
                        assert(toks0.drop_first()[0] == self.tokens.deep_view()[self.pos - 1]);
                        assert(rest2 =~= toks0.drop_first().drop_first());
                    }
                    let empty_args = self.pos < self.tokens.len() && matches!(
                        &self.tokens[self.pos],
                        Token::CloseParenthesis
                    );
                    if empty_args {
                        proof {
                            assert(rest2[0] == self.tokens.deep_view()[self.pos as int]);
                        }
                        self.pos = self.pos + 1;
                        let e = ExprAST::Call { callee, args: Vec::new() };
                        proof {
                            assert(self.rem() =~= rest2.drop_first());
                            assert(view_expr_seq(Seq::<ExprAST>::empty()) =~= Seq::<
                                SpecExpr,
                            >::empty());
                            assert(e.deep_view() == SpecExpr::Call {
                                callee: callee@,
                                args: Seq::<SpecExpr>::empty(),
                            });
                        }
                        Ok(e)
                    } else {
                        proof {
                            if rest2.len() > 0 {
                                assert(rest2[0] == self.tokens.deep_view()[self.pos as int]);
                            }
                        }
                        match self.parse_args() {
                            Ok(args) => {
                                let ghost rest3 = self.rem();
                                self.pos = self.pos + 1;
                                let e = ExprAST::Call { callee, args };
                                proof {
                                    assert(self.rem() =~= rest3.drop_first());
                                    lemma_view_expr_seq(e->Call_args@);
                                    assert(e->Call_args.deep_view() =~= view_expr_seq(
                                        e->Call_args@,
                                    ));
                                    assert forall|f: nat| f >= 4 * toks0.len() + 1 implies
                                        spec_primary(toks0, f) == Ok::<
                                        (SpecExpr, Seq<SpecToken>),
                                        ParserError,
                                    >((e.deep_view(), self.rem())) by {
                                        assert(spec_args(rest2, (f - 1) as nat) == Ok::<
                                            (Seq<SpecExpr>, Seq<SpecToken>),
                                            ParserError,
                                        >((e->Call_args.deep_view(), rest3)));
                                    }
                                }
                                Ok(e)
                            },
                            Err(err) => {
                                proof {
                                    assert forall|f: nat| f >= 4 * toks0.len() + 1 implies
                                        spec_primary(toks0, f) == Err::<
                                        (SpecExpr, Seq<SpecToken>),
                                        ParserError,
                                    >(err) by {
                                        assert(spec_args(rest2, (f - 1) as nat) == Err::<
                                            (Seq<SpecExpr>, Seq<SpecToken>),
                                            ParserError,
                                        >(err));
                                    }
                                }
                                Err(err)
                            },
                        }
                    }
                }
            },
            Token::OpenParenthesis => {
                self.pos = self.pos + 1;
                let ghost rest = self.rem();
                proof {
                    assert(rest =~= toks0.drop_first());
                }
                let r = self.parse_parenthesis();
                proof {
                    assert forall|f: nat| f >= 4 * toks0.len() + 1 implies spec_primary(toks0, f)
                        == (match r {
                        Ok(e) => Ok::<(SpecExpr, Seq<SpecToken>), ParserError>(
                            (e.deep_view(), self.rem()),
                        ),
                        Err(err) => Err(err),
                    }) by {
                        assert(spec_parenthesis(rest, (f - 1) as nat) == (match r {
                            Ok(e) => Ok::<(SpecExpr, Seq<SpecToken>), ParserError>(
                                (e.deep_view(), self.rem()),
                            ),
                            Err(err) => Err(err),
                        }));
                    }
                }
                r
            },
            _ => Err(ParserError::ExpectedExpression),
        }
    }

    /// The rest of a parenthesized expression, after the opening
    /// parenthesis, as `spec_parenthesis` describes it.
    fn parse_parenthesis(&mut self) -> (r: Result<ExprAST, ParserError>)
        requires
            old(self).wf(),
        ensures
            final(self).wf(),
            final(self).tokens.deep_view() == old(self).tokens.deep_view(),
            old(self).pos <= final(self).pos,
            match r {
                Ok(e) => final(self).pos > old(self).pos && forall|f: nat|
                    f >= 4 * old(self).rem().len() + 3 ==> spec_parenthesis(old(self).rem(), f)
                        == Ok::<(SpecExpr, Seq<SpecToken>), ParserError>(
                        (e.deep_view(), final(self).rem()),
                    ),
                Err(err) => forall|f: nat|
                    f >= 4 * old(self).rem().len() + 3 ==> spec_parenthesis(old(self).rem(), f)
                        == Err::<(SpecExpr, Seq<SpecToken>), ParserError>(err),
            },
        decreases self.tokens@.len() - self.pos, 2int,
    {
        let ghost toks0 = self.rem();
        match self.parse_expression() {
            Ok(e) => {
                let ghost rest = self.rem();
                let closed = self.pos < self.tokens.len() && matches!(
                    &self.tokens[self.pos],
                    Token::CloseParenthesis
                );
                proof {
                    if rest.len() > 0 {
                        assert(rest[0] == self.tokens.deep_view()[self.pos as int]);
                    }
                }
                if closed {
                    self.pos = self.pos + 1;
                    proof {
                        assert(self.rem() =~= rest.drop_first());
                        assert forall|f: nat| f >= 4 * toks0.len() + 3 implies spec_parenthesis(
                            toks0,
                            f,
                        ) == Ok::<(SpecExpr, Seq<SpecToken>), ParserError>(
                            (e.deep_view(), self.rem()),
                        ) by {
                            assert(spec_expression(toks0, (f - 1) as nat) == Ok::<
                                (SpecExpr, Seq<SpecToken>),
                                ParserError,
                            >((e.deep_view(), rest)));
                        }
                    }
                    Ok(e)
                } else {
                    proof {
                        assert forall|f: nat| f >= 4 * toks0.len() + 3 implies spec_parenthesis(
                            toks0,
                            f,
                        ) == Err::<(SpecExpr, Seq<SpecToken>), ParserError>(
                            ParserError::ExpectedCloseParen,
                        ) by {
                            assert(spec_expression(toks0, (f - 1) as nat) == Ok::<
                                (SpecExpr, Seq<SpecToken>),
                                ParserError,
                            >((e.deep_view(), rest)));
                        }
                    }
                    Err(ParserError::ExpectedCloseParen)
                }
            },
            Err(err) => {
                proof {
                    assert forall|f: nat| f >= 4 * toks0.len() + 3 implies spec_parenthesis(
                        toks0,
                        f,
                    ) == Err::<(SpecExpr, Seq<SpecToken>), ParserError>(err) by {
                        assert(spec_expression(toks0, (f - 1) as nat) == Err::<
                            (SpecExpr, Seq<SpecToken>),
                            ParserError,
                        >(err));
                    }
                }
                Err(err)
            },
        }
    }

    /// A comma-separated argument list of at least one expression, as
    /// `spec_args` describes it: it stops at the closing parenthesis,
    /// which it leaves unconsumed at the head of the rest.
    fn parse_args(&mut self) -> (r: Result<Vec<ExprAST>, ParserError>)
        requires
            old(self).wf(),
        ensures
            final(self).wf(),
            final(self).tokens.deep_view() == old(self).tokens.deep_view(),
            old(self).pos <= final(self).pos,
            match r {
                Ok(args) => {
                    &&& final(self).rem().len() > 0
                    &&& final(self).rem()[0] is CloseParenthesis
                    &&& forall|f: nat|
                        f >= 4 * old(self).rem().len() + 3 ==> spec_args(old(self).rem(), f)
                            == Ok::<(Seq<SpecExpr>, Seq<SpecToken>), ParserError>(
                            (args.deep_view(), final(self).rem()),
                        )
                },
                Err(err) => forall|f: nat|
                    f >= 4 * old(self).rem().len() + 3 ==> spec_args(old(self).rem(), f)
                        == Err::<(Seq<SpecExpr>, Seq<SpecToken>), ParserError>(err),
            },
        decreases self.tokens@.len() - self.pos, 2int,
    {
        let ghost toks0 = self.rem();
        match self.parse_expression() {
            Ok(e) => {
                let ghost rest = self.rem();
                proof {
                    if rest.len() > 0 {
                        assert(rest[0] == self.tokens.deep_view()[self.pos as int]);
                    }
                }
                if self.pos < self.tokens.len() && matches!(
                    &self.tokens[self.pos],
                    Token::CloseParenthesis
                ) {
                    let mut args: Vec<ExprAST> = Vec::new();
                    let ghost ev = e.deep_view();
                    args.push(e);
                    proof {
                        assert(args.deep_view() =~= seq![ev]);
                        assert forall|f: nat| f >= 4 * toks0.len() + 3 implies spec_args(toks0, f)
                            == Ok::<(Seq<SpecExpr>, Seq<SpecToken>), ParserError>(
                            (args.deep_view(), self.rem()),
                        ) by {
                            assert(spec_expression(toks0, (f - 1) as nat) == Ok::<
                                (SpecExpr, Seq<SpecToken>),
                                ParserError,
                            >((ev, rest)));
                        }
                    }
                    Ok(args)
                } else if self.pos < self.tokens.len() && matches!(
                    &self.tokens[self.pos],
                    Token::Comma
                ) {
                    self.pos = self.pos + 1;
                    let ghost rest_more = self.rem();
                    proof {
                        assert(rest_more =~= rest.drop_first());
                    }
                    match self.parse_args() {
                        Ok(more) => {
                            let ghost ev = e.deep_view();
                            let ghost morev = more.deep_view();
                            let mut args = more;
                            args.insert(0, e);
                            proof {
                                assert(args.deep_view() =~= seq![ev] + morev);
                                assert forall|f: nat| f >= 4 * toks0.len() + 3 implies spec_args(
                                    toks0,
                                    f,
                                ) == Ok::<(Seq<SpecExpr>, Seq<SpecToken>), ParserError>(
                                    (args.deep_view(), self.rem()),
                                ) by {
                                    assert(spec_expression(toks0, (f - 1) as nat) == Ok::<
                                        (SpecExpr, Seq<SpecToken>),
                                        ParserError,
                                    >((ev, rest)));
                                    assert(spec_args(rest_more, (f - 1) as nat) == Ok::<
                                        (Seq<SpecExpr>, Seq<SpecToken>),
                                        ParserError,
                                    >((morev, self.rem())));
                                }
                            }
                            Ok(args)
                        },
                        Err(err) => {
                            proof {
                                let ghost ev = e.deep_view();
                                assert forall|f: nat| f >= 4 * toks0.len() + 3 implies spec_args(
                                    toks0,
                                    f,
                                ) == Err::<(Seq<SpecExpr>, Seq<SpecToken>), ParserError>(err) by {
                                    assert(spec_expression(toks0, (f - 1) as nat) == Ok::<
                                        (SpecExpr, Seq<SpecToken>),
                                        ParserError,
                                    >((ev, rest)));
                                    assert(spec_args(rest_more, (f - 1) as nat) == Err::<
                                        (Seq<SpecExpr>, Seq<SpecToken>),
                                        ParserError,
                                    >(err));
                                }
                            }
                            Err(err)
                        },
                    }
                } else {
                    proof {
                        let ghost ev = e.deep_view();
                        assert forall|f: nat| f >= 4 * toks0.len() + 3 implies spec_args(toks0, f)
                            == Err::<(Seq<SpecExpr>, Seq<SpecToken>), ParserError>(
                            ParserError::ExpectedCloseParenOrComma,
                        ) by {
                            assert(spec_expression(toks0, (f - 1) as nat) == Ok::<
                                (SpecExpr, Seq<SpecToken>),
                                ParserError,
                            >((ev, rest)));
                        }
                    }
                    Err(ParserError::ExpectedCloseParenOrComma)
                }
            },
            Err(err) => {
                proof {
                    assert forall|f: nat| f >= 4 * toks0.len() + 3 implies spec_args(toks0, f)
                        == Err::<(Seq<SpecExpr>, Seq<SpecToken>), ParserError>(err) by {
                        assert(spec_expression(toks0, (f - 1) as nat) == Err::<
                            (SpecExpr, Seq<SpecToken>),
                            ParserError,
                        >(err));
                    }
                }
                Err(err)
            },
        }
    }

    /// Precedence climbing over `lhs`, as `spec_op_and_rhs` describes it.
    fn parse_op_and_rhs(&mut self, expr_prec: u8, lhs: ExprAST) -> (r: Result<ExprAST, ParserError>)
        requires
            old(self).wf(),
        ensures
            final(self).wf(),
            final(self).tokens.deep_view() == old(self).tokens.deep_view(),
            old(self).pos <= final(self).pos,
            match r {
                Ok(e) => forall|f: nat|
                    f >= 4 * old(self).rem().len() + 1 ==> spec_op_and_rhs(
                        expr_prec as int,
                        lhs.deep_view(),
                        old(self).rem(),
                        f,
                    ) == Ok::<(SpecExpr, Seq<SpecToken>), ParserError>(
                        (e.deep_view(), final(self).rem()),
                    ),
                Err(err) => forall|f: nat|
                    f >= 4 * old(self).rem().len() + 1 ==> spec_op_and_rhs(
                        expr_prec as int,
                        lhs.deep_view(),
                        old(self).rem(),
                        f,
                    ) == Err::<(SpecExpr, Seq<SpecToken>), ParserError>(err),
            },
        decreases self.tokens@.len() - self.pos, 1int,
    {
        let ghost toks0 = self.rem();
        let ghost lhs0 = lhs.deep_view();
        if self.pos >= self.tokens.len() {
            return Ok(lhs);
        }
        proof {
            assert(toks0[0] == self.tokens.deep_view()[self.pos as int]);
        }
        let op = match &self.tokens[self.pos] {
            Token::Operator(op) => *op,
            _ => {
                return Ok(lhs);
            },
        };
        let token_prec = self.get_prec(op);
        if token_prec < expr_prec {
            return Ok(lhs);
        }
        self.pos = self.pos + 1;
        proof {
            assert(self.rem() =~= toks0.drop_first());
        }
        let rhs0 = match self.parse_primary() {
            Ok(e) => e,
            Err(err) => {
                proof {
                    assert forall|f: nat| f >= 4 * toks0.len() + 1 implies spec_op_and_rhs(
                        expr_prec as int,
                        lhs0,
                        toks0,
                        f,
                    ) == Err::<(SpecExpr, Seq<SpecToken>), ParserError>(err) by {
                        assert(spec_primary(toks0.drop_first(), (f - 1) as nat) == Err::<
                            (SpecExpr, Seq<SpecToken>),
                            ParserError,
                        >(err));
                    }
                }
                return Err(err);
            },
        };
        let ghost rest = self.rem();
        let ghost rhs0v = rhs0.deep_view();
        proof {
            if rest.len() > 0 {
                assert(rest[0] == self.tokens.deep_view()[self.pos as int]);
            }
        }
        let next_higher = if self.pos < self.tokens.len() {
            match &self.tokens[self.pos] {
                Token::Operator(op2) => token_prec < self.get_prec(*op2),
                _ => false,
            }
        } else {
            false
        };
        let rhs = if next_higher {
            match self.parse_op_and_rhs(token_prec + 1, rhs0) {
                Ok(e) => e,
                Err(err) => {
                    proof {
                        assert forall|f: nat| f >= 4 * toks0.len() + 1 implies spec_op_and_rhs(
                            expr_prec as int,
                            lhs0,
                            toks0,
                            f,
                        ) == Err::<(SpecExpr, Seq<SpecToken>), ParserError>(err) by {
                            assert(spec_primary(toks0.drop_first(), (f - 1) as nat) == Ok::<
                                (SpecExpr, Seq<SpecToken>),
                                ParserError,
                            >((rhs0v, rest)));
                            assert(spec_op_and_rhs(
                                spec_prec(op) + 1,
                                rhs0v,
                                rest,
                                (f - 1) as nat,
                            ) == Err::<(SpecExpr, Seq<SpecToken>), ParserError>(err));
                        }
                    }
                    return Err(err);
                },
            }
        } else {
            rhs0
        };
        let ghost rest2 = self.rem();
        let ghost rhsv = rhs.deep_view();
        let combined = ExprAST::BinaryOp { op, lhs: Box::new(lhs), rhs: Box::new(rhs) };
        let ghost combv = combined.deep_view();
        let r = self.parse_op_and_rhs(expr_prec, combined);
        proof {
            assert forall|f: nat| f >= 4 * toks0.len() + 1 implies spec_op_and_rhs(
                expr_prec as int,
                lhs0,
                toks0,
                f,
            ) == (match r {
                Ok(e) => Ok::<(SpecExpr, Seq<SpecToken>), ParserError>(
                    (e.deep_view(), final(self).rem()),
                ),
                Err(err) => Err::<(SpecExpr, Seq<SpecToken>), ParserError>(err),
            }) by {
                assert(spec_primary(toks0.drop_first(), (f - 1) as nat) == Ok::<
                    (SpecExpr, Seq<SpecToken>),
                    ParserError,
                >((rhs0v, rest)));
                if next_higher {
                    assert(spec_op_and_rhs(spec_prec(op) + 1, rhs0v, rest, (f - 1) as nat)
                        == Ok::<(SpecExpr, Seq<SpecToken>), ParserError>((rhsv, rest2)));
                }
                assert(spec_op_and_rhs(expr_prec as int, combv, rest2, (f - 1) as nat) == (
                match r {
                    Ok(e) => Ok::<(SpecExpr, Seq<SpecToken>), ParserError>(
                        (e.deep_view(), final(self).rem()),
                    ),
                    Err(err) => Err::<(SpecExpr, Seq<SpecToken>), ParserError>(err),
                }));
            }
        }
        r
    }

    /// Whether the next unconsumed token is an identifier.
    fn peek_is_identifier(&self) -> (r: bool)
        requires
            self.wf(),
        ensures
            r == (self.rem().len() > 0 && self.rem()[0] is Identifier),
    {
        proof {
            if self.rem().len() > 0 {
                assert(self.rem()[0] == self.tokens.deep_view()[self.pos as int]);
            }
        }
        self.pos < self.tokens.len() && matches!(&self.tokens[self.pos], Token::Identifier(_))
    }

    /// A prototype, as `spec_prototype` describes it: a name, `(`,
    /// consecutive parameter names without commas, `)`.
    fn parse_prototype(&mut self) -> (r: Result<Prototype, ParserError>)
        requires
            old(self).wf(),
        ensures
            final(self).wf(),
            final(self).tokens.deep_view() == old(self).tokens.deep_view(),
            old(self).pos <= final(self).pos,
            match r {
                Ok(p) => final(self).pos > old(self).pos && spec_prototype(old(self).rem())
                    == Ok::<(SpecProto, Seq<SpecToken>), ParserError>(
                    (p.deep_view(), final(self).rem()),
                ),
                Err(err) => spec_prototype(old(self).rem()) == Err::<
                    (SpecProto, Seq<SpecToken>),
                    ParserError,
                >(err),
            },
    {
        let ghost toks0 = self.rem();
        if self.pos >= self.tokens.len() {
            return Err(ParserError::ExpectedFunctionName);
        }
        proof {
            assert(toks0[0] == self.tokens.deep_view()[self.pos as int]);
        }
        let name = match &self.tokens[self.pos] {
            Token::Identifier(name) => name.clone(),
            _ => {
                return Err(ParserError::ExpectedFunctionName);
            },
        };
        self.pos = self.pos + 1;
        proof {
            assert(self.rem() =~= toks0.drop_first());
            if self.rem().len() > 0 {
                assert(self.rem()[0] == self.tokens.deep_view()[self.pos as int]);
            }
        }
        if !(self.pos < self.tokens.len() && matches!(
            &self.tokens[self.pos],
            Token::OpenParenthesis
        )) {
            return Err(ParserError::ExpectedOpenParenInPrototype);
        }
        self.pos = self.pos + 1;
        let ghost rest2 = self.rem();
        let ghost start = self.pos as int;
        proof {
            assert(rest2 =~= toks0.drop_first().drop_first());
        }
        let mut args: Vec<String> = Vec::new();
        proof {
            assert(rest2.skip(0) =~= rest2);
        }
        while self.peek_is_identifier()
            invariant
                self.wf(),
                self.tokens.deep_view() == old(self).tokens.deep_view(),
                start <= self.pos,
                start + rest2.len() == self.tokens.deep_view().len(),
                self.rem() == rest2.skip(self.pos - start),
                ident_names(rest2) =~= args.deep_view() + ident_names(self.rem()),
                ident_run(rest2) == (self.pos - start) + ident_run(self.rem()),
            decreases self.tokens@.len() - self.pos,
        {
            let ghost cur = self.rem();
            let n: usize = self.tokens.len();
            proof {
                assert(self.tokens.deep_view().len() == self.tokens@.len());
                assert(self.pos < n);
                assert(cur[0] == self.tokens.deep_view()[self.pos as int]);
            }
            let arg = match &self.tokens[self.pos] {
                Token::Identifier(arg) => arg.clone(),
                _ => unreached(),
            };
            let ghost prev = args.deep_view();
            args.push(arg);
            self.pos = self.pos + 1;
            proof {
                assert(args.deep_view() =~= prev.push(cur[0]->Identifier_0));
                assert(self.rem() =~= cur.drop_first());
                assert(rest2.len() == self.tokens.deep_view().len() - start);
                lemma_skip_succ(rest2, self.pos - 1 - start);
                assert(ident_names(cur) == seq![cur[0]->Identifier_0] + ident_names(
                    cur.drop_first(),
                ));
                assert(prev + (seq![cur[0]->Identifier_0] + ident_names(self.rem()))
                    =~= args.deep_view() + ident_names(self.rem()));
            }
        }
        let ghost rest3 = self.rem();
        proof {
            lemma_ident_run(rest2);
            assert(ident_run(rest3) == 0);
            assert(ident_names(rest3) =~= Seq::<Seq<char>>::empty());
            assert(args.deep_view() + Seq::<Seq<char>>::empty() =~= args.deep_view());
            assert(rest3 == rest2.skip(ident_run(rest2) as int));
            if rest3.len() > 0 {
                assert(rest3[0] == self.tokens.deep_view()[self.pos as int]);
            }
        }
        if self.pos < self.tokens.len() && matches!(
            &self.tokens[self.pos],
            Token::CloseParenthesis
        ) {
            self.pos = self.pos + 1;
            proof {
                assert(self.rem() =~= rest3.drop_first());
            }
            Ok(Prototype { name, args })
        } else {
            Err(ParserError::ExpectedCloseParenInPrototype)
        }
    }

    /// A function definition after its `def`, as `spec_definition`
    /// describes it.
    fn parse_definition(&mut self) -> (r: Result<ExprAST, ParserError>)
        requires
            old(self).wf(),
        ensures
            final(self).wf(),
            final(self).tokens.deep_view() == old(self).tokens.deep_view(),
            old(self).pos <= final(self).pos,
            match r {
                Ok(e) => forall|f: nat|
                    f >= 4 * old(self).rem().len() + 1 ==> spec_definition(old(self).rem(), f)
                        == Ok::<(SpecExpr, Seq<SpecToken>), ParserError>(
                        (e.deep_view(), final(self).rem()),
                    ),
                Err(err) => forall|f: nat|
                    f >= 4 * old(self).rem().len() + 1 ==> spec_definition(old(self).rem(), f)
                        == Err::<(SpecExpr, Seq<SpecToken>), ParserError>(err),
            },
    {
        let ghost toks0 = self.rem();
        let proto = match self.parse_prototype() {
            Ok(p) => p,
            Err(err) => {
                return Err(err);
            },
        };
        let ghost rest = self.rem();
        let ghost protov = proto.deep_view();
        match self.parse_expression() {
            Ok(body) => {
                let ghost bodyv = body.deep_view();
                let e = ExprAST::Function { proto, body: Box::new(body) };
                proof {
                    assert forall|f: nat| f >= 4 * toks0.len() + 1 implies spec_definition(
                        toks0,
                        f,
                    ) == Ok::<(SpecExpr, Seq<SpecToken>), ParserError>(
                        (e.deep_view(), self.rem()),
                    ) by {
                        assert(spec_expression(rest, (f - 1) as nat) == Ok::<
                            (SpecExpr, Seq<SpecToken>),
                            ParserError,
                        >((bodyv, self.rem())));
                    }
                }
                Ok(e)
            },
            Err(err) => {
                proof {
                    assert forall|f: nat| f >= 4 * toks0.len() + 1 implies spec_definition(
                        toks0,
                        f,
                    ) == Err::<(SpecExpr, Seq<SpecToken>), ParserError>(err) by {
                        assert(spec_expression(rest, (f - 1) as nat) == Err::<
                            (SpecExpr, Seq<SpecToken>),
                            ParserError,
                        >(err));
                    }
                }
                Err(err)
            },
        }
    }

    /// An external declaration after its `extern`, as `spec_extern`
    /// describes it.
    fn parse_extern(&mut self) -> (r: Result<ExprAST, ParserError>)
        requires
            old(self).wf(),
        ensures
            final(self).wf(),
            final(self).tokens.deep_view() == old(self).tokens.deep_view(),
            old(self).pos <= final(self).pos,
            match r {
                Ok(e) => spec_extern(old(self).rem()) == Ok::<
                    (SpecExpr, Seq<SpecToken>),
                    ParserError,
                >((e.deep_view(), final(self).rem())),
                Err(err) => spec_extern(old(self).rem()) == Err::<
                    (SpecExpr, Seq<SpecToken>),
                    ParserError,
                >(err),
            },
    {
        match self.parse_prototype() {
            Ok(p) => Ok(ExprAST::Prototype(p)),
            Err(err) => Err(err),
        }
    }

    /// One whole statement, as `spec_parse` describes it: the tree and,
    /// where the terminator rule was broken, a warning. A missing
    /// semicolon is reported; leftover tokens are drained into the
    /// warning, as they would otherwise stand in front of the next
    /// statement.
    pub fn parse(&mut self) -> (r: Result<(ExprAST, Option<ParseWarning>), ParserError>)
        requires
            old(self).wf(),
        ensures
            final(self).wf(),
            match r {
                Ok((ast, w)) => spec_parse(old(self).rem()) == Ok::<
                    (SpecExpr, Option<SpecParseWarning>, Seq<SpecToken>),
                    ParserError,
                >((ast.deep_view(), w.deep_view(), final(self).rem())),
                Err(err) => spec_parse(old(self).rem()) == Err::<
                    (SpecExpr, Option<SpecParseWarning>, Seq<SpecToken>),
                    ParserError,
                >(err),
            },
    {
        let ghost toks0 = self.rem();
        let ghost fuel0 = parse_fuel(toks0.len());
        if self.pos >= self.tokens.len() {
            return Err(ParserError::EmptyInput);
        }
        proof {
            assert(toks0[0] == self.tokens.deep_view()[self.pos as int]);
        }
        let stmt: Result<ExprAST, ParserError> = match &self.tokens[self.pos] {
            Token::Def => {
                self.pos = self.pos + 1;
                proof {
                    assert(self.rem() =~= toks0.drop_first());
                }
                let ghost rest = self.rem();
                let r = self.parse_definition();
                proof {
                    assert(spec_definition(rest, (fuel0 - 1) as nat) == (match r {
                        Ok(e) => Ok::<(SpecExpr, Seq<SpecToken>), ParserError>(
                            (e.deep_view(), self.rem()),
                        ),
                        Err(err) => Err::<(SpecExpr, Seq<SpecToken>), ParserError>(err),
                    }));
                }
                r
            },
            Token::Extern => {
                self.pos = self.pos + 1;
                proof {
                    assert(self.rem() =~= toks0.drop_first());
                }
                self.parse_extern()
            },
            _ => {
                let r = self.parse_expression();
                proof {
                    assert(spec_expression(toks0, (fuel0 - 1) as nat) == (match r {
                        Ok(e) => Ok::<(SpecExpr, Seq<SpecToken>), ParserError>(
                            (e.deep_view(), self.rem()),
                        ),
                        Err(err) => Err::<(SpecExpr, Seq<SpecToken>), ParserError>(err),
                    }));
                }
                r
            },
        };
        let ast = match stmt {
            Ok(ast) => ast,
            Err(err) => {
                return Err(err);
            },
        };
        let ghost rest = self.rem();
        proof {
            if rest.len() > 0 {
                assert(rest[0] == self.tokens.deep_view()[self.pos as int]);
            }
        }
        if self.pos < self.tokens.len() {
            if matches!(&self.tokens[self.pos], Token::SemiColon) {
                self.pos = self.pos + 1;
                proof {
                    assert(self.rem() =~= rest.drop_first());
                }
                Ok((ast, None))
            } else {
                let mut drained: Vec<Token> = Vec::new();
                while self.pos < self.tokens.len()
                    invariant
                        self.wf(),
                        drained.deep_view() + self.rem() =~= rest,
                    decreases self.tokens@.len() - self.pos,
                {
                    let ghost cur = self.rem();
                    let ghost dv = drained.deep_view();
                    let ghost tokens_dv = self.tokens.deep_view();
                    let t = self.tokens.remove(self.pos);
                    drained.push(t);
                    proof {
                        assert(cur[0] == tokens_dv[self.pos as int]);
                        assert(self.tokens.deep_view() =~= tokens_dv.remove(self.pos as int));
                        assert(self.rem() =~= cur.drop_first());
                        assert(drained.deep_view() =~= dv.push(cur[0]));
                        assert(dv.push(cur[0]) + cur.drop_first() =~= dv + cur);
                    }
                }
                proof {
                    assert(self.rem().len() == 0);
                    assert(drained.deep_view() + self.rem() =~= drained.deep_view());
                    assert(drained.deep_view() =~= rest);
                    assert(self.rem() =~= Seq::<SpecToken>::empty());
                }
                Ok((ast, Some(ParseWarning::TrailingTokens(drained))))
            }
        } else {
            Ok((ast, Some(ParseWarning::MissingSemicolon)))
        }
    }

    /// A whole expression, as `spec_expression` describes it.
    fn parse_expression(&mut self) -> (r: Result<ExprAST, ParserError>)
        requires
            old(self).wf(),
        ensures
            final(self).wf(),
            final(self).tokens.deep_view() == old(self).tokens.deep_view(),
            old(self).pos <= final(self).pos,
            match r {
                Ok(e) => final(self).pos > old(self).pos && forall|f: nat|
                    f >= 4 * old(self).rem().len() + 2 ==> spec_expression(old(self).rem(), f)
                        == Ok::<(SpecExpr, Seq<SpecToken>), ParserError>(
                        (e.deep_view(), final(self).rem()),
                    ),
                Err(err) => forall|f: nat|
                    f >= 4 * old(self).rem().len() + 2 ==> spec_expression(old(self).rem(), f)
                        == Err::<(SpecExpr, Seq<SpecToken>), ParserError>(err),
            },
        decreases self.tokens@.len() - self.pos, 1int,
    {
        let ghost toks0 = self.rem();
        match self.parse_primary() {
            Ok(lhs) => {
                let ghost rest = self.rem();
                let ghost lhsv = lhs.deep_view();
                let r = self.parse_op_and_rhs(0, lhs);
                proof {
                    assert forall|f: nat| f >= 4 * toks0.len() + 2 implies spec_expression(
                        toks0,
                        f,
                    ) == (match r {
                        Ok(e) => Ok::<(SpecExpr, Seq<SpecToken>), ParserError>(
                            (e.deep_view(), final(self).rem()),
                        ),
                        Err(err) => Err::<(SpecExpr, Seq<SpecToken>), ParserError>(err),
                    }) by {
                        assert(spec_primary(toks0, (f - 1) as nat) == Ok::<
                            (SpecExpr, Seq<SpecToken>),
                            ParserError,
                        >((lhsv, rest)));
                        assert(spec_op_and_rhs(0, lhsv, rest, (f - 1) as nat) == (match r {
                            Ok(e) => Ok::<(SpecExpr, Seq<SpecToken>), ParserError>(
                                (e.deep_view(), final(self).rem()),
                            ),
                            Err(err) => Err::<(SpecExpr, Seq<SpecToken>), ParserError>(err),
                        }));
                    }
                }
                r
            },
            Err(err) => {
                proof {
                    assert forall|f: nat| f >= 4 * toks0.len() + 2 implies spec_expression(
                        toks0,
                        f,
                    ) == Err::<(SpecExpr, Seq<SpecToken>), ParserError>(err) by {
                        assert(spec_primary(toks0, (f - 1) as nat) == Err::<
                            (SpecExpr, Seq<SpecToken>),
                            ParserError,
                        >(err));
                    }
                }
                Err(err)
            },
        }
    }
}

} // verus!
