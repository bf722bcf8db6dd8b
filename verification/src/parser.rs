//! The recursive-descent parser.

use crate::error::{ErrorKind, LoxError, LoxErrorView};
use crate::expr::{Assign, Binary, BinaryOp, Expr, ExprView, Grouping, Literal, Unary, UnaryOp};
use crate::grammar;
use crate::grammar::Parsed;
use crate::stmt::{lemma_block_view, stmt_views, Stmt, StmtView, Var};
use crate::tokens;
use crate::tokens::{token_views, Token, TokenType, TokenView};
use vstd::prelude::*;

verus! {

/// The parser: a token stream and the position of the next token to
/// read. It reads from left to right and looks one token ahead.
pub struct Parser {
    tokens: Vec<Token>,
    current: u32,
}

/// The model of the result of parsing an expression.
pub open spec fn expr_outcome(result: Result<Expr, LoxError>) -> Result<ExprView, LoxErrorView> {
    match result {
        Ok(expr) => Ok(expr@),
        Err(error) => Err(error@),
    }
}

/// The model of the result of parsing a statement.
pub open spec fn stmt_outcome(result: Result<Stmt, LoxError>) -> Result<StmtView, LoxErrorView> {
    match result {
        Ok(stmt) => Ok(stmt@),
        Err(error) => Err(error@),
    }
}

/// The models of the results of parsing a program, in order.
pub open spec fn program_outcome(results: Seq<Result<Stmt, LoxError>>) -> Seq<
    Result<StmtView, LoxErrorView>,
> {
    Seq::new(results.len(), |i: int| stmt_outcome(results[i]))
}

/// Tells whether `tokens` are a stream that the parser can read: whether
/// [`Parser::reset_tokens`] may be called with them.
pub fn readable(tokens: &Vec<Token>) -> (ok: bool)
    ensures
        ok == grammar::well_formed(token_views(tokens@)),
{
    let ghost views = token_views(tokens@);
    if tokens.len() == 0 || tokens.len() > u32::MAX as usize {
        return false;
    }
    if tokens[tokens.len() - 1].token_type != TokenType::Eof {
        return false;
    }
    let mut i: usize = 0;
    while i < tokens.len()
        invariant
            i <= tokens@.len(),
            views == token_views(tokens@),
            forall|j: int|
                0 <= j < i && (#[trigger] views[j].token_type == TokenType::Number
                    || views[j].token_type == TokenType::String) ==> grammar::has_value(views[j]),
        decreases tokens.len() - i,
    {
        let token = &tokens[i];
        if token.token_type == TokenType::Number || token.token_type == TokenType::String {
            let valued = match &token.literal {
                Some(tokens::Literal::Number(_)) => true,
                Some(tokens::Literal::String(_)) => true,
                _ => false,
            };
            if !valued {
                assert(views[i as int] == token@);
                assert(views[i as int].token_type == TokenType::Number || views[i as int].token_type
                    == TokenType::String);
                assert(!grammar::has_value(views[i as int]));
                return false;
            }
        }
        i += 1;
    }
    true
}

impl Parser {
    /// The tokens that the parser reads.
    pub closed spec fn stream(&self) -> Seq<TokenView> {
        token_views(self.tokens@)
    }

    /// The position of the next token to read.
    pub closed spec fn position(&self) -> int {
        self.current as int
    }

    /// Whether the parser can parse: its tokens are a well-formed stream
    /// and its position is in it.
    pub open spec fn wf(&self) -> bool {
        &&& grammar::well_formed(self.stream())
        &&& 0 <= self.position() < self.stream().len()
    }

    /// Whether the parser has gone on by what `parsed` took, on the same
    /// tokens.
    spec fn went<T>(&self, before: &Parser, parsed: Parsed<T>) -> bool {
        &&& self.wf()
        &&& self.tokens == before.tokens
        &&& self.current == before.current + parsed.used
    }

    spec fn left(&self) -> nat {
        grammar::remaining(self.stream(), self.position())
    }

    /// A parser without tokens. It parses once it is given some.
    pub fn new() -> (parser: Self)
        ensures
            parser.stream() == Seq::<TokenView>::empty(),
            parser.position() == 0,
    {
        let parser = Self { tokens: Vec::new(), current: 0 };
        assert(parser.stream() =~= Seq::<TokenView>::empty());
        parser
    }

    /// Gives the parser new tokens to read, from the first on.
    pub fn reset_tokens(&mut self, tokens: Vec<Token>)
        requires
            grammar::well_formed(token_views(tokens@)),
        ensures
            final(self).wf(),
            final(self).stream() == token_views(tokens@),
            final(self).position() == 0,
    {
        self.tokens = tokens;
        self.current = 0;
    }

    fn peek(&self) -> (token: &Token)
        requires
            self.wf(),
        ensures
            token@ == self.stream()[self.position()],
            *token == self.tokens[self.current as int],
    {
        &self.tokens[self.current as usize]
    }

    fn previous(&self) -> (token: &Token)
        requires
            self.wf(),
            self.position() > 0,
        ensures
            token@ == self.stream()[self.position() - 1],
            *token == self.tokens[self.current - 1],
    {
        &self.tokens[(self.current - 1) as usize]
    }

    fn is_at_end(&self) -> (end: bool)
        requires
            self.wf(),
        ensures
            end == grammar::at_end(self.stream(), self.position()),
    {
        self.peek().token_type == TokenType::Eof
    }

    fn check(&self, t: &TokenType) -> (found: bool)
        requires
            self.wf(),
        ensures
            found == grammar::check(self.stream(), self.position(), *t),
    {
        match self.is_at_end() {
            true => false,
            false => self.peek().token_type == *t,
        }
    }

    /// Takes the next token, unless the input ends there.
    fn advance(&mut self)
        requires
            old(self).wf(),
        ensures
            final(self).wf(),
            final(self).tokens == old(self).tokens,
            final(self).current == if grammar::at_end(old(self).stream(), old(self).position()) {
                old(self).current as int
            } else {
                old(self).current + 1
            },
    {
        if !self.is_at_end() {
            self.current += 1;
        }
    }

    /// Takes the next token if its type is one of `types`.
    fn adv_if_match(&mut self, types: &[TokenType]) -> (matched: bool)
        requires
            old(self).wf(),
        ensures
            final(self).wf(),
            final(self).tokens == old(self).tokens,
            matched == exists|i: int|
                0 <= i < types@.len() && grammar::check(
                    old(self).stream(),
                    old(self).position(),
                    #[trigger] types@[i],
                ),
            final(self).current == if matched {
                old(self).current + 1
            } else {
                old(self).current as int
            },
    {
        let mut i: usize = 0;
        while i < types.len()
            invariant
                self.wf(),
                *self == *old(self),
                i <= types@.len(),
                forall|j: int|
                    0 <= j < i ==> !grammar::check(
                        self.stream(),
                        self.position(),
                        #[trigger] types@[j],
                    ),
            decreases types.len() - i,
        {
            if self.check(&types[i]) {
                self.advance();
                return true;
            }
            i += 1;
        }
        false
    }

    /// Takes the next token if it is of the given type; the error says
    /// which type was looked for, and where.
    fn try_consume(&mut self, token_type: TokenType, err_msg: &str) -> (taken: Result<(), LoxError>)
        requires
            old(self).wf(),
        ensures
            final(self).wf(),
            final(self).tokens == old(self).tokens,
            match taken {
                Ok(_) => grammar::check(old(self).stream(), old(self).position(), token_type)
                    && final(self).current == old(self).current + 1,
                Err(error) => !grammar::check(old(self).stream(), old(self).position(), token_type)
                    && final(self).current == old(self).current && error@ == grammar::missing(
                    old(self).stream(),
                    old(self).position(),
                    token_type,
                    err_msg@,
                ),
            },
    {
        let peek = self.peek();
        let line = peek.line;
        let chars_in_line = peek.lexeme.clone();
        if self.check(&token_type) {
            self.advance();
            Ok(())
        } else {
            Err(
                LoxError::new(
                    ErrorKind::ExpectedToken(token_type),
                    line,
                    0,
                    chars_in_line,
                    err_msg.to_owned(),
                ),
            )
        }
    }

    /// Parses the whole program: one result for each declaration, in
    /// order. After a declaration that fails, the parser drops tokens up
    /// to the next statement boundary and goes on, so that each fault is
    /// reported once.
    #[verifier::rlimit(50)]
    pub fn parse(&mut self) -> (results: Vec<Result<Stmt, LoxError>>)
        requires
            old(self).wf(),
        ensures
            final(self).wf(),
            final(self).stream() == old(self).stream(),
            grammar::at_end(final(self).stream(), final(self).position()),
            program_outcome(results@) == grammar::program(old(self).stream(), old(self).position()),
    {
        proof {
            reveal(grammar::program);
        }
        let mut stmts: Vec<Result<Stmt, LoxError>> = Vec::new();
        assert(program_outcome(stmts@) =~= Seq::empty());
        while !self.is_at_end()
            invariant
                self.wf(),
                self.tokens == old(self).tokens,
                grammar::program(old(self).stream(), old(self).position()) == program_outcome(stmts@)
                    + grammar::program(self.stream(), self.position()),
            decreases self.left(),
        {
            proof {
                reveal(grammar::program);
            }
            let ghost done = program_outcome(stmts@);
            let ghost parsed = grammar::declaration(self.stream(), self.position());
            let ghost here = self.position();
            match self.declaration() {
                Ok(stmt) => {
                    assert(program_outcome(stmts@.push(Ok(stmt))) =~= done + seq![Ok(stmt@)]);
                    stmts.push(Ok(stmt));
                },
                Err(e) => {
                    assert(program_outcome(stmts@.push(Err(e))) =~= done + seq![Err(e@)]);
                    stmts.push(Err(e));
                    self.synchronize();
                    proof {
                        grammar::lemma_next_boundary_advances(self.stream(), here + parsed.used + 1);
                    }
                },
            }
            assert(grammar::program(self.stream(), here) == seq![stmt_outcome(stmts@.last())]
                + grammar::program(self.stream(), self.position()));
            assert(done + (seq![stmt_outcome(stmts@.last())] + grammar::program(
                self.stream(),
                self.position(),
            )) =~= program_outcome(stmts@) + grammar::program(self.stream(), self.position()));
        }
        assert(grammar::program(self.stream(), self.position()) =~= Seq::empty());
        assert(program_outcome(stmts@) + Seq::empty() =~= program_outcome(stmts@));
        stmts
    }

    fn declaration(&mut self) -> (result: Result<Stmt, LoxError>)
        requires
            old(self).wf(),
        ensures
            final(self).went(old(self), grammar::declaration(old(self).stream(), old(self).position())),
            stmt_outcome(result) == grammar::declaration(old(self).stream(), old(self).position()).result,
            result is Ok ==> final(self).current > old(self).current,
        decreases old(self).left(), 2nat,
    {
        proof {
            reveal(grammar::declaration);
            reveal(grammar::statement);
        }
        if self.adv_if_match(&[TokenType::Var]) {
            self.var_declaration()
        } else {
            self.statement()
        }
    }

    #[verifier::rlimit(50)]
    fn var_declaration(&mut self) -> (result: Result<Stmt, LoxError>)
        requires
            old(self).wf(),
        ensures
            final(self).went(
                old(self),
                grammar::var_declaration(old(self).stream(), old(self).position()),
            ),
            stmt_outcome(result) == grammar::var_declaration(
                old(self).stream(),
                old(self).position(),
            ).result,
            result is Ok ==> final(self).current > old(self).current,
    {
        proof {
            reveal(grammar::var_declaration);
        }
        self.try_consume(TokenType::Identifier, "Expect variable name")?;
        let name = self.previous().clone();

        let initializer = if self.adv_if_match(&[TokenType::Equal]) {
            Some(self.expression()?)
        } else {
            None
        };

        self.try_consume(TokenType::Semicolon, "Expect ';' after variable declaration")?;
        match initializer {
            Some(val) => Ok(Stmt::Var(Var::with_init(name, val))),
            None => Ok(Stmt::Var(Var::new(name))),
        }
    }

    #[verifier::rlimit(50)]
    fn statement(&mut self) -> (result: Result<Stmt, LoxError>)
        requires
            old(self).wf(),
        ensures
            final(self).went(old(self), grammar::statement(old(self).stream(), old(self).position())),
            stmt_outcome(result) == grammar::statement(old(self).stream(), old(self).position()).result,
            result is Ok ==> final(self).current > old(self).current,
        decreases old(self).left(), 1nat,
    {
        proof {
            reveal(grammar::statement);
            reveal(grammar::block);
        }
        if self.adv_if_match(&[TokenType::Print]) {
            self.print_statement()
        } else if self.adv_if_match(&[TokenType::LeftBrace]) {
            let stmts = self.block()?;
            proof {
                lemma_block_view(stmts);
            }
            Ok(Stmt::Block(stmts))
        } else {
            self.expr_statement()
        }
    }

    fn print_statement(&mut self) -> (result: Result<Stmt, LoxError>)
        requires
            old(self).wf(),
        ensures
            final(self).went(
                old(self),
                grammar::print_statement(old(self).stream(), old(self).position()),
            ),
            stmt_outcome(result) == grammar::print_statement(
                old(self).stream(),
                old(self).position(),
            ).result,
            result is Ok ==> final(self).current > old(self).current,
    {
        proof {
            reveal(grammar::print_statement);
            reveal(grammar::terminated_expression);
        }
        let expr = self.expression()?;
        self.try_consume(TokenType::Semicolon, "Expected semicolon after expression")?;
        Ok(Stmt::Print(expr))
    }

    #[verifier::rlimit(50)]
    fn block(&mut self) -> (result: Result<Vec<Stmt>, LoxError>)
        requires
            old(self).wf(),
        ensures
            final(self).went(old(self), grammar::block(old(self).stream(), old(self).position())),
            match result {
                Ok(stmts) => grammar::block(old(self).stream(), old(self).position()).result == Ok::<
                    Seq<StmtView>,
                    LoxErrorView,
                >(stmt_views(stmts@)),
                Err(error) => grammar::block(old(self).stream(), old(self).position()).result
                    == Err::<Seq<StmtView>, LoxErrorView>(error@),
            },
        decreases old(self).left(), 4nat,
    {
        proof {
            reveal(grammar::block);
            reveal(grammar::block_items);
            reveal(grammar::declaration);
        }
        let mut stmts: Vec<Stmt> = Vec::new();
        let ghost models: Seq<StmtView> = Seq::empty();
        assert(stmt_views(stmts@) =~= models);

        while !(self.check(&TokenType::RightBrace) || self.is_at_end())
            invariant
                self.wf(),
                self.tokens == old(self).tokens,
                old(self).current <= self.current,
                models == stmt_views(stmts@),
                grammar::block_items(self.stream(), old(self).position()) == ({
                    let rest = grammar::block_items(self.stream(), self.position());
                    Parsed {
                        result: match rest.result {
                            Ok(more) => Ok(models + more),
                            Err(error) => Err(error),
                        },
                        used: (self.current - old(self).current) as nat + rest.used,
                    }
                }),
            decreases self.left(),
        {
            proof {
                reveal(grammar::block);
                reveal(grammar::block_items);
                reveal(grammar::declaration);
            }
            let stmt = self.declaration()?;
            proof {
                assert forall|tail: Seq<StmtView>| #[trigger]
                    (models + (seq![stmt@] + tail)) == models.push(stmt@) + tail by {
                    assert((models + (seq![stmt@] + tail)) =~= models.push(stmt@) + tail);
                }
                models = models.push(stmt@);
                assert(stmt_views(stmts@.push(stmt)) =~= models);
            }
            stmts.push(stmt);
        }
        assert(models + Seq::<StmtView>::empty() =~= models);
        self.try_consume(TokenType::RightBrace, "Expected '}' after block")?;
        Ok(stmts)
    }

    fn expr_statement(&mut self) -> (result: Result<Stmt, LoxError>)
        requires
            old(self).wf(),
        ensures
            final(self).went(
                old(self),
                grammar::expr_statement(old(self).stream(), old(self).position()),
            ),
            stmt_outcome(result) == grammar::expr_statement(
                old(self).stream(),
                old(self).position(),
            ).result,
            result is Ok ==> final(self).current > old(self).current,
    {
        proof {
            reveal(grammar::expr_statement);
            reveal(grammar::terminated_expression);
        }
        let expr = self.expression()?;
        self.try_consume(TokenType::Semicolon, "Expected semicolon after expression")?;
        Ok(Stmt::Expr(expr))
    }

    /// After an error: drops the token at hand and then all tokens up to
    /// the next statement boundary.
    fn synchronize(&mut self)
        requires
            old(self).wf(),
        ensures
            final(self).wf(),
            final(self).tokens == old(self).tokens,
            final(self).position() == grammar::synchronize(old(self).stream(), old(self).position()),
    {
        self.advance();
        while !self.is_at_end()
            invariant
                self.wf(),
                self.tokens == old(self).tokens,
                self.current > old(self).current || grammar::at_end(self.stream(), self.position()),
                grammar::synchronize(old(self).stream(), old(self).position())
                    == grammar::next_boundary(self.stream(), self.position()),
            decreases self.left(),
        {
            if self.previous().token_type == TokenType::Semicolon {
                return ;
            }
            match self.peek().token_type {
                TokenType::Class
                | TokenType::Fun
                | TokenType::For
                | TokenType::If
                | TokenType::Print
                | TokenType::Return
                | TokenType::Var
                | TokenType::While => return ,
                _ => (),
            }

            self.advance();
        }
    }

    fn expression(&mut self) -> (result: Result<Expr, LoxError>)
        requires
            old(self).wf(),
        ensures
            final(self).went(old(self), grammar::expression(old(self).stream(), old(self).position())),
            expr_outcome(result) == grammar::expression(old(self).stream(), old(self).position()).result,
            result is Ok ==> final(self).current > old(self).current,
        decreases old(self).left(), 11nat,
    {
        proof {
            reveal(grammar::expression);
        }
        self.assignment()
    }

    fn assignment(&mut self) -> (result: Result<Expr, LoxError>)
        requires
            old(self).wf(),
        ensures
            final(self).went(old(self), grammar::assignment(old(self).stream(), old(self).position())),
            expr_outcome(result) == grammar::assignment(old(self).stream(), old(self).position()).result,
            result is Ok ==> final(self).current > old(self).current,
        decreases old(self).left(), 10nat,
    {
        let mut expr = self.equality()?;

        if self.adv_if_match(&[TokenType::Equal]) {
            let equals = self.current - 1;
            let value = self.assignment()?;

            proof {
                expr.lemma_same_kind();
            }
            expr = match expr {
                Expr::Variable(name) => Expr::Assign(Assign::new(name, Box::new(value))),
                _ => {
                    return Err(
                        LoxError::new(
                            ErrorKind::InvalidAssignmentTarget,
                            self.tokens[equals as usize].line,
                            0,
                            self.tokens[equals as usize].lexeme.clone(),
                            "Invalid assignment target".to_owned(),
                        ),
                    )
                },
            }
        }
        Ok(expr)
    }

    // comparison ( (== | !=) comparison ) *
    fn equality(&mut self) -> (result: Result<Expr, LoxError>)
        requires
            old(self).wf(),
        ensures
            final(self).went(old(self), grammar::binary(3, old(self).stream(), old(self).position())),
            expr_outcome(result) == grammar::binary(3, old(self).stream(), old(self).position()).result,
            result is Ok ==> final(self).current > old(self).current,
        decreases old(self).left(), 9nat,
    {
        let mut expr = self.comparison()?;
        let ghost head = self.current as int;
        while self.adv_if_match(&[TokenType::EqualEqual, TokenType::BangEqual])
            invariant
                self.wf(),
                self.tokens == old(self).tokens,
                old(self).current < self.current,
                head == self.current,
                grammar::binary(3, self.stream(), old(self).position()) == grammar::after(
                    (self.current - old(self).current) as nat,
                    grammar::binary_rest(3, self.stream(), self.position(), expr@),
                ),
            decreases self.left(),
        {
            let ghost left = expr@;
            let line = self.previous().line;
            let op = match self.previous().token_type {
                TokenType::BangEqual => BinaryOp::BangEqual,
                TokenType::EqualEqual => BinaryOp::EqualEqual,
                _ => vstd::pervasive::unreached(),
            };
            assert(grammar::operator_at(3, self.stream(), head) == Some(op));
            let ghost right_parsed = grammar::operand(3, self.stream(), head + 1);
            let right = self.comparison()?;
            expr = Expr::Binary(Binary::new(Box::new(expr), op, Box::new(right), line));
            assert(grammar::binary_rest(3, self.stream(), head, left) == grammar::after(
                1 + right_parsed.used,
                grammar::binary_rest(3, self.stream(), self.position(), expr@),
            ));
            proof {
                head = self.current as int;
            }
        }
        Ok(expr)
    }

    fn comparison(&mut self) -> (result: Result<Expr, LoxError>)
        requires
            old(self).wf(),
        ensures
            final(self).went(old(self), grammar::binary(2, old(self).stream(), old(self).position())),
            expr_outcome(result) == grammar::binary(2, old(self).stream(), old(self).position()).result,
            result is Ok ==> final(self).current > old(self).current,
        decreases old(self).left(), 7nat,
    {
        let mut expr = self.term()?;
        let ghost head = self.current as int;
        while self.adv_if_match(&[TokenType::Less, TokenType::LessEqual, TokenType::Greater, TokenType::GreaterEqual])
            invariant
                self.wf(),
                self.tokens == old(self).tokens,
                old(self).current < self.current,
                head == self.current,
                grammar::binary(2, self.stream(), old(self).position()) == grammar::after(
                    (self.current - old(self).current) as nat,
                    grammar::binary_rest(2, self.stream(), self.position(), expr@),
                ),
            decreases self.left(),
        {
            let ghost left = expr@;
            let line = self.previous().line;
            let op = match self.previous().token_type {
                TokenType::Less => BinaryOp::Less,
                TokenType::LessEqual => BinaryOp::LessEqual,
                TokenType::Greater => BinaryOp::Greater,
                TokenType::GreaterEqual => BinaryOp::GreaterEqual,
                _ => vstd::pervasive::unreached(),
            };
            assert(grammar::operator_at(2, self.stream(), head) == Some(op));
            let ghost right_parsed = grammar::operand(2, self.stream(), head + 1);
            let right = self.term()?;
            expr = Expr::Binary(Binary::new(Box::new(expr), op, Box::new(right), line));
            assert(grammar::binary_rest(2, self.stream(), head, left) == grammar::after(
                1 + right_parsed.used,
                grammar::binary_rest(2, self.stream(), self.position(), expr@),
            ));
            proof {
                head = self.current as int;
            }
        }
        Ok(expr)
    }

    fn term(&mut self) -> (result: Result<Expr, LoxError>)
        requires
            old(self).wf(),
        ensures
            final(self).went(old(self), grammar::binary(1, old(self).stream(), old(self).position())),
            expr_outcome(result) == grammar::binary(1, old(self).stream(), old(self).position()).result,
            result is Ok ==> final(self).current > old(self).current,
        decreases old(self).left(), 5nat,
    {
        let mut expr = self.factor()?;
        let ghost head = self.current as int;
        while self.adv_if_match(&[TokenType::Minus, TokenType::Plus])
            invariant
                self.wf(),
                self.tokens == old(self).tokens,
                old(self).current < self.current,
                head == self.current,
                grammar::binary(1, self.stream(), old(self).position()) == grammar::after(
                    (self.current - old(self).current) as nat,
                    grammar::binary_rest(1, self.stream(), self.position(), expr@),
                ),
            decreases self.left(),
        {
            let ghost left = expr@;
            let line = self.previous().line;
            let op = match self.previous().token_type {
                TokenType::Minus => BinaryOp::Minus,
                TokenType::Plus => BinaryOp::Plus,
                _ => vstd::pervasive::unreached(),
            };
            assert(grammar::operator_at(1, self.stream(), head) == Some(op));
            let ghost right_parsed = grammar::operand(1, self.stream(), head + 1);
            let right = self.factor()?;
            expr = Expr::Binary(Binary::new(Box::new(expr), op, Box::new(right), line));
            assert(grammar::binary_rest(1, self.stream(), head, left) == grammar::after(
                1 + right_parsed.used,
                grammar::binary_rest(1, self.stream(), self.position(), expr@),
            ));
            proof {
                head = self.current as int;
            }
        }
        Ok(expr)
    }

    fn factor(&mut self) -> (result: Result<Expr, LoxError>)
        requires
            old(self).wf(),
        ensures
            final(self).went(old(self), grammar::binary(0, old(self).stream(), old(self).position())),
            expr_outcome(result) == grammar::binary(0, old(self).stream(), old(self).position()).result,
            result is Ok ==> final(self).current > old(self).current,
        decreases old(self).left(), 3nat,
    {
        let mut expr = self.unary()?;
        let ghost head = self.current as int;
        while self.adv_if_match(&[TokenType::Slash, TokenType::Star])
            invariant
                self.wf(),
                self.tokens == old(self).tokens,
                old(self).current < self.current,
                head == self.current,
                grammar::binary(0, self.stream(), old(self).position()) == grammar::after(
                    (self.current - old(self).current) as nat,
                    grammar::binary_rest(0, self.stream(), self.position(), expr@),
                ),
            decreases self.left(),
        {
            let ghost left = expr@;
            let line = self.previous().line;
            let op = match self.previous().token_type {
                TokenType::Slash => BinaryOp::Slash,
                TokenType::Star => BinaryOp::Star,
                _ => vstd::pervasive::unreached(),
            };
            assert(grammar::operator_at(0, self.stream(), head) == Some(op));
            let ghost right_parsed = grammar::operand(0, self.stream(), head + 1);
            let right = self.unary()?;
            expr = Expr::Binary(Binary::new(Box::new(expr), op, Box::new(right), line));
            assert(grammar::binary_rest(0, self.stream(), head, left) == grammar::after(
                1 + right_parsed.used,
                grammar::binary_rest(0, self.stream(), self.position(), expr@),
            ));
            proof {
                head = self.current as int;
            }
        }
        Ok(expr)
    }

    fn unary(&mut self) -> (result: Result<Expr, LoxError>)
        requires
            old(self).wf(),
        ensures
            final(self).went(old(self), grammar::unary(old(self).stream(), old(self).position())),
            expr_outcome(result) == grammar::unary(old(self).stream(), old(self).position()).result,
            result is Ok ==> final(self).current > old(self).current,
        decreases old(self).left(), 1nat,
    {
        match self.adv_if_match(&[TokenType::Minus, TokenType::Bang]) {
            true => {
                let line = self.previous().line;
                let op = match self.previous().token_type {
                    TokenType::Minus => UnaryOp::Minus,
                    TokenType::Bang => UnaryOp::Bang,
                    _ => vstd::pervasive::unreached(),
                };
                let expr = self.unary()?;
                Ok(Expr::Unary(Unary::new(op, Box::new(expr), line)))
            },
            false => self.primary(),
        }
    }

    fn primary(&mut self) -> (result: Result<Expr, LoxError>)
        requires
            old(self).wf(),
        ensures
            final(self).went(old(self), grammar::primary(old(self).stream(), old(self).position())),
            expr_outcome(result) == grammar::primary(old(self).stream(), old(self).position()).result,
            result is Ok ==> final(self).current > old(self).current,
        decreases old(self).left(), 0nat,
    {
        proof {
            reveal(grammar::expression);
        }
        if self.adv_if_match(&[TokenType::False]) {
            Ok(Expr::Literal(Literal::Boolean(false)))
        } else if self.adv_if_match(&[TokenType::True]) {
            Ok(Expr::Literal(Literal::Boolean(true)))
        } else if self.adv_if_match(&[TokenType::Nil]) {
            Ok(Expr::Literal(Literal::Nil))
        } else if self.adv_if_match(&[TokenType::Number, TokenType::String]) {
            let lit = match &self.previous().literal {
                Some(tokens::Literal::Number(n)) => Literal::Number(*n),
                Some(tokens::Literal::String(s)) => Literal::String(s.clone()),
                _ => vstd::pervasive::unreached(),
            };
            Ok(Expr::Literal(lit))
        } else if self.adv_if_match(&[TokenType::LeftParen]) {
            let expr = self.expression()?;
            self.try_consume(TokenType::RightParen, "')' Expected after expression")?;
            Ok(Expr::Grouping(Grouping::new(Box::new(expr))))
        } else if self.adv_if_match(&[TokenType::Identifier]) {
            Ok(Expr::Variable(self.previous().clone()))
        } else {
            Err(
                LoxError::new(
                    ErrorKind::UnexpectedToken,
                    self.tokens[self.current as usize].line,
                    0,
                    self.tokens[self.current as usize].lexeme.clone(),
                    "Unexpected character encountered".to_owned(),
                ),
            )
        }
    }
}

} // verus!
