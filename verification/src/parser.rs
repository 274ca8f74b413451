use vstd::prelude::*;

use crate::ast::{
    lemma_exprs_m_push, lemma_stmts_m_push, lemma_strings_m_push, BinOp, Expr, Program, Stmt,
    StmtM, TypeAnnotation, UnOp,
};
use crate::parser_spec::{
    advance, at_end, check, consumed_token, current, error_at, expect, expect_ident, moved,
    p_additive, p_additive_rest, p_assignment, p_block, p_block_items, p_during, p_equality,
    p_equality_rest, p_expr, p_expr_list, p_expr_list_rest, p_expr_stmt, p_for, p_for_init,
    p_func_def, p_make, p_multiplicative, p_multiplicative_rest, p_parameter, p_params_rest,
    p_param_list, lemma_block_items_end, lemma_block_items_semicolon, lemma_block_items_stmt,
    p_primary, p_program_items, p_return, p_show, p_stmt, p_type, p_unary, p_when, parse_tokens,
    peek, PState, ParseErrorM, ParseErrorOf, kept, ok_at, err_is, type_of_kind,
};
use crate::text::{append_str, push_char, string_of, usize_to_string};
use crate::token::{Token, TokenKind, TokenKindOf, TokenM};

verus! {

/// An error that stopped parsing.
pub type ParseError = ParseErrorOf<String>;

impl View for ParseErrorOf<String> {
    type V = ParseErrorM;

    open spec fn view(&self) -> ParseErrorM {
        ParseErrorOf { message: self.message@, line: self.line, col: self.col }
    }
}

/// How a parse error reads: `[ParseError line L, col C] MESSAGE`.
pub open spec fn parse_error_text(e: ParseErrorM) -> Seq<char> {
    "[ParseError line "@ + crate::text::decimal_nat(e.line as nat) + ", col "@
        + crate::text::decimal_nat(e.col as nat) + "] "@ + e.message
}

impl ParseErrorOf<String> {
    fn new(message: String, line: usize, col: usize) -> (e: Self)
        ensures
            e@ == (ParseErrorOf { message: message@, line, col }),
    {
        ParseErrorOf { message, line, col }
    }

    /// The error as it is reported (see [`parse_error_text`]).
    pub fn display(&self) -> (s: String)
        ensures
            s@ == parse_error_text(self@),
    {
        let mut s = string_of("[ParseError line ");
        let l = usize_to_string(self.line);
        append_str(&mut s, l.as_str());
        append_str(&mut s, ", col ");
        let c = usize_to_string(self.col);
        append_str(&mut s, c.as_str());
        append_str(&mut s, "] ");
        append_str(&mut s, self.message.as_str());
        s
    }
}

/// The token sequence seen as a sequence of mathematical tokens.
pub open spec fn toks_m(v: Seq<Token>) -> Seq<TokenM> {
    v.map_values(|t: Token| t@)
}

/// Turns a token sequence into a program by recursive descent.
pub struct Parser {
    tokens: Vec<Token>,
    cursor: usize,
}

impl Parser {
    /// The tokens (consumed ones replaced by a placeholder) and the position.
    pub closed spec fn state(&self) -> PState {
        PState { toks: toks_m(self.tokens@), cur: self.cursor as int }
    }

    pub closed spec fn wf(&self) -> bool {
        self.cursor <= self.tokens@.len()
    }

    /// A parser at the first of `tokens`.
    pub fn new(tokens: Vec<Token>) -> (p: Self)
        ensures
            p.wf(),
            p.state() == (PState { toks: toks_m(tokens@), cur: 0 }),
    {
        Parser { tokens, cursor: 0 }
    }

    fn peek_kind(&self) -> (k: TokenKind)
        requires
            self.wf(),
        ensures
            k@ == peek(self.state()),
    {
        if self.cursor < self.tokens.len() {
            self.tokens[self.cursor].kind.copy()
        } else {
            TokenKindOf::Eof
        }
    }

    fn check(&self, expected: &TokenKind) -> (b: bool)
        requires
            self.wf(),
        ensures
            b == check(self.state(), expected@),
    {
        let k = self.peek_kind();
        k.same_variant(expected)
    }

    fn at_end(&self) -> (b: bool)
        requires
            self.wf(),
        ensures
            b == at_end(self.state()),
    {
        match self.peek_kind() {
            TokenKindOf::Eof => true,
            _ => false,
        }
    }

    fn advance(&mut self) -> (t: Option<Token>)
        requires
            old(self).wf(),
        ensures
            final(self).wf(),
            final(self).state() == advance(old(self).state()),
            final(self).tokens@.len() == old(self).tokens@.len(),
            final(self).cursor == (if old(self).cursor < old(self).tokens@.len() {
                old(self).cursor + 1
            } else {
                old(self).cursor as int
            }),
            old(self).state().cur < old(self).state().toks.len() ==> (t matches Some(tok) && tok@
                == old(self).state().toks[old(self).state().cur]),
    {
        if self.cursor < self.tokens.len() {
            let mut consumed = Token::new(TokenKindOf::Eof, string_of("\0"), 0, 0);
            let ghost before = self.tokens@;
            self.tokens.set_and_swap(self.cursor, &mut consumed);
            self.cursor += 1;
            assert(toks_m(self.tokens@) =~= toks_m(before).update(
                (self.cursor - 1) as int,
                consumed_token(),
            ));
            Some(consumed)
        } else {
            None
        }
    }

    fn current_token(&self) -> (t: &Token)
        requires
            self.wf(),
            self.state().toks.len() > 0,
        ensures
            t@ == current(self.state()),
    {
        if self.cursor < self.tokens.len() {
            &self.tokens[self.cursor]
        } else {
            &self.tokens[self.tokens.len() - 1]
        }
    }

    fn error_here(&self, message: String) -> (e: ParseError)
        requires
            self.wf(),
            self.state().toks.len() > 0,
        ensures
            e@ == error_at(self.state(), message@),
    {
        let tok = self.current_token();
        ParseError::new(message, tok.line, tok.col)
    }

    /// Consumes the next token when it is of the variant of `expected`, and
    /// gives it back as it was; otherwise reports what was found instead.
    fn expect(&mut self, expected: TokenKind) -> (r: Result<Token, ParseError>)
        requires
            old(self).wf(),
            old(self).state().toks.len() > 0,
            expected is Eof ==> old(self).state().cur < old(self).state().toks.len(),
        ensures
            final(self).wf(),
            match r {
                Ok(tok) => expect(old(self).state(), expected@) == Ok::<PState, ParseErrorM>(
                    final(self).state(),
                ) && moved(old(self).state(), final(self).state())
                    && tok@ == old(self).state().toks[old(self).state().cur],
                Err(e) => expect(old(self).state(), expected@) == Err::<PState, ParseErrorM>(e@)
                    && final(self).state() == old(self).state(),
            },
    {
        if self.check(&expected) {
            match self.advance() {
                Some(tok) => Ok(tok),
                None => {
                    proof {
                        assert(false);
                    }
                    Err(self.error_here(String::new()))
                },
            }
        } else {
            let tok = self.current_token();
            let mut m = string_of("expected '");
            let shown = expected.display();
            append_str(&mut m, shown.as_str());
            append_str(&mut m, "' but found '");
            append_str(&mut m, tok.lexeme.as_str());
            append_str(&mut m, "'");
            Err(self.error_here(m))
        }
    }

    fn expect_ident(&mut self) -> (r: Result<String, ParseError>)
        requires
            old(self).wf(),
            old(self).state().toks.len() > 0,
        ensures
            final(self).wf(),
            match r {
                Ok(name) => expect_ident(old(self).state()) == Ok::<
                    (Seq<char>, PState),
                    ParseErrorM,
                >((name@, final(self).state())) && moved(old(self).state(), final(self).state()),
                Err(e) => expect_ident(old(self).state()) == Err::<(Seq<char>, PState), ParseErrorM>(
                    e@,
                ) && final(self).state() == old(self).state(),
            },
    {
        match self.peek_kind() {
            TokenKindOf::Identifier(name) => {
                self.advance();
                Ok(name)
            },
            _ => {
                let tok = self.current_token();
                let mut m = string_of("expected identifier but found '");
                append_str(&mut m, tok.lexeme.as_str());
                append_str(&mut m, "'");
                Err(self.error_here(m))
            },
        }
    }
    fn parse_type_annotation(&mut self) -> (r: Result<TypeAnnotation, ParseError>)
        requires
            old(self).wf(),
            old(self).state().toks.len() > 0,
        ensures
            final(self).wf(),
            match r {
                Ok(t) => ok_at(p_type(old(self).state()), t, final(self).state()) && moved(
                    old(self).state(),
                    final(self).state(),
                ),
                Err(e) => err_is(p_type(old(self).state()), e@)
                    && final(self).state() == old(self).state(),
            },
    {
        let annotation = match self.peek_kind() {
            TokenKindOf::TypeInt => TypeAnnotation::Int,
            TokenKindOf::TypeFloat => TypeAnnotation::Float,
            TokenKindOf::TypeBool => TypeAnnotation::Bool,
            TokenKindOf::TypeString => TypeAnnotation::Str,
            TokenKindOf::TypeVoid => TypeAnnotation::Void,
            _ => {
                let tok = self.current_token();
                let mut m = string_of("expected a type but found '");
                append_str(&mut m, tok.lexeme.as_str());
                append_str(&mut m, "'");
                return Err(self.error_here(m));
            },
        };
        self.advance();
        Ok(annotation)
    }

    fn parse_parameter(&mut self) -> (r: Result<String, ParseError>)
        requires
            old(self).wf(),
            old(self).state().toks.len() > 0,
        ensures
            final(self).wf(),
            match r {
                Ok(name) => ok_at(p_parameter(old(self).state()), name@, final(self).state())
                    && moved(old(self).state(), final(self).state()),
                Err(e) => err_is(p_parameter(old(self).state()), e@),
            },
    {
        let name = self.expect_ident()?;
        if self.check(&TokenKindOf::Colon) {
            self.advance();
            self.parse_type_annotation()?;
        }
        Ok(name)
    }
    fn parse_expr(&mut self) -> (r: Result<Expr, ParseError>)
        requires
            old(self).wf(),
            old(self).state().toks.len() > 0,
        ensures
            final(self).wf(),
            match r {
                Ok(e) => ok_at(p_expr(old(self).state()), e@, final(self).state()) && moved(
                    old(self).state(),
                    final(self).state(),
                ),
                Err(err) => err_is(p_expr(old(self).state()), err@),
            },
        decreases old(self).tokens@.len() - old(self).cursor, 10int,
    {
        self.parse_assignment()
    }

    fn parse_assignment(&mut self) -> (r: Result<Expr, ParseError>)
        requires
            old(self).wf(),
            old(self).state().toks.len() > 0,
        ensures
            final(self).wf(),
            match r {
                Ok(e) => ok_at(p_assignment(old(self).state()), e@, final(self).state()) && moved(
                    old(self).state(),
                    final(self).state(),
                ),
                Err(err) => err_is(p_assignment(old(self).state()), err@),
            },
        decreases old(self).tokens@.len() - old(self).cursor, 9int,
    {
        let lhs = self.parse_equality_and_comparison()?;
        if self.check(&TokenKindOf::Equal) {
            self.advance();
            let rhs = self.parse_assignment()?;
            match lhs {
                Expr::Identifier(name) => Ok(Expr::Assignment { name, value: Box::new(rhs) }),
                _ => Err(self.error_here(string_of("invalid assignment target"))),
            }
        } else {
            Ok(lhs)
        }
    }

    fn parse_equality_and_comparison(&mut self) -> (r: Result<Expr, ParseError>)
        requires
            old(self).wf(),
            old(self).state().toks.len() > 0,
        ensures
            final(self).wf(),
            match r {
                Ok(e) => ok_at(p_equality(old(self).state()), e@, final(self).state()) && moved(
                    old(self).state(),
                    final(self).state(),
                ),
                Err(err) => err_is(p_equality(old(self).state()), err@),
            },
        decreases old(self).tokens@.len() - old(self).cursor, 8int,
    {
        let ghost s0 = self.state();
        let mut left = self.parse_additive()?;
        loop
            invariant
                self.wf(),
                s0 == old(self).state(),
                s0.toks.len() > 0,
                moved(s0, self.state()),
                self.tokens@.len() == old(self).tokens@.len(),
                p_equality(s0) == p_equality_rest(left@, self.state()),
            ensures
                self.wf(),
                self.tokens@.len() == old(self).tokens@.len(),
                moved(s0, self.state()),
                ok_at(p_equality(s0), left@, self.state()),
            decreases self.tokens@.len() - self.cursor,
        {
            let op = match self.peek_kind() {
                TokenKindOf::DoubleEqual => BinOp::Eq,
                TokenKindOf::NotEqual => BinOp::NotEq,
                TokenKindOf::Less => BinOp::Lt,
                TokenKindOf::LessEqual => BinOp::LtEq,
                TokenKindOf::Greater => BinOp::Gt,
                TokenKindOf::GreaterEqual => BinOp::GtEq,
                _ => break,
            };
            self.advance();
            let right = self.parse_additive()?;
            left = Expr::BinaryOp { left: Box::new(left), op, right: Box::new(right) };
        }
        Ok(left)
    }

    fn parse_additive(&mut self) -> (r: Result<Expr, ParseError>)
        requires
            old(self).wf(),
            old(self).state().toks.len() > 0,
        ensures
            final(self).wf(),
            match r {
                Ok(e) => ok_at(p_additive(old(self).state()), e@, final(self).state()) && moved(
                    old(self).state(),
                    final(self).state(),
                ),
                Err(err) => err_is(p_additive(old(self).state()), err@),
            },
        decreases old(self).tokens@.len() - old(self).cursor, 6int,
    {
        let ghost s0 = self.state();
        let mut left = self.parse_multiplicative()?;
        loop
            invariant
                self.wf(),
                s0 == old(self).state(),
                s0.toks.len() > 0,
                moved(s0, self.state()),
                self.tokens@.len() == old(self).tokens@.len(),
                p_additive(s0) == p_additive_rest(left@, self.state()),
            ensures
                self.wf(),
                self.tokens@.len() == old(self).tokens@.len(),
                moved(s0, self.state()),
                ok_at(p_additive(s0), left@, self.state()),
            decreases self.tokens@.len() - self.cursor,
        {
            let op = match self.peek_kind() {
                TokenKindOf::Plus => BinOp::Add,
                TokenKindOf::Minus => BinOp::Sub,
                _ => break,
            };
            self.advance();
            let right = self.parse_multiplicative()?;
            left = Expr::BinaryOp { left: Box::new(left), op, right: Box::new(right) };
        }
        Ok(left)
    }

    fn parse_multiplicative(&mut self) -> (r: Result<Expr, ParseError>)
        requires
            old(self).wf(),
            old(self).state().toks.len() > 0,
        ensures
            final(self).wf(),
            match r {
                Ok(e) => ok_at(p_multiplicative(old(self).state()), e@, final(self).state()) && moved(
                    old(self).state(),
                    final(self).state(),
                ),
                Err(err) => err_is(p_multiplicative(old(self).state()), err@),
            },
        decreases old(self).tokens@.len() - old(self).cursor, 4int,
    {
        let ghost s0 = self.state();
        let mut left = self.parse_unary()?;
        loop
            invariant
                self.wf(),
                s0 == old(self).state(),
                s0.toks.len() > 0,
                moved(s0, self.state()),
                self.tokens@.len() == old(self).tokens@.len(),
                p_multiplicative(s0) == p_multiplicative_rest(left@, self.state()),
            ensures
                self.wf(),
                self.tokens@.len() == old(self).tokens@.len(),
                moved(s0, self.state()),
                ok_at(p_multiplicative(s0), left@, self.state()),
            decreases self.tokens@.len() - self.cursor,
        {
            let op = match self.peek_kind() {
                TokenKindOf::Star => BinOp::Mul,
                TokenKindOf::Slash => BinOp::Div,
                _ => break,
            };
            self.advance();
            let right = self.parse_unary()?;
            left = Expr::BinaryOp { left: Box::new(left), op, right: Box::new(right) };
        }
        Ok(left)
    }

    fn parse_unary(&mut self) -> (r: Result<Expr, ParseError>)
        requires
            old(self).wf(),
            old(self).state().toks.len() > 0,
        ensures
            final(self).wf(),
            match r {
                Ok(e) => ok_at(p_unary(old(self).state()), e@, final(self).state()) && moved(
                    old(self).state(),
                    final(self).state(),
                ),
                Err(err) => err_is(p_unary(old(self).state()), err@),
            },
        decreases old(self).tokens@.len() - old(self).cursor, 2int,
    {
        let op = match self.peek_kind() {
            TokenKindOf::Minus => Some(UnOp::Neg),
            TokenKindOf::Not => Some(UnOp::Not),
            _ => None,
        };
        if let Some(op) = op {
            self.advance();
            let operand = self.parse_unary()?;
            Ok(Expr::UnaryOp { op, operand: Box::new(operand) })
        } else {
            self.parse_primary()
        }
    }

    #[verifier::rlimit(50)]
    fn parse_primary(&mut self) -> (r: Result<Expr, ParseError>)
        requires
            old(self).wf(),
            old(self).state().toks.len() > 0,
        ensures
            final(self).wf(),
            match r {
                Ok(e) => ok_at(p_primary(old(self).state()), e@, final(self).state()) && moved(
                    old(self).state(),
                    final(self).state(),
                ),
                Err(err) => err_is(p_primary(old(self).state()), err@),
            },
            r is Err && !(peek(old(self).state()) is Identifier) && !(peek(old(self).state()) is LeftParen)
                ==> final(self).state() == old(self).state(),
        decreases old(self).tokens@.len() - old(self).cursor, 1int,
    {
        match self.peek_kind() {
            TokenKindOf::Integer(n) => {
                self.advance();
                Ok(Expr::Integer(n))
            },
            TokenKindOf::Float(t) => {
                self.advance();
                Ok(Expr::Float(t))
            },
            TokenKindOf::Boolean(b) => {
                self.advance();
                Ok(Expr::Boolean(b))
            },
            TokenKindOf::Nil => {
                self.advance();
                Ok(Expr::Nil)
            },
            TokenKindOf::StringLit(t) => {
                self.advance();
                Ok(Expr::StringLit(t))
            },
            TokenKindOf::Identifier(name) => {
                self.advance();
                if self.check(&TokenKindOf::LeftParen) {
                    self.advance();
                    let args = self.parse_expr_list(TokenKindOf::RightParen)?;
                    self.expect(TokenKindOf::RightParen)?;
                    Ok(Expr::Call { callee: name, args })
                } else {
                    Ok(Expr::Identifier(name))
                }
            },
            TokenKindOf::LeftParen => {
                self.advance();
                let inner = self.parse_expr()?;
                self.expect(TokenKindOf::RightParen)?;
                Ok(Expr::Grouped(Box::new(inner)))
            },
            TokenKindOf::Unknown(ch) => {
                let mut m = string_of("unknown character '");
                push_char(&mut m, ch);
                append_str(&mut m, "'");
                assert(m@ =~= crate::parser_spec::unknown_char_message(ch));
                Err(self.error_here(m))
            },
            _ => {
                let tok = self.current_token();
                let mut m = string_of("unexpected '");
                append_str(&mut m, tok.lexeme.as_str());
                append_str(&mut m, "' — expected a literal, identifier, or '('");
                Err(self.error_here(m))
            },
        }
    }

    fn parse_expr_list(&mut self, terminator: TokenKind) -> (r: Result<Vec<Expr>, ParseError>)
        requires
            old(self).wf(),
            old(self).state().toks.len() > 0,
        ensures
            final(self).wf(),
            match r {
                Ok(es) => ok_at(
                    p_expr_list(terminator@, old(self).state()),
                    crate::ast::exprs_m(es@),
                    final(self).state(),
                ) && kept(old(self).state(), final(self).state()),
                Err(err) => err_is(p_expr_list(terminator@, old(self).state()), err@),
            },
        decreases old(self).tokens@.len() - old(self).cursor, 12int,
    {
        let ghost s0 = self.state();
        let mut exprs: Vec<Expr> = Vec::new();
        if !self.check(&terminator) {
            let first = self.parse_expr()?;
            proof {
                lemma_exprs_m_push(exprs@, first);
            }
            exprs.push(first);
            assert(crate::ast::exprs_m(exprs@) == seq![first@]);
            while self.check(&TokenKindOf::Comma)
                invariant
                    self.wf(),
                    s0 == old(self).state(),
                    s0.toks.len() > 0,
                    moved(s0, self.state()),
                    self.tokens@.len() == old(self).tokens@.len(),
                    p_expr_list(terminator@, s0) == p_expr_list_rest(
                        crate::ast::exprs_m(exprs@),
                        self.state(),
                    ),
                decreases self.tokens@.len() - self.cursor,
            {
                self.advance();
                let e = self.parse_expr()?;
                proof {
                    lemma_exprs_m_push(exprs@, e);
                }
                exprs.push(e);
            }
        }
        Ok(exprs)
    }
    fn parse_stmt(&mut self) -> (r: Result<Stmt, ParseError>)
        requires
            old(self).wf(),
            old(self).state().toks.len() > 0,
        ensures
            final(self).wf(),
            match r {
                Ok(st) => ok_at(p_stmt(old(self).state()), st@, final(self).state()) && moved(
                    old(self).state(),
                    final(self).state(),
                ),
                Err(err) => err_is(p_stmt(old(self).state()), err@),
            },
        decreases old(self).tokens@.len() - old(self).cursor, 20int,
    {
        proof {
            reveal(p_stmt);
        }
        let stmt = match self.peek_kind() {
            TokenKindOf::Make => self.parse_make()?,
            TokenKindOf::Show => self.parse_show()?,
            TokenKindOf::Return => self.parse_return()?,
            TokenKindOf::When => self.parse_when()?,
            TokenKindOf::During => self.parse_during()?,
            TokenKindOf::For => self.parse_for()?,
            TokenKindOf::Func => self.parse_func_def()?,
            _ => self.parse_expr_stmt()?,
        };
        if self.check(&TokenKindOf::Semicolon) {
            self.advance();
        }
        Ok(stmt)
    }

    fn parse_make(&mut self) -> (r: Result<Stmt, ParseError>)
        requires
            old(self).wf(),
            old(self).state().toks.len() > 0,
        ensures
            final(self).wf(),
            match r {
                Ok(st) => ok_at(p_make(old(self).state()), st@, final(self).state()) && moved(
                    old(self).state(),
                    final(self).state(),
                ),
                Err(err) => err_is(p_make(old(self).state()), err@),
            },
        decreases old(self).tokens@.len() - old(self).cursor, 19int,
    {
        self.expect(TokenKindOf::Make)?;
        let name = self.expect_ident()?;
        self.expect(TokenKindOf::Equal)?;
        let init = self.parse_expr()?;
        Ok(Stmt::Make { name, init })
    }

    fn parse_show(&mut self) -> (r: Result<Stmt, ParseError>)
        requires
            old(self).wf(),
            old(self).state().toks.len() > 0,
        ensures
            final(self).wf(),
            match r {
                Ok(st) => ok_at(p_show(old(self).state()), st@, final(self).state()) && moved(
                    old(self).state(),
                    final(self).state(),
                ),
                Err(err) => err_is(p_show(old(self).state()), err@),
            },
        decreases old(self).tokens@.len() - old(self).cursor, 19int,
    {
        self.expect(TokenKindOf::Show)?;
        self.expect(TokenKindOf::LeftParen)?;
        let args = self.parse_expr_list(TokenKindOf::RightParen)?;
        self.expect(TokenKindOf::RightParen)?;
        Ok(Stmt::Show { args })
    }

    fn parse_return(&mut self) -> (r: Result<Stmt, ParseError>)
        requires
            old(self).wf(),
            old(self).state().toks.len() > 0,
        ensures
            final(self).wf(),
            match r {
                Ok(st) => ok_at(p_return(old(self).state()), st@, final(self).state()) && moved(
                    old(self).state(),
                    final(self).state(),
                ),
                Err(err) => err_is(p_return(old(self).state()), err@),
            },
        decreases old(self).tokens@.len() - old(self).cursor, 19int,
    {
        self.expect(TokenKindOf::Return)?;
        let value = if self.check(&TokenKindOf::Semicolon) || self.check(&TokenKindOf::RightBrace)
            || self.at_end() {
            None
        } else {
            Some(self.parse_expr()?)
        };
        Ok(Stmt::Return { value })
    }

    fn parse_when(&mut self) -> (r: Result<Stmt, ParseError>)
        requires
            old(self).wf(),
            old(self).state().toks.len() > 0,
        ensures
            final(self).wf(),
            match r {
                Ok(st) => ok_at(p_when(old(self).state()), st@, final(self).state()) && moved(
                    old(self).state(),
                    final(self).state(),
                ),
                Err(err) => err_is(p_when(old(self).state()), err@),
            },
        decreases old(self).tokens@.len() - old(self).cursor, 19int,
    {
        self.expect(TokenKindOf::When)?;
        self.expect(TokenKindOf::LeftParen)?;
        let condition = self.parse_expr()?;
        self.expect(TokenKindOf::RightParen)?;
        let then_body = self.parse_block()?;
        let else_body = if self.check(&TokenKindOf::Otherwise) {
            self.advance();
            Some(self.parse_block()?)
        } else {
            None
        };
        Ok(Stmt::When { condition, then_body, else_body })
    }

    fn parse_during(&mut self) -> (r: Result<Stmt, ParseError>)
        requires
            old(self).wf(),
            old(self).state().toks.len() > 0,
        ensures
            final(self).wf(),
            match r {
                Ok(st) => ok_at(p_during(old(self).state()), st@, final(self).state()) && moved(
                    old(self).state(),
                    final(self).state(),
                ),
                Err(err) => err_is(p_during(old(self).state()), err@),
            },
        decreases old(self).tokens@.len() - old(self).cursor, 19int,
    {
        self.expect(TokenKindOf::During)?;
        self.expect(TokenKindOf::LeftParen)?;
        let condition = self.parse_expr()?;
        self.expect(TokenKindOf::RightParen)?;
        let body = self.parse_block()?;
        Ok(Stmt::During { condition, body })
    }

    fn parse_for_init(&mut self) -> (r: Result<Option<Box<Stmt>>, ParseError>)
        requires
            old(self).wf(),
            old(self).state().toks.len() > 0,
        ensures
            final(self).wf(),
            match r {
                Ok(init) => ok_at(
                    p_for_init(old(self).state()),
                    match init {
                        Some(b) => Some(Box::new(crate::ast::stmt_m(*b))),
                        None => None,
                    },
                    final(self).state(),
                ) && moved(old(self).state(), final(self).state()),
                Err(err) => err_is(p_for_init(old(self).state()), err@),
            },
        decreases old(self).tokens@.len() - old(self).cursor, 19int,
    {
        if self.check(&TokenKindOf::Make) {
            let decl = self.parse_make()?;
            self.expect(TokenKindOf::Semicolon)?;
            Ok(Some(Box::new(decl)))
        } else if self.check(&TokenKindOf::Semicolon) {
            self.advance();
            Ok(None)
        } else {
            let expr = self.parse_expr()?;
            self.expect(TokenKindOf::Semicolon)?;
            Ok(Some(Box::new(Stmt::ExprStmt(expr))))
        }
    }

    #[verifier::rlimit(30)]
    fn parse_for(&mut self) -> (r: Result<Stmt, ParseError>)
        requires
            old(self).wf(),
            old(self).state().toks.len() > 0,
        ensures
            final(self).wf(),
            match r {
                Ok(st) => ok_at(p_for(old(self).state()), st@, final(self).state()) && moved(
                    old(self).state(),
                    final(self).state(),
                ),
                Err(err) => err_is(p_for(old(self).state()), err@),
            },
        decreases old(self).tokens@.len() - old(self).cursor, 19int,
    {
        self.expect(TokenKindOf::For)?;
        self.expect(TokenKindOf::LeftParen)?;
        let init = self.parse_for_init()?;
        let condition = if self.check(&TokenKindOf::Semicolon) {
            None
        } else {
            Some(self.parse_expr()?)
        };
        self.expect(TokenKindOf::Semicolon)?;
        let update = if self.check(&TokenKindOf::RightParen) {
            None
        } else {
            Some(Box::new(self.parse_expr()?))
        };
        self.expect(TokenKindOf::RightParen)?;
        let body = self.parse_block()?;
        Ok(Stmt::For { init, condition, update, body })
    }

    fn parse_func_def(&mut self) -> (r: Result<Stmt, ParseError>)
        requires
            old(self).wf(),
            old(self).state().toks.len() > 0,
        ensures
            final(self).wf(),
            match r {
                Ok(st) => ok_at(p_func_def(old(self).state()), st@, final(self).state()) && moved(
                    old(self).state(),
                    final(self).state(),
                ),
                Err(err) => err_is(p_func_def(old(self).state()), err@),
            },
        decreases old(self).tokens@.len() - old(self).cursor, 19int,
    {
        self.expect(TokenKindOf::Func)?;
        let return_type = if self.peek_is_type() {
            Some(self.parse_type_annotation()?)
        } else {
            None
        };
        let name = self.expect_ident()?;
        self.expect(TokenKindOf::LeftParen)?;
        let params = self.parse_param_list()?;
        self.expect(TokenKindOf::RightParen)?;
        let body = self.parse_block()?;
        Ok(Stmt::FuncDef { name, return_type, params, body })
    }

    fn parse_param_list(&mut self) -> (r: Result<Vec<String>, ParseError>)
        requires
            old(self).wf(),
            old(self).state().toks.len() > 0,
        ensures
            final(self).wf(),
            match r {
                Ok(ps) => ok_at(
                    p_param_list(old(self).state()),
                    crate::ast::strings_m(ps@),
                    final(self).state(),
                ) && kept(old(self).state(), final(self).state()),
                Err(err) => err_is(p_param_list(old(self).state()), err@),
            },
    {
        let ghost s0 = self.state();
        let mut params: Vec<String> = Vec::new();
        if !self.check(&TokenKindOf::RightParen) {
            let first = self.parse_parameter()?;
            proof {
                lemma_strings_m_push(params@, first);
            }
            params.push(first);
            assert(crate::ast::strings_m(params@) =~= seq![first@]);
            while self.check(&TokenKindOf::Comma)
                invariant
                    self.wf(),
                    s0 == old(self).state(),
                    s0.toks.len() > 0,
                    moved(s0, self.state()),
                    self.tokens@.len() == old(self).tokens@.len(),
                    p_param_list(s0) == p_params_rest(
                        crate::ast::strings_m(params@),
                        self.state(),
                    ),
                decreases self.tokens@.len() - self.cursor,
            {
                self.advance();
                let p = self.parse_parameter()?;
                proof {
                    lemma_strings_m_push(params@, p);
                }
                params.push(p);
            }
        } else {
            assert(crate::ast::strings_m(params@) =~= Seq::<Seq<char>>::empty());
        }
        Ok(params)
    }

    fn peek_is_type(&self) -> (b: bool)
        requires
            self.wf(),
        ensures
            b == type_of_kind(peek(self.state())) is Some,
    {
        match self.peek_kind() {
            TokenKindOf::TypeInt | TokenKindOf::TypeFloat | TokenKindOf::TypeBool
            | TokenKindOf::TypeString | TokenKindOf::TypeVoid => true,
            _ => false,
        }
    }

    fn parse_expr_stmt(&mut self) -> (r: Result<Stmt, ParseError>)
        requires
            old(self).wf(),
            old(self).state().toks.len() > 0,
        ensures
            final(self).wf(),
            match r {
                Ok(st) => ok_at(p_expr_stmt(old(self).state()), st@, final(self).state()) && moved(
                    old(self).state(),
                    final(self).state(),
                ),
                Err(err) => err_is(p_expr_stmt(old(self).state()), err@),
            },
        decreases old(self).tokens@.len() - old(self).cursor, 19int,
    {
        Ok(Stmt::ExprStmt(self.parse_expr()?))
    }

    fn parse_block(&mut self) -> (r: Result<Vec<Stmt>, ParseError>)
        requires
            old(self).wf(),
            old(self).state().toks.len() > 0,
        ensures
            final(self).wf(),
            match r {
                Ok(stmts) => ok_at(p_block(old(self).state()), crate::ast::stmts_m(stmts@), final(self).state()) && moved(
                    old(self).state(),
                    final(self).state(),
                ),
                Err(err) => err_is(p_block(old(self).state()), err@),
            },
        decreases old(self).tokens@.len() - old(self).cursor, 22int,
    {
        self.expect(TokenKindOf::LeftBrace)?;
        let ghost s1 = self.state();
        let mut stmts: Vec<Stmt> = Vec::new();
        while !self.check(&TokenKindOf::RightBrace) && !self.at_end()
            invariant
                self.wf(),
                moved(old(self).state(), self.state()),
                self.tokens@.len() == old(self).tokens@.len(),
                old(self).state().toks.len() > 0,
                expect(old(self).state(), TokenKindOf::LeftBrace) == Ok::<PState, ParseErrorM>(s1),
                moved(old(self).state(), s1),
                p_block_items(Seq::<StmtM>::empty(), s1) == p_block_items(
                    crate::ast::stmts_m(stmts@),
                    self.state(),
                ),
            decreases self.tokens@.len() - self.cursor,
        {
            if self.check(&TokenKindOf::Semicolon) {
                proof {
                    lemma_block_items_semicolon(crate::ast::stmts_m(stmts@), self.state());
                }
                self.advance();
                continue;
            }
            proof {
                lemma_block_items_stmt(crate::ast::stmts_m(stmts@), self.state());
            }
            let st = self.parse_stmt()?;
            proof {
                lemma_stmts_m_push(stmts@, st);
            }
            stmts.push(st);
        }
        proof {
            lemma_block_items_end(crate::ast::stmts_m(stmts@), self.state());
        }
        self.expect(TokenKindOf::RightBrace)?;
        Ok(stmts)
    }

    /// Parses the whole token sequence into a program, or gives the first
    /// error (see [`parse_tokens`]).
    pub fn parse_program(&mut self) -> (r: Result<Program, ParseError>)
        requires
            old(self).wf(),
        ensures
            final(self).wf(),
            match r {
                Ok(prog) => p_program_items(Seq::empty(), old(self).state()) == Ok::<
                    Seq<StmtM>,
                    ParseErrorM,
                >(prog@),
                Err(err) => p_program_items(Seq::empty(), old(self).state()) == Err::<
                    Seq<StmtM>,
                    ParseErrorM,
                >(err@),
            },
    {
        let mut program = Program::new();
        while !self.at_end()
            invariant
                self.wf(),
                self.tokens@.len() == old(self).tokens@.len(),
                p_program_items(Seq::<StmtM>::empty(), old(self).state()) == p_program_items(
                    crate::ast::stmts_m(program.stmts@),
                    self.state(),
                ),
            decreases self.tokens@.len() - self.cursor,
        {
            if self.check(&TokenKindOf::Semicolon) {
                self.advance();
                continue;
            }
            let st = self.parse_stmt()?;
            proof {
                lemma_stmts_m_push(program.stmts@, st);
            }
            program.stmts.push(st);
        }
        Ok(program)
    }
}

} // verus!
