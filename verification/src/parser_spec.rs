//! What the parser computes, stated over token sequences and the
//! mathematical values of syntax trees.
use vstd::prelude::*;

use crate::ast::{BinOp, ExprM, StmtM, TypeAnnotation, UnOp};
use crate::token::{kind_tag, kind_text, TokenKindM, TokenKindOf, TokenM, TokenOf};

verus! {

/// A parse error: a message, and the line and column of the token where
/// parsing stopped.
#[derive(Debug, Clone, PartialEq)]
pub struct ParseErrorOf<S> {
    pub message: S,
    pub line: usize,
    pub col: usize,
}

/// The mathematical value of a parse error.
pub type ParseErrorM = ParseErrorOf<Seq<char>>;

/// Where the parser stands: the token sequence (a token is replaced by an
/// `Eof` placeholder once it has been consumed) and the position of the next
/// token.
pub struct PState {
    pub toks: Seq<TokenM>,
    pub cur: int,
}

/// The outcome of a parsing step: a value and the state after it, or an error.
pub type PRes<T> = Result<(T, PState), ParseErrorM>;

/// The placeholder left where a token was consumed.
pub open spec fn consumed_token() -> TokenM {
    TokenOf { kind: TokenKindOf::Eof, lexeme: "\0"@, line: 0, col: 0 }
}

/// The kind of the next token; `Eof` past the end.
pub open spec fn peek(s: PState) -> TokenKindM {
    if 0 <= s.cur < s.toks.len() {
        s.toks[s.cur].kind
    } else {
        TokenKindOf::Eof
    }
}

/// Whether the next token is of the same variant as `k`.
pub open spec fn check(s: PState, k: TokenKindM) -> bool {
    kind_tag(peek(s)) == kind_tag(k)
}

pub open spec fn at_end(s: PState) -> bool {
    peek(s) is Eof
}

/// Consumes the next token, if there is one.
pub open spec fn advance(s: PState) -> PState {
    if 0 <= s.cur < s.toks.len() {
        PState { toks: s.toks.update(s.cur, consumed_token()), cur: s.cur + 1 }
    } else {
        s
    }
}

/// The token that errors are reported at: the next one, or the last one past the end.
pub open spec fn current(s: PState) -> TokenM {
    if 0 <= s.cur < s.toks.len() {
        s.toks[s.cur]
    } else {
        s.toks.last()
    }
}

pub open spec fn error_at(s: PState, message: Seq<char>) -> ParseErrorM {
    ParseErrorOf { message, line: current(s).line, col: current(s).col }
}

/// A parsing step that succeeded consumed at least one token.
pub open spec fn moved(s0: PState, s1: PState) -> bool {
    s1.toks.len() == s0.toks.len() && s0.cur < s1.cur <= s1.toks.len()
}

/// A step that kept the token sequence's length and did not move back.
pub open spec fn kept(s0: PState, s1: PState) -> bool {
    s1.toks.len() == s0.toks.len() && s0.cur <= s1.cur <= s1.toks.len()
}

/// `r` is success with value `v`, stopping at state `s`.
pub open spec fn ok_at<T>(r: PRes<T>, v: T, s: PState) -> bool {
    r == Ok::<(T, PState), ParseErrorM>((v, s))
}

/// `r` is the error `e`.
pub open spec fn err_is<T>(r: PRes<T>, e: ParseErrorM) -> bool {
    r == Err::<(T, PState), ParseErrorM>(e)
}

/// The outcome of a step that would not have consumed anything. No step
/// that succeeds does so (every parsing function consumes a token when it
/// succeeds, see [`lemma_parse_errors_have_messages`]); the definitions test
/// for it only so that they terminate.
pub open spec fn stalled<T>(s: PState) -> PRes<T> {
    Err(error_at(s, Seq::empty()))
}

pub open spec fn expect_message(expected: TokenKindM, found: TokenM) -> Seq<char> {
    "expected '"@ + kind_text(expected) + "' but found '"@ + found.lexeme + "'"@
}

/// Consumes a token of the variant of `k`, or fails.
pub open spec fn expect(s: PState, k: TokenKindM) -> Result<PState, ParseErrorM> {
    if check(s, k) {
        Ok(advance(s))
    } else {
        Err(error_at(s, expect_message(k, current(s))))
    }
}

pub open spec fn expect_ident_message(found: TokenM) -> Seq<char> {
    "expected identifier but found '"@ + found.lexeme + "'"@
}

/// Consumes an identifier and gives its name, or fails.
pub open spec fn expect_ident(s: PState) -> PRes<Seq<char>> {
    match peek(s) {
        TokenKindOf::Identifier(name) => Ok((name, advance(s))),
        _ => Err(error_at(s, expect_ident_message(current(s)))),
    }
}

pub open spec fn type_of_kind(k: TokenKindM) -> Option<TypeAnnotation> {
    match k {
        TokenKindOf::TypeInt => Some(TypeAnnotation::Int),
        TokenKindOf::TypeFloat => Some(TypeAnnotation::Float),
        TokenKindOf::TypeBool => Some(TypeAnnotation::Bool),
        TokenKindOf::TypeString => Some(TypeAnnotation::Str),
        TokenKindOf::TypeVoid => Some(TypeAnnotation::Void),
        _ => None,
    }
}

pub open spec fn type_message(found: TokenM) -> Seq<char> {
    "expected a type but found '"@ + found.lexeme + "'"@
}

/// Consumes a type name, or fails.
pub open spec fn p_type(s: PState) -> PRes<TypeAnnotation> {
    match type_of_kind(peek(s)) {
        Some(t) => Ok((t, advance(s))),
        None => Err(error_at(s, type_message(current(s)))),
    }
}

/// A parameter: a name, optionally followed by `:` and a type (which is dropped).
pub open spec fn p_parameter(s: PState) -> PRes<Seq<char>> {
    match expect_ident(s) {
        Err(e) => Err(e),
        Ok((name, s1)) => if check(s1, TokenKindOf::Colon) {
            match p_type(advance(s1)) {
                Err(e) => Err(e),
                Ok((_, s2)) => Ok((name, s2)),
            }
        } else {
            Ok((name, s1))
        },
    }
}

/// Further parameters, each after a `,`.
pub open spec fn p_params_rest(acc: Seq<Seq<char>>, s: PState) -> PRes<Seq<Seq<char>>>
    decreases s.toks.len() - s.cur,
{
    if check(s, TokenKindOf::Comma) && 0 <= s.cur < s.toks.len() {
        match p_parameter(advance(s)) {
            Err(e) => Err(e),
            Ok((p, s1)) => if moved(s, s1) {
                p_params_rest(acc.push(p), s1)
            } else {
                stalled(s1)
            },
        }
    } else {
        Ok((acc, s))
    }
}

/// The parameters of a function, separated by `,`: none when `)` follows at once.
pub open spec fn p_param_list(s: PState) -> PRes<Seq<Seq<char>>> {
    if !check(s, TokenKindOf::RightParen) {
        match p_parameter(s) {
            Err(e) => Err(e),
            Ok((p, s1)) => if moved(s, s1) {
                p_params_rest(seq![p], s1)
            } else {
                stalled(s1)
            },
        }
    } else {
        Ok((Seq::empty(), s))
    }
}

pub open spec fn binop_equality(k: TokenKindM) -> Option<BinOp> {
    match k {
        TokenKindOf::DoubleEqual => Some(BinOp::Eq),
        TokenKindOf::NotEqual => Some(BinOp::NotEq),
        TokenKindOf::Less => Some(BinOp::Lt),
        TokenKindOf::LessEqual => Some(BinOp::LtEq),
        TokenKindOf::Greater => Some(BinOp::Gt),
        TokenKindOf::GreaterEqual => Some(BinOp::GtEq),
        _ => None,
    }
}

pub open spec fn binop_additive(k: TokenKindM) -> Option<BinOp> {
    match k {
        TokenKindOf::Plus => Some(BinOp::Add),
        TokenKindOf::Minus => Some(BinOp::Sub),
        _ => None,
    }
}

pub open spec fn binop_multiplicative(k: TokenKindM) -> Option<BinOp> {
    match k {
        TokenKindOf::Star => Some(BinOp::Mul),
        TokenKindOf::Slash => Some(BinOp::Div),
        _ => None,
    }
}

pub open spec fn unop_of(k: TokenKindM) -> Option<UnOp> {
    match k {
        TokenKindOf::Minus => Some(UnOp::Neg),
        TokenKindOf::Not => Some(UnOp::Not),
        _ => None,
    }
}

pub open spec fn binary(left: ExprM, op: BinOp, right: ExprM) -> ExprM {
    ExprM::BinaryOp { left: Box::new(left), op, right: Box::new(right) }
}

pub open spec fn invalid_target_message() -> Seq<char> {
    "invalid assignment target"@
}

pub open spec fn unknown_char_message(c: char) -> Seq<char> {
    "unknown character '"@ + seq![c] + "'"@
}

pub open spec fn unexpected_message(found: TokenM) -> Seq<char> {
    "unexpected '"@ + found.lexeme + "' — expected a literal, identifier, or '('"@
}

#[verifier::opaque]
/// Statements: `make`, `show`, `return`, `if`/`when`, `while`/`during`,
/// `for`, `func`, or an expression; each may be followed by one `;`.
pub open spec fn p_stmt(s: PState) -> PRes<StmtM>
    decreases s.toks.len() - s.cur, 20int,
{
    let r = match peek(s) {
        TokenKindOf::Make => p_make(s),
        TokenKindOf::Show => p_show(s),
        TokenKindOf::Return => p_return(s),
        TokenKindOf::When => p_when(s),
        TokenKindOf::During => p_during(s),
        TokenKindOf::For => p_for(s),
        TokenKindOf::Func => p_func_def(s),
        _ => p_expr_stmt(s),
    };
    match r {
        Err(e) => Err(e),
        Ok((st, s1)) => if check(s1, TokenKindOf::Semicolon) {
            Ok((st, advance(s1)))
        } else {
            Ok((st, s1))
        },
    }
}

/// `make NAME = EXPR`.
pub open spec fn p_make(s: PState) -> PRes<StmtM>
    decreases s.toks.len() - s.cur, 19int,
{
    match expect(s, TokenKindOf::Make) {
        Err(e) => Err(e),
        Ok(s1) => match expect_ident(s1) {
            Err(e) => Err(e),
            Ok((name, s2)) => match expect(s2, TokenKindOf::Equal) {
                Err(e) => Err(e),
                Ok(s3) => if moved(s, s3) {
                    match p_expr(s3) {
                        Err(e) => Err(e),
                        Ok((init, s4)) => Ok((StmtM::Make { name, init }, s4)),
                    }
                } else {
                    stalled(s3)
                },
            },
        },
    }
}

/// `show ( EXPR, ... )`.
pub open spec fn p_show(s: PState) -> PRes<StmtM>
    decreases s.toks.len() - s.cur, 19int,
{
    match expect(s, TokenKindOf::Show) {
        Err(e) => Err(e),
        Ok(s1) => match expect(s1, TokenKindOf::LeftParen) {
            Err(e) => Err(e),
            Ok(s2) => if moved(s, s2) {
                match p_expr_list(TokenKindOf::RightParen, s2) {
                    Err(e) => Err(e),
                    Ok((args, s3)) => match expect(s3, TokenKindOf::RightParen) {
                        Err(e) => Err(e),
                        Ok(s4) => Ok((StmtM::Show { args }, s4)),
                    },
                }
            } else {
                stalled(s2)
            },
        },
    }
}

/// `return`, with a value unless a `;`, a `}` or the end follows.
pub open spec fn p_return(s: PState) -> PRes<StmtM>
    decreases s.toks.len() - s.cur, 19int,
{
    match expect(s, TokenKindOf::Return) {
        Err(e) => Err(e),
        Ok(s1) => if check(s1, TokenKindOf::Semicolon) || check(s1, TokenKindOf::RightBrace)
            || at_end(s1) {
            Ok((StmtM::Return { value: None }, s1))
        } else if moved(s, s1) {
            match p_expr(s1) {
                Err(e) => Err(e),
                Ok((v, s2)) => Ok((StmtM::Return { value: Some(v) }, s2)),
            }
        } else {
            stalled(s1)
        },
    }
}

/// `if ( EXPR ) BLOCK`, optionally followed by `else BLOCK`.
pub open spec fn p_when(s: PState) -> PRes<StmtM>
    decreases s.toks.len() - s.cur, 19int,
{
    match expect(s, TokenKindOf::When) {
        Err(e) => Err(e),
        Ok(s1) => match expect(s1, TokenKindOf::LeftParen) {
            Err(e) => Err(e),
            Ok(s2) => if moved(s, s2) {
                match p_expr(s2) {
                    Err(e) => Err(e),
                    Ok((condition, s3)) => match expect(s3, TokenKindOf::RightParen) {
                        Err(e) => Err(e),
                        Ok(s4) => if moved(s, s4) {
                            match p_block(s4) {
                                Err(e) => Err(e),
                                Ok((then_body, s5)) => if check(s5, TokenKindOf::Otherwise) {
                                    let s6 = advance(s5);
                                    if moved(s, s6) {
                                        match p_block(s6) {
                                            Err(e) => Err(e),
                                            Ok((else_body, s7)) => Ok(
                                                (
                                                    StmtM::When {
                                                        condition,
                                                        then_body,
                                                        else_body: Some(else_body),
                                                    },
                                                    s7,
                                                ),
                                            ),
                                        }
                                    } else {
                                        stalled(s6)
                                    }
                                } else {
                                    Ok((StmtM::When { condition, then_body, else_body: None }, s5))
                                },
                            }
                        } else {
                            stalled(s4)
                        },
                    },
                }
            } else {
                stalled(s2)
            },
        },
    }
}

/// `while ( EXPR ) BLOCK`.
pub open spec fn p_during(s: PState) -> PRes<StmtM>
    decreases s.toks.len() - s.cur, 19int,
{
    match expect(s, TokenKindOf::During) {
        Err(e) => Err(e),
        Ok(s1) => match expect(s1, TokenKindOf::LeftParen) {
            Err(e) => Err(e),
            Ok(s2) => if moved(s, s2) {
                match p_expr(s2) {
                    Err(e) => Err(e),
                    Ok((condition, s3)) => match expect(s3, TokenKindOf::RightParen) {
                        Err(e) => Err(e),
                        Ok(s4) => if moved(s, s4) {
                            match p_block(s4) {
                                Err(e) => Err(e),
                                Ok((body, s5)) => Ok((StmtM::During { condition, body }, s5)),
                            }
                        } else {
                            stalled(s4)
                        },
                    },
                }
            } else {
                stalled(s2)
            },
        },
    }
}

/// The first part of a `for` header: a `make` declaration, nothing, or an
/// expression, then `;`.
pub open spec fn p_for_init(s: PState) -> PRes<Option<Box<StmtM>>>
    decreases s.toks.len() - s.cur, 19int,
{
    if check(s, TokenKindOf::Make) {
        match p_make(s) {
            Err(e) => Err(e),
            Ok((decl, s1)) => match expect(s1, TokenKindOf::Semicolon) {
                Err(e) => Err(e),
                Ok(s2) => Ok((Some(Box::new(decl)), s2)),
            },
        }
    } else if check(s, TokenKindOf::Semicolon) {
        Ok((None, advance(s)))
    } else {
        match p_expr(s) {
            Err(e) => Err(e),
            Ok((e, s1)) => match expect(s1, TokenKindOf::Semicolon) {
                Err(err) => Err(err),
                Ok(s2) => Ok((Some(Box::new(StmtM::ExprStmt(e))), s2)),
            },
        }
    }
}

/// `for ( INIT ; CONDITION? ; UPDATE? ) BLOCK`.
pub open spec fn p_for(s: PState) -> PRes<StmtM>
    decreases s.toks.len() - s.cur, 19int,
{
    match expect(s, TokenKindOf::For) {
        Err(e) => Err(e),
        Ok(s1) => match expect(s1, TokenKindOf::LeftParen) {
            Err(e) => Err(e),
            Ok(s2) => if moved(s, s2) {
                match p_for_init(s2) {
                    Err(e) => Err(e),
                    Ok((init, s3)) => if moved(s, s3) {
                        let c = if check(s3, TokenKindOf::Semicolon) {
                            Ok((None::<ExprM>, s3))
                        } else {
                            match p_expr(s3) {
                                Err(e) => Err(e),
                                Ok((c, s4)) => Ok((Some(c), s4)),
                            }
                        };
                        match c {
                            Err(e) => Err(e),
                            Ok((condition, s4)) => match expect(s4, TokenKindOf::Semicolon) {
                                Err(e) => Err(e),
                                Ok(s5) => if moved(s, s5) {
                                    let u = if check(s5, TokenKindOf::RightParen) {
                                        Ok((None::<Box<ExprM>>, s5))
                                    } else {
                                        match p_expr(s5) {
                                            Err(e) => Err(e),
                                            Ok((u, s6)) => Ok((Some(Box::new(u)), s6)),
                                        }
                                    };
                                    match u {
                                        Err(e) => Err(e),
                                        Ok((update, s6)) => match expect(
                                            s6,
                                            TokenKindOf::RightParen,
                                        ) {
                                            Err(e) => Err(e),
                                            Ok(s7) => if moved(s, s7) {
                                                match p_block(s7) {
                                                    Err(e) => Err(e),
                                                    Ok((body, s8)) => Ok(
                                                        (
                                                            StmtM::For {
                                                                init,
                                                                condition,
                                                                update,
                                                                body,
                                                            },
                                                            s8,
                                                        ),
                                                    ),
                                                }
                                            } else {
                                                stalled(s7)
                                            },
                                        },
                                    }
                                } else {
                                    stalled(s5)
                                },
                            },
                        }
                    } else {
                        stalled(s3)
                    },
                }
            } else {
                stalled(s2)
            },
        },
    }
}

/// `func TYPE? NAME ( PARAMS ) BLOCK`.
pub open spec fn p_func_def(s: PState) -> PRes<StmtM>
    decreases s.toks.len() - s.cur, 19int,
{
    match expect(s, TokenKindOf::Func) {
        Err(e) => Err(e),
        Ok(s1) => {
            let rt = if type_of_kind(peek(s1)) is Some {
                match p_type(s1) {
                    Err(e) => Err(e),
                    Ok((t, s2)) => Ok((Some(t), s2)),
                }
            } else {
                Ok((None, s1))
            };
            match rt {
                Err(e) => Err(e),
                Ok((return_type, s2)) => match expect_ident(s2) {
                    Err(e) => Err(e),
                    Ok((name, s3)) => match expect(s3, TokenKindOf::LeftParen) {
                        Err(e) => Err(e),
                        Ok(s4) => {
                            match p_param_list(s4) {
                                Err(e) => Err(e),
                                Ok((params, s5)) => match expect(s5, TokenKindOf::RightParen) {
                                    Err(e) => Err(e),
                                    Ok(s6) => if moved(s, s6) {
                                        match p_block(s6) {
                                            Err(e) => Err(e),
                                            Ok((body, s7)) => Ok(
                                                (
                                                    StmtM::FuncDef {
                                                        name,
                                                        return_type,
                                                        params,
                                                        body,
                                                    },
                                                    s7,
                                                ),
                                            ),
                                        }
                                    } else {
                                        stalled(s6)
                                    },
                                },
                            }
                        },
                    },
                },
            }
        },
    }
}

/// An expression used as a statement.
pub open spec fn p_expr_stmt(s: PState) -> PRes<StmtM>
    decreases s.toks.len() - s.cur, 19int,
{
    match p_expr(s) {
        Err(e) => Err(e),
        Ok((e, s1)) => Ok((StmtM::ExprStmt(e), s1)),
    }
}

/// `{ STMT* }`, with stray `;`s skipped.
pub open spec fn p_block(s: PState) -> PRes<Seq<StmtM>>
    decreases s.toks.len() - s.cur, 22int,
{
    match expect(s, TokenKindOf::LeftBrace) {
        Err(e) => Err(e),
        Ok(s1) => if moved(s, s1) {
            match p_block_items(Seq::empty(), s1) {
                Err(e) => Err(e),
                Ok((stmts, s2)) => match expect(s2, TokenKindOf::RightBrace) {
                    Err(e) => Err(e),
                    Ok(s3) => Ok((stmts, s3)),
                },
            }
        } else {
            stalled(s1)
        },
    }
}

/// The statements of a block, up to a `}` or the end.
#[verifier::opaque]
pub open spec fn p_block_items(acc: Seq<StmtM>, s: PState) -> PRes<Seq<StmtM>>
    decreases s.toks.len() - s.cur, 21int,
{
    if check(s, TokenKindOf::RightBrace) || at_end(s) {
        Ok((acc, s))
    } else if check(s, TokenKindOf::Semicolon) {
        if 0 <= s.cur < s.toks.len() {
            p_block_items(acc, advance(s))
        } else {
            stalled(s)
        }
    } else {
        match p_stmt(s) {
            Err(e) => Err(e),
            Ok((st, s1)) => if moved(s, s1) {
                p_block_items(acc.push(st), s1)
            } else {
                stalled(s1)
            },
        }
    }
}

pub proof fn lemma_block_items_end(acc: Seq<StmtM>, s: PState)
    requires
        check(s, TokenKindOf::RightBrace) || at_end(s),
    ensures
        p_block_items(acc, s) == Ok::<(Seq<StmtM>, PState), ParseErrorM>((acc, s)),
{
    reveal_with_fuel(p_block_items, 1);
}

pub proof fn lemma_block_items_semicolon(acc: Seq<StmtM>, s: PState)
    requires
        !check(s, TokenKindOf::RightBrace),
        !at_end(s),
        check(s, TokenKindOf::Semicolon),
    ensures
        p_block_items(acc, s) == p_block_items(acc, advance(s)),
{
    reveal_with_fuel(p_block_items, 1);
}

pub proof fn lemma_block_items_stmt(acc: Seq<StmtM>, s: PState)
    requires
        !check(s, TokenKindOf::RightBrace),
        !at_end(s),
        !check(s, TokenKindOf::Semicolon),
    ensures
        match p_stmt(s) {
            Ok((st, s1)) => moved(s, s1) ==> p_block_items(acc, s) == p_block_items(acc.push(st), s1),
            Err(e) => p_block_items(acc, s) == Err::<(Seq<StmtM>, PState), ParseErrorM>(e),
        },
{
    reveal_with_fuel(p_block_items, 1);
    reveal(p_stmt);
}

pub open spec fn p_expr(s: PState) -> PRes<ExprM>
    decreases s.toks.len() - s.cur, 10int,
{
    p_assignment(s)
}

/// `NAME = EXPR` (right-associative), or an equality-level expression.
pub open spec fn p_assignment(s: PState) -> PRes<ExprM>
    decreases s.toks.len() - s.cur, 9int,
{
    match p_equality(s) {
        Err(e) => Err(e),
        Ok((lhs, s1)) => if check(s1, TokenKindOf::Equal) {
            let s2 = advance(s1);
            if moved(s, s2) {
                match p_assignment(s2) {
                    Err(e) => Err(e),
                    Ok((rhs, s3)) => match lhs {
                        ExprM::Identifier(name) => Ok(
                            (ExprM::Assignment { name, value: Box::new(rhs) }, s3),
                        ),
                        _ => Err(error_at(s3, invalid_target_message())),
                    },
                }
            } else {
                stalled(s2)
            }
        } else {
            Ok((lhs, s1))
        },
    }
}

/// Comparisons and (in)equalities, left-associative.
pub open spec fn p_equality(s: PState) -> PRes<ExprM>
    decreases s.toks.len() - s.cur, 8int,
{
    match p_additive(s) {
        Err(e) => Err(e),
        Ok((left, s1)) => if moved(s, s1) {
            p_equality_rest(left, s1)
        } else {
            stalled(s1)
        },
    }
}

pub open spec fn p_equality_rest(left: ExprM, s: PState) -> PRes<ExprM>
    decreases s.toks.len() - s.cur, 7int,
{
    match binop_equality(peek(s)) {
        None => Ok((left, s)),
        Some(op) => {
            let s1 = advance(s);
            if moved(s, s1) {
                match p_additive(s1) {
                    Err(e) => Err(e),
                    Ok((right, s2)) => if moved(s, s2) {
                        p_equality_rest(binary(left, op, right), s2)
                    } else {
                        stalled(s2)
                    },
                }
            } else {
                stalled(s1)
            }
        },
    }
}

/// `+` and `-`, left-associative.
pub open spec fn p_additive(s: PState) -> PRes<ExprM>
    decreases s.toks.len() - s.cur, 6int,
{
    match p_multiplicative(s) {
        Err(e) => Err(e),
        Ok((left, s1)) => if moved(s, s1) {
            p_additive_rest(left, s1)
        } else {
            stalled(s1)
        },
    }
}

pub open spec fn p_additive_rest(left: ExprM, s: PState) -> PRes<ExprM>
    decreases s.toks.len() - s.cur, 5int,
{
    match binop_additive(peek(s)) {
        None => Ok((left, s)),
        Some(op) => {
            let s1 = advance(s);
            if moved(s, s1) {
                match p_multiplicative(s1) {
                    Err(e) => Err(e),
                    Ok((right, s2)) => if moved(s, s2) {
                        p_additive_rest(binary(left, op, right), s2)
                    } else {
                        stalled(s2)
                    },
                }
            } else {
                stalled(s1)
            }
        },
    }
}

/// `*` and `/`, left-associative.
pub open spec fn p_multiplicative(s: PState) -> PRes<ExprM>
    decreases s.toks.len() - s.cur, 4int,
{
    match p_unary(s) {
        Err(e) => Err(e),
        Ok((left, s1)) => if moved(s, s1) {
            p_multiplicative_rest(left, s1)
        } else {
            stalled(s1)
        },
    }
}

pub open spec fn p_multiplicative_rest(left: ExprM, s: PState) -> PRes<ExprM>
    decreases s.toks.len() - s.cur, 3int,
{
    match binop_multiplicative(peek(s)) {
        None => Ok((left, s)),
        Some(op) => {
            let s1 = advance(s);
            if moved(s, s1) {
                match p_unary(s1) {
                    Err(e) => Err(e),
                    Ok((right, s2)) => if moved(s, s2) {
                        p_multiplicative_rest(binary(left, op, right), s2)
                    } else {
                        stalled(s2)
                    },
                }
            } else {
                stalled(s1)
            }
        },
    }
}

/// Prefix `-` and `!`, then a primary expression.
pub open spec fn p_unary(s: PState) -> PRes<ExprM>
    decreases s.toks.len() - s.cur, 2int,
{
    match unop_of(peek(s)) {
        Some(op) => {
            let s1 = advance(s);
            if moved(s, s1) {
                match p_unary(s1) {
                    Err(e) => Err(e),
                    Ok((operand, s2)) => Ok((ExprM::UnaryOp { op, operand: Box::new(operand) }, s2)),
                }
            } else {
                stalled(s1)
            }
        },
        None => p_primary(s),
    }
}

/// Literals, names, calls `NAME ( ARGS )` and parenthesized expressions.
pub open spec fn p_primary(s: PState) -> PRes<ExprM>
    decreases s.toks.len() - s.cur, 1int,
{
    match peek(s) {
        TokenKindOf::Integer(n) => Ok((ExprM::Integer(n), advance(s))),
        TokenKindOf::Float(t) => Ok((ExprM::Float(t), advance(s))),
        TokenKindOf::Boolean(b) => Ok((ExprM::Boolean(b), advance(s))),
        TokenKindOf::Nil => Ok((ExprM::Nil, advance(s))),
        TokenKindOf::StringLit(t) => Ok((ExprM::StringLit(t), advance(s))),
        TokenKindOf::Identifier(name) => {
            let s1 = advance(s);
            if check(s1, TokenKindOf::LeftParen) {
                let s2 = advance(s1);
                if moved(s, s2) {
                    match p_expr_list(TokenKindOf::RightParen, s2) {
                        Err(e) => Err(e),
                        Ok((args, s3)) => match expect(s3, TokenKindOf::RightParen) {
                            Err(e) => Err(e),
                            Ok(s4) => Ok((ExprM::Call { callee: name, args }, s4)),
                        },
                    }
                } else {
                    stalled(s2)
                }
            } else {
                Ok((ExprM::Identifier(name), s1))
            }
        },
        TokenKindOf::LeftParen => {
            let s1 = advance(s);
            if moved(s, s1) {
                match p_expr(s1) {
                    Err(e) => Err(e),
                    Ok((inner, s2)) => match expect(s2, TokenKindOf::RightParen) {
                        Err(e) => Err(e),
                        Ok(s3) => Ok((ExprM::Grouped(Box::new(inner)), s3)),
                    },
                }
            } else {
                stalled(s1)
            }
        },
        TokenKindOf::Unknown(c) => Err(error_at(s, unknown_char_message(c))),
        _ => Err(error_at(s, unexpected_message(current(s)))),
    }
}

/// Expressions separated by `,`, none when `terminator` follows at once.
pub open spec fn p_expr_list(terminator: TokenKindM, s: PState) -> PRes<Seq<ExprM>>
    decreases s.toks.len() - s.cur, 12int,
{
    if !check(s, terminator) {
        match p_expr(s) {
            Err(e) => Err(e),
            Ok((e, s1)) => if moved(s, s1) {
                p_expr_list_rest(seq![e], s1)
            } else {
                stalled(s1)
            },
        }
    } else {
        Ok((Seq::empty(), s))
    }
}

pub open spec fn p_expr_list_rest(acc: Seq<ExprM>, s: PState) -> PRes<Seq<ExprM>>
    decreases s.toks.len() - s.cur, 11int,
{
    if check(s, TokenKindOf::Comma) && 0 <= s.cur < s.toks.len() {
        let s1 = advance(s);
        match p_expr(s1) {
            Err(e) => Err(e),
            Ok((e, s2)) => if moved(s, s2) {
                p_expr_list_rest(acc.push(e), s2)
            } else {
                stalled(s2)
            },
        }
    } else {
        Ok((acc, s))
    }
}

/// Top-level statements up to the end, with stray `;`s skipped.
pub open spec fn p_program_items(acc: Seq<StmtM>, s: PState) -> Result<Seq<StmtM>, ParseErrorM>
    decreases s.toks.len() - s.cur,
{
    if at_end(s) || !(0 <= s.cur <= s.toks.len()) {
        Ok(acc)
    } else if check(s, TokenKindOf::Semicolon) {
        p_program_items(acc, advance(s))
    } else {
        match p_stmt(s) {
            Err(e) => Err(e),
            Ok((st, s1)) => if moved(s, s1) {
                p_program_items(acc.push(st), s1)
            } else {
                Err(error_at(s1, Seq::empty()))
            },
        }
    }
}

/// The program that a token sequence parses to, or the first error.
pub open spec fn parse_tokens(toks: Seq<TokenM>) -> Result<Seq<StmtM>, ParseErrorM> {
    p_program_items(Seq::empty(), PState { toks, cur: 0 })
}


/// A state the parser can be in: the position is within the tokens.
pub open spec fn valid(s: PState) -> bool {
    0 <= s.cur <= s.toks.len()
}

/// A step that must consume: on success it consumed at least one token, and
/// an error it gives carries a message.
pub open spec fn consumes<T>(s: PState, r: PRes<T>) -> bool {
    match r {
        Ok((_, s1)) => moved(s, s1),
        Err(e) => e.message.len() > 0,
    }
}

/// A step that may consume nothing: on success it did not move back, and an
/// error it gives carries a message.
pub open spec fn keeps<T>(s: PState, r: PRes<T>) -> bool {
    match r {
        Ok((_, s1)) => kept(s, s1),
        Err(e) => e.message.len() > 0,
    }
}

/// The messages of the parser's errors are not empty.
proof fn lemma_messages_not_empty(k: TokenKindM, t: TokenM, c: char)
    ensures
        expect_message(k, t).len() > 0,
        expect_ident_message(t).len() > 0,
        type_message(t).len() > 0,
        invalid_target_message().len() > 0,
        unknown_char_message(c).len() > 0,
        unexpected_message(t).len() > 0,
{
    reveal_strlit("expected '");
    reveal_strlit("expected identifier but found '");
    reveal_strlit("expected a type but found '");
    reveal_strlit("invalid assignment target");
    reveal_strlit("unknown character '");
    reveal_strlit("unexpected '");
}

proof fn lemma_expect(s: PState, k: TokenKindM)
    requires
        valid(s),
        !(k is Eof),
    ensures
        match expect(s, k) {
            Ok(s1) => moved(s, s1),
            Err(e) => e.message.len() > 0,
        },
{
    lemma_messages_not_empty(k, current(s), ' ');
}

proof fn lemma_expect_ident(s: PState)
    requires
        valid(s),
    ensures
        consumes(s, expect_ident(s)),
{
    lemma_messages_not_empty(TokenKindOf::Comma, current(s), ' ');
}

proof fn lemma_p_type(s: PState)
    requires
        valid(s),
    ensures
        consumes(s, p_type(s)),
{
    lemma_messages_not_empty(TokenKindOf::Comma, current(s), ' ');
}

proof fn lemma_p_parameter(s: PState)
    requires
        valid(s),
    ensures
        consumes(s, p_parameter(s)),
{
    lemma_expect_ident(s);
    if let Ok((name, s1)) = expect_ident(s) {
        if check(s1, TokenKindOf::Colon) {
            lemma_p_type(advance(s1));
        }
    }
}

proof fn lemma_p_params_rest(acc: Seq<Seq<char>>, s: PState)
    requires
        valid(s),
    ensures
        keeps(s, p_params_rest(acc, s)),
    decreases s.toks.len() - s.cur,
{
    if check(s, TokenKindOf::Comma) && 0 <= s.cur < s.toks.len() {
        lemma_p_parameter(advance(s));
        if let Ok((p, s1)) = p_parameter(advance(s)) {
            lemma_p_params_rest(acc.push(p), s1);
        }
    }
}

proof fn lemma_p_param_list(s: PState)
    requires
        valid(s),
    ensures
        keeps(s, p_param_list(s)),
{
    if !check(s, TokenKindOf::RightParen) {
        lemma_p_parameter(s);
        if let Ok((p, s1)) = p_parameter(s) {
            lemma_p_params_rest(seq![p], s1);
        }
    }
}

proof fn lemma_p_expr(s: PState)
    requires
        valid(s),
    ensures
        consumes(s, p_expr(s)),
    decreases s.toks.len() - s.cur, 10int,
{
    lemma_p_assignment(s);
}

proof fn lemma_p_assignment(s: PState)
    requires
        valid(s),
    ensures
        consumes(s, p_assignment(s)),
    decreases s.toks.len() - s.cur, 9int,
{
    lemma_p_equality(s);
    if let Ok((lhs, s1)) = p_equality(s) {
        if check(s1, TokenKindOf::Equal) {
            let s2 = advance(s1);
            lemma_p_assignment(s2);
            lemma_messages_not_empty(TokenKindOf::Comma, current(s), ' ');
        }
    }
}

proof fn lemma_p_equality(s: PState)
    requires
        valid(s),
    ensures
        consumes(s, p_equality(s)),
    decreases s.toks.len() - s.cur, 8int,
{
    lemma_p_additive(s);
    if let Ok((left, s1)) = p_additive(s) {
        lemma_p_equality_rest(left, s1);
    }
}

proof fn lemma_p_equality_rest(left: ExprM, s: PState)
    requires
        valid(s),
    ensures
        keeps(s, p_equality_rest(left, s)),
    decreases s.toks.len() - s.cur, 7int,
{
    if let Some(op) = binop_equality(peek(s)) {
        let s1 = advance(s);
        lemma_p_additive(s1);
        if let Ok((right, s2)) = p_additive(s1) {
            lemma_p_equality_rest(binary(left, op, right), s2);
        }
    }
}

proof fn lemma_p_additive(s: PState)
    requires
        valid(s),
    ensures
        consumes(s, p_additive(s)),
    decreases s.toks.len() - s.cur, 6int,
{
    lemma_p_multiplicative(s);
    if let Ok((left, s1)) = p_multiplicative(s) {
        lemma_p_additive_rest(left, s1);
    }
}

proof fn lemma_p_additive_rest(left: ExprM, s: PState)
    requires
        valid(s),
    ensures
        keeps(s, p_additive_rest(left, s)),
    decreases s.toks.len() - s.cur, 5int,
{
    if let Some(op) = binop_additive(peek(s)) {
        let s1 = advance(s);
        lemma_p_multiplicative(s1);
        if let Ok((right, s2)) = p_multiplicative(s1) {
            lemma_p_additive_rest(binary(left, op, right), s2);
        }
    }
}

proof fn lemma_p_multiplicative(s: PState)
    requires
        valid(s),
    ensures
        consumes(s, p_multiplicative(s)),
    decreases s.toks.len() - s.cur, 4int,
{
    lemma_p_unary(s);
    if let Ok((left, s1)) = p_unary(s) {
        lemma_p_multiplicative_rest(left, s1);
    }
}

proof fn lemma_p_multiplicative_rest(left: ExprM, s: PState)
    requires
        valid(s),
    ensures
        keeps(s, p_multiplicative_rest(left, s)),
    decreases s.toks.len() - s.cur, 3int,
{
    if let Some(op) = binop_multiplicative(peek(s)) {
        let s1 = advance(s);
        lemma_p_unary(s1);
        if let Ok((right, s2)) = p_unary(s1) {
            lemma_p_multiplicative_rest(binary(left, op, right), s2);
        }
    }
}

proof fn lemma_p_unary(s: PState)
    requires
        valid(s),
    ensures
        consumes(s, p_unary(s)),
    decreases s.toks.len() - s.cur, 2int,
{
    if let Some(op) = unop_of(peek(s)) {
        lemma_p_unary(advance(s));
    } else {
        lemma_p_primary(s);
    }
}

proof fn lemma_p_primary(s: PState)
    requires
        valid(s),
    ensures
        consumes(s, p_primary(s)),
    decreases s.toks.len() - s.cur, 1int,
{
    lemma_messages_not_empty(TokenKindOf::Comma, current(s), ' ');
    match peek(s) {
        TokenKindOf::Identifier(name) => {
            let s1 = advance(s);
            if check(s1, TokenKindOf::LeftParen) {
                let s2 = advance(s1);
                lemma_p_expr_list(TokenKindOf::RightParen, s2);
                if let Ok((args, s3)) = p_expr_list(TokenKindOf::RightParen, s2) {
                    lemma_expect(s3, TokenKindOf::RightParen);
                }
            }
        },
        TokenKindOf::LeftParen => {
            let s1 = advance(s);
            lemma_p_expr(s1);
            if let Ok((inner, s2)) = p_expr(s1) {
                lemma_expect(s2, TokenKindOf::RightParen);
            }
        },
        _ => {},
    }
}

proof fn lemma_p_expr_list(terminator: TokenKindM, s: PState)
    requires
        valid(s),
    ensures
        keeps(s, p_expr_list(terminator, s)),
    decreases s.toks.len() - s.cur, 12int,
{
    if !check(s, terminator) {
        lemma_p_expr(s);
        if let Ok((e, s1)) = p_expr(s) {
            lemma_p_expr_list_rest(seq![e], s1);
        }
    }
}

proof fn lemma_p_expr_list_rest(acc: Seq<ExprM>, s: PState)
    requires
        valid(s),
    ensures
        keeps(s, p_expr_list_rest(acc, s)),
    decreases s.toks.len() - s.cur, 11int,
{
    if check(s, TokenKindOf::Comma) && 0 <= s.cur < s.toks.len() {
        let s1 = advance(s);
        lemma_p_expr(s1);
        if let Ok((e, s2)) = p_expr(s1) {
            lemma_p_expr_list_rest(acc.push(e), s2);
        }
    }
}

proof fn lemma_p_make(s: PState)
    requires
        valid(s),
    ensures
        consumes(s, p_make(s)),
{
    lemma_expect(s, TokenKindOf::Make);
    if let Ok(s1) = expect(s, TokenKindOf::Make) {
        lemma_expect_ident(s1);
        if let Ok((name, s2)) = expect_ident(s1) {
            lemma_expect(s2, TokenKindOf::Equal);
            if let Ok(s3) = expect(s2, TokenKindOf::Equal) {
                lemma_p_expr(s3);
            }
        }
    }
}

proof fn lemma_p_show(s: PState)
    requires
        valid(s),
    ensures
        consumes(s, p_show(s)),
{
    lemma_expect(s, TokenKindOf::Show);
    if let Ok(s1) = expect(s, TokenKindOf::Show) {
        lemma_expect(s1, TokenKindOf::LeftParen);
        if let Ok(s2) = expect(s1, TokenKindOf::LeftParen) {
            lemma_p_expr_list(TokenKindOf::RightParen, s2);
            if let Ok((args, s3)) = p_expr_list(TokenKindOf::RightParen, s2) {
                lemma_expect(s3, TokenKindOf::RightParen);
            }
        }
    }
}

proof fn lemma_p_return(s: PState)
    requires
        valid(s),
    ensures
        consumes(s, p_return(s)),
{
    lemma_expect(s, TokenKindOf::Return);
    if let Ok(s1) = expect(s, TokenKindOf::Return) {
        lemma_p_expr(s1);
    }
}

proof fn lemma_p_expr_stmt(s: PState)
    requires
        valid(s),
    ensures
        consumes(s, p_expr_stmt(s)),
{
    lemma_p_expr(s);
}

proof fn lemma_p_for_init(s: PState)
    requires
        valid(s),
    ensures
        consumes(s, p_for_init(s)),
{
    if check(s, TokenKindOf::Make) {
        lemma_p_make(s);
        if let Ok((decl, s1)) = p_make(s) {
            lemma_expect(s1, TokenKindOf::Semicolon);
        }
    } else if !check(s, TokenKindOf::Semicolon) {
        lemma_p_expr(s);
        if let Ok((e, s1)) = p_expr(s) {
            lemma_expect(s1, TokenKindOf::Semicolon);
        }
    }
}

proof fn lemma_p_stmt(s: PState)
    requires
        valid(s),
    ensures
        consumes(s, p_stmt(s)),
    decreases s.toks.len() - s.cur, 20int,
{
    reveal(p_stmt);
    match peek(s) {
        TokenKindOf::Make => lemma_p_make(s),
        TokenKindOf::Show => lemma_p_show(s),
        TokenKindOf::Return => lemma_p_return(s),
        TokenKindOf::When => lemma_p_when(s),
        TokenKindOf::During => lemma_p_during(s),
        TokenKindOf::For => lemma_p_for(s),
        TokenKindOf::Func => lemma_p_func_def(s),
        _ => lemma_p_expr_stmt(s),
    }
}

proof fn lemma_p_when(s: PState)
    requires
        valid(s),
    ensures
        consumes(s, p_when(s)),
    decreases s.toks.len() - s.cur, 19int,
{
    lemma_expect(s, TokenKindOf::When);
    if let Ok(s1) = expect(s, TokenKindOf::When) {
        lemma_expect(s1, TokenKindOf::LeftParen);
        if let Ok(s2) = expect(s1, TokenKindOf::LeftParen) {
            lemma_p_expr(s2);
            if let Ok((condition, s3)) = p_expr(s2) {
                lemma_expect(s3, TokenKindOf::RightParen);
                if let Ok(s4) = expect(s3, TokenKindOf::RightParen) {
                    lemma_p_block(s4);
                    if let Ok((then_body, s5)) = p_block(s4) {
                        if check(s5, TokenKindOf::Otherwise) {
                            lemma_p_block(advance(s5));
                        }
                    }
                }
            }
        }
    }
}

proof fn lemma_p_during(s: PState)
    requires
        valid(s),
    ensures
        consumes(s, p_during(s)),
    decreases s.toks.len() - s.cur, 19int,
{
    lemma_expect(s, TokenKindOf::During);
    if let Ok(s1) = expect(s, TokenKindOf::During) {
        lemma_expect(s1, TokenKindOf::LeftParen);
        if let Ok(s2) = expect(s1, TokenKindOf::LeftParen) {
            lemma_p_expr(s2);
            if let Ok((condition, s3)) = p_expr(s2) {
                lemma_expect(s3, TokenKindOf::RightParen);
                if let Ok(s4) = expect(s3, TokenKindOf::RightParen) {
                    lemma_p_block(s4);
                }
            }
        }
    }
}

proof fn lemma_p_for(s: PState)
    requires
        valid(s),
    ensures
        consumes(s, p_for(s)),
    decreases s.toks.len() - s.cur, 19int,
{
    lemma_expect(s, TokenKindOf::For);
    if let Ok(s1) = expect(s, TokenKindOf::For) {
        lemma_expect(s1, TokenKindOf::LeftParen);
        if let Ok(s2) = expect(s1, TokenKindOf::LeftParen) {
            lemma_p_for_init(s2);
            if let Ok((init, s3)) = p_for_init(s2) {
                if !check(s3, TokenKindOf::Semicolon) {
                    lemma_p_expr(s3);
                }
                let c = if check(s3, TokenKindOf::Semicolon) {
                    Ok((None::<ExprM>, s3))
                } else {
                    match p_expr(s3) {
                        Err(e) => Err(e),
                        Ok((c, s4)) => Ok((Some(c), s4)),
                    }
                };
                if let Ok((condition, s4)) = c {
                    lemma_expect(s4, TokenKindOf::Semicolon);
                    if let Ok(s5) = expect(s4, TokenKindOf::Semicolon) {
                        if !check(s5, TokenKindOf::RightParen) {
                            lemma_p_expr(s5);
                        }
                        let u = if check(s5, TokenKindOf::RightParen) {
                            Ok((None::<Box<ExprM>>, s5))
                        } else {
                            match p_expr(s5) {
                                Err(e) => Err(e),
                                Ok((u, s6)) => Ok((Some(Box::new(u)), s6)),
                            }
                        };
                        if let Ok((update, s6)) = u {
                            lemma_expect(s6, TokenKindOf::RightParen);
                            if let Ok(s7) = expect(s6, TokenKindOf::RightParen) {
                                lemma_p_block(s7);
                            }
                        }
                    }
                }
            }
        }
    }
}

proof fn lemma_p_func_def(s: PState)
    requires
        valid(s),
    ensures
        consumes(s, p_func_def(s)),
    decreases s.toks.len() - s.cur, 19int,
{
    lemma_expect(s, TokenKindOf::Func);
    if let Ok(s1) = expect(s, TokenKindOf::Func) {
        if type_of_kind(peek(s1)) is Some {
            lemma_p_type(s1);
        }
        let rt = if type_of_kind(peek(s1)) is Some {
            match p_type(s1) {
                Err(e) => Err(e),
                Ok((t, s2)) => Ok((Some(t), s2)),
            }
        } else {
            Ok((None, s1))
        };
        if let Ok((return_type, s2)) = rt {
            lemma_expect_ident(s2);
            if let Ok((name, s3)) = expect_ident(s2) {
                lemma_expect(s3, TokenKindOf::LeftParen);
                if let Ok(s4) = expect(s3, TokenKindOf::LeftParen) {
                    lemma_p_param_list(s4);
                    if let Ok((params, s5)) = p_param_list(s4) {
                        lemma_expect(s5, TokenKindOf::RightParen);
                        if let Ok(s6) = expect(s5, TokenKindOf::RightParen) {
                            lemma_p_block(s6);
                        }
                    }
                }
            }
        }
    }
}

#[verifier::spinoff_prover]
proof fn lemma_p_block(s: PState)
    requires
        valid(s),
    ensures
        consumes(s, p_block(s)),
    decreases s.toks.len() - s.cur, 22int,
{
    lemma_expect(s, TokenKindOf::LeftBrace);
    match expect(s, TokenKindOf::LeftBrace) {
        Err(e) => {
            assert(p_block(s) == Err::<(Seq<StmtM>, PState), ParseErrorM>(e));
        },
        Ok(s1) => {
            assert(moved(s, s1));
            lemma_p_block_items(Seq::empty(), s1);
            match p_block_items(Seq::empty(), s1) {
                Err(e) => {
                    assert(p_block(s) == Err::<(Seq<StmtM>, PState), ParseErrorM>(e));
                },
                Ok((stmts, s2)) => {
                    assert(kept(s1, s2));
                    lemma_expect(s2, TokenKindOf::RightBrace);
                    match expect(s2, TokenKindOf::RightBrace) {
                        Err(e) => {
                            assert(p_block(s) == Err::<(Seq<StmtM>, PState), ParseErrorM>(e));
                        },
                        Ok(s3) => {
                            assert(p_block(s) == Ok::<(Seq<StmtM>, PState), ParseErrorM>((stmts, s3)));
                        },
                    }
                },
            }
        },
    }
}

proof fn lemma_p_block_items(acc: Seq<StmtM>, s: PState)
    requires
        valid(s),
    ensures
        keeps(s, p_block_items(acc, s)),
    decreases s.toks.len() - s.cur, 21int,
{
    if check(s, TokenKindOf::RightBrace) || at_end(s) {
        lemma_block_items_end(acc, s);
    } else if check(s, TokenKindOf::Semicolon) {
        lemma_block_items_semicolon(acc, s);
        lemma_p_block_items(acc, advance(s));
    } else {
        lemma_block_items_stmt(acc, s);
        lemma_p_stmt(s);
        if let Ok((st, s1)) = p_stmt(s) {
            lemma_p_block_items(acc.push(st), s1);
        }
    }
}

proof fn lemma_p_program_items(acc: Seq<StmtM>, s: PState)
    requires
        valid(s),
    ensures
        p_program_items(acc, s) matches Err(e) ==> e.message.len() > 0,
    decreases s.toks.len() - s.cur,
{
    if !at_end(s) {
        if check(s, TokenKindOf::Semicolon) {
            lemma_p_program_items(acc, advance(s));
        } else {
            lemma_p_stmt(s);
            if let Ok((st, s1)) = p_stmt(s) {
                lemma_p_program_items(acc.push(st), s1);
            }
        }
    }
}

/// Parsing never gets stuck: every statement and expression that parses
/// consumes at least one token, so the parser's guard against a step that
/// consumes nothing never fires, and every error that parsing a token
/// sequence gives is one of the parser's messages (none of which is empty).
pub proof fn lemma_parse_errors_have_messages(toks: Seq<TokenM>)
    ensures
        parse_tokens(toks) matches Err(e) ==> e.message.len() > 0,
{
    lemma_p_program_items(Seq::empty(), PState { toks, cur: 0 });
}

} // verus!
