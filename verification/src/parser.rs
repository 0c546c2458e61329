//! Recursive-descent parsing: turns the token stream into a program AST.
//!
//! The grammar is LL(1): every decision looks at the next unconsumed token
//! (and, to tell an assignment from an expression statement, at the one
//! after it, without consuming the identifier first).
//!
//! ```text
//! Program     := FuncDef* Eof
//! FuncDef     := 'fn' Ident '(' ParamList? ')' '{' Stmt* '}'
//! ParamList   := Ident (',' Ident)*
//! Stmt        := While | If | Break ';' | Return Expr? ';'
//!              | Ident '=' Expr ';' | Expr ';'
//! While       := 'while' '(' Expr ')' '{' Stmt* '}'
//! If          := 'if' '(' Expr ')' '{' Stmt* '}' ('else' (If | '{' Stmt* '}'))?
//! Expr        := Add (RelOp Add)?          // relational: non-associative
//! Add         := Mul (('+'|'-') Mul)*
//! Mul         := Unary (('*'|'/'|'%') Unary)*
//! Unary       := '(' Expr ')' | Call | Literal
//! Call        := Ident '(' ArgList? ')'    // only when '(' follows
//! ArgList     := Expr (',' Expr)*
//! ```
//!
//! The whole grammar is specified by the `spec_…` functions over the token
//! sequence, each returning the parsed node and the position one past it, or
//! the syntax error that stops the parse; the `Parser` methods are proved to
//! return exactly their results. The first violation aborts the parse: there
//! is no recovery.

use vstd::prelude::*;

use crate::ast::{BinOp, Expr, FuncDef, Program, SpecExpr, SpecFuncDef, SpecStmt, Stmt};
use crate::ast::{expr_view, exprs_view, funcdef_view, names_view, program_view, stmt_view,
    stmts_view};
use crate::scanner::{Scanner, SpecToken, Token, TokenKind, spec_advance, str_eq_str};

verus! {

broadcast use vstd::seq_lib::group_seq_properties;

/// A grammar violation: the kinds that were allowed at the position, the
/// kind that was found, and its lexeme.
#[derive(Debug, PartialEq, Eq)]
pub struct SyntaxError {
    pub expected: Vec<TokenKind>,
    pub found: TokenKind,
    pub lexeme: std::string::String,
}

/// The mathematical image of a [`SyntaxError`].
pub struct SpecSyntaxError {
    pub expected: Seq<TokenKind>,
    pub found: TokenKind,
    pub lexeme: Seq<char>,
}

impl View for SyntaxError {
    type V = SpecSyntaxError;

    open spec fn view(&self) -> SpecSyntaxError {
        SpecSyntaxError { expected: self.expected@, found: self.found, lexeme: self.lexeme@ }
    }
}

/// Whether `pos` indexes the token sequence.
pub open spec fn in_range(toks: Seq<SpecToken>, pos: int) -> bool {
    0 <= pos < toks.len()
}

/// The error reported when the parse runs off the token sequence. Under the
/// scanner's sentinel this never happens.
pub open spec fn oob_error(expected: Seq<TokenKind>) -> SpecSyntaxError {
    SpecSyntaxError { expected, found: TokenKind::Eof, lexeme: Seq::empty() }
}

/// Clips a position into `[lo, len]`. Wherever the grammar functions below
/// recurse at a position another one returned, the position runs through
/// this clip; on every parse the clip is the identity, and it makes the
/// progress of the recursion plain.
pub open spec fn bound_pos(p: int, lo: int, len: int) -> int {
    if p < lo {
        if lo > len {
            len
        } else {
            lo
        }
    } else if p > len {
        len
    } else {
        p
    }
}

/// Consuming one token of one of the allowed kinds: the token and the next
/// position, or the syntax error.
pub open spec fn spec_take(toks: Seq<SpecToken>, pos: int, kinds: Seq<TokenKind>) -> Result<
    (SpecToken, int),
    SpecSyntaxError,
> {
    if !in_range(toks, pos) {
        Err(oob_error(kinds))
    } else {
        let t = toks[pos];
        if kinds.contains(t.kind) {
            Ok((t, pos + 1))
        } else {
            Err(SpecSyntaxError { expected: kinds, found: t.kind, lexeme: t.text })
        }
    }
}

/// The multiplicative operator a lexeme names.
pub open spec fn mul_op_of(text: Seq<char>) -> BinOp {
    if text == "*"@ {
        BinOp::Mul
    } else if text == "/"@ {
        BinOp::Div
    } else {
        BinOp::Mod
    }
}

/// The additive operator a lexeme names.
pub open spec fn add_op_of(text: Seq<char>) -> BinOp {
    if text == "+"@ {
        BinOp::Add
    } else {
        BinOp::Sub
    }
}

/// The relational operator a lexeme names.
pub open spec fn rel_op_of(text: Seq<char>) -> BinOp {
    if text == "=="@ {
        BinOp::Eq
    } else if text == "!="@ {
        BinOp::Ne
    } else if text == "<"@ {
        BinOp::Lt
    } else if text == "<="@ {
        BinOp::Le
    } else if text == ">"@ {
        BinOp::Gt
    } else {
        BinOp::Ge
    }
}

/// The value of one digit character.
pub open spec fn digit_val(c: char) -> u64 {
    if crate::scanner::is_digit_char(c) {
        ((c as u32) - 48) as u64
    } else {
        0
    }
}

/// The decimal value of a digit run, wrapping modulo 2^64.
pub open spec fn dec_val(s: Seq<char>) -> u64
    decreases s.len(),
{
    if s.len() == 0 {
        0
    } else {
        vstd::wrapping::u64_specs::wrapping_add(
            vstd::wrapping::u64_specs::wrapping_mul(dec_val(s.drop_last()), 10),
            digit_val(s.last()),
        )
    }
}

/// The integer an integer-literal lexeme denotes: its decimal value, wrapped
/// into `i64` in two's complement.
pub open spec fn int_of_text(s: Seq<char>) -> i64 {
    dec_val(s) as i64
}

/// A string literal's content: its lexeme with the surrounding quotes
/// stripped.
pub open spec fn strip_quotes(s: Seq<char>) -> Seq<char> {
    if s.len() >= 2 {
        s.subrange(1, s.len() - 1)
    } else {
        Seq::empty()
    }
}

/// `Program := FuncDef* Eof`.
pub open spec fn spec_program(toks: Seq<SpecToken>, pos: int) -> Result<
    (Seq<SpecFuncDef>, int),
    SpecSyntaxError,
>
    decreases toks.len() - pos, 12int,
{
    if !in_range(toks, pos) {
        Err(oob_error(seq![TokenKind::FuncDef, TokenKind::Eof]))
    } else if toks[pos].kind == TokenKind::FuncDef {
        match spec_funcdef(toks, pos) {
            Err(e) => Err(e),
            Ok((f, p)) => match spec_program(toks, bound_pos(p, pos + 1, toks.len() as int)) {
                Err(e) => Err(e),
                Ok((fs, q)) => Ok((seq![f] + fs, q)),
            },
        }
    } else if toks[pos].kind == TokenKind::Eof {
        Ok((Seq::empty(), pos))
    } else {
        Err(
            SpecSyntaxError {
                expected: seq![TokenKind::FuncDef, TokenKind::Eof],
                found: toks[pos].kind,
                lexeme: toks[pos].text,
            },
        )
    }
}

/// `FuncDef := 'fn' Ident '(' ParamList? ')' '{' Stmt* '}'`.
pub open spec fn spec_funcdef(toks: Seq<SpecToken>, pos: int) -> Result<
    (SpecFuncDef, int),
    SpecSyntaxError,
>
    decreases toks.len() - pos, 11int,
{
    if !in_range(toks, pos) {
        Err(oob_error(seq![TokenKind::FuncDef]))
    } else {
        match spec_take(toks, pos, seq![TokenKind::FuncDef]) {
        Err(e) => Err(e),
        Ok((_, p1)) => match spec_take(toks, p1, seq![TokenKind::Ident]) {
            Err(e) => Err(e),
            Ok((name, p2)) => match spec_take(toks, p2, seq![TokenKind::ParenthesOpen]) {
                Err(e) => Err(e),
                Ok((_, p3)) => match spec_func_args(
                    toks,
                    bound_pos(p3, pos + 1, toks.len() as int),
                ) {
                    Err(e) => Err(e),
                    Ok((params, p4)) => match spec_take(
                        toks,
                        p4,
                        seq![TokenKind::ParenthesClose],
                    ) {
                        Err(e) => Err(e),
                        Ok((_, p5)) => match spec_take(toks, p5, seq![TokenKind::Begin]) {
                            Err(e) => Err(e),
                            Ok((_, p6)) => match spec_stat_list(
                                toks,
                                bound_pos(p6, pos + 1, toks.len() as int),
                            ) {
                                Err(e) => Err(e),
                                Ok((body, p7)) => match spec_take(toks, p7, seq![TokenKind::End]) {
                                    Err(e) => Err(e),
                                    Ok((_, p8)) => Ok(
                                        (SpecFuncDef { name: name.text, params, body }, p8),
                                    ),
                                },
                            },
                        },
                    },
                },
            },
        },
        }
    }
}

/// `ParamList? := (Ident (',' Ident)*)?`.
pub open spec fn spec_func_args(toks: Seq<SpecToken>, pos: int) -> Result<
    (Seq<Seq<char>>, int),
    SpecSyntaxError,
>
    decreases toks.len() - pos, 10int,
{
    if in_range(toks, pos) && toks[pos].kind == TokenKind::Ident {
        spec_params_rest(toks, pos + 1, seq![toks[pos].text])
    } else {
        Ok((Seq::empty(), pos))
    }
}

/// The `(',' Ident)*` tail of a parameter list, with the names read so far.
pub open spec fn spec_params_rest(toks: Seq<SpecToken>, pos: int, acc: Seq<Seq<char>>) -> Result<
    (Seq<Seq<char>>, int),
    SpecSyntaxError,
>
    decreases toks.len() - pos, 10int,
{
    if in_range(toks, pos) && toks[pos].kind == TokenKind::Comma {
        match spec_take(toks, pos + 1, seq![TokenKind::Ident]) {
            Err(e) => Err(e),
            Ok((name, p)) => spec_params_rest(toks, p, acc.push(name.text)),
        }
    } else {
        Ok((acc, pos))
    }
}

/// Whether a token kind may begin a statement.
pub open spec fn starts_statement(k: TokenKind) -> bool {
    ||| k == TokenKind::While
    ||| k == TokenKind::If
    ||| k == TokenKind::Break
    ||| k == TokenKind::Return
    ||| k == TokenKind::Ident
    ||| k == TokenKind::Int
    ||| k == TokenKind::String
    ||| k == TokenKind::Bool
    ||| k == TokenKind::ParenthesOpen
}

/// `Stmt*`: statements as long as a statement can begin.
pub open spec fn spec_stat_list(toks: Seq<SpecToken>, pos: int) -> Result<
    (Seq<SpecStmt>, int),
    SpecSyntaxError,
>
    decreases toks.len() - pos, 9int,
{
    if in_range(toks, pos) && starts_statement(toks[pos].kind) {
        match spec_statement(toks, pos) {
            Err(e) => Err(e),
            Ok((s, p)) => match spec_stat_list(toks, bound_pos(p, pos + 1, toks.len() as int)) {
                Err(e) => Err(e),
                Ok((ss, q)) => Ok((seq![s] + ss, q)),
            },
        }
    } else {
        Ok((Seq::empty(), pos))
    }
}

/// One statement, dispatched on its first token.
pub open spec fn spec_statement(toks: Seq<SpecToken>, pos: int) -> Result<
    (SpecStmt, int),
    SpecSyntaxError,
>
    decreases toks.len() - pos, 8int,
{
    if !in_range(toks, pos) {
        Err(oob_error(seq![TokenKind::Ident]))
    } else if toks[pos].kind == TokenKind::While {
        spec_call_while(toks, pos)
    } else if toks[pos].kind == TokenKind::If {
        spec_call_if(toks, pos)
    } else if toks[pos].kind == TokenKind::Break {
        match spec_take(toks, pos + 1, seq![TokenKind::Semicolon]) {
            Err(e) => Err(e),
            Ok((_, p)) => Ok((SpecStmt::Break, p)),
        }
    } else if toks[pos].kind == TokenKind::Return {
        if in_range(toks, pos + 1) && toks[pos + 1].kind == TokenKind::Semicolon {
            Ok((SpecStmt::Return(None), pos + 2))
        } else {
            match spec_relation(toks, bound_pos(pos + 1, pos + 1, toks.len() as int)) {
                Err(e) => Err(e),
                Ok((e, p)) => match spec_take(toks, p, seq![TokenKind::Semicolon]) {
                    Err(er) => Err(er),
                    Ok((_, q)) => Ok((SpecStmt::Return(Some(e)), q)),
                },
            }
        }
    } else if toks[pos].kind == TokenKind::Ident && in_range(toks, pos + 1) && toks[pos + 1].kind
        == TokenKind::Assign {
        match spec_relation(toks, pos + 2) {
            Err(e) => Err(e),
            Ok((e, p)) => match spec_take(toks, p, seq![TokenKind::Semicolon]) {
                Err(er) => Err(er),
                Ok((_, q)) => Ok((SpecStmt::Assign(toks[pos].text, e), q)),
            },
        }
    } else {
        match spec_relation(toks, pos) {
            Err(e) => Err(e),
            Ok((e, p)) => match spec_take(toks, p, seq![TokenKind::Semicolon]) {
                Err(er) => Err(er),
                Ok((_, q)) => Ok((SpecStmt::Expr(e), q)),
            },
        }
    }
}

/// `While := 'while' '(' Expr ')' '{' Stmt* '}'`.
pub open spec fn spec_call_while(toks: Seq<SpecToken>, pos: int) -> Result<
    (SpecStmt, int),
    SpecSyntaxError,
>
    decreases toks.len() - pos, 7int,
{
    if !in_range(toks, pos) {
        Err(oob_error(seq![TokenKind::While]))
    } else {
        match spec_take(toks, pos, seq![TokenKind::While]) {
        Err(e) => Err(e),
        Ok((_, p1)) => match spec_take(toks, p1, seq![TokenKind::ParenthesOpen]) {
            Err(e) => Err(e),
            Ok((_, p2)) => match spec_relation(toks, bound_pos(p2, pos + 1, toks.len() as int)) {
                Err(e) => Err(e),
                Ok((cond, p3)) => match spec_take(toks, p3, seq![TokenKind::ParenthesClose]) {
                    Err(e) => Err(e),
                    Ok((_, p4)) => match spec_take(toks, p4, seq![TokenKind::Begin]) {
                        Err(e) => Err(e),
                        Ok((_, p5)) => match spec_stat_list(
                            toks,
                            bound_pos(p5, pos + 1, toks.len() as int),
                        ) {
                            Err(e) => Err(e),
                            Ok((body, p6)) => match spec_take(toks, p6, seq![TokenKind::End]) {
                                Err(e) => Err(e),
                                Ok((_, p7)) => Ok((SpecStmt::While(cond, body), p7)),
                            },
                        },
                    },
                },
            },
        },
        }
    }
}

/// `If := 'if' '(' Expr ')' '{' Stmt* '}' ('else' (If | '{' Stmt* '}'))?`.
/// An `else if` becomes an else branch holding that one conditional.
pub open spec fn spec_call_if(toks: Seq<SpecToken>, pos: int) -> Result<
    (SpecStmt, int),
    SpecSyntaxError,
>
    decreases toks.len() - pos, 7int,
{
    if !in_range(toks, pos) {
        Err(oob_error(seq![TokenKind::If]))
    } else {
        match spec_take(toks, pos, seq![TokenKind::If]) {
        Err(e) => Err(e),
        Ok((_, p1)) => match spec_take(toks, p1, seq![TokenKind::ParenthesOpen]) {
            Err(e) => Err(e),
            Ok((_, p2)) => match spec_relation(toks, bound_pos(p2, pos + 1, toks.len() as int)) {
                Err(e) => Err(e),
                Ok((cond, p3)) => match spec_take(toks, p3, seq![TokenKind::ParenthesClose]) {
                    Err(e) => Err(e),
                    Ok((_, p4)) => match spec_take(toks, p4, seq![TokenKind::Begin]) {
                        Err(e) => Err(e),
                        Ok((_, p5)) => match spec_stat_list(
                            toks,
                            bound_pos(p5, pos + 1, toks.len() as int),
                        ) {
                            Err(e) => Err(e),
                            Ok((thn, p6)) => match spec_take(toks, p6, seq![TokenKind::End]) {
                                Err(e) => Err(e),
                                Ok((_, p7)) => spec_else_branch(toks, pos, p7, cond, thn),
                            },
                        },
                    },
                },
            },
        },
        }
    }
}

/// The optional else branch of a conditional whose condition and then branch
/// are already parsed; `pos` is where the conditional began, `p` where its
/// then branch ended.
pub open spec fn spec_else_branch(
    toks: Seq<SpecToken>,
    pos: int,
    p: int,
    cond: SpecExpr,
    thn: Seq<SpecStmt>,
) -> Result<(SpecStmt, int), SpecSyntaxError>
    decreases toks.len() - pos, 6int,
{
    if !in_range(toks, pos) {
        Err(oob_error(seq![TokenKind::Else]))
    } else if in_range(toks, p) && toks[p].kind == TokenKind::Else {
        if in_range(toks, p + 1) && toks[p + 1].kind == TokenKind::If {
            match spec_call_if(toks, bound_pos(p + 1, pos + 1, toks.len() as int)) {
                Err(e) => Err(e),
                Ok((elif, q)) => Ok((SpecStmt::If(cond, thn, seq![elif]), q)),
            }
        } else {
            match spec_take(toks, p + 1, seq![TokenKind::Begin]) {
                Err(e) => Err(e),
                Ok((_, q1)) => match spec_stat_list(
                    toks,
                    bound_pos(q1, pos + 1, toks.len() as int),
                ) {
                    Err(e) => Err(e),
                    Ok((els, q2)) => match spec_take(toks, q2, seq![TokenKind::End]) {
                        Err(e) => Err(e),
                        Ok((_, q3)) => Ok((SpecStmt::If(cond, thn, els), q3)),
                    },
                },
            }
        }
    } else {
        Ok((SpecStmt::If(cond, thn, Seq::empty()), p))
    }
}

/// The rest of a call whose name is already consumed: `'(' ArgList? ')'`.
pub open spec fn spec_call_func(toks: Seq<SpecToken>, pos: int, fname: Seq<char>) -> Result<
    (SpecExpr, int),
    SpecSyntaxError,
>
    decreases toks.len() - pos, 6int,
{
    if !in_range(toks, pos) {
        Err(oob_error(seq![TokenKind::ParenthesOpen]))
    } else {
        match spec_take(toks, pos, seq![TokenKind::ParenthesOpen]) {
        Err(e) => Err(e),
        Ok((_, p1)) => {
            if in_range(toks, p1) && toks[p1].kind == TokenKind::ParenthesClose {
                Ok((SpecExpr::Call(fname, Seq::empty()), p1 + 1))
            } else {
                match spec_call_args(toks, bound_pos(p1, pos + 1, toks.len() as int)) {
                    Err(e) => Err(e),
                    Ok((args, p2)) => match spec_take(toks, p2, seq![TokenKind::ParenthesClose]) {
                        Err(e) => Err(e),
                        Ok((_, p3)) => Ok((SpecExpr::Call(fname, args), p3)),
                    },
                }
            }
        },
        }
    }
}

/// `ArgList := Expr (',' Expr)*`.
pub open spec fn spec_call_args(toks: Seq<SpecToken>, pos: int) -> Result<
    (Seq<SpecExpr>, int),
    SpecSyntaxError,
>
    decreases toks.len() - pos, 5int,
{
    if !in_range(toks, pos) {
        Err(oob_error(seq![TokenKind::Int]))
    } else {
        match spec_relation(toks, pos) {
            Err(e) => Err(e),
            Ok((e, p)) => spec_args_rest(toks, bound_pos(p, pos + 1, toks.len() as int), seq![e]),
        }
    }
}

/// The `(',' Expr)*` tail of an argument list, with the arguments read so
/// far.
pub open spec fn spec_args_rest(toks: Seq<SpecToken>, pos: int, acc: Seq<SpecExpr>) -> Result<
    (Seq<SpecExpr>, int),
    SpecSyntaxError,
>
    decreases toks.len() - pos, 5int,
{
    if in_range(toks, pos) && toks[pos].kind == TokenKind::Comma {
        match spec_relation(toks, pos + 1) {
            Err(e) => Err(e),
            Ok((e, p)) => spec_args_rest(
                toks,
                bound_pos(p, pos + 2, toks.len() as int),
                acc.push(e),
            ),
        }
    } else {
        Ok((acc, pos))
    }
}

/// `Expr := Add (RelOp Add)?` — at most one relational operator: chained
/// comparisons are a syntax error by the grammar.
pub open spec fn spec_relation(toks: Seq<SpecToken>, pos: int) -> Result<
    (SpecExpr, int),
    SpecSyntaxError,
>
    decreases toks.len() - pos, 4int,
{
    if !in_range(toks, pos) {
        Err(oob_error(seq![TokenKind::Int]))
    } else {
        match spec_add(toks, pos) {
            Err(e) => Err(e),
            Ok((e1, p1)) => {
                if in_range(toks, p1) && toks[p1].kind == TokenKind::OpRel {
                    let op = rel_op_of(toks[p1].text);
                    match spec_add(toks, bound_pos(p1 + 1, pos + 1, toks.len() as int)) {
                        Err(e) => Err(e),
                        Ok((e2, p2)) => Ok(
                            (SpecExpr::Binary(op, Box::new(e1), Box::new(e2)), p2),
                        ),
                    }
                } else {
                    Ok((e1, p1))
                }
            },
        }
    }
}

/// `Add := Mul (('+'|'-') Mul)*`.
pub open spec fn spec_add(toks: Seq<SpecToken>, pos: int) -> Result<
    (SpecExpr, int),
    SpecSyntaxError,
>
    decreases toks.len() - pos, 3int,
{
    if !in_range(toks, pos) {
        Err(oob_error(seq![TokenKind::Int]))
    } else {
        match spec_term(toks, pos) {
            Err(e) => Err(e),
            Ok((e1, p1)) => spec_add_rest(toks, bound_pos(p1, pos + 1, toks.len() as int), e1),
        }
    }
}

/// The `(('+'|'-') Mul)*` tail of an additive chain, folded left onto the
/// expression read so far.
pub open spec fn spec_add_rest(toks: Seq<SpecToken>, pos: int, acc: SpecExpr) -> Result<
    (SpecExpr, int),
    SpecSyntaxError,
>
    decreases toks.len() - pos, 3int,
{
    if in_range(toks, pos) && toks[pos].kind == TokenKind::OpAdd {
        let op = add_op_of(toks[pos].text);
        match spec_term(toks, pos + 1) {
            Err(e) => Err(e),
            Ok((e2, p2)) => spec_add_rest(
                toks,
                bound_pos(p2, pos + 2, toks.len() as int),
                SpecExpr::Binary(op, Box::new(acc), Box::new(e2)),
            ),
        }
    } else {
        Ok((acc, pos))
    }
}

/// `Mul := Unary (('*'|'/'|'%') Unary)*`.
pub open spec fn spec_term(toks: Seq<SpecToken>, pos: int) -> Result<
    (SpecExpr, int),
    SpecSyntaxError,
>
    decreases toks.len() - pos, 2int,
{
    if !in_range(toks, pos) {
        Err(oob_error(seq![TokenKind::Int]))
    } else {
        match spec_factor(toks, pos) {
            Err(e) => Err(e),
            Ok((e1, p1)) => spec_term_rest(toks, bound_pos(p1, pos + 1, toks.len() as int), e1),
        }
    }
}

/// The `(('*'|'/'|'%') Unary)*` tail of a multiplicative chain, folded left
/// onto the expression read so far.
pub open spec fn spec_term_rest(toks: Seq<SpecToken>, pos: int, acc: SpecExpr) -> Result<
    (SpecExpr, int),
    SpecSyntaxError,
>
    decreases toks.len() - pos, 2int,
{
    if in_range(toks, pos) && toks[pos].kind == TokenKind::OpMul {
        let op = mul_op_of(toks[pos].text);
        match spec_factor(toks, pos + 1) {
            Err(e) => Err(e),
            Ok((e2, p2)) => spec_term_rest(
                toks,
                bound_pos(p2, pos + 2, toks.len() as int),
                SpecExpr::Binary(op, Box::new(acc), Box::new(e2)),
            ),
        }
    } else {
        Ok((acc, pos))
    }
}

/// `Unary := '(' Expr ')' | Literal-or-Call`.
pub open spec fn spec_factor(toks: Seq<SpecToken>, pos: int) -> Result<
    (SpecExpr, int),
    SpecSyntaxError,
>
    decreases toks.len() - pos, 1int,
{
    if in_range(toks, pos) && toks[pos].kind == TokenKind::ParenthesOpen {
        match spec_relation(toks, pos + 1) {
            Err(e) => Err(e),
            Ok((e, p)) => match spec_take(toks, p, seq![TokenKind::ParenthesClose]) {
                Err(er) => Err(er),
                Ok((_, q)) => Ok((e, q)),
            },
        }
    } else {
        spec_literal(toks, pos)
    }
}

/// `Literal := Int | String | Bool | Ident`, where an identifier followed
/// immediately by `(` commits to a call.
pub open spec fn spec_literal(toks: Seq<SpecToken>, pos: int) -> Result<
    (SpecExpr, int),
    SpecSyntaxError,
>
    decreases toks.len() - pos, 0int,
{
    match spec_take(
        toks,
        pos,
        seq![TokenKind::Int, TokenKind::String, TokenKind::Bool, TokenKind::Ident],
    ) {
        Err(e) => Err(e),
        Ok((t, p)) => {
            if t.kind == TokenKind::Int {
                Ok((SpecExpr::Int(int_of_text(t.text)), p))
            } else if t.kind == TokenKind::String {
                Ok((SpecExpr::Str(strip_quotes(t.text)), p))
            } else if t.kind == TokenKind::Bool {
                Ok((SpecExpr::Bool(t.text == "true"@), p))
            } else {
                if in_range(toks, p) && toks[p].kind == TokenKind::ParenthesOpen {
                    spec_call_func(toks, p, t.text)
                } else {
                    Ok((SpecExpr::Var(t.text), p))
                }
            }
        },
    }
}

/// What parsing a whole token stream yields: the program and the position of
/// the closing sentinel, or the first grammar violation.
pub open spec fn spec_parse(toks: Seq<SpecToken>) -> Result<
    (Seq<SpecFuncDef>, int),
    SpecSyntaxError,
> {
    spec_program(toks, 0)
}

/// What a whole source text parses to: its token sequence under [`lex`],
/// closed by the sentinel, run through [`spec_parse`]; nothing when either
/// stage fails.
pub open spec fn spec_parse_text(text: Seq<char>) -> Option<Seq<SpecFuncDef>> {
    match crate::scanner::lex(text) {
        Ok(ts) => match spec_parse(ts.push(crate::scanner::eof_token())) {
            Ok((fs, _)) => Some(fs),
            Err(_) => None,
        },
        Err(_) => None,
    }
}

/// Parsing tokenized source is deterministic: the program is a function of
/// the text alone, so identical input text always yields a structurally
/// identical syntax tree. `Scanner::new` and `Parser::parse` each pin their
/// result to this same function of the text, so two runs over equal text
/// return equal programs.
pub proof fn lemma_parse_deterministic(t1: Seq<char>, t2: Seq<char>)
    requires
        t1 == t2,
    ensures
        spec_parse_text(t1) == spec_parse_text(t2),
{
}

/// Puts already-parsed definitions in front of a program parse.
pub open spec fn program_compose(
    pre: Seq<SpecFuncDef>,
    r: Result<(Seq<SpecFuncDef>, int), SpecSyntaxError>,
) -> Result<(Seq<SpecFuncDef>, int), SpecSyntaxError> {
    match r {
        Ok((fs, p)) => Ok((pre + fs, p)),
        Err(e) => Err(e),
    }
}

/// Puts already-parsed statements in front of a statement-list parse.
pub open spec fn stmts_compose(
    pre: Seq<SpecStmt>,
    r: Result<(Seq<SpecStmt>, int), SpecSyntaxError>,
) -> Result<(Seq<SpecStmt>, int), SpecSyntaxError> {
    match r {
        Ok((ss, p)) => Ok((pre + ss, p)),
        Err(e) => Err(e),
    }
}

/// The decimal value of an integer lexeme, wrapping modulo 2^64.
fn dec_value(text: &str) -> (v: u64)
    ensures
        v == dec_val(text@),
{
    let n = text.unicode_len();
    let mut v: u64 = 0;
    let mut k: usize = 0;
    while k < n
        invariant
            n == text@.len(),
            k <= n,
            v == dec_val(text@.take(k as int)),
        decreases n - k,
    {
        let c = text.get_char(k);
        let d: u64 = if '0' <= c && c <= '9' {
            ((c as u32) - 48) as u64
        } else {
            0
        };
        proof {
            assert(text@.take(k + 1).drop_last() =~= text@.take(k as int));
            assert(text@.take(k + 1).last() == text@[k as int]);
        }
        v = v.wrapping_mul(10).wrapping_add(d);
        k = k + 1;
    }
    proof {
        assert(text@.take(n as int) =~= text@);
    }
    v
}

/// The recursive-descent parser: a cursor over one token stream.
#[derive(Debug)]
pub struct Parser {
    scanner: Scanner,
}

impl Parser {
    /// The token stream under the cursor.
    pub closed spec fn toks(&self) -> Seq<SpecToken> {
        self.scanner.toks()
    }

    /// The cursor position.
    pub closed spec fn pos_spec(&self) -> int {
        self.scanner.pos_spec()
    }

    /// The parser's invariant: its scanner's.
    pub closed spec fn wf(&self) -> bool {
        self.scanner.wf()
    }

    /// Wraps a scanner, taking over its cursor.
    pub fn new(scanner: Scanner) -> (p: Parser)
        ensures
            p.toks() == scanner.toks(),
            p.pos_spec() == scanner.pos_spec(),
            p.wf() == scanner.wf(),
    {
        Parser { scanner }
    }

    /// Parses the whole token stream into a program: exactly what
    /// [`spec_parse`] assigns to the stream, or its first grammar violation.
    pub fn parse(&mut self) -> (r: Result<Program, SyntaxError>)
        requires
            old(self).wf(),
        ensures
            final(self).wf(),
            match spec_program(old(self).toks(), old(self).pos_spec()) {
                Ok((fs, p)) => r matches Ok(prog) && program_view(prog@) == fs,
                Err(se) => r matches Err(er) && er@ == se,
            },
    {
        self.program()
    }

    /// Whether the current token has the given kind.
    fn is_match(&self, kind: TokenKind) -> (r: bool)
        requires
            self.wf(),
        ensures
            r == (self.toks()[self.pos_spec()].kind == kind),
    {
        let t = self.scanner.peek();
        t.kind == kind
    }

    /// Whether the token after the current one has the given kind.
    fn is_match_next(&self, kind: TokenKind) -> (r: bool)
        requires
            self.wf(),
        ensures
            r == (self.toks()[spec_advance(self.toks().len() as int, self.pos_spec())].kind
                == kind),
    {
        let t = self.scanner.peek_next();
        t.kind == kind
    }

    /// Whether the current token may begin a statement.
    fn at_statement(&self) -> (r: bool)
        requires
            self.wf(),
        ensures
            r == starts_statement(self.toks()[self.pos_spec()].kind),
    {
        let t = self.scanner.peek();
        match t.kind {
            TokenKind::While => true,
            TokenKind::If => true,
            TokenKind::Break => true,
            TokenKind::Return => true,
            TokenKind::Ident => true,
            TokenKind::Int => true,
            TokenKind::String => true,
            TokenKind::Bool => true,
            TokenKind::ParenthesOpen => true,
            _ => false,
        }
    }

    /// Consumes the current token if its kind is among the allowed ones,
    /// else reports the violation: exactly [`spec_take`].
    fn take(&mut self, kinds: Vec<TokenKind>) -> (r: Result<Token, SyntaxError>)
        requires
            old(self).wf(),
            !kinds@.contains(TokenKind::Eof),
        ensures
            final(self).wf(),
            final(self).toks() == old(self).toks(),
            match spec_take(old(self).toks(), old(self).pos_spec(), kinds@) {
                Ok((t, p)) => r matches Ok(tk) && tk@ == t && final(self).pos_spec() == p,
                Err(se) => r matches Err(er) && er@ == se && final(self).pos_spec() == old(
                    self,
                ).pos_spec(),
            },
    {
        let t = self.scanner.peek();
        let mut found = false;
        let mut k: usize = 0;
        while k < kinds.len()
            invariant
                k <= kinds@.len(),
                found == exists|m: int| 0 <= m < k && kinds@[m] == t@.kind,
            decreases kinds@.len() - k,
        {
            if kinds[k] == t.kind {
                found = true;
            }
            k = k + 1;
        }
        if found {
            proof {
                assert(kinds@.contains(t@.kind));
                assert(self.toks().last() == crate::scanner::eof_token());
                assert(self.toks()[self.pos_spec()].kind != TokenKind::Eof);
                assert(self.pos_spec() + 1 < self.toks().len());
            }
            let _ = self.scanner.next();
            Ok(t)
        } else {
            proof {
                assert(!kinds@.contains(t@.kind)) by {
                    if kinds@.contains(t@.kind) {
                        let m = choose|m: int| 0 <= m < kinds@.len() && kinds@[m] == t@.kind;
                        assert(0 <= m < kinds@.len() && kinds@[m] == t@.kind);
                    }
                }
            }
            Err(SyntaxError { expected: kinds, found: t.kind, lexeme: t.value })
        }
    }

    /// [`Parser::take`] for the common case of one allowed kind.
    fn take1(&mut self, k: TokenKind) -> (r: Result<Token, SyntaxError>)
        requires
            old(self).wf(),
            k != TokenKind::Eof,
        ensures
            final(self).wf(),
            final(self).toks() == old(self).toks(),
            match spec_take(old(self).toks(), old(self).pos_spec(), seq![k]) {
                Ok((t, p)) => r matches Ok(tk) && tk@ == t && final(self).pos_spec() == p,
                Err(se) => r matches Err(er) && er@ == se && final(self).pos_spec() == old(
                    self,
                ).pos_spec(),
            },
    {
        let kinds = vec![k];
        proof {
            assert(kinds@ =~= seq![k]);
        }
        self.take(kinds)
    }

    /// `Program := FuncDef* Eof`: exactly [`spec_program`] at the cursor.
    #[verifier::rlimit(60)]
    fn program(&mut self) -> (r: Result<Program, SyntaxError>)
        requires
            old(self).wf(),
        ensures
            final(self).wf(),
            final(self).toks() == old(self).toks(),
            match spec_program(old(self).toks(), old(self).pos_spec()) {
                Ok((fs, p)) => r matches Ok(prog) && program_view(prog@) == fs && final(self).pos_spec() == p,
                Err(se) => r matches Err(er) && er@ == se,
            },
        decreases old(self).toks().len() - old(self).pos_spec(), 12int,
    {
        let ghost toks = self.toks();
        let ghost pos0 = self.pos_spec();
        let mut defs: Vec<FuncDef> = Vec::new();
        proof {
            assert(program_view(defs@) =~= Seq::<SpecFuncDef>::empty());
            assert(Seq::<SpecFuncDef>::empty() + lex_seq_fd(spec_program(toks, pos0))
                =~= lex_seq_fd(spec_program(toks, pos0)));
        }
        while self.is_match(TokenKind::FuncDef)
            invariant
                self.wf(),
                toks == old(self).toks(),
                pos0 == old(self).pos_spec(),
                self.toks() == toks,
                pos0 <= self.pos_spec(),
                spec_program(toks, pos0) == program_compose(
                    program_view(defs@),
                    spec_program(toks, self.pos_spec()),
                ),
            decreases toks.len() - self.pos_spec(),
        {
            let ghost pos = self.pos_spec();
            let f = match self.func_def() {
                Ok(f) => f,
                Err(e) => {
                    return Err(e);
                },
            };
            proof {
                let ghost pre = program_view(defs@);
                assert(program_view(defs@.push(f)) =~= pre.push(funcdef_view(f)));
                if spec_program(toks, self.pos_spec()) is Ok {
                    let (fs, q) = spec_program(toks, self.pos_spec())->Ok_0;
                    assert(pre + (seq![funcdef_view(f)] + fs) =~= pre.push(funcdef_view(f)) + fs);
                }
            }
            defs.push(f);
        }
        if self.is_match(TokenKind::Eof) {
            proof {
                assert(spec_program(toks, self.pos_spec()) == Ok::<
                    (Seq<SpecFuncDef>, int),
                    SpecSyntaxError,
                >((Seq::empty(), self.pos_spec())));
                assert(program_view(defs@) + Seq::<SpecFuncDef>::empty() =~= program_view(defs@));
            }
            Ok(defs)
        } else {
            let t = self.scanner.peek();
            Err(
                SyntaxError {
                    expected: vec![TokenKind::FuncDef, TokenKind::Eof],
                    found: t.kind,
                    lexeme: t.value,
                },
            )
        }
    }

    /// `FuncDef := 'fn' Ident '(' ParamList? ')' '{' Stmt* '}'`: exactly
    /// [`spec_funcdef`] at the cursor.
    #[verifier::rlimit(60)]
    fn func_def(&mut self) -> (r: Result<FuncDef, SyntaxError>)
        requires
            old(self).wf(),
        ensures
            final(self).wf(),
            final(self).toks() == old(self).toks(),
            match spec_funcdef(old(self).toks(), old(self).pos_spec()) {
                Ok((f, p)) => r matches Ok(fd) && funcdef_view(fd) == f && final(self).pos_spec()
                    == p && old(self).pos_spec() < p,
                Err(se) => r matches Err(er) && er@ == se,
            },
        decreases old(self).toks().len() - old(self).pos_spec(), 11int,
    {
        let _ = match self.take1(TokenKind::FuncDef) {
            Ok(t) => t,
            Err(e) => {
                return Err(e);
            },
        };
        let name = match self.take1(TokenKind::Ident) {
            Ok(t) => t,
            Err(e) => {
                return Err(e);
            },
        };
        let _ = match self.take1(TokenKind::ParenthesOpen) {
            Ok(t) => t,
            Err(e) => {
                return Err(e);
            },
        };
        let params = match self.func_args() {
            Ok(ps) => ps,
            Err(e) => {
                return Err(e);
            },
        };
        let _ = match self.take1(TokenKind::ParenthesClose) {
            Ok(t) => t,
            Err(e) => {
                return Err(e);
            },
        };
        let _ = match self.take1(TokenKind::Begin) {
            Ok(t) => t,
            Err(e) => {
                return Err(e);
            },
        };
        let body = match self.stat_list() {
            Ok(ss) => ss,
            Err(e) => {
                return Err(e);
            },
        };
        let _ = match self.take1(TokenKind::End) {
            Ok(t) => t,
            Err(e) => {
                return Err(e);
            },
        };
        Ok(FuncDef { name: name.value, params, body })
    }

    /// `ParamList? := (Ident (',' Ident)*)?`: exactly [`spec_func_args`] at
    /// the cursor.
    #[verifier::rlimit(60)]
    fn func_args(&mut self) -> (r: Result<Vec<std::string::String>, SyntaxError>)
        requires
            old(self).wf(),
        ensures
            final(self).wf(),
            final(self).toks() == old(self).toks(),
            match spec_func_args(old(self).toks(), old(self).pos_spec()) {
                Ok((ps, p)) => r matches Ok(names) && names_view(names@) == ps && final(self).pos_spec() == p && old(self).pos_spec() <= p,
                Err(se) => r matches Err(er) && er@ == se,
            },
        decreases old(self).toks().len() - old(self).pos_spec(), 10int,
    {
        let ghost toks = self.toks();
        let ghost pos0 = self.pos_spec();
        if !self.is_match(TokenKind::Ident) {
            proof {
                assert(names_view(Seq::<std::string::String>::empty())
                    =~= Seq::<Seq<char>>::empty());
            }
            return Ok(Vec::new());
        }
        let n = match self.take1(TokenKind::Ident) {
            Ok(t) => t,
            Err(e) => {
                return Err(e);
            },
        };
        let mut names: Vec<std::string::String> = Vec::new();
        names.push(n.value);
        proof {
            assert(names_view(names@) =~= seq![toks[pos0].text]);
        }
        while self.is_match(TokenKind::Comma)
            invariant
                self.wf(),
                toks == old(self).toks(),
                pos0 == old(self).pos_spec(),
                self.toks() == toks,
                pos0 < self.pos_spec(),
                spec_func_args(toks, pos0) == spec_params_rest(
                    toks,
                    self.pos_spec(),
                    names_view(names@),
                ),
            decreases toks.len() - self.pos_spec(),
        {
            let _ = match self.take1(TokenKind::Comma) {
                Ok(t) => t,
                Err(e) => {
                    return Err(e);
                },
            };
            let n2 = match self.take1(TokenKind::Ident) {
                Ok(t) => t,
                Err(e) => {
                    return Err(e);
                },
            };
            proof {
                assert(names_view(names@.push(n2.value)) =~= names_view(names@).push(
                    n2.value@,
                ));
            }
            names.push(n2.value);
        }
        Ok(names)
    }

    /// `Stmt*`: exactly [`spec_stat_list`] at the cursor.
    #[verifier::rlimit(60)]
    fn stat_list(&mut self) -> (r: Result<Vec<Stmt>, SyntaxError>)
        requires
            old(self).wf(),
        ensures
            final(self).wf(),
            final(self).toks() == old(self).toks(),
            match spec_stat_list(old(self).toks(), old(self).pos_spec()) {
                Ok((ss, p)) => r matches Ok(stmts) && stmts_view(stmts@) == ss && final(self).pos_spec() == p && old(self).pos_spec() <= p,
                Err(se) => r matches Err(er) && er@ == se,
            },
        decreases old(self).toks().len() - old(self).pos_spec(), 9int,
    {
        let ghost toks = self.toks();
        let ghost pos0 = self.pos_spec();
        let mut stmts: Vec<Stmt> = Vec::new();
        proof {
            assert(stmts_view(stmts@) =~= Seq::<SpecStmt>::empty());
        }
        while self.at_statement()
            invariant
                self.wf(),
                toks == old(self).toks(),
                pos0 == old(self).pos_spec(),
                self.toks() == toks,
                pos0 <= self.pos_spec(),
                spec_stat_list(toks, pos0) == stmts_compose(
                    stmts_view(stmts@),
                    spec_stat_list(toks, self.pos_spec()),
                ),
            decreases toks.len() - self.pos_spec(),
        {
            let s = match self.statement() {
                Ok(s) => s,
                Err(e) => {
                    return Err(e);
                },
            };
            proof {
                let ghost pre = stmts_view(stmts@);
                crate::ast::lemma_stmts_view_push(stmts@, s);
                if spec_stat_list(toks, self.pos_spec()) is Ok {
                    let (ss, q) = spec_stat_list(toks, self.pos_spec())->Ok_0;
                    assert(pre + (seq![stmt_view(s)] + ss) =~= pre.push(stmt_view(s)) + ss);
                }
            }
            stmts.push(s);
        }
        proof {
            assert(stmts_view(stmts@) + Seq::<SpecStmt>::empty() =~= stmts_view(stmts@));
        }
        Ok(stmts)
    }

    /// One statement, dispatched on its first token (and, for an
    /// assignment, on the token after the identifier, which is not consumed
    /// before the look-ahead): exactly [`spec_statement`] at the cursor.
    #[verifier::rlimit(60)]
    fn statement(&mut self) -> (r: Result<Stmt, SyntaxError>)
        requires
            old(self).wf(),
        ensures
            final(self).wf(),
            final(self).toks() == old(self).toks(),
            match spec_statement(old(self).toks(), old(self).pos_spec()) {
                Ok((s, p)) => r matches Ok(st) && stmt_view(st) == s && final(self).pos_spec() == p
                    && old(self).pos_spec() < p,
                Err(se) => r matches Err(er) && er@ == se,
            },
        decreases old(self).toks().len() - old(self).pos_spec(), 8int,
    {
        if self.is_match(TokenKind::While) {
            self.call_while()
        } else if self.is_match(TokenKind::If) {
            self.call_if()
        } else if self.is_match(TokenKind::Break) {
            let _ = match self.take1(TokenKind::Break) {
                Ok(t) => t,
                Err(e) => {
                    return Err(e);
                },
            };
            let _ = match self.take1(TokenKind::Semicolon) {
                Ok(t) => t,
                Err(e) => {
                    return Err(e);
                },
            };
            Ok(Stmt::Break)
        } else if self.is_match(TokenKind::Return) {
            let _ = match self.take1(TokenKind::Return) {
                Ok(t) => t,
                Err(e) => {
                    return Err(e);
                },
            };
            if self.is_match(TokenKind::Semicolon) {
                let _ = match self.take1(TokenKind::Semicolon) {
                    Ok(t) => t,
                    Err(e) => {
                        return Err(e);
                    },
                };
                Ok(Stmt::Return(None))
            } else {
                let e = match self.relation() {
                    Ok(e) => e,
                    Err(e) => {
                        return Err(e);
                    },
                };
                let _ = match self.take1(TokenKind::Semicolon) {
                    Ok(t) => t,
                    Err(e) => {
                        return Err(e);
                    },
                };
                Ok(Stmt::Return(Some(e)))
            }
        } else if self.is_match(TokenKind::Ident) && self.is_match_next(TokenKind::Assign) {
            let name = match self.take1(TokenKind::Ident) {
                Ok(t) => t,
                Err(e) => {
                    return Err(e);
                },
            };
            let _ = match self.take1(TokenKind::Assign) {
                Ok(t) => t,
                Err(e) => {
                    return Err(e);
                },
            };
            let e = match self.relation() {
                Ok(e) => e,
                Err(e) => {
                    return Err(e);
                },
            };
            let _ = match self.take1(TokenKind::Semicolon) {
                Ok(t) => t,
                Err(e) => {
                    return Err(e);
                },
            };
            Ok(Stmt::Assign(name.value, e))
        } else {
            let e = match self.relation() {
                Ok(e) => e,
                Err(e) => {
                    return Err(e);
                },
            };
            let _ = match self.take1(TokenKind::Semicolon) {
                Ok(t) => t,
                Err(e) => {
                    return Err(e);
                },
            };
            Ok(Stmt::Expr(e))
        }
    }

    /// `While := 'while' '(' Expr ')' '{' Stmt* '}'`: exactly
    /// [`spec_call_while`] at the cursor.
    #[verifier::rlimit(60)]
    fn call_while(&mut self) -> (r: Result<Stmt, SyntaxError>)
        requires
            old(self).wf(),
        ensures
            final(self).wf(),
            final(self).toks() == old(self).toks(),
            match spec_call_while(old(self).toks(), old(self).pos_spec()) {
                Ok((s, p)) => r matches Ok(st) && stmt_view(st) == s && final(self).pos_spec() == p
                    && old(self).pos_spec() < p,
                Err(se) => r matches Err(er) && er@ == se,
            },
        decreases old(self).toks().len() - old(self).pos_spec(), 7int,
    {
        let _ = match self.take1(TokenKind::While) {
            Ok(t) => t,
            Err(e) => {
                return Err(e);
            },
        };
        let _ = match self.take1(TokenKind::ParenthesOpen) {
            Ok(t) => t,
            Err(e) => {
                return Err(e);
            },
        };
        let cond = match self.relation() {
            Ok(e) => e,
            Err(e) => {
                return Err(e);
            },
        };
        let _ = match self.take1(TokenKind::ParenthesClose) {
            Ok(t) => t,
            Err(e) => {
                return Err(e);
            },
        };
        let _ = match self.take1(TokenKind::Begin) {
            Ok(t) => t,
            Err(e) => {
                return Err(e);
            },
        };
        let body = match self.stat_list() {
            Ok(ss) => ss,
            Err(e) => {
                return Err(e);
            },
        };
        let _ = match self.take1(TokenKind::End) {
            Ok(t) => t,
            Err(e) => {
                return Err(e);
            },
        };
        Ok(Stmt::While(cond, body))
    }

    /// `If := 'if' '(' Expr ')' '{' Stmt* '}' ('else' (If | '{' Stmt* '}'))?`:
    /// exactly [`spec_call_if`] at the cursor.
    #[verifier::rlimit(60)]
    fn call_if(&mut self) -> (r: Result<Stmt, SyntaxError>)
        requires
            old(self).wf(),
        ensures
            final(self).wf(),
            final(self).toks() == old(self).toks(),
            match spec_call_if(old(self).toks(), old(self).pos_spec()) {
                Ok((s, p)) => r matches Ok(st) && stmt_view(st) == s && final(self).pos_spec() == p
                    && old(self).pos_spec() < p,
                Err(se) => r matches Err(er) && er@ == se,
            },
        decreases old(self).toks().len() - old(self).pos_spec(), 7int,
    {
        let ghost pos0 = self.pos_spec();
        let _ = match self.take1(TokenKind::If) {
            Ok(t) => t,
            Err(e) => {
                return Err(e);
            },
        };
        let _ = match self.take1(TokenKind::ParenthesOpen) {
            Ok(t) => t,
            Err(e) => {
                return Err(e);
            },
        };
        let cond = match self.relation() {
            Ok(e) => e,
            Err(e) => {
                return Err(e);
            },
        };
        let _ = match self.take1(TokenKind::ParenthesClose) {
            Ok(t) => t,
            Err(e) => {
                return Err(e);
            },
        };
        let _ = match self.take1(TokenKind::Begin) {
            Ok(t) => t,
            Err(e) => {
                return Err(e);
            },
        };
        let thn = match self.stat_list() {
            Ok(ss) => ss,
            Err(e) => {
                return Err(e);
            },
        };
        let _ = match self.take1(TokenKind::End) {
            Ok(t) => t,
            Err(e) => {
                return Err(e);
            },
        };
        if self.is_match(TokenKind::Else) {
            let _ = match self.take1(TokenKind::Else) {
                Ok(t) => t,
                Err(e) => {
                    return Err(e);
                },
            };
            if self.is_match(TokenKind::If) {
                let elif = match self.call_if() {
                    Ok(s) => s,
                    Err(e) => {
                        return Err(e);
                    },
                };
                proof {
                    assert(seq![elif].drop_first() =~= Seq::<Stmt>::empty());
                    assert(stmts_view(Seq::<Stmt>::empty()) == Seq::<SpecStmt>::empty());
                    assert(stmts_view(seq![elif]) =~= seq![stmt_view(elif)]);
                }
                let mut els: Vec<Stmt> = Vec::new();
                els.push(elif);
                Ok(Stmt::If(cond, thn, els))
            } else {
                let _ = match self.take1(TokenKind::Begin) {
                    Ok(t) => t,
                    Err(e) => {
                        return Err(e);
                    },
                };
                let els = match self.stat_list() {
                    Ok(ss) => ss,
                    Err(e) => {
                        return Err(e);
                    },
                };
                let _ = match self.take1(TokenKind::End) {
                    Ok(t) => t,
                    Err(e) => {
                        return Err(e);
                    },
                };
                Ok(Stmt::If(cond, thn, els))
            }
        } else {
            proof {
                assert(stmts_view(Seq::<Stmt>::empty()) =~= Seq::<SpecStmt>::empty());
            }
            Ok(Stmt::If(cond, thn, Vec::new()))
        }
    }

    /// The rest of a call whose name token is already consumed:
    /// `'(' ArgList? ')'`: exactly [`spec_call_func`] at the cursor.
    #[verifier::rlimit(60)]
    fn call_func(&mut self, name: Token) -> (r: Result<Expr, SyntaxError>)
        requires
            old(self).wf(),
        ensures
            final(self).wf(),
            final(self).toks() == old(self).toks(),
            match spec_call_func(old(self).toks(), old(self).pos_spec(), name@.text) {
                Ok((e, p)) => r matches Ok(ex) && expr_view(ex) == e && final(self).pos_spec() == p
                    && old(self).pos_spec() < p,
                Err(se) => r matches Err(er) && er@ == se,
            },
        decreases old(self).toks().len() - old(self).pos_spec(), 6int,
    {
        let _ = match self.take1(TokenKind::ParenthesOpen) {
            Ok(t) => t,
            Err(e) => {
                return Err(e);
            },
        };
        if self.is_match(TokenKind::ParenthesClose) {
            let _ = match self.take1(TokenKind::ParenthesClose) {
                Ok(t) => t,
                Err(e) => {
                    return Err(e);
                },
            };
            proof {
                assert(exprs_view(Seq::<Expr>::empty()) =~= Seq::<SpecExpr>::empty());
            }
            Ok(Expr::Call(name.value, Vec::new()))
        } else {
            let args = match self.call_args() {
                Ok(es) => es,
                Err(e) => {
                    return Err(e);
                },
            };
            let _ = match self.take1(TokenKind::ParenthesClose) {
                Ok(t) => t,
                Err(e) => {
                    return Err(e);
                },
            };
            Ok(Expr::Call(name.value, args))
        }
    }

    /// `ArgList := Expr (',' Expr)*`: exactly [`spec_call_args`] at the
    /// cursor.
    #[verifier::rlimit(60)]
    fn call_args(&mut self) -> (r: Result<Vec<Expr>, SyntaxError>)
        requires
            old(self).wf(),
        ensures
            final(self).wf(),
            final(self).toks() == old(self).toks(),
            match spec_call_args(old(self).toks(), old(self).pos_spec()) {
                Ok((es, p)) => r matches Ok(args) && exprs_view(args@) == es && final(self).pos_spec() == p && old(self).pos_spec() < p,
                Err(se) => r matches Err(er) && er@ == se,
            },
        decreases old(self).toks().len() - old(self).pos_spec(), 5int,
    {
        let ghost toks = self.toks();
        let ghost pos0 = self.pos_spec();
        let first = match self.relation() {
            Ok(e) => e,
            Err(e) => {
                return Err(e);
            },
        };
        let mut args: Vec<Expr> = Vec::new();
        proof {
            assert(args@.push(first).drop_first() =~= Seq::<Expr>::empty());
            assert(exprs_view(Seq::<Expr>::empty()) == Seq::<SpecExpr>::empty());
            assert(args@.push(first)[0] == first);
            assert(exprs_view(args@.push(first)) =~= seq![expr_view(first)]);
        }
        args.push(first);
        while self.is_match(TokenKind::Comma)
            invariant
                self.wf(),
                toks == old(self).toks(),
                pos0 == old(self).pos_spec(),
                self.toks() == toks,
                pos0 < self.pos_spec(),
                spec_call_args(toks, pos0) == spec_args_rest(
                    toks,
                    self.pos_spec(),
                    exprs_view(args@),
                ),
            decreases toks.len() - self.pos_spec(),
        {
            let _ = match self.take1(TokenKind::Comma) {
                Ok(t) => t,
                Err(e) => {
                    return Err(e);
                },
            };
            let e = match self.relation() {
                Ok(e) => e,
                Err(e) => {
                    return Err(e);
                },
            };
            proof {
                crate::ast::lemma_exprs_view_push(args@, e);
            }
            args.push(e);
        }
        Ok(args)
    }

    /// `Expr := Add (RelOp Add)?`: exactly [`spec_relation`] at the cursor.
    #[verifier::rlimit(60)]
    fn relation(&mut self) -> (r: Result<Expr, SyntaxError>)
        requires
            old(self).wf(),
        ensures
            final(self).wf(),
            final(self).toks() == old(self).toks(),
            match spec_relation(old(self).toks(), old(self).pos_spec()) {
                Ok((e, p)) => r matches Ok(ex) && expr_view(ex) == e && final(self).pos_spec() == p
                    && old(self).pos_spec() < p,
                Err(se) => r matches Err(er) && er@ == se,
            },
        decreases old(self).toks().len() - old(self).pos_spec(), 4int,
    {
        let lhs = match self.expr() {
            Ok(e) => e,
            Err(e) => {
                return Err(e);
            },
        };
        if self.is_match(TokenKind::OpRel) {
            let t = match self.take1(TokenKind::OpRel) {
                Ok(t) => t,
                Err(e) => {
                    return Err(e);
                },
            };
            let op = if str_eq_str(t.value.as_str(), "==") {
                BinOp::Eq
            } else if str_eq_str(t.value.as_str(), "!=") {
                BinOp::Ne
            } else if str_eq_str(t.value.as_str(), "<") {
                BinOp::Lt
            } else if str_eq_str(t.value.as_str(), "<=") {
                BinOp::Le
            } else if str_eq_str(t.value.as_str(), ">") {
                BinOp::Gt
            } else {
                BinOp::Ge
            };
            let rhs = match self.expr() {
                Ok(e) => e,
                Err(e) => {
                    return Err(e);
                },
            };
            Ok(Expr::Binary(op, Box::new(lhs), Box::new(rhs)))
        } else {
            Ok(lhs)
        }
    }

    /// `Add := Mul (('+'|'-') Mul)*`: exactly [`spec_add`] at the cursor.
    #[verifier::rlimit(60)]
    fn expr(&mut self) -> (r: Result<Expr, SyntaxError>)
        requires
            old(self).wf(),
        ensures
            final(self).wf(),
            final(self).toks() == old(self).toks(),
            match spec_add(old(self).toks(), old(self).pos_spec()) {
                Ok((e, p)) => r matches Ok(ex) && expr_view(ex) == e && final(self).pos_spec() == p
                    && old(self).pos_spec() < p,
                Err(se) => r matches Err(er) && er@ == se,
            },
        decreases old(self).toks().len() - old(self).pos_spec(), 3int,
    {
        let ghost toks = self.toks();
        let ghost pos0 = self.pos_spec();
        let mut lhs = match self.term() {
            Ok(e) => e,
            Err(e) => {
                return Err(e);
            },
        };
        while self.is_match(TokenKind::OpAdd)
            invariant
                self.wf(),
                toks == old(self).toks(),
                pos0 == old(self).pos_spec(),
                self.toks() == toks,
                pos0 < self.pos_spec(),
                spec_add(toks, pos0) == spec_add_rest(toks, self.pos_spec(), expr_view(lhs)),
            decreases toks.len() - self.pos_spec(),
        {
            let t = match self.take1(TokenKind::OpAdd) {
                Ok(t) => t,
                Err(e) => {
                    return Err(e);
                },
            };
            let op = if str_eq_str(t.value.as_str(), "+") {
                BinOp::Add
            } else {
                BinOp::Sub
            };
            let rhs = match self.term() {
                Ok(e) => e,
                Err(e) => {
                    return Err(e);
                },
            };
            lhs = Expr::Binary(op, Box::new(lhs), Box::new(rhs));
        }
        Ok(lhs)
    }

    /// `Mul := Unary (('*'|'/'|'%') Unary)*`: exactly [`spec_term`] at the
    /// cursor.
    #[verifier::rlimit(60)]
    fn term(&mut self) -> (r: Result<Expr, SyntaxError>)
        requires
            old(self).wf(),
        ensures
            final(self).wf(),
            final(self).toks() == old(self).toks(),
            match spec_term(old(self).toks(), old(self).pos_spec()) {
                Ok((e, p)) => r matches Ok(ex) && expr_view(ex) == e && final(self).pos_spec() == p
                    && old(self).pos_spec() < p,
                Err(se) => r matches Err(er) && er@ == se,
            },
        decreases old(self).toks().len() - old(self).pos_spec(), 2int,
    {
        let ghost toks = self.toks();
        let ghost pos0 = self.pos_spec();
        let mut lhs = match self.factor() {
            Ok(e) => e,
            Err(e) => {
                return Err(e);
            },
        };
        while self.is_match(TokenKind::OpMul)
            invariant
                self.wf(),
                toks == old(self).toks(),
                pos0 == old(self).pos_spec(),
                self.toks() == toks,
                pos0 < self.pos_spec(),
                spec_term(toks, pos0) == spec_term_rest(toks, self.pos_spec(), expr_view(lhs)),
            decreases toks.len() - self.pos_spec(),
        {
            let t = match self.take1(TokenKind::OpMul) {
                Ok(t) => t,
                Err(e) => {
                    return Err(e);
                },
            };
            let op = if str_eq_str(t.value.as_str(), "*") {
                BinOp::Mul
            } else if str_eq_str(t.value.as_str(), "/") {
                BinOp::Div
            } else {
                BinOp::Mod
            };
            let rhs = match self.factor() {
                Ok(e) => e,
                Err(e) => {
                    return Err(e);
                },
            };
            lhs = Expr::Binary(op, Box::new(lhs), Box::new(rhs));
        }
        Ok(lhs)
    }

    /// `Unary := '(' Expr ')' | Literal-or-Call`: exactly [`spec_factor`] at
    /// the cursor.
    #[verifier::rlimit(60)]
    fn factor(&mut self) -> (r: Result<Expr, SyntaxError>)
        requires
            old(self).wf(),
        ensures
            final(self).wf(),
            final(self).toks() == old(self).toks(),
            match spec_factor(old(self).toks(), old(self).pos_spec()) {
                Ok((e, p)) => r matches Ok(ex) && expr_view(ex) == e && final(self).pos_spec() == p
                    && old(self).pos_spec() < p,
                Err(se) => r matches Err(er) && er@ == se,
            },
        decreases old(self).toks().len() - old(self).pos_spec(), 1int,
    {
        if self.is_match(TokenKind::ParenthesOpen) {
            let _ = match self.take1(TokenKind::ParenthesOpen) {
                Ok(t) => t,
                Err(e) => {
                    return Err(e);
                },
            };
            let e = match self.relation() {
                Ok(e) => e,
                Err(e) => {
                    return Err(e);
                },
            };
            let _ = match self.take1(TokenKind::ParenthesClose) {
                Ok(t) => t,
                Err(e) => {
                    return Err(e);
                },
            };
            Ok(e)
        } else {
            self.literal()
        }
    }

    /// `Literal := Int | String | Bool | Ident`, an identifier followed by
    /// `(` committing to a call: exactly [`spec_literal`] at the cursor.
    #[verifier::rlimit(60)]
    fn literal(&mut self) -> (r: Result<Expr, SyntaxError>)
        requires
            old(self).wf(),
        ensures
            final(self).wf(),
            final(self).toks() == old(self).toks(),
            match spec_literal(old(self).toks(), old(self).pos_spec()) {
                Ok((e, p)) => r matches Ok(ex) && expr_view(ex) == e && final(self).pos_spec() == p
                    && old(self).pos_spec() < p,
                Err(se) => r matches Err(er) && er@ == se,
            },
        decreases old(self).toks().len() - old(self).pos_spec(), 0int,
    {
        let kinds = vec![TokenKind::Int, TokenKind::String, TokenKind::Bool, TokenKind::Ident];
        proof {
            assert(kinds@ =~= seq![
                TokenKind::Int,
                TokenKind::String,
                TokenKind::Bool,
                TokenKind::Ident,
            ]);
        }
        let t = match self.take(kinds) {
            Ok(t) => t,
            Err(e) => {
                return Err(e);
            },
        };
        match t.kind {
            TokenKind::Int => {
                let v = dec_value(t.value.as_str());
                Ok(Expr::Int(v as i64))
            },
            TokenKind::String => {
                let n = t.value.as_str().unicode_len();
                if n >= 2 {
                    let inner = t.value.as_str().substring_char(1, n - 1);
                    Ok(Expr::Str(inner.to_owned()))
                } else {
                    Ok(Expr::Str(std::string::String::new()))
                }
            },
            TokenKind::Bool => Ok(Expr::Bool(str_eq_str(t.value.as_str(), "true"))),
            _ => {
                if self.is_match(TokenKind::ParenthesOpen) {
                    self.call_func(t)
                } else {
                    Ok(Expr::Var(t.value))
                }
            },
        }
    }
}

/// The definitions of a successful program parse.
pub open spec fn lex_seq_fd(r: Result<(Seq<SpecFuncDef>, int), SpecSyntaxError>) -> Seq<
    SpecFuncDef,
> {
    match r {
        Ok((fs, _)) => fs,
        Err(_) => Seq::empty(),
    }
}

} // verus!
