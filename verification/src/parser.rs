//! The parser: a recursive-descent walk from tokens to the syntax tree,
//! first as a mathematical model, then as executable code proved to follow
//! it.  A parse fault is fatal and carries a diagnostic (message, line
//! number, line text); the caller prints it and stops.
//!
//! Grammar:
//! ```text
//! expression := true | false | integer | float | string | list | call | definition
//! list       := '[' expression* ']'
//! call       := identifier ('[' expression* ']')?
//! definition := identifier? ':' block
//! block      := (expression ';')*
//! ```
//! On an identifier, a definition is attempted first: an identifier
//! immediately followed by a colon is always a definition, anything else
//! falls back to a call.

use vstd::prelude::*;

use crate::encoding::{
    exprs_model,
    lemma_exprs_insert_front,
    tokens_model,
    Block,
    Call,
    Definition,
    ExprModel,
    Expression,
    List,
    Token,
    TokenModel,
    TokenValue,
    TokenValueModel,
};

verus! {

// ---------------------------------------------------------------------------
// Parse faults
// ---------------------------------------------------------------------------

/// A fatal parse diagnostic: the message, the 1-based line number (-1 at end
/// of input), and the text of the offending line.
#[derive(Debug)]
pub struct ParseFault {
    pub msg: String,
    pub lnum: isize,
    pub line: String,
}

/// Mathematical model of a `ParseFault`.
pub struct FaultModel {
    pub msg: Seq<char>,
    pub lnum: int,
    pub line: Seq<char>,
}

impl View for ParseFault {
    type V = FaultModel;

    open spec fn view(&self) -> FaultModel {
        FaultModel { msg: self.msg@, lnum: self.lnum as int, line: self.line@ }
    }
}

pub open spec fn fault_model(msg: Seq<char>, lnum: int, line: Seq<char>) -> FaultModel {
    FaultModel { msg, lnum, line }
}

pub open spec fn eof_fault() -> FaultModel {
    fault_model("unexpected end of file; statement unterminated"@, -1, "EOF"@)
}

/// Builds a parse diagnostic; the caller reports it and stops.
pub fn parse_error(msg: String, pos: isize, line: &String) -> (r: ParseFault)
    ensures
        r@ == fault_model(msg@, pos as int, line@),
{
    ParseFault { msg, lnum: pos, line: line.clone() }
}

// ---------------------------------------------------------------------------
// The grammar as a model
// ---------------------------------------------------------------------------

/// The token at a position, or the end-of-input fault.
pub open spec fn get_tok(toks: Seq<TokenModel>, i: int) -> Result<TokenModel, FaultModel> {
    if 0 <= i < toks.len() {
        Ok(toks[i])
    } else {
        Err(eof_fault())
    }
}

/// The next position of a forward walk, guarded so that the recursion
/// measure always falls.  The parser's positions do move forward and stay
/// within the tokens (the executable code proves it), so the guard never
/// actually changes a reachable position.
pub open spec fn forward(len: int, start: int, idx: int) -> int {
    let lo = if idx > start + 1 {
        idx
    } else {
        start + 1
    };
    if lo > len {
        len
    } else {
        lo
    }
}

/// A definition: `identifier? ':' block`.  `Ok((None, 0))` means "not a
/// definition here"; the caller falls back to a call.
pub open spec fn parse_def_model(toks: Seq<TokenModel>, start: int) -> Result<
    (Option<(Seq<char>, Seq<ExprModel>)>, int),
    FaultModel,
>
    decreases toks.len() - start, 1int,
{
    match get_tok(toks, start) {
        Err(f) => Err(f),
        Ok(t) => match t.value {
            TokenValueModel::Colon => match parse_block_model(toks, start + 1) {
                Err(f) => Err(f),
                Ok((b, idx)) => Ok((Some((Seq::empty(), b)), idx)),
            },
            TokenValueModel::ID(id) => match get_tok(toks, start + 1) {
                Err(f) => Err(f),
                Ok(t2) => match t2.value {
                    TokenValueModel::Colon => match parse_block_model(toks, start + 2) {
                        Err(f) => Err(f),
                        Ok((b, idx)) => Ok((Some((id, b)), idx)),
                    },
                    _ => Ok((None, 0)),
                },
            },
            _ => Ok((None, 0)),
        },
    }
}

/// A call: an identifier, optionally followed by a bracketed argument list;
/// a bare identifier is a call with no arguments.
pub open spec fn parse_call_model(toks: Seq<TokenModel>, start: int) -> Result<
    ((Seq<char>, Seq<ExprModel>), int),
    FaultModel,
>
    decreases toks.len() - start, 1int,
{
    match get_tok(toks, start) {
        Err(f) => Err(f),
        Ok(t) => match t.value {
            TokenValueModel::ID(id) => match get_tok(toks, start + 1) {
                Err(f) => Err(f),
                Ok(t2) => match t2.value {
                    TokenValueModel::OpenBracket => match parse_list_model(toks, start + 1) {
                        Err(f) => Err(f),
                        Ok((items, idx)) => Ok(((id, items), idx)),
                    },
                    _ => Ok(((id, Seq::empty()), start + 1)),
                },
            },
            _ => arbitrary(),
        },
    }
}

/// A list literal: the open bracket at `start`, then expressions to the
/// close bracket.
pub open spec fn parse_list_model(toks: Seq<TokenModel>, start: int) -> Result<
    (Seq<ExprModel>, int),
    FaultModel,
>
    decreases toks.len() - start, 1int,
{
    match get_tok(toks, start) {
        Err(f) => Err(f),
        Ok(_) => parse_list_items_model(toks, start + 1),
    }
}

/// The items of a list literal, up to and past the close bracket.
pub open spec fn parse_list_items_model(toks: Seq<TokenModel>, start: int) -> Result<
    (Seq<ExprModel>, int),
    FaultModel,
>
    decreases toks.len() - start, 3int,
{
    match get_tok(toks, start) {
        Err(f) => Err(f),
        Ok(t) => match t.value {
            TokenValueModel::CloseBracket => Ok((Seq::empty(), start + 1)),
            _ => match parse_next_model(toks, start) {
                Err(f) => Err(f),
                Ok((None, _)) => Err(
                    fault_model("expression or close bracket expected"@, t.lnum, t.line),
                ),
                Ok((Some(e), change)) => match parse_list_items_model(
                    toks,
                    forward(toks.len() as int, start, change),
                ) {
                    Err(f) => Err(f),
                    Ok((es, end)) => Ok((seq![e] + es, end)),
                },
            },
        },
    }
}

/// One expression, or `Ok((None, 0))` when the token at `start` begins no
/// production (which ends the enclosing block).
pub open spec fn parse_next_model(toks: Seq<TokenModel>, start: int) -> Result<
    (Option<ExprModel>, int),
    FaultModel,
>
    decreases toks.len() - start, 2int,
{
    match get_tok(toks, start) {
        Err(f) => Err(f),
        Ok(t) => match t.value {
            TokenValueModel::True => Ok((Some(ExprModel::True), start + 1)),
            TokenValueModel::False => Ok((Some(ExprModel::False), start + 1)),
            TokenValueModel::Integer(x) => Ok((Some(ExprModel::Integer(x)), start + 1)),
            TokenValueModel::Float(x) => Ok((Some(ExprModel::Float(x)), start + 1)),
            TokenValueModel::Text(s) => Ok((Some(ExprModel::Text(s)), start + 1)),
            TokenValueModel::OpenBracket => match parse_list_model(toks, start) {
                Err(f) => Err(f),
                Ok((items, idx)) => Ok((Some(ExprModel::List(items)), idx)),
            },
            TokenValueModel::ID(_) => match parse_def_model(toks, start) {
                Err(f) => Err(f),
                Ok((Some((id, body)), idx)) => Ok(
                    (Some(ExprModel::Definition { id, body }), idx - 1),
                ),
                Ok((None, _)) => match parse_call_model(toks, start) {
                    Err(f) => Err(f),
                    Ok(((id, args), idx)) => Ok((Some(ExprModel::Call { id, args }), idx)),
                },
            },
            TokenValueModel::Colon => match parse_def_model(toks, start) {
                Err(f) => Err(f),
                Ok((Some((id, body)), idx)) => Ok(
                    (Some(ExprModel::Definition { id, body }), idx - 1),
                ),
                Ok((None, _)) => Err(
                    fault_model(
                        "expected function definition after colon, didn't get one"@,
                        t.lnum,
                        t.line,
                    ),
                ),
            },
            _ => Ok((None, 0)),
        },
    }
}

/// A block: expressions each followed by a semicolon, up to and past the
/// first token that begins no expression.
pub open spec fn parse_block_model(toks: Seq<TokenModel>, start: int) -> Result<
    (Seq<ExprModel>, int),
    FaultModel,
>
    decreases toks.len() - start, 3int,
{
    match get_tok(toks, start) {
        Err(f) => Err(f),
        Ok(_) => match parse_next_model(toks, start) {
        Err(f) => Err(f),
        Ok((None, _)) => Ok((Seq::empty(), start + 1)),
        Ok((Some(e), idx)) => {
            match get_tok(toks, idx) {
                Err(f) => Err(f),
                Ok(t) => match t.value {
                    TokenValueModel::Semicolon => match parse_block_model(
                        toks,
                        forward(toks.len() as int, start, idx + 1),
                    ) {
                        Err(f) => Err(f),
                        Ok((es, end)) => Ok((seq![e] + es, end)),
                    },
                    _ => Err(fault_model("semicolon expected after expression"@, t.lnum, t.line)),
                },
            }
        },
        },
    }
}

/// A whole program: the root block, which must consume every token.
pub open spec fn parse_model(toks: Seq<TokenModel>) -> Result<Seq<ExprModel>, FaultModel> {
    match parse_block_model(toks, 0) {
        Err(f) => Err(f),
        Ok((es, idx)) => {
            if idx < toks.len() {
                Err(fault_model("syntax error, unexpected token"@, toks[idx].lnum, toks[idx].line))
            } else {
                Ok(es)
            }
        },
    }
}

// ---------------------------------------------------------------------------
// The executable parser
// ---------------------------------------------------------------------------

/// The token at a position, or the end-of-input fault.
fn get_token(tokens: &Vec<Token>, start: usize) -> (r: Result<&Token, ParseFault>)
    ensures
        match get_tok(tokens_model(tokens@), start as int) {
            Ok(tm) => r matches Ok(t) && t@ == tm && start < tokens@.len(),
            Err(fm) => r matches Err(f) && f@ == fm,
        },
{
    if start >= tokens.len() {
        Err(
            parse_error(
                String::from_str("unexpected end of file; statement unterminated"),
                -1,
                &String::from_str("EOF"),
            ),
        )
    } else {
        Ok(&tokens[start])
    }
}

fn parse_definition(tokens: &Vec<Token>, start: usize) -> (r: Result<
    (Option<Definition>, usize),
    ParseFault,
>)
    ensures
        ({
            let m = parse_def_model(tokens_model(tokens@), start as int);
            match r {
                Ok((od, pos)) => match od {
                    Some(d) => m == Ok::<_, FaultModel>(
                        (Some((d.id@, d.block@)), pos as int),
                    ) && start + 1 < pos <= tokens@.len(),
                    None => m == Ok::<_, FaultModel>(
                        (None::<(Seq<char>, Seq<ExprModel>)>, 0int),
                    ) && pos == 0,
                },
                Err(f) => m == Err::<(Option<(Seq<char>, Seq<ExprModel>)>, int), _>(f@),
            }
        }),
    decreases tokens@.len() - start, 1int,
{
    // Binds the token count to a machine word, for the index arithmetic.
    let _len: usize = tokens.len();
    let t = match get_token(tokens, start) {
        Ok(t) => t,
        Err(f) => {
            return Err(f);
        },
    };
    match &t.value {
        TokenValue::Colon => match parse_block(tokens, start + 1) {
            Err(f) => Err(f),
            Ok((block, index)) => Ok((Some(Definition { id: String::new(), block }), index)),
        },
        TokenValue::ID(id) => {
            let t2 = match get_token(tokens, start + 1) {
                Ok(t2) => t2,
                Err(f) => {
                    return Err(f);
                },
            };
            match &t2.value {
                TokenValue::Colon => match parse_block(tokens, start + 2) {
                    Err(f) => Err(f),
                    Ok((block, change)) => Ok((Some(Definition { id: id.clone(), block }), change)),
                },
                _ => Ok((None, 0)),
            }
        },
        _ => Ok((None, 0)),
    }
}

fn parse_call(tokens: &Vec<Token>, start: usize) -> (r: Result<(Call, usize), ParseFault>)
    requires
        start < tokens@.len(),
        tokens@[start as int].value is ID,
    ensures
        ({
            let m = parse_call_model(tokens_model(tokens@), start as int);
            match r {
                Ok((c, pos)) => m == Ok::<_, FaultModel>(((c.id@, c.param@), pos as int)) && start
                    < pos <= tokens@.len(),
                Err(f) => m == Err::<((Seq<char>, Seq<ExprModel>), int), _>(f@),
            }
        }),
    decreases tokens@.len() - start, 1int,
{
    // Binds the token count to a machine word, for the index arithmetic.
    let _len: usize = tokens.len();
    let id = match &tokens[start].value {
        TokenValue::ID(s) => s.clone(),
        _ => {
            proof {
                assert(false);
            }
            String::new()
        },
    };
    let t2 = match get_token(tokens, start + 1) {
        Ok(t2) => t2,
        Err(f) => {
            return Err(f);
        },
    };
    match &t2.value {
        TokenValue::OpenBracket => match parse_list(tokens, start + 1) {
            Err(f) => Err(f),
            Ok((list, change)) => Ok((Call { id, param: list }, change)),
        },
        _ => {
            let empty = List { items: Vec::new() };
            proof {
                assert(empty@ =~= Seq::<ExprModel>::empty());
            }
            Ok((Call { id, param: empty }, start + 1))
        },
    }
}

fn parse_list(tokens: &Vec<Token>, start: usize) -> (r: Result<(List, usize), ParseFault>)
    ensures
        ({
            let m = parse_list_model(tokens_model(tokens@), start as int);
            match r {
                Ok((l, pos)) => m == Ok::<_, FaultModel>((l@, pos as int)) && start < pos
                    <= tokens@.len(),
                Err(f) => m == Err::<(Seq<ExprModel>, int), _>(f@),
            }
        }),
    decreases tokens@.len() - start, 1int,
{
    // Binds the token count to a machine word, for the index arithmetic.
    let _len: usize = tokens.len();
    match get_token(tokens, start) {
        Err(f) => Err(f),
        Ok(_) => match parse_list_items(tokens, start + 1) {
            Err(f) => Err(f),
            Ok((items, pos)) => Ok((List { items }, pos)),
        },
    }
}

fn parse_list_items(tokens: &Vec<Token>, start: usize) -> (r: Result<
    (Vec<Expression>, usize),
    ParseFault,
>)
    ensures
        ({
            let m = parse_list_items_model(tokens_model(tokens@), start as int);
            match r {
                Ok((es, pos)) => m == Ok::<_, FaultModel>((exprs_model(es@), pos as int)) && start
                    < pos <= tokens@.len(),
                Err(f) => m == Err::<(Seq<ExprModel>, int), _>(f@),
            }
        }),
    decreases tokens@.len() - start, 3int,
{
    // Binds the token count to a machine word, for the index arithmetic.
    let _len: usize = tokens.len();
    let ghost tm = tokens_model(tokens@);
    let t = match get_token(tokens, start) {
        Ok(t) => t,
        Err(f) => {
            return Err(f);
        },
    };
    if matches!(&t.value, TokenValue::CloseBracket) {
        let es: Vec<Expression> = Vec::new();
        proof {
            assert(exprs_model(es@) =~= Seq::<ExprModel>::empty());
        }
        Ok((es, start + 1))
    } else {
        match parse_next_expression(tokens, start) {
            Err(f) => Err(f),
            Ok((None, _)) => Err(
                parse_error(
                    String::from_str("expression or close bracket expected"),
                    t.lnum,
                    &t.line,
                ),
            ),
            Ok((Some(e), change)) => {
                proof {
                    assert(forward(tm.len() as int, start as int, change as int) == change as int);
                }
                match parse_list_items(tokens, change) {
                    Err(f) => Err(f),
                    Ok((mut es, end)) => {
                        let ghost pre = es@;
                        es.insert(0, e);
                        proof {
                            lemma_exprs_insert_front(pre, e);
                        }
                        Ok((es, end))
                    },
                }
            },
        }
    }
}

fn parse_next_expression(tokens: &Vec<Token>, start: usize) -> (r: Result<
    (Option<Expression>, usize),
    ParseFault,
>)
    ensures
        ({
            let m = parse_next_model(tokens_model(tokens@), start as int);
            match r {
                Ok((oe, pos)) => match oe {
                    Some(e) => m == Ok::<_, FaultModel>((Some(e@), pos as int)) && start < pos
                        <= tokens@.len(),
                    None => m == Ok::<_, FaultModel>((None::<ExprModel>, 0int)) && pos == 0,
                },
                Err(f) => m == Err::<(Option<ExprModel>, int), _>(f@),
            }
        }),
    decreases tokens@.len() - start, 2int,
{
    // Binds the token count to a machine word, for the index arithmetic.
    let _len: usize = tokens.len();
    let ghost tm = tokens_model(tokens@);
    let t = match get_token(tokens, start) {
        Ok(t) => t,
        Err(f) => {
            return Err(f);
        },
    };
    match &t.value {
        TokenValue::True => Ok((Some(Expression::True), start + 1)),
        TokenValue::False => Ok((Some(Expression::False), start + 1)),
        TokenValue::Integer(x) => Ok((Some(Expression::Integer(*x)), start + 1)),
        TokenValue::Float(x) => Ok((Some(Expression::Float(*x)), start + 1)),
        TokenValue::Text(s) => Ok((Some(Expression::Text(s.clone())), start + 1)),
        TokenValue::OpenBracket => match parse_list(tokens, start) {
            Err(f) => Err(f),
            Ok((list, index)) => Ok((Some(Expression::List(list)), index)),
        },
        TokenValue::ID(_) => match parse_definition(tokens, start) {
            Err(f) => Err(f),
            Ok((Some(def), index)) => Ok((Some(Expression::Definition(def)), index - 1)),
            Ok((None, _)) => match parse_call(tokens, start) {
                Err(f) => Err(f),
                Ok((call, index)) => Ok((Some(Expression::Call(call)), index)),
            },
        },
        TokenValue::Colon => match parse_definition(tokens, start) {
            Err(f) => Err(f),
            Ok((Some(def), index)) => Ok((Some(Expression::Definition(def)), index - 1)),
            Ok((None, _)) => Err(
                parse_error(
                    String::from_str("expected function definition after colon, didn't get one"),
                    t.lnum,
                    &t.line,
                ),
            ),
        },
        _ => Ok((None, 0)),
    }
}

fn parse_block(tokens: &Vec<Token>, start: usize) -> (r: Result<(Block, usize), ParseFault>)
    ensures
        ({
            let m = parse_block_model(tokens_model(tokens@), start as int);
            match r {
                Ok((b, pos)) => m == Ok::<_, FaultModel>((b@, pos as int)) && start < pos
                    <= tokens@.len(),
                Err(f) => m == Err::<(Seq<ExprModel>, int), _>(f@),
            }
        }),
    decreases tokens@.len() - start, 3int,
{
    // Binds the token count to a machine word, for the index arithmetic.
    let _len: usize = tokens.len();
    let ghost tm = tokens_model(tokens@);
    match parse_next_expression(tokens, start) {
        Err(f) => Err(f),
        Ok((None, _)) => {
            let b = Block { expressions: Vec::new() };
            proof {
                assert(b@ =~= Seq::<ExprModel>::empty());
            }
            Ok((b, start + 1))
        },
        Ok((Some(e), index)) => {
            let check = match get_token(tokens, index) {
                Ok(t) => t,
                Err(f) => {
                    return Err(f);
                },
            };
            if matches!(&check.value, TokenValue::Semicolon) {
                proof {
                    assert(forward(tm.len() as int, start as int, index + 1) == index + 1);
                }
                match parse_block(tokens, index + 1) {
                    Err(f) => Err(f),
                    Ok((b, end)) => {
                        let mut es = b.expressions;
                        let ghost pre = es@;
                        es.insert(0, e);
                        proof {
                            lemma_exprs_insert_front(pre, e);
                        }
                        Ok((Block { expressions: es }, end))
                    },
                }
            } else {
                Err(
                    parse_error(
                        String::from_str("semicolon expected after expression"),
                        check.lnum,
                        &check.line,
                    ),
                )
            }
        },
    }
}

/// Parses a whole program: the root block, which must consume every token.
pub fn parse(tokens: &Vec<Token>) -> (r: Result<Block, ParseFault>)
    ensures
        ({
            let m = parse_model(tokens_model(tokens@));
            match r {
                Ok(b) => m == Ok::<_, FaultModel>(b@),
                Err(f) => m == Err::<Seq<ExprModel>, _>(f@),
            }
        }),
{
    match parse_block(tokens, 0) {
        Err(f) => Err(f),
        Ok((block, index)) => {
            if index < tokens.len() {
                Err(
                    parse_error(
                        String::from_str("syntax error, unexpected token"),
                        tokens[index].lnum,
                        &tokens[index].line,
                    ),
                )
            } else {
                Ok(block)
            }
        },
    }
}

} // verus!
