//! The grammar that the parser recognises, as spec functions over the token
//! stream.
//!
//! Each function takes the tokens and the index of the current token and
//! gives back the index of the token that becomes current afterwards, with
//! what was recognised there. Reading stops at the first error, and the index
//! that comes back with an error is the index the parser stood at when it
//! gave up. `Unsupported` marks the inputs that the grammar leaves unfinished:
//! an expression that starts with a token that no expression starts with.
//!
//! A few branches are marked "never taken": they guard a recursion on the
//! condition that the recursion has moved forward, which `lemma_*_progress`
//! proves always holds.
use vstd::prelude::*;
use crate::token::{Token, TokenKind, kind_at, span_at, step, any_name_of, namespace_name_of, plain_name_of, variable_name_of};
use crate::ast::{TypeModel, ExprModel, ArrayItemModel, ParamModel, UseModel, StmtModel, InfixOp};
use crate::error::{ParseError, ErrorModel};

verus! {

/// What one grammar rule gives back at the position where it stops.
pub enum Outcome<A> {
    /// The rule matched, with this result.
    Parsed(A),
    /// The input does not match the rule.
    Failed(ErrorModel),
    /// The input reaches a construct that the grammar does not cover.
    Unsupported,
}

/// The outcome of a rule that did not match, passed on by a rule around it.
pub open spec fn relay<A, B>(o: Outcome<A>) -> Outcome<B> {
    match o {
        Outcome::Failed(e) => Outcome::Failed(e),
        _ => Outcome::Unsupported,
    }
}

/// The outcome that a parser call that returned `r` stands for.
pub open spec fn outcome_of<A, M>(r: Result<A, ParseError>, model: spec_fn(A) -> M) -> Outcome<M> {
    match r {
        Ok(v) => Outcome::Parsed(model(v)),
        Err(e) => Outcome::Failed(e.model()),
    }
}

/// The error for a missing token, located at the token found instead.
pub open spec fn expected(toks: Seq<Token>, p: int, message: Seq<char>) -> ErrorModel {
    ErrorModel::ExpectedToken(message, span_at(toks, p))
}

/// Consume a name at `p`, where `name` is the name that the token there offers.
pub open spec fn expect_name(toks: Seq<Token>, p: int, name: Option<Seq<char>>, message: Seq<char>) -> (int, Outcome<Seq<char>>) {
    match name {
        Some(s) => (step(toks, p), Outcome::Parsed(s)),
        None => (p, Outcome::Failed(expected(toks, p, message))),
    }
}

/// Consume the token at `p`, where `found` says whether it is the one required.
pub open spec fn expect_token(toks: Seq<Token>, p: int, found: bool, message: Seq<char>) -> (int, Outcome<()>) {
    if found {
        (step(toks, p), Outcome::Parsed(()))
    } else {
        (p, Outcome::Failed(expected(toks, p, message)))
    }
}

// ---------------------------------------------------------------------------
// Types
// ---------------------------------------------------------------------------

/// Whether `k` separates the members of a union (`pipe`) or of an intersection.
pub open spec fn is_type_separator(k: TokenKind, pipe: bool) -> bool {
    if pipe {
        k is Pipe
    } else {
        k is Ampersand
    }
}

/// The further names of a union or intersection type, after the first separator.
/// A name is followed by a separator only where the list stops.
pub open spec fn parse_type_names(toks: Seq<Token>, p: int, pipe: bool, acc: Seq<Seq<char>>) -> (int, Outcome<Seq<Seq<char>>>)
    decreases toks.len() - p,
{
    if kind_at(toks, p) is Eof {
        (p, Outcome::Parsed(acc))
    } else {
        match any_name_of(kind_at(toks, p)) {
            None => (p, Outcome::Failed(expected(toks, p, "expected identifier"@))),
            Some(name) => {
                let q = step(toks, p);
                if is_type_separator(kind_at(toks, q), pipe) {
                    parse_type_names(toks, q, pipe, acc.push(name))
                } else {
                    (q, Outcome::Parsed(acc.push(name)))
                }
            },
        }
    }
}

/// A type: `?name`, `name`, `name|name`, or `name&name`.
pub open spec fn parse_type(toks: Seq<Token>, p: int) -> (int, Outcome<TypeModel>) {
    if kind_at(toks, p) is Question {
        let q = step(toks, p);
        match expect_name(toks, q, any_name_of(kind_at(toks, q)), "expected identifier"@) {
            (r, Outcome::Parsed(name)) => (r, Outcome::Parsed(TypeModel::Nullable(name))),
            (r, o) => (r, relay(o)),
        }
    } else {
        match expect_name(toks, p, any_name_of(kind_at(toks, p)), "expected identifier"@) {
            (q, Outcome::Parsed(name)) => {
                if kind_at(toks, q) is Pipe {
                    match parse_type_names(toks, step(toks, q), true, seq![name]) {
                        (r, Outcome::Parsed(names)) => (r, Outcome::Parsed(TypeModel::Union(names))),
                        (r, o) => (r, relay(o)),
                    }
                } else if kind_at(toks, q) is Ampersand {
                    match parse_type_names(toks, step(toks, q), false, seq![name]) {
                        (r, Outcome::Parsed(names)) => (r, Outcome::Parsed(TypeModel::Intersection(names))),
                        (r, o) => (r, relay(o)),
                    }
                } else {
                    (q, Outcome::Parsed(TypeModel::Plain(name)))
                }
            },
            (q, o) => (q, relay(o)),
        }
    }
}

// ---------------------------------------------------------------------------
// Expressions
// ---------------------------------------------------------------------------

/// The binding powers, left and right, of an infix operator.
pub open spec fn infix_power(k: TokenKind) -> Option<(u8, u8)> {
    match k {
        TokenKind::Plus => Some((11u8, 12u8)),
        TokenKind::Minus => Some((11u8, 12u8)),
        TokenKind::LessThan => Some((9u8, 10u8)),
        TokenKind::Equals => Some((2u8, 1u8)),
        _ => None,
    }
}

/// The binding power of a postfix operator.
pub open spec fn postfix_power(k: TokenKind) -> Option<u8> {
    match k {
        TokenKind::LeftParen => Some(19u8),
        _ => None,
    }
}

/// The operator that an infix operator token other than `=` stands for.
pub open spec fn infix_op_of(k: TokenKind) -> InfixOp
    recommends
        k is Plus || k is Minus || k is LessThan,
{
    match k {
        TokenKind::Plus => InfixOp::Add,
        TokenKind::Minus => InfixOp::Sub,
        _ => InfixOp::LessThan,
    }
}

/// The expression that an infix operator makes of its operands.
pub open spec fn infix_model(lhs: ExprModel, k: TokenKind, rhs: ExprModel) -> ExprModel {
    if k is Equals {
        ExprModel::Assign(Box::new(lhs), Box::new(rhs))
    } else {
        ExprModel::Infix(Box::new(lhs), infix_op_of(k), Box::new(rhs))
    }
}

/// Whether a recursion that started at `p` may go on at `q`: it has moved
/// forward and not past the end of the stream.
pub open spec fn advanced(toks: Seq<Token>, p: int, q: int) -> bool {
    p < q <= toks.len()
}

/// An expression whose operators bind at least as tightly as `bp`.
pub open spec fn parse_expression(toks: Seq<Token>, p: int, bp: u8) -> (int, Outcome<ExprModel>)
    decreases toks.len() - p, 1int,
{
    let k = kind_at(toks, p);
    if k is Eof {
        (p, Outcome::Failed(ErrorModel::UnexpectedEndOfFile))
    } else {
        let (q, lhs) = match k {
            TokenKind::Variable(v) => (p, Outcome::Parsed(ExprModel::Variable(v@))),
            TokenKind::Int(i) => (p, Outcome::Parsed(ExprModel::Int(i))),
            TokenKind::Identifier(s) => (p, Outcome::Parsed(ExprModel::Identifier(s@))),
            TokenKind::LeftParen => match parse_expression(toks, step(toks, p), 0) {
                (r, Outcome::Parsed(e)) => if kind_at(toks, r) is RightParen {
                    (r, Outcome::Parsed(e))
                } else {
                    (r, Outcome::Failed(expected(toks, r, "expected right paren"@)))
                },
                (r, o) => (r, o),
            },
            TokenKind::LeftBracket => match parse_array_items(toks, step(toks, p), Seq::empty()) {
                (r, Outcome::Parsed(items)) => (r, Outcome::Parsed(ExprModel::Array(items))),
                (r, o) => (r, relay(o)),
            },
            _ => (p, Outcome::Unsupported),
        };
        match lhs {
            Outcome::Parsed(l) => {
                let m = step(toks, q);
                if advanced(toks, p, m) {
                    parse_expression_tail(toks, m, bp, l)
                } else {
                    (m, Outcome::Unsupported)  // never taken
                }
            },
            o => (q, o),
        }
    }
}

/// The operators that follow an operand `lhs`, as far as they bind at least as tightly as `bp`.
pub open spec fn parse_expression_tail(toks: Seq<Token>, p: int, bp: u8, lhs: ExprModel) -> (int, Outcome<ExprModel>)
    decreases toks.len() - p, 0int,
{
    let k = kind_at(toks, p);
    if k is SemiColon || k is Eof {
        (p, Outcome::Parsed(lhs))
    } else {
        match postfix_power(k) {
            Some(l) => if l < bp {
                (p, Outcome::Parsed(lhs))
            } else {
                match parse_postfix(toks, step(toks, p), lhs, k) {
                    (q, Outcome::Parsed(e)) => if advanced(toks, p, q) {
                        parse_expression_tail(toks, q, bp, e)
                    } else {
                        (q, Outcome::Unsupported)  // never taken
                    },
                    (q, o) => (q, o),
                }
            },
            None => match infix_power(k) {
                Some((l, r)) => if l < bp {
                    (p, Outcome::Parsed(lhs))
                } else {
                    match parse_expression(toks, step(toks, p), r) {
                        (q, Outcome::Parsed(rhs)) => if advanced(toks, p, q) {
                            parse_expression_tail(toks, q, bp, infix_model(lhs, k, rhs))
                        } else {
                            (q, Outcome::Unsupported)  // never taken
                        },
                        (q, o) => (q, o),
                    }
                },
                None => (p, Outcome::Parsed(lhs)),
            },
        }
    }
}

/// What follows the postfix operator `op` applied to `lhs`; `p` is just after `op`.
pub open spec fn parse_postfix(toks: Seq<Token>, p: int, lhs: ExprModel, op: TokenKind) -> (int, Outcome<ExprModel>)
    decreases toks.len() - p, 3int,
{
    if op is LeftParen {
        match parse_call_args(toks, p, Seq::empty()) {
            (q, Outcome::Parsed(args)) => if kind_at(toks, q) is RightParen {
                (step(toks, q), Outcome::Parsed(ExprModel::Call(Box::new(lhs), args)))
            } else {
                (q, Outcome::Failed(expected(toks, q, "expected )"@)))
            },
            (q, o) => (q, relay(o)),
        }
    } else {
        (p, Outcome::Unsupported)
    }
}

/// The arguments of a call, each followed by an optional comma, up to `)` or the end.
pub open spec fn parse_call_args(toks: Seq<Token>, p: int, acc: Seq<ExprModel>) -> (int, Outcome<Seq<ExprModel>>)
    decreases toks.len() - p, 2int,
{
    let k = kind_at(toks, p);
    if k is Eof || k is RightParen {
        (p, Outcome::Parsed(acc))
    } else {
        match parse_expression(toks, p, 0) {
            (q, Outcome::Parsed(e)) => {
                let r = if kind_at(toks, q) is Comma {
                    step(toks, q)
                } else {
                    q
                };
                if advanced(toks, p, r) {
                    parse_call_args(toks, r, acc.push(e))
                } else {
                    (r, Outcome::Unsupported)  // never taken
                }
            },
            (q, o) => (q, relay(o)),
        }
    }
}

/// The entries of an array literal, each `value` or `key => value` with an
/// optional comma, up to `]`.
pub open spec fn parse_array_items(toks: Seq<Token>, p: int, acc: Seq<ArrayItemModel>) -> (int, Outcome<Seq<ArrayItemModel>>)
    decreases toks.len() - p, 2int,
{
    if kind_at(toks, p) is RightBracket {
        (p, Outcome::Parsed(acc))
    } else {
        match parse_expression(toks, p, 0) {
            (q, Outcome::Parsed(v)) => {
                let (r, item) = if kind_at(toks, q) is DoubleArrow {
                    if advanced(toks, p, q) {
                        match parse_expression(toks, step(toks, q), 0) {
                            (r, Outcome::Parsed(w)) => (r, Outcome::Parsed(ArrayItemModel { key: Some(v), value: w })),
                            (r, o) => (r, relay(o)),
                        }
                    } else {
                        (q, Outcome::Unsupported)  // never taken
                    }
                } else {
                    (q, Outcome::Parsed(ArrayItemModel { key: None, value: v }))
                };
                match item {
                    Outcome::Parsed(it) => {
                        let s = if kind_at(toks, r) is Comma {
                            step(toks, r)
                        } else {
                            r
                        };
                        if advanced(toks, p, s) {
                            parse_array_items(toks, s, acc.push(it))
                        } else {
                            (s, Outcome::Unsupported)  // never taken
                        }
                    },
                    o => (r, relay(o)),
                }
            },
            (q, o) => (q, relay(o)),
        }
    }
}

// ---------------------------------------------------------------------------
// Statements
// ---------------------------------------------------------------------------

/// The names of a `use` statement, `name` or `name as alias`, separated by
/// commas and closed by `;`.
pub open spec fn parse_use_list(toks: Seq<Token>, p: int, acc: Seq<UseModel>) -> (int, Outcome<Seq<UseModel>>)
    decreases toks.len() - p,
{
    if kind_at(toks, p) is Eof {
        (p, Outcome::Parsed(acc))
    } else {
        match expect_name(toks, p, any_name_of(kind_at(toks, p)), "expected identifier in use statement"@) {
            (q, Outcome::Parsed(name)) => {
                let (r, alias) = if kind_at(toks, q) is As {
                    let q1 = step(toks, q);
                    match expect_name(toks, q1, plain_name_of(kind_at(toks, q1)), "expected identifier after as"@) {
                        (r, Outcome::Parsed(a)) => (r, Outcome::Parsed(Some(a))),
                        (r, o) => (r, relay(o)),
                    }
                } else {
                    (q, Outcome::Parsed(None))
                };
                match alias {
                    Outcome::Parsed(a) => {
                        let more = acc.push(UseModel { name, alias: a });
                        if kind_at(toks, r) is Comma {
                            let s = step(toks, r);
                            if advanced(toks, p, s) {
                                parse_use_list(toks, s, more)
                            } else {
                                (s, Outcome::Unsupported)  // never taken
                            }
                        } else {
                            match expect_token(toks, r, kind_at(toks, r) is SemiColon, "expected semi-colon as end of use statement"@) {
                                (s, Outcome::Parsed(_)) => (s, Outcome::Parsed(more)),
                                (s, o) => (s, relay(o)),
                            }
                        }
                    },
                    o => (r, relay(o)),
                }
            },
            (q, o) => (q, relay(o)),
        }
    }
}

/// The values of an `echo` statement, each followed by an optional comma, up to `;`.
pub open spec fn parse_echo_values(toks: Seq<Token>, p: int, acc: Seq<ExprModel>) -> (int, Outcome<Seq<ExprModel>>)
    decreases toks.len() - p,
{
    let k = kind_at(toks, p);
    if k is Eof || k is SemiColon {
        (p, Outcome::Parsed(acc))
    } else {
        match parse_expression(toks, p, 0) {
            (q, Outcome::Parsed(e)) => {
                let r = if kind_at(toks, q) is Comma {
                    step(toks, q)
                } else {
                    q
                };
                if advanced(toks, p, r) {
                    parse_echo_values(toks, r, acc.push(e))
                } else {
                    (r, Outcome::Unsupported)  // never taken
                }
            },
            (q, o) => (q, relay(o)),
        }
    }
}

/// An `echo` statement after the keyword.
pub open spec fn parse_echo(toks: Seq<Token>, p: int) -> (int, Outcome<StmtModel>) {
    match parse_echo_values(toks, p, Seq::empty()) {
        (q, Outcome::Parsed(values)) => match expect_token(toks, q, kind_at(toks, q) is SemiColon, "expected semi-colon at the end of an echo statement"@) {
            (r, Outcome::Parsed(_)) => (r, Outcome::Parsed(StmtModel::Echo(values))),
            (r, o) => (r, relay(o)),
        },
        (q, o) => (q, relay(o)),
    }
}

/// A `return` statement after the keyword. A value that fails to parse is
/// left out, and the `;` is then looked for where the value stopped.
pub open spec fn parse_return(toks: Seq<Token>, p: int) -> (int, Outcome<StmtModel>) {
    if kind_at(toks, p) is SemiColon {
        (step(toks, p), Outcome::Parsed(StmtModel::Return(None)))
    } else {
        match parse_expression(toks, p, 0) {
            (q, Outcome::Unsupported) => (q, Outcome::Unsupported),
            (q, o) => {
                let value = match o {
                    Outcome::Parsed(e) => Some(e),
                    _ => None,
                };
                match expect_token(toks, q, kind_at(toks, q) is SemiColon, "expected semi-colon at the end of return statement."@) {
                    (r, Outcome::Parsed(_)) => (r, Outcome::Parsed(StmtModel::Return(value))),
                    (r, e) => (r, relay(e)),
                }
            },
        }
    }
}

/// The parameters of a function, each an optional type, a variable and an
/// optional comma, up to `)`.
pub open spec fn parse_params(toks: Seq<Token>, p: int, acc: Seq<ParamModel>) -> (int, Outcome<Seq<ParamModel>>)
    decreases toks.len() - p,
{
    let k = kind_at(toks, p);
    if k is Eof || k is RightParen {
        (p, Outcome::Parsed(acc))
    } else {
        let (q, ty) = if !(k is Variable) {
            match parse_type(toks, p) {
                (q, Outcome::Parsed(t)) => (q, Outcome::Parsed(Some(t))),
                (q, o) => (q, relay(o)),
            }
        } else {
            (p, Outcome::Parsed(None))
        };
        match ty {
            Outcome::Parsed(t) => match expect_name(toks, q, variable_name_of(kind_at(toks, q)), "expected variable"@) {
                (r, Outcome::Parsed(v)) => {
                    let param = ParamModel { name: ExprModel::Variable(v), ty: t };
                    let s = if kind_at(toks, r) is Comma {
                        step(toks, r)
                    } else {
                        r
                    };
                    if advanced(toks, p, s) {
                        parse_params(toks, s, acc.push(param))
                    } else {
                        (s, Outcome::Unsupported)  // never taken
                    }
                },
                (r, o) => (r, relay(o)),
            },
            o => (q, relay(o)),
        }
    }
}

/// The optional `: type` after a parameter list.
pub open spec fn parse_return_type(toks: Seq<Token>, p: int) -> (int, Outcome<Option<TypeModel>>) {
    if kind_at(toks, p) is Colon {
        match parse_type(toks, step(toks, p)) {
            (q, Outcome::Parsed(t)) => (q, Outcome::Parsed(Some(t))),
            (q, o) => (q, relay(o)),
        }
    } else {
        (p, Outcome::Parsed(None))
    }
}

/// The interfaces after `implements`, separated by commas, up to `{`.
pub open spec fn parse_implements(toks: Seq<Token>, p: int, acc: Seq<Seq<char>>) -> (int, Outcome<Seq<Seq<char>>>)
    decreases toks.len() - p,
{
    if kind_at(toks, p) is LeftBrace {
        (p, Outcome::Parsed(acc))
    } else {
        let q = if kind_at(toks, p) is Comma {
            step(toks, p)
        } else {
            p
        };
        match expect_name(toks, q, plain_name_of(kind_at(toks, q)), "expected identifier"@) {
            (r, Outcome::Parsed(name)) => if advanced(toks, p, r) {
                parse_implements(toks, r, acc.push(name))
            } else {
                (r, Outcome::Unsupported)  // never taken
            },
            (r, o) => (r, relay(o)),
        }
    }
}

/// What a statement of a class body becomes: a function is a method, a `var`
/// a property; methods and comments stay; anything else is not allowed.
pub open spec fn class_member(s: StmtModel) -> Option<StmtModel> {
    match s {
        StmtModel::Function { name, params, body, return_type } => Some(
            StmtModel::Method { name, params, body, flags: Seq::empty() },
        ),
        StmtModel::Var(v) => Some(StmtModel::Property(v)),
        StmtModel::Method { .. } => Some(s),
        StmtModel::Comment(_) => Some(s),
        _ => None,
    }
}

/// The message of the error for a statement that a class body cannot hold.
pub open spec fn invalid_class_statement_message() -> Seq<char> {
    "Classes can only contain properties, constants and methods."@
}

/// A statement.
pub open spec fn parse_statement(toks: Seq<Token>, p: int) -> (int, Outcome<StmtModel>)
    decreases toks.len() - p, 1int,
{
    let q = step(toks, p);
    match kind_at(toks, p) {
        TokenKind::InlineHtml(h) => (q, Outcome::Parsed(StmtModel::InlineHtml(h@))),
        TokenKind::Comment(c) => (q, Outcome::Parsed(StmtModel::Comment(c@))),
        TokenKind::Use => match parse_use_list(toks, q, Seq::empty()) {
            (r, Outcome::Parsed(uses)) => (r, Outcome::Parsed(StmtModel::Use(uses))),
            (r, o) => (r, relay(o)),
        },
        TokenKind::Namespace => parse_namespace(toks, q),
        TokenKind::If => parse_if(toks, q),
        TokenKind::Class => parse_class(toks, p),
        TokenKind::Echo => parse_echo(toks, q),
        TokenKind::Return => parse_return(toks, q),
        TokenKind::Function => parse_function(toks, q),
        TokenKind::Var => match expect_name(toks, q, variable_name_of(kind_at(toks, q)), "expected variable name"@) {
            (r, Outcome::Parsed(v)) => match expect_token(toks, r, kind_at(toks, r) is SemiColon, "expected semi-colon"@) {
                (s, Outcome::Parsed(_)) => (s, Outcome::Parsed(StmtModel::Var(v))),
                (s, o) => (s, relay(o)),
            },
            (r, o) => (r, relay(o)),
        },
        TokenKind::SemiColon => (q, Outcome::Parsed(StmtModel::Noop)),
        _ => match parse_expression(toks, p, 0) {
            (r, Outcome::Parsed(e)) => match expect_token(toks, r, kind_at(toks, r) is SemiColon, "expected semi-colon"@) {
                (s, Outcome::Parsed(_)) => (s, Outcome::Parsed(StmtModel::Expression(e))),
                (s, o) => (s, relay(o)),
            },
            (r, o) => (r, relay(o)),
        },
    }
}

/// Statements up to the end of the input or, where `braced`, up to `}`.
pub open spec fn parse_block(toks: Seq<Token>, p: int, braced: bool, acc: Seq<StmtModel>) -> (int, Outcome<Seq<StmtModel>>)
    decreases toks.len() - p, 2int,
{
    let k = kind_at(toks, p);
    if k is Eof || (braced && k is RightBrace) {
        (p, Outcome::Parsed(acc))
    } else {
        match parse_statement(toks, p) {
            (q, Outcome::Parsed(s)) => if advanced(toks, p, q) {
                parse_block(toks, q, braced, acc.push(s))
            } else {
                (q, Outcome::Unsupported)  // never taken
            },
            (q, o) => (q, relay(o)),
        }
    }
}

/// `{`, statements, `}`.
pub open spec fn parse_braced_block(toks: Seq<Token>, p: int) -> (int, Outcome<Seq<StmtModel>>)
    decreases toks.len() - p, 0int,
{
    if kind_at(toks, p) is LeftBrace {
        match parse_block(toks, step(toks, p), true, Seq::empty()) {
            (q, Outcome::Parsed(body)) => match expect_token(toks, q, kind_at(toks, q) is RightBrace, "expected }"@) {
                (r, Outcome::Parsed(_)) => (r, Outcome::Parsed(body)),
                (r, o) => (r, relay(o)),
            },
            (q, o) => (q, relay(o)),
        }
    } else {
        (p, Outcome::Failed(expected(toks, p, "expected {"@)))
    }
}

/// A `namespace` statement after the keyword: a name, then either `;` and
/// the rest of the file, or a braced block.
pub open spec fn parse_namespace(toks: Seq<Token>, p: int) -> (int, Outcome<StmtModel>)
    decreases toks.len() - p, 0int,
{
    match expect_name(toks, p, namespace_name_of(kind_at(toks, p)), "expected identifier after namespace"@) {
        (q, Outcome::Parsed(name)) => {
            let braced = kind_at(toks, q) is LeftBrace;
            let (r, opened) = if braced {
                (step(toks, q), Outcome::Parsed(()))
            } else {
                expect_token(toks, q, kind_at(toks, q) is SemiColon, "expected semi-colon"@)
            };
            match opened {
                Outcome::Parsed(_) => if advanced(toks, p, r) {
                    match parse_block(toks, r, braced, Seq::empty()) {
                        (s, Outcome::Parsed(body)) => if braced {
                            match expect_token(toks, s, kind_at(toks, s) is RightBrace, "expected }"@) {
                                (t, Outcome::Parsed(_)) => (t, Outcome::Parsed(StmtModel::Namespace(name, body))),
                                (t, o) => (t, relay(o)),
                            }
                        } else {
                            (s, Outcome::Parsed(StmtModel::Namespace(name, body)))
                        },
                        (s, o) => (s, relay(o)),
                    }
                } else {
                    (r, Outcome::Unsupported)  // never taken
                },
                o => (r, relay(o)),
            }
        },
        (q, o) => (q, relay(o)),
    }
}

/// An `if` statement after the keyword: `(`, a condition, `)`, a braced block.
pub open spec fn parse_if(toks: Seq<Token>, p: int) -> (int, Outcome<StmtModel>)
    decreases toks.len() - p, 0int,
{
    match expect_token(toks, p, kind_at(toks, p) is LeftParen, "expected ("@) {
        (q, Outcome::Parsed(_)) => match parse_expression(toks, q, 0) {
            (r, Outcome::Parsed(condition)) => match expect_token(toks, r, kind_at(toks, r) is RightParen, "expected )"@) {
                (s, Outcome::Parsed(_)) => if advanced(toks, p, s) {
                    match parse_braced_block(toks, s) {
                        (t, Outcome::Parsed(then)) => (t, Outcome::Parsed(StmtModel::If(condition, then))),
                        (t, o) => (t, relay(o)),
                    }
                } else {
                    (s, Outcome::Unsupported)  // never taken
                },
                (s, o) => (s, relay(o)),
            },
            (r, o) => (r, relay(o)),
        },
        (q, o) => (q, relay(o)),
    }
}

/// A function declaration after the keyword `function`.
pub open spec fn parse_function(toks: Seq<Token>, p: int) -> (int, Outcome<StmtModel>)
    decreases toks.len() - p, 0int,
{
    match expect_name(toks, p, plain_name_of(kind_at(toks, p)), "expected identifier"@) {
        (q, Outcome::Parsed(name)) => match expect_token(toks, q, kind_at(toks, q) is LeftParen, "expected ("@) {
            (r, Outcome::Parsed(_)) => match parse_params(toks, r, Seq::empty()) {
                (s, Outcome::Parsed(params)) => match expect_token(toks, s, kind_at(toks, s) is RightParen, "expected )"@) {
                    (t, Outcome::Parsed(_)) => match parse_return_type(toks, t) {
                        (u, Outcome::Parsed(return_type)) => if advanced(toks, p, u) {
                            match parse_braced_block(toks, u) {
                                (v, Outcome::Parsed(body)) => (v, Outcome::Parsed(StmtModel::Function { name, params, body, return_type })),
                                (v, o) => (v, relay(o)),
                            }
                        } else {
                            (u, Outcome::Unsupported)  // never taken
                        },
                        (u, o) => (u, relay(o)),
                    },
                    (t, o) => (t, relay(o)),
                },
                (s, o) => (s, relay(o)),
            },
            (r, o) => (r, relay(o)),
        },
        (q, o) => (q, relay(o)),
    }
}

/// The statements of a class body, each turned into a member, up to `}`.
pub open spec fn parse_class_body(toks: Seq<Token>, p: int, acc: Seq<StmtModel>) -> (int, Outcome<Seq<StmtModel>>)
    decreases toks.len() - p, 2int,
{
    let k = kind_at(toks, p);
    if k is RightBrace || k is Eof {
        (p, Outcome::Parsed(acc))
    } else {
        match parse_statement(toks, p) {
            (q, Outcome::Parsed(s)) => match class_member(s) {
                Some(m) => if advanced(toks, p, q) {
                    parse_class_body(toks, q, acc.push(m))
                } else {
                    (q, Outcome::Unsupported)  // never taken
                },
                None => (q, Outcome::Failed(ErrorModel::InvalidClassStatement(invalid_class_statement_message(), span_at(toks, q)))),
            },
            (q, o) => (q, relay(o)),
        }
    }
}

/// A class declaration, starting at the keyword `class`.
pub open spec fn parse_class(toks: Seq<Token>, p: int) -> (int, Outcome<StmtModel>)
    decreases toks.len() - p, 0int,
{
    let p1 = step(toks, p);
    match expect_name(toks, p1, plain_name_of(kind_at(toks, p1)), "expected class name"@) {
        (q, Outcome::Parsed(name)) => {
            let (r, ext) = if kind_at(toks, q) is Extends {
                let q1 = step(toks, q);
                match expect_name(toks, q1, plain_name_of(kind_at(toks, q1)), "expected identifier"@) {
                    (r, Outcome::Parsed(e)) => (r, Outcome::Parsed(Some(e))),
                    (r, o) => (r, relay(o)),
                }
            } else {
                (q, Outcome::Parsed(None))
            };
            match ext {
                Outcome::Parsed(extends) => {
                    let (s, imp) = if kind_at(toks, r) is Implements {
                        parse_implements(toks, step(toks, r), Seq::empty())
                    } else {
                        (r, Outcome::Parsed(Seq::empty()))
                    };
                    match imp {
                        Outcome::Parsed(implements) => match expect_token(toks, s, kind_at(toks, s) is LeftBrace, "expected left-brace"@) {
                            (t, Outcome::Parsed(_)) => if advanced(toks, p, t) {
                                match parse_class_body(toks, t, Seq::empty()) {
                                    (u, Outcome::Parsed(body)) => match expect_token(toks, u, kind_at(toks, u) is RightBrace, "expected right-brace"@) {
                                        (v, Outcome::Parsed(_)) => (v, Outcome::Parsed(StmtModel::Class { name, extends, implements, body, flag: None })),
                                        (v, o) => (v, relay(o)),
                                    },
                                    (u, o) => (u, relay(o)),
                                }
                            } else {
                                (t, Outcome::Unsupported)  // never taken
                            },
                            (t, o) => (t, relay(o)),
                        },
                        o => (s, relay(o)),
                    }
                },
                o => (r, relay(o)),
            }
        },
        (q, o) => (q, relay(o)),
    }
}

/// A whole file: statements up to the end, with open tags skipped.
pub open spec fn parse_program(toks: Seq<Token>, p: int, acc: Seq<StmtModel>) -> (int, Outcome<Seq<StmtModel>>)
    decreases toks.len() - p,
{
    let k = kind_at(toks, p);
    if k is Eof {
        (p, Outcome::Parsed(acc))
    } else if k is OpenTag {
        parse_program(toks, step(toks, p), acc)
    } else {
        match parse_statement(toks, p) {
            (q, Outcome::Parsed(s)) => if advanced(toks, p, q) {
                parse_program(toks, q, acc.push(s))
            } else {
                (q, Outcome::Unsupported)  // never taken
            },
            (q, o) => (q, relay(o)),
        }
    }
}

} // verus!
