//! Every rule of the grammar stops within the token stream and never moves
//! backwards, and the rules that recognise a statement or an expression
//! always consume at least one token when they succeed. This is what makes
//! every loop of the parser terminate.
use vstd::prelude::*;
use crate::token::{Token, TokenKind, kind_at, step, any_name_of, namespace_name_of, plain_name_of, variable_name_of};
use crate::ast::{ExprModel, ArrayItemModel, ParamModel, UseModel, StmtModel};
use crate::grammar::{Outcome, relay, expected, expect_name, expect_token, is_type_separator, advanced, infix_model, postfix_power, infix_power, parse_type_names, parse_type, parse_expression, parse_expression_tail, parse_postfix, parse_call_args, parse_array_items, parse_use_list, parse_echo_values, parse_params, parse_return_type, parse_implements, class_member, parse_statement, parse_block, parse_braced_block, parse_namespace, parse_if, parse_function, parse_class_body, parse_class, parse_program};

verus! {

/// `r` stops between `p` and the end of `toks`, and past `p` where it succeeded and `strict`.
pub open spec fn moves_forward<A>(toks: Seq<Token>, p: int, r: (int, Outcome<A>), strict: bool) -> bool {
    &&& p <= r.0 <= toks.len()
    &&& (strict && r.1 is Parsed) ==> p < r.0
}

/// The names of a union or intersection type stops between where it starts and the end of the tokens.
pub proof fn lemma_type_names_progress(toks: Seq<Token>, p: int, pipe: bool, acc: Seq<Seq<char>>)
    requires
        0 <= p <= toks.len(),
    ensures
        moves_forward(toks, p, parse_type_names(toks, p, pipe, acc), false),
    decreases toks.len() - p,
{
    if !(kind_at(toks, p) is Eof) {
        if let Some(name) = crate::token::any_name_of(kind_at(toks, p)) {
            let q = step(toks, p);
            if is_type_separator(kind_at(toks, q), pipe) {
                lemma_type_names_progress(toks, q, pipe, acc.push(name));
            }
        }
    }
}

/// A type, which consumes at least one token when it parses, stops between where it starts and the end of the tokens.
pub proof fn lemma_type_progress(toks: Seq<Token>, p: int)
    requires
        0 <= p <= toks.len(),
    ensures
        moves_forward(toks, p, parse_type(toks, p), true),
{
    if !(kind_at(toks, p) is Question) {
        if let (q, Outcome::Parsed(name)) = expect_name(toks, p, crate::token::any_name_of(kind_at(toks, p)), "expected identifier"@) {
            if kind_at(toks, q) is Pipe {
                lemma_type_names_progress(toks, step(toks, q), true, seq![name]);
            } else if kind_at(toks, q) is Ampersand {
                lemma_type_names_progress(toks, step(toks, q), false, seq![name]);
            }
        }
    }
}

/// An expression, which consumes at least one token when it parses, stops between where it starts and the end of the tokens.
pub proof fn lemma_expression_progress(toks: Seq<Token>, p: int, bp: u8)
    requires
        0 <= p <= toks.len(),
    ensures
        moves_forward(toks, p, parse_expression(toks, p, bp), true),
    decreases toks.len() - p, 1int,
{
    let k = kind_at(toks, p);
    if !(k is Eof) {
        match k {
            TokenKind::LeftParen => lemma_expression_progress(toks, step(toks, p), 0),
            TokenKind::LeftBracket => lemma_array_items_progress(toks, step(toks, p), Seq::empty()),
            _ => {},
        }
        let (q, lhs) = match k {
            TokenKind::Variable(v) => (p, Outcome::Parsed(ExprModel::Variable(v@))),
            TokenKind::Int(i) => (p, Outcome::Parsed(ExprModel::Int(i))),
            TokenKind::Identifier(s) => (p, Outcome::Parsed(ExprModel::Identifier(s@))),
            TokenKind::LeftParen => match parse_expression(toks, step(toks, p), 0) {
                (r, Outcome::Parsed(e)) => if kind_at(toks, r) is RightParen {
                    (r, Outcome::Parsed(e))
                } else {
                    (r, Outcome::Failed(expected(toks, r, "expected right paren"@)))
                },
                (r, o) => (r, o),
            },
            TokenKind::LeftBracket => match parse_array_items(toks, step(toks, p), Seq::empty()) {
                (r, Outcome::Parsed(items)) => (r, Outcome::Parsed(ExprModel::Array(items))),
                (r, o) => (r, relay(o)),
            },
            _ => (p, Outcome::Unsupported),
        };
        if let Outcome::Parsed(l) = lhs {
            let m = step(toks, q);
            if advanced(toks, p, m) {
                lemma_tail_progress(toks, m, bp, l);
            }
        }
    }
}

/// The operators after an operand stops between where it starts and the end of the tokens.
pub proof fn lemma_tail_progress(toks: Seq<Token>, p: int, bp: u8, lhs: ExprModel)
    requires
        0 <= p <= toks.len(),
    ensures
        moves_forward(toks, p, parse_expression_tail(toks, p, bp, lhs), false),
    decreases toks.len() - p, 0int,
{
    let k = kind_at(toks, p);
    if !(k is SemiColon || k is Eof) {
        match postfix_power(k) {
            Some(l) => if !(l < bp) {
                lemma_postfix_progress(toks, step(toks, p), lhs, k);
                if let (q, Outcome::Parsed(e)) = parse_postfix(toks, step(toks, p), lhs, k) {
                    if advanced(toks, p, q) {
                        lemma_tail_progress(toks, q, bp, e);
                    }
                }
            },
            None => if let Some((l, r)) = infix_power(k) {
                if !(l < bp) {
                    lemma_expression_progress(toks, step(toks, p), r);
                    if let (q, Outcome::Parsed(rhs)) = parse_expression(toks, step(toks, p), r) {
                        if advanced(toks, p, q) {
                            lemma_tail_progress(toks, q, bp, infix_model(lhs, k, rhs));
                        }
                    }
                }
            },
        }
    }
}

/// The operand of a postfix operator, which consumes at least one token when it parses, stops between where it starts and the end of the tokens.
pub proof fn lemma_postfix_progress(toks: Seq<Token>, p: int, lhs: ExprModel, op: TokenKind)
    requires
        0 <= p <= toks.len(),
    ensures
        moves_forward(toks, p, parse_postfix(toks, p, lhs, op), true),
    decreases toks.len() - p, 3int,
{
    if op is LeftParen {
        lemma_call_args_progress(toks, p, Seq::empty());
    }
}

/// The arguments of a call stops between where it starts and the end of the tokens.
pub proof fn lemma_call_args_progress(toks: Seq<Token>, p: int, acc: Seq<ExprModel>)
    requires
        0 <= p <= toks.len(),
    ensures
        moves_forward(toks, p, parse_call_args(toks, p, acc), false),
    decreases toks.len() - p, 2int,
{
    let k = kind_at(toks, p);
    if !(k is Eof || k is RightParen) {
        lemma_expression_progress(toks, p, 0);
        if let (q, Outcome::Parsed(e)) = parse_expression(toks, p, 0) {
            let r = if kind_at(toks, q) is Comma {
                step(toks, q)
            } else {
                q
            };
            if advanced(toks, p, r) {
                lemma_call_args_progress(toks, r, acc.push(e));
            }
        }
    }
}

/// The entries of an array literal stops between where it starts and the end of the tokens.
pub proof fn lemma_array_items_progress(toks: Seq<Token>, p: int, acc: Seq<ArrayItemModel>)
    requires
        0 <= p <= toks.len(),
    ensures
        moves_forward(toks, p, parse_array_items(toks, p, acc), false),
    decreases toks.len() - p, 2int,
{
    if !(kind_at(toks, p) is RightBracket) {
        lemma_expression_progress(toks, p, 0);
        if let (q, Outcome::Parsed(v)) = parse_expression(toks, p, 0) {
            if kind_at(toks, q) is DoubleArrow && advanced(toks, p, q) {
                lemma_expression_progress(toks, step(toks, q), 0);
            }
            let (r, item) = if kind_at(toks, q) is DoubleArrow {
                if advanced(toks, p, q) {
                    match parse_expression(toks, step(toks, q), 0) {
                        (r, Outcome::Parsed(w)) => (r, Outcome::Parsed(ArrayItemModel { key: Some(v), value: w })),
                        (r, o) => (r, relay(o)),
                    }
                } else {
                    (q, Outcome::Unsupported)
                }
            } else {
                (q, Outcome::Parsed(ArrayItemModel { key: None, value: v }))
            };
            if let Outcome::Parsed(it) = item {
                let s = if kind_at(toks, r) is Comma {
                    step(toks, r)
                } else {
                    r
                };
                if advanced(toks, p, s) {
                    lemma_array_items_progress(toks, s, acc.push(it));
                }
            }
        }
    }
}

/// The names of a `use` statement stops between where it starts and the end of the tokens.
pub proof fn lemma_use_list_progress(toks: Seq<Token>, p: int, acc: Seq<UseModel>)
    requires
        0 <= p <= toks.len(),
    ensures
        moves_forward(toks, p, parse_use_list(toks, p, acc), false),
    decreases toks.len() - p,
{
    if !(kind_at(toks, p) is Eof) {
        if let (q, Outcome::Parsed(name)) = expect_name(toks, p, any_name_of(kind_at(toks, p)), "expected identifier in use statement"@) {
            let (r, alias) = if kind_at(toks, q) is As {
                let q1 = step(toks, q);
                match expect_name(toks, q1, plain_name_of(kind_at(toks, q1)), "expected identifier after as"@) {
                    (r, Outcome::Parsed(a)) => (r, Outcome::Parsed(Some(a))),
                    (r, o) => (r, relay(o)),
                }
            } else {
                (q, Outcome::Parsed(None))
            };
            if let Outcome::Parsed(a) = alias {
                if kind_at(toks, r) is Comma {
                    let s = step(toks, r);
                    if advanced(toks, p, s) {
                        lemma_use_list_progress(toks, s, acc.push(UseModel { name, alias: a }));
                    }
                }
            }
        }
    }
}

/// The values of an `echo` statement stops between where it starts and the end of the tokens.
pub proof fn lemma_echo_values_progress(toks: Seq<Token>, p: int, acc: Seq<ExprModel>)
    requires
        0 <= p <= toks.len(),
    ensures
        moves_forward(toks, p, parse_echo_values(toks, p, acc), false),
    decreases toks.len() - p,
{
    let k = kind_at(toks, p);
    if !(k is Eof || k is SemiColon) {
        lemma_expression_progress(toks, p, 0);
        if let (q, Outcome::Parsed(e)) = parse_expression(toks, p, 0) {
            let r = if kind_at(toks, q) is Comma {
                step(toks, q)
            } else {
                q
            };
            if advanced(toks, p, r) {
                lemma_echo_values_progress(toks, r, acc.push(e));
            }
        }
    }
}

/// A parameter list stops between where it starts and the end of the tokens.
pub proof fn lemma_params_progress(toks: Seq<Token>, p: int, acc: Seq<ParamModel>)
    requires
        0 <= p <= toks.len(),
    ensures
        moves_forward(toks, p, parse_params(toks, p, acc), false),
    decreases toks.len() - p,
{
    let k = kind_at(toks, p);
    if !(k is Eof || k is RightParen) {
        lemma_type_progress(toks, p);
        let (q, ty) = if !(k is Variable) {
            match parse_type(toks, p) {
                (q, Outcome::Parsed(t)) => (q, Outcome::Parsed(Some(t))),
                (q, o) => (q, relay(o)),
            }
        } else {
            (p, Outcome::Parsed(None))
        };
        if let Outcome::Parsed(t) = ty {
            if let (r, Outcome::Parsed(v)) = expect_name(toks, q, variable_name_of(kind_at(toks, q)), "expected variable"@) {
                let s = if kind_at(toks, r) is Comma {
                    step(toks, r)
                } else {
                    r
                };
                if advanced(toks, p, s) {
                    lemma_params_progress(toks, s, acc.push(ParamModel { name: ExprModel::Variable(v), ty: t }));
                }
            }
        }
    }
}

/// The interfaces of a class stops between where it starts and the end of the tokens.
pub proof fn lemma_implements_progress(toks: Seq<Token>, p: int, acc: Seq<Seq<char>>)
    requires
        0 <= p <= toks.len(),
    ensures
        moves_forward(toks, p, parse_implements(toks, p, acc), false),
    decreases toks.len() - p,
{
    if !(kind_at(toks, p) is LeftBrace) {
        let q = if kind_at(toks, p) is Comma {
            step(toks, p)
        } else {
            p
        };
        if let (r, Outcome::Parsed(name)) = expect_name(toks, q, plain_name_of(kind_at(toks, q)), "expected identifier"@) {
            if advanced(toks, p, r) {
                lemma_implements_progress(toks, r, acc.push(name));
            }
        }
    }
}

/// A statement, which consumes at least one token when it parses, stops between where it starts and the end of the tokens.
pub proof fn lemma_statement_progress(toks: Seq<Token>, p: int)
    requires
        0 <= p <= toks.len(),
    ensures
        moves_forward(toks, p, parse_statement(toks, p), true),
    decreases toks.len() - p, 1int,
{
    let q = step(toks, p);
    match kind_at(toks, p) {
        TokenKind::Use => lemma_use_list_progress(toks, q, Seq::empty()),
        TokenKind::Namespace => lemma_namespace_progress(toks, q),
        TokenKind::If => lemma_if_progress(toks, q),
        TokenKind::Class => lemma_class_progress(toks, p),
        TokenKind::Echo => lemma_echo_values_progress(toks, q, Seq::empty()),
        TokenKind::Return => {
            if !(kind_at(toks, q) is SemiColon) {
                lemma_expression_progress(toks, q, 0);
            }
        },
        TokenKind::Function => lemma_function_progress(toks, q),
        TokenKind::InlineHtml(_) => {},
        TokenKind::Comment(_) => {},
        TokenKind::Var => {},
        TokenKind::SemiColon => {},
        _ => lemma_expression_progress(toks, p, 0),
    }
}

/// A sequence of statements stops between where it starts and the end of the tokens.
pub proof fn lemma_block_progress(toks: Seq<Token>, p: int, braced: bool, acc: Seq<StmtModel>)
    requires
        0 <= p <= toks.len(),
    ensures
        moves_forward(toks, p, parse_block(toks, p, braced, acc), false),
    decreases toks.len() - p, 2int,
{
    let k = kind_at(toks, p);
    if !(k is Eof || (braced && k is RightBrace)) {
        lemma_statement_progress(toks, p);
        if let (q, Outcome::Parsed(s)) = parse_statement(toks, p) {
            if advanced(toks, p, q) {
                lemma_block_progress(toks, q, braced, acc.push(s));
            }
        }
    }
}

/// A braced block, which consumes at least one token when it parses, stops between where it starts and the end of the tokens.
pub proof fn lemma_braced_block_progress(toks: Seq<Token>, p: int)
    requires
        0 <= p <= toks.len(),
    ensures
        moves_forward(toks, p, parse_braced_block(toks, p), true),
    decreases toks.len() - p, 0int,
{
    if kind_at(toks, p) is LeftBrace {
        lemma_block_progress(toks, step(toks, p), true, Seq::empty());
    }
}

/// The rest of a `namespace` statement stops between where it starts and the end of the tokens.
pub proof fn lemma_namespace_progress(toks: Seq<Token>, p: int)
    requires
        0 <= p <= toks.len(),
    ensures
        moves_forward(toks, p, parse_namespace(toks, p), false),
    decreases toks.len() - p, 0int,
{
    if let (q, Outcome::Parsed(name)) = expect_name(toks, p, namespace_name_of(kind_at(toks, p)), "expected identifier after namespace"@) {
        let braced = kind_at(toks, q) is LeftBrace;
        let (r, opened) = if braced {
            (step(toks, q), Outcome::Parsed(()))
        } else {
            expect_token(toks, q, kind_at(toks, q) is SemiColon, "expected semi-colon"@)
        };
        if opened is Parsed && advanced(toks, p, r) {
            lemma_block_progress(toks, r, braced, Seq::empty());
        }
    }
}

/// The rest of an `if` statement stops between where it starts and the end of the tokens.
pub proof fn lemma_if_progress(toks: Seq<Token>, p: int)
    requires
        0 <= p <= toks.len(),
    ensures
        moves_forward(toks, p, parse_if(toks, p), false),
    decreases toks.len() - p, 0int,
{
    if let (q, Outcome::Parsed(_)) = expect_token(toks, p, kind_at(toks, p) is LeftParen, "expected ("@) {
        lemma_expression_progress(toks, q, 0);
        if let (r, Outcome::Parsed(condition)) = parse_expression(toks, q, 0) {
            if let (s, Outcome::Parsed(_)) = expect_token(toks, r, kind_at(toks, r) is RightParen, "expected )"@) {
                if advanced(toks, p, s) {
                    lemma_braced_block_progress(toks, s);
                }
            }
        }
    }
}

/// The rest of a function declaration stops between where it starts and the end of the tokens.
pub proof fn lemma_function_progress(toks: Seq<Token>, p: int)
    requires
        0 <= p <= toks.len(),
    ensures
        moves_forward(toks, p, parse_function(toks, p), false),
    decreases toks.len() - p, 0int,
{
    if let (q, Outcome::Parsed(name)) = expect_name(toks, p, plain_name_of(kind_at(toks, p)), "expected identifier"@) {
        if let (r, Outcome::Parsed(_)) = expect_token(toks, q, kind_at(toks, q) is LeftParen, "expected ("@) {
            lemma_params_progress(toks, r, Seq::empty());
            if let (s, Outcome::Parsed(params)) = parse_params(toks, r, Seq::empty()) {
                if let (t, Outcome::Parsed(_)) = expect_token(toks, s, kind_at(toks, s) is RightParen, "expected )"@) {
                    if kind_at(toks, t) is Colon {
                        lemma_type_progress(toks, step(toks, t));
                    }
                    if let (u, Outcome::Parsed(return_type)) = parse_return_type(toks, t) {
                        if advanced(toks, p, u) {
                            lemma_braced_block_progress(toks, u);
                        }
                    }
                }
            }
        }
    }
}

/// A class body stops between where it starts and the end of the tokens.
pub proof fn lemma_class_body_progress(toks: Seq<Token>, p: int, acc: Seq<StmtModel>)
    requires
        0 <= p <= toks.len(),
    ensures
        moves_forward(toks, p, parse_class_body(toks, p, acc), false),
    decreases toks.len() - p, 2int,
{
    let k = kind_at(toks, p);
    if !(k is RightBrace || k is Eof) {
        lemma_statement_progress(toks, p);
        if let (q, Outcome::Parsed(s)) = parse_statement(toks, p) {
            if let Some(m) = class_member(s) {
                if advanced(toks, p, q) {
                    lemma_class_body_progress(toks, q, acc.push(m));
                }
            }
        }
    }
}

/// A class declaration, which consumes at least one token when it parses, stops between where it starts and the end of the tokens.
pub proof fn lemma_class_progress(toks: Seq<Token>, p: int)
    requires
        0 <= p <= toks.len(),
    ensures
        moves_forward(toks, p, parse_class(toks, p), true),
    decreases toks.len() - p, 0int,
{
    let p1 = step(toks, p);
    if let (q, Outcome::Parsed(name)) = expect_name(toks, p1, plain_name_of(kind_at(toks, p1)), "expected class name"@) {
        let (r, ext) = if kind_at(toks, q) is Extends {
            let q1 = step(toks, q);
            match expect_name(toks, q1, plain_name_of(kind_at(toks, q1)), "expected identifier"@) {
                (r, Outcome::Parsed(e)) => (r, Outcome::Parsed(Some(e))),
                (r, o) => (r, relay(o)),
            }
        } else {
            (q, Outcome::Parsed(None))
        };
        if let Outcome::Parsed(extends) = ext {
            if kind_at(toks, r) is Implements {
                lemma_implements_progress(toks, step(toks, r), Seq::empty());
            }
            let (s, imp) = if kind_at(toks, r) is Implements {
                parse_implements(toks, step(toks, r), Seq::empty())
            } else {
                (r, Outcome::Parsed(Seq::empty()))
            };
            if let Outcome::Parsed(implements) = imp {
                if let (t, Outcome::Parsed(_)) = expect_token(toks, s, kind_at(toks, s) is LeftBrace, "expected left-brace"@) {
                    if advanced(toks, p, t) {
                        lemma_class_body_progress(toks, t, Seq::empty());
                    }
                }
            }
        }
    }
}

/// A whole file stops between where it starts and the end of the tokens.
pub proof fn lemma_program_progress(toks: Seq<Token>, p: int, acc: Seq<StmtModel>)
    requires
        0 <= p <= toks.len(),
    ensures
        moves_forward(toks, p, parse_program(toks, p, acc), false),
    decreases toks.len() - p,
{
    let k = kind_at(toks, p);
    if !(k is Eof) {
        if k is OpenTag {
            lemma_program_progress(toks, step(toks, p), acc);
        } else {
            lemma_statement_progress(toks, p);
            if let (q, Outcome::Parsed(s)) = parse_statement(toks, p) {
                if advanced(toks, p, q) {
                    lemma_program_progress(toks, q, acc.push(s));
                }
            }
        }
    }
}

} // verus!
