//! What a grammar rule reads: the tokens from where it starts up to where it
//! stops. Two streams that hold the same tokens over that window, at any
//! offset, give the same result at the same offset.
use vstd::prelude::*;
use crate::token::{Token, TokenKind, token_at, kind_at, step, any_name_of, namespace_name_of, plain_name_of, variable_name_of};
use crate::ast::{ExprModel, ArrayItemModel, ParamModel, UseModel, StmtModel};
use crate::grammar::{
    Outcome, relay, expected, expect_name, is_type_separator, advanced, infix_model, postfix_power,
    infix_power, parse_type_names, parse_type, parse_expression, parse_expression_tail, parse_postfix,
    parse_call_args, parse_array_items, expect_token, parse_use_list, parse_echo_values, parse_params,
    parse_return_type, parse_implements, class_member, parse_statement, parse_block, parse_braced_block,
    parse_namespace, parse_if, parse_echo, parse_return, parse_function, parse_class_body, parse_class, parse_program,
};
use crate::progress::{
    lemma_type_names_progress, lemma_expression_progress, lemma_tail_progress, lemma_postfix_progress,
    lemma_call_args_progress, lemma_array_items_progress, lemma_type_progress, lemma_use_list_progress,
    lemma_echo_values_progress, lemma_params_progress, lemma_implements_progress, lemma_statement_progress,
    lemma_block_progress, lemma_braced_block_progress, lemma_namespace_progress, lemma_if_progress,
    lemma_function_progress, lemma_class_body_progress, lemma_class_progress, lemma_program_progress,
};

verus! {

/// `a` from `lo` to `hi` holds the tokens of `b` from `lo + d` to `hi + d`,
/// and each of these positions lies within both streams, or at the end of both.
pub open spec fn shifted(a: Seq<Token>, b: Seq<Token>, d: int, lo: int, hi: int) -> bool {
    forall|j: int|
        lo <= j <= hi ==> {
            &&& #[trigger] token_at(a, j) == token_at(b, j + d)
            &&& j <= a.len()
            &&& j + d <= b.len()
            &&& (j < a.len() <==> j + d < b.len())
        }
}

/// `rb` is `ra` moved by `d` positions.
pub open spec fn moved_by<A>(ra: (int, Outcome<A>), rb: (int, Outcome<A>), d: int) -> bool {
    rb.0 == ra.0 + d && rb.1 == ra.1
}

/// Where `a` and `b` hold the same tokens over what the rule for `type names` reads from `p` on, it reads the same
/// from `p + d` in `b`.
pub proof fn frame_type_names(a: Seq<Token>, b: Seq<Token>, d: int, p: int, pipe: bool, acc: Seq<Seq<char>>)
    requires
        0 <= p <= a.len(),
        0 <= p + d,
        shifted(a, b, d, p, parse_type_names(a, p, pipe, acc).0),
    ensures
        moved_by(parse_type_names(a, p, pipe, acc), parse_type_names(b, p + d, pipe, acc), d),
    decreases a.len() - p,
{
    lemma_type_names_progress(a, p, pipe, acc);
    assert(token_at(a, p) == token_at(b, p + d));
    if !(kind_at(a, p) is Eof) {
        if let Some(name) = any_name_of(kind_at(a, p)) {
            let q = step(a, p);
            if is_type_separator(kind_at(a, q), pipe) {
                lemma_type_names_progress(a, q, pipe, acc.push(name));
            }
            assert(token_at(a, q) == token_at(b, q + d));
            if is_type_separator(kind_at(a, q), pipe) {
                frame_type_names(a, b, d, q, pipe, acc.push(name));
            }
        }
    }
}

/// Where `a` and `b` hold the same tokens over what the rule for `type` reads from `p` on, it reads the same
/// from `p + d` in `b`.
pub proof fn frame_type(a: Seq<Token>, b: Seq<Token>, d: int, p: int)
    requires
        0 <= p <= a.len(),
        0 <= p + d,
        shifted(a, b, d, p, parse_type(a, p).0),
    ensures
        moved_by(parse_type(a, p), parse_type(b, p + d), d),
{
    lemma_type_progress(a, p);
    assert(token_at(a, p) == token_at(b, p + d));
    if kind_at(a, p) is Question {
        assert(token_at(a, p + 1) == token_at(b, p + 1 + d));
    } else {
        if let (q, Outcome::Parsed(name)) = expect_name(a, p, any_name_of(kind_at(a, p)), "expected identifier"@) {
            if kind_at(a, q) is Pipe {
                lemma_type_names_progress(a, q + 1, true, seq![name]);
            } else if kind_at(a, q) is Ampersand {
                lemma_type_names_progress(a, q + 1, false, seq![name]);
            }
            assert(token_at(a, q) == token_at(b, q + d));
            if kind_at(a, q) is Pipe {
                frame_type_names(a, b, d, q + 1, true, seq![name]);
            } else if kind_at(a, q) is Ampersand {
                frame_type_names(a, b, d, q + 1, false, seq![name]);
            }
        }
    }
}

/// Where `a` and `b` hold the same tokens over what the rule for `expression` reads from `p` on, it reads the same
/// from `p + d` in `b`.
pub proof fn frame_expression(a: Seq<Token>, b: Seq<Token>, d: int, p: int, bp: u8)
    requires
        0 <= p <= a.len(),
        0 <= p + d,
        shifted(a, b, d, p, parse_expression(a, p, bp).0),
    ensures
        moved_by(parse_expression(a, p, bp), parse_expression(b, p + d, bp), d),
    decreases a.len() - p, 1int,
{
    lemma_expression_progress(a, p, bp);
    assert(token_at(a, p) == token_at(b, p + d));
    let k = kind_at(a, p);
    if !(k is Eof) {
        match k {
            TokenKind::LeftParen => lemma_expression_progress(a, p + 1, 0),
            TokenKind::LeftBracket => lemma_array_items_progress(a, p + 1, Seq::empty()),
            _ => {},
        }
        let (q, lhs) = match k {
            TokenKind::Variable(v) => (p, Outcome::Parsed(ExprModel::Variable(v@))),
            TokenKind::Int(i) => (p, Outcome::Parsed(ExprModel::Int(i))),
            TokenKind::Identifier(s) => (p, Outcome::Parsed(ExprModel::Identifier(s@))),
            TokenKind::LeftParen => match parse_expression(a, step(a, p), 0) {
                (r, Outcome::Parsed(e)) => if kind_at(a, r) is RightParen {
                    (r, Outcome::Parsed(e))
                } else {
                    (r, Outcome::Failed(expected(a, r, "expected right paren"@)))
                },
                (r, o) => (r, o),
            },
            TokenKind::LeftBracket => match parse_array_items(a, step(a, p), Seq::empty()) {
                (r, Outcome::Parsed(items)) => (r, Outcome::Parsed(ExprModel::Array(items))),
                (r, o) => (r, relay(o)),
            },
            _ => (p, Outcome::Unsupported),
        };
        if let Outcome::Parsed(l) = lhs {
            let m = step(a, q);
            if advanced(a, p, m) {
                lemma_tail_progress(a, m, bp, l);
            }
        }
        match k {
            TokenKind::LeftParen => {
                frame_expression(a, b, d, p + 1, 0);
                let r = parse_expression(a, p + 1, 0).0;
                assert(token_at(a, r) == token_at(b, r + d));
            },
            TokenKind::LeftBracket => frame_array_items(a, b, d, p + 1, Seq::empty()),
            _ => {},
        }
        assert(token_at(a, q) == token_at(b, q + d));
        if let Outcome::Parsed(l) = lhs {
            let m = step(a, q);
            if advanced(a, p, m) {
                frame_tail(a, b, d, m, bp, l);
            }
        }
    }
}

/// Where `a` and `b` hold the same tokens over what the rule for `tail` reads from `p` on, it reads the same
/// from `p + d` in `b`.
pub proof fn frame_tail(a: Seq<Token>, b: Seq<Token>, d: int, p: int, bp: u8, lhs: ExprModel)
    requires
        0 <= p <= a.len(),
        0 <= p + d,
        shifted(a, b, d, p, parse_expression_tail(a, p, bp, lhs).0),
    ensures
        moved_by(parse_expression_tail(a, p, bp, lhs), parse_expression_tail(b, p + d, bp, lhs), d),
    decreases a.len() - p, 0int,
{
    lemma_tail_progress(a, p, bp, lhs);
    assert(token_at(a, p) == token_at(b, p + d));
    let k = kind_at(a, p);
    if !(k is SemiColon || k is Eof) {
        match postfix_power(k) {
            Some(l) => if !(l < bp) {
                lemma_postfix_progress(a, p + 1, lhs, k);
                if let (q, Outcome::Parsed(e)) = parse_postfix(a, p + 1, lhs, k) {
                    if advanced(a, p, q) {
                        lemma_tail_progress(a, q, bp, e);
                    }
                }
                frame_postfix(a, b, d, p + 1, lhs, k);
                if let (q, Outcome::Parsed(e)) = parse_postfix(a, p + 1, lhs, k) {
                    if advanced(a, p, q) {
                        frame_tail(a, b, d, q, bp, e);
                    }
                }
            },
            None => if let Some((l, r)) = infix_power(k) {
                if !(l < bp) {
                    lemma_expression_progress(a, p + 1, r);
                    if let (q, Outcome::Parsed(rhs)) = parse_expression(a, p + 1, r) {
                        if advanced(a, p, q) {
                            lemma_tail_progress(a, q, bp, infix_model(lhs, k, rhs));
                        }
                    }
                    frame_expression(a, b, d, p + 1, r);
                    if let (q, Outcome::Parsed(rhs)) = parse_expression(a, p + 1, r) {
                        if advanced(a, p, q) {
                            frame_tail(a, b, d, q, bp, infix_model(lhs, k, rhs));
                        }
                    }
                }
            },
        }
    }
}

/// Where `a` and `b` hold the same tokens over what the rule for `postfix` reads from `p` on, it reads the same
/// from `p + d` in `b`.
pub proof fn frame_postfix(a: Seq<Token>, b: Seq<Token>, d: int, p: int, lhs: ExprModel, op: TokenKind)
    requires
        0 <= p <= a.len(),
        0 <= p + d,
        shifted(a, b, d, p, parse_postfix(a, p, lhs, op).0),
    ensures
        moved_by(parse_postfix(a, p, lhs, op), parse_postfix(b, p + d, lhs, op), d),
    decreases a.len() - p, 3int,
{
    if op is LeftParen {
        lemma_call_args_progress(a, p, Seq::empty());
        frame_call_args(a, b, d, p, Seq::empty());
        let q = parse_call_args(a, p, Seq::empty()).0;
        assert(token_at(a, q) == token_at(b, q + d));
    }
}

/// Where `a` and `b` hold the same tokens over what the rule for `call args` reads from `p` on, it reads the same
/// from `p + d` in `b`.
pub proof fn frame_call_args(a: Seq<Token>, b: Seq<Token>, d: int, p: int, acc: Seq<ExprModel>)
    requires
        0 <= p <= a.len(),
        0 <= p + d,
        shifted(a, b, d, p, parse_call_args(a, p, acc).0),
    ensures
        moved_by(parse_call_args(a, p, acc), parse_call_args(b, p + d, acc), d),
    decreases a.len() - p, 2int,
{
    lemma_call_args_progress(a, p, acc);
    assert(token_at(a, p) == token_at(b, p + d));
    let k = kind_at(a, p);
    if !(k is Eof || k is RightParen) {
        lemma_expression_progress(a, p, 0);
        if let (q, Outcome::Parsed(e)) = parse_expression(a, p, 0) {
            let r = if kind_at(a, q) is Comma {
                step(a, q)
            } else {
                q
            };
            if advanced(a, p, r) {
                lemma_call_args_progress(a, r, acc.push(e));
            }
        }
        frame_expression(a, b, d, p, 0);
        if let (q, Outcome::Parsed(e)) = parse_expression(a, p, 0) {
            assert(token_at(a, q) == token_at(b, q + d));
            let r = if kind_at(a, q) is Comma {
                step(a, q)
            } else {
                q
            };
            if advanced(a, p, r) {
                frame_call_args(a, b, d, r, acc.push(e));
            }
        }
    }
}

/// Where `a` and `b` hold the same tokens over what the rule for `array items` reads from `p` on, it reads the same
/// from `p + d` in `b`.
pub proof fn frame_array_items(a: Seq<Token>, b: Seq<Token>, d: int, p: int, acc: Seq<ArrayItemModel>)
    requires
        0 <= p <= a.len(),
        0 <= p + d,
        shifted(a, b, d, p, parse_array_items(a, p, acc).0),
    ensures
        moved_by(parse_array_items(a, p, acc), parse_array_items(b, p + d, acc), d),
    decreases a.len() - p, 2int,
{
    lemma_array_items_progress(a, p, acc);
    assert(token_at(a, p) == token_at(b, p + d));
    if !(kind_at(a, p) is RightBracket) {
        lemma_expression_progress(a, p, 0);
        if let (q, Outcome::Parsed(v)) = parse_expression(a, p, 0) {
            if kind_at(a, q) is DoubleArrow && advanced(a, p, q) {
                lemma_expression_progress(a, step(a, q), 0);
            }
            let (r, item) = if kind_at(a, q) is DoubleArrow {
                if advanced(a, p, q) {
                    match parse_expression(a, step(a, q), 0) {
                        (r, Outcome::Parsed(w)) => (r, Outcome::Parsed(ArrayItemModel { key: Some(v), value: w })),
                        (r, o) => (r, relay(o)),
                    }
                } else {
                    (q, Outcome::Unsupported)
                }
            } else {
                (q, Outcome::Parsed(ArrayItemModel { key: None, value: v }))
            };
            if let Outcome::Parsed(it) = item {
                let s = if kind_at(a, r) is Comma {
                    step(a, r)
                } else {
                    r
                };
                if advanced(a, p, s) {
                    lemma_array_items_progress(a, s, acc.push(it));
                }
            }
            frame_expression(a, b, d, p, 0);
            assert(token_at(a, q) == token_at(b, q + d));
            if kind_at(a, q) is DoubleArrow && advanced(a, p, q) {
                frame_expression(a, b, d, step(a, q), 0);
            }
            assert(token_at(a, r) == token_at(b, r + d));
            if let Outcome::Parsed(it) = item {
                let s = if kind_at(a, r) is Comma {
                    step(a, r)
                } else {
                    r
                };
                if advanced(a, p, s) {
                    frame_array_items(a, b, d, s, acc.push(it));
                }
            }
        } else {
            frame_expression(a, b, d, p, 0);
        }
    }
}

/// Where `a` and `b` hold the same tokens over what the rule for `use list` reads from `p` on, it reads the same
/// from `p + d` in `b`.
pub proof fn frame_use_list(a: Seq<Token>, b: Seq<Token>, d: int, p: int, acc: Seq<UseModel>)
    requires
        0 <= p <= a.len(),
        0 <= p + d,
        shifted(a, b, d, p, parse_use_list(a, p, acc).0),
    ensures
        moved_by(parse_use_list(a, p, acc), parse_use_list(b, p + d, acc), d),
    decreases a.len() - p,
{
    lemma_use_list_progress(a, p, acc);
    assert(token_at(a, p) == token_at(b, p + d));
    if !(kind_at(a, p) is Eof) {
        if let (q, Outcome::Parsed(name)) = expect_name(a, p, any_name_of(kind_at(a, p)), "expected identifier in use statement"@) {
            let q1 = step(a, q);
            let (r, alias) = if kind_at(a, q) is As {
                match expect_name(a, q1, plain_name_of(kind_at(a, q1)), "expected identifier after as"@) {
                    (r, Outcome::Parsed(x)) => (r, Outcome::Parsed(Some(x))),
                    (r, o) => (r, relay(o)),
                }
            } else {
                (q, Outcome::Parsed(None))
            };
            if let Outcome::Parsed(x) = alias {
                let s = step(a, r);
                if kind_at(a, r) is Comma && advanced(a, p, s) {
                    lemma_use_list_progress(a, s, acc.push(UseModel { name, alias: x }));
                }
            }
            assert(token_at(a, q) == token_at(b, q + d));
            if kind_at(a, q) is As {
                assert(token_at(a, q1) == token_at(b, q1 + d));
            }
            if let Outcome::Parsed(x) = alias {
                assert(token_at(a, r) == token_at(b, r + d));
                let s = step(a, r);
                if kind_at(a, r) is Comma && advanced(a, p, s) {
                    frame_use_list(a, b, d, s, acc.push(UseModel { name, alias: x }));
                }
            }
        }
    }
}

/// Where `a` and `b` hold the same tokens over what the rule for `echo values` reads from `p` on, it reads the same
/// from `p + d` in `b`.
pub proof fn frame_echo_values(a: Seq<Token>, b: Seq<Token>, d: int, p: int, acc: Seq<ExprModel>)
    requires
        0 <= p <= a.len(),
        0 <= p + d,
        shifted(a, b, d, p, parse_echo_values(a, p, acc).0),
    ensures
        moved_by(parse_echo_values(a, p, acc), parse_echo_values(b, p + d, acc), d),
    decreases a.len() - p,
{
    lemma_echo_values_progress(a, p, acc);
    assert(token_at(a, p) == token_at(b, p + d));
    let k = kind_at(a, p);
    if !(k is Eof || k is SemiColon) {
        lemma_expression_progress(a, p, 0);
        if let (q, Outcome::Parsed(e)) = parse_expression(a, p, 0) {
            let r = if kind_at(a, q) is Comma {
                step(a, q)
            } else {
                q
            };
            if advanced(a, p, r) {
                lemma_echo_values_progress(a, r, acc.push(e));
            }
        }
        frame_expression(a, b, d, p, 0);
        if let (q, Outcome::Parsed(e)) = parse_expression(a, p, 0) {
            assert(token_at(a, q) == token_at(b, q + d));
            let r = if kind_at(a, q) is Comma {
                step(a, q)
            } else {
                q
            };
            if advanced(a, p, r) {
                frame_echo_values(a, b, d, r, acc.push(e));
            }
        }
    }
}

/// Where `a` and `b` hold the same tokens over what the rule for `params` reads from `p` on, it reads the same
/// from `p + d` in `b`.
pub proof fn frame_params(a: Seq<Token>, b: Seq<Token>, d: int, p: int, acc: Seq<ParamModel>)
    requires
        0 <= p <= a.len(),
        0 <= p + d,
        shifted(a, b, d, p, parse_params(a, p, acc).0),
    ensures
        moved_by(parse_params(a, p, acc), parse_params(b, p + d, acc), d),
    decreases a.len() - p,
{
    lemma_params_progress(a, p, acc);
    assert(token_at(a, p) == token_at(b, p + d));
    let k = kind_at(a, p);
    if !(k is Eof || k is RightParen) {
        lemma_type_progress(a, p);
        let (q, ty) = if !(k is Variable) {
            match parse_type(a, p) {
                (q, Outcome::Parsed(t)) => (q, Outcome::Parsed(Some(t))),
                (q, o) => (q, relay(o)),
            }
        } else {
            (p, Outcome::Parsed(None))
        };
        if let Outcome::Parsed(t) = ty {
            if let (r, Outcome::Parsed(v)) = expect_name(a, q, variable_name_of(kind_at(a, q)), "expected variable"@) {
                let s = if kind_at(a, r) is Comma {
                    step(a, r)
                } else {
                    r
                };
                if advanced(a, p, s) {
                    lemma_params_progress(a, s, acc.push(ParamModel { name: ExprModel::Variable(v), ty: t }));
                }
            }
        }
        if !(k is Variable) {
            frame_type(a, b, d, p);
        }
        assert(token_at(a, q) == token_at(b, q + d));
        if let Outcome::Parsed(t) = ty {
            if let (r, Outcome::Parsed(v)) = expect_name(a, q, variable_name_of(kind_at(a, q)), "expected variable"@) {
                assert(token_at(a, r) == token_at(b, r + d));
                let s = if kind_at(a, r) is Comma {
                    step(a, r)
                } else {
                    r
                };
                if advanced(a, p, s) {
                    frame_params(a, b, d, s, acc.push(ParamModel { name: ExprModel::Variable(v), ty: t }));
                }
            }
        }
    }
}

/// Where `a` and `b` hold the same tokens over what the rule for `implements` reads from `p` on, it reads the same
/// from `p + d` in `b`.
pub proof fn frame_implements(a: Seq<Token>, b: Seq<Token>, d: int, p: int, acc: Seq<Seq<char>>)
    requires
        0 <= p <= a.len(),
        0 <= p + d,
        shifted(a, b, d, p, parse_implements(a, p, acc).0),
    ensures
        moved_by(parse_implements(a, p, acc), parse_implements(b, p + d, acc), d),
    decreases a.len() - p,
{
    lemma_implements_progress(a, p, acc);
    assert(token_at(a, p) == token_at(b, p + d));
    if !(kind_at(a, p) is LeftBrace) {
        let q = if kind_at(a, p) is Comma {
            step(a, p)
        } else {
            p
        };
        if let (r, Outcome::Parsed(name)) = expect_name(a, q, plain_name_of(kind_at(a, q)), "expected identifier"@) {
            if advanced(a, p, r) {
                lemma_implements_progress(a, r, acc.push(name));
            }
        }
        assert(token_at(a, q) == token_at(b, q + d));
        if let (r, Outcome::Parsed(name)) = expect_name(a, q, plain_name_of(kind_at(a, q)), "expected identifier"@) {
            if advanced(a, p, r) {
                frame_implements(a, b, d, r, acc.push(name));
            }
        }
    }
}

/// Where `a` and `b` hold the same tokens over what the rule for `echo` reads from `p` on, it reads the same
/// from `p + d` in `b`.
pub proof fn frame_echo(a: Seq<Token>, b: Seq<Token>, d: int, p: int)
    requires
        0 <= p <= a.len(),
        0 <= p + d,
        shifted(a, b, d, p, parse_echo(a, p).0),
    ensures
        moved_by(parse_echo(a, p), parse_echo(b, p + d), d),
{
    lemma_echo_values_progress(a, p, Seq::empty());
    frame_echo_values(a, b, d, p, Seq::empty());
    let r = parse_echo_values(a, p, Seq::empty()).0;
    assert(token_at(a, r) == token_at(b, r + d));
}

/// Where `a` and `b` hold the same tokens over what the rule for `return` reads from `p` on, it reads the same
/// from `p + d` in `b`.
pub proof fn frame_return(a: Seq<Token>, b: Seq<Token>, d: int, p: int)
    requires
        0 <= p <= a.len(),
        0 <= p + d,
        shifted(a, b, d, p, parse_return(a, p).0),
    ensures
        moved_by(parse_return(a, p), parse_return(b, p + d), d),
{
    if !(kind_at(a, p) is SemiColon) {
        lemma_expression_progress(a, p, 0);
    }
    assert(token_at(a, p) == token_at(b, p + d));
    if !(kind_at(a, p) is SemiColon) {
        frame_expression(a, b, d, p, 0);
        let r = parse_expression(a, p, 0).0;
        assert(token_at(a, r) == token_at(b, r + d));
    }
}

#[verifier::rlimit(50)]
/// Where `a` and `b` hold the same tokens over what the rule for `statement` reads from `p` on, it reads the same
/// from `p + d` in `b`.
pub proof fn frame_statement(a: Seq<Token>, b: Seq<Token>, d: int, p: int)
    requires
        0 <= p <= a.len(),
        0 <= p + d,
        shifted(a, b, d, p, parse_statement(a, p).0),
    ensures
        moved_by(parse_statement(a, p), parse_statement(b, p + d), d),
    decreases a.len() - p, 1int,
{
    lemma_statement_progress(a, p);
    assert(token_at(a, p) == token_at(b, p + d));
    let q = step(a, p);
    match kind_at(a, p) {
        TokenKind::Use => {
            lemma_use_list_progress(a, q, Seq::empty());
            frame_use_list(a, b, d, q, Seq::empty());
        },
        TokenKind::Namespace => {
            lemma_namespace_progress(a, q);
            frame_namespace(a, b, d, q);
        },
        TokenKind::If => {
            lemma_if_progress(a, q);
            frame_if(a, b, d, q);
        },
        TokenKind::Class => frame_class(a, b, d, p),
        TokenKind::Echo => frame_echo(a, b, d, q),
        TokenKind::Return => frame_return(a, b, d, q),
        TokenKind::Function => {
            lemma_function_progress(a, q);
            frame_function(a, b, d, q);
        },
        TokenKind::Var => {
            assert(token_at(a, q) == token_at(b, q + d));
            if variable_name_of(kind_at(a, q)) is Some {
                assert(token_at(a, q + 1) == token_at(b, q + 1 + d));
            }
        },
        TokenKind::InlineHtml(_) => {},
        TokenKind::Comment(_) => {},
        TokenKind::SemiColon => {},
        _ => {
            lemma_expression_progress(a, p, 0);
            frame_expression(a, b, d, p, 0);
            let r = parse_expression(a, p, 0).0;
            assert(token_at(a, r) == token_at(b, r + d));
        },
    }
}

/// Where `a` and `b` hold the same tokens over what the rule for `block` reads from `p` on, it reads the same
/// from `p + d` in `b`.
pub proof fn frame_block(a: Seq<Token>, b: Seq<Token>, d: int, p: int, braced: bool, acc: Seq<StmtModel>)
    requires
        0 <= p <= a.len(),
        0 <= p + d,
        shifted(a, b, d, p, parse_block(a, p, braced, acc).0),
    ensures
        moved_by(parse_block(a, p, braced, acc), parse_block(b, p + d, braced, acc), d),
    decreases a.len() - p, 2int,
{
    lemma_block_progress(a, p, braced, acc);
    assert(token_at(a, p) == token_at(b, p + d));
    let k = kind_at(a, p);
    if !(k is Eof || (braced && k is RightBrace)) {
        lemma_statement_progress(a, p);
        if let (q, Outcome::Parsed(s)) = parse_statement(a, p) {
            if advanced(a, p, q) {
                lemma_block_progress(a, q, braced, acc.push(s));
            }
        }
        frame_statement(a, b, d, p);
        if let (q, Outcome::Parsed(s)) = parse_statement(a, p) {
            if advanced(a, p, q) {
                frame_block(a, b, d, q, braced, acc.push(s));
            }
        }
    }
}

/// Where `a` and `b` hold the same tokens over what the rule for `braced block` reads from `p` on, it reads the same
/// from `p + d` in `b`.
pub proof fn frame_braced_block(a: Seq<Token>, b: Seq<Token>, d: int, p: int)
    requires
        0 <= p <= a.len(),
        0 <= p + d,
        shifted(a, b, d, p, parse_braced_block(a, p).0),
    ensures
        moved_by(parse_braced_block(a, p), parse_braced_block(b, p + d), d),
    decreases a.len() - p, 0int,
{
    lemma_braced_block_progress(a, p);
    assert(token_at(a, p) == token_at(b, p + d));
    if kind_at(a, p) is LeftBrace {
        lemma_block_progress(a, p + 1, true, Seq::empty());
        frame_block(a, b, d, p + 1, true, Seq::empty());
        let q = parse_block(a, p + 1, true, Seq::empty()).0;
        assert(token_at(a, q) == token_at(b, q + d));
    }
}

/// Where `a` and `b` hold the same tokens over what the rule for `namespace` reads from `p` on, it reads the same
/// from `p + d` in `b`.
pub proof fn frame_namespace(a: Seq<Token>, b: Seq<Token>, d: int, p: int)
    requires
        0 <= p <= a.len(),
        0 <= p + d,
        shifted(a, b, d, p, parse_namespace(a, p).0),
    ensures
        moved_by(parse_namespace(a, p), parse_namespace(b, p + d), d),
    decreases a.len() - p, 0int,
{
    lemma_namespace_progress(a, p);
    assert(token_at(a, p) == token_at(b, p + d));
    if let (q, Outcome::Parsed(name)) = expect_name(a, p, namespace_name_of(kind_at(a, p)), "expected identifier after namespace"@) {
        let braced = kind_at(a, q) is LeftBrace;
        let (r, opened) = if braced {
            (step(a, q), Outcome::Parsed(()))
        } else {
            expect_token(a, q, kind_at(a, q) is SemiColon, "expected semi-colon"@)
        };
        if opened is Parsed && advanced(a, p, r) {
            lemma_block_progress(a, r, braced, Seq::empty());
        }
        assert(token_at(a, q) == token_at(b, q + d));
        if opened is Parsed && advanced(a, p, r) {
            frame_block(a, b, d, r, braced, Seq::empty());
            let s = parse_block(a, r, braced, Seq::empty()).0;
            assert(token_at(a, s) == token_at(b, s + d));
        }
    }
}

/// Where `a` and `b` hold the same tokens over what the rule for `if` reads from `p` on, it reads the same
/// from `p + d` in `b`.
pub proof fn frame_if(a: Seq<Token>, b: Seq<Token>, d: int, p: int)
    requires
        0 <= p <= a.len(),
        0 <= p + d,
        shifted(a, b, d, p, parse_if(a, p).0),
    ensures
        moved_by(parse_if(a, p), parse_if(b, p + d), d),
    decreases a.len() - p, 0int,
{
    lemma_if_progress(a, p);
    assert(token_at(a, p) == token_at(b, p + d));
    if let (q, Outcome::Parsed(_)) = expect_token(a, p, kind_at(a, p) is LeftParen, "expected ("@) {
        lemma_expression_progress(a, q, 0);
        if let (r, Outcome::Parsed(condition)) = parse_expression(a, q, 0) {
            if let (s, Outcome::Parsed(_)) = expect_token(a, r, kind_at(a, r) is RightParen, "expected )"@) {
                if advanced(a, p, s) {
                    lemma_braced_block_progress(a, s);
                }
            }
        }
        frame_expression(a, b, d, q, 0);
        if let (r, Outcome::Parsed(condition)) = parse_expression(a, q, 0) {
            assert(token_at(a, r) == token_at(b, r + d));
            if let (s, Outcome::Parsed(_)) = expect_token(a, r, kind_at(a, r) is RightParen, "expected )"@) {
                if advanced(a, p, s) {
                    frame_braced_block(a, b, d, s);
                }
            }
        }
    }
}

#[verifier::rlimit(50)]
/// Where `a` and `b` hold the same tokens over what the rule for `function` reads from `p` on, it reads the same
/// from `p + d` in `b`.
pub proof fn frame_function(a: Seq<Token>, b: Seq<Token>, d: int, p: int)
    requires
        0 <= p <= a.len(),
        0 <= p + d,
        shifted(a, b, d, p, parse_function(a, p).0),
    ensures
        moved_by(parse_function(a, p), parse_function(b, p + d), d),
    decreases a.len() - p, 0int,
{
    lemma_function_progress(a, p);
    assert(token_at(a, p) == token_at(b, p + d));
    if let (q, Outcome::Parsed(name)) = expect_name(a, p, plain_name_of(kind_at(a, p)), "expected identifier"@) {
        if let (r, Outcome::Parsed(_)) = expect_token(a, q, kind_at(a, q) is LeftParen, "expected ("@) {
            lemma_params_progress(a, r, Seq::empty());
            if let (s, Outcome::Parsed(params)) = parse_params(a, r, Seq::empty()) {
                if let (t, Outcome::Parsed(_)) = expect_token(a, s, kind_at(a, s) is RightParen, "expected )"@) {
                    if kind_at(a, t) is Colon {
                        lemma_type_progress(a, step(a, t));
                    }
                    if let (u, Outcome::Parsed(return_type)) = parse_return_type(a, t) {
                        if advanced(a, p, u) {
                            lemma_braced_block_progress(a, u);
                        }
                    }
                }
            }
        }
        assert(token_at(a, q) == token_at(b, q + d));
        if let (r, Outcome::Parsed(_)) = expect_token(a, q, kind_at(a, q) is LeftParen, "expected ("@) {
            frame_params(a, b, d, r, Seq::empty());
            if let (s, Outcome::Parsed(params)) = parse_params(a, r, Seq::empty()) {
                assert(token_at(a, s) == token_at(b, s + d));
                if let (t, Outcome::Parsed(_)) = expect_token(a, s, kind_at(a, s) is RightParen, "expected )"@) {
                    assert(token_at(a, t) == token_at(b, t + d));
                    if kind_at(a, t) is Colon {
                        frame_type(a, b, d, step(a, t));
                    }
                    if let (u, Outcome::Parsed(return_type)) = parse_return_type(a, t) {
                        if advanced(a, p, u) {
                            frame_braced_block(a, b, d, u);
                        }
                    }
                }
            }
        }
    }
}

/// Where `a` and `b` hold the same tokens over what the rule for `class body` reads from `p` on, it reads the same
/// from `p + d` in `b`.
pub proof fn frame_class_body(a: Seq<Token>, b: Seq<Token>, d: int, p: int, acc: Seq<StmtModel>)
    requires
        0 <= p <= a.len(),
        0 <= p + d,
        shifted(a, b, d, p, parse_class_body(a, p, acc).0),
    ensures
        moved_by(parse_class_body(a, p, acc), parse_class_body(b, p + d, acc), d),
    decreases a.len() - p, 2int,
{
    lemma_class_body_progress(a, p, acc);
    assert(token_at(a, p) == token_at(b, p + d));
    let k = kind_at(a, p);
    if !(k is RightBrace || k is Eof) {
        lemma_statement_progress(a, p);
        if let (q, Outcome::Parsed(s)) = parse_statement(a, p) {
            if let Some(m) = class_member(s) {
                if advanced(a, p, q) {
                    lemma_class_body_progress(a, q, acc.push(m));
                }
            }
        }
        frame_statement(a, b, d, p);
        if let (q, Outcome::Parsed(s)) = parse_statement(a, p) {
            assert(token_at(a, q) == token_at(b, q + d));
            if let Some(m) = class_member(s) {
                if advanced(a, p, q) {
                    frame_class_body(a, b, d, q, acc.push(m));
                }
            }
        }
    }
}

/// Where `a` and `b` hold the same tokens over what the rule for `class` reads from `p` on, it reads the same
/// from `p + d` in `b`.
pub proof fn frame_class(a: Seq<Token>, b: Seq<Token>, d: int, p: int)
    requires
        0 <= p <= a.len(),
        0 <= p + d,
        shifted(a, b, d, p, parse_class(a, p).0),
    ensures
        moved_by(parse_class(a, p), parse_class(b, p + d), d),
    decreases a.len() - p, 0int,
{
    lemma_class_progress(a, p);
    let p1 = step(a, p);
    if let (q, Outcome::Parsed(name)) = expect_name(a, p1, plain_name_of(kind_at(a, p1)), "expected class name"@) {
        let q1 = step(a, q);
        let (r, ext) = if kind_at(a, q) is Extends {
            match expect_name(a, q1, plain_name_of(kind_at(a, q1)), "expected identifier"@) {
                (r, Outcome::Parsed(e)) => (r, Outcome::Parsed(Some(e))),
                (r, o) => (r, relay(o)),
            }
        } else {
            (q, Outcome::Parsed(None))
        };
        if let Outcome::Parsed(extends) = ext {
            if kind_at(a, r) is Implements {
                lemma_implements_progress(a, step(a, r), Seq::empty());
            }
            let (s, imp) = if kind_at(a, r) is Implements {
                parse_implements(a, step(a, r), Seq::empty())
            } else {
                (r, Outcome::Parsed(Seq::empty()))
            };
            if let Outcome::Parsed(implements) = imp {
                if let (t, Outcome::Parsed(_)) = expect_token(a, s, kind_at(a, s) is LeftBrace, "expected left-brace"@) {
                    if advanced(a, p, t) {
                        lemma_class_body_progress(a, t, Seq::empty());
                    }
                }
            }
        }
    }
    assert(token_at(a, p) == token_at(b, p + d));
    assert(token_at(a, p1) == token_at(b, p1 + d));
    if let (q, Outcome::Parsed(name)) = expect_name(a, p1, plain_name_of(kind_at(a, p1)), "expected class name"@) {
        assert(token_at(a, q) == token_at(b, q + d));
        let q1 = step(a, q);
        let (r, ext) = if kind_at(a, q) is Extends {
            match expect_name(a, q1, plain_name_of(kind_at(a, q1)), "expected identifier"@) {
                (r, Outcome::Parsed(e)) => (r, Outcome::Parsed(Some(e))),
                (r, o) => (r, relay(o)),
            }
        } else {
            (q, Outcome::Parsed(None))
        };
        if kind_at(a, q) is Extends {
            assert(token_at(a, q1) == token_at(b, q1 + d));
        }
        if let Outcome::Parsed(extends) = ext {
            assert(token_at(a, r) == token_at(b, r + d));
            if kind_at(a, r) is Implements {
                frame_implements(a, b, d, step(a, r), Seq::empty());
            }
            let (s, imp) = if kind_at(a, r) is Implements {
                parse_implements(a, step(a, r), Seq::empty())
            } else {
                (r, Outcome::Parsed(Seq::empty()))
            };
            if let Outcome::Parsed(implements) = imp {
                assert(token_at(a, s) == token_at(b, s + d));
                if let (t, Outcome::Parsed(_)) = expect_token(a, s, kind_at(a, s) is LeftBrace, "expected left-brace"@) {
                    if advanced(a, p, t) {
                        frame_class_body(a, b, d, t, Seq::empty());
                        let u = parse_class_body(a, t, Seq::empty()).0;
                        assert(token_at(a, u) == token_at(b, u + d));
                    }
                }
            }
        }
    }
}

/// Where `a` and `b` hold the same tokens over what the rule for `program` reads from `p` on, it reads the same
/// from `p + d` in `b`.
pub proof fn frame_program(a: Seq<Token>, b: Seq<Token>, d: int, p: int, acc: Seq<StmtModel>)
    requires
        0 <= p <= a.len(),
        0 <= p + d,
        shifted(a, b, d, p, parse_program(a, p, acc).0),
    ensures
        moved_by(parse_program(a, p, acc), parse_program(b, p + d, acc), d),
    decreases a.len() - p,
{
    lemma_program_progress(a, p, acc);
    assert(token_at(a, p) == token_at(b, p + d));
    let k = kind_at(a, p);
    if !(k is Eof) {
        if k is OpenTag {
            lemma_program_progress(a, p + 1, acc);
            frame_program(a, b, d, p + 1, acc);
        } else {
            lemma_statement_progress(a, p);
            if let (q, Outcome::Parsed(s)) = parse_statement(a, p) {
                if advanced(a, p, q) {
                    lemma_program_progress(a, q, acc.push(s));
                }
            }
            frame_statement(a, b, d, p);
            if let (q, Outcome::Parsed(s)) = parse_statement(a, p) {
                if advanced(a, p, q) {
                    frame_program(a, b, d, q, acc.push(s));
                }
            }
        }
    }
}

} // verus!
