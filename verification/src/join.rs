//! Top-level statements parse independently of their neighbours: the program
//! read from two token streams joined is the two programs joined.
use vstd::prelude::*;
use crate::token::{Token, TokenKind, token_at, kind_at, step, any_name_of, plain_name_of};
use crate::ast::{UseModel, StmtModel};
use crate::grammar::{
    Outcome, relay, expect_name, expect_token, advanced, parse_expression, parse_use_list,
    parse_echo_values, parse_params, parse_return_type, parse_implements, parse_statement,
    parse_block, parse_braced_block, parse_if, parse_function, parse_class_body, parse_class, parse_program,
};
use crate::progress::{
    lemma_expression_progress, lemma_use_list_progress, lemma_echo_values_progress, lemma_params_progress,
    lemma_type_progress, lemma_implements_progress, lemma_statement_progress, lemma_block_progress,
    lemma_braced_block_progress, lemma_class_body_progress, lemma_program_progress,
};
use crate::frame::{
    shifted, moved_by, frame_expression, frame_echo_values, frame_params, frame_type,
    frame_implements, frame_statement, frame_block, frame_class_body, frame_program,
};

verus! {

proof fn lemma_use_list_shape(a: Seq<Token>, p: int, acc: Seq<UseModel>)
    requires
        0 <= p <= a.len(),
    ensures
        parse_use_list(a, p, acc) matches (q, Outcome::Parsed(_)) ==> {
            ||| q == p && kind_at(a, p) is Eof
            ||| p < q && (kind_at(a, q - 1) is SemiColon || (kind_at(a, q) is Eof && kind_at(a, q - 1) is Comma))
        },
    decreases a.len() - p,
{
    lemma_use_list_progress(a, p, acc);
    if !(kind_at(a, p) is Eof) {
        if let (q, Outcome::Parsed(name)) = expect_name(a, p, any_name_of(kind_at(a, p)), "expected identifier in use statement"@) {
            let (r, alias) = if kind_at(a, q) is As {
                let q1 = step(a, q);
                match expect_name(a, q1, plain_name_of(kind_at(a, q1)), "expected identifier after as"@) {
                    (r, Outcome::Parsed(x)) => (r, Outcome::Parsed(Some(x))),
                    (r, o) => (r, relay(o)),
                }
            } else {
                (q, Outcome::Parsed(None))
            };
            if let Outcome::Parsed(x) = alias {
                if kind_at(a, r) is Comma {
                    let s = step(a, r);
                    if advanced(a, p, s) {
                        lemma_use_list_shape(a, s, acc.push(UseModel { name, alias: x }));
                    }
                }
            }
        }
    }
}

/// A braced block that parses ends on the `}` that closes it.
pub proof fn lemma_braced_block_closes(a: Seq<Token>, p: int)
    ensures
        parse_braced_block(a, p) matches (q, Outcome::Parsed(_)) ==> q > 0 && kind_at(a, q - 1) is RightBrace,
{
}

/// An `if` statement that parses ends on the `}` of its block.
pub proof fn lemma_if_closes(a: Seq<Token>, p: int)
    ensures
        parse_if(a, p) matches (q, Outcome::Parsed(s)) ==> q > 0 && kind_at(a, q - 1) is RightBrace && s is If,
{
    if let (q, Outcome::Parsed(_)) = expect_token(a, p, kind_at(a, p) is LeftParen, "expected ("@) {
        if let (r, Outcome::Parsed(condition)) = parse_expression(a, q, 0) {
            if let (s, Outcome::Parsed(_)) = expect_token(a, r, kind_at(a, r) is RightParen, "expected )"@) {
                lemma_braced_block_closes(a, s);
            }
        }
    }
}

/// A function declaration that parses ends on the `}` of its body.
pub proof fn lemma_function_closes(a: Seq<Token>, p: int)
    ensures
        parse_function(a, p) matches (q, Outcome::Parsed(s)) ==> q > 0 && kind_at(a, q - 1) is RightBrace && s is Function,
{
    if let (q, Outcome::Parsed(name)) = expect_name(a, p, plain_name_of(kind_at(a, p)), "expected identifier"@) {
        if let (r, Outcome::Parsed(_)) = expect_token(a, q, kind_at(a, q) is LeftParen, "expected ("@) {
            if let (s, Outcome::Parsed(params)) = parse_params(a, r, Seq::empty()) {
                if let (t, Outcome::Parsed(_)) = expect_token(a, s, kind_at(a, s) is RightParen, "expected )"@) {
                    if let (u, Outcome::Parsed(return_type)) = parse_return_type(a, t) {
                        lemma_braced_block_closes(a, u);
                    }
                }
            }
        }
    }
}

/// A statement that parses ends on a token it consumed, other than the end of
/// the input; only a `namespace` without braces, and a `use` statement that
/// runs into the end of the input, end by looking at the token after them.
proof fn lemma_statement_closes(a: Seq<Token>, p: int)
    requires
        0 <= p <= a.len(),
    ensures
        parse_statement(a, p) matches (q, Outcome::Parsed(s)) ==> {
            &&& p < q
            &&& (s is Namespace <==> kind_at(a, p) is Namespace)
            &&& !(s is Namespace) ==> !(kind_at(a, q - 1) is Eof)
            &&& (s is Use && !(kind_at(a, q - 1) is SemiColon)) ==> (kind_at(a, q) is Eof && (kind_at(a, q - 1) is Comma
                || kind_at(a, q - 1) is Use))
        },
{
    lemma_statement_progress(a, p);
    let q = step(a, p);
    match kind_at(a, p) {
        TokenKind::Use => lemma_use_list_shape(a, q, Seq::empty()),
        TokenKind::If => lemma_if_closes(a, q),
        TokenKind::Function => lemma_function_closes(a, q),
        _ => {},
    }
}

proof fn excl_braced_block(a: Seq<Token>, b: Seq<Token>, d: int, p: int)
    requires
        0 <= p <= a.len(),
        0 <= p + d,
        parse_braced_block(a, p).1 is Parsed,
        shifted(a, b, d, p, parse_braced_block(a, p).0 - 1),
    ensures
        moved_by(parse_braced_block(a, p), parse_braced_block(b, p + d), d),
{
    lemma_braced_block_progress(a, p);
    assert(token_at(a, p) == token_at(b, p + d));
    lemma_block_progress(a, p + 1, true, Seq::empty());
    let q = parse_block(a, p + 1, true, Seq::empty()).0;
    frame_block(a, b, d, p + 1, true, Seq::empty());
    assert(token_at(a, q) == token_at(b, q + d));
}

proof fn excl_if(a: Seq<Token>, b: Seq<Token>, d: int, p: int)
    requires
        0 <= p <= a.len(),
        0 <= p + d,
        parse_if(a, p).1 is Parsed,
        shifted(a, b, d, p, parse_if(a, p).0 - 1),
    ensures
        moved_by(parse_if(a, p), parse_if(b, p + d), d),
{
    let q = p + 1;
    lemma_expression_progress(a, q, 0);
    let r = parse_expression(a, q, 0).0;
    let s = r + 1;
    lemma_braced_block_progress(a, s);
    assert(token_at(a, p) == token_at(b, p + d));
    frame_expression(a, b, d, q, 0);
    assert(token_at(a, r) == token_at(b, r + d));
    excl_braced_block(a, b, d, s);
}

#[verifier::rlimit(50)]
proof fn excl_function(a: Seq<Token>, b: Seq<Token>, d: int, p: int)
    requires
        0 <= p <= a.len(),
        0 <= p + d,
        parse_function(a, p).1 is Parsed,
        shifted(a, b, d, p, parse_function(a, p).0 - 1),
    ensures
        moved_by(parse_function(a, p), parse_function(b, p + d), d),
{
    let q = p + 1;
    let r = q + 1;
    lemma_params_progress(a, r, Seq::empty());
    let s = parse_params(a, r, Seq::empty()).0;
    let t = s + 1;
    if kind_at(a, t) is Colon {
        lemma_type_progress(a, t + 1);
    }
    let u = parse_return_type(a, t).0;
    lemma_braced_block_progress(a, u);
    assert(token_at(a, p) == token_at(b, p + d));
    assert(token_at(a, q) == token_at(b, q + d));
    frame_params(a, b, d, r, Seq::empty());
    assert(token_at(a, s) == token_at(b, s + d));
    assert(token_at(a, t) == token_at(b, t + d));
    if kind_at(a, t) is Colon {
        frame_type(a, b, d, t + 1);
    }
    excl_braced_block(a, b, d, u);
}

#[verifier::rlimit(50)]
proof fn excl_class(a: Seq<Token>, b: Seq<Token>, d: int, p: int)
    requires
        0 <= p <= a.len(),
        0 <= p + d,
        parse_class(a, p).1 is Parsed,
        shifted(a, b, d, p, parse_class(a, p).0 - 1),
    ensures
        moved_by(parse_class(a, p), parse_class(b, p + d), d),
{
    let p1 = step(a, p);
    let q = p1 + 1;
    let r = if kind_at(a, q) is Extends {
        q + 2
    } else {
        q
    };
    if kind_at(a, r) is Implements {
        lemma_implements_progress(a, r + 1, Seq::empty());
    }
    let s = if kind_at(a, r) is Implements {
        parse_implements(a, r + 1, Seq::empty()).0
    } else {
        r
    };
    let t = s + 1;
    lemma_class_body_progress(a, t, Seq::empty());
    let u = parse_class_body(a, t, Seq::empty()).0;
    assert(token_at(a, p) == token_at(b, p + d));
    assert(token_at(a, p1) == token_at(b, p1 + d));
    assert(token_at(a, q) == token_at(b, q + d));
    if kind_at(a, q) is Extends {
        assert(token_at(a, q + 1) == token_at(b, q + 1 + d));
    }
    assert(token_at(a, r) == token_at(b, r + d));
    if kind_at(a, r) is Implements {
        frame_implements(a, b, d, r + 1, Seq::empty());
    }
    assert(token_at(a, s) == token_at(b, s + d));
    frame_class_body(a, b, d, t, Seq::empty());
    assert(token_at(a, u) == token_at(b, u + d));
}

proof fn excl_use_list(a: Seq<Token>, b: Seq<Token>, d: int, p: int, acc: Seq<UseModel>)
    requires
        0 < p <= a.len(),
        0 <= p + d,
        !(kind_at(a, p - 1) is SemiColon),
        parse_use_list(a, p, acc) matches (q, Outcome::Parsed(_)) && kind_at(a, q - 1) is SemiColon,
        shifted(a, b, d, p, parse_use_list(a, p, acc).0 - 1),
    ensures
        moved_by(parse_use_list(a, p, acc), parse_use_list(b, p + d, acc), d),
    decreases a.len() - p,
{
    lemma_use_list_progress(a, p, acc);
    if !(kind_at(a, p) is Eof) {
        if let (q, Outcome::Parsed(name)) = expect_name(a, p, any_name_of(kind_at(a, p)), "expected identifier in use statement"@) {
            let q1 = step(a, q);
            let (r, alias) = if kind_at(a, q) is As {
                match expect_name(a, q1, plain_name_of(kind_at(a, q1)), "expected identifier after as"@) {
                    (r, Outcome::Parsed(x)) => (r, Outcome::Parsed(Some(x))),
                    (r, o) => (r, relay(o)),
                }
            } else {
                (q, Outcome::Parsed(None))
            };
            if let Outcome::Parsed(x) = alias {
                let s = step(a, r);
                if kind_at(a, r) is Comma && advanced(a, p, s) {
                    lemma_use_list_progress(a, s, acc.push(UseModel { name, alias: x }));
                }
                assert(token_at(a, p) == token_at(b, p + d));
                assert(token_at(a, q) == token_at(b, q + d));
                if kind_at(a, q) is As {
                    assert(token_at(a, q1) == token_at(b, q1 + d));
                }
                assert(token_at(a, r) == token_at(b, r + d));
                if kind_at(a, r) is Comma && advanced(a, p, s) {
                    excl_use_list(a, b, d, s, acc.push(UseModel { name, alias: x }));
                }
            }
        }
    }
}

#[verifier::rlimit(50)]
proof fn excl_statement(a: Seq<Token>, b: Seq<Token>, d: int, p: int)
    requires
        0 <= p <= a.len(),
        0 <= p + d,
        parse_statement(a, p) matches (q, Outcome::Parsed(s)) && !(s is Namespace) && (s is Use
            ==> kind_at(a, q - 1) is SemiColon),
        shifted(a, b, d, p, parse_statement(a, p).0 - 1),
    ensures
        moved_by(parse_statement(a, p), parse_statement(b, p + d), d),
{
    lemma_statement_progress(a, p);
    lemma_statement_closes(a, p);
    assert(token_at(a, p) == token_at(b, p + d));
    let q = p + 1;
    match kind_at(a, p) {
        TokenKind::Use => excl_use_list(a, b, d, q, Seq::empty()),
        TokenKind::If => excl_if(a, b, d, q),
        TokenKind::Class => excl_class(a, b, d, p),
        TokenKind::Function => excl_function(a, b, d, q),
        TokenKind::Echo => {
            lemma_echo_values_progress(a, q, Seq::empty());
            frame_echo_values(a, b, d, q, Seq::empty());
            let r = parse_echo_values(a, q, Seq::empty()).0;
            assert(token_at(a, r) == token_at(b, r + d));
        },
        TokenKind::Return => {
            assert(token_at(a, q) == token_at(b, q + d));
            if !(kind_at(a, q) is SemiColon) {
                lemma_expression_progress(a, q, 0);
                frame_expression(a, b, d, q, 0);
                let r = parse_expression(a, q, 0).0;
                assert(token_at(a, r) == token_at(b, r + d));
            }
        },
        TokenKind::Var => {
            assert(token_at(a, q) == token_at(b, q + d));
            assert(token_at(a, q + 1) == token_at(b, q + 1 + d));
        },
        TokenKind::InlineHtml(_) => {},
        TokenKind::Comment(_) => {},
        TokenKind::SemiColon => {},
        _ => {
            lemma_expression_progress(a, p, 0);
            frame_expression(a, b, d, p, 0);
            let r = parse_expression(a, p, 0).0;
            assert(token_at(a, r) == token_at(b, r + d));
        },
    }
}

/// The last token of `t1` that is not an open tag is `;`.
pub open spec fn closed_by_semicolon(t1: Seq<Token>) -> bool {
    exists|m: int|
        0 <= m < t1.len() && t1[m].kind is SemiColon && forall|i: int|
            m < i < t1.len() ==> (#[trigger] t1[i]).kind is OpenTag
}

/// Statements read before `p` only come in front of those read after it.
proof fn lemma_program_prefix(a: Seq<Token>, p: int, pre: Seq<StmtModel>, acc: Seq<StmtModel>)
    requires
        0 <= p <= a.len(),
    ensures
        parse_program(a, p, acc) matches (q, Outcome::Parsed(x)) ==> parse_program(a, p, pre + acc) == (
            q,
            Outcome::Parsed(pre + x),
        ),
    decreases a.len() - p,
{
    let k = kind_at(a, p);
    if !(k is Eof) {
        if k is OpenTag {
            lemma_program_prefix(a, p + 1, pre, acc);
        } else {
            if let (q, Outcome::Parsed(s)) = parse_statement(a, p) {
                if advanced(a, p, q) {
                    assert((pre + acc).push(s) =~= pre + acc.push(s));
                    lemma_program_prefix(a, q, pre, acc.push(s));
                }
            }
        }
    }
}

/// The statements of `t1` read from `t1 + t2 + [e]` are those read from
/// `t1 + [e]`, and reading goes on after them where `t1` ends.
proof fn lemma_program_over_join(
    t1: Seq<Token>,
    t2: Seq<Token>,
    e: Token,
    p: int,
    acc: Seq<StmtModel>,
    a1: Seq<StmtModel>,
)
    requires
        e.kind is Eof,
        forall|i: int| 0 <= i < t1.len() ==> !(#[trigger] t1[i].kind is Eof) && !(t1[i].kind is Namespace),
        t2.len() > 0,
        0 <= p <= t1.len(),
        parse_program(t1.push(e), p, acc).1 == Outcome::Parsed(a1),
        (a1.len() > 0 && a1.last() is Use) ==> closed_by_semicolon(t1),
    ensures
        parse_program(t1 + t2.push(e), p, acc) == parse_program(t1 + t2.push(e), t1.len() as int, a1),
    decreases t1.len() - p,
{
    let a = t1.push(e);
    let j = t1 + t2.push(e);
    let n = t1.len() as int;
    assert forall|i: int| 0 <= i < n implies #[trigger] token_at(a, i) == token_at(j, i) by {
        assert(a[i] == t1[i]);
        assert(j[i] == t1[i]);
    }
    assert(token_at(a, n) == e);
    if p < n {
        assert(token_at(a, p) == token_at(j, p));
        assert(a[p] == t1[p]);
        let k = kind_at(a, p);
        if k is OpenTag {
            lemma_program_over_join(t1, t2, e, p + 1, acc, a1);
        } else {
            lemma_statement_progress(a, p);
            lemma_statement_closes(a, p);
            if let (q, Outcome::Parsed(s)) = parse_statement(a, p) {
                assert(advanced(a, p, q));
                assert(q - 1 < a.len());
                assert(!(kind_at(a, q - 1) is Eof));
                assert(q <= n);
                if s is Use && !(kind_at(a, q - 1) is SemiColon) {
                    assert(kind_at(a, q) is Eof);
                    if q < n {
                        assert(a[q] == t1[q]);
                    }
                    assert(q == n);
                    assert(parse_program(a, q, acc.push(s)) == (q, Outcome::Parsed(acc.push(s))));
                    assert(a1 == acc.push(s));
                    assert(a[q - 1] == t1[n - 1]);
                    let m = choose|m: int|
                        0 <= m < t1.len() && t1[m].kind is SemiColon && forall|i: int|
                            m < i < t1.len() ==> (#[trigger] t1[i]).kind is OpenTag;
                    if m < n - 1 {
                        assert(t1[n - 1].kind is OpenTag);
                    }
                    assert(false);
                }
                if q < n {
                    frame_statement(a, j, 0, p);
                } else {
                    excl_statement(a, j, 0, p);
                }
                lemma_program_over_join(t1, t2, e, q, acc.push(s), a1);
            }
        }
    } else {
        assert(p == n);
    }
}

/// Reading two token streams joined gives the programs read from each, joined:
/// top-level statements parse independently of what comes before or after
/// them. Each stream ends with the end-of-input token `e` and holds no other.
///
/// This does not hold where the first stream holds a `namespace` statement
/// (one without braces runs to the end of the input and takes in the second
/// stream), nor where the first stream's program ends in a `use` statement
/// that runs into the end of the input, not closed by `;`, and the second
/// stream is not empty (the `use` list would go on into the second stream);
/// such inputs are left out.
pub proof fn law_programs_join(t1: Seq<Token>, t2: Seq<Token>, e: Token, a1: Seq<StmtModel>, a2: Seq<StmtModel>)
    requires
        e.kind is Eof,
        forall|i: int| 0 <= i < t1.len() ==> !(#[trigger] t1[i].kind is Eof) && !(t1[i].kind is Namespace),
        forall|i: int| 0 <= i < t2.len() ==> !(#[trigger] t2[i].kind is Eof),
        parse_program(t1.push(e), 0, Seq::empty()).1 == Outcome::Parsed(a1),
        parse_program(t2.push(e), 0, Seq::empty()).1 == Outcome::Parsed(a2),
        (t2.len() > 0 && a1.len() > 0 && a1.last() is Use) ==> closed_by_semicolon(t1),
    ensures
        parse_program(t1 + t2.push(e), 0, Seq::empty()).1 == Outcome::Parsed(a1 + a2),
{
    let n = t1.len() as int;
    let j = t1 + t2.push(e);
    let b = t2.push(e);
    if t2.len() == 0 {
        assert(j =~= t1.push(e));
        assert(b[0] == e);
        assert(a2 =~= Seq::<StmtModel>::empty());
        assert(a1 + a2 =~= a1);
    } else {
        lemma_program_over_join(t1, t2, e, 0, Seq::empty(), a1);
        lemma_program_progress(b, 0, Seq::empty());
        lemma_program_prefix(b, 0, a1, Seq::empty());
        assert(a1 + Seq::<StmtModel>::empty() =~= a1);
        lemma_program_progress(b, 0, a1);
        let q2 = parse_program(b, 0, a1).0;
        assert forall|i: int| 0 <= i <= q2 implies {
            &&& #[trigger] token_at(b, i) == token_at(j, i + n)
            &&& i <= b.len()
            &&& i + n <= j.len()
            &&& (i < b.len() <==> i + n < j.len())
        } by {
            if i < b.len() {
                assert(b[i] == j[i + n]);
            }
        }
        frame_program(b, j, n, 0, a1);
    }
}

} // verus!
