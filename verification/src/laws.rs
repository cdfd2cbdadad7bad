//! Properties of the grammar as a whole.
use vstd::prelude::*;
use crate::token::{Token, TokenKind, kind_at, step, plain_name_of, token_at};
use crate::ast::{ExprModel, StmtModel};
use crate::grammar::{
    Outcome, relay, expect_name, expect_token, advanced, infix_power, infix_model, class_member,
    parse_expression, parse_expression_tail, parse_implements, parse_class_body, parse_class,
    parse_program,
};

verus! {

/// The statements that a class body may hold.
pub open spec fn is_class_member(s: StmtModel) -> bool {
    s is Method || s is Property || s is Comment
}

proof fn lemma_class_body_members(toks: Seq<Token>, p: int, acc: Seq<StmtModel>)
    requires
        forall|i: int| 0 <= i < acc.len() ==> is_class_member(#[trigger] acc[i]),
    ensures
        parse_class_body(toks, p, acc).1 matches Outcome::Parsed(b) ==> forall|i: int|
            0 <= i < b.len() ==> is_class_member(#[trigger] b[i]),
    decreases toks.len() - p,
{
    let k = kind_at(toks, p);
    if !(k is RightBrace || k is Eof) {
        if let (q, Outcome::Parsed(s)) = crate::grammar::parse_statement(toks, p) {
            if let Some(m) = class_member(s) {
                if advanced(toks, p, q) {
                    let more = acc.push(m);
                    assert(forall|i: int| 0 <= i < more.len() ==> is_class_member(#[trigger] more[i]));
                    lemma_class_body_members(toks, q, more);
                }
            }
        }
    }
}

/// Every statement in the body of a class that parses is a method, a
/// property or a comment: a function becomes a method, a `var` a property,
/// and any other statement makes the class fail to parse.
pub proof fn law_class_body_holds_members(toks: Seq<Token>, p: int)
    ensures
        parse_class(toks, p).1 matches Outcome::Parsed(StmtModel::Class { body, .. }) ==> forall|i: int|
            0 <= i < body.len() ==> is_class_member(#[trigger] body[i]),
{
    let p1 = step(toks, p);
    if let (q, Outcome::Parsed(name)) = expect_name(toks, p1, plain_name_of(kind_at(toks, p1)), "expected class name"@) {
        let (r, ext) = if kind_at(toks, q) is Extends {
            let q1 = step(toks, q);
            match expect_name(toks, q1, plain_name_of(kind_at(toks, q1)), "expected identifier"@) {
                (r, Outcome::Parsed(e)) => (r, Outcome::Parsed(Some(e))),
                (r, o) => (r, relay(o)),
            }
        } else {
            (q, Outcome::Parsed(None))
        };
        if let Outcome::Parsed(extends) = ext {
            let (s, imp) = if kind_at(toks, r) is Implements {
                parse_implements(toks, step(toks, r), Seq::empty())
            } else {
                (r, Outcome::Parsed(Seq::empty()))
            };
            if let Outcome::Parsed(implements) = imp {
                if let (t, Outcome::Parsed(_)) = expect_token(toks, s, kind_at(toks, s) is LeftBrace, "expected left-brace"@) {
                    lemma_class_body_members(toks, t, Seq::empty());
                }
            }
        }
    }
}

/// Open tags between statements are skipped: the program read from an open
/// tag is the program read from the token after it.
pub proof fn law_open_tags_are_skipped(toks: Seq<Token>, p: int, acc: Seq<StmtModel>)
    requires
        0 <= p,
        kind_at(toks, p) is OpenTag,
    ensures
        parse_program(toks, p, acc) == parse_program(toks, p + 1, acc),
{
}

/// The position after `k` moves from the start of the stream.
pub open spec fn position_after(toks: Seq<Token>, k: nat) -> int
    decreases k,
{
    if k == 0 {
        0
    } else {
        step(toks, position_after(toks, (k - 1) as nat))
    }
}

/// After `k` moves from the start (a parser made by `Parser::new` and then
/// `k` calls of `Parser::next`), the current token is the `k`-th of the
/// stream and the peek the one after, each the end-of-input token once the
/// stream has run out; the position never passes the end.
pub proof fn law_next_walks_the_stream(toks: Seq<Token>, k: nat)
    ensures
        position_after(toks, k) == if k <= toks.len() { k as int } else { toks.len() as int },
        token_at(toks, position_after(toks, k)) == token_at(toks, k as int),
        token_at(toks, position_after(toks, k) + 1) == token_at(toks, k as int + 1),
    decreases k,
{
    if k > 0 {
        law_next_walks_the_stream(toks, (k - 1) as nat);
    }
}

/// A token that is an operand by itself.
pub open spec fn is_operand(k: TokenKind) -> bool {
    k is Variable || k is Int || k is Identifier
}

/// The expression that an operand token stands for.
pub open spec fn operand_model(k: TokenKind) -> ExprModel
    recommends
        is_operand(k),
{
    match k {
        TokenKind::Variable(v) => ExprModel::Variable(v@),
        TokenKind::Int(i) => ExprModel::Int(i),
        TokenKind::Identifier(s) => ExprModel::Identifier(s@),
        _ => ExprModel::Int(0),
    }
}

/// The binding powers of the infix operators: `+`, `-` and `<` bind more
/// tightly on their right than on their left, so they group to the left;
/// `=` binds more tightly on its left, so it groups to the right; `+` and `-`
/// bind alike, more tightly than `<`, which binds more tightly than `=`.
pub proof fn law_binding_powers()
    ensures
        forall|k: TokenKind| (k is Plus || k is Minus || k is LessThan) ==> #[trigger] infix_power(k).unwrap().0 < infix_power(k).unwrap().1,
        infix_power(TokenKind::Equals).unwrap().0 > infix_power(TokenKind::Equals).unwrap().1,
        infix_power(TokenKind::Plus) == infix_power(TokenKind::Minus),
        infix_power(TokenKind::Plus).unwrap().0 > infix_power(TokenKind::LessThan).unwrap().1,
        infix_power(TokenKind::LessThan).unwrap().0 > infix_power(TokenKind::Equals).unwrap().0,
        forall|k: TokenKind| (#[trigger] infix_power(k)) is Some <==> (k is Plus || k is Minus || k is LessThan || k is Equals),
{
}

/// How `a op1 b op2 c` groups: to the left unless `op2` binds tighter from
/// the left than `op1` binds to its right.
pub open spec fn grouped(a: ExprModel, op1: TokenKind, b: ExprModel, op2: TokenKind, c: ExprModel) -> ExprModel {
    if infix_power(op2).unwrap().0 < infix_power(op1).unwrap().1 {
        infix_model(infix_model(a, op1, b), op2, c)
    } else {
        infix_model(a, op1, infix_model(b, op2, c))
    }
}

/// Two infix operators between three operands group by their binding
/// powers: `+` and `-` group to the left and bind tighter than `<`, and `=`
/// groups to the right and binds loosest of all.
pub proof fn law_operators_group_by_binding_power(toks: Seq<Token>, p: int)
    requires
        0 <= p,
        p + 5 <= toks.len(),
        is_operand(kind_at(toks, p)),
        infix_power(kind_at(toks, p + 1)) is Some,
        is_operand(kind_at(toks, p + 2)),
        infix_power(kind_at(toks, p + 3)) is Some,
        is_operand(kind_at(toks, p + 4)),
        kind_at(toks, p + 5) is SemiColon || kind_at(toks, p + 5) is Eof,
    ensures
        parse_expression(toks, p, 0) == (
            p + 5,
            Outcome::Parsed(
                grouped(
                    operand_model(kind_at(toks, p)),
                    kind_at(toks, p + 1),
                    operand_model(kind_at(toks, p + 2)),
                    kind_at(toks, p + 3),
                    operand_model(kind_at(toks, p + 4)),
                ),
            ),
        ),
{
    let a = operand_model(kind_at(toks, p));
    let op1 = kind_at(toks, p + 1);
    let b = operand_model(kind_at(toks, p + 2));
    let op2 = kind_at(toks, p + 3);
    let c = operand_model(kind_at(toks, p + 4));
    let (l1, r1) = infix_power(op1).unwrap();
    let (l2, r2) = infix_power(op2).unwrap();
    // `c` and the end
    assert(parse_expression_tail(toks, p + 5, r2, c) == (p + 5, Outcome::Parsed(c)));
    assert(parse_expression(toks, p + 4, r2) == (p + 5, Outcome::Parsed(c)));
    let bc = infix_model(b, op2, c);
    assert(parse_expression_tail(toks, p + 5, r1, bc) == (p + 5, Outcome::Parsed(bc)));
    assert(parse_expression_tail(toks, p + 5, 0, bc) == (p + 5, Outcome::Parsed(bc)));
    if l2 < r1 {
        assert(parse_expression_tail(toks, p + 3, r1, b) == (p + 3, Outcome::Parsed(b)));
        assert(parse_expression(toks, p + 2, r1) == (p + 3, Outcome::Parsed(b)));
        let ab = infix_model(a, op1, b);
        let abc = infix_model(ab, op2, c);
        assert(parse_expression_tail(toks, p + 5, 0, abc) == (p + 5, Outcome::Parsed(abc)));
        assert(parse_expression_tail(toks, p + 3, 0, ab) == (p + 5, Outcome::Parsed(abc)));
        assert(parse_expression_tail(toks, p + 1, 0, a) == (p + 5, Outcome::Parsed(abc)));
    } else {
        assert(parse_expression_tail(toks, p + 3, r1, b) == (p + 5, Outcome::Parsed(bc)));
        assert(parse_expression(toks, p + 2, r1) == (p + 5, Outcome::Parsed(bc)));
        let a_bc = infix_model(a, op1, bc);
        assert(parse_expression_tail(toks, p + 5, 0, a_bc) == (p + 5, Outcome::Parsed(a_bc)));
        assert(parse_expression_tail(toks, p + 1, 0, a) == (p + 5, Outcome::Parsed(a_bc)));
    }
}

} // verus!
