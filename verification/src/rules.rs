//! What each construct of the language parses to, stated over every token
//! stream that holds it.
use vstd::prelude::*;
use crate::token::{Token, TokenKind, kind_at, span_at};
use crate::error::ErrorModel;
use crate::ast::{ExprModel, StmtModel, TypeModel};
use crate::grammar::{
    Outcome, advanced, relay, parse_type, parse_expression, parse_expression_tail, parse_postfix,
    parse_call_args, parse_statement, parse_block, parse_class_body,
};
use crate::progress::{lemma_call_args_progress, lemma_statement_progress, lemma_block_progress};
use crate::laws::{is_operand, operand_model};
use crate::join::{lemma_if_closes, lemma_function_closes};

verus! {

/// Which keyword a statement starts with, read off the statement it parses to.
proof fn lemma_statement_keyword(toks: Seq<Token>, p: int)
    requires
        0 <= p <= toks.len(),
    ensures
        parse_statement(toks, p) matches (q, Outcome::Parsed(s)) ==> {
            &&& s is Function <==> kind_at(toks, p) is Function
            &&& s is Expression ==> !(kind_at(toks, p) is Use || kind_at(toks, p) is Namespace || kind_at(
                toks,
                p,
            ) is If || kind_at(toks, p) is Class || kind_at(toks, p) is Echo || kind_at(toks, p) is Return
                || kind_at(toks, p) is Function || kind_at(toks, p) is Var || kind_at(toks, p) is SemiColon
                || kind_at(toks, p) is InlineHtml || kind_at(toks, p) is Comment)
        },
{
    match kind_at(toks, p) {
        TokenKind::If => lemma_if_closes(toks, p + 1),
        TokenKind::Function => lemma_function_closes(toks, p + 1),
        _ => {},
    }
}

/// An operand followed by `(`, arguments and `)` is a call of that operand
/// with those arguments, also where there are none; what follows the `)` goes
/// on from that call.
pub proof fn law_call_applies_callee_to_arguments(toks: Seq<Token>, p: int, bp: u8)
    requires
        0 <= p,
        p + 1 < toks.len(),
        bp <= 19,
        is_operand(kind_at(toks, p)),
        kind_at(toks, p + 1) is LeftParen,
        parse_call_args(toks, p + 2, Seq::empty()).1 is Parsed,
        kind_at(toks, parse_call_args(toks, p + 2, Seq::empty()).0) is RightParen,
    ensures
        parse_expression(toks, p, bp) == parse_expression_tail(
            toks,
            parse_call_args(toks, p + 2, Seq::empty()).0 + 1,
            bp,
            ExprModel::Call(
                Box::new(operand_model(kind_at(toks, p))),
                parse_call_args(toks, p + 2, Seq::empty()).1->Parsed_0,
            ),
        ),
{
    lemma_call_args_progress(toks, p + 2, Seq::empty());
    let (r, o) = parse_call_args(toks, p + 2, Seq::empty());
    let x = operand_model(kind_at(toks, p));
    let c = ExprModel::Call(Box::new(x), o->Parsed_0);
    assert(p + 2 <= r < toks.len());
    assert(parse_postfix(toks, p + 2, x, kind_at(toks, p + 1)) == (r + 1, Outcome::Parsed(c)));
    assert(parse_expression_tail(toks, p + 1, bp, x) == parse_expression_tail(toks, r + 1, bp, c));
    assert(parse_expression(toks, p, bp) == parse_expression_tail(toks, p + 1, bp, x));
}

/// A call that ends the statement, at `;` or at the end of the input, is the
/// whole expression.
proof fn lemma_call_ends_expression(toks: Seq<Token>, p: int)
    requires
        0 <= p,
        p + 1 < toks.len(),
        is_operand(kind_at(toks, p)),
        kind_at(toks, p + 1) is LeftParen,
        parse_call_args(toks, p + 2, Seq::empty()).1 is Parsed,
        kind_at(toks, parse_call_args(toks, p + 2, Seq::empty()).0) is RightParen,
        kind_at(toks, parse_call_args(toks, p + 2, Seq::empty()).0 + 1) is SemiColon,
    ensures
        parse_expression(toks, p, 0) == (
            parse_call_args(toks, p + 2, Seq::empty()).0 + 1,
            Outcome::Parsed(
                ExprModel::Call(
                    Box::new(operand_model(kind_at(toks, p))),
                    parse_call_args(toks, p + 2, Seq::empty()).1->Parsed_0,
                ),
            ),
        ),
{
    law_call_applies_callee_to_arguments(toks, p, 0);
}

/// `name();` is a statement that calls `name` with no arguments.
pub proof fn law_call_without_arguments(toks: Seq<Token>, p: int, name: String)
    requires
        0 <= p,
        p + 3 < toks.len(),
        kind_at(toks, p) == TokenKind::Identifier(name),
        kind_at(toks, p + 1) is LeftParen,
        kind_at(toks, p + 2) is RightParen,
        kind_at(toks, p + 3) is SemiColon,
    ensures
        parse_statement(toks, p) == (
            p + 4,
            Outcome::Parsed(
                StmtModel::Expression(ExprModel::Call(Box::new(ExprModel::Identifier(name@)), Seq::empty())),
            ),
        ),
{
    assert(parse_call_args(toks, p + 2, Seq::empty()) == (p + 2, Outcome::<Seq<ExprModel>>::Parsed(Seq::empty())));
    lemma_call_ends_expression(toks, p);
}

/// `n` operands, one after another with a comma between each two, and then `)`.
pub open spec fn operands_then_paren(toks: Seq<Token>, p: int, n: nat) -> bool
    decreases n,
{
    if n == 0 {
        false
    } else {
        &&& is_operand(kind_at(toks, p))
        &&& if n == 1 {
            kind_at(toks, p + 1) is RightParen
        } else {
            &&& kind_at(toks, p + 1) is Comma
            &&& operands_then_paren(toks, p + 2, (n - 1) as nat)
        }
    }
}

/// The arguments of a call written as operands separated by commas are those
/// operands, in the order written, and they end at the `)`.
pub proof fn law_call_arguments_are_the_operands_in_order(toks: Seq<Token>, p: int, n: nat, acc: Seq<ExprModel>)
    requires
        0 <= p,
        operands_then_paren(toks, p, n),
    ensures
        parse_call_args(toks, p, acc) == (
            p + 2 * n - 1,
            Outcome::Parsed(acc + Seq::new(n, |i: int| operand_model(kind_at(toks, p + 2 * i)))),
        ),
        kind_at(toks, p + 2 * n - 1) is RightParen,
    decreases n,
{
    let x = operand_model(kind_at(toks, p));
    let m = (n - 1) as nat;
    assert(kind_at(toks, p + 1) is RightParen || kind_at(toks, p + 1) is Comma);
    assert(p + 1 < toks.len());
    assert(parse_expression_tail(toks, p + 1, 0, x) == (p + 1, Outcome::Parsed(x)));
    assert(parse_expression(toks, p, 0) == (p + 1, Outcome::Parsed(x)));
    let all = Seq::new(n, |i: int| operand_model(kind_at(toks, p + 2 * i)));
    if n == 1 {
        assert(parse_call_args(toks, p + 1, acc.push(x)) == (p + 1, Outcome::Parsed(acc.push(x))));
        assert(parse_call_args(toks, p, acc) == parse_call_args(toks, p + 1, acc.push(x)));
        assert(acc.push(x) =~= acc + all);
    } else {
        assert(advanced(toks, p, p + 2));
        assert(parse_call_args(toks, p, acc) == parse_call_args(toks, p + 2, acc.push(x)));
        law_call_arguments_are_the_operands_in_order(toks, p + 2, m, acc.push(x));
        let rest = Seq::new(m, |i: int| operand_model(kind_at(toks, p + 2 + 2 * i)));
        assert forall|i: int| 0 <= i < m implies #[trigger] rest[i] == all[i + 1] by {
            assert(p + 2 + 2 * i == p + 2 * (i + 1));
        }
        assert(acc.push(x) + rest =~= acc + all);
    }
}

/// `name(x1, ..., xn);`, with each `xi` an operand, is a statement that calls
/// `name` with the arguments `x1` to `xn`, in that order.
pub proof fn law_call_with_operand_arguments(toks: Seq<Token>, p: int, n: nat, name: String)
    requires
        0 <= p,
        kind_at(toks, p) == TokenKind::Identifier(name),
        kind_at(toks, p + 1) is LeftParen,
        operands_then_paren(toks, p + 2, n),
        kind_at(toks, p + 2 * n + 2) is SemiColon,
    ensures
        parse_statement(toks, p) == (
            p + 2 * n + 3,
            Outcome::Parsed(
                StmtModel::Expression(
                    ExprModel::Call(
                        Box::new(ExprModel::Identifier(name@)),
                        Seq::new(n, |i: int| operand_model(kind_at(toks, p + 2 + 2 * i))),
                    ),
                ),
            ),
        ),
{
    law_call_arguments_are_the_operands_in_order(toks, p + 2, n, Seq::empty());
    assert(Seq::<ExprModel>::empty() + Seq::new(n, |i: int| operand_model(kind_at(toks, p + 2 + 2 * i)))
        =~= Seq::new(n, |i: int| operand_model(kind_at(toks, p + 2 + 2 * i))));
    lemma_call_ends_expression(toks, p);
}

/// In a class body, a function declaration becomes a method with the same
/// name, parameters and body, whatever its return type, and the body goes on
/// after it.
pub proof fn law_class_body_turns_functions_into_methods(toks: Seq<Token>, p: int, acc: Seq<StmtModel>)
    requires
        0 <= p <= toks.len(),
        parse_statement(toks, p).1 is Parsed,
        parse_statement(toks, p).1->Parsed_0 is Function,
    ensures
        ({
            let (q, s) = parse_statement(toks, p);
            let f = s->Parsed_0;
            parse_class_body(toks, p, acc) == parse_class_body(
                toks,
                q,
                acc.push(
                    StmtModel::Method {
                        name: f->Function_name,
                        params: f->Function_params,
                        body: f->Function_body,
                        flags: Seq::empty(),
                    },
                ),
            )
        }),
{
    lemma_statement_progress(toks, p);
    lemma_statement_keyword(toks, p);
}

/// In a class body, `var $x;` becomes the property `$x`, and the body goes on
/// after it.
pub proof fn law_class_body_turns_vars_into_properties(toks: Seq<Token>, p: int, acc: Seq<StmtModel>, name: String)
    requires
        0 <= p,
        p + 2 < toks.len(),
        kind_at(toks, p) is Var,
        kind_at(toks, p + 1) == TokenKind::Variable(name),
        kind_at(toks, p + 2) is SemiColon,
    ensures
        parse_class_body(toks, p, acc) == parse_class_body(toks, p + 3, acc.push(StmtModel::Property(name@))),
{
    assert(parse_statement(toks, p) == (p + 3, Outcome::Parsed(StmtModel::Var(name@))));
    assert(advanced(toks, p, p + 3));
}

/// A comment in a class body stays in it, as it is, and the body goes on after it.
pub proof fn law_class_body_keeps_comments(toks: Seq<Token>, p: int, acc: Seq<StmtModel>, text: String)
    requires
        0 <= p < toks.len(),
        kind_at(toks, p) == TokenKind::Comment(text),
    ensures
        parse_class_body(toks, p, acc) == parse_class_body(toks, p + 1, acc.push(StmtModel::Comment(text@))),
{
    assert(parse_statement(toks, p) == (p + 1, Outcome::Parsed(StmtModel::Comment(text@))));
    assert(advanced(toks, p, p + 1));
}

/// A statement that is neither a function, a `var`, a method nor a comment
/// cannot stand in a class body: the body is refused where that statement ends.
pub proof fn law_class_body_refuses_other_statements(toks: Seq<Token>, p: int, acc: Seq<StmtModel>)
    requires
        0 <= p <= toks.len(),
        !(kind_at(toks, p) is RightBrace),
        !(kind_at(toks, p) is Eof),
        parse_statement(toks, p).1 is Parsed,
        !(parse_statement(toks, p).1->Parsed_0 is Function),
        !(parse_statement(toks, p).1->Parsed_0 is Var),
        !(parse_statement(toks, p).1->Parsed_0 is Method),
        !(parse_statement(toks, p).1->Parsed_0 is Comment),
    ensures
        parse_class_body(toks, p, acc) == (
            parse_statement(toks, p).0,
            Outcome::<Seq<StmtModel>>::Failed(
                ErrorModel::InvalidClassStatement(
                    "Classes can only contain properties, constants and methods."@,
                    span_at(toks, parse_statement(toks, p).0),
                ),
            ),
        ),
{
}

/// A type hint that is one name, plain, qualified or fully qualified, and is
/// not followed by `|` or `&`, is that name.
pub proof fn law_type_hint_is_any_name(toks: Seq<Token>, p: int, name: String)
    requires
        0 <= p < toks.len(),
        kind_at(toks, p) == TokenKind::Identifier(name) || kind_at(toks, p) == TokenKind::QualifiedIdentifier(name)
            || kind_at(toks, p) == TokenKind::FullyQualifiedIdentifier(name),
        !(kind_at(toks, p + 1) is Pipe),
        !(kind_at(toks, p + 1) is Ampersand),
    ensures
        parse_type(toks, p) == (p + 1, Outcome::Parsed(TypeModel::Plain(name@))),
{
}

/// `?` and one name, plain, qualified or fully qualified, is that name made nullable.
pub proof fn law_nullable_type_hint_is_any_name(toks: Seq<Token>, p: int, name: String)
    requires
        0 <= p,
        p + 1 < toks.len(),
        kind_at(toks, p) is Question,
        kind_at(toks, p + 1) == TokenKind::Identifier(name) || kind_at(toks, p + 1) == TokenKind::QualifiedIdentifier(
            name,
        ) || kind_at(toks, p + 1) == TokenKind::FullyQualifiedIdentifier(name),
    ensures
        parse_type(toks, p) == (p + 2, Outcome::Parsed(TypeModel::Nullable(name@))),
{
}

/// Two names joined by `|` are their union, and by `&` their intersection,
/// whether each name is plain, qualified or fully qualified.
pub proof fn law_two_member_types(toks: Seq<Token>, p: int, a: String, b: String)
    requires
        0 <= p,
        p + 2 < toks.len(),
        kind_at(toks, p) == TokenKind::Identifier(a) || kind_at(toks, p) == TokenKind::QualifiedIdentifier(a)
            || kind_at(toks, p) == TokenKind::FullyQualifiedIdentifier(a),
        kind_at(toks, p + 1) is Pipe || kind_at(toks, p + 1) is Ampersand,
        kind_at(toks, p + 2) == TokenKind::Identifier(b) || kind_at(toks, p + 2) == TokenKind::QualifiedIdentifier(b)
            || kind_at(toks, p + 2) == TokenKind::FullyQualifiedIdentifier(b),
        !(kind_at(toks, p + 3) is Pipe),
        !(kind_at(toks, p + 3) is Ampersand),
    ensures
        parse_type(toks, p) == (
            p + 3,
            Outcome::Parsed(
                if kind_at(toks, p + 1) is Pipe {
                    TypeModel::Union(seq![a@, b@])
                } else {
                    TypeModel::Intersection(seq![a@, b@])
                },
            ),
        ),
{
    assert(seq![a@].push(b@) =~= seq![a@, b@]);
}

/// `namespace Name;`, with a plain or qualified name, is the namespace `Name`
/// holding the statements read from there to the end of the input.
pub proof fn law_namespace_without_braces(toks: Seq<Token>, p: int, name: String)
    requires
        0 <= p,
        p + 2 < toks.len(),
        kind_at(toks, p) is Namespace,
        kind_at(toks, p + 1) == TokenKind::Identifier(name) || kind_at(toks, p + 1) == TokenKind::QualifiedIdentifier(
            name,
        ),
        kind_at(toks, p + 2) is SemiColon,
    ensures
        parse_statement(toks, p) == (match parse_block(toks, p + 3, false, Seq::empty()) {
            (r, Outcome::Parsed(body)) => (r, Outcome::Parsed(StmtModel::Namespace(name@, body))),
            (r, o) => (r, relay(o)),
        }),
{
    lemma_block_progress(toks, p + 3, false, Seq::empty());
}

/// `namespace Name { ... }`, with a plain or qualified name, is the namespace
/// `Name` holding the statements of the braces.
pub proof fn law_namespace_with_braces(toks: Seq<Token>, p: int, name: String)
    requires
        0 <= p,
        p + 2 < toks.len(),
        kind_at(toks, p) is Namespace,
        kind_at(toks, p + 1) == TokenKind::Identifier(name) || kind_at(toks, p + 1) == TokenKind::QualifiedIdentifier(
            name,
        ),
        kind_at(toks, p + 2) is LeftBrace,
        parse_block(toks, p + 3, true, Seq::empty()).1 is Parsed,
        kind_at(toks, parse_block(toks, p + 3, true, Seq::empty()).0) is RightBrace,
    ensures
        parse_statement(toks, p) == (
            parse_block(toks, p + 3, true, Seq::empty()).0 + 1,
            Outcome::Parsed(StmtModel::Namespace(name@, parse_block(toks, p + 3, true, Seq::empty()).1->Parsed_0)),
        ),
{
    lemma_block_progress(toks, p + 3, true, Seq::empty());
}

/// The value of `return` is read as an expression statement reads its
/// expression: where `e;` is the expression statement `e`, `return e;` returns `e`.
pub proof fn law_return_value_is_a_whole_expression(toks: Seq<Token>, p: int)
    requires
        0 <= p < toks.len(),
        kind_at(toks, p) is Return,
        parse_statement(toks, p + 1).1 is Parsed,
        parse_statement(toks, p + 1).1->Parsed_0 is Expression,
    ensures
        parse_statement(toks, p) == (
            parse_statement(toks, p + 1).0,
            Outcome::Parsed(StmtModel::Return(Some(parse_statement(toks, p + 1).1->Parsed_0->Expression_0))),
        ),
{
    lemma_statement_keyword(toks, p + 1);
}

/// `echo e;` echoes the one value `e`, where `e;` is the expression statement `e`.
pub proof fn law_echo_value_is_a_whole_expression(toks: Seq<Token>, p: int)
    requires
        0 <= p < toks.len(),
        kind_at(toks, p) is Echo,
        parse_statement(toks, p + 1).1 is Parsed,
        parse_statement(toks, p + 1).1->Parsed_0 is Expression,
    ensures
        parse_statement(toks, p) == (
            parse_statement(toks, p + 1).0,
            Outcome::Parsed(StmtModel::Echo(seq![parse_statement(toks, p + 1).1->Parsed_0->Expression_0])),
        ),
{
    lemma_statement_keyword(toks, p + 1);
    let e = parse_statement(toks, p + 1).1->Parsed_0->Expression_0;
    let r = parse_expression(toks, p + 1, 0).0;
    crate::progress::lemma_expression_progress(toks, p + 1, 0);
    assert(Seq::<ExprModel>::empty().push(e) =~= seq![e]);
    assert(crate::grammar::parse_echo_values(toks, r, seq![e]) == (r, Outcome::Parsed(seq![e])));
}

/// `return;` returns no value.
pub proof fn law_return_without_value(toks: Seq<Token>, p: int)
    requires
        0 <= p,
        p + 1 < toks.len(),
        kind_at(toks, p) is Return,
        kind_at(toks, p + 1) is SemiColon,
    ensures
        parse_statement(toks, p) == (p + 2, Outcome::Parsed(StmtModel::Return(None))),
{
}

} // verus!
