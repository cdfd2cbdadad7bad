//! The parser: it reads a token stream and builds the syntax tree that the
//! grammar in [`crate::grammar`] describes.
use vstd::prelude::*;
use vstd::string::*;
use std::collections::VecDeque;
use crate::token::{Token, TokenKind, token_at, kind_at, step, opt_text};
use crate::ast::{Type, strings_model, Expression, ArrayItem, InfixOp, exprs_model, items_model, lemma_exprs_model_push, lemma_items_model_push, Statement, StmtModel, Use, Identifier, Param, Block, Program, stmts_model, uses_model, params_model, identifiers_model, lemma_stmts_model_push};
use crate::error::ParseError;
use crate::grammar::{Outcome, outcome_of, relay, parse_use_list, parse_echo_values, parse_echo, parse_return, parse_params, parse_implements, class_member, parse_statement, parse_block, parse_braced_block, parse_namespace, parse_if, parse_function, parse_class_body, parse_class, parse_program, expect_name, expect_token, parse_type_names, parse_type, infix_power, postfix_power, infix_op_of, infix_model, parse_expression, parse_expression_tail, parse_postfix, parse_call_args, parse_array_items};
use crate::progress::{lemma_type_progress, lemma_statement_progress, lemma_params_progress, lemma_expression_progress, lemma_array_items_progress, lemma_postfix_progress};

verus! {

/// Why a parsing step stopped short.
enum Stop {
    /// The input does not match the grammar.
    Failed(ParseError),
    /// The input reaches an expression that starts with a token no
    /// expression starts with.
    Unsupported,
}

/// The outcome that a parsing step that returned `r` stands for.
spec fn run_outcome<A, M>(r: Result<A, Stop>, model: spec_fn(A) -> M) -> Outcome<M> {
    match r {
        Ok(v) => Outcome::Parsed(model(v)),
        Err(Stop::Failed(e)) => Outcome::Failed(e.model()),
        Err(Stop::Unsupported) => Outcome::Unsupported,
    }
}

/// A parser over a token stream. `current` is the token it stands at and
/// `peek` the one after; past the end of the stream both are the
/// end-of-input token.
pub struct Parser {
    pub current: Token,
    pub peek: Token,
    /// The tokens after `peek`, still to be read.
    pub iter: VecDeque<Token>,
    /// The whole stream the parser was made with.
    pub tokens: Ghost<Seq<Token>>,
    /// The index of `current` in the stream.
    pub pos: Ghost<nat>,
}

/// The binding powers, left and right, of an infix operator.
fn infix_binding_power(t: &TokenKind) -> (r: Option<(u8, u8)>)
    ensures
        r == infix_power(*t),
{
    match t {
        TokenKind::Plus | TokenKind::Minus => Some((11, 12)),
        TokenKind::LessThan => Some((9, 10)),
        TokenKind::Equals => Some((2, 1)),
        _ => None,
    }
}

/// The binding power of a postfix operator.
fn postfix_binding_power(t: &TokenKind) -> (r: Option<u8>)
    ensures
        r == postfix_power(*t),
{
    match t {
        TokenKind::LeftParen => Some(19),
        _ => None,
    }
}

/// The operator that an infix operator token other than `=` stands for.
fn infix_op(op: &TokenKind) -> (r: InfixOp)
    requires
        op is Plus || op is Minus || op is LessThan,
    ensures
        r == infix_op_of(*op),
{
    match op {
        TokenKind::Plus => InfixOp::Add,
        TokenKind::Minus => InfixOp::Sub,
        _ => InfixOp::LessThan,
    }
}

/// The expression that the infix operator `op` makes of its operands.
fn infix(lhs: Expression, op: TokenKind, rhs: Expression) -> (e: Expression)
    requires
        infix_power(op) is Some,
    ensures
        e.model() == infix_model(lhs.model(), op, rhs.model()),
{
    if matches!(op, TokenKind::Equals) {
        return Expression::Assign(Box::new(lhs), Box::new(rhs));
    }
    Expression::Infix(Box::new(lhs), infix_op(&op), Box::new(rhs))
}

impl Parser {
    /// The whole token stream that the parser was made with.
    pub open spec fn tokens(&self) -> Seq<Token> {
        self.tokens@
    }

    /// The index of the current token in the stream.
    pub open spec fn position(&self) -> int {
        self.pos@ as int
    }

    /// The token the parser stands at.
    pub open spec fn current_token(&self) -> Token {
        self.current
    }

    /// The token after the current one.
    pub open spec fn peek_token(&self) -> Token {
        self.peek
    }

    /// The number of tokens from the current one to the end.
    pub open spec fn remaining(&self) -> int {
        self.tokens@.len() - self.pos@
    }

    /// The parser's fields agree with its place in the stream.
    pub open spec fn wf(&self) -> bool {
        let toks = self.tokens@;
        let n = toks.len() as int;
        let p = self.pos@ as int;
        &&& p <= n
        &&& self.current == token_at(toks, p)
        &&& self.peek == token_at(toks, p + 1)
        &&& self.iter@ == toks.subrange(if p + 2 <= n { p + 2 } else { n }, n)
    }

    /// What a well-formed parser shows of its place in the stream: `current`
    /// and `peek` are the tokens at its position and the one after, and the
    /// position lies within the stream.
    pub proof fn lemma_state(&self)
        requires
            self.wf(),
        ensures
            self.current == self.current_token(),
            self.peek == self.peek_token(),
            self.current_token() == token_at(self.tokens(), self.position()),
            self.peek_token() == token_at(self.tokens(), self.position() + 1),
            0 <= self.position() <= self.tokens().len(),
    {
    }

    /// A parser that stands at the first token of `tokens`.
    pub fn new(tokens: Vec<Token>) -> (parser: Parser)
        ensures
            parser.wf(),
            parser.tokens() == tokens@,
            parser.position() == 0,
            parser.current_token() == token_at(tokens@, 0),
            parser.peek_token() == token_at(tokens@, 1),
    {
        let ghost all = tokens@;
        let mut tokens = tokens;
        let mut iter: VecDeque<Token> = VecDeque::new();
        loop
            invariant
                tokens@ + iter@ == all,
            ensures
                iter@ == all,
            decreases tokens@.len(),
        {
            match tokens.pop() {
                Some(t) => {
                    let ghost before = iter@;
                    iter.push_front(t);
                    assert(tokens@ + iter@ =~= all) by {
                        assert(iter@ =~= seq![t] + before);
                    }
                },
                None => {
                    assert(iter@ =~= all);
                    break;
                },
            }
        }
        let current = match iter.pop_front() {
            Some(t) => t,
            None => Token::default(),
        };
        let peek = match iter.pop_front() {
            Some(t) => t,
            None => Token::default(),
        };
        let parser = Parser { current, peek, iter, tokens: Ghost(all), pos: Ghost(0) };
        assert(parser.iter@ =~= all.subrange(if 2 <= all.len() { 2 } else { all.len() as int }, all.len() as int));
        parser
    }

    /// Moves to the next token and hands back the one that was current.
    fn advance(&mut self) -> (t: Token)
        requires
            old(self).wf(),
        ensures
            final(self).wf(),
            final(self).tokens() == old(self).tokens(),
            final(self).position() == step(old(self).tokens(), old(self).position()),
            final(self).current == old(self).peek,
            t == old(self).current,
    {
        let ghost toks = self.tokens@;
        let ghost n = toks.len();
        let ghost p = self.pos@;
        let mut t = match self.iter.pop_front() {
            Some(t) => t,
            None => Token::default(),
        };
        std::mem::swap(&mut self.current, &mut self.peek);
        std::mem::swap(&mut self.peek, &mut t);
        self.pos = Ghost(if p < n { (p + 1) as nat } else { p });
        assert(self.iter@ =~= toks.subrange(
            if self.pos@ as int + 2 <= n { self.pos@ as int + 2 } else { n as int },
            n as int,
        ));
        t
    }

    /// Moves to the next token: the token after the current one becomes
    /// current, and the one after that becomes `peek`.
    pub fn next(&mut self)
        requires
            old(self).wf(),
        ensures
            final(self).wf(),
            final(self).tokens() == old(self).tokens(),
            final(self).position() == step(old(self).tokens(), old(self).position()),
            final(self).current_token() == old(self).peek_token(),
            final(self).current_token() == token_at(final(self).tokens(), final(self).position()),
            final(self).peek_token() == token_at(final(self).tokens(), final(self).position() + 1),
    {
        self.advance();
    }

    proof fn lemma_in_range(&self)
        requires
            self.wf(),
        ensures
            0 <= self.position() <= self.tokens().len(),
            self.current == token_at(self.tokens(), self.position()),
    {
    }

    fn is_eof(&self) -> (b: bool)
        ensures
            b == (self.current.kind is Eof),
    {
        matches!(self.current.kind, TokenKind::Eof)
    }

    /// Consumes the current token where `found` says it is the one the grammar
    /// requires here; fails with `message` otherwise.
    fn expect_kind(&mut self, found: bool, message: &str) -> (r: Result<(), Stop>)
        requires
            old(self).wf(),
        ensures
            final(self).wf(),
            final(self).tokens() == old(self).tokens(),
            expect_token(old(self).tokens(), old(self).position(), found, message@) == (
                final(self).position(),
                run_outcome(r, |u: ()| u),
            ),
    {
        if found {
            self.next();
            Ok(())
        } else {
            Err(Stop::Failed(ParseError::ExpectedToken(String::from_str(message), self.current.span)))
        }
    }

    /// Consumes the current token where it offers the name `found`; fails with
    /// `message` otherwise.
    fn expect_text(&mut self, found: Option<String>, message: &str) -> (r: Result<String, Stop>)
        requires
            old(self).wf(),
        ensures
            final(self).wf(),
            final(self).tokens() == old(self).tokens(),
            expect_name(old(self).tokens(), old(self).position(), opt_text(found), message@) == (
                final(self).position(),
                run_outcome(r, |s: String| s@),
            ),
    {
        match found {
            Some(s) => {
                self.next();
                Ok(s)
            },
            None => Err(Stop::Failed(ParseError::ExpectedToken(String::from_str(message), self.current.span))),
        }
    }

    /// The names of a union (`pipe`) or intersection type after its first
    /// separator, `first` being the name before it.
    fn type_names(&mut self, first: String, pipe: bool) -> (r: Result<Vec<String>, Stop>)
        requires
            old(self).wf(),
        ensures
            final(self).wf(),
            final(self).tokens() == old(self).tokens(),
            parse_type_names(old(self).tokens(), old(self).position(), pipe, seq![first@]) == (
                final(self).position(),
                run_outcome(r, |v: Vec<String>| strings_model(v@)),
            ),
    {
        let ghost toks = self.tokens();
        let ghost target = parse_type_names(toks, self.position(), pipe, seq![first@]);
        let mut types: Vec<String> = Vec::new();
        types.push(first);
        assert(strings_model(types@) =~= seq![first@]);
        loop
            invariant
                self.wf(),
                self.tokens() == toks,
                toks == old(self).tokens(),
                target == parse_type_names(toks, old(self).position(), pipe, seq![first@]),
                parse_type_names(toks, self.position(), pipe, strings_model(types@)) == target,
            decreases self.remaining(),
        {
            if self.is_eof() {
                return Ok(types);
            }
            let found = self.current.kind.any_name();
            let id = self.expect_text(found, "expected identifier")?;
            let ghost before = types@;
            types.push(id);
            assert(strings_model(types@) =~= strings_model(before).push(id@));
            let more = if pipe {
                matches!(self.current.kind, TokenKind::Pipe)
            } else {
                matches!(self.current.kind, TokenKind::Ampersand)
            };
            if !more {
                return Ok(types);
            }
        }
    }

    /// A type: `?name`, `name`, `name|name`, or `name&name`.
    fn type_string(&mut self) -> (r: Result<Type, Stop>)
        requires
            old(self).wf(),
        ensures
            final(self).wf(),
            final(self).tokens() == old(self).tokens(),
            parse_type(old(self).tokens(), old(self).position()) == (
                final(self).position(),
                run_outcome(r, |t: Type| t.model()),
            ),
    {
        if matches!(self.current.kind, TokenKind::Question) {
            self.next();
            let found = self.current.kind.any_name();
            let t = self.expect_text(found, "expected identifier")?;
            return Ok(Type::Nullable(t));
        }
        let found = self.current.kind.any_name();
        let id = self.expect_text(found, "expected identifier")?;
        if matches!(self.current.kind, TokenKind::Pipe) {
            self.next();
            let types = self.type_names(id, true)?;
            return Ok(Type::Union(types));
        }
        if matches!(self.current.kind, TokenKind::Ampersand) {
            self.next();
            let types = self.type_names(id, false)?;
            return Ok(Type::Intersection(types));
        }
        Ok(Type::Plain(id))
    }

    /// An expression whose operators bind at least as tightly as `bp`.
    #[verifier::rlimit(40)]
    fn expression(&mut self, bp: u8) -> (r: Result<Expression, Stop>)
        requires
            old(self).wf(),
        ensures
            final(self).wf(),
            final(self).tokens() == old(self).tokens(),
            parse_expression(old(self).tokens(), old(self).position(), bp) == (
                final(self).position(),
                run_outcome(r, |e: Expression| e.model()),
            ),
        decreases old(self).remaining(), 1int,
    {
        let ghost toks = self.tokens();
        let ghost p = self.position();
        proof {
            self.lemma_in_range();
        }
        if self.is_eof() {
            return Err(Stop::Failed(ParseError::UnexpectedEndOfFile));
        }
        let lhs = match &self.current.kind {
            TokenKind::Variable(v) => Expression::Variable(v.clone()),
            TokenKind::Int(i) => Expression::Int(*i),
            TokenKind::Identifier(i) => Expression::Identifier(i.clone()),
            TokenKind::LeftParen => {
                self.next();
                proof {
                    lemma_expression_progress(toks, p + 1, 0);
                }
                let e = self.expression(0)?;
                if !matches!(self.current.kind, TokenKind::RightParen) {
                    return Err(
                        Stop::Failed(
                            ParseError::ExpectedToken(
                                String::from_str("expected right paren"),
                                self.current.span,
                            ),
                        ),
                    );
                }
                e
            },
            TokenKind::LeftBracket => {
                let mut items: Vec<ArrayItem> = Vec::new();
                self.next();
                let ghost target = parse_array_items(toks, p + 1, Seq::empty());
                proof {
                    lemma_array_items_progress(toks, p + 1, Seq::empty());
                    assert(items_model(items@) =~= Seq::empty());
                }
                while !matches!(self.current.kind, TokenKind::RightBracket)
                    invariant
                        self.wf(),
                        self.tokens() == toks,
                        p < self.position(),
                        toks == old(self).tokens(),
                        p == old(self).position(),
                        parse_array_items(toks, self.position(), items_model(items@)) == target,
                        kind_at(toks, p) is LeftBracket,
                        p < toks.len(),
                        target == parse_array_items(toks, p + 1, Seq::empty()),
                    decreases self.remaining(),
                {
                    proof {
                        self.lemma_in_range();
                        lemma_expression_progress(toks, self.position(), 0);
                    }
                    let ghost before = items@;
                    let ghost q0 = self.position();
                    let mut key: Option<Expression> = None;
                    let mut value = self.expression(0)?;
                    if matches!(self.current.kind, TokenKind::DoubleArrow) {
                        self.next();
                        proof {
                            self.lemma_in_range();
                        }
                        proof {
                            lemma_expression_progress(toks, self.position(), 0);
                        }
                        key = Some(value);
                        value = self.expression(0)?;
                    }
                    let item = ArrayItem { key, value };
                    proof {
                        lemma_items_model_push(before, item);
                    }
                    items.push(item);
                    if matches!(self.current.kind, TokenKind::Comma) {
                        self.next();
                    }
                }
                Expression::Array(items)
            },
            _ => {
                // No expression starts with this token.
                return Err(Stop::Unsupported);
            },
        };
        self.next();
        let mut lhs = lhs;
        let ghost target = parse_expression(toks, p, bp);
        loop
            invariant
                self.wf(),
                self.tokens() == toks,
                p < self.position(),
                toks == old(self).tokens(),
                p == old(self).position(),
                target == parse_expression(toks, p, bp),
                parse_expression_tail(toks, self.position(), bp, lhs.model()) == target,
            decreases self.remaining(),
        {
            proof {
                self.lemma_in_range();
            }
            if matches!(self.current.kind, TokenKind::SemiColon | TokenKind::Eof) {
                return Ok(lhs);
            }
            if let Some(lbp) = postfix_binding_power(&self.current.kind) {
                if lbp < bp {
                    return Ok(lhs);
                }
                let ghost q = self.position();
                let op = self.advance().kind;
                proof {
                    lemma_postfix_progress(toks, q + 1, lhs.model(), op);
                }
                lhs = self.postfix(lhs, &op)?;
                continue;
            }
            if let Some((lbp, rbp)) = infix_binding_power(&self.current.kind) {
                if lbp < bp {
                    return Ok(lhs);
                }
                let ghost q = self.position();
                let op = self.advance().kind;
                proof {
                    lemma_expression_progress(toks, q + 1, rbp);
                }
                let rhs = self.expression(rbp)?;
                lhs = infix(lhs, op, rhs);
                continue;
            }
            return Ok(lhs);
        }
    }

    /// What follows the postfix operator `op` applied to `lhs`: for `(`, the
    /// arguments of a call and `)`.
    #[verifier::rlimit(40)]
    fn postfix(&mut self, lhs: Expression, op: &TokenKind) -> (r: Result<Expression, Stop>)
        requires
            old(self).wf(),
        ensures
            final(self).wf(),
            final(self).tokens() == old(self).tokens(),
            parse_postfix(old(self).tokens(), old(self).position(), lhs.model(), *op) == (
                final(self).position(),
                run_outcome(r, |e: Expression| e.model()),
            ),
        decreases old(self).remaining(), 3int,
    {
        let ghost toks = self.tokens();
        let ghost p = self.position();
        match op {
            TokenKind::LeftParen => {
                let mut args: Vec<Expression> = Vec::new();
                let ghost target = parse_call_args(toks, p, Seq::empty());
                proof {
                    assert(exprs_model(args@) =~= Seq::empty());
                }
                while !self.is_eof() && !matches!(self.current.kind, TokenKind::RightParen)
                    invariant
                        self.wf(),
                        self.tokens() == toks,
                        p <= self.position(),
                        toks == old(self).tokens(),
                        p == old(self).position(),
                        parse_call_args(toks, self.position(), exprs_model(args@)) == target,
                        *op is LeftParen,
                        target == parse_call_args(toks, p, Seq::empty()),
                    decreases self.remaining(),
                {
                    proof {
                        self.lemma_in_range();
                        lemma_expression_progress(toks, self.position(), 0);
                    }
                    let ghost before = args@;
                    let e = self.expression(0)?;
                    proof {
                        lemma_exprs_model_push(before, e);
                    }
                    args.push(e);
                    if matches!(self.current.kind, TokenKind::Comma) {
                        self.next();
                    }
                }
                self.expect_kind(matches!(self.current.kind, TokenKind::RightParen), "expected )")?;
                Ok(Expression::Call(Box::new(lhs), args))
            },
            _ => {
                // No other token is a postfix operator.
                Err(Stop::Unsupported)
            },
        }
    }

    /// The names of a `use` statement, after the keyword.
    #[verifier::rlimit(40)]
    fn use_list(&mut self) -> (r: Result<Vec<Use>, Stop>)
        requires
            old(self).wf(),
        ensures
            final(self).wf(),
            final(self).tokens() == old(self).tokens(),
            parse_use_list(old(self).tokens(), old(self).position(), Seq::empty()) == (
                final(self).position(),
                run_outcome(r, |v: Vec<Use>| uses_model(v@)),
            ),
    {
        let ghost toks = self.tokens();
        let ghost target = parse_use_list(toks, self.position(), Seq::empty());
        let mut uses: Vec<Use> = Vec::new();
        proof {
            assert(uses_model(uses@) =~= Seq::empty());
        }
        loop
            invariant
                self.wf(),
                self.tokens() == toks,
                toks == old(self).tokens(),
                target == parse_use_list(toks, old(self).position(), Seq::empty()),
                parse_use_list(toks, self.position(), uses_model(uses@)) == target,
            decreases self.remaining(),
        {
            proof {
                self.lemma_in_range();
            }
            if self.is_eof() {
                return Ok(uses);
            }
            let found = self.current.kind.any_name();
            let name = self.expect_text(found, "expected identifier in use statement")?;
            let mut alias: Option<Identifier> = None;
            if matches!(self.current.kind, TokenKind::As) {
                self.next();
                let found = self.current.kind.plain_name();
                let a = self.expect_text(found, "expected identifier after as")?;
                alias = Some(Identifier { name: a });
            }
            let u = Use { name: Identifier { name }, alias };
            let ghost before = uses@;
            uses.push(u);
            proof {
                assert(uses_model(uses@) =~= uses_model(before).push(u.model()));
            }
            if matches!(self.current.kind, TokenKind::Comma) {
                self.next();
                continue;
            }
            self.expect_kind(
                matches!(self.current.kind, TokenKind::SemiColon),
                "expected semi-colon as end of use statement",
            )?;
            return Ok(uses);
        }
    }

    /// An `echo` statement, after the keyword.
    #[verifier::rlimit(40)]
    fn echo(&mut self) -> (r: Result<Statement, Stop>)
        requires
            old(self).wf(),
        ensures
            final(self).wf(),
            final(self).tokens() == old(self).tokens(),
            parse_echo(old(self).tokens(), old(self).position()) == (
                final(self).position(),
                run_outcome(r, |s: Statement| s.model()),
            ),
    {
        let ghost toks = self.tokens();
        let ghost target = parse_echo_values(toks, self.position(), Seq::empty());
        let mut values: Vec<Expression> = Vec::new();
        proof {
            assert(exprs_model(values@) =~= Seq::empty());
        }
        while !self.is_eof() && !matches!(self.current.kind, TokenKind::SemiColon)
            invariant
                self.wf(),
                self.tokens() == toks,
                toks == old(self).tokens(),
                target == parse_echo_values(toks, old(self).position(), Seq::empty()),
                parse_echo_values(toks, self.position(), exprs_model(values@)) == target,
            decreases self.remaining(),
        {
            proof {
                self.lemma_in_range();
                lemma_expression_progress(toks, self.position(), 0);
            }
            let ghost before = values@;
            let e = self.expression(0)?;
            proof {
                lemma_exprs_model_push(before, e);
            }
            values.push(e);
            // `echo` takes several expressions separated by commas.
            if !self.is_eof() && matches!(self.current.kind, TokenKind::Comma) {
                self.next();
            }
        }
        self.expect_kind(
            matches!(self.current.kind, TokenKind::SemiColon),
            "expected semi-colon at the end of an echo statement",
        )?;
        Ok(Statement::Echo { values })
    }

    /// A `return` statement, after the keyword.
    fn return_statement(&mut self) -> (r: Result<Statement, Stop>)
        requires
            old(self).wf(),
        ensures
            final(self).wf(),
            final(self).tokens() == old(self).tokens(),
            parse_return(old(self).tokens(), old(self).position()) == (
                final(self).position(),
                run_outcome(r, |s: Statement| s.model()),
            ),
    {
        if matches!(self.current.kind, TokenKind::SemiColon) {
            let ret = Statement::Return { value: None };
            self.expect_kind(true, "expected semi-colon at the end of return statement.")?;
            Ok(ret)
        } else {
            let value = match self.expression(0) {
                Ok(e) => Some(e),
                Err(Stop::Failed(_)) => None,
                Err(Stop::Unsupported) => return Err(Stop::Unsupported),
            };
            let ret = Statement::Return { value };
            self.expect_kind(
                matches!(self.current.kind, TokenKind::SemiColon),
                "expected semi-colon at the end of return statement.",
            )?;
            Ok(ret)
        }
    }

    /// The parameters of a function, up to `)`.
    #[verifier::rlimit(40)]
    fn params(&mut self) -> (r: Result<Vec<Param>, Stop>)
        requires
            old(self).wf(),
        ensures
            final(self).wf(),
            final(self).tokens() == old(self).tokens(),
            parse_params(old(self).tokens(), old(self).position(), Seq::empty()) == (
                final(self).position(),
                run_outcome(r, |v: Vec<Param>| params_model(v@)),
            ),
    {
        let ghost toks = self.tokens();
        let ghost target = parse_params(toks, self.position(), Seq::empty());
        let mut params: Vec<Param> = Vec::new();
        proof {
            assert(params_model(params@) =~= Seq::empty());
        }
        while !self.is_eof() && !matches!(self.current.kind, TokenKind::RightParen)
            invariant
                self.wf(),
                self.tokens() == toks,
                toks == old(self).tokens(),
                target == parse_params(toks, old(self).position(), Seq::empty()),
                parse_params(toks, self.position(), params_model(params@)) == target,
            decreases self.remaining(),
        {
            proof {
                self.lemma_in_range();
                lemma_type_progress(toks, self.position());
            }
            let mut param_type: Option<Type> = None;
            // Without a variable here, a type comes first.
            if !matches!(self.current.kind, TokenKind::Variable(_)) {
                param_type = Some(self.type_string()?);
            }
            let found = self.current.kind.variable_name();
            let var = self.expect_text(found, "expected variable")?;
            let param = Param { name: Expression::Variable(var), ty: param_type };
            let ghost before = params@;
            params.push(param);
            proof {
                assert(params_model(params@) =~= params_model(before).push(param.model()));
            }
            if matches!(self.current.kind, TokenKind::Comma) {
                self.next();
            }
        }
        Ok(params)
    }

    /// `{`, statements, `}`.
    #[verifier::rlimit(40)]
    fn braced_block(&mut self) -> (r: Result<Block, Stop>)
        requires
            old(self).wf(),
        ensures
            final(self).wf(),
            final(self).tokens() == old(self).tokens(),
            parse_braced_block(old(self).tokens(), old(self).position()) == (
                final(self).position(),
                run_outcome(r, |v: Block| stmts_model(v@)),
            ),
        decreases old(self).remaining(), 0int,
    {
        let ghost toks = self.tokens();
        let ghost p = self.position();
        proof {
            self.lemma_in_range();
        }
        self.expect_kind(matches!(self.current.kind, TokenKind::LeftBrace), "expected {")?;
        let ghost target = parse_block(toks, p + 1, true, Seq::empty());
        let mut body: Block = Vec::new();
        proof {
            assert(stmts_model(body@) =~= Seq::empty());
        }
        while !self.is_eof() && !matches!(self.current.kind, TokenKind::RightBrace)
            invariant
                self.wf(),
                self.tokens() == toks,
                toks == old(self).tokens(),
                p == old(self).position(),
                p < self.position(),
                kind_at(toks, p) is LeftBrace,
                p < toks.len(),
                target == parse_block(toks, p + 1, true, Seq::empty()),
                parse_block(toks, self.position(), true, stmts_model(body@)) == target,
            decreases self.remaining(),
        {
            proof {
                self.lemma_in_range();
                lemma_statement_progress(toks, self.position());
            }
            let ghost before = body@;
            let s = self.statement()?;
            proof {
                lemma_stmts_model_push(before, s);
            }
            body.push(s);
        }
        self.expect_kind(matches!(self.current.kind, TokenKind::RightBrace), "expected }")?;
        Ok(body)
    }

    /// An `if` statement, after the keyword.
    #[verifier::rlimit(40)]
    fn if_statement(&mut self) -> (r: Result<Statement, Stop>)
        requires
            old(self).wf(),
        ensures
            final(self).wf(),
            final(self).tokens() == old(self).tokens(),
            parse_if(old(self).tokens(), old(self).position()) == (
                final(self).position(),
                run_outcome(r, |s: Statement| s.model()),
            ),
        decreases old(self).remaining(), 0int,
    {
        let ghost toks = self.tokens();
        let ghost p = self.position();
        proof {
            self.lemma_in_range();
        }
        self.expect_kind(matches!(self.current.kind, TokenKind::LeftParen), "expected (")?;
        proof {
            self.lemma_in_range();
            lemma_expression_progress(toks, self.position(), 0);
        }
        let condition = self.expression(0)?;
        self.expect_kind(matches!(self.current.kind, TokenKind::RightParen), "expected )")?;
        let then = self.braced_block()?;
        Ok(Statement::If { condition, then })
    }

    /// A function declaration, after the keyword.
    #[verifier::rlimit(40)]
    fn function(&mut self) -> (r: Result<Statement, Stop>)
        requires
            old(self).wf(),
        ensures
            final(self).wf(),
            final(self).tokens() == old(self).tokens(),
            parse_function(old(self).tokens(), old(self).position()) == (
                final(self).position(),
                run_outcome(r, |s: Statement| s.model()),
            ),
        decreases old(self).remaining(), 0int,
    {
        let ghost toks = self.tokens();
        let ghost p = self.position();
        proof {
            self.lemma_in_range();
        }
        let found = self.current.kind.plain_name();
        let name = self.expect_text(found, "expected identifier")?;
        self.expect_kind(matches!(self.current.kind, TokenKind::LeftParen), "expected (")?;
        proof {
            self.lemma_in_range();
            lemma_params_progress(toks, self.position(), Seq::empty());
        }
        let params = self.params()?;
        self.expect_kind(matches!(self.current.kind, TokenKind::RightParen), "expected )")?;
        let mut return_type: Option<Type> = None;
        if matches!(self.current.kind, TokenKind::Colon) {
            self.next();
            proof {
                self.lemma_in_range();
                lemma_type_progress(toks, self.position());
            }
            return_type = Some(self.type_string()?);
        }
        let body = self.braced_block()?;
        Ok(Statement::Function { name: Identifier { name }, params, body, return_type })
    }

    /// A `namespace` statement, after the keyword.
    #[verifier::rlimit(40)]
    fn namespace(&mut self) -> (r: Result<Statement, Stop>)
        requires
            old(self).wf(),
        ensures
            final(self).wf(),
            final(self).tokens() == old(self).tokens(),
            parse_namespace(old(self).tokens(), old(self).position()) == (
                final(self).position(),
                run_outcome(r, |s: Statement| s.model()),
            ),
        decreases old(self).remaining(), 0int,
    {
        let ghost toks = self.tokens();
        let ghost p = self.position();
        proof {
            self.lemma_in_range();
        }
        let found = self.current.kind.namespace_name();
        let name = self.expect_text(found, "expected identifier after namespace")?;
        let mut braced = false;
        if matches!(self.current.kind, TokenKind::LeftBrace) {
            braced = true;
            self.next();
        } else {
            self.expect_kind(matches!(self.current.kind, TokenKind::SemiColon), "expected semi-colon")?;
        }
        let ghost r = self.position();
        let ghost target = parse_block(toks, r, braced, Seq::empty());
        let mut body: Block = Vec::new();
        proof {
            assert(stmts_model(body@) =~= Seq::empty());
        }
        while !self.is_eof() && !(braced && matches!(self.current.kind, TokenKind::RightBrace))
            invariant
                self.wf(),
                self.tokens() == toks,
                toks == old(self).tokens(),
                p == old(self).position(),
                p < r <= self.position(),
                target == parse_block(toks, r, braced, Seq::empty()),
                braced == (kind_at(toks, p + 1) is LeftBrace),
                parse_namespace(toks, p) == (match target {
                    (s, Outcome::Parsed(b)) => if braced {
                        match expect_token(toks, s, kind_at(toks, s) is RightBrace, "expected }"@) {
                            (t, Outcome::Parsed(_)) => (t, Outcome::Parsed(StmtModel::Namespace(name@, b))),
                            (t, o) => (t, relay(o)),
                        }
                    } else {
                        (s, Outcome::Parsed(StmtModel::Namespace(name@, b)))
                    },
                    (s, o) => (s, relay(o)),
                }),
                parse_block(toks, self.position(), braced, stmts_model(body@)) == target,
            decreases self.remaining(),
        {
            proof {
                self.lemma_in_range();
                lemma_statement_progress(toks, self.position());
            }
            let ghost before = body@;
            let s = self.statement()?;
            proof {
                lemma_stmts_model_push(before, s);
            }
            body.push(s);
        }
        if braced {
            self.expect_kind(matches!(self.current.kind, TokenKind::RightBrace), "expected }")?;
        }
        Ok(Statement::Namespace { name, body })
    }

    /// The statements of a class body, each turned into a member, up to `}`.
    #[verifier::rlimit(40)]
    fn class_body(&mut self) -> (r: Result<Block, Stop>)
        requires
            old(self).wf(),
        ensures
            final(self).wf(),
            final(self).tokens() == old(self).tokens(),
            parse_class_body(old(self).tokens(), old(self).position(), Seq::empty()) == (
                final(self).position(),
                run_outcome(r, |v: Block| stmts_model(v@)),
            ),
        decreases old(self).remaining(), 2int,
    {
        let ghost toks = self.tokens();
        let ghost target = parse_class_body(toks, self.position(), Seq::empty());
        let mut body: Block = Vec::new();
        proof {
            assert(stmts_model(body@) =~= Seq::empty());
        }
        while !matches!(self.current.kind, TokenKind::RightBrace) && !self.is_eof()
            invariant
                self.wf(),
                self.tokens() == toks,
                toks == old(self).tokens(),
                old(self).position() <= self.position(),
                target == parse_class_body(toks, old(self).position(), Seq::empty()),
                parse_class_body(toks, self.position(), stmts_model(body@)) == target,
            decreases self.remaining(),
        {
            proof {
                self.lemma_in_range();
                lemma_statement_progress(toks, self.position());
            }
            let ghost before = body@;
            let s = self.statement()?;
            let statement = match s {
                Statement::Function { name, params, body, .. } => Statement::Method {
                    name,
                    params,
                    body,
                    flags: Vec::new(),
                },
                Statement::Var { var } => Statement::Property { var },
                Statement::Method { .. } | Statement::Comment { .. } => s,
                _ => {
                    return Err(
                        Stop::Failed(
                            ParseError::InvalidClassStatement(
                                String::from_str("Classes can only contain properties, constants and methods."),
                                self.current.span,
                            ),
                        ),
                    );
                },
            };
            proof {
                assert(class_member(s.model()) == Some(statement.model()));
                lemma_stmts_model_push(before, statement);
            }
            body.push(statement);
        }
        Ok(body)
    }

    /// A class declaration, starting at the keyword `class`.
    #[verifier::rlimit(40)]
    fn class(&mut self) -> (r: Result<Statement, Stop>)
        requires
            old(self).wf(),
            old(self).current.kind is Class,
        ensures
            final(self).wf(),
            final(self).tokens() == old(self).tokens(),
            parse_class(old(self).tokens(), old(self).position()) == (
                final(self).position(),
                run_outcome(r, |s: Statement| s.model()),
            ),
        decreases old(self).remaining(), 0int,
    {
        let ghost toks = self.tokens();
        let ghost p = self.position();
        proof {
            self.lemma_in_range();
        }
        self.next();
        assert(self.position() == p + 1);
        let found = self.current.kind.plain_name();
        let name = self.expect_text(found, "expected class name")?;
        let mut extends: Option<Identifier> = None;
        if matches!(self.current.kind, TokenKind::Extends) {
            self.next();
            let found = self.current.kind.plain_name();
            let e = self.expect_text(found, "expected identifier")?;
            extends = Some(Identifier { name: e });
        }
        let mut implements: Vec<Identifier> = Vec::new();
        proof {
            assert(identifiers_model(implements@) =~= Seq::empty());
        }
        if matches!(self.current.kind, TokenKind::Implements) {
            self.next();
            let ghost start = self.position();
            let ghost target = parse_implements(toks, start, Seq::empty());
            while !matches!(self.current.kind, TokenKind::LeftBrace)
                invariant
                    self.wf(),
                    self.tokens() == toks,
                    toks == old(self).tokens(),
                    target == parse_implements(toks, start, Seq::empty()),
                    p == old(self).position(),
                    p < start <= self.position(),
                    target.1 is Failed ==> parse_class(toks, p) == (target.0, relay::<Seq<Seq<char>>, StmtModel>(target.1)),
                    parse_implements(toks, self.position(), identifiers_model(implements@)) == target,
                decreases self.remaining(),
            {
                proof {
                    self.lemma_in_range();
                }
                if matches!(self.current.kind, TokenKind::Comma) {
                    self.next();
                }
                let found = self.current.kind.plain_name();
                let i = self.expect_text(found, "expected identifier")?;
                let ghost before = implements@;
                implements.push(Identifier { name: i });
                proof {
                    assert(identifiers_model(implements@) =~= identifiers_model(before).push(i@));
                }
            }
        }
        self.expect_kind(matches!(self.current.kind, TokenKind::LeftBrace), "expected left-brace")?;
        proof {
            self.lemma_in_range();
        }
        let body = self.class_body()?;
        self.expect_kind(matches!(self.current.kind, TokenKind::RightBrace), "expected right-brace")?;
        Ok(Statement::Class { name: Identifier { name }, extends, implements, body, flag: None })
    }

    /// A statement.
    #[verifier::rlimit(40)]
    fn statement(&mut self) -> (r: Result<Statement, Stop>)
        requires
            old(self).wf(),
        ensures
            final(self).wf(),
            final(self).tokens() == old(self).tokens(),
            parse_statement(old(self).tokens(), old(self).position()) == (
                final(self).position(),
                run_outcome(r, |s: Statement| s.model()),
            ),
        decreases old(self).remaining(), 1int,
    {
        let ghost toks = self.tokens();
        let ghost p = self.position();
        proof {
            self.lemma_in_range();
        }
        match &self.current.kind {
            TokenKind::InlineHtml(html) => {
                let s = Statement::InlineHtml(html.clone());
                self.next();
                Ok(s)
            },
            TokenKind::Comment(comment) => {
                let s = Statement::Comment { comment: comment.clone() };
                self.next();
                Ok(s)
            },
            TokenKind::Use => {
                self.next();
                let uses = self.use_list()?;
                Ok(Statement::Use { uses })
            },
            TokenKind::Namespace => {
                self.next();
                self.namespace()
            },
            TokenKind::If => {
                self.next();
                self.if_statement()
            },
            TokenKind::Class => self.class(),
            TokenKind::Echo => {
                self.next();
                self.echo()
            },
            TokenKind::Return => {
                self.next();
                self.return_statement()
            },
            TokenKind::Function => {
                self.next();
                self.function()
            },
            TokenKind::Var => {
                self.next();
                let found = self.current.kind.variable_name();
                let var = self.expect_text(found, "expected variable name")?;
                self.expect_kind(matches!(self.current.kind, TokenKind::SemiColon), "expected semi-colon")?;
                Ok(Statement::Var { var })
            },
            TokenKind::SemiColon => {
                self.next();
                Ok(Statement::Noop)
            },
            _ => {
                let expr = self.expression(0)?;
                self.expect_kind(matches!(self.current.kind, TokenKind::SemiColon), "expected semi-colon")?;
                Ok(Statement::Expression { expr })
            },
        }
    }

    /// Statements up to the end of the input, skipping open tags.
    #[verifier::rlimit(40)]
    fn program(&mut self) -> (r: Result<Program, Stop>)
        requires
            old(self).wf(),
        ensures
            final(self).wf(),
            final(self).tokens() == old(self).tokens(),
            parse_program(old(self).tokens(), old(self).position(), Seq::empty()) == (
                final(self).position(),
                run_outcome(r, |v: Program| stmts_model(v@)),
            ),
            r is Ok ==> final(self).current_token().kind is Eof,
    {
        let ghost toks = self.tokens();
        let ghost target = parse_program(toks, self.position(), Seq::empty());
        let mut ast: Program = Vec::new();
        proof {
            assert(stmts_model(ast@) =~= Seq::empty());
        }
        while !self.is_eof()
            invariant
                self.wf(),
                self.tokens() == toks,
                toks == old(self).tokens(),
                target == parse_program(toks, old(self).position(), Seq::empty()),
                parse_program(toks, self.position(), stmts_model(ast@)) == target,
            decreases self.remaining(),
        {
            proof {
                self.lemma_in_range();
                lemma_statement_progress(toks, self.position());
            }
            if matches!(self.current.kind, TokenKind::OpenTag(_)) {
                self.next();
                continue;
            }
            let ghost before = ast@;
            let s = self.statement()?;
            proof {
                lemma_stmts_model_push(before, s);
            }
            ast.push(s);
        }
        Ok(ast)
    }

    /// Parses statements up to the end of the input, skipping open tags.
    ///
    /// The program comes back where every statement parses; the first error
    /// comes back otherwise, and then the parser stands where it gave up.
    /// The input must not hold an expression that starts with a token no
    /// expression starts with (see [`Parser::is_supported`]).
    pub fn parse(&mut self) -> (r: Result<Program, ParseError>)
        requires
            old(self).wf(),
            !(parse_program(old(self).tokens(), old(self).position(), Seq::empty()).1 is Unsupported),
        ensures
            final(self).wf(),
            final(self).tokens() == old(self).tokens(),
            parse_program(old(self).tokens(), old(self).position(), Seq::empty()) == (
                final(self).position(),
                outcome_of(r, |v: Program| stmts_model(v@)),
            ),
            r is Ok ==> final(self).current_token().kind is Eof,
    {
        match self.program() {
            Ok(ast) => Ok(ast),
            Err(Stop::Failed(e)) => Err(e),
            Err(Stop::Unsupported) => {
                // Ruled out by the precondition.
                Err(ParseError::UnexpectedEndOfFile)
            },
        }
    }

    /// A parser in the same state as this one.
    fn duplicate(&self) -> (copy: Parser)
        requires
            self.wf(),
        ensures
            copy.wf(),
            copy.tokens() == self.tokens(),
            copy.position() == self.position(),
    {
        let iter = self.iter.clone();
        proof {
            assert forall|i: int| 0 <= i < iter@.len() implies iter@[i] == self.iter@[i] by {
                assert(cloned::<Token>(self.iter@[i], iter@[i]));
            }
            assert(iter@ =~= self.iter@);
        }
        Parser {
            current: self.current.clone(),
            peek: self.peek.clone(),
            iter,
            tokens: Ghost(self.tokens@),
            pos: Ghost(self.pos@),
        }
    }

    /// Whether [`Parser::parse`] can run from here: whether the input reaches
    /// no expression that starts with a token no expression starts with.
    /// The parser itself is left as it is.
    pub fn is_supported(&self) -> (b: bool)
        requires
            self.wf(),
        ensures
            b == !(parse_program(self.tokens(), self.position(), Seq::empty()).1 is Unsupported),
    {
        let mut copy = self.duplicate();
        match copy.program() {
            Err(Stop::Unsupported) => false,
            _ => true,
        }
    }
}

} // verus!
