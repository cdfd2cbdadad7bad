//! The syntax tree that the parser builds, and its mathematical model.
//!
//! Each executable node has a `model`: the same tree with strings as
//! `Seq<char>` and lists as `Seq`, which is what the grammar's spec functions
//! produce and what the parser's contracts speak of.
use vstd::prelude::*;

verus! {

/// A name of a function, class or namespace.
#[derive(Debug, PartialEq)]
pub struct Identifier {
    pub name: String,
}

impl From<String> for Identifier {
    fn from(name: String) -> (id: Identifier) {
        Identifier { name }
    }
}

impl vstd::std_specs::convert::FromSpecImpl<String> for Identifier {
    open spec fn obeys_from_spec() -> bool {
        true
    }

    open spec fn from_spec(name: String) -> Identifier {
        Identifier { name }
    }
}

/// A binary operator other than assignment.
#[derive(Debug, PartialEq, Eq, Clone, Copy, Structural)]
pub enum InfixOp {
    Add,
    Sub,
    LessThan,
}

/// A modifier written before `class`.
#[derive(Debug, PartialEq, Eq, Clone, Copy, Structural)]
pub enum ClassFlag {
    Final,
    Abstract,
}

/// A modifier written before a method.
#[derive(Debug, PartialEq, Eq, Clone, Copy, Structural)]
pub enum MethodFlag {
    Final,
    Abstract,
    Public,
    Protected,
    Private,
    Static,
}

/// A type written in a parameter list or as a return type.
#[derive(Debug, PartialEq)]
pub enum Type {
    Plain(String),
    Nullable(String),
    Union(Vec<String>),
    Intersection(Vec<String>),
}

/// An expression.
#[derive(Debug, PartialEq)]
pub enum Expression {
    Variable(String),
    Int(i64),
    Identifier(String),
    Array(Vec<ArrayItem>),
    Call(Box<Expression>, Vec<Expression>),
    Infix(Box<Expression>, InfixOp, Box<Expression>),
    Assign(Box<Expression>, Box<Expression>),
}

/// One entry of an array literal, with its key where one is written.
#[derive(Debug, PartialEq)]
pub struct ArrayItem {
    pub key: Option<Expression>,
    pub value: Expression,
}

/// A function or method parameter.
#[derive(Debug, PartialEq)]
pub struct Param {
    pub name: Expression,
    pub ty: Option<Type>,
}

/// One name imported by a `use` statement.
#[derive(Debug, PartialEq)]
pub struct Use {
    pub name: Identifier,
    pub alias: Option<Identifier>,
}

/// A statement.
#[derive(Debug, PartialEq)]
pub enum Statement {
    InlineHtml(String),
    Comment { comment: String },
    Use { uses: Vec<Use> },
    Namespace { name: String, body: Block },
    If { condition: Expression, then: Block },
    Class {
        name: Identifier,
        extends: Option<Identifier>,
        implements: Vec<Identifier>,
        body: Block,
        flag: Option<ClassFlag>,
    },
    Echo { values: Vec<Expression> },
    Return { value: Option<Expression> },
    Function { name: Identifier, params: Vec<Param>, body: Block, return_type: Option<Type> },
    Var { var: String },
    Noop,
    Expression { expr: Expression },
    Method { name: Identifier, params: Vec<Param>, body: Block, flags: Vec<MethodFlag> },
    Property { var: String },
}

/// A sequence of statements.
pub type Block = Vec<Statement>;

/// A whole parsed file.
pub type Program = Vec<Statement>;

impl Param {
    /// A parameter named `$name` with no declared type.
    pub fn from(name: &str) -> (p: Param)
        ensures
            p.model() == (ParamModel { name: ExprModel::Variable(name@), ty: None }),
    {
        Param { name: Expression::Variable(String::from_str(name)), ty: None }
    }
}

// ---------------------------------------------------------------------------
// Models
// ---------------------------------------------------------------------------

/// Model of [`Type`].
pub enum TypeModel {
    Plain(Seq<char>),
    Nullable(Seq<char>),
    Union(Seq<Seq<char>>),
    Intersection(Seq<Seq<char>>),
}

/// Model of [`Expression`].
pub enum ExprModel {
    Variable(Seq<char>),
    Int(i64),
    Identifier(Seq<char>),
    Array(Seq<ArrayItemModel>),
    Call(Box<ExprModel>, Seq<ExprModel>),
    Infix(Box<ExprModel>, InfixOp, Box<ExprModel>),
    Assign(Box<ExprModel>, Box<ExprModel>),
}

/// Model of [`ArrayItem`].
pub struct ArrayItemModel {
    pub key: Option<ExprModel>,
    pub value: ExprModel,
}

/// Model of [`Param`].
pub struct ParamModel {
    pub name: ExprModel,
    pub ty: Option<TypeModel>,
}

/// Model of [`Use`].
pub struct UseModel {
    pub name: Seq<char>,
    pub alias: Option<Seq<char>>,
}

/// Model of [`Statement`].
pub enum StmtModel {
    InlineHtml(Seq<char>),
    Comment(Seq<char>),
    Use(Seq<UseModel>),
    Namespace(Seq<char>, Seq<StmtModel>),
    If(ExprModel, Seq<StmtModel>),
    Class {
        name: Seq<char>,
        extends: Option<Seq<char>>,
        implements: Seq<Seq<char>>,
        body: Seq<StmtModel>,
        flag: Option<ClassFlag>,
    },
    Echo(Seq<ExprModel>),
    Return(Option<ExprModel>),
    Function {
        name: Seq<char>,
        params: Seq<ParamModel>,
        body: Seq<StmtModel>,
        return_type: Option<TypeModel>,
    },
    Var(Seq<char>),
    Noop,
    Expression(ExprModel),
    Method { name: Seq<char>, params: Seq<ParamModel>, body: Seq<StmtModel>, flags: Seq<MethodFlag> },
    Property(Seq<char>),
}

/// The characters of each string of a list.
pub open spec fn strings_model(s: Seq<String>) -> Seq<Seq<char>> {
    s.map_values(|x: String| x@)
}

/// The names of a list of identifiers.
pub open spec fn identifiers_model(s: Seq<Identifier>) -> Seq<Seq<char>> {
    s.map_values(|x: Identifier| x.name@)
}

/// The model of an optional identifier.
pub open spec fn opt_identifier_model(o: Option<Identifier>) -> Option<Seq<char>> {
    match o {
        Some(i) => Some(i.name@),
        None => None,
    }
}

impl Type {
    pub open spec fn model(self) -> TypeModel {
        match self {
            Type::Plain(s) => TypeModel::Plain(s@),
            Type::Nullable(s) => TypeModel::Nullable(s@),
            Type::Union(v) => TypeModel::Union(strings_model(v@)),
            Type::Intersection(v) => TypeModel::Intersection(strings_model(v@)),
        }
    }
}

/// The model of an optional type.
pub open spec fn opt_type_model(o: Option<Type>) -> Option<TypeModel> {
    match o {
        Some(t) => Some(t.model()),
        None => None,
    }
}

impl Expression {
    pub open spec fn model(self) -> ExprModel
        decreases self,
    {
        match self {
            Expression::Variable(s) => ExprModel::Variable(s@),
            Expression::Int(i) => ExprModel::Int(i),
            Expression::Identifier(s) => ExprModel::Identifier(s@),
            Expression::Array(items) => ExprModel::Array(items_model(items@)),
            Expression::Call(f, args) => ExprModel::Call(Box::new(f.model()), exprs_model(args@)),
            Expression::Infix(l, op, r) => ExprModel::Infix(
                Box::new(l.model()),
                op,
                Box::new(r.model()),
            ),
            Expression::Assign(l, r) => ExprModel::Assign(Box::new(l.model()), Box::new(r.model())),
        }
    }
}

/// The models of a list of expressions.
pub open spec fn exprs_model(s: Seq<Expression>) -> Seq<ExprModel>
    decreases s,
{
    if s.len() == 0 {
        Seq::empty()
    } else {
        exprs_model(s.drop_last()).push(s.last().model())
    }
}

/// The models of the entries of an array literal.
pub open spec fn items_model(s: Seq<ArrayItem>) -> Seq<ArrayItemModel>
    decreases s,
{
    if s.len() == 0 {
        Seq::empty()
    } else {
        let item = s.last();
        let key = match item.key {
            Some(k) => Some(k.model()),
            None => None,
        };
        items_model(s.drop_last()).push(ArrayItemModel { key, value: item.value.model() })
    }
}

/// The model of an optional expression.
pub open spec fn opt_expr_model(o: Option<Expression>) -> Option<ExprModel> {
    match o {
        Some(e) => Some(e.model()),
        None => None,
    }
}

impl Param {
    pub open spec fn model(self) -> ParamModel {
        ParamModel { name: self.name.model(), ty: opt_type_model(self.ty) }
    }
}

/// The models of a parameter list.
pub open spec fn params_model(s: Seq<Param>) -> Seq<ParamModel> {
    s.map_values(|p: Param| p.model())
}

impl Use {
    pub open spec fn model(self) -> UseModel {
        UseModel { name: self.name.name@, alias: opt_identifier_model(self.alias) }
    }
}

/// The models of the names of a `use` statement.
pub open spec fn uses_model(s: Seq<Use>) -> Seq<UseModel> {
    s.map_values(|u: Use| u.model())
}

impl Statement {
    pub open spec fn model(self) -> StmtModel
        decreases self,
    {
        match self {
            Statement::InlineHtml(s) => StmtModel::InlineHtml(s@),
            Statement::Comment { comment } => StmtModel::Comment(comment@),
            Statement::Use { uses } => StmtModel::Use(uses_model(uses@)),
            Statement::Namespace { name, body } => StmtModel::Namespace(name@, stmts_model(body@)),
            Statement::If { condition, then } => StmtModel::If(condition.model(), stmts_model(then@)),
            Statement::Class { name, extends, implements, body, flag } => StmtModel::Class {
                name: name.name@,
                extends: opt_identifier_model(extends),
                implements: identifiers_model(implements@),
                body: stmts_model(body@),
                flag,
            },
            Statement::Echo { values } => StmtModel::Echo(exprs_model(values@)),
            Statement::Return { value } => StmtModel::Return(opt_expr_model(value)),
            Statement::Function { name, params, body, return_type } => StmtModel::Function {
                name: name.name@,
                params: params_model(params@),
                body: stmts_model(body@),
                return_type: opt_type_model(return_type),
            },
            Statement::Var { var } => StmtModel::Var(var@),
            Statement::Noop => StmtModel::Noop,
            Statement::Expression { expr } => StmtModel::Expression(expr.model()),
            Statement::Method { name, params, body, flags } => StmtModel::Method {
                name: name.name@,
                params: params_model(params@),
                body: stmts_model(body@),
                flags: flags@,
            },
            Statement::Property { var } => StmtModel::Property(var@),
        }
    }
}

/// The models of a list of statements.
pub open spec fn stmts_model(s: Seq<Statement>) -> Seq<StmtModel>
    decreases s,
{
    if s.len() == 0 {
        Seq::empty()
    } else {
        stmts_model(s.drop_last()).push(s.last().model())
    }
}

/// Appending an expression appends its model.
pub proof fn lemma_exprs_model_push(s: Seq<Expression>, e: Expression)
    ensures
        exprs_model(s.push(e)) == exprs_model(s).push(e.model()),
{
    assert(s.push(e).drop_last() =~= s);
}

/// Appending an array entry appends its model.
pub proof fn lemma_items_model_push(s: Seq<ArrayItem>, item: ArrayItem)
    ensures
        items_model(s.push(item)) == items_model(s).push(
            ArrayItemModel { key: opt_expr_model(item.key), value: item.value.model() },
        ),
{
    assert(s.push(item).drop_last() =~= s);
}

/// Appending a statement appends its model.
pub proof fn lemma_stmts_model_push(s: Seq<Statement>, x: Statement)
    ensures
        stmts_model(s.push(x)) == stmts_model(s).push(x.model()),
{
    assert(s.push(x).drop_last() =~= s);
}

} // verus!
