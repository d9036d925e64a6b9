use vstd::prelude::*;

verus! {

/// The declared types a variable, parameter or function result may have.
#[derive(Clone, Copy, Debug, PartialEq, Eq, Structural)]
pub enum DeclType {
    Integer,
    Decimal,
    String,
    Boolean,
}

#[derive(Clone, Copy, Debug, PartialEq, Eq, Structural)]
pub enum BinOp {
    Add,
    Sub,
    Mul,
    Div,
    Eq,
}

#[derive(Clone, Copy, Debug, PartialEq, Eq, Structural)]
pub enum CondKind {
    If,
    ElseIf,
    Else,
}

/// A node of the syntax tree. Each node owns its children.
#[derive(Debug)]
pub enum AST {
    Assignment { name: String, declared_type: DeclType, value: Box<AST> },
    FunctionDecl { name: String, return_type: DeclType, params: Vec<AST>, body: Vec<AST> },
    Conditional {
        kind: CondKind,
        condition: Option<Box<AST>>,
        body: Vec<AST>,
        alternative: Option<Box<AST>>,
    },
    IntegerLiteral(i64),
    /// A decimal literal, kept as the text written in the source.
    DecimalLiteral(String),
    StringLiteral(String),
    Identifier(String),
    Binary { left: Box<AST>, op: BinOp, right: Box<AST> },
    Call { name: String, args: Vec<AST> },
    Parameter { name: String, declared_type: DeclType },
}

/// The mathematical model of a syntax tree node.
pub enum Node {
    Assignment { name: Seq<char>, declared_type: DeclType, value: Box<Node> },
    FunctionDecl { name: Seq<char>, return_type: DeclType, params: Seq<Node>, body: Seq<Node> },
    Conditional {
        kind: CondKind,
        condition: Option<Box<Node>>,
        body: Seq<Node>,
        alternative: Option<Box<Node>>,
    },
    IntegerLiteral(int),
    DecimalLiteral(Seq<char>),
    StringLiteral(Seq<char>),
    Identifier(Seq<char>),
    Binary { left: Box<Node>, op: BinOp, right: Box<Node> },
    Call { name: Seq<char>, args: Seq<Node> },
    Parameter { name: Seq<char>, declared_type: DeclType },
}

pub open spec fn view_nodes(v: Seq<AST>) -> Seq<Node>
    decreases v,
{
    Seq::new(
        v.len(),
        |i: int|
            if 0 <= i < v.len() {
                view_node(v[i])
            } else {
                Node::IntegerLiteral(0)
            },
    )
}

pub open spec fn view_node(a: AST) -> Node
    decreases a,
{
    match a {
        AST::Assignment { name, declared_type, value } => Node::Assignment {
            name: name@,
            declared_type,
            value: Box::new(view_node(*value)),
        },
        AST::FunctionDecl { name, return_type, params, body } => Node::FunctionDecl {
            name: name@,
            return_type,
            params: view_nodes(params@),
            body: view_nodes(body@),
        },
        AST::Conditional { kind, condition, body, alternative } => Node::Conditional {
            kind,
            condition: match condition {
                Some(c) => Some(Box::new(view_node(*c))),
                None => None,
            },
            body: view_nodes(body@),
            alternative: match alternative {
                Some(c) => Some(Box::new(view_node(*c))),
                None => None,
            },
        },
        AST::IntegerLiteral(v) => Node::IntegerLiteral(v as int),
        AST::DecimalLiteral(t) => Node::DecimalLiteral(t@),
        AST::StringLiteral(t) => Node::StringLiteral(t@),
        AST::Identifier(t) => Node::Identifier(t@),
        AST::Binary { left, op, right } => Node::Binary {
            left: Box::new(view_node(*left)),
            op,
            right: Box::new(view_node(*right)),
        },
        AST::Call { name, args } => Node::Call { name: name@, args: view_nodes(args@) },
        AST::Parameter { name, declared_type } => Node::Parameter { name: name@, declared_type },
    }
}

impl View for AST {
    type V = Node;

    open spec fn view(&self) -> Node {
        view_node(*self)
    }
}

} // verus!
