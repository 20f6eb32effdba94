use crate::token::Token;
use vstd::prelude::*;

verus! {

/// An operator of the expression language, together with the stack-bottom
/// marker `Sentinel`, which is not a real operator but bounds how far a
/// reduction may reach down the operator stack.
#[derive(Clone, Copy, Debug, PartialEq, Eq, Structural)]
pub enum Operator {
    Sentinel,
    Plus,
    Minus,
    Multiplication,
    Division,
    Negative,
    Exponential,
    Assign,
}

/// Raised when a token that is not a binary operator is turned into an
/// `Operator`.
pub struct NotAnOperatorError(pub Token);

impl Operator {
    /// The precedence relation, as a total and deterministic table.
    ///
    /// `Greater` means: `self` on top of the operator stack binds tighter
    /// than the incoming operator `other`. `Sentinel` compares lower than
    /// every real operator, and `Assign` lower than every other real
    /// operator; `Assign` compares `Equal` only to itself, so an assignment
    /// binds as far to the right as it can. Operators of the same
    /// precedence compare `Equal`, which the reduction rule takes left to
    /// right; `Negative` and `Exponential` compare `Greater` even against
    /// themselves, so a chain of them reduces as soon as the next operator
    /// of the same rank arrives.
    pub open spec fn cmp_spec(self, other: Self) -> core::cmp::Ordering {
        match self {
            Operator::Assign => match other {
                Operator::Sentinel => core::cmp::Ordering::Greater,
                Operator::Assign => core::cmp::Ordering::Equal,
                _ => core::cmp::Ordering::Less,
            },
            Operator::Plus | Operator::Minus => match other {
                Operator::Sentinel | Operator::Assign => core::cmp::Ordering::Greater,
                Operator::Multiplication
                | Operator::Division
                | Operator::Negative
                | Operator::Exponential => core::cmp::Ordering::Less,
                _ => core::cmp::Ordering::Equal,
            },
            Operator::Multiplication | Operator::Division => match other {
                Operator::Sentinel | Operator::Minus | Operator::Plus | Operator::Assign =>
                    core::cmp::Ordering::Greater,
                Operator::Negative | Operator::Exponential => core::cmp::Ordering::Less,
                _ => core::cmp::Ordering::Equal,
            },
            Operator::Negative => match other {
                Operator::Exponential => core::cmp::Ordering::Less,
                _ => core::cmp::Ordering::Greater,
            },
            Operator::Exponential => core::cmp::Ordering::Greater,
            Operator::Sentinel => core::cmp::Ordering::Less,
        }
    }

    /// Turns a binary-operator token into the operator it denotes; any other
    /// token is rejected.
    pub fn try_from(value: &Token) -> (result: Result<Operator, NotAnOperatorError>)
        ensures
            match result {
                Ok(op) => op == value@.operator_of_token_view()->Some_0
                    && value@.operator_of_token_view() is Some,
                Err(_) => value@.operator_of_token_view() is None,
            },
    {
        match value {
            Token::Assign => Ok(Operator::Assign),
            Token::Plus => Ok(Operator::Plus),
            Token::Minus => Ok(Operator::Minus),
            Token::Star => Ok(Operator::Multiplication),
            Token::Slash => Ok(Operator::Division),
            Token::Caret => Ok(Operator::Exponential),
            _ => Err(NotAnOperatorError(value.clone())),
        }
    }
}

impl crate::token::TokenView {
    /// The operator denoted by a token, if any.
    pub open spec fn operator_of_token_view(self) -> Option<Operator> {
        match self {
            crate::token::TokenView::Assign => Some(Operator::Assign),
            crate::token::TokenView::Plus => Some(Operator::Plus),
            crate::token::TokenView::Minus => Some(Operator::Minus),
            crate::token::TokenView::Star => Some(Operator::Multiplication),
            crate::token::TokenView::Slash => Some(Operator::Division),
            crate::token::TokenView::Caret => Some(Operator::Exponential),
            _ => None,
        }
    }
}

impl PartialOrd for Operator {
    /// The executable precedence comparison; it never fails, the relation is
    /// total.
    fn partial_cmp(&self, other: &Self) -> (r: Option<core::cmp::Ordering>) {
        Some(
            match self {
                Operator::Assign => match other {
                    Operator::Sentinel => core::cmp::Ordering::Greater,
                    Operator::Assign => core::cmp::Ordering::Equal,
                    _ => core::cmp::Ordering::Less,
                },
                Operator::Plus | Operator::Minus => match other {
                    Operator::Sentinel | Operator::Assign => core::cmp::Ordering::Greater,
                    Operator::Multiplication
                    | Operator::Division
                    | Operator::Negative
                    | Operator::Exponential => core::cmp::Ordering::Less,
                    _ => core::cmp::Ordering::Equal,
                },
                Operator::Multiplication | Operator::Division => match other {
                    Operator::Sentinel | Operator::Minus | Operator::Plus | Operator::Assign =>
                        core::cmp::Ordering::Greater,
                    Operator::Negative | Operator::Exponential => core::cmp::Ordering::Less,
                    _ => core::cmp::Ordering::Equal,
                },
                Operator::Negative => match other {
                    Operator::Exponential => core::cmp::Ordering::Less,
                    _ => core::cmp::Ordering::Greater,
                },
                Operator::Exponential => core::cmp::Ordering::Greater,
                Operator::Sentinel => core::cmp::Ordering::Less,
            },
        )
    }
}

impl vstd::std_specs::cmp::PartialOrdSpecImpl for Operator {
    open spec fn obeys_partial_cmp_spec() -> bool {
        true
    }

    open spec fn partial_cmp_spec(&self, other: &Self) -> Option<core::cmp::Ordering> {
        Some(self.cmp_spec(*other))
    }
}

/// A node of the abstract syntax tree. Every node exclusively owns its
/// children: the tree has no sharing and no cycles.
///
/// A float literal is carried as the bit pattern of an IEEE-754 binary32
/// number.
#[derive(Debug, PartialEq)]
pub enum ASTNode {
    Ident(String),
    I32(i32),
    F32(u32),
    UnaryExpr { op: Operator, inner: Box<ASTNode> },
    BinaryExpr { op: Operator, lhs: Box<ASTNode>, rhs: Box<ASTNode> },
}

/// The mathematical shape of an abstract syntax tree.
pub enum AstView {
    Ident(Seq<char>),
    I32(i32),
    F32(u32),
    Unary { op: Operator, inner: Box<AstView> },
    Binary { op: Operator, lhs: Box<AstView>, rhs: Box<AstView> },
}

/// The mathematical shape of an abstract syntax tree node.
pub open spec fn ast_view(node: ASTNode) -> AstView
    decreases node,
{
    match node {
        ASTNode::Ident(s) => AstView::Ident(s@),
        ASTNode::I32(v) => AstView::I32(v),
        ASTNode::F32(bits) => AstView::F32(bits),
        ASTNode::UnaryExpr { op, inner } => AstView::Unary {
            op: op,
            inner: Box::new(ast_view(*inner)),
        },
        ASTNode::BinaryExpr { op, lhs, rhs } => AstView::Binary {
            op: op,
            lhs: Box::new(ast_view(*lhs)),
            rhs: Box::new(ast_view(*rhs)),
        },
    }
}

impl View for ASTNode {
    type V = AstView;

    open spec fn view(&self) -> AstView {
        ast_view(*self)
    }
}

impl DeepView for ASTNode {
    type V = AstView;

    open spec fn deep_view(&self) -> AstView {
        self.view()
    }
}

} // verus!
