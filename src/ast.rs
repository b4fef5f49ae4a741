//! The syntax tree, and the builder functions that make its nodes.
use vstd::prelude::*;
use crate::number::Number;

verus! {

broadcast use vstd::std_specs::vec::axiom_vec_index_decreases;

/// A node of the syntax tree: a statement or an expression. `NoValue` fills the
/// value slot of a function parameter.
#[derive(Debug)]
pub enum ASTNode {
    OwO(OwONode),
    Print(PrintNode),
    FunctionDeclaration(FunctionDeclarationNode),
    FunctionCall(FunctionCallNode),
    VariableDeclaration(VariableDeclarationNode),
    VariableReference(VariableReferenceNode),
    StringLiteral(StringLiteralNode),
    NumberLiteral(NumberLiteralNode),
    BoolLiteral(BoolLiteralNode),
    BinaryExpression(BinaryExpressionNode),
    Return(ReturnNode),
    KindOf(KindOfNode),
    NoValue,
}

#[derive(Debug)]
pub struct PrintNode {
    pub expression: Box<ASTNode>,
}

/// The styled print statement.
#[derive(Debug)]
pub struct OwONode {
    pub expression: Box<ASTNode>,
}

#[derive(Debug)]
pub struct FunctionCallNode {
    pub name: String,
    pub arguments: Vec<ASTNode>,
}

#[derive(Debug)]
pub struct FunctionDeclarationNode {
    pub name: String,
    pub params: Vec<ASTNode>,
    pub body: Vec<ASTNode>,
}

#[derive(Debug)]
pub struct VariableDeclarationNode {
    pub name: String,
    pub value: Box<ASTNode>,
}

#[derive(Debug)]
pub struct VariableReferenceNode {
    pub name: String,
}

#[derive(Debug)]
pub struct StringLiteralNode {
    pub value: String,
}

#[derive(Debug)]
pub struct NumberLiteralNode {
    pub value: Number,
}

/// A boolean literal: 1 for true, anything else for false.
#[derive(Debug)]
pub struct BoolLiteralNode {
    pub value: i8,
}

#[derive(Debug)]
pub struct ReturnNode {
    pub value: Box<ASTNode>,
}

/// The type query.
#[derive(Debug)]
pub struct KindOfNode {
    pub expression: Box<ASTNode>,
}

#[derive(Debug)]
pub struct BinaryExpressionNode {
    pub operator: String,
    pub left: Box<ASTNode>,
    pub right: Box<ASTNode>,
}

/// Builders for the nodes of the tree.
pub struct ASTBuilder;

impl ASTBuilder {
    pub fn create_print_node(expression: ASTNode) -> (r: ASTNode)
        ensures
            r == ASTNode::Print(PrintNode { expression: Box::new(expression) }),
    {
        ASTNode::Print(PrintNode { expression: Box::new(expression) })
    }

    pub fn create_owo_node(expression: ASTNode) -> (r: ASTNode)
        ensures
            r == ASTNode::OwO(OwONode { expression: Box::new(expression) }),
    {
        ASTNode::OwO(OwONode { expression: Box::new(expression) })
    }

    pub fn create_kind_of_node(expression: ASTNode) -> (r: ASTNode)
        ensures
            r == ASTNode::KindOf(KindOfNode { expression: Box::new(expression) }),
    {
        ASTNode::KindOf(KindOfNode { expression: Box::new(expression) })
    }

    pub fn create_function_declaration_node(
        name: String,
        params: Vec<ASTNode>,
        body: Vec<ASTNode>,
    ) -> (r: ASTNode)
        ensures
            r == ASTNode::FunctionDeclaration(FunctionDeclarationNode { name, params, body }),
    {
        ASTNode::FunctionDeclaration(FunctionDeclarationNode { name, params, body })
    }

    pub fn create_variable_declaration_node(name: String, value: ASTNode) -> (r: ASTNode)
        ensures
            r == ASTNode::VariableDeclaration(
                VariableDeclarationNode { name, value: Box::new(value) },
            ),
    {
        ASTNode::VariableDeclaration(VariableDeclarationNode { name, value: Box::new(value) })
    }

    pub fn create_binary_expression_node(operator: String, left: ASTNode, right: ASTNode) -> (r:
        ASTNode)
        ensures
            r == ASTNode::BinaryExpression(
                BinaryExpressionNode { operator, left: Box::new(left), right: Box::new(right) },
            ),
    {
        ASTNode::BinaryExpression(
            BinaryExpressionNode { operator, left: Box::new(left), right: Box::new(right) },
        )
    }

    pub fn create_variable_reference_node(name: String) -> (r: ASTNode)
        ensures
            r == ASTNode::VariableReference(VariableReferenceNode { name }),
    {
        ASTNode::VariableReference(VariableReferenceNode { name })
    }

    pub fn create_string_literal_node(value: String) -> (r: ASTNode)
        ensures
            r == ASTNode::StringLiteral(StringLiteralNode { value }),
    {
        ASTNode::StringLiteral(StringLiteralNode { value })
    }

    pub fn create_number_literal_node(value: Number) -> (r: ASTNode)
        ensures
            r == ASTNode::NumberLiteral(NumberLiteralNode { value }),
    {
        ASTNode::NumberLiteral(NumberLiteralNode { value })
    }

    pub fn create_bool_literal_node(value: i8) -> (r: ASTNode)
        ensures
            r == ASTNode::BoolLiteral(BoolLiteralNode { value }),
    {
        ASTNode::BoolLiteral(BoolLiteralNode { value })
    }

    pub fn create_function_call_node(name: String, arguments: Vec<ASTNode>) -> (r: ASTNode)
        ensures
            r == ASTNode::FunctionCall(FunctionCallNode { name, arguments }),
    {
        ASTNode::FunctionCall(FunctionCallNode { name, arguments })
    }

    pub fn create_return_node(value: ASTNode) -> (r: ASTNode)
        ensures
            r == ASTNode::Return(ReturnNode { value: Box::new(value) }),
    {
        ASTNode::Return(ReturnNode { value: Box::new(value) })
    }
}

/// What a syntax tree stands for, with its lists as sequences.
pub enum Ast {
    OwO(Box<Ast>),
    Print(Box<Ast>),
    FunctionDeclaration(Seq<char>, Seq<Ast>, Seq<Ast>),
    FunctionCall(Seq<char>, Seq<Ast>),
    VariableDeclaration(Seq<char>, Box<Ast>),
    VariableReference(Seq<char>),
    StringLiteral(Seq<char>),
    NumberLiteral(Number),
    BoolLiteral(i8),
    BinaryExpression(Seq<char>, Box<Ast>, Box<Ast>),
    Return(Box<Ast>),
    KindOf(Box<Ast>),
    NoValue,
}

pub open spec fn view_node(n: ASTNode) -> Ast
    decreases n, 1int, 0int,
{
    match n {
        ASTNode::OwO(p) => Ast::OwO(Box::new(view_node(*p.expression))),
        ASTNode::Print(p) => Ast::Print(Box::new(view_node(*p.expression))),
        ASTNode::FunctionDeclaration(d) => Ast::FunctionDeclaration(
            d.name@,
            view_params(n, 0),
            view_body(n, 0),
        ),
        ASTNode::FunctionCall(c) => Ast::FunctionCall(c.name@, view_args(n, 0)),
        ASTNode::VariableDeclaration(v) => Ast::VariableDeclaration(
            v.name@,
            Box::new(view_node(*v.value)),
        ),
        ASTNode::VariableReference(v) => Ast::VariableReference(v.name@),
        ASTNode::StringLiteral(s) => Ast::StringLiteral(s.value@),
        ASTNode::NumberLiteral(x) => Ast::NumberLiteral(x.value),
        ASTNode::BoolLiteral(b) => Ast::BoolLiteral(b.value),
        ASTNode::BinaryExpression(e) => Ast::BinaryExpression(
            e.operator@,
            Box::new(view_node(*e.left)),
            Box::new(view_node(*e.right)),
        ),
        ASTNode::Return(r) => Ast::Return(Box::new(view_node(*r.value))),
        ASTNode::KindOf(k) => Ast::KindOf(Box::new(view_node(*k.expression))),
        ASTNode::NoValue => Ast::NoValue,
    }
}

pub open spec fn list_len(n: ASTNode, which: int) -> int {
    match n {
        ASTNode::FunctionCall(c) => if which == 0 { c.arguments@.len() as int } else { 0 },
        ASTNode::FunctionDeclaration(d) => if which == 1 {
            d.params@.len() as int
        } else if which == 2 {
            d.body@.len() as int
        } else {
            0
        },
        _ => 0,
    }
}

/// The views of a call's arguments from the `i`-th on.
pub open spec fn view_args(n: ASTNode, i: int) -> Seq<Ast>
    decreases n, 0int, list_len(n, 0) - i,
{
    match n {
        ASTNode::FunctionCall(c) => if 0 <= i < c.arguments@.len() {
            seq![view_node(c.arguments[i])] + view_args(n, i + 1)
        } else {
            Seq::empty()
        },
        _ => Seq::empty(),
    }
}

/// The views of a declaration's parameters from the `i`-th on.
pub open spec fn view_params(n: ASTNode, i: int) -> Seq<Ast>
    decreases n, 0int, list_len(n, 1) - i,
{
    match n {
        ASTNode::FunctionDeclaration(d) => if 0 <= i < d.params@.len() {
            seq![view_node(d.params[i])] + view_params(n, i + 1)
        } else {
            Seq::empty()
        },
        _ => Seq::empty(),
    }
}

/// The views of a declaration's body statements from the `i`-th on.
pub open spec fn view_body(n: ASTNode, i: int) -> Seq<Ast>
    decreases n, 0int, list_len(n, 2) - i,
{
    match n {
        ASTNode::FunctionDeclaration(d) => if 0 <= i < d.body@.len() {
            seq![view_node(d.body[i])] + view_body(n, i + 1)
        } else {
            Seq::empty()
        },
        _ => Seq::empty(),
    }
}

pub open spec fn view_all(v: Seq<ASTNode>) -> Seq<Ast> {
    v.map_values(|x: ASTNode| view_node(x))
}

pub proof fn lemma_view_args(n: ASTNode, i: int)
    requires
        n is FunctionCall,
        0 <= i <= n->FunctionCall_0.arguments@.len(),
    ensures
        view_args(n, i) == view_all(n->FunctionCall_0.arguments@).subrange(
            i,
            n->FunctionCall_0.arguments@.len() as int,
        ),
    decreases n->FunctionCall_0.arguments@.len() - i,
{
    let s = view_all(n->FunctionCall_0.arguments@);
    if i < n->FunctionCall_0.arguments@.len() {
        lemma_view_args(n, i + 1);
        assert(s.subrange(i, s.len() as int) =~= seq![s[i]] + s.subrange(i + 1, s.len() as int));
    } else {
        assert(s.subrange(i, s.len() as int) =~= Seq::<Ast>::empty());
    }
}

pub proof fn lemma_view_params(n: ASTNode, i: int)
    requires
        n is FunctionDeclaration,
        0 <= i <= n->FunctionDeclaration_0.params@.len(),
    ensures
        view_params(n, i) == view_all(n->FunctionDeclaration_0.params@).subrange(
            i,
            n->FunctionDeclaration_0.params@.len() as int,
        ),
    decreases n->FunctionDeclaration_0.params@.len() - i,
{
    let s = view_all(n->FunctionDeclaration_0.params@);
    if i < n->FunctionDeclaration_0.params@.len() {
        lemma_view_params(n, i + 1);
        assert(s.subrange(i, s.len() as int) =~= seq![s[i]] + s.subrange(i + 1, s.len() as int));
    } else {
        assert(s.subrange(i, s.len() as int) =~= Seq::<Ast>::empty());
    }
}

pub proof fn lemma_view_body(n: ASTNode, i: int)
    requires
        n is FunctionDeclaration,
        0 <= i <= n->FunctionDeclaration_0.body@.len(),
    ensures
        view_body(n, i) == view_all(n->FunctionDeclaration_0.body@).subrange(
            i,
            n->FunctionDeclaration_0.body@.len() as int,
        ),
    decreases n->FunctionDeclaration_0.body@.len() - i,
{
    let s = view_all(n->FunctionDeclaration_0.body@);
    if i < n->FunctionDeclaration_0.body@.len() {
        lemma_view_body(n, i + 1);
        assert(s.subrange(i, s.len() as int) =~= seq![s[i]] + s.subrange(i + 1, s.len() as int));
    } else {
        assert(s.subrange(i, s.len() as int) =~= Seq::<Ast>::empty());
    }
}

} // verus!
