//! The syntax tree that the evaluator consumes, and its mathematical model.

use crate::scalar::Scalar;
use vstd::prelude::*;

verus! {

/// A unary operator on a matrix.
#[derive(PartialEq, Eq, Debug, Clone, Copy, Structural)]
pub enum MonadicVerb {
    Rank,
    Inverse,
    RREF,
    Transpose,
    Determinant,
}

/// A binary operator on two matrices.
#[derive(PartialEq, Eq, Debug, Clone, Copy, Structural)]
pub enum DyadicVerb {
    Dot,
    Plus,
    Times,
}

/// A node of the syntax tree.
#[derive(Debug)]
#[allow(inconsistent_fields)]
pub enum AstNode {
    /// An integer literal.
    Integer(i32),
    /// A double literal.
    DoublePrecisionFloat(Scalar),
    /// A unary operator applied to an operand.
    MonadicOp { verb: MonadicVerb, expr: Box<AstNode> },
    /// A binary operator applied to two operands.
    DyadicOp { verb: DyadicVerb, lhs: Box<AstNode>, rhs: Box<AstNode> },
    /// Several terms in a row.
    Terms(Vec<AstNode>),
    /// The binding of a name to the value of an expression.
    Assignment { ident: String, expr: Box<AstNode> },
    /// A reference to a name.
    Ident(String),
    /// A matrix literal: rows of cells.
    Matrix(Vec<Vec<AstNode>>),
    /// A command with its parameters.
    Command((String, Vec<String>)),
    /// A function declaration: name, parameters, body.
    Fun((String, Vec<AstNode>, Vec<AstNode>)),
    /// A function application: name, arguments.
    App((String, Vec<AstNode>)),
}

/// What an `AstNode` says, over mathematical sequences.
#[allow(inconsistent_fields)]
pub enum NodeModel {
    Integer(int),
    Double(Scalar),
    MonadicOp { verb: MonadicVerb, expr: Box<NodeModel> },
    DyadicOp { verb: DyadicVerb, lhs: Box<NodeModel>, rhs: Box<NodeModel> },
    Terms(Seq<NodeModel>),
    Assignment { ident: Seq<char>, expr: Box<NodeModel> },
    Ident(Seq<char>),
    Matrix(Seq<Seq<NodeModel>>),
    Command(Seq<char>, Seq<Seq<char>>),
    Fun(Seq<char>, Seq<NodeModel>, Seq<NodeModel>),
    App(Seq<char>, Seq<NodeModel>),
}

/// The model of a node.
pub open spec fn node_model(node: AstNode) -> NodeModel
    decreases node,
{
    match node {
        AstNode::Integer(i) => NodeModel::Integer(i as int),
        AstNode::DoublePrecisionFloat(d) => NodeModel::Double(d),
        AstNode::MonadicOp { verb, expr } => NodeModel::MonadicOp {
            verb,
            expr: Box::new(node_model(*expr)),
        },
        AstNode::DyadicOp { verb, lhs, rhs } => NodeModel::DyadicOp {
            verb,
            lhs: Box::new(node_model(*lhs)),
            rhs: Box::new(node_model(*rhs)),
        },
        AstNode::Terms(terms) => NodeModel::Terms(node_models(terms)),
        AstNode::Assignment { ident, expr } => NodeModel::Assignment {
            ident: ident@,
            expr: Box::new(node_model(*expr)),
        },
        AstNode::Ident(name) => NodeModel::Ident(name@),
        AstNode::Matrix(rows) => NodeModel::Matrix(row_models(rows)),
        AstNode::Command(command) => NodeModel::Command(command.0@, names_model(command.1)),
        AstNode::Fun(fun) => NodeModel::Fun(fun.0@, node_models(fun.1), node_models(fun.2)),
        AstNode::App(app) => NodeModel::App(app.0@, node_models(app.1)),
    }
}

/// The models of a list of nodes, in order.
pub open spec fn node_models(nodes: Vec<AstNode>) -> Seq<NodeModel>
    decreases nodes,
{
    Seq::new(
        nodes.len() as nat,
        |i: int|
            if 0 <= i < nodes.len() {
                node_model(nodes[i])
            } else {
                NodeModel::Integer(0)
            },
    )
}

/// The models of the rows of a matrix literal, in order.
pub open spec fn row_models(rows: Vec<Vec<AstNode>>) -> Seq<Seq<NodeModel>>
    decreases rows,
{
    Seq::new(
        rows.len() as nat,
        |r: int|
            if 0 <= r < rows.len() {
                node_models(rows[r])
            } else {
                Seq::empty()
            },
    )
}

/// The character sequences of a list of strings, in order.
pub open spec fn names_model(names: Vec<String>) -> Seq<Seq<char>> {
    Seq::new(names.len() as nat, |i: int| names[i]@)
}

impl View for AstNode {
    type V = NodeModel;

    open spec fn view(&self) -> NodeModel {
        node_model(*self)
    }
}

/// A copy of a node.
fn copy_node(node: &AstNode) -> (copy: AstNode)
    ensures
        copy@ == node@,
    decreases node,
{
    match node {
        AstNode::Integer(i) => AstNode::Integer(*i),
        AstNode::DoublePrecisionFloat(d) => AstNode::DoublePrecisionFloat(*d),
        AstNode::MonadicOp { verb, expr } => AstNode::MonadicOp {
            verb: *verb,
            expr: Box::new(copy_node(expr)),
        },
        AstNode::DyadicOp { verb, lhs, rhs } => AstNode::DyadicOp {
            verb: *verb,
            lhs: Box::new(copy_node(lhs)),
            rhs: Box::new(copy_node(rhs)),
        },
        AstNode::Terms(terms) => AstNode::Terms(copy_nodes(terms)),
        AstNode::Assignment { ident, expr } => AstNode::Assignment {
            ident: ident.clone(),
            expr: Box::new(copy_node(expr)),
        },
        AstNode::Ident(name) => AstNode::Ident(name.clone()),
        AstNode::Matrix(rows) => {
            let mut copy: Vec<Vec<AstNode>> = Vec::new();
            let mut r: usize = 0;
            assert(decreases_to!(*node => *rows));
            while r < rows.len()
                invariant
                    decreases_to!(*node => *rows),
                    r <= rows.len(),
                    copy@.len() == r,
                    forall|k: int| 0 <= k < r ==> node_models(#[trigger] copy@[k]) == node_models(rows@[k]),
                decreases rows.len() - r,
            {
                assert(decreases_to!(*rows => rows[r as int]));
                copy.push(copy_nodes(&rows[r]));
                r += 1;
            }
            let copied = AstNode::Matrix(copy);
            assert(row_models(copy) =~= row_models(*rows));
            copied
        },
        AstNode::Command(command) => {
            let mut params: Vec<String> = Vec::new();
            let mut i: usize = 0;
            while i < command.1.len()
                invariant
                    i <= command.1.len(),
                    params@.len() == i,
                    forall|k: int| 0 <= k < i ==> (#[trigger] params@[k])@ == command.1@[k]@,
                decreases command.1.len() - i,
            {
                params.push(command.1[i].clone());
                i += 1;
            }
            assert(names_model(params) =~= names_model(command.1));
            AstNode::Command((command.0.clone(), params))
        },
        AstNode::Fun(fun) => AstNode::Fun((fun.0.clone(), copy_nodes(&fun.1), copy_nodes(&fun.2))),
        AstNode::App(app) => AstNode::App((app.0.clone(), copy_nodes(&app.1))),
    }
}

/// A copy of a list of nodes.
fn copy_nodes(nodes: &Vec<AstNode>) -> (copy: Vec<AstNode>)
    ensures
        node_models(copy) == node_models(*nodes),
    decreases nodes,
{
    let mut copy: Vec<AstNode> = Vec::new();
    let mut i: usize = 0;
    while i < nodes.len()
        invariant
            i <= nodes.len(),
            copy@.len() == i,
            forall|k: int| 0 <= k < i ==> (#[trigger] copy@[k])@ == nodes@[k]@,
        decreases nodes.len() - i,
    {
        assert(decreases_to!(*nodes => nodes[i as int]));
        copy.push(copy_node(&nodes[i]));
        i += 1;
    }
    assert(node_models(copy) =~= node_models(*nodes));
    copy
}

impl Clone for AstNode {
    /// A copy that says the same.
    fn clone(&self) -> (copy: AstNode)
        ensures
            copy@ == self@,
    {
        copy_node(self)
    }
}

/// A copy of a list of nodes that says the same.
pub fn clone_nodes(nodes: &Vec<AstNode>) -> (copy: Vec<AstNode>)
    ensures
        node_models(copy) == node_models(*nodes),
{
    copy_nodes(nodes)
}

} // verus!
