//! The syntax tree that parsing produces and evaluation consumes.

use vstd::prelude::*;

verus! {

/// A node of the syntax tree. A number keeps the decimal text of its literal.
#[derive(Debug, PartialEq, Eq)]
pub enum AstNode {
    Let { name: String, expr: Box<AstNode> },
    Call { func: String, args: Vec<AstNode> },
    Number(String),
    StrLiteral(String),
    Ident(String),
    Noop,
}

/// The mathematical content of an [`AstNode`].
pub enum AstView {
    Let { name: Seq<char>, expr: Box<AstView> },
    Call { func: Seq<char>, args: Seq<AstView> },
    Number(Seq<char>),
    StrLiteral(Seq<char>),
    Ident(Seq<char>),
    Noop,
}

impl AstView {
    /// Whether the node can stand among the arguments of a call: a number,
    /// a string literal, a name, or a call whose arguments are such nodes.
    pub open spec fn is_argument(self) -> bool
        decreases self,
    {
        match self {
            AstView::Number(_) => true,
            AstView::StrLiteral(_) => true,
            AstView::Ident(_) => true,
            AstView::Call { args, .. } => forall|k: int|
                0 <= k < args.len() ==> (#[trigger] args[k]).is_argument(),
            _ => false,
        }
    }

    /// Whether the node can stand on the right-hand side of a binding: a
    /// number, a string literal, or a call.
    pub open spec fn is_right_hand_side(self) -> bool {
        self is Number || self is StrLiteral || (self is Call && self.is_argument())
    }

    /// Whether the node can stand at the top level: a binding, a call, or a
    /// no-op.
    pub open spec fn is_statement(self) -> bool {
        match self {
            AstView::Let { expr, .. } => (*expr).is_right_hand_side(),
            AstView::Call { .. } => self.is_argument(),
            AstView::Noop => true,
            _ => false,
        }
    }
}

/// Whether every node of the sequence can stand among the arguments of a
/// call.
pub open spec fn all_arguments(nodes: Seq<AstView>) -> bool {
    forall|k: int| 0 <= k < nodes.len() ==> (#[trigger] nodes[k]).is_argument()
}

/// Whether every node of the sequence can stand at the top level.
pub open spec fn all_statements(nodes: Seq<AstView>) -> bool {
    forall|k: int| 0 <= k < nodes.len() ==> (#[trigger] nodes[k]).is_statement()
}

impl View for AstNode {
    type V = AstView;

    open spec fn view(&self) -> AstView
        decreases self,
    {
        match self {
            AstNode::Let { name, expr } => AstView::Let { name: name@, expr: Box::new((**expr)@) },
            AstNode::Call { func, args } => AstView::Call {
                func: func@,
                args: Seq::new(
                    args@.len(),
                    |i: int|
                        if 0 <= i < args@.len() {
                            args@[i]@
                        } else {
                            AstView::Noop
                        },
                ),
            },
            AstNode::Number(text) => AstView::Number(text@),
            AstNode::StrLiteral(text) => AstView::StrLiteral(text@),
            AstNode::Ident(name) => AstView::Ident(name@),
            AstNode::Noop => AstView::Noop,
        }
    }
}

/// The views of a sequence of nodes, in order.
pub open spec fn nodes_view(nodes: Seq<AstNode>) -> Seq<AstView> {
    nodes.map_values(|a: AstNode| a@)
}

/// The arguments in the view of a call are the views of its arguments.
pub broadcast proof fn lemma_call_view(func: String, args: Vec<AstNode>)
    ensures
        #[trigger] (AstNode::Call { func, args })@ == (AstView::Call {
            func: func@,
            args: nodes_view(args@),
        }),
{
    let node = AstNode::Call { func, args };
    assert(node@->args =~= nodes_view(args@));
}

} // verus!
