//! The abstract syntax tree: `Node`s labelled with a `NodeType`, owning their
//! children, collected into a `Tree` of top-level statements.

use vstd::prelude::*;

verus! {

broadcast use vstd::std_specs::vec::axiom_vec_decreases_to_view;

/// The label of a syntax tree node: a leaf kind (literal, identifier,
/// operator, keyword) or an interior construct (call, function definition,
/// conditional, block, reassignment, folded expression).
#[derive(Debug, Clone, Copy, PartialEq, Eq, Structural)]
pub enum NodeType {
    Number,
    Str,
    Identifier,
    Operator,
    Keyword,
    FunctionCall,
    Function,
    Conditional,
    Block,
    Reassignment,
    Expression,
    Error,
}

/// Mathematical model of a syntax tree node: the label, the optional literal
/// text, the 1-based source line, and the models of the children in order.
pub struct SpecNode {
    pub node_type: NodeType,
    pub value: Option<Seq<char>>,
    pub line: int,
    pub children: Seq<SpecNode>,
}

/// A syntax tree node. It owns its children exclusively: the structure is a
/// strict tree, built bottom-up (children attached before the node is handed
/// to its own parent) and not mutated afterwards.
#[derive(Debug)]
pub struct Node {
    pub node_type: NodeType,
    pub value: Option<String>,
    pub line: usize,
    pub children: Vec<Node>,
}

/// The model of one node: fields mapped to their mathematical counterparts,
/// children mapped recursively in order.
pub open spec fn node_view(n: Node) -> SpecNode
    decreases n,
{
    SpecNode {
        node_type: n.node_type,
        value: match n.value {
            Option::Some(s) => Option::Some(s@),
            Option::None => Option::None,
        },
        line: n.line as int,
        children: nodes_view(n.children@),
    }
}

/// The models of a sequence of nodes, in order.
pub open spec fn nodes_view(nodes: Seq<Node>) -> Seq<SpecNode>
    decreases nodes,
{
    if nodes.len() == 0 {
        Seq::empty()
    } else {
        seq![node_view(nodes[0])] + nodes_view(nodes.drop_first())
    }
}

/// Dropping the last node of a sequence drops the last model of its model.
pub proof fn lemma_nodes_view_drop_last(nodes: Seq<Node>)
    requires
        nodes.len() > 0,
    ensures
        nodes_view(nodes.drop_last()) == nodes_view(nodes).drop_last(),
{
    lemma_nodes_view_index(nodes);
    lemma_nodes_view_index(nodes.drop_last());
    assert forall|i: int|
        0 <= i < nodes.len() - 1 implies nodes_view(nodes.drop_last())[i] == nodes_view(
        nodes,
    ).drop_last()[i] by {
        assert(nodes.drop_last()[i] == nodes[i]);
        assert(nodes_view(nodes.drop_last())[i] == node_view(nodes.drop_last()[i]));
        assert(nodes_view(nodes)[i] == node_view(nodes[i]));
    }
    assert(nodes_view(nodes.drop_last()) =~= nodes_view(nodes).drop_last());
}

impl View for Node {
    type V = SpecNode;

    open spec fn view(&self) -> SpecNode {
        node_view(*self)
    }
}

/// Appending a node to a sequence appends its model to the sequence's model.
pub proof fn lemma_nodes_view_push(nodes: Seq<Node>, n: Node)
    ensures
        nodes_view(nodes.push(n)) == nodes_view(nodes).push(node_view(n)),
    decreases nodes.len(),
{
    if nodes.len() == 0 {
        let l = nodes.push(n);
        assert(l[0] == n);
        assert(l.drop_first() =~= Seq::<Node>::empty());
        assert(nodes_view(l) == seq![node_view(n)] + nodes_view(Seq::<Node>::empty()));
        assert(nodes_view(l) =~= nodes_view(nodes).push(node_view(n)));
    } else {
        let l = nodes.push(n);
        assert(l[0] == nodes[0]);
        assert(l.drop_first() =~= nodes.drop_first().push(n));
        lemma_nodes_view_push(nodes.drop_first(), n);
        assert(nodes_view(l) == seq![node_view(l[0])] + nodes_view(l.drop_first()));
        assert(nodes_view(nodes) == seq![node_view(nodes[0])] + nodes_view(nodes.drop_first()));
        assert(nodes_view(l) =~= nodes_view(nodes).push(node_view(n)));
    }
}

/// A sequence of nodes and its model have the same length, and the model of
/// the element at each position is the element of the model at that position.
pub proof fn lemma_nodes_view_index(nodes: Seq<Node>)
    ensures
        nodes_view(nodes).len() == nodes.len(),
        forall|i: int| 0 <= i < nodes.len() ==> nodes_view(nodes)[i] == node_view(#[trigger] nodes[i]),
    decreases nodes.len(),
{
    if nodes.len() > 0 {
        lemma_nodes_view_index(nodes.drop_first());
        assert forall|i: int| 0 <= i < nodes.len() implies nodes_view(nodes)[i] == node_view(
            #[trigger] nodes[i],
        ) by {
            if i > 0 {
                assert(nodes.drop_first()[i - 1] == nodes[i]);
                assert(nodes_view(nodes)[i] == nodes_view(nodes.drop_first())[i - 1]);
            }
        }
    }
}

/// The ordered sequence of top-level nodes produced by one parse.
#[derive(Debug)]
pub struct Tree {
    pub nodes: Vec<Node>,
}

impl View for Tree {
    type V = Seq<SpecNode>;

    open spec fn view(&self) -> Seq<SpecNode> {
        nodes_view(self.nodes@)
    }
}

impl Node {
    /// Makes a childless node with the given label, literal text and line.
    pub fn new(node_type: NodeType, value: Option<String>, line: usize) -> (r: Node)
        ensures
            r@ == (SpecNode {
                node_type,
                value: match value {
                    Option::Some(s) => Option::Some(s@),
                    Option::None => Option::None,
                },
                line: line as int,
                children: Seq::<SpecNode>::empty(),
            }),
    {
        let r = Node { node_type, value, line, children: Vec::new() };
        proof {
            assert(r.children@ =~= Seq::<Node>::empty());
        }
        r
    }

    /// Appends a child after the existing children; nothing else changes.
    pub fn add_child(&mut self, child: Node)
        ensures
            final(self)@ == (SpecNode { children: old(self)@.children.push(child@), ..old(self)@ }),
    {
        self.children.push(child);
        proof {
            lemma_nodes_view_push(old(self).children@, child);
        }
    }
}

impl Tree {
    /// Makes an empty tree.
    pub fn new() -> (r: Tree)
        ensures
            r@ == Seq::<SpecNode>::empty(),
    {
        let r = Tree { nodes: Vec::new() };
        proof {
            assert(r.nodes@ =~= Seq::<Node>::empty());
        }
        r
    }

    /// Appends a finished top-level node after the existing ones.
    pub fn add_node(&mut self, node: Node)
        ensures
            final(self)@ == old(self)@.push(node@),
    {
        self.nodes.push(node);
        proof {
            lemma_nodes_view_push(old(self).nodes@, node);
        }
    }
}

} // verus!
