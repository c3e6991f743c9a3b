use vstd::prelude::*;

verus! {

/// The kind of a syntax node.
#[derive(Debug, Clone, Copy, PartialEq, Eq, Structural)]
pub enum NodeType {
    Number,
    String,
    Identifier,
    Operator,
    Keyword,
    FunctionCall,
    Error,
}

/// The value a node carries: a number's bit pattern, or a text.
#[derive(Debug, Clone, PartialEq)]
pub enum Payload {
    Number(u64),
    Text(String),
}

/// The mathematical value of a `Payload`.
pub enum PayloadModel {
    Number(u64),
    Text(Seq<char>),
}

impl View for Payload {
    type V = PayloadModel;

    open spec fn view(&self) -> PayloadModel {
        match self {
            Payload::Number(v) => PayloadModel::Number(*v),
            Payload::Text(s) => PayloadModel::Text(s@),
        }
    }
}

/// A syntax node: a leaf, or a function call that owns its arguments in order.
#[derive(Debug, PartialEq)]
pub struct Node {
    pub node_type: NodeType,
    pub value: Option<Payload>,
    pub line: usize,
    pub children: Vec<Node>,
}

/// The mathematical value of a `Node`.
pub struct NodeModel {
    pub kind: NodeType,
    pub payload: Option<PayloadModel>,
    pub line: usize,
    pub children: Seq<NodeModel>,
}

/// The model of an optional payload.
pub open spec fn payload_model(p: Option<Payload>) -> Option<PayloadModel> {
    match p {
        Some(v) => Some(v@),
        None => None,
    }
}

/// The model of a node, children included.
pub open spec fn node_model(n: Node) -> NodeModel
    decreases n,
{
    NodeModel {
        kind: n.node_type,
        payload: payload_model(n.value),
        line: n.line,
        children: Seq::new(
            n.children.len() as nat,
            |i: int|
                if 0 <= i < n.children.len() {
                    node_model(n.children[i])
                } else {
                    NodeModel { kind: NodeType::Error, payload: None, line: 0, children: Seq::empty() }
                },
        ),
    }
}

/// The models of a sequence of nodes, in order.
pub open spec fn nodes_model(s: Seq<Node>) -> Seq<NodeModel> {
    s.map_values(|n: Node| node_model(n))
}

impl View for Node {
    type V = NodeModel;

    open spec fn view(&self) -> NodeModel {
        node_model(*self)
    }
}

/// A leaf model: a node of the given kind with no children.
pub open spec fn leaf(kind: NodeType, payload: Option<PayloadModel>, line: usize) -> NodeModel {
    NodeModel { kind, payload, line, children: Seq::empty() }
}

impl Node {
    /// A node with no children.
    pub fn new(node_type: NodeType, value: Option<Payload>, line: usize) -> (r: Node)
        ensures
            r@ == leaf(node_type, payload_model(value), line),
            r.value == value,
    {
        let r = Node { node_type, value, line, children: Vec::new() };
        assert(r@.children =~= Seq::empty());
        r
    }

    /// Appends `child` as the last child.
    pub fn add_child(&mut self, child: Node)
        ensures
            final(self)@ == (NodeModel {
                children: old(self)@.children.push(child@),
                ..old(self)@
            }),
    {
        self.children.push(child);
        assert(self@.children =~= old(self)@.children.push(child@));
    }
}

/// The converted program: top-level nodes in source order.
#[derive(Debug)]
pub struct Tree {
    pub nodes: Vec<Node>,
}

impl View for Tree {
    type V = Seq<NodeModel>;

    open spec fn view(&self) -> Seq<NodeModel> {
        nodes_model(self.nodes@)
    }
}

impl Tree {
    /// An empty tree.
    pub fn new() -> (r: Tree)
        ensures
            r@ == Seq::<NodeModel>::empty(),
    {
        let r = Tree { nodes: Vec::new() };
        assert(r@ =~= Seq::<NodeModel>::empty());
        r
    }

    /// Appends `node` at the end of the top level.
    pub fn add_node(&mut self, node: Node)
        ensures
            final(self)@ == old(self)@.push(node@),
    {
        self.nodes.push(node);
        assert(self@ =~= old(self)@.push(node@));
    }
}

} // verus!
