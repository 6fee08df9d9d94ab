//! The nodes of a graph of transformation steps: a source of text, or an
//! operation with the value it last made.

use crate::codec::Encoding;
use crate::transform::Operation;
use crate::transform::Transformer;
use crate::value::Data;
use crate::value::Value;
use vstd::prelude::*;
use vstd::string::StringExecFns;

verus! {

/// What a [`Node`] stands for.
pub enum NodeView {
    Input { text: Seq<char> },
    Transform { operation: Operation, value: Value },
}

impl NodeView {
    /// The value that the node hands to the next one.
    pub open spec fn output(self) -> Value {
        match self {
            NodeView::Input { text } => Value::Text(text),
            NodeView::Transform { value, .. } => value,
        }
    }

    /// The node's title.
    pub open spec fn title(self) -> Seq<char> {
        match self {
            NodeView::Input { .. } => "Input"@,
            NodeView::Transform { operation, .. } => match operation {
                Operation::Split { .. } => "Split"@,
                Operation::Join { .. } => "Join"@,
                Operation::Find { .. } => "Find"@,
                Operation::Replace { .. } => "Replace"@,
                Operation::Slice { .. } => "Slice"@,
                Operation::Encode { encoding } => match encoding {
                    Encoding::Base64 => "Base64 Encode"@,
                    Encoding::Base64UrlSafe => "Base64 URL Safe Encode"@,
                    Encoding::URL => "URL Encode"@,
                },
                Operation::Decode { encoding } => match encoding {
                    Encoding::Base64 => "Base64 Decode"@,
                    Encoding::Base64UrlSafe => "Base64 URL Safe Decode"@,
                    Encoding::URL => "URL Decode"@,
                },
                Operation::Uppercase => "Uppercase"@,
                Operation::Lowercase => "Lowercase"@,
            },
        }
    }

    /// How many values the node takes in: a source none, an operation one.
    pub open spec fn inputs(self) -> nat {
        match self {
            NodeView::Input { .. } => 0,
            NodeView::Transform { .. } => 1,
        }
    }
}

/// The value that a node of the given operation holds before it has been
/// given any: the empty list where the operation splits, joins, finds or
/// replaces, the empty text for every other.
pub open spec fn initial_value(operation: Operation) -> Value {
    match operation {
        Operation::Split { .. } | Operation::Join { .. } | Operation::Find { .. }
        | Operation::Replace { .. } => Value::List(Seq::empty()),
        _ => Value::Text(Seq::empty()),
    }
}

/// A step in the graph.
#[derive(Clone, Debug)]
pub enum Node {
    Input { text: String },
    Transform { transformer: Transformer, data: Data },
}

impl View for Node {
    type V = NodeView;

    open spec fn view(&self) -> NodeView {
        match self {
            Node::Input { text } => NodeView::Input { text: text@ },
            Node::Transform { transformer, data } => NodeView::Transform {
                operation: transformer@,
                value: data@,
            },
        }
    }
}

impl Node {
    /// The value that the node hands to the next one: its text for a
    /// source, the value it last made for an operation.
    pub fn data(&self) -> (out: Data)
        ensures
            out@ == self@.output(),
    {
        match self {
            Node::Input { text } => Data::Text(text.clone()),
            Node::Transform { data, .. } => data.clone(),
        }
    }

    /// A node of the given operation that has not been given a value yet.
    pub fn fresh(transformer: Transformer) -> (node: Node)
        ensures
            node@ == (NodeView::Transform {
                operation: transformer@,
                value: initial_value(transformer@),
            }),
    {
        let data = match &transformer {
            Transformer::Split { .. } | Transformer::Join { .. } | Transformer::Find { .. }
            | Transformer::Replace { .. } => {
                let empty = Data::List(Vec::new());
                assert(empty@->List_0 =~= Seq::<Value>::empty());
                empty
            },
            _ => Data::Text(String::new()),
        };
        Node::Transform { transformer, data }
    }
}

/// What a view of the graph shows of each node.
pub struct NodeViewer;

impl NodeViewer {
    /// The node's title.
    pub fn title(&mut self, node: &Node) -> (title: String)
        ensures
            title@ == node@.title(),
    {
        let title = match node {
            Node::Input { .. } => "Input",
            Node::Transform { transformer, .. } => match transformer {
                Transformer::Split { .. } => "Split",
                Transformer::Join { .. } => "Join",
                Transformer::Find { .. } => "Find",
                Transformer::Replace { .. } => "Replace",
                Transformer::Slice { .. } => "Slice",
                Transformer::Encode { encoding } => match encoding {
                    Encoding::Base64 => "Base64 Encode",
                    Encoding::Base64UrlSafe => "Base64 URL Safe Encode",
                    Encoding::URL => "URL Encode",
                },
                Transformer::Decode { encoding } => match encoding {
                    Encoding::Base64 => "Base64 Decode",
                    Encoding::Base64UrlSafe => "Base64 URL Safe Decode",
                    Encoding::URL => "URL Decode",
                },
                Transformer::Uppercase => "Uppercase",
                Transformer::Lowercase => "Lowercase",
            },
        };
        String::from_str(title)
    }

    /// How many values the node takes in.
    pub fn inputs(&mut self, node: &Node) -> (count: usize)
        ensures
            count == node@.inputs(),
    {
        match node {
            Node::Input { .. } => 0,
            Node::Transform { .. } => 1,
        }
    }

    /// How many values the node hands on: always one.
    pub fn outputs(&mut self, node: &Node) -> (count: usize)
        ensures
            count == 1,
    {
        match node {
            Node::Input { .. } => 1,
            Node::Transform { .. } => 1,
        }
    }
}

} // verus!
