//! The node vocabulary of a Gemtext document, and its mathematical shape.

use vstd::prelude::*;
use vstd::string::*;

use crate::ast::container::{append_node, finish_gemtext};
use crate::ast::model::{node_gemtext, nodes_gemtext, render_gemtext};

verus! {

/// One semantic unit of parsed Gemtext: a single line, or one grouped run of
/// lines (a list, a fenced preformatted block).
#[derive(Debug, Clone, PartialEq, Eq)]
pub enum Node {
    /// A plain content line.
    Text(String),
    /// A link line: the destination it points to and the optional label
    /// shown for it.
    Link {
        /// The location the link points to.
        to: String,
        /// The label the link may carry; absent, the destination is shown.
        text: Option<String>,
    },
    /// A heading line: its level and its text. The parser produces levels 1
    /// to 3 only.
    Heading {
        /// The heading depth.
        level: usize,
        /// The heading text.
        text: String,
    },
    /// A run of contiguous list-item lines, grouped as one node, one string
    /// per item, in source order.
    List(Vec<String>),
    /// A blockquote line.
    Blockquote(String),
    /// A fenced preformatted block. Its content is kept verbatim, one
    /// newline-terminated line at a time, and is never re-interpreted.
    PreformattedText {
        /// The rest of the opening fence line; `None` when it was empty.
        alt_text: Option<String>,
        /// The verbatim content between the fences.
        text: String,
    },
    /// A blank source line.
    Whitespace,
}

/// The mathematical shape of a [`Node`]: the same variants over sequences of
/// characters. Every contract of this module speaks in these terms.
pub enum NodeV {
    /// A plain content line.
    Text { text: Seq<char> },
    /// A link line.
    Link { to: Seq<char>, label: Option<Seq<char>> },
    /// A heading line.
    Heading { level: nat, text: Seq<char> },
    /// A grouped run of list items.
    List { items: Seq<Seq<char>> },
    /// A blockquote line.
    Blockquote { text: Seq<char> },
    /// A fenced preformatted block.
    Preformatted { alt: Option<Seq<char>>, text: Seq<char> },
    /// A blank line.
    Whitespace,
}

impl View for Node {
    type V = NodeV;

    open spec fn view(&self) -> NodeV {
        match self {
            Node::Text(t) => NodeV::Text { text: t@ },
            Node::Link { to, text } => NodeV::Link {
                to: to@,
                label: match text {
                    Some(l) => Some(l@),
                    None => None,
                },
            },
            Node::Heading { level, text } => NodeV::Heading {
                level: *level as nat,
                text: text@,
            },
            Node::List(items) => NodeV::List { items: items.deep_view() },
            Node::Blockquote(t) => NodeV::Blockquote { text: t@ },
            Node::PreformattedText { alt_text, text } => NodeV::Preformatted {
                alt: match alt_text {
                    Some(a) => Some(a@),
                    None => None,
                },
                text: text@,
            },
            Node::Whitespace => NodeV::Whitespace,
        }
    }
}

impl DeepView for Node {
    type V = NodeV;

    open spec fn deep_view(&self) -> NodeV {
        self.view()
    }
}

/// The views of a node sequence, element by element.
pub open spec fn views_of(ns: Seq<Node>) -> Seq<NodeV> {
    ns.map_values(|n: Node| n@)
}

impl Node {
    /// The canonical Gemtext of this node alone, as a one-node document
    /// serializes.
    pub fn content(&self) -> (r: String)
        ensures
            r@ == render_gemtext(seq![self@]),
    {
        let mut out = String::new();
        append_node(&mut out, self);
        proof {
            let one = seq![self@];
            assert(one.first() == self@);
            assert(one.drop_first() =~= Seq::<NodeV>::empty());
            assert(nodes_gemtext(Seq::<NodeV>::empty()) == Seq::<char>::empty());
            assert(nodes_gemtext(one) == node_gemtext(self@) + Seq::<char>::empty());
            assert(out@ =~= nodes_gemtext(one));
        }
        finish_gemtext(out)
    }
}

} // verus!
