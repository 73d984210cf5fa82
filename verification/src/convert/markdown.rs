//! The Markdown mapping: one line (or block) per node; a blank source line
//! renders one blank line.

use vstd::prelude::*;
use vstd::string::*;

use crate::ast::model::{heading_marker, opt_text};
use crate::ast::node::{views_of, Node, NodeV};

verus! {

/// The list items as Markdown dash lines, each terminated by a line feed.
pub open spec fn dash_lines(items: Seq<Seq<char>>) -> Seq<char>
    decreases items.len(),
{
    if items.len() == 0 {
        Seq::empty()
    } else {
        "- "@ + items.first() + "\n"@ + dash_lines(items.drop_first())
    }
}

/// Appending an item appends its dash line.
proof fn lemma_dash_lines_push(items: Seq<Seq<char>>, x: Seq<char>)
    ensures
        dash_lines(items.push(x)) == dash_lines(items) + ("- "@ + x + "\n"@),
    decreases items.len(),
{
    assert(dash_lines(Seq::<Seq<char>>::empty()) == Seq::<char>::empty());
    if items.len() == 0 {
        assert(items.push(x).first() == x);
        assert(items.push(x).drop_first() =~= Seq::<Seq<char>>::empty());
        assert(dash_lines(items.push(x)) == "- "@ + x + "\n"@ + dash_lines(
            Seq::<Seq<char>>::empty(),
        ));
        assert(dash_lines(items.push(x)) =~= dash_lines(items) + ("- "@ + x + "\n"@));
    } else {
        assert(items.push(x).first() == items.first());
        assert(items.push(x).drop_first() =~= items.drop_first().push(x));
        lemma_dash_lines_push(items.drop_first(), x);
        assert(dash_lines(items.push(x)) == "- "@ + items.first() + "\n"@ + dash_lines(
            items.drop_first().push(x),
        ));
        assert(dash_lines(items) == "- "@ + items.first() + "\n"@ + dash_lines(
            items.drop_first(),
        ));
        assert(dash_lines(items.push(x)) =~= dash_lines(items) + ("- "@ + x + "\n"@));
    }
}

/// The Markdown text of one node.
pub open spec fn node_markdown(n: NodeV) -> Seq<char> {
    match n {
        NodeV::Text { text } => text + "\n"@,
        NodeV::Link { to, label } => match label {
            Some(l) => "["@ + l + "]("@ + to + ")\n"@,
            None => "<"@ + to + ">\n"@,
        },
        NodeV::Heading { level, text } => heading_marker(level) + " "@ + text + "\n"@,
        NodeV::List { items } => if items.len() == 0 {
            "\n"@
        } else {
            dash_lines(items)
        },
        NodeV::Blockquote { text } => "> "@ + text + "\n"@,
        NodeV::Preformatted { alt, text } => "```"@ + opt_text(alt) + "\n"@ + text + "```\n"@,
        NodeV::Whitespace => "\n"@,
    }
}

/// The Markdown text of a node sequence, in document order.
pub open spec fn markdown_of(ns: Seq<NodeV>) -> Seq<char>
    decreases ns.len(),
{
    if ns.len() == 0 {
        Seq::empty()
    } else {
        node_markdown(ns.first()) + markdown_of(ns.drop_first())
    }
}

/// Appending a node appends its text.
proof fn lemma_markdown_of_push(ns: Seq<NodeV>, n: NodeV)
    ensures
        markdown_of(ns.push(n)) == markdown_of(ns) + node_markdown(n),
    decreases ns.len(),
{
    assert(markdown_of(Seq::<NodeV>::empty()) == Seq::<char>::empty());
    if ns.len() == 0 {
        assert(ns.push(n).first() == n);
        assert(ns.push(n).drop_first() =~= Seq::<NodeV>::empty());
        assert(markdown_of(ns.push(n)) == node_markdown(n) + markdown_of(Seq::<NodeV>::empty()));
        assert(markdown_of(ns.push(n)) =~= markdown_of(ns) + node_markdown(n));
    } else {
        assert(ns.push(n).first() == ns.first());
        assert(ns.push(n).drop_first() =~= ns.drop_first().push(n));
        lemma_markdown_of_push(ns.drop_first(), n);
        assert(markdown_of(ns.push(n)) == node_markdown(ns.first()) + markdown_of(
            ns.drop_first().push(n),
        ));
        assert(markdown_of(ns) == node_markdown(ns.first()) + markdown_of(ns.drop_first()));
        assert(markdown_of(ns.push(n)) =~= markdown_of(ns) + node_markdown(n));
    }
}

/// Append the Markdown text of one node.
fn append_markdown(out: &mut String, n: &Node)
    ensures
        final(out)@ == old(out)@ + node_markdown(n@),
{
    let ghost pre = old(out)@;
    match n {
        Node::Text(t) => {
            out.append(t.as_str());
            out.append("\n");
            proof {
                assert(out@ =~= pre + node_markdown(n@));
            }
        },
        Node::Link { to, text } => {
            match text {
                Some(l) => {
                    out.append("[");
                    out.append(l.as_str());
                    out.append("](");
                    out.append(to.as_str());
                    out.append(")\n");
                },
                None => {
                    out.append("<");
                    out.append(to.as_str());
                    out.append(">\n");
                },
            }
            proof {
                assert(out@ =~= pre + node_markdown(n@));
            }
        },
        Node::Heading { level, text } => {
            if *level == 1 {
                out.append("#");
            } else if *level == 2 {
                out.append("##");
            } else if *level == 3 {
                out.append("###");
            } else {
                out.append("");
            }
            out.append(" ");
            out.append(text.as_str());
            out.append("\n");
            proof {
                assert(out@ =~= pre + node_markdown(n@));
            }
        },
        Node::List(items) => {
            let ghost dv = items.deep_view();
            if items.len() == 0 {
                out.append("\n");
                proof {
                    assert(dv.len() == 0);
                    assert(out@ =~= pre + node_markdown(n@));
                }
            } else {
                let mut j: usize = 0;
                proof {
                    assert(dv.take(0) =~= Seq::<Seq<char>>::empty());
                    assert(dash_lines(Seq::<Seq<char>>::empty()) == Seq::<char>::empty());
                    assert(pre + Seq::<char>::empty() =~= pre);
                }
                while j < items.len()
                    invariant
                        0 <= j <= items@.len(),
                        dv == items.deep_view(),
                        dv.len() == items@.len(),
                        out@ == pre + dash_lines(dv.take(j as int)),
                    decreases items@.len() - j,
                {
                    out.append("- ");
                    out.append(items[j].as_str());
                    out.append("\n");
                    proof {
                        assert(dv[j as int] == items@[j as int]@);
                        assert(dv.take(j + 1) =~= dv.take(j as int).push(dv[j as int]));
                        lemma_dash_lines_push(dv.take(j as int), dv[j as int]);
                        assert(out@ =~= pre + dash_lines(dv.take(j + 1)));
                    }
                    j = j + 1;
                }
                proof {
                    assert(dv.take(dv.len() as int) =~= dv);
                    assert(out@ =~= pre + node_markdown(n@));
                }
            }
        },
        Node::Blockquote(t) => {
            out.append("> ");
            out.append(t.as_str());
            out.append("\n");
            proof {
                assert(out@ =~= pre + node_markdown(n@));
            }
        },
        Node::PreformattedText { alt_text, text } => {
            out.append("```");
            match alt_text {
                Some(a) => {
                    out.append(a.as_str());
                },
                None => {},
            }
            out.append("\n");
            out.append(text.as_str());
            out.append("```\n");
            proof {
                assert(out@ =~= pre + node_markdown(n@));
            }
        },
        Node::Whitespace => {
            out.append("\n");
            proof {
                assert(out@ =~= pre + node_markdown(n@));
            }
        },
    }
}

/// Render a node sequence as Markdown.
pub fn convert(source: &[Node]) -> (r: String)
    ensures
        r@ == markdown_of(views_of(source@)),
{
    let ghost dv = views_of(source@);
    let mut out = String::new();
    let mut i: usize = 0;
    proof {
        assert(dv.take(0) =~= Seq::<NodeV>::empty());
        assert(markdown_of(Seq::<NodeV>::empty()) == Seq::<char>::empty());
    }
    while i < source.len()
        invariant
            0 <= i <= source@.len(),
            dv == views_of(source@),
            dv.len() == source@.len(),
            out@ == markdown_of(dv.take(i as int)),
        decreases source@.len() - i,
    {
        append_markdown(&mut out, &source[i]);
        proof {
            assert(dv[i as int] == source@[i as int]@);
            assert(dv.take(i + 1) =~= dv.take(i as int).push(dv[i as int]));
            lemma_markdown_of_push(dv.take(i as int), dv[i as int]);
        }
        i = i + 1;
    }
    proof {
        assert(dv.take(dv.len() as int) =~= dv);
    }
    out
}

} // verus!
