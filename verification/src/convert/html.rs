//! The HTML mapping: one fragment per node, nothing for blank lines.

use vstd::prelude::*;
use vstd::string::*;

use crate::ast::node::{views_of, Node, NodeV};

verus! {

/// The list items as `<li>` fragments, joined with line feeds.
pub open spec fn li_items(items: Seq<Seq<char>>) -> Seq<char>
    decreases items.len(),
{
    if items.len() == 0 {
        Seq::empty()
    } else if items.len() == 1 {
        "<li>"@ + items[0] + "</li>"@
    } else {
        "<li>"@ + items[0] + "</li>"@ + "\n"@ + li_items(items.drop_first())
    }
}

/// Appending an item appends its fragment after a separator, except to an
/// empty list.
proof fn lemma_li_items_push(items: Seq<Seq<char>>, x: Seq<char>)
    ensures
        items.len() == 0 ==> li_items(items.push(x)) == "<li>"@ + x + "</li>"@,
        items.len() > 0 ==> li_items(items.push(x)) == li_items(items) + "\n"@ + ("<li>"@ + x
            + "</li>"@),
    decreases items.len(),
{
    if items.len() == 0 {
        assert(items.push(x).len() == 1);
        assert(items.push(x)[0] == x);
    } else if items.len() == 1 {
        assert(items.push(x)[0] == items[0]);
        assert(items.push(x).drop_first() =~= seq![x]);
        assert(li_items(seq![x]) == "<li>"@ + x + "</li>"@);
        assert(li_items(items.push(x)) == "<li>"@ + items[0] + "</li>"@ + "\n"@ + ("<li>"@ + x
            + "</li>"@));
        assert(li_items(items) == "<li>"@ + items[0] + "</li>"@);
        assert(li_items(items.push(x)) =~= li_items(items) + "\n"@ + ("<li>"@ + x + "</li>"@));
    } else {
        assert(items.push(x)[0] == items[0]);
        assert(items.push(x).drop_first() =~= items.drop_first().push(x));
        lemma_li_items_push(items.drop_first(), x);
        assert(li_items(items.push(x)) == "<li>"@ + items[0] + "</li>"@ + "\n"@ + li_items(
            items.drop_first().push(x),
        ));
        assert(li_items(items) == "<li>"@ + items[0] + "</li>"@ + "\n"@ + li_items(
            items.drop_first(),
        ));
        assert(li_items(items.push(x)) =~= li_items(items) + "\n"@ + ("<li>"@ + x + "</li>"@));
    }
}

/// The HTML fragment of one node. A heading level outside 1 to 3 falls back
/// to a paragraph; blank lines render nothing; a preformatted block drops
/// its alt-text.
pub open spec fn node_html(n: NodeV) -> Seq<char> {
    match n {
        NodeV::Text { text } => "<p>"@ + text + "</p>"@,
        NodeV::Link { to, label } => "<a href=\""@ + to + "\">"@ + (match label {
            Some(l) => l,
            None => to,
        }) + "</a><br>"@,
        NodeV::Heading { level, text } => {
            if level == 1 {
                "<h1>"@ + text + "</h1>"@
            } else if level == 2 {
                "<h2>"@ + text + "</h2>"@
            } else if level == 3 {
                "<h3>"@ + text + "</h3>"@
            } else {
                "<p>"@ + text + "</p>"@
            }
        },
        NodeV::List { items } => "<ul>"@ + li_items(items) + "</ul>"@,
        NodeV::Blockquote { text } => "<blockquote>"@ + text + "</blockquote>"@,
        NodeV::Preformatted { alt: _, text } => "<pre>"@ + text + "</pre>"@,
        NodeV::Whitespace => Seq::empty(),
    }
}

/// The HTML fragment of a node sequence, in document order.
pub open spec fn html_of(ns: Seq<NodeV>) -> Seq<char>
    decreases ns.len(),
{
    if ns.len() == 0 {
        Seq::empty()
    } else {
        node_html(ns.first()) + html_of(ns.drop_first())
    }
}

/// Appending a node appends its fragment.
proof fn lemma_html_of_push(ns: Seq<NodeV>, n: NodeV)
    ensures
        html_of(ns.push(n)) == html_of(ns) + node_html(n),
    decreases ns.len(),
{
    assert(html_of(Seq::<NodeV>::empty()) == Seq::<char>::empty());
    if ns.len() == 0 {
        assert(ns.push(n).first() == n);
        assert(ns.push(n).drop_first() =~= Seq::<NodeV>::empty());
        assert(html_of(ns.push(n)) == node_html(n) + html_of(Seq::<NodeV>::empty()));
        assert(html_of(ns.push(n)) =~= html_of(ns) + node_html(n));
    } else {
        assert(ns.push(n).first() == ns.first());
        assert(ns.push(n).drop_first() =~= ns.drop_first().push(n));
        lemma_html_of_push(ns.drop_first(), n);
        assert(html_of(ns.push(n)) == node_html(ns.first()) + html_of(ns.drop_first().push(n)));
        assert(html_of(ns) == node_html(ns.first()) + html_of(ns.drop_first()));
        assert(html_of(ns.push(n)) =~= html_of(ns) + node_html(n));
    }
}

/// Append the HTML fragment of one node.
fn append_html(out: &mut String, n: &Node)
    ensures
        final(out)@ == old(out)@ + node_html(n@),
{
    let ghost pre = old(out)@;
    match n {
        Node::Text(t) => {
            out.append("<p>");
            out.append(t.as_str());
            out.append("</p>");
            proof {
                assert(out@ =~= pre + node_html(n@));
            }
        },
        Node::Link { to, text } => {
            out.append("<a href=\"");
            out.append(to.as_str());
            out.append("\">");
            match text {
                Some(l) => out.append(l.as_str()),
                None => out.append(to.as_str()),
            }
            out.append("</a><br>");
            proof {
                assert(out@ =~= pre + node_html(n@));
            }
        },
        Node::Heading { level, text } => {
            if *level == 1 {
                out.append("<h1>");
                out.append(text.as_str());
                out.append("</h1>");
            } else if *level == 2 {
                out.append("<h2>");
                out.append(text.as_str());
                out.append("</h2>");
            } else if *level == 3 {
                out.append("<h3>");
                out.append(text.as_str());
                out.append("</h3>");
            } else {
                out.append("<p>");
                out.append(text.as_str());
                out.append("</p>");
            }
            proof {
                assert(out@ =~= pre + node_html(n@));
            }
        },
        Node::List(items) => {
            let ghost dv = items.deep_view();
            out.append("<ul>");
            let ghost mid = out@;
            let mut j: usize = 0;
            proof {
                assert(dv.take(0) =~= Seq::<Seq<char>>::empty());
                assert(li_items(Seq::<Seq<char>>::empty()) == Seq::<char>::empty());
                assert(mid + Seq::<char>::empty() =~= mid);
            }
            while j < items.len()
                invariant
                    0 <= j <= items@.len(),
                    dv == items.deep_view(),
                    dv.len() == items@.len(),
                    out@ == mid + li_items(dv.take(j as int)),
                decreases items@.len() - j,
            {
                if j > 0 {
                    out.append("\n");
                }
                out.append("<li>");
                out.append(items[j].as_str());
                out.append("</li>");
                proof {
                    assert(dv[j as int] == items@[j as int]@);
                    assert(dv.take(j + 1) =~= dv.take(j as int).push(dv[j as int]));
                    lemma_li_items_push(dv.take(j as int), dv[j as int]);
                    assert(out@ =~= mid + li_items(dv.take(j + 1)));
                }
                j = j + 1;
            }
            out.append("</ul>");
            proof {
                assert(dv.take(dv.len() as int) =~= dv);
                assert(out@ =~= pre + node_html(n@));
            }
        },
        Node::Blockquote(t) => {
            out.append("<blockquote>");
            out.append(t.as_str());
            out.append("</blockquote>");
            proof {
                assert(out@ =~= pre + node_html(n@));
            }
        },
        Node::PreformattedText { alt_text: _, text } => {
            out.append("<pre>");
            out.append(text.as_str());
            out.append("</pre>");
            proof {
                assert(out@ =~= pre + node_html(n@));
            }
        },
        Node::Whitespace => {
            proof {
                assert(out@ =~= pre + node_html(n@));
            }
        },
    }
}

/// Render a node sequence as an HTML fragment.
pub fn convert(source: &[Node]) -> (r: String)
    ensures
        r@ == html_of(views_of(source@)),
{
    let ghost dv = views_of(source@);
    let mut out = String::new();
    let mut i: usize = 0;
    proof {
        assert(dv.take(0) =~= Seq::<NodeV>::empty());
        assert(html_of(Seq::<NodeV>::empty()) == Seq::<char>::empty());
    }
    while i < source.len()
        invariant
            0 <= i <= source@.len(),
            dv == views_of(source@),
            dv.len() == source@.len(),
            out@ == html_of(dv.take(i as int)),
        decreases source@.len() - i,
    {
        append_html(&mut out, &source[i]);
        proof {
            assert(dv[i as int] == source@[i as int]@);
            assert(dv.take(i + 1) =~= dv.take(i as int).push(dv[i as int]));
            lemma_html_of_push(dv.take(i as int), dv[i as int]);
        }
        i = i + 1;
    }
    proof {
        assert(dv.take(dv.len() as int) =~= dv);
    }
    out
}

} // verus!
