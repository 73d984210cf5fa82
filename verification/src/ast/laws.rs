//! The round-trip law: serializing a parsed document reproduces the source,
//! for every syntactically well-formed source. [`well_formed`] says exactly
//! which sources those are: every line is in the canonical form its kind
//! serializes back to, every fence is closed, and a trailing line feed only
//! closes a trailing blank line.

use vstd::prelude::*;

use crate::ast::model::{
    classify, consumed, fence_alt, flush, heading_level, heading_text, item_text, link_label,
    link_tokens, list_lines, list_node, mode_after, mode_of, node_gemtext, nodes_gemtext,
    parse_gemtext, pre_node, quote_text, render_gemtext, scan_lines, step, step_line,
    trim_last_nl, wf_line, wf_scan, GemtextError, LineKind, ScanMode, ScanState,
};
use crate::ast::model::{lemma_list_lines_push, lemma_nodes_gemtext_add};
use crate::ast::node::NodeV;
use crate::text::{
    ends_nl, lemma_lines_term_last, lemma_lines_term_push, lemma_split_lines_join, lines_term,
    split_lines,
};

verus! {

/// A whole source text is well-formed when its lines scan cleanly (every
/// line canonical for its kind, every fence closed) and a trailing line
/// feed, if any, closes a trailing blank line. The last condition is real:
/// a source ending in a single line feed after a non-blank line parses to
/// nodes that serialize with a whole trailing blank line, so it does not
/// round-trip.
pub open spec fn well_formed(s: Seq<char>) -> bool {
    &&& wf_scan(split_lines(s), ScanMode::Outside)
    &&& ends_nl(s) ==> split_lines(s).len() >= 2 && split_lines(s).last().len() == 0
}

/// One canonical line, handled outside any context, emits nodes and opens a
/// state that together serialize back to exactly that line.
proof fn lemma_step_line_render(l: Seq<char>)
    requires
        wf_line(l),
    ensures
        step_line(l) is Ok,
        nodes_gemtext(step_line(l)->Ok_0.0) + consumed(step_line(l)->Ok_0.1) == l + "\n"@,
        mode_of(step_line(l)->Ok_0.1) == mode_after(l),
        step_line(l)->Ok_0.1 matches ScanState::InList { items } ==> items.len() > 0,
        classify(l) is Empty ==> step_line(l)->Ok_0.0 == seq![NodeV::Whitespace],
{
    assert(nodes_gemtext(Seq::<NodeV>::empty()) == Seq::<char>::empty());
    match classify(l) {
        LineKind::Empty => {
            let ns = seq![NodeV::Whitespace];
            assert(ns.first() == NodeV::Whitespace);
            assert(ns.drop_first() =~= Seq::<NodeV>::empty());
            assert(nodes_gemtext(ns) == "\n"@ + Seq::<char>::empty());
            assert(l =~= Seq::<char>::empty());
            assert(nodes_gemtext(ns) + Seq::<char>::empty() =~= l + "\n"@);
        },
        LineKind::Link => {
            let ts = link_tokens(l);
            assert(ts.len() > 0);
            let n = NodeV::Link { to: ts[0], label: link_label(ts) };
            let ns = seq![n];
            assert(ns.first() == n);
            assert(ns.drop_first() =~= Seq::<NodeV>::empty());
            assert(nodes_gemtext(ns) == node_gemtext(n) + Seq::<char>::empty());
            match link_label(ts) {
                Some(lab) => {
                    assert(l == "=> "@ + ts[0] + " "@ + lab);
                    assert(nodes_gemtext(ns) + Seq::<char>::empty() =~= l + "\n"@);
                },
                None => {
                    assert(l == "=> "@ + ts[0]);
                    assert(nodes_gemtext(ns) + Seq::<char>::empty() =~= l + "\n"@);
                },
            }
        },
        LineKind::Heading => {
            let n = NodeV::Heading { level: heading_level(l), text: heading_text(l) };
            let ns = seq![n];
            assert(ns.first() == n);
            assert(ns.drop_first() =~= Seq::<NodeV>::empty());
            assert(nodes_gemtext(ns) == node_gemtext(n) + Seq::<char>::empty());
            assert(nodes_gemtext(ns) + Seq::<char>::empty() =~= l + "\n"@);
        },
        LineKind::ListItem => {
            let st2 = ScanState::InList { items: seq![item_text(l)] };
            assert(consumed(st2) == list_lines(seq![item_text(l)]));
            assert(seq![item_text(l)].first() == item_text(l));
            assert(seq![item_text(l)].drop_first() =~= Seq::<Seq<char>>::empty());
            assert(list_lines(Seq::<Seq<char>>::empty()) == Seq::<char>::empty());
            assert(list_lines(seq![item_text(l)]) == "* "@ + item_text(l) + "\n"@
                + Seq::<char>::empty());
            assert(l == "* "@ + item_text(l));
            assert(Seq::<char>::empty() + consumed(st2) =~= l + "\n"@);
        },
        LineKind::Quote => {
            let n = NodeV::Blockquote { text: quote_text(l) };
            let ns = seq![n];
            assert(ns.first() == n);
            assert(ns.drop_first() =~= Seq::<NodeV>::empty());
            assert(nodes_gemtext(ns) == node_gemtext(n) + Seq::<char>::empty());
            assert(nodes_gemtext(ns) + Seq::<char>::empty() =~= l + "\n"@);
        },
        LineKind::Fence => {
            let st2 = ScanState::InPre { alt: fence_alt(l), content: Seq::empty() };
            assert(l.take(3) == "```"@);
            assert(l =~= l.take(3) + l.skip(3));
            assert(consumed(st2) == "```"@ + fence_alt(l) + "\n"@ + Seq::<char>::empty());
            assert(Seq::<char>::empty() + consumed(st2) =~= l + "\n"@);
        },
        LineKind::Plain => {
            let n = NodeV::Text { text: l };
            let ns = seq![n];
            assert(ns.first() == n);
            assert(ns.drop_first() =~= Seq::<NodeV>::empty());
            assert(nodes_gemtext(ns) == node_gemtext(n) + Seq::<char>::empty());
            assert(nodes_gemtext(ns) + Seq::<char>::empty() =~= l + "\n"@);
        },
    }
}

/// Scanning well-formed lines succeeds, and the nodes serialize back to the
/// already-consumed text of the open state followed by the lines, each
/// terminated. When the last line is blank, the last node is a blank node.
#[verifier::rlimit(100)]
proof fn lemma_scan_render(ls: Seq<Seq<char>>, st: ScanState)
    requires
        wf_scan(ls, mode_of(st)),
        st matches ScanState::InList { items } ==> items.len() > 0,
    ensures
        scan_lines(ls, st) is Ok,
        nodes_gemtext(scan_lines(ls, st)->Ok_0) == consumed(st) + lines_term(ls),
        ls.len() > 0 && ls.last().len() == 0 ==> scan_lines(ls, st)->Ok_0.len() > 0
            && scan_lines(ls, st)->Ok_0.last() is Whitespace,
    decreases ls.len(),
{
    assert(nodes_gemtext(Seq::<NodeV>::empty()) == Seq::<char>::empty());
    assert(lines_term(Seq::<Seq<char>>::empty()) == Seq::<char>::empty());
    if ls.len() == 0 {
        match st {
            ScanState::Normal => {
                assert(consumed(st) + lines_term(ls) =~= Seq::<char>::empty());
            },
            ScanState::InList { items } => {
                let ns = seq![list_node(items)];
                assert(ns.first() == list_node(items));
                assert(ns.drop_first() =~= Seq::<NodeV>::empty());
                assert(nodes_gemtext(ns) == node_gemtext(list_node(items))
                    + Seq::<char>::empty());
                assert(node_gemtext(list_node(items)) == list_lines(items));
                assert(nodes_gemtext(ns) =~= consumed(st) + lines_term(ls));
            },
            ScanState::InPre { .. } => {
                assert(false);
            },
        }
    } else {
        let l = ls.first();
        let rest = ls.drop_first();
        assert(ls.last() == if rest.len() > 0 {
            rest.last()
        } else {
            l
        });
        match st {
            ScanState::InPre { alt, content } => {
                if classify(l) is Fence {
                    let n = pre_node(alt, content);
                    let ns = seq![n];
                    assert(ns.first() == n);
                    assert(ns.drop_first() =~= Seq::<NodeV>::empty());
                    assert(nodes_gemtext(ns) == node_gemtext(n) + Seq::<char>::empty());
                    lemma_scan_render(rest, ScanState::Normal);
                    let rest_ns = scan_lines(rest, ScanState::Normal)->Ok_0;
                    assert(scan_lines(ls, st)->Ok_0 == ns + rest_ns);
                    lemma_nodes_gemtext_add(ns, rest_ns);
                    assert(l == "```"@);
                    if alt.len() == 0 {
                        assert(alt =~= Seq::<char>::empty());
                    }
                    assert(node_gemtext(n) =~= "```"@ + alt + "\n"@ + content + ("```"@
                        + "\n"@)) by {
                        reveal_strlit("```");
                        reveal_strlit("\n");
                        reveal_strlit("```\n");
                        assert("```\n"@ =~= "```"@ + "\n"@);
                    }
                    assert(nodes_gemtext(ns + rest_ns) =~= consumed(st) + lines_term(ls));
                    if ls.last().len() == 0 {
                        assert(rest.len() > 0) by {
                            assert(l.len() == 3) by {
                                reveal_strlit("```");
                            }
                        }
                        assert((ns + rest_ns).last() == rest_ns.last());
                    }
                } else {
                    let st2 = ScanState::InPre { alt, content: content + l + "\n"@ };
                    lemma_scan_render(rest, st2);
                    let rest_ns = scan_lines(rest, st2)->Ok_0;
                    assert(scan_lines(ls, st)->Ok_0 == Seq::<NodeV>::empty() + rest_ns);
                    assert(Seq::<NodeV>::empty() + rest_ns =~= rest_ns);
                    assert(consumed(st2) =~= consumed(st) + (l + "\n"@));
                    assert(consumed(st) + lines_term(ls) =~= consumed(st) + (l + "\n"@)
                        + lines_term(rest));
                    if ls.last().len() == 0 {
                        assert(rest.len() > 0) by {
                            if rest.len() == 0 {
                                assert(wf_scan(rest, ScanMode::Fenced) == false);
                            }
                        }
                    }
                }
            },
            ScanState::InList { items } => {
                if classify(l) is ListItem {
                    let st2 = ScanState::InList { items: items.push(item_text(l)) };
                    lemma_scan_render(rest, st2);
                    let rest_ns = scan_lines(rest, st2)->Ok_0;
                    assert(scan_lines(ls, st)->Ok_0 == Seq::<NodeV>::empty() + rest_ns);
                    assert(Seq::<NodeV>::empty() + rest_ns =~= rest_ns);
                    lemma_list_lines_push(items, item_text(l));
                    assert(l == "* "@ + item_text(l));
                    assert(consumed(st2) =~= consumed(st) + (l + "\n"@));
                    assert(consumed(st) + lines_term(ls) =~= consumed(st) + (l + "\n"@)
                        + lines_term(rest));
                    if ls.last().len() == 0 {
                        assert(rest.len() > 0) by {
                            assert(l.len() >= 2) by {
                                reveal_strlit("* ");
                            }
                        }
                    }
                } else {
                    lemma_step_line_render(l);
                    let ns1 = step_line(l)->Ok_0.0;
                    let st2 = step_line(l)->Ok_0.1;
                    let flushed = seq![list_node(items)];
                    assert(step(st, l) == Ok::<(Seq<NodeV>, ScanState), GemtextError>(
                        (flushed + ns1, st2),
                    ));
                    lemma_scan_render(rest, st2);
                    let rest_ns = scan_lines(rest, st2)->Ok_0;
                    assert(scan_lines(ls, st)->Ok_0 == (flushed + ns1) + rest_ns);
                    lemma_nodes_gemtext_add(flushed + ns1, rest_ns);
                    lemma_nodes_gemtext_add(flushed, ns1);
                    assert(flushed.first() == list_node(items));
                    assert(flushed.drop_first() =~= Seq::<NodeV>::empty());
                    assert(nodes_gemtext(flushed) == node_gemtext(list_node(items))
                        + Seq::<char>::empty());
                    assert(node_gemtext(list_node(items)) == list_lines(items));
                    assert(nodes_gemtext((flushed + ns1) + rest_ns) =~= consumed(st)
                        + lines_term(ls));
                    if ls.last().len() == 0 {
                        if rest.len() > 0 {
                            assert(((flushed + ns1) + rest_ns).last() == rest_ns.last());
                        } else {
                            assert(classify(l) is Empty);
                            assert(ns1 == seq![NodeV::Whitespace]);
                            assert(scan_lines(rest, st2)->Ok_0 == flush(st2));
                            assert(st2 == ScanState::Normal);
                            assert(rest_ns =~= Seq::<NodeV>::empty());
                            assert(((flushed + ns1) + rest_ns).last() == NodeV::Whitespace);
                        }
                    }
                }
            },
            ScanState::Normal => {
                lemma_step_line_render(l);
                let ns1 = step_line(l)->Ok_0.0;
                let st2 = step_line(l)->Ok_0.1;
                lemma_scan_render(rest, st2);
                let rest_ns = scan_lines(rest, st2)->Ok_0;
                assert(scan_lines(ls, st)->Ok_0 == ns1 + rest_ns);
                lemma_nodes_gemtext_add(ns1, rest_ns);
                assert(nodes_gemtext(ns1 + rest_ns) =~= consumed(st) + lines_term(ls));
                if ls.last().len() == 0 {
                    if rest.len() > 0 {
                        assert((ns1 + rest_ns).last() == rest_ns.last());
                    } else {
                        assert(classify(l) is Empty);
                        assert(ns1 == seq![NodeV::Whitespace]);
                        assert(scan_lines(rest, st2)->Ok_0 == flush(st2));
                        assert(st2 == ScanState::Normal);
                        assert(rest_ns =~= Seq::<NodeV>::empty());
                        assert((ns1 + rest_ns).last() == NodeV::Whitespace);
                    }
                }
            },
        }
    }
}

/// The round-trip law: for every well-formed source, parsing succeeds and
/// the canonical serialization of the parsed document is the source itself.
pub proof fn lemma_round_trip(s: Seq<char>)
    requires
        well_formed(s),
    ensures
        parse_gemtext(s) is Ok,
        render_gemtext(parse_gemtext(s)->Ok_0) == s,
{
    reveal_strlit("\n");
    let ls = split_lines(s);
    assert(mode_of(ScanState::Normal) == ScanMode::Outside);
    lemma_scan_render(ls, ScanState::Normal);
    let ns = scan_lines(ls, ScanState::Normal)->Ok_0;
    assert(nodes_gemtext(ns) == consumed(ScanState::Normal) + lines_term(ls));
    assert(consumed(ScanState::Normal) + lines_term(ls) =~= lines_term(ls));
    lemma_split_lines_join(s);
    if s.len() == 0 {
        assert(ls.len() == 0);
        assert(ns =~= Seq::<NodeV>::empty());
        assert(parse_gemtext(s)->Ok_0 == ns);
        assert(nodes_gemtext(ns).len() == 0);
        assert(render_gemtext(ns) =~= s);
    } else if !ends_nl(s) {
        assert(parse_gemtext(s)->Ok_0 == ns);
        assert(nodes_gemtext(ns) == s + "\n"@);
        let t = s + "\n"@;
        assert(t.len() == s.len() + 1);
        assert(t.last() == '\n');
        assert(t[t.len() - 2] == s.last());
        assert(s.last() != '\n');
        assert(trim_last_nl(t) == t.drop_last());
        assert(t.drop_last() =~= s);
    } else {
        assert(ls.len() >= 2 && ls.last().len() == 0);
        assert(ns.len() > 0 && ns.last() is Whitespace);
        assert(parse_gemtext(s)->Ok_0 == ns);
        assert(nodes_gemtext(ns) == s);
        // The source ends with a blank line, so its last two characters are
        // line feeds and the trailing normalization leaves it unchanged.
        let front = ls.drop_last();
        assert(ls =~= front.push(ls.last()));
        lemma_lines_term_push(front, ls.last());
        assert(lines_term(ls) == lines_term(front) + ls.last() + "\n"@);
        lemma_lines_term_last(front);
        assert(ls.last() =~= Seq::<char>::empty());
        assert(s == lines_term(front) + ls.last() + "\n"@);
        assert(s[s.len() - 2] == lines_term(front).last());
        assert(trim_last_nl(s) == s);
        assert(render_gemtext(ns) == s);
    }
}

} // verus!
