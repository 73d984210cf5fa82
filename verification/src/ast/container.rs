//! The document container: the executable parser that scans Gemtext lines
//! into nodes, and the canonical serializer back to Gemtext. Both are
//! verified against the model in [`crate::ast::model`].

use vstd::prelude::*;
use vstd::string::*;

use crate::ast::model::{
    fence_alt, flush, heading_level, heading_text, item_text, join_tokens, link_label, link_rest,
    link_tokens, list_lines, list_node, node_gemtext, nodes_gemtext, parse_gemtext, pre_node,
    quote_text, render_gemtext, scan_lines, step, step_line, trim_last_nl, GemtextError,
    ScanState,
};
use crate::ast::model::{lemma_join_tokens_push, lemma_list_lines_push, lemma_nodes_gemtext_push};
use crate::ast::node::{Node, NodeV};
use crate::text::{
    count_run, run_len, split_lines, split_lines_str, split_ws_str, starts_with_char,
    trim_start_str,
};

verus! {

/// A parsed Gemtext document: an ordered sequence of nodes.
#[derive(Debug, Clone, PartialEq, Eq)]
pub struct Ast {
    inner: Vec<Node>,
}

impl View for Ast {
    type V = Seq<NodeV>;

    closed spec fn view(&self) -> Seq<NodeV> {
        self.inner.deep_view()
    }
}

/// The executable scanner state, mirroring [`ScanState`].
enum Scan {
    Normal,
    InList(Vec<String>),
    InPre(String, String),
}

impl View for Scan {
    type V = ScanState;

    closed spec fn view(&self) -> ScanState {
        match self {
            Scan::Normal => ScanState::Normal,
            Scan::InList(items) => ScanState::InList { items: items.deep_view() },
            Scan::InPre(alt, content) => ScanState::InPre { alt: alt@, content: content@ },
        }
    }
}

/// Join the tokens after the first with single spaces: the label of a link
/// line.
fn join_from(tokens: &Vec<String>) -> (r: String)
    requires
        tokens@.len() >= 1,
    ensures
        r@ == join_tokens(tokens.deep_view().drop_first()),
{
    let ghost dv = tokens.deep_view();
    let mut out = String::new();
    let mut i: usize = 1;
    proof {
        assert(dv.subrange(1, 1) =~= Seq::<Seq<char>>::empty());
        assert(join_tokens(Seq::<Seq<char>>::empty()) == Seq::<char>::empty());
    }
    while i < tokens.len()
        invariant
            1 <= i <= tokens@.len(),
            dv == tokens.deep_view(),
            dv.len() == tokens@.len(),
            out@ == join_tokens(dv.subrange(1, i as int)),
        decreases tokens@.len() - i,
    {
        if i > 1 {
            out.append(" ");
        }
        out.append(tokens[i].as_str());
        proof {
            assert(dv[i as int] == tokens@[i as int]@);
            assert(dv.subrange(1, i + 1) =~= dv.subrange(1, i as int).push(dv[i as int]));
            lemma_join_tokens_push(dv.subrange(1, i as int), dv[i as int]);
        }
        i = i + 1;
    }
    proof {
        assert(dv.subrange(1, dv.len() as int) =~= dv.drop_first());
    }
    out
}

/// Handle one line with no context open: emit its node, or open the list or
/// preformatted context it begins.
fn step_line_exec(line: &str, out: &mut Vec<Node>) -> (r: Result<Scan, GemtextError>)
    ensures
        ({
            let sr = step_line(line@);
            match r {
                Ok(st2) => sr is Ok && final(out).deep_view() == old(out).deep_view() + sr->Ok_0.0
                    && st2@ == sr->Ok_0.1,
                Err(e) => sr == Err::<(Seq<NodeV>, ScanState), GemtextError>(e),
            }
        }),
{
    let ghost pre = out.deep_view();
    let n: usize = line.unicode_len();
    if n == 0 {
        out.push(Node::Whitespace);
        proof {
            assert(out.deep_view() =~= pre + seq![NodeV::Whitespace]);
        }
        Ok(Scan::Normal)
    } else {
        let c = line.get_char(0);
        if c == '=' {
            let rest = if n >= 2 {
                line.substring_char(2, n)
            } else {
                ""
            };
            proof {
                if n >= 2 {
                    assert(line@.subrange(2, n as int) =~= link_rest(line@));
                } else {
                    reveal_strlit("");
                    assert(""@ =~= link_rest(line@));
                }
            }
            let tokens = split_ws_str(rest);
            proof {
                assert(tokens.deep_view() == link_tokens(line@));
                assert(tokens.deep_view().len() == tokens@.len());
            }
            if tokens.len() == 0 {
                return Err(GemtextError::MalformedLink);
            }
            let to = tokens[0].clone();
            let label = if tokens.len() == 1 {
                None
            } else {
                Some(join_from(&tokens))
            };
            out.push(Node::Link { to, text: label });
            proof {
                let ts = link_tokens(line@);
                assert(tokens.deep_view()[0] == tokens@[0]@);
                assert(out.deep_view() =~= pre + seq![
                    NodeV::Link { to: ts[0], label: link_label(ts) },
                ]);
            }
            Ok(Scan::Normal)
        } else if c == '#' {
            let run = count_run(line, '#');
            let level: usize = if run > 3 {
                3
            } else {
                run
            };
            let text = trim_start_str(line.substring_char(run, n)).to_owned();
            out.push(Node::Heading { level, text });
            proof {
                assert(line@.subrange(run as int, n as int) =~= line@.skip(
                    run_len(line@, '#') as int,
                ));
                assert(out.deep_view() =~= pre + seq![
                    NodeV::Heading { level: heading_level(line@), text: heading_text(line@) },
                ]);
            }
            Ok(Scan::Normal)
        } else if c == '*' {
            let item = trim_start_str(line.substring_char(1, n)).to_owned();
            let mut items: Vec<String> = Vec::new();
            items.push(item);
            proof {
                assert(line@.subrange(1, n as int) =~= line@.skip(1));
                assert(items.deep_view() =~= seq![item_text(line@)]);
                assert(out.deep_view() =~= pre + Seq::<NodeV>::empty());
            }
            Ok(Scan::InList(items))
        } else if c == '>' {
            let text = trim_start_str(line.substring_char(1, n)).to_owned();
            out.push(Node::Blockquote(text));
            proof {
                assert(line@.subrange(1, n as int) =~= line@.skip(1));
                assert(out.deep_view() =~= pre + seq![NodeV::Blockquote { text: quote_text(line@) }]);
            }
            Ok(Scan::Normal)
        } else if c == '`' {
            let alt = if n >= 3 {
                line.substring_char(3, n).to_owned()
            } else {
                String::new()
            };
            proof {
                if n >= 3 {
                    assert(line@.subrange(3, n as int) =~= fence_alt(line@));
                }
                assert(alt@ == fence_alt(line@));
                assert(out.deep_view() =~= pre + Seq::<NodeV>::empty());
            }
            Ok(Scan::InPre(alt, String::new()))
        } else {
            out.push(Node::Text(line.to_owned()));
            proof {
                assert(out.deep_view() =~= pre + seq![NodeV::Text { text: line@ }]);
            }
            Ok(Scan::Normal)
        }
    }
}

/// Handle one line in the current scanner state.
fn scan_step(st: Scan, line: &str, out: &mut Vec<Node>) -> (r: Result<Scan, GemtextError>)
    ensures
        ({
            let sr = step(st@, line@);
            match r {
                Ok(st2) => sr is Ok && final(out).deep_view() == old(out).deep_view() + sr->Ok_0.0
                    && st2@ == sr->Ok_0.1,
                Err(e) => sr == Err::<(Seq<NodeV>, ScanState), GemtextError>(e),
            }
        }),
{
    let ghost pre = out.deep_view();
    match st {
        Scan::Normal => step_line_exec(line, out),
        Scan::InList(mut items) => {
            let ghost items_v = items.deep_view();
            if starts_with_char(line, '*') {
                let n: usize = line.unicode_len();
                let item = trim_start_str(line.substring_char(1, n)).to_owned();
                items.push(item);
                proof {
                    assert(line@.subrange(1, n as int) =~= line@.skip(1));
                    assert(items.deep_view() =~= items_v.push(item_text(line@)));
                    assert(out.deep_view() =~= pre + Seq::<NodeV>::empty());
                }
                Ok(Scan::InList(items))
            } else {
                out.push(Node::List(items));
                proof {
                    assert(out.deep_view() =~= pre + seq![list_node(items_v)]);
                }
                let r = step_line_exec(line, out);
                proof {
                    match step_line(line@) {
                        Ok((ns, _st2)) => {
                            assert(out.deep_view() =~= pre + (seq![list_node(items_v)] + ns));
                        },
                        Err(_) => {},
                    }
                }
                r
            }
        },
        Scan::InPre(alt, mut content) => {
            if starts_with_char(line, '`') {
                let ghost alt_v = alt@;
                let ghost content_v = content@;
                let alt_opt = if alt.unicode_len() == 0 {
                    None
                } else {
                    Some(alt)
                };
                out.push(Node::PreformattedText { alt_text: alt_opt, text: content });
                proof {
                    assert(out.deep_view() =~= pre + seq![pre_node(alt_v, content_v)]);
                }
                Ok(Scan::Normal)
            } else {
                content.append(line);
                content.append("\n");
                proof {
                    assert(out.deep_view() =~= pre + Seq::<NodeV>::empty());
                }
                Ok(Scan::InPre(alt, content))
            }
        },
    }
}

/// Append the canonical Gemtext of one node.
pub(crate) fn append_node(out: &mut String, n: &Node)
    ensures
        final(out)@ == old(out)@ + node_gemtext(n@),
{
    let ghost pre = old(out)@;
    match n {
        Node::Text(t) => {
            out.append(t.as_str());
            out.append("\n");
            proof {
                assert(out@ =~= pre + node_gemtext(n@));
            }
        },
        Node::Link { to, text } => {
            out.append("=> ");
            out.append(to.as_str());
            match text {
                Some(l) => {
                    out.append(" ");
                    out.append(l.as_str());
                },
                None => {},
            }
            out.append("\n");
            proof {
                assert(out@ =~= pre + node_gemtext(n@));
            }
        },
        Node::Heading { level, text } => {
            if *level == 1 {
                out.append("#");
            } else if *level == 2 {
                out.append("##");
            } else if *level == 3 {
                out.append("###");
            } else {
                out.append("");
            }
            out.append(" ");
            out.append(text.as_str());
            out.append("\n");
            proof {
                assert(out@ =~= pre + node_gemtext(n@));
            }
        },
        Node::List(items) => {
            let ghost dv = items.deep_view();
            if items.len() == 0 {
                out.append("\n");
                proof {
                    assert(dv.len() == 0);
                    assert(out@ =~= pre + node_gemtext(n@));
                }
            } else {
                let mut j: usize = 0;
                proof {
                    assert(dv.take(0) =~= Seq::<Seq<char>>::empty());
                    assert(list_lines(Seq::<Seq<char>>::empty()) == Seq::<char>::empty());
                    assert(pre + Seq::<char>::empty() =~= pre);
                }
                while j < items.len()
                    invariant
                        0 <= j <= items@.len(),
                        dv == items.deep_view(),
                        dv.len() == items@.len(),
                        out@ == pre + list_lines(dv.take(j as int)),
                    decreases items@.len() - j,
                {
                    out.append("* ");
                    out.append(items[j].as_str());
                    out.append("\n");
                    proof {
                        assert(dv[j as int] == items@[j as int]@);
                        assert(dv.take(j + 1) =~= dv.take(j as int).push(dv[j as int]));
                        lemma_list_lines_push(dv.take(j as int), dv[j as int]);
                        assert(out@ =~= pre + list_lines(dv.take(j + 1)));
                    }
                    j = j + 1;
                }
                proof {
                    assert(dv.take(dv.len() as int) =~= dv);
                    assert(out@ =~= pre + node_gemtext(n@));
                }
            }
        },
        Node::Blockquote(t) => {
            out.append("> ");
            out.append(t.as_str());
            out.append("\n");
            proof {
                assert(out@ =~= pre + node_gemtext(n@));
            }
        },
        Node::PreformattedText { alt_text, text } => {
            out.append("```");
            match alt_text {
                Some(a) => {
                    out.append(a.as_str());
                },
                None => {},
            }
            out.append("\n");
            out.append(text.as_str());
            out.append("```\n");
            proof {
                assert(out@ =~= pre + node_gemtext(n@));
            }
        },
        Node::Whitespace => {
            out.append("\n");
            proof {
                assert(out@ =~= pre + node_gemtext(n@));
            }
        },
    }
}

/// Apply the final normalization: remove a single trailing line feed that
/// does not close a trailing blank line.
pub(crate) fn finish_gemtext(out: String) -> (r: String)
    ensures
        r@ == trim_last_nl(out@),
{
    let len: usize = out.as_str().unicode_len();
    let needs_trim = len >= 1 && out.as_str().get_char(len - 1) == '\n' && !(len >= 2
        && out.as_str().get_char(len - 2) == '\n');
    if needs_trim {
        let trimmed = out.as_str().substring_char(0, len - 1).to_owned();
        proof {
            assert(out@.subrange(0, out@.len() - 1) =~= out@.drop_last());
        }
        trimmed
    } else {
        out
    }
}

impl Ast {
    /// Build a document from Gemtext source. The one refused input is a
    /// link line with no destination.
    ///
    /// The nodes of the result are exactly [`parse_gemtext`] of the source.
    /// Lines are delimited by the line feed alone: a carriage return stays
    /// part of its line. A line holding only whitespace is a text line, not
    /// a blank one. A heading level is the length of its marker run,
    /// clamped to three.
    pub fn from_string(value: &str) -> (r: Result<Ast, GemtextError>)
        ensures
            match r {
                Ok(ast) => parse_gemtext(value@) == Ok::<Seq<NodeV>, GemtextError>(ast@),
                Err(e) => parse_gemtext(value@) == Err::<Seq<NodeV>, GemtextError>(e),
            },
    {
        let (lines, had_nl) = split_lines_str(value);
        let ghost lv = lines.deep_view();
        let mut out: Vec<Node> = Vec::new();
        let mut st = Scan::Normal;
        let mut i: usize = 0;
        proof {
            assert(lv.skip(0) =~= lv);
            match scan_lines(lv, ScanState::Normal) {
                Ok(ns) => {
                    assert(out.deep_view() + ns =~= ns);
                },
                Err(_) => {},
            }
        }
        while i < lines.len()
            invariant
                0 <= i <= lines@.len(),
                lv == lines.deep_view(),
                lv == split_lines(value@),
                lv.len() == lines@.len(),
                match scan_lines(lv.skip(i as int), st@) {
                    Ok(ns) => scan_lines(lv, ScanState::Normal) == Ok::<
                        Seq<NodeV>,
                        GemtextError,
                    >(out.deep_view() + ns),
                    Err(e) => scan_lines(lv, ScanState::Normal) == Err::<
                        Seq<NodeV>,
                        GemtextError,
                    >(e),
                },
            decreases lines@.len() - i,
        {
            let ghost pre_out = out.deep_view();
            let ghost pre_st = st@;
            let line = &lines[i];
            proof {
                assert(lv[i as int] == lines@[i as int]@);
                assert(lv.skip(i as int).first() == lv[i as int]);
                assert(lv.skip(i as int).drop_first() =~= lv.skip(i as int + 1));
            }
            let res = scan_step(st, line.as_str(), &mut out);
            st = match res {
                Ok(s2) => s2,
                Err(e) => {
                    proof {
                        assert(step(pre_st, lv[i as int]) == Err::<
                            (Seq<NodeV>, ScanState),
                            GemtextError,
                        >(e));
                        assert(scan_lines(lv.skip(i as int), pre_st) == Err::<
                            Seq<NodeV>,
                            GemtextError,
                        >(e));
                    }
                    return Err(e);
                },
            };
            proof {
                let sr = step(pre_st, lv[i as int]);
                match scan_lines(lv.skip(i as int + 1), st@) {
                    Ok(rest) => {
                        assert(scan_lines(lv.skip(i as int), pre_st) == Ok::<
                            Seq<NodeV>,
                            GemtextError,
                        >(sr->Ok_0.0 + rest));
                        assert(pre_out + (sr->Ok_0.0 + rest) =~= (pre_out + sr->Ok_0.0) + rest);
                    },
                    Err(_) => {},
                }
            }
            i = i + 1;
        }
        proof {
            assert(lv.skip(lv.len() as int).len() == 0);
        }
        let ghost scanned = out.deep_view() + flush(st@);
        match st {
            Scan::Normal => {
                proof {
                    assert(out.deep_view() =~= scanned);
                }
            },
            Scan::InList(items) => {
                out.push(Node::List(items));
                proof {
                    assert(out.deep_view() =~= scanned);
                }
            },
            Scan::InPre(_, _) => {
                proof {
                    assert(out.deep_view() =~= scanned);
                }
            },
        }
        proof {
            assert(scan_lines(lv, ScanState::Normal) == Ok::<Seq<NodeV>, GemtextError>(scanned));
        }
        if had_nl && out.len() > 0 {
            let last_is_ws = match &out[out.len() - 1] {
                Node::Whitespace => true,
                _ => false,
            };
            proof {
                assert(out.deep_view()[out@.len() - 1] == out@[out@.len() - 1]@);
            }
            if !last_is_ws {
                let ghost pre_out = out.deep_view();
                out.push(Node::Whitespace);
                proof {
                    assert(out.deep_view() =~= pre_out.push(NodeV::Whitespace));
                }
            }
        }
        Ok(Ast { inner: out })
    }

    /// Build a document from Gemtext source held by reference.
    pub fn from_owned(value: &str) -> (r: Result<Ast, GemtextError>)
        ensures
            match r {
                Ok(ast) => parse_gemtext(value@) == Ok::<Seq<NodeV>, GemtextError>(ast@),
                Err(e) => parse_gemtext(value@) == Err::<Seq<NodeV>, GemtextError>(e),
            },
    {
        Ast::from_string(value)
    }

    /// Build a document from any value that yields Gemtext source.
    pub fn from_value(value: &str) -> (r: Result<Ast, GemtextError>)
        ensures
            match r {
                Ok(ast) => parse_gemtext(value@) == Ok::<Seq<NodeV>, GemtextError>(ast@),
                Err(e) => parse_gemtext(value@) == Err::<Seq<NodeV>, GemtextError>(e),
            },
    {
        Ast::from_string(value)
    }

    /// Build a document directly from nodes.
    pub fn from_nodes(nodes: Vec<Node>) -> (r: Ast)
        ensures
            r@ == nodes.deep_view(),
    {
        Ast { inner: nodes }
    }

    /// Serialize the document back to canonical Gemtext.
    pub fn to_gemtext(&self) -> (r: String)
        ensures
            r@ == render_gemtext(self@),
    {
        let mut out = String::new();
        let mut i: usize = 0;
        proof {
            assert(self@.take(0) =~= Seq::<NodeV>::empty());
            assert(nodes_gemtext(Seq::<NodeV>::empty()) == Seq::<char>::empty());
        }
        while i < self.inner.len()
            invariant
                0 <= i <= self.inner@.len(),
                self@ == self.inner.deep_view(),
                self@.len() == self.inner@.len(),
                out@ == nodes_gemtext(self@.take(i as int)),
            decreases self.inner@.len() - i,
        {
            append_node(&mut out, &self.inner[i]);
            proof {
                assert(self@[i as int] == self.inner@[i as int]@);
                assert(self@.take(i + 1) =~= self@.take(i as int).push(self@[i as int]));
                lemma_nodes_gemtext_push(self@.take(i as int), self@[i as int]);
            }
            i = i + 1;
        }
        proof {
            assert(self@.take(self@.len() as int) =~= self@);
        }
        finish_gemtext(out)
    }

    /// The nodes of the document.
    pub fn inner(&self) -> (r: &Vec<Node>)
        ensures
            r.deep_view() == self@,
    {
        &self.inner
    }
}

} // verus!
