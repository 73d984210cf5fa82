//! The mathematical model of parsing and serializing: what each line kind
//! contributes, how the line scanner carries its list and preformatted
//! state, and what text each node serializes back to.

use vstd::prelude::*;

use crate::ast::node::NodeV;
use crate::text::{ends_nl, run_len, split_lines, split_ws, trim_start};

verus! {

/// The single parse error: a link line with no destination token after its
/// marker.
#[derive(Debug, Clone, Copy, PartialEq, Eq, Structural)]
pub enum GemtextError {
    /// A line began with the link marker but held no destination.
    MalformedLink,
}

/// The kind of a line, decided by its first character.
pub enum LineKind {
    /// An empty line.
    Empty,
    /// A link line (`=`).
    Link,
    /// A heading line (`#`).
    Heading,
    /// A list-item line (`*`).
    ListItem,
    /// A blockquote line (`>`).
    Quote,
    /// A preformatted fence line (backtick).
    Fence,
    /// Anything else: plain text.
    Plain,
}

/// Classify a line by its first character.
pub open spec fn classify(l: Seq<char>) -> LineKind {
    if l.len() == 0 {
        LineKind::Empty
    } else if l[0] == '=' {
        LineKind::Link
    } else if l[0] == '#' {
        LineKind::Heading
    } else if l[0] == '*' {
        LineKind::ListItem
    } else if l[0] == '>' {
        LineKind::Quote
    } else if l[0] == '`' {
        LineKind::Fence
    } else {
        LineKind::Plain
    }
}

/// What stands after the two-character link marker.
pub open spec fn link_rest(l: Seq<char>) -> Seq<char> {
    if l.len() >= 2 {
        l.skip(2)
    } else {
        Seq::empty()
    }
}

/// The whitespace-separated tokens after the link marker: the first is the
/// destination, the rest make the label.
pub open spec fn link_tokens(l: Seq<char>) -> Seq<Seq<char>> {
    split_ws(link_rest(l))
}

/// Tokens rejoined with single spaces.
pub open spec fn join_tokens(ts: Seq<Seq<char>>) -> Seq<char>
    decreases ts.len(),
{
    if ts.len() == 0 {
        Seq::empty()
    } else if ts.len() == 1 {
        ts[0]
    } else {
        ts[0] + " "@ + join_tokens(ts.drop_first())
    }
}

/// Appending a token appends it after a single space, except to an empty
/// list.
pub proof fn lemma_join_tokens_push(ts: Seq<Seq<char>>, t: Seq<char>)
    ensures
        ts.len() == 0 ==> join_tokens(ts.push(t)) == t,
        ts.len() > 0 ==> join_tokens(ts.push(t)) == join_tokens(ts) + " "@ + t,
    decreases ts.len(),
{
    if ts.len() == 0 {
        assert(ts.push(t).len() == 1);
        assert(ts.push(t)[0] == t);
    } else if ts.len() == 1 {
        assert(ts.push(t)[0] == ts[0]);
        assert(ts.push(t).drop_first() =~= seq![t]);
        assert(join_tokens(seq![t]) == t);
        assert(join_tokens(ts.push(t)) == ts[0] + " "@ + t);
        assert(join_tokens(ts) == ts[0]);
    } else {
        assert(ts.push(t)[0] == ts[0]);
        assert(ts.push(t).drop_first() =~= ts.drop_first().push(t));
        lemma_join_tokens_push(ts.drop_first(), t);
        assert(join_tokens(ts.push(t)) == ts[0] + " "@ + join_tokens(ts.drop_first().push(t)));
        assert(join_tokens(ts.drop_first().push(t)) == join_tokens(ts.drop_first()) + " "@ + t);
        assert(ts[0] + " "@ + (join_tokens(ts.drop_first()) + " "@ + t) =~= (ts[0] + " "@
            + join_tokens(ts.drop_first())) + " "@ + t);
    }
}

/// The label of a link line: the tokens after the destination, rejoined with
/// single spaces; absent when there are none.
pub open spec fn link_label(ts: Seq<Seq<char>>) -> Option<Seq<char>> {
    if ts.len() <= 1 {
        None
    } else {
        Some(join_tokens(ts.drop_first()))
    }
}

/// The heading level of a heading line: the length of the leading run of the
/// marker, clamped to 3.
pub open spec fn heading_level(l: Seq<char>) -> nat {
    if run_len(l, '#') > 3 {
        3
    } else {
        run_len(l, '#')
    }
}

/// The heading text: everything after the marker run, left-trimmed.
pub open spec fn heading_text(l: Seq<char>) -> Seq<char> {
    trim_start(l.skip(run_len(l, '#') as int))
}

/// The text of a list-item line: everything after the marker, left-trimmed.
pub open spec fn item_text(l: Seq<char>) -> Seq<char> {
    trim_start(l.skip(1))
}

/// The text of a blockquote line: everything after the marker, left-trimmed.
pub open spec fn quote_text(l: Seq<char>) -> Seq<char> {
    trim_start(l.skip(1))
}

/// The alt-text of an opening fence line: everything after the three fence
/// characters; empty when the line is shorter.
pub open spec fn fence_alt(l: Seq<char>) -> Seq<char> {
    if l.len() >= 3 {
        l.skip(3)
    } else {
        Seq::empty()
    }
}

/// The carried state of the line scanner.
pub enum ScanState {
    /// No multi-line context is open.
    Normal,
    /// A run of list items is being accumulated.
    InList { items: Seq<Seq<char>> },
    /// A preformatted block is open: its alt-text and the content read so
    /// far, one newline-terminated line at a time.
    InPre { alt: Seq<char>, content: Seq<char> },
}

/// The list node a run of items collapses into.
pub open spec fn list_node(items: Seq<Seq<char>>) -> NodeV {
    NodeV::List { items }
}

/// The preformatted node a closed fence pair collapses into; empty alt-text
/// becomes absent.
pub open spec fn pre_node(alt: Seq<char>, content: Seq<char>) -> NodeV {
    NodeV::Preformatted {
        alt: if alt.len() == 0 {
            None
        } else {
            Some(alt)
        },
        text: content,
    }
}

/// One line handled with no context open: the nodes it emits and the state
/// it opens.
pub open spec fn step_line(l: Seq<char>) -> Result<(Seq<NodeV>, ScanState), GemtextError> {
    match classify(l) {
        LineKind::Empty => Ok((seq![NodeV::Whitespace], ScanState::Normal)),
        LineKind::Link => {
            let ts = link_tokens(l);
            if ts.len() == 0 {
                Err(GemtextError::MalformedLink)
            } else {
                Ok(
                    (
                        seq![NodeV::Link { to: ts[0], label: link_label(ts) }],
                        ScanState::Normal,
                    ),
                )
            }
        },
        LineKind::Heading => Ok(
            (
                seq![NodeV::Heading { level: heading_level(l), text: heading_text(l) }],
                ScanState::Normal,
            ),
        ),
        LineKind::ListItem => Ok(
            (Seq::empty(), ScanState::InList { items: seq![item_text(l)] }),
        ),
        LineKind::Quote => Ok(
            (seq![NodeV::Blockquote { text: quote_text(l) }], ScanState::Normal),
        ),
        LineKind::Fence => Ok(
            (Seq::empty(), ScanState::InPre { alt: fence_alt(l), content: Seq::empty() }),
        ),
        LineKind::Plain => Ok((seq![NodeV::Text { text: l }], ScanState::Normal)),
    }
}

/// One line handled in the current state: an open list grows on a list line
/// and otherwise flushes before the line; an open preformatted block
/// swallows every line but a fence, which closes it.
pub open spec fn step(st: ScanState, l: Seq<char>) -> Result<
    (Seq<NodeV>, ScanState),
    GemtextError,
> {
    match st {
        ScanState::Normal => step_line(l),
        ScanState::InList { items } => {
            if classify(l) is ListItem {
                Ok((Seq::empty(), ScanState::InList { items: items.push(item_text(l)) }))
            } else {
                match step_line(l) {
                    Ok((ns, st2)) => Ok((seq![list_node(items)] + ns, st2)),
                    Err(e) => Err(e),
                }
            }
        },
        ScanState::InPre { alt, content } => {
            if classify(l) is Fence {
                Ok((seq![pre_node(alt, content)], ScanState::Normal))
            } else {
                Ok((Seq::empty(), ScanState::InPre { alt, content: content + l + "\n"@ }))
            }
        },
    }
}

/// What the end of input turns the open state into: an open list flushes as
/// it stands, an unterminated preformatted block is discarded.
pub open spec fn flush(st: ScanState) -> Seq<NodeV> {
    match st {
        ScanState::Normal => Seq::empty(),
        ScanState::InList { items } => seq![list_node(items)],
        ScanState::InPre { .. } => Seq::empty(),
    }
}

/// The nodes of the remaining lines, scanned from the given state.
pub open spec fn scan_lines(ls: Seq<Seq<char>>, st: ScanState) -> Result<
    Seq<NodeV>,
    GemtextError,
>
    decreases ls.len(),
{
    if ls.len() == 0 {
        Ok(flush(st))
    } else {
        match step(st, ls.first()) {
            Err(e) => Err(e),
            Ok((ns, st2)) => match scan_lines(ls.drop_first(), st2) {
                Err(e) => Err(e),
                Ok(rest) => Ok(ns + rest),
            },
        }
    }
}

/// The nodes of a whole source text: its lines scanned from the initial
/// state, with a trailing blank node appended when the source ends with a
/// line feed and the last node is not already one.
pub open spec fn parse_gemtext(s: Seq<char>) -> Result<Seq<NodeV>, GemtextError> {
    match scan_lines(split_lines(s), ScanState::Normal) {
        Err(e) => Err(e),
        Ok(ns) => Ok(
            if ends_nl(s) && ns.len() > 0 && !(ns.last() is Whitespace) {
                ns.push(NodeV::Whitespace)
            } else {
                ns
            },
        ),
    }
}

/// The serialized heading marker for a level; levels outside 1 to 3 render
/// an empty marker.
pub open spec fn heading_marker(level: nat) -> Seq<char> {
    if level == 1 {
        "#"@
    } else if level == 2 {
        "##"@
    } else if level == 3 {
        "###"@
    } else {
        ""@
    }
}

/// The serialized lines of a list: each item as a marker line, each
/// terminated by a line feed.
pub open spec fn list_lines(items: Seq<Seq<char>>) -> Seq<char>
    decreases items.len(),
{
    if items.len() == 0 {
        Seq::empty()
    } else {
        "* "@ + items.first() + "\n"@ + list_lines(items.drop_first())
    }
}

/// Appending an item appends its marker line.
pub proof fn lemma_list_lines_push(items: Seq<Seq<char>>, x: Seq<char>)
    ensures
        list_lines(items.push(x)) == list_lines(items) + ("* "@ + x + "\n"@),
    decreases items.len(),
{
    assert(list_lines(Seq::<Seq<char>>::empty()) == Seq::<char>::empty());
    if items.len() == 0 {
        assert(items.push(x).first() == x);
        assert(items.push(x).drop_first() =~= Seq::<Seq<char>>::empty());
        assert(list_lines(items.push(x)) == "* "@ + x + "\n"@ + list_lines(
            Seq::<Seq<char>>::empty(),
        ));
        assert(list_lines(items.push(x)) =~= list_lines(items) + ("* "@ + x + "\n"@));
    } else {
        assert(items.push(x).first() == items.first());
        assert(items.push(x).drop_first() =~= items.drop_first().push(x));
        lemma_list_lines_push(items.drop_first(), x);
        assert(list_lines(items.push(x)) == "* "@ + items.first() + "\n"@ + list_lines(
            items.drop_first().push(x),
        ));
        assert(list_lines(items) == "* "@ + items.first() + "\n"@ + list_lines(
            items.drop_first(),
        ));
        assert(list_lines(items.push(x)) =~= list_lines(items) + ("* "@ + x + "\n"@));
    }
}

/// An optional piece of text, or nothing.
pub open spec fn opt_text(o: Option<Seq<char>>) -> Seq<char> {
    match o {
        Some(s) => s,
        None => Seq::empty(),
    }
}

/// The canonical Gemtext of one node, terminated by a line feed.
pub open spec fn node_gemtext(n: NodeV) -> Seq<char> {
    match n {
        NodeV::Text { text } => text + "\n"@,
        NodeV::Link { to, label } => match label {
            Some(l) => "=> "@ + to + " "@ + l + "\n"@,
            None => "=> "@ + to + "\n"@,
        },
        NodeV::Heading { level, text } => heading_marker(level) + " "@ + text + "\n"@,
        NodeV::List { items } => if items.len() == 0 {
            "\n"@
        } else {
            list_lines(items)
        },
        NodeV::Blockquote { text } => "> "@ + text + "\n"@,
        NodeV::Preformatted { alt, text } => "```"@ + opt_text(alt) + "\n"@ + text + "```\n"@,
        NodeV::Whitespace => "\n"@,
    }
}

/// The canonical Gemtext of a node sequence, before the final trailing
/// normalization.
pub open spec fn nodes_gemtext(ns: Seq<NodeV>) -> Seq<char>
    decreases ns.len(),
{
    if ns.len() == 0 {
        Seq::empty()
    } else {
        node_gemtext(ns.first()) + nodes_gemtext(ns.drop_first())
    }
}

/// Appending a node appends its text.
pub proof fn lemma_nodes_gemtext_push(ns: Seq<NodeV>, n: NodeV)
    ensures
        nodes_gemtext(ns.push(n)) == nodes_gemtext(ns) + node_gemtext(n),
    decreases ns.len(),
{
    assert(nodes_gemtext(Seq::<NodeV>::empty()) == Seq::<char>::empty());
    if ns.len() == 0 {
        assert(ns.push(n).first() == n);
        assert(ns.push(n).drop_first() =~= Seq::<NodeV>::empty());
        assert(nodes_gemtext(ns.push(n)) == node_gemtext(n) + nodes_gemtext(
            Seq::<NodeV>::empty(),
        ));
        assert(nodes_gemtext(ns.push(n)) =~= nodes_gemtext(ns) + node_gemtext(n));
    } else {
        assert(ns.push(n).first() == ns.first());
        assert(ns.push(n).drop_first() =~= ns.drop_first().push(n));
        lemma_nodes_gemtext_push(ns.drop_first(), n);
        assert(nodes_gemtext(ns.push(n)) == node_gemtext(ns.first()) + nodes_gemtext(
            ns.drop_first().push(n),
        ));
        assert(nodes_gemtext(ns) == node_gemtext(ns.first()) + nodes_gemtext(ns.drop_first()));
        assert(nodes_gemtext(ns.push(n)) =~= nodes_gemtext(ns) + node_gemtext(n));
    }
}

/// Concatenating node sequences concatenates their texts.
pub proof fn lemma_nodes_gemtext_add(a: Seq<NodeV>, b: Seq<NodeV>)
    ensures
        nodes_gemtext(a + b) == nodes_gemtext(a) + nodes_gemtext(b),
    decreases a.len(),
{
    if a.len() == 0 {
        assert(a + b =~= b);
        assert(nodes_gemtext(a) == Seq::<char>::empty());
        assert(nodes_gemtext(a) + nodes_gemtext(b) =~= nodes_gemtext(b));
    } else {
        assert((a + b).first() == a.first());
        assert((a + b).drop_first() =~= a.drop_first() + b);
        lemma_nodes_gemtext_add(a.drop_first(), b);
        assert(nodes_gemtext(a + b) == node_gemtext(a.first()) + nodes_gemtext(
            a.drop_first() + b,
        ));
        assert(nodes_gemtext(a) == node_gemtext(a.first()) + nodes_gemtext(a.drop_first()));
        assert(node_gemtext(a.first()) + (nodes_gemtext(a.drop_first()) + nodes_gemtext(b)) =~= (
        node_gemtext(a.first()) + nodes_gemtext(a.drop_first())) + nodes_gemtext(b));
    }
}

/// The final normalization of serialized output: a single trailing line
/// feed, one that does not close a trailing blank line, is removed.
pub open spec fn trim_last_nl(s: Seq<char>) -> Seq<char> {
    if s.len() >= 1 && s.last() == '\n' && !(s.len() >= 2 && s[s.len() - 2] == '\n') {
        s.drop_last()
    } else {
        s
    }
}

/// The canonical Gemtext of a node sequence: the nodes' texts concatenated
/// in order, then normalized at the tail.
pub open spec fn render_gemtext(ns: Seq<NodeV>) -> Seq<char> {
    trim_last_nl(nodes_gemtext(ns))
}

/// A link line in canonical form: exactly the marker, the destination, and
/// the label tokens single-spaced.
pub open spec fn canonical_link(l: Seq<char>) -> bool {
    let ts = link_tokens(l);
    ts.len() > 0 && (match link_label(ts) {
        Some(lab) => l == "=> "@ + ts[0] + " "@ + lab,
        None => l == "=> "@ + ts[0],
    })
}

/// A heading line in canonical form: at most three marker characters, one
/// space, then the untrimmable text.
pub open spec fn canonical_heading(l: Seq<char>) -> bool {
    run_len(l, '#') <= 3 && l == heading_marker(heading_level(l)) + " "@ + heading_text(l)
}

/// A list-item line in canonical form: the marker, one space, then the
/// untrimmable item.
pub open spec fn canonical_item(l: Seq<char>) -> bool {
    l == "* "@ + item_text(l)
}

/// A blockquote line in canonical form.
pub open spec fn canonical_quote(l: Seq<char>) -> bool {
    l == "> "@ + quote_text(l)
}

/// An opening fence line in canonical form: the full three-character fence,
/// then any alt-text.
pub open spec fn canonical_open(l: Seq<char>) -> bool {
    l.len() >= 3 && l.take(3) == "```"@
}

/// A closing fence line in canonical form: the bare fence.
pub open spec fn canonical_close(l: Seq<char>) -> bool {
    l == "```"@
}

/// Whether one line, handled outside any open context, serializes back to
/// itself.
pub open spec fn wf_line(l: Seq<char>) -> bool {
    match classify(l) {
        LineKind::Empty => true,
        LineKind::Link => canonical_link(l),
        LineKind::Heading => canonical_heading(l),
        LineKind::ListItem => canonical_item(l),
        LineKind::Quote => canonical_quote(l),
        LineKind::Fence => canonical_open(l),
        LineKind::Plain => true,
    }
}

/// The three modes the scanner can stand in, with the carried data left
/// out.
pub enum ScanMode {
    /// No context open.
    Outside,
    /// A list run is open.
    Listing,
    /// A preformatted block is open.
    Fenced,
}

/// The mode of a scanner state.
pub open spec fn mode_of(st: ScanState) -> ScanMode {
    match st {
        ScanState::Normal => ScanMode::Outside,
        ScanState::InList { .. } => ScanMode::Listing,
        ScanState::InPre { .. } => ScanMode::Fenced,
    }
}

/// The mode after one line handled outside an open context.
pub open spec fn mode_after(l: Seq<char>) -> ScanMode {
    match classify(l) {
        LineKind::ListItem => ScanMode::Listing,
        LineKind::Fence => ScanMode::Fenced,
        _ => ScanMode::Outside,
    }
}

/// Lines that scan cleanly from a mode: each canonical for its kind, and
/// every open fence closed by a bare closing fence.
pub open spec fn wf_scan(ls: Seq<Seq<char>>, m: ScanMode) -> bool
    decreases ls.len(),
{
    if ls.len() == 0 {
        !(m is Fenced)
    } else {
        let l = ls.first();
        let rest = ls.drop_first();
        match m {
            ScanMode::Fenced => if classify(l) is Fence {
                canonical_close(l) && wf_scan(rest, ScanMode::Outside)
            } else {
                wf_scan(rest, ScanMode::Fenced)
            },
            ScanMode::Listing => if classify(l) is ListItem {
                canonical_item(l) && wf_scan(rest, ScanMode::Listing)
            } else {
                wf_line(l) && wf_scan(rest, mode_after(l))
            },
            ScanMode::Outside => wf_line(l) && wf_scan(rest, mode_after(l)),
        }
    }
}

/// The text that the open scanner state has already consumed from the
/// source.
pub open spec fn consumed(st: ScanState) -> Seq<char> {
    match st {
        ScanState::Normal => Seq::empty(),
        ScanState::InList { items } => list_lines(items),
        ScanState::InPre { alt, content } => "```"@ + alt + "\n"@ + content,
    }
}

} // verus!
