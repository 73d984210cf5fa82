//! Quick one-line builders for Gemtext: each returns the line (or block) a
//! single element serializes to, without going through a document tree.

use vstd::prelude::*;
use vstd::string::*;

verus! {

/// A heading depth for [`heading`].
pub enum HeadingLevel {
    /// A top-level heading.
    One,
    /// A sub-heading.
    Two,
    /// A sub-sub-heading.
    Three,
}

/// The marker a heading depth writes.
pub open spec fn level_marker(level: HeadingLevel) -> Seq<char> {
    match level {
        HeadingLevel::One => "#"@,
        HeadingLevel::Two => "##"@,
        HeadingLevel::Three => "###"@,
    }
}

/// Build a heading line: the marker, one space, the text.
pub fn heading(text: &str, level: &HeadingLevel) -> (r: String)
    ensures
        r@ == level_marker(*level) + " "@ + text@,
{
    let mut out = String::new();
    match level {
        HeadingLevel::One => out.append("#"),
        HeadingLevel::Two => out.append("##"),
        HeadingLevel::Three => out.append("###"),
    }
    out.append(" ");
    out.append(text);
    out
}

/// Build a list-item line.
pub fn list_item(text: &str) -> (r: String)
    ensures
        r@ == "* "@ + text@,
{
    let mut out = String::new();
    out.append("* ");
    out.append(text);
    proof {
        assert(out@ =~= "* "@ + text@);
    }
    out
}

/// The views of a sequence of string slices.
pub open spec fn str_views(items: Seq<&str>) -> Seq<Seq<char>> {
    items.map_values(|s: &str| s@)
}

/// The text of a list block: one marker line per item, joined with line
/// feeds.
pub open spec fn list_block(items: Seq<Seq<char>>) -> Seq<char>
    decreases items.len(),
{
    if items.len() == 0 {
        Seq::empty()
    } else if items.len() == 1 {
        "* "@ + items[0]
    } else {
        "* "@ + items[0] + "\n"@ + list_block(items.drop_first())
    }
}

/// Appending an item appends its marker line after a separator, except to
/// an empty list.
proof fn lemma_list_block_push(items: Seq<Seq<char>>, x: Seq<char>)
    ensures
        items.len() == 0 ==> list_block(items.push(x)) == "* "@ + x,
        items.len() > 0 ==> list_block(items.push(x)) == list_block(items) + "\n"@ + ("* "@ + x),
    decreases items.len(),
{
    if items.len() == 0 {
        assert(items.push(x).len() == 1);
        assert(items.push(x)[0] == x);
    } else if items.len() == 1 {
        assert(items.push(x)[0] == items[0]);
        assert(items.push(x).drop_first() =~= seq![x]);
        assert(list_block(seq![x]) == "* "@ + x);
        assert(list_block(items.push(x)) == "* "@ + items[0] + "\n"@ + ("* "@ + x));
        assert(list_block(items) == "* "@ + items[0]);
        assert(list_block(items.push(x)) =~= list_block(items) + "\n"@ + ("* "@ + x));
    } else {
        assert(items.push(x)[0] == items[0]);
        assert(items.push(x).drop_first() =~= items.drop_first().push(x));
        lemma_list_block_push(items.drop_first(), x);
        assert(list_block(items.push(x)) == "* "@ + items[0] + "\n"@ + list_block(
            items.drop_first().push(x),
        ));
        assert(list_block(items) == "* "@ + items[0] + "\n"@ + list_block(items.drop_first()));
        assert(list_block(items.push(x)) =~= list_block(items) + "\n"@ + ("* "@ + x));
    }
}

/// Build a whole list block from items.
pub fn list_items(items: &[&str]) -> (r: String)
    ensures
        r@ == list_block(str_views(items@)),
{
    let ghost dv = str_views(items@);
    let mut out = String::new();
    let mut j: usize = 0;
    proof {
        assert(dv.take(0) =~= Seq::<Seq<char>>::empty());
        assert(list_block(Seq::<Seq<char>>::empty()) == Seq::<char>::empty());
    }
    while j < items.len()
        invariant
            0 <= j <= items@.len(),
            dv == str_views(items@),
            dv.len() == items@.len(),
            out@ == list_block(dv.take(j as int)),
        decreases items@.len() - j,
    {
        if j > 0 {
            out.append("\n");
        }
        out.append("* ");
        out.append(items[j]);
        proof {
            assert(dv[j as int] == items@[j as int]@);
            assert(dv.take(j + 1) =~= dv.take(j as int).push(dv[j as int]));
            lemma_list_block_push(dv.take(j as int), dv[j as int]);
        }
        j = j + 1;
    }
    proof {
        assert(dv.take(dv.len() as int) =~= dv);
    }
    out
}

/// Build a link line: the marker, the destination, then the label when one
/// is given.
pub fn link(text: &str, location: Option<&str>) -> (r: String)
    ensures
        r@ == "=> "@ + text@ + (match location {
            Some(l) => " "@ + l@,
            None => Seq::<char>::empty(),
        }),
{
    let mut out = String::new();
    out.append("=> ");
    out.append(text);
    match location {
        Some(l) => {
            out.append(" ");
            out.append(l);
        },
        None => {},
    }
    proof {
        assert(out@ =~= "=> "@ + text@ + (match location {
            Some(l) => " "@ + l@,
            None => Seq::<char>::empty(),
        }));
    }
    out
}

/// Build a blockquote line.
pub fn block_quote(text: &str) -> (r: String)
    ensures
        r@ == "> "@ + text@,
{
    let mut out = String::new();
    out.append("> ");
    out.append(text);
    proof {
        assert(out@ =~= "> "@ + text@);
    }
    out
}

/// Build a whole preformatted block: the opening fence with its alt-text,
/// the content, and the closing fence.
pub fn preformatted_text(text: &str, alt_text: Option<&str>) -> (r: String)
    ensures
        r@ == "```"@ + (match alt_text {
            Some(a) => a@,
            None => Seq::<char>::empty(),
        }) + "\n"@ + text@ + "\n```"@,
{
    let mut out = String::new();
    out.append("```");
    match alt_text {
        Some(a) => out.append(a),
        None => {},
    }
    out.append("\n");
    out.append(text);
    out.append("\n```");
    proof {
        assert(out@ =~= "```"@ + (match alt_text {
            Some(a) => a@,
            None => Seq::<char>::empty(),
        }) + "\n"@ + text@ + "\n```"@);
    }
    out
}

} // verus!
