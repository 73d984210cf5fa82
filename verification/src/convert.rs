//! Render a Gemtext document tree into an alternative markup dialect: HTML
//! or Markdown. Rendering is a stateless per-node mapping, concatenated in
//! document order, and has no error conditions.

pub mod html;
pub mod markdown;

use vstd::prelude::*;

use crate::ast::model::parse_gemtext;
use crate::ast::node::{views_of, NodeV};
use crate::ast::{Ast, GemtextError};

verus! {

/// A target markup dialect.
#[derive(Clone)]
pub enum Target {
    /// Render to an HTML fragment.
    HTML,
    /// Render to a Markdown document.
    Markdown,
}

/// The text a node sequence renders to under a target.
pub open spec fn converted(ns: Seq<NodeV>, t: Target) -> Seq<char> {
    match t {
        Target::HTML => html::html_of(ns),
        Target::Markdown => markdown::markdown_of(ns),
    }
}

/// Render a document into the target dialect.
///
/// The result is a function of the document and the target alone, so
/// rendering the same document twice with the same target returns the same
/// text.
pub fn from_ast(source: &Ast, target: &Target) -> (r: String)
    ensures
        r@ == converted(source@, *target),
{
    let nodes = source.inner();
    let slice = nodes.as_slice();
    proof {
        assert(views_of(slice@) =~= nodes.deep_view());
    }
    match target {
        Target::Markdown => markdown::convert(slice),
        Target::HTML => html::convert(slice),
    }
}

/// Rendering is pure: any two results for the same nodes and target are the
/// same text.
pub proof fn lemma_render_pure(ns: Seq<NodeV>, t: Target, r1: Seq<char>, r2: Seq<char>)
    requires
        r1 == converted(ns, t),
        r2 == converted(ns, t),
    ensures
        r1 == r2,
{
}

/// Parse raw Gemtext and render it into the target dialect. The one refused
/// input is a link line with no destination.
pub fn from_string(source: &str, target: &Target) -> (r: Result<String, GemtextError>)
    ensures
        match r {
            Ok(out) => parse_gemtext(source@) is Ok && out@ == converted(
                parse_gemtext(source@)->Ok_0,
                *target,
            ),
            Err(e) => parse_gemtext(source@) == Err::<Seq<NodeV>, GemtextError>(e),
        },
{
    match Ast::from_string(source) {
        Ok(ast) => Ok(from_ast(&ast, target)),
        Err(e) => Err(e),
    }
}

} // verus!
