//! A Gemtext library: a verified line-oriented parser that turns Gemtext
//! source into a sequence of nodes, a canonical serializer that turns the
//! nodes back into Gemtext, renderers to HTML and Markdown, and the small
//! companion pieces of a Gemini client: response-header structuring, meta
//! (mime) handling, status codes and quick line builders.

pub mod ast;
pub mod convert;
pub mod meta;
pub mod quick;
pub mod request;
pub mod text;
