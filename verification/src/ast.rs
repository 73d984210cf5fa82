//! The Gemtext document tree: the node vocabulary, the parser that builds a
//! tree from source text, the canonical serializer that turns it back into
//! Gemtext, and the proved round-trip law relating the two.

pub mod container;
pub mod laws;
pub mod model;
pub mod node;

pub use container::Ast;
pub use laws::lemma_round_trip;
pub use laws::well_formed;
pub use model::GemtextError;
pub use model::parse_gemtext;
pub use model::render_gemtext;
pub use node::Node;
pub use node::NodeV;
