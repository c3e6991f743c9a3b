//! Conversion of a lexed token sequence into a flat forest of syntax nodes.
//!
//! Every token is classified by its category alone; an identifier followed by
//! an opening parenthesis heads a function call whose arguments are resolved
//! recursively up to the matching closing parenthesis. Malformed input never
//! aborts the conversion: unexpected tokens become inert error nodes, an
//! argument list cut off by the end of input keeps its arguments and gains a
//! trailing error node, and a call nested past `MAX_NESTING` argument lists
//! becomes an error node whose argument list is skipped.
mod parser;
mod rules;
mod token;
mod tree;

pub use parser::convert;
pub use parser::Parser;
pub use rules::argument_nodes;
pub use rules::arguments_apart;
pub use rules::collected;
pub use rules::converted;
pub use rules::is_argument;
pub use rules::is_bare_identifier;
pub use rules::leaf_of;
pub use rules::lemma_call_shape;
pub use rules::lemma_classification_is_local;
pub use rules::lemma_collected_shrinks;
pub use rules::lemma_converted_bounded;
pub use rules::lemma_lone_identifier;
pub use rules::lemma_resolved_shrinks;
pub use rules::opens_call;
pub use rules::resolved;
pub use rules::skipped;
pub use rules::lemma_skipped_shrinks;
pub use rules::MAX_NESTING;
pub use token::Token;
pub use token::TokenType;
pub use tree::leaf;
pub use tree::node_model;
pub use tree::nodes_model;
pub use tree::payload_model;
pub use tree::Node;
pub use tree::NodeModel;
pub use tree::NodeType;
pub use tree::Payload;
pub use tree::PayloadModel;
pub use tree::Tree;
