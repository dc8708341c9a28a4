//! A verified streaming markdown-rendering pipeline: code-block info-string
//! normalization, typographic quote conversion outside verbatim regions, and
//! rewriting of relative link destinations that point at sibling markdown
//! documents, composed over one pass of a structural event stream.

pub mod codeblock;
pub mod events;
pub mod links;
pub mod pipeline;
pub mod quotes;
pub mod text;
