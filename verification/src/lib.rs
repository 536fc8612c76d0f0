//! A pretty-printing engine: documents are built from text fragments, line
//! breaks, indentation and layout alternatives, and rendered against a target
//! page width, choosing for each group of content whether to lay it out on
//! one line or break it across multiple indented lines.
//!
//! [`doc`] holds the document algebra and the flatten transform; [`layout`]
//! the width-aware layout engine and its laws; [`output`] the token stream
//! that rendering produces and its stringification; [`state`] the rendering
//! state record.
pub mod doc;
pub mod layout;
pub mod output;
pub mod state;
