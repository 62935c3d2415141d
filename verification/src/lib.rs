//! Merges diagnostics mined from build and run logs with those of a
//! language-server backend, and relays the editor protocol between the two.

pub mod diagnostic;
pub mod decimal;
pub mod framing_laws;
pub mod json;
pub mod log_parser;
pub mod lsp_diagnosis;
pub mod lsp_io;
pub mod lsp_mainloop;
pub mod order;
pub mod parser_laws;
pub mod pattern;
pub mod relay_laws;
pub mod resolver;
pub mod search_laws;
pub mod store;
pub mod store_laws;
pub mod text;
pub mod watch;
