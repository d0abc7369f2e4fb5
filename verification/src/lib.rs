//! Catalog model, parser, serializer and editing session for gettext PO files.

pub mod clock;
pub mod escape;
pub mod gettext;
pub mod header;
pub mod laws;
pub mod layout;
pub mod model;
pub mod parser;
pub mod roundtrip;
pub mod serializer;
pub mod session;
pub mod text;
pub mod ui;
