//! Library side of a terminal browser for publication artefacts: artefact
//! path parsing, the `meta.toml` subject line, the publications pane state
//! and the text that the chrome shows.

pub mod artefact;
pub mod text;
pub mod ui;
