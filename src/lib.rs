//! Terminal capability detection: the width of the terminal, the formatting
//! features of the terminal application, and OSC control sequences.
pub mod terminal;
pub mod text;

pub use terminal::{columns, columns_from_env, get_vte_version, osc, Format, FormatView, Terminal, OSC};
