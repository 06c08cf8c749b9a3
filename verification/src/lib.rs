//! Reactive text templates.
//!
//! A template mixes literal text, command expressions written between `{{` and
//! `}}`, and variable references written as `#name`. The parser turns a template
//! into an ordered list of segments; the slot table keeps the current value of
//! each segment and joins them into the rendered string whenever one changes.
//!
//! `grammar` says what a template means, `parser` reads one, `slots` keeps the
//! values, `template` sets a parsed template up to run, and `modules` holds
//! the configuration of the widgets that show rendered templates.

pub mod grammar;
pub mod modules;
pub mod parser;
pub mod segment;
pub mod slots;
pub mod template;
pub mod text;
