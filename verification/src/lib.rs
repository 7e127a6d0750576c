//! Support routines for generating the native side of a language bridge.
//!
//! - `guard` cuts the sections that one guard protects out of a canonical
//!   text and writes them as one fragment.
//! - `includes` collects the headers that a generated file has to pull in and
//!   renders them in a fixed order.
//! - `qualified` reads names such as `a::b::c`, from tokens or from a string
//!   literal.
//! - `out` is the output that fragments are written to, and `text` holds the
//!   functions on characters that the others share.

pub mod guard;
pub mod includes;
pub mod out;
pub mod qualified;
pub mod text;
