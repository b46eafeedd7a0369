//! Positional ("tuple form") and dual-mode codecs for records with named fields.
//!
//! A record definition is split into the directives this library understands and
//! the foreign annotations it forwards untouched; the fields are put into a
//! resolved wire order; and the resulting [`codec::Codec`] encodes record values as
//! an ordered sequence or a keyed object, and decodes either form.

pub mod annotation;
pub mod descriptor;
pub mod order;
pub mod value;
pub mod codec;
pub mod laws;
