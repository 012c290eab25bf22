//! Element matching for CSS selectors over an HTML document tree.
//!
//! The library holds the parts of selector matching that decide something:
//! how pseudo-class names are recognised, how an element's name, attributes,
//! classes and position in the tree answer the questions a selector engine
//! asks, and the small value types that a selector implementation needs.

pub mod bytes;
pub mod attr;
pub mod css;
pub mod pseudo;
pub mod dom;
pub mod element;
pub mod selector_list;
