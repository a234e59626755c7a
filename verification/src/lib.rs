//! Loosely-structured version strings: parsing, total ordering, rendering.
//!
//! A version string such as `"1.2.0"`, `"1.0.b1"` or `"7.4.1 (4452929)"` is
//! scanned into a sequence of components, each a non-negative integer or an
//! alphabetic identifier. Versions compare component by component, treating a
//! missing trailing component as the number zero, with the twist that a
//! missing component outranks a present identifier.

pub mod component;
pub mod laws;
pub mod scanner;
pub mod version;

pub use component::COMPONENT_SEPARATORS;
pub use component::Component;
pub use component::SpecComponent;
pub use scanner::ComponentParser;
pub use scanner::ParseVersionError;
pub use version::Version;
