//! An HTTP request router built on per-method route tables with verified
//! registration, matching, path correction and dispatch decisions.
pub mod text;
pub mod params;
pub mod path;
pub mod pattern;
pub mod tree;
pub mod router;
pub mod laws;

pub use params::{Param, Params};
pub use path::clean_path;
pub use router::{Answer, Route};
pub use tree::{Node, RouteError};
