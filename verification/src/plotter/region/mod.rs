//! Filled regions: the contours of an outline and how they nest.

pub mod compose;
pub mod contours;
pub mod crossings;
pub mod edge;
pub mod laws;
pub mod nesting;
pub mod region_impl;
pub mod stroke_path;

pub use compose::{compose_regions, Composition};
pub use contours::{split_region_paths, Split};
pub use crossings::{find_intersection_and_elements, Crossing};
pub use edge::Edge;
pub use nesting::{compare_path, Nesting, Probe};
pub use region_impl::Region;
pub use stroke_path::to_stroke_around_path;
