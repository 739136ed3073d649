//! The geometric engine's combinatorial core.

pub mod circular_direction;
pub mod path;
pub mod plotter;
pub mod raw_path;
pub mod rect_path_helper;
pub mod stroke_path_element;
pub mod region;
pub mod tools;
pub mod tree;

pub use circular_direction::CircularDirection;
pub use path::{Path, PathType, Point, RawArc, Segment};
pub use rect_path_helper::{RectDir, Sign};
pub use stroke_path_element::{stroke_plans, CapPiece, ElementPlan, Piece, Turn};
pub use tree::{tr, Forest, Tree, TreeView};
