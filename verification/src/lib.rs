//! Turns a stream of photoplotter commands into vector outlines: stroked
//! shapes swept by an aperture, and filled regions with nested contours.

pub mod parser;
pub mod plotter;
