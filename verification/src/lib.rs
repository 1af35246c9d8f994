//! Three fractal engines on an integer plane, each proved against its
//! statement: an L-system with a turtle, the midpoint displacement of a
//! line, and the editor of a composite cubic Bezier curve.
//!
//! All numbers are integers that count thousandths of a unit. What needs
//! sines and cosines, a screen or a file stays with the caller.

pub mod bezier;
pub mod geometry;
pub mod l_system;
pub mod midpoint_displacement;
pub mod number;
pub mod random;
pub mod session;
pub mod text;
