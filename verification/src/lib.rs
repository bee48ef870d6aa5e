//! Perception for a ground robot that sweeps a rangefinder on a servo: the
//! rangefinder's wire format and its configuration handshake, the order of
//! work in a sweep, and the way from a cloud of points to straight runs, to
//! walls, and to an occupancy grid with its picture.
//!
//! Everything here works on whole numbers. Reading the serial link, moving
//! the servo and turning a distance and an angle into a point are left to
//! the caller.

pub mod drive;
pub mod geometry;
pub mod grid;
pub mod handshake;
pub mod protocol;
pub mod scanner;
pub mod servo;
pub mod walls;
