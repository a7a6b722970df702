//! Simulation core of a top-down stealth encounter: bodies moving through a
//! graph of rooms, their collisions, enemy perception, combat and doors.
//!
//! Geometry is fixed point: one unit is a millionth of a room's height.
//! Time is counted in milliseconds.
pub mod ai;
pub mod builder;
pub mod collision;
pub mod combat;
pub mod doors;
pub mod entity;
pub mod geom;
pub mod level;
pub mod motion;
