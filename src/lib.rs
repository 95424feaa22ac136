//! Sensing and kinematics of a single robot in a 2D arena: segment and
//! rectangle intersection on exact integer geometry, a fan of ray sensors,
//! and the robot's pose integration and operating mode.
pub mod geometry;
pub mod robot;
pub mod simulation;
pub mod display;
