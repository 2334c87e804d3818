//! Verified core of the path-planning front end: screen navigation, the 2D
//! simulation state and its reaction to clicks and planner messages, the
//! requests sent to the robot bridge, and the text processing that prepares
//! the navigation parameters and map files.

pub mod states;
pub mod navigation;
pub mod text;
pub mod nav2_params;
pub mod setup;
pub mod simulation;
pub mod bridge;
pub mod ui;
pub mod urdf;
