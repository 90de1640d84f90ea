//! The logic of a viewer for robot logs: reading log lines, grouping their
//! records, deciding which series to plot, and the caches kept beside the
//! connection to the robot.
pub mod text;
pub mod assoc;
pub mod number;
pub mod float_text;
pub mod field;
pub mod entry;
pub mod loaded;
pub mod graph;
pub mod grabber;
pub mod viewer;
