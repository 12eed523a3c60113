//! ROS2 message types and topic metadata.

pub mod msg;
pub mod topic;
