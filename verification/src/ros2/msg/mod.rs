//! ROS2 message definitions.

pub mod std_msgs;
