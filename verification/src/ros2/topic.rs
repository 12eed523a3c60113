//! Metadata describing a ROS2 topic as seen by the DDS / XRCE-DDS layer.

use vstd::prelude::*;

verus! {

/// Metadata describing a ROS2 topic as seen by the DDS / XRCE-DDS layer.
pub struct TopicDescriptor {
    /// DDS topic name. Convention: ROS2 topic `/foo/bar` → `"rt/foo/bar"`.
    pub dds_name: &'static str,
    /// DDS type name, e.g. `"std_msgs::msg::dds_::Float32_"`.
    pub dds_type: &'static str,
    /// RIHS01 type hash (SHA-256-based), `None` until computed.
    pub type_hash: Option<[u8; 32]>,
}

impl TopicDescriptor {
    pub fn new(dds_name: &'static str, dds_type: &'static str) -> (t: Self)
        ensures
            t.dds_name == dds_name,
            t.dds_type == dds_type,
            t.type_hash is None,
    {
        Self { dds_name, dds_type, type_hash: None }
    }

    pub fn with_hash(self, hash: [u8; 32]) -> (t: Self)
        ensures
            t.dds_name == self.dds_name,
            t.dds_type == self.dds_type,
            t.type_hash == Some(hash),
    {
        let mut s = self;
        s.type_hash = Some(hash);
        s
    }
}

} // verus!
