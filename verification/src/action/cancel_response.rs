//! Return codes from `action_msgs/srv/CancelGoal.idl` (`Response.return_code`).

use vstd::prelude::*;

verus! {

pub const ERROR_NONE: i8 = 0;
pub const ERROR_REJECTED: i8 = 1;
pub const ERROR_UNKNOWN_GOAL_ID: i8 = 2;
pub const ERROR_GOAL_TERMINATED: i8 = 3;

} // verus!
