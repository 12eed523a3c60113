//! Status codes used by the `<Action>_GetResult_Response_` `status` field.

use vstd::prelude::*;

verus! {

pub const STATUS_UNKNOWN: i8 = 0;
pub const STATUS_ACCEPTED: i8 = 1;
pub const STATUS_EXECUTING: i8 = 2;
pub const STATUS_CANCELING: i8 = 3;
pub const STATUS_SUCCEEDED: i8 = 4;
pub const STATUS_CANCELED: i8 = 5;
pub const STATUS_ABORTED: i8 = 6;

} // verus!
