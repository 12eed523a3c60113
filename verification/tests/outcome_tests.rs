//! What the action and message layers make of replies and samples.

use micro_xrce_dds_rs::{
    action::{
        accept_reply, cancel_outcome, cancel_response, get_result_outcome, goal_ids_equal, goal_status,
        result_reply, send_goal_outcome, Action, ActiveGoalCancelState, CancelGoalRequest, CancelGoalResponse,
        GetResultResponse, GoalId, GoalInfo, GoalStatusArray, SendGoalResponse, SendGoalResponseFor, Time,
    },
    cdr::CdrWriter,
    cdr_reader::CdrReader,
    msg::std_msgs::{Int32, StringOwned},
    Error, Message,
};

struct Count;
impl Action for Count {
    type Goal = Int32;
    type Result = Int32;
    type Feedback = Int32;

    const ACTION_NAME: &'static str = "/count";
    const GOAL_TYPE_NAME: &'static str = "test::action::dds_::Count_Goal_";
    const RESULT_TYPE_NAME: &'static str = "test::action::dds_::Count_Result_";
    const FEEDBACK_TYPE_NAME: &'static str = "test::action::dds_::Count_Feedback_";
    const SEND_GOAL_SERVICE_NAME: &'static str = "/count/_action/send_goal";
    const GET_RESULT_SERVICE_NAME: &'static str = "/count/_action/get_result";
    const CANCEL_GOAL_SERVICE_NAME: &'static str = "/count/_action/cancel_goal";
    const FEEDBACK_TOPIC_NAME: &'static str = "/count/_action/feedback";
    const STATUS_TOPIC_NAME: &'static str = "/count/_action/status";
    const SEND_GOAL_REQUEST_TYPE_NAME: &'static str = "test::action::dds_::Count_SendGoal_Request_";
    const SEND_GOAL_RESPONSE_TYPE_NAME: &'static str = "test::action::dds_::Count_SendGoal_Response_";
    const GET_RESULT_REQUEST_TYPE_NAME: &'static str = "test::action::dds_::Count_GetResult_Request_";
    const GET_RESULT_RESPONSE_TYPE_NAME: &'static str = "test::action::dds_::Count_GetResult_Response_";
    const FEEDBACK_MESSAGE_TYPE_NAME: &'static str = "test::action::dds_::Count_FeedbackMessage_";
}

const GOAL: GoalId = GoalId([7u8; 16]);

fn cancel_request(goal_id: GoalId) -> CancelGoalRequest {
    CancelGoalRequest { goal_info: GoalInfo { goal_id, stamp: Time::zero() } }
}

#[test]
fn send_goal_outcomes() {
    let stamp = Time { sec: 5, nanosec: 6 };
    let yes = SendGoalResponseFor::<Count>::new(SendGoalResponse { accepted: true, stamp });
    assert_eq!(send_goal_outcome(&yes), Ok(stamp));
    let no = SendGoalResponseFor::<Count>::new(SendGoalResponse { accepted: false, stamp });
    assert_eq!(send_goal_outcome(&no), Err(Error::GoalRejected));
    let r = accept_reply::<Count>();
    assert!(r.inner.accepted);
    assert_eq!(r.inner.stamp, Time::zero());
}

#[test]
fn get_result_outcomes() {
    let ok = GetResultResponse::<Count> { status: goal_status::STATUS_SUCCEEDED, result: Int32(55) };
    assert_eq!(get_result_outcome(ok).unwrap(), Int32(55));
    let aborted = GetResultResponse::<Count> { status: goal_status::STATUS_ABORTED, result: Int32(0) };
    assert_eq!(get_result_outcome(aborted).err(), Some(Error::GoalNotSucceeded(goal_status::STATUS_ABORTED)));
}

#[test]
fn cancel_outcomes() {
    assert_eq!(cancel_outcome(&CancelGoalResponse::with_code(cancel_response::ERROR_NONE)), Ok(()));
    assert_eq!(
        cancel_outcome(&CancelGoalResponse::with_code(cancel_response::ERROR_UNKNOWN_GOAL_ID)),
        Err(Error::AgentRejected(2))
    );
    assert_eq!(cancel_outcome(&CancelGoalResponse::with_code(-1)), Err(Error::AgentRejected(0xFF)));
}

#[test]
fn result_reply_checks_goal() {
    let other = GoalId([8u8; 16]);
    let r = result_reply::<Count>(&GOAL, &GOAL, goal_status::STATUS_SUCCEEDED, Int32(3)).unwrap();
    assert_eq!(r.status, goal_status::STATUS_SUCCEEDED);
    assert_eq!(r.result, Int32(3));
    assert_eq!(result_reply::<Count>(&GOAL, &other, goal_status::STATUS_SUCCEEDED, Int32(3)).err(), Some(Error::UnexpectedReply));
    assert!(goal_ids_equal(&GOAL, &GoalId([7u8; 16])));
    assert!(!goal_ids_equal(&GOAL, &other));
}

#[test]
fn cancel_answers_against_active_goal() {
    let mut s = ActiveGoalCancelState::new();
    // No goal active: the goal is reported terminated.
    let resp = s.answer_cancel(&cancel_request(GOAL));
    assert_eq!(resp.return_code, cancel_response::ERROR_GOAL_TERMINATED);
    assert!(resp.goals_canceling.is_empty());
    assert!(!s.is_cancel_requested());

    s.set_active(GOAL);
    // Another goal: unknown.
    let resp = s.answer_cancel(&cancel_request(GoalId([8u8; 16])));
    assert_eq!(resp.return_code, cancel_response::ERROR_UNKNOWN_GOAL_ID);
    assert!(!s.is_cancel_requested());
    // The active goal: accepted and flagged.
    let resp = s.answer_cancel(&cancel_request(GOAL));
    assert_eq!(resp.return_code, cancel_response::ERROR_NONE);
    assert!(s.is_cancel_requested());
    assert!(s.matches(&GOAL));
}

#[test]
fn single_status_array() {
    let a = GoalStatusArray::single(GOAL, goal_status::STATUS_EXECUTING);
    assert_eq!(a.status_list.len(), 1);
    assert_eq!(a.status_list[0].goal_info.goal_id, GOAL);
    assert_eq!(a.status_list[0].goal_info.stamp, Time::zero());
    assert_eq!(a.status_list[0].status, goal_status::STATUS_EXECUTING);
}

#[test]
fn goal_ids_differ_from_writer_guids() {
    let g = GoalId::from_seq([1, 2, 3, 4], 0x0017, 1);
    let w = micro_xrce_dds_rs::service::derive_writer_guid(&[1, 2, 3, 4], 0x0017);
    assert_ne!(g.0, w);
    assert_eq!(&g.0[14..16], b"AC");
}

#[test]
fn int32_round_trip() {
    let mut buf = [0u8; 8];
    let n = {
        let mut w = CdrWriter::new(&mut buf);
        Int32(-123_456).serialize(&mut w);
        w.bytes_written()
    };
    assert_eq!(n, 4);
    assert_eq!(&buf[..4], &(-123_456i32).to_le_bytes());
    let mut r = CdrReader::from_body(&buf[..n]);
    assert_eq!(Int32::deserialize(&mut r).unwrap(), Int32(-123_456));
    let mut r = CdrReader::from_body(&buf[..3]);
    assert_eq!(Int32::deserialize(&mut r).err(), Some(Error::Deserialization));
}

#[test]
fn string_owned_round_trip() {
    let mut s = StringOwned::default();
    s.data.push_str("hello").unwrap();
    let mut buf = [0u8; 32];
    let n = {
        let mut w = CdrWriter::new(&mut buf);
        s.serialize(&mut w);
        w.bytes_written()
    };
    assert_eq!(n, 10);
    assert_eq!(&buf[..10], &[6, 0, 0, 0, b'h', b'e', b'l', b'l', b'o', 0]);
    let mut r = CdrReader::from_body(&buf[..n]);
    assert_eq!(StringOwned::deserialize(&mut r).unwrap().data.as_str(), "hello");
}

#[test]
fn string_owned_refuses_invalid_text() {
    // Not UTF-8.
    let bad = [3, 0, 0, 0, 0xFF, 0xFE, 0];
    let mut r = CdrReader::from_body(&bad);
    assert_eq!(StringOwned::deserialize(&mut r).err(), Some(Error::Deserialization));
    // Longer than the 64-byte capacity.
    let mut long = vec![66u8, 0, 0, 0];
    long.extend(std::iter::repeat(b'a').take(65));
    long.push(0);
    let mut r = CdrReader::from_body(&long);
    assert_eq!(StringOwned::deserialize(&mut r).err(), Some(Error::Deserialization));
}
