//! The fixed-capacity `heapless` collections this library uses — the
//! `heapless::Vec`s carried by action messages and the `heapless::String`s
//! that hold XML entity descriptions and DDS names — and what it relies on
//! of them.

use vstd::prelude::*;
use vstd::string::StringSliceAdditionalSpecFns;
use heapless::String as HString;
use crate::action::{GoalInfo, GoalStatus};

verus! {

#[verifier::external_type_specification]
#[verifier::external_body]
#[verifier::reject_recursive_types(T)]
pub struct ExHeaplessVec<T, const N: usize>(heapless::Vec<T, N>);

/// The goal infos held by a `heapless::Vec<GoalInfo, 4>`, in order.
pub uninterp spec fn goal_infos(v: heapless::Vec<GoalInfo, 4>) -> Seq<GoalInfo>;

/// The goal statuses held by a `heapless::Vec<GoalStatus, 8>`, in order.
pub uninterp spec fn goal_statuses(v: heapless::Vec<GoalStatus, 8>) -> Seq<GoalStatus>;

/// `heapless::Vec::new`: an empty vector.
#[verifier::external_body]
pub(crate) fn goal_infos_new() -> (v: heapless::Vec<GoalInfo, 4>)
    ensures
        goal_infos(v) == Seq::<GoalInfo>::empty(),
{
    heapless::Vec::new()
}

/// `heapless::Vec::push`: appends when below capacity, otherwise hands the
/// item back and leaves the vector as it was.
#[verifier::external_body]
pub(crate) fn goal_infos_push(v: &mut heapless::Vec<GoalInfo, 4>, x: GoalInfo) -> (r: Result<(), GoalInfo>)
    ensures
        r is Ok <==> goal_infos(*old(v)).len() < 4,
        r matches Err(y) ==> y == x,
        goal_infos(*final(v)) == if goal_infos(*old(v)).len() < 4 { goal_infos(*old(v)).push(x) } else { goal_infos(*old(v)) },
{
    v.push(x)
}

/// `heapless::Vec::as_slice`: the items in order; never more than the
/// capacity.
#[verifier::external_body]
pub(crate) fn goal_infos_slice(v: &heapless::Vec<GoalInfo, 4>) -> (s: &[GoalInfo])
    ensures
        s@ == goal_infos(*v),
        s@.len() <= 4,
{
    v.as_slice()
}

/// `heapless::Vec::new`: an empty vector.
#[verifier::external_body]
pub(crate) fn goal_statuses_new() -> (v: heapless::Vec<GoalStatus, 8>)
    ensures
        goal_statuses(v) == Seq::<GoalStatus>::empty(),
{
    heapless::Vec::new()
}

/// `heapless::Vec::push`: appends when below capacity, otherwise hands the
/// item back and leaves the vector as it was.
#[verifier::external_body]
pub(crate) fn goal_statuses_push(v: &mut heapless::Vec<GoalStatus, 8>, x: GoalStatus) -> (r: Result<(), GoalStatus>)
    ensures
        r is Ok <==> goal_statuses(*old(v)).len() < 8,
        r matches Err(y) ==> y == x,
        goal_statuses(*final(v)) == if goal_statuses(*old(v)).len() < 8 { goal_statuses(*old(v)).push(x) } else { goal_statuses(*old(v)) },
{
    v.push(x)
}

/// `heapless::Vec::as_slice`: the items in order; never more than the
/// capacity.
#[verifier::external_body]
pub(crate) fn goal_statuses_slice(v: &heapless::Vec<GoalStatus, 8>) -> (s: &[GoalStatus])
    ensures
        s@ == goal_statuses(*v),
        s@.len() <= 8,
{
    v.as_slice()
}


#[verifier::external_type_specification]
#[verifier::external_body]
pub struct ExHeaplessString<const N: usize>(HString<N>);

/// The bytes held by a `heapless::String<64>`.
pub uninterp spec fn text64(s: HString<64>) -> Seq<u8>;

/// `heapless::String::new`: an empty string.
#[verifier::external_body]
pub(crate) fn text64_new() -> (s: HString<64>)
    ensures
        text64(s) == Seq::<u8>::empty(),
{
    HString::new()
}

/// `heapless::String::push_str`: appends all of `t` when the result fits in
/// the capacity; otherwise fails and leaves the string as it was.
#[verifier::external_body]
pub(crate) fn text64_push_str(s: &mut HString<64>, t: &str) -> (r: Result<(), ()>)
    ensures
        r is Ok <==> text64(*old(s)).len() + t.spec_bytes().len() <= 64,
        text64(*final(s)) == if r is Ok { text64(*old(s)) + t.spec_bytes() } else { text64(*old(s)) },
{
    s.push_str(t)
}

/// `heapless::String::as_str`: the text held, never longer than the
/// capacity.
#[verifier::external_body]
pub(crate) fn text64_as_str(s: &HString<64>) -> (t: &str)
    ensures
        t.spec_bytes() == text64(*s),
        t.spec_bytes().len() <= 64,
{
    s.as_str()
}

/// The bytes held by a `heapless::String<96>`.
pub uninterp spec fn text96(s: HString<96>) -> Seq<u8>;

/// `heapless::String::new`: an empty string.
#[verifier::external_body]
pub(crate) fn text96_new() -> (s: HString<96>)
    ensures
        text96(s) == Seq::<u8>::empty(),
{
    HString::new()
}

/// `heapless::String::push_str`: appends all of `t` when the result fits in
/// the capacity; otherwise fails and leaves the string as it was.
#[verifier::external_body]
pub(crate) fn text96_push_str(s: &mut HString<96>, t: &str) -> (r: Result<(), ()>)
    ensures
        r is Ok <==> text96(*old(s)).len() + t.spec_bytes().len() <= 96,
        text96(*final(s)) == if r is Ok { text96(*old(s)) + t.spec_bytes() } else { text96(*old(s)) },
{
    s.push_str(t)
}

/// `heapless::String::as_str`: the text held, never longer than the
/// capacity.
#[verifier::external_body]
pub(crate) fn text96_as_str(s: &HString<96>) -> (t: &str)
    ensures
        t.spec_bytes() == text96(*s),
        t.spec_bytes().len() <= 96,
{
    s.as_str()
}

/// The bytes held by a `heapless::String<128>`.
pub uninterp spec fn text128(s: HString<128>) -> Seq<u8>;

/// `heapless::String::new`: an empty string.
#[verifier::external_body]
pub(crate) fn text128_new() -> (s: HString<128>)
    ensures
        text128(s) == Seq::<u8>::empty(),
{
    HString::new()
}

/// `heapless::String::push_str`: appends all of `t` when the result fits in
/// the capacity; otherwise fails and leaves the string as it was.
#[verifier::external_body]
pub(crate) fn text128_push_str(s: &mut HString<128>, t: &str) -> (r: Result<(), ()>)
    ensures
        r is Ok <==> text128(*old(s)).len() + t.spec_bytes().len() <= 128,
        text128(*final(s)) == if r is Ok { text128(*old(s)) + t.spec_bytes() } else { text128(*old(s)) },
{
    s.push_str(t)
}

/// `heapless::String::as_str`: the text held, never longer than the
/// capacity.
#[verifier::external_body]
pub(crate) fn text128_as_str(s: &HString<128>) -> (t: &str)
    ensures
        t.spec_bytes() == text128(*s),
        t.spec_bytes().len() <= 128,
{
    s.as_str()
}

/// The bytes held by a `heapless::String<256>`.
pub uninterp spec fn text256(s: HString<256>) -> Seq<u8>;

/// `heapless::String::new`: an empty string.
#[verifier::external_body]
pub(crate) fn text256_new() -> (s: HString<256>)
    ensures
        text256(s) == Seq::<u8>::empty(),
{
    HString::new()
}

/// `heapless::String::push_str`: appends all of `t` when the result fits in
/// the capacity; otherwise fails and leaves the string as it was.
#[verifier::external_body]
pub(crate) fn text256_push_str(s: &mut HString<256>, t: &str) -> (r: Result<(), ()>)
    ensures
        r is Ok <==> text256(*old(s)).len() + t.spec_bytes().len() <= 256,
        text256(*final(s)) == if r is Ok { text256(*old(s)) + t.spec_bytes() } else { text256(*old(s)) },
{
    s.push_str(t)
}

/// `heapless::String::as_str`: the text held, never longer than the
/// capacity.
#[verifier::external_body]
pub(crate) fn text256_as_str(s: &HString<256>) -> (t: &str)
    ensures
        t.spec_bytes() == text256(*s),
        t.spec_bytes().len() <= 256,
{
    s.as_str()
}

/// The bytes held by a `heapless::String<320>`.
pub uninterp spec fn text320(s: HString<320>) -> Seq<u8>;

/// `heapless::String::new`: an empty string.
#[verifier::external_body]
pub(crate) fn text320_new() -> (s: HString<320>)
    ensures
        text320(s) == Seq::<u8>::empty(),
{
    HString::new()
}

/// `heapless::String::push_str`: appends all of `t` when the result fits in
/// the capacity; otherwise fails and leaves the string as it was.
#[verifier::external_body]
pub(crate) fn text320_push_str(s: &mut HString<320>, t: &str) -> (r: Result<(), ()>)
    ensures
        r is Ok <==> text320(*old(s)).len() + t.spec_bytes().len() <= 320,
        text320(*final(s)) == if r is Ok { text320(*old(s)) + t.spec_bytes() } else { text320(*old(s)) },
{
    s.push_str(t)
}

/// `heapless::String::as_str`: the text held, never longer than the
/// capacity.
#[verifier::external_body]
pub(crate) fn text320_as_str(s: &HString<320>) -> (t: &str)
    ensures
        t.spec_bytes() == text320(*s),
        t.spec_bytes().len() <= 320,
{
    s.as_str()
}

/// The bytes held by a `heapless::String<448>`.
pub uninterp spec fn text448(s: HString<448>) -> Seq<u8>;

/// `heapless::String::new`: an empty string.
#[verifier::external_body]
pub(crate) fn text448_new() -> (s: HString<448>)
    ensures
        text448(s) == Seq::<u8>::empty(),
{
    HString::new()
}

/// `heapless::String::push_str`: appends all of `t` when the result fits in
/// the capacity; otherwise fails and leaves the string as it was.
#[verifier::external_body]
pub(crate) fn text448_push_str(s: &mut HString<448>, t: &str) -> (r: Result<(), ()>)
    ensures
        r is Ok <==> text448(*old(s)).len() + t.spec_bytes().len() <= 448,
        text448(*final(s)) == if r is Ok { text448(*old(s)) + t.spec_bytes() } else { text448(*old(s)) },
{
    s.push_str(t)
}

/// `heapless::String::as_str`: the text held, never longer than the
/// capacity.
#[verifier::external_body]
pub(crate) fn text448_as_str(s: &HString<448>) -> (t: &str)
    ensures
        t.spec_bytes() == text448(*s),
        t.spec_bytes().len() <= 448,
{
    s.as_str()
}

} // verus!
